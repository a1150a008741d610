//! Process configuration and its defaults.
use vstd::prelude::*;
use vstd::string::*;

verus! {

/// Where content, templates and output live, how often to generate, and how
/// many workers to use.
#[derive(Debug, Clone)]
pub struct Config {
    pub source_dir: String,
    pub output_dir: String,
    pub templates_dir: String,
    pub interval_seconds: u64,
    pub workers: usize,
    pub verbose: bool,
}

/// Relies on `num_cpus::get`: the number of CPUs this process may use. It
/// depends on the machine, so nothing is stated of it.
#[verifier::external_body]
fn cpu_count() -> (r: usize) {
    num_cpus::get()
}

fn text(s: &str) -> (r: String)
    ensures
        r@ == s@,
{
    let mut r = String::new();
    r.append(s);
    r
}

pub fn default_source_dir() -> (r: String)
    ensures
        r@ == "./content"@,
{
    text("./content")
}

pub fn default_output_dir() -> (r: String)
    ensures
        r@ == "./public"@,
{
    text("./public")
}

pub fn default_templates_dir() -> (r: String)
    ensures
        r@ == "./templates"@,
{
    text("./templates")
}

pub fn default_interval() -> (r: u64)
    ensures
        r == 30,
{
    30
}

/// One worker per CPU, and at least one.
pub fn default_workers() -> (r: usize)
    ensures
        r >= 1,
{
    let n = cpu_count();
    if n > 1 {
        n
    } else {
        1
    }
}

pub fn default_verbose() -> (r: bool)
    ensures
        !r,
{
    false
}

impl Config {
    /// The configuration used when the environment sets nothing.
    pub fn default() -> (r: Config)
        ensures
            r.source_dir@ == "./content"@,
            r.output_dir@ == "./public"@,
            r.templates_dir@ == "./templates"@,
            r.interval_seconds == 30,
            r.workers >= 1,
            !r.verbose,
    {
        Config {
            source_dir: default_source_dir(),
            output_dir: default_output_dir(),
            templates_dir: default_templates_dir(),
            interval_seconds: default_interval(),
            workers: default_workers(),
            verbose: default_verbose(),
        }
    }
}

} // verus!
