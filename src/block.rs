//! The document tree and its mathematical model.
use vstd::prelude::*;

verus! {

/// A metric's trend, kept as the decimal text it was written in.
///
/// Only its direction matters to the renderers; see `crate::number::trend_sign`.
#[derive(Debug, Clone)]
pub struct Trend {
    pub text: String,
}

/// One node of a parsed document.
#[derive(Debug)]
pub enum Block {
    Heading { level: usize, text: String },
    Paragraph(String),
    CommandPrompt(String),
    Output(Vec<Block>),
    Frame { title: Option<String>, content: Vec<Block> },
    Metric { name: String, value: String, unit: Option<String>, trend: Option<Trend> },
    LogEntry {
        message: String,
        level: String,
        timestamp: Option<String>,
        source: Option<String>,
    },
    Table { headers: Vec<String>, rows: Vec<Vec<String>> },
    Trace {
        name: String,
        duration_ms: u64,
        start_time: String,
        status: String,
        metadata: Vec<(String, String)>,
    },
    Raw(String),
    Container(Vec<Block>),
}

/// The model of a `Block`: the same tree over character sequences.
pub enum Node {
    Heading { level: usize, text: Seq<char> },
    Paragraph(Seq<char>),
    CommandPrompt(Seq<char>),
    Output(Seq<Node>),
    Frame { title: Option<Seq<char>>, content: Seq<Node> },
    Metric {
        name: Seq<char>,
        value: Seq<char>,
        unit: Option<Seq<char>>,
        trend: Option<Seq<char>>,
    },
    LogEntry {
        message: Seq<char>,
        level: Seq<char>,
        timestamp: Option<Seq<char>>,
        source: Option<Seq<char>>,
    },
    Table { headers: Seq<Seq<char>>, rows: Seq<Seq<Seq<char>>> },
    Trace {
        name: Seq<char>,
        duration_ms: u64,
        start_time: Seq<char>,
        status: Seq<char>,
        metadata: Seq<(Seq<char>, Seq<char>)>,
    },
    Raw(Seq<char>),
    Container(Seq<Node>),
}

pub open spec fn opt_view(o: Option<String>) -> Option<Seq<char>> {
    match o {
        Some(s) => Some(s@),
        None => None,
    }
}

pub open spec fn trend_view(o: Option<Trend>) -> Option<Seq<char>> {
    match o {
        Some(t) => Some(t.text@),
        None => None,
    }
}

pub open spec fn strings_view(v: Seq<String>) -> Seq<Seq<char>> {
    v.map_values(|s: String| s@)
}

pub open spec fn rows_view(v: Seq<Vec<String>>) -> Seq<Seq<Seq<char>>> {
    v.map_values(|r: Vec<String>| strings_view(r@))
}

pub open spec fn pairs_view(v: Seq<(String, String)>) -> Seq<(Seq<char>, Seq<char>)> {
    v.map_values(|p: (String, String)| (p.0@, p.1@))
}

/// The model of one block.
pub open spec fn block_view(b: Block) -> Node
    decreases b,
{
    match b {
        Block::Heading { level, text } => Node::Heading { level, text: text@ },
        Block::Paragraph(t) => Node::Paragraph(t@),
        Block::CommandPrompt(t) => Node::CommandPrompt(t@),
        Block::Output(v) => Node::Output(blocks_view_upto(v@, v@.len() as int)),
        Block::Frame { title, content } => Node::Frame {
            title: opt_view(title),
            content: blocks_view_upto(content@, content@.len() as int),
        },
        Block::Metric { name, value, unit, trend } => Node::Metric {
            name: name@,
            value: value@,
            unit: opt_view(unit),
            trend: trend_view(trend),
        },
        Block::LogEntry { message, level, timestamp, source } => Node::LogEntry {
            message: message@,
            level: level@,
            timestamp: opt_view(timestamp),
            source: opt_view(source),
        },
        Block::Table { headers, rows } => Node::Table {
            headers: strings_view(headers@),
            rows: rows_view(rows@),
        },
        Block::Trace { name, duration_ms, start_time, status, metadata } => Node::Trace {
            name: name@,
            duration_ms,
            start_time: start_time@,
            status: status@,
            metadata: pairs_view(metadata@),
        },
        Block::Raw(t) => Node::Raw(t@),
        Block::Container(v) => Node::Container(blocks_view_upto(v@, v@.len() as int)),
    }
}

/// The models of the first `n` blocks of `s`.
pub open spec fn blocks_view_upto(s: Seq<Block>, n: int) -> Seq<Node>
    decreases s, n,
{
    if n <= 0 || n > s.len() {
        Seq::empty()
    } else {
        blocks_view_upto(s, n - 1).push(block_view(s[n - 1]))
    }
}

/// The models of a sequence of blocks.
pub open spec fn blocks_view(s: Seq<Block>) -> Seq<Node> {
    blocks_view_upto(s, s.len() as int)
}

pub proof fn lemma_blocks_view_upto(s: Seq<Block>, n: int)
    requires
        0 <= n <= s.len(),
    ensures
        blocks_view_upto(s, n).len() == n,
        forall|i: int| 0 <= i < n ==> #[trigger] blocks_view_upto(s, n)[i] == block_view(s[i]),
    decreases n,
{
    if n > 0 {
        lemma_blocks_view_upto(s, n - 1);
    }
}

/// The models of a sequence of blocks, element by element.
pub proof fn lemma_blocks_view(s: Seq<Block>)
    ensures
        blocks_view(s).len() == s.len(),
        forall|i: int| 0 <= i < s.len() ==> #[trigger] blocks_view(s)[i] == block_view(s[i]),
{
    lemma_blocks_view_upto(s, s.len() as int);
}

pub fn copy_opt(o: &Option<String>) -> (r: Option<String>)
    ensures
        opt_view(r) == opt_view(*o),
{
    match o {
        Some(s) => Some(s.clone()),
        None => None,
    }
}

pub fn copy_strings(v: &Vec<String>) -> (r: Vec<String>)
    ensures
        strings_view(r@) == strings_view(v@),
{
    let mut r: Vec<String> = Vec::new();
    let mut i: usize = 0;
    while i < v.len()
        invariant
            i <= v@.len(),
            r@.len() == i,
            forall|k: int| 0 <= k < i ==> #[trigger] r@[k]@ == v@[k]@,
        decreases v.len() - i,
    {
        r.push(v[i].clone());
        i += 1;
    }
    assert(strings_view(r@) =~= strings_view(v@));
    r
}

pub fn copy_rows(v: &Vec<Vec<String>>) -> (r: Vec<Vec<String>>)
    ensures
        rows_view(r@) == rows_view(v@),
{
    let mut r: Vec<Vec<String>> = Vec::new();
    let mut i: usize = 0;
    while i < v.len()
        invariant
            i <= v@.len(),
            r@.len() == i,
            forall|k: int| 0 <= k < i ==> strings_view(#[trigger] r@[k]@) == strings_view(v@[k]@),
        decreases v.len() - i,
    {
        r.push(copy_strings(&v[i]));
        i += 1;
    }
    assert(rows_view(r@) =~= rows_view(v@));
    r
}

pub fn copy_pairs(v: &Vec<(String, String)>) -> (r: Vec<(String, String)>)
    ensures
        pairs_view(r@) == pairs_view(v@),
{
    let mut r: Vec<(String, String)> = Vec::new();
    let mut i: usize = 0;
    while i < v.len()
        invariant
            i <= v@.len(),
            r@.len() == i,
            forall|k: int| 0 <= k < i ==> (#[trigger] r@[k]).0@ == v@[k].0@ && r@[k].1@ == v@[k].1@,
        decreases v.len() - i,
    {
        r.push((v[i].0.clone(), v[i].1.clone()));
        i += 1;
    }
    assert(pairs_view(r@) =~= pairs_view(v@));
    r
}

/// A copy of a block, with the same model.
pub fn copy_block(b: &Block) -> (r: Block)
    ensures
        block_view(r) == block_view(*b),
    decreases b,
{
    match b {
        Block::Heading { level, text } => Block::Heading { level: *level, text: text.clone() },
        Block::Paragraph(t) => Block::Paragraph(t.clone()),
        Block::CommandPrompt(t) => Block::CommandPrompt(t.clone()),
        Block::Output(v) => Block::Output(copy_blocks(v)),
        Block::Frame { title, content } => Block::Frame {
            title: copy_opt(title),
            content: copy_blocks(content),
        },
        Block::Metric { name, value, unit, trend } => Block::Metric {
            name: name.clone(),
            value: value.clone(),
            unit: copy_opt(unit),
            trend: match trend {
                Some(t) => Some(Trend { text: t.text.clone() }),
                None => None,
            },
        },
        Block::LogEntry { message, level, timestamp, source } => Block::LogEntry {
            message: message.clone(),
            level: level.clone(),
            timestamp: copy_opt(timestamp),
            source: copy_opt(source),
        },
        Block::Table { headers, rows } => Block::Table {
            headers: copy_strings(headers),
            rows: copy_rows(rows),
        },
        Block::Trace { name, duration_ms, start_time, status, metadata } => Block::Trace {
            name: name.clone(),
            duration_ms: *duration_ms,
            start_time: start_time.clone(),
            status: status.clone(),
            metadata: copy_pairs(metadata),
        },
        Block::Raw(t) => Block::Raw(t.clone()),
        Block::Container(v) => Block::Container(copy_blocks(v)),
    }
}

/// A copy of a sequence of blocks, with the same models.
pub fn copy_blocks(v: &Vec<Block>) -> (r: Vec<Block>)
    ensures
        blocks_view(r@) == blocks_view(v@),
    decreases v,
{
    let mut r: Vec<Block> = Vec::new();
    let mut i: usize = 0;
    while i < v.len()
        invariant
            i <= v@.len(),
            r@.len() == i,
            forall|k: int| 0 <= k < i ==> block_view(#[trigger] r@[k]) == block_view(v@[k]),
        decreases v.len() - i,
    {
        proof {
            assert(decreases_to!(v => v@[i as int]));
        }
        r.push(copy_block(&v[i]));
        i += 1;
    }
    proof {
        lemma_blocks_view(r@);
        lemma_blocks_view(v@);
        assert(blocks_view(r@) =~= blocks_view(v@));
    }
    r
}

impl Clone for Block {
    fn clone(&self) -> (r: Block)
        ensures
            block_view(r) == block_view(*self),
    {
        copy_block(self)
    }
}

/// A bound tree as handed to a renderer.
#[derive(Debug)]
pub struct TemplateData {
    pub blocks: Vec<Block>,
    pub template_name: String,
}

} // verus!
