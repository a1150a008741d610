//! The renderer interface, and the tree walk that every renderer shares.
use vstd::prelude::*;
use crate::block::{
    Block, Node, TemplateData, Trend, block_view, blocks_view, lemma_blocks_view,
    pairs_view, rows_view, strings_view,
};
use crate::error::Error;
use crate::models::{LogEntry, Metric, Trace};
use crate::strings::push_str;

verus! {

pub open spec fn opt_str_view(o: Option<&str>) -> Option<Seq<char>> {
    match o {
        Some(s) => Some(s@),
        None => None,
    }
}

pub open spec fn opt_trend_view(o: Option<&Trend>) -> Option<Seq<char>> {
    match o {
        Some(t) => Some(t.text@),
        None => None,
    }
}

/// A target format. Each method renders one kind of block; the text it gives
/// is stated by the matching spec function, which each renderer defines.
pub trait Renderer: Sized {
    spec fn heading_text(&self, level: usize, text: Seq<char>) -> Seq<char>;

    spec fn paragraph_text(&self, text: Seq<char>) -> Seq<char>;

    spec fn command_text(&self, command: Seq<char>) -> Seq<char>;

    /// The wrapper around the rendered children of an `Output` block.
    spec fn output_text(&self, content: Seq<char>) -> Seq<char>;

    spec fn frame_text(&self, title: Option<Seq<char>>, content: Seq<char>) -> Seq<char>;

    spec fn metric_text(
        &self,
        name: Seq<char>,
        value: Seq<char>,
        unit: Option<Seq<char>>,
        trend: Option<Seq<char>>,
    ) -> Seq<char>;

    spec fn log_text(
        &self,
        message: Seq<char>,
        level: Seq<char>,
        timestamp: Option<Seq<char>>,
        source: Option<Seq<char>>,
    ) -> Seq<char>;

    spec fn table_text(&self, headers: Seq<Seq<char>>, rows: Seq<Seq<Seq<char>>>) -> Seq<char>;

    spec fn trace_text(
        &self,
        name: Seq<char>,
        duration_ms: u64,
        start_time: Seq<char>,
        status: Seq<char>,
        metadata: Seq<(Seq<char>, Seq<char>)>,
    ) -> Seq<char>;

    spec fn raw_text(&self, content: Seq<char>) -> Seq<char>;

    fn render_heading(&self, level: usize, text: &str) -> (r: Result<String, Error>)
        ensures
            r matches Ok(s) && s@ == self.heading_text(level, text@),
    ;

    fn render_paragraph(&self, text: &str) -> (r: Result<String, Error>)
        ensures
            r matches Ok(s) && s@ == self.paragraph_text(text@),
    ;

    fn render_command_prompt(&self, command: &str) -> (r: Result<String, Error>)
        ensures
            r matches Ok(s) && s@ == self.command_text(command@),
    ;

    /// Wraps the rendered children of an `Output` block.
    fn wrap_output(&self, content: &str) -> (r: String)
        ensures
            r@ == self.output_text(content@),
    ;

    fn render_frame(&self, title: Option<&str>, content: &str) -> (r: Result<String, Error>)
        ensures
            r matches Ok(s) && s@ == self.frame_text(opt_str_view(title), content@),
    ;

    fn render_metric(&self, name: &str, value: &str, unit: Option<&str>, trend: Option<&Trend>) -> (r:
        Result<String, Error>)
        ensures
            r matches Ok(s) && s@ == self.metric_text(name@, value@, opt_str_view(unit), opt_trend_view(trend)),
    ;

    fn render_log_entry(&self, message: &str, level: &str, timestamp: Option<&str>, source: Option<&str>) -> (r:
        Result<String, Error>)
        ensures
            r matches Ok(s) && s@ == self.log_text(message@, level@, opt_str_view(timestamp), opt_str_view(source)),
    ;

    fn render_table(&self, headers: &[String], rows: &[Vec<String>]) -> (r: Result<String, Error>)
        ensures
            r matches Ok(s) && s@ == self.table_text(strings_view(headers@), rows_view(rows@)),
    ;

    fn render_trace(
        &self,
        name: &str,
        duration_ms: u64,
        start_time: &str,
        status: &str,
        metadata: &[(String, String)],
    ) -> (r: Result<String, Error>)
        ensures
            r matches Ok(s) && s@ == self.trace_text(name@, duration_ms, start_time@, status@, pairs_view(metadata@)),
    ;

    fn render_raw(&self, content: &str) -> (r: Result<String, Error>)
        ensures
            r matches Ok(s) && s@ == self.raw_text(content@),
    ;
}

/// The tree walk shared by all renderers: one block by its kind, or blocks
/// one after another.
pub trait TreeRenderer: Renderer {
    /// Renders one block by its kind.
    fn render_block(&self, block: &Block) -> (r: Result<String, Error>)
        ensures
            r matches Ok(s) && s@ == block_text(self, block_view(*block)),
    {
        render_block_with(self, block)
    }

    /// Renders blocks one after another and joins the results.
    fn render_blocks(&self, blocks: &[Block]) -> (r: Result<String, Error>)
        ensures
            r matches Ok(s) && s@ == blocks_text(self, blocks_view(blocks@)),
    {
        render_slice_with(self, blocks)
    }

    /// Renders the children of an `Output` block and wraps them.
    fn render_output(&self, blocks: &[Block]) -> (r: Result<String, Error>)
        ensures
            r matches Ok(s) && s@ == self.output_text(blocks_text(self, blocks_view(blocks@))),
    {
        match render_slice_with(self, blocks) {
            Ok(content) => Ok(self.wrap_output(content.as_str())),
            Err(e) => Err(e),
        }
    }
}

impl<R: Renderer> TreeRenderer for R {}

/// The entry points that render a whole document, or a list of records, in
/// one format.
pub trait PageRenderer: Renderer {
    /// Whether `out` is a page of this format for the document `name` with
    /// these bound blocks.
    spec fn page_ok(&self, name: Seq<char>, blocks: Seq<Node>, out: Seq<char>) -> bool;

    fn render_template(&self, template_data: &TemplateData) -> (r: Result<String, Error>)
        ensures
            r matches Ok(s) && self.page_ok(template_data.template_name@, blocks_view(template_data.blocks@), s@),
    ;

    fn render_metrics(&self, metrics: &[Metric]) -> (r: Result<String, Error>);

    fn render_logs(&self, logs: &[LogEntry]) -> (r: Result<String, Error>);

    fn render_traces(&self, traces: &[Trace]) -> (r: Result<String, Error>);
}

/// The text that `r` gives for a block.
pub open spec fn block_text<R: Renderer>(r: &R, b: Node) -> Seq<char>
    decreases b,
{
    match b {
        Node::Heading { level, text } => r.heading_text(level, text),
        Node::Paragraph(t) => r.paragraph_text(t),
        Node::CommandPrompt(t) => r.command_text(t),
        Node::Output(c) => r.output_text(blocks_text_upto(r, c, c.len() as int)),
        Node::Frame { title, content } => r.frame_text(title, blocks_text_upto(r, content, content.len() as int)),
        Node::Metric { name, value, unit, trend } => r.metric_text(name, value, unit, trend),
        Node::LogEntry { message, level, timestamp, source } => r.log_text(message, level, timestamp, source),
        Node::Table { headers, rows } => r.table_text(headers, rows),
        Node::Trace { name, duration_ms, start_time, status, metadata } => r.trace_text(
            name,
            duration_ms,
            start_time,
            status,
            metadata,
        ),
        Node::Raw(t) => r.raw_text(t),
        Node::Container(c) => blocks_text_upto(r, c, c.len() as int),
    }
}

/// The texts that `r` gives for the first `n` blocks, one after another.
pub open spec fn blocks_text_upto<R: Renderer>(r: &R, s: Seq<Node>, n: int) -> Seq<char>
    decreases s, n,
{
    if n <= 0 || n > s.len() {
        Seq::empty()
    } else {
        blocks_text_upto(r, s, n - 1) + block_text(r, s[n - 1])
    }
}

/// The texts that `r` gives for blocks, one after another.
pub open spec fn blocks_text<R: Renderer>(r: &R, s: Seq<Node>) -> Seq<char> {
    blocks_text_upto(r, s, s.len() as int)
}

/// Renders one block with `r`.
pub fn render_block_with<R: Renderer>(r: &R, block: &Block) -> (res: Result<String, Error>)
    ensures
        res matches Ok(s) && s@ == block_text(r, block_view(*block)),
    decreases block,
{
    match block {
        Block::Heading { level, text } => r.render_heading(*level, text.as_str()),
        Block::Paragraph(t) => r.render_paragraph(t.as_str()),
        Block::CommandPrompt(t) => r.render_command_prompt(t.as_str()),
        Block::Output(children) => {
            proof {
                lemma_blocks_view(children@);
            }
            match render_vec_with(r, children) {
                Ok(content) => Ok(r.wrap_output(content.as_str())),
                Err(e) => Err(e),
            }
        },
        Block::Frame { title, content } => {
            proof {
                lemma_blocks_view(content@);
            }
            let inner = match render_vec_with(r, content) {
                Ok(s) => s,
                Err(e) => return Err(e),
            };
            let t: Option<&str> = match title {
                Some(x) => Some(x.as_str()),
                None => None,
            };
            r.render_frame(t, inner.as_str())
        },
        Block::Metric { name, value, unit, trend } => {
            let u: Option<&str> = match unit {
                Some(x) => Some(x.as_str()),
                None => None,
            };
            let tr: Option<&Trend> = match trend {
                Some(x) => Some(x),
                None => None,
            };
            r.render_metric(name.as_str(), value.as_str(), u, tr)
        },
        Block::LogEntry { message, level, timestamp, source } => {
            let ts: Option<&str> = match timestamp {
                Some(x) => Some(x.as_str()),
                None => None,
            };
            let src: Option<&str> = match source {
                Some(x) => Some(x.as_str()),
                None => None,
            };
            r.render_log_entry(message.as_str(), level.as_str(), ts, src)
        },
        Block::Table { headers, rows } => r.render_table(headers.as_slice(), rows.as_slice()),
        Block::Trace { name, duration_ms, start_time, status, metadata } => r.render_trace(
            name.as_str(),
            *duration_ms,
            start_time.as_str(),
            status.as_str(),
            metadata.as_slice(),
        ),
        Block::Raw(t) => r.render_raw(t.as_str()),
        Block::Container(children) => {
            proof {
                lemma_blocks_view(children@);
            }
            render_vec_with(r, children)
        },
    }
}

/// Renders the blocks of a vector with `r`, one after another.
pub fn render_vec_with<R: Renderer>(r: &R, blocks: &Vec<Block>) -> (res: Result<String, Error>)
    ensures
        res matches Ok(s) && s@ == blocks_text_upto(r, blocks_view(blocks@), blocks@.len() as int),
    decreases blocks,
{
    let mut out = String::new();
    let mut i: usize = 0;
    proof {
        lemma_blocks_view(blocks@);
    }
    while i < blocks.len()
        invariant
            i <= blocks@.len(),
            blocks_view(blocks@).len() == blocks@.len(),
            forall|k: int| 0 <= k < blocks@.len() ==> #[trigger] blocks_view(blocks@)[k] == block_view(blocks@[k]),
            out@ == blocks_text_upto(r, blocks_view(blocks@), i as int),
        decreases blocks.len() - i,
    {
        proof {
            assert(decreases_to!(blocks => blocks@[i as int]));
        }
        let s = match render_block_with(r, &blocks[i]) {
            Ok(s) => s,
            Err(e) => return Err(e),
        };
        push_str(&mut out, s.as_str());
        i += 1;
    }
    Ok(out)
}

/// Renders the blocks of a slice with `r`, one after another.
pub fn render_slice_with<R: Renderer>(r: &R, blocks: &[Block]) -> (res: Result<String, Error>)
    ensures
        res matches Ok(s) && s@ == blocks_text(r, blocks_view(blocks@)),
{
    let mut out = String::new();
    let mut i: usize = 0;
    proof {
        lemma_blocks_view(blocks@);
    }
    while i < blocks.len()
        invariant
            i <= blocks@.len(),
            blocks_view(blocks@).len() == blocks@.len(),
            forall|k: int| 0 <= k < blocks@.len() ==> #[trigger] blocks_view(blocks@)[k] == block_view(blocks@[k]),
            out@ == blocks_text_upto(r, blocks_view(blocks@), i as int),
        decreases blocks.len() - i,
    {
        let s = match render_block_with(r, &blocks[i]) {
            Ok(s) => s,
            Err(e) => return Err(e),
        };
        push_str(&mut out, s.as_str());
        i += 1;
    }
    Ok(out)
}

} // verus!
