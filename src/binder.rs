//! Binding: data directives in a parsed tree are expanded against a context,
//! and `[[name]]` tokens in rendered text are replaced by variables.
use vstd::prelude::*;
use crate::block::{
    Block, Node, Trend, block_view, blocks_view, copy_block, copy_opt, copy_pairs, lemma_blocks_view,
    pairs_view, rows_view, strings_view,
};
use crate::error::Error;
use crate::models::{LogEntry, Metric, Trace, level_name, lookup};
use crate::number::{check_trend, is_float_text};
use crate::strings::{chars_of, decimal, decimal_string, push_char, push_str, trim_seq, trimmed_string_of};

verus! {

/// What a metric record becomes in a document: its `unit` label, and its
/// `trend` label where that is a number.
pub open spec fn metric_node(m: Metric) -> Node {
    let trend = match lookup(pairs_view(m.labels@), "trend"@) {
        Some(t) => if is_float_text(t) { Some(t) } else { None },
        None => None,
    };
    Node::Metric { name: m.name@, value: m.value@, unit: lookup(pairs_view(m.labels@), "unit"@), trend }
}

pub open spec fn metric_nodes(ms: Seq<Metric>) -> Seq<Node> {
    ms.map_values(|m: Metric| metric_node(m))
}

/// What a log record becomes in a document.
pub open spec fn log_node(l: LogEntry) -> Node {
    Node::LogEntry {
        message: l.message@,
        level: level_name(l.level),
        timestamp: Some(l.timestamp@),
        source: Some(l.source@),
    }
}

pub open spec fn log_nodes(ls: Seq<LogEntry>) -> Seq<Node> {
    ls.map_values(|l: LogEntry| log_node(l))
}

/// The row of a log record in the logs table.
pub open spec fn log_row(l: LogEntry) -> Seq<Seq<char>> {
    seq![l.timestamp@, level_name(l.level), l.source@, l.message@]
}

pub open spec fn log_headers() -> Seq<Seq<char>> {
    seq!["Timestamp"@, "Level"@, "Source"@, "Message"@]
}

/// The status of a trace: its `status` metadata, or `unknown`.
pub open spec fn trace_status(t: Trace) -> Seq<char> {
    match lookup(pairs_view(t.metadata@), "status"@) {
        Some(s) => s,
        None => "unknown"@,
    }
}

/// What a trace record becomes in a document.
pub open spec fn trace_node(t: Trace) -> Node {
    Node::Trace {
        name: t.name@,
        duration_ms: t.duration_ms,
        start_time: t.start_time@,
        status: trace_status(t),
        metadata: pairs_view(t.metadata@),
    }
}

pub open spec fn trace_nodes(ts: Seq<Trace>) -> Seq<Node> {
    ts.map_values(|t: Trace| trace_node(t))
}

pub open spec fn trace_headers() -> Seq<Seq<char>> {
    seq!["Name"@, "Duration"@, "Started"@, "Status"@]
}

pub open spec fn trace_rows(ts: Seq<Trace>) -> Seq<Seq<Seq<char>>> {
    ts.map_values(|t: Trace| seq![t.name@, decimal(t.duration_ms as nat) + " ms"@, t.start_time@, trace_status(t)])
}

fn text(s: &str) -> (r: String)
    ensures
        r@ == s@,
{
    let mut r = String::new();
    push_str(&mut r, s);
    r
}

/// The block of a metric record.
pub fn metric_block(m: &Metric) -> (r: Block)
    ensures
        block_view(r) == metric_node(*m),
{
    let unit = match m.get_label("unit") {
        Some(u) => Some(u.clone()),
        None => None,
    };
    let trend = match m.get_label("trend") {
        Some(t) => {
            let (valid, _sign) = check_trend(chars_of(t.as_str()).as_slice());
            if valid {
                Some(Trend { text: t.clone() })
            } else {
                None
            }
        },
        None => None,
    };
    Block::Metric { name: m.name.clone(), value: m.value.clone(), unit, trend }
}

/// The blocks of metric records, in order.
pub fn metrics_to_blocks(ms: &[Metric]) -> (r: Vec<Block>)
    ensures
        blocks_view(r@) == metric_nodes(ms@),
{
    let mut r: Vec<Block> = Vec::new();
    let mut i: usize = 0;
    while i < ms.len()
        invariant
            i <= ms@.len(),
            r@.len() == i,
            forall|k: int| 0 <= k < i ==> block_view(#[trigger] r@[k]) == metric_node(ms@[k]),
        decreases ms.len() - i,
    {
        r.push(metric_block(&ms[i]));
        i += 1;
    }
    proof {
        lemma_blocks_view(r@);
        assert(blocks_view(r@) =~= metric_nodes(ms@));
    }
    r
}

/// The block of a log record.
pub fn log_block(l: &LogEntry) -> (r: Block)
    ensures
        block_view(r) == log_node(*l),
{
    Block::LogEntry {
        message: l.message.clone(),
        level: text(l.level.as_str()),
        timestamp: Some(l.timestamp.clone()),
        source: Some(l.source.clone()),
    }
}

/// The blocks of log records, in order.
pub fn logs_to_blocks(ls: &[LogEntry]) -> (r: Vec<Block>)
    ensures
        blocks_view(r@) == log_nodes(ls@),
{
    let mut r: Vec<Block> = Vec::new();
    let mut i: usize = 0;
    while i < ls.len()
        invariant
            i <= ls@.len(),
            r@.len() == i,
            forall|k: int| 0 <= k < i ==> block_view(#[trigger] r@[k]) == log_node(ls@[k]),
        decreases ls.len() - i,
    {
        r.push(log_block(&ls[i]));
        i += 1;
    }
    proof {
        lemma_blocks_view(r@);
        assert(blocks_view(r@) =~= log_nodes(ls@));
    }
    r
}

/// The logs table: fixed headers and one row per record.
pub fn logs_to_rows(ls: &[LogEntry]) -> (r: (Vec<String>, Vec<Vec<String>>))
    ensures
        strings_view(r.0@) == log_headers(),
        rows_view(r.1@) == ls@.map_values(|l: LogEntry| log_row(l)),
{
    let headers = vec![text("Timestamp"), text("Level"), text("Source"), text("Message")];
    assert(strings_view(headers@) =~= log_headers());
    let mut rows: Vec<Vec<String>> = Vec::new();
    let mut i: usize = 0;
    while i < ls.len()
        invariant
            i <= ls@.len(),
            rows@.len() == i,
            forall|k: int| 0 <= k < i ==> strings_view(#[trigger] rows@[k]@) == log_row(ls@[k]),
        decreases ls.len() - i,
    {
        let row = vec![ls[i].timestamp.clone(), text(ls[i].level.as_str()), ls[i].source.clone(), ls[i].message.clone()];
        assert(strings_view(row@) =~= log_row(ls@[i as int]));
        rows.push(row);
        i += 1;
    }
    assert(rows_view(rows@) =~= ls@.map_values(|l: LogEntry| log_row(l)));
    (headers, rows)
}

fn status_of(t: &Trace) -> (r: String)
    ensures
        r@ == trace_status(*t),
{
    match t.get_metadata("status") {
        Some(s) => s.clone(),
        None => text("unknown"),
    }
}

/// The block of a trace record.
pub fn trace_block(t: &Trace) -> (r: Block)
    ensures
        block_view(r) == trace_node(*t),
{
    Block::Trace {
        name: t.name.clone(),
        duration_ms: t.duration_ms,
        start_time: t.start_time.clone(),
        status: status_of(t),
        metadata: copy_pairs(&t.metadata),
    }
}

/// The traces table: fixed headers and one row per record.
pub fn traces_to_rows(ts: &[Trace]) -> (r: (Vec<String>, Vec<Vec<String>>))
    ensures
        strings_view(r.0@) == trace_headers(),
        rows_view(r.1@) == trace_rows(ts@),
{
    let headers = vec![text("Name"), text("Duration"), text("Started"), text("Status")];
    assert(strings_view(headers@) =~= trace_headers());
    let mut rows: Vec<Vec<String>> = Vec::new();
    let mut i: usize = 0;
    while i < ts.len()
        invariant
            i <= ts@.len(),
            rows@.len() == i,
            forall|k: int| 0 <= k < i ==> strings_view(#[trigger] rows@[k]@) == trace_rows(ts@)[k],
        decreases ts.len() - i,
    {
        let mut d = decimal_string(ts[i].duration_ms);
        push_str(&mut d, " ms");
        let row = vec![ts[i].name.clone(), d, ts[i].start_time.clone(), status_of(&ts[i])];
        assert(strings_view(row@) =~= trace_rows(ts@)[i as int]);
        rows.push(row);
        i += 1;
    }
    assert(rows_view(rows@) =~= trace_rows(ts@));
    (headers, rows)
}

/// A JSON value of `serde_json`, carried through unchanged.
#[verifier::external_type_specification]
#[verifier::external_body]
pub struct ExJsonValue(serde_json::Value);

/// The per-render data that data directives are bound to, and structured
/// values for uses that no directive has yet.
#[derive(Debug)]
pub struct TemplateContext {
    pub variables: Vec<(String, String)>,
    pub metrics: Vec<Metric>,
    pub logs: Vec<LogEntry>,
    pub traces: Vec<Trace>,
    pub data: Vec<(String, serde_json::Value)>,
}

/// The comment `<!-- {label}: {n} -->` that heads an expanded directive.
pub open spec fn count_comment(label: Seq<char>, n: nat) -> Seq<char> {
    "<!-- "@ + label + ": "@ + decimal(n) + " -->"@
}

/// What the blocks of a logs directive become after its comment.
pub open spec fn log_section(logs: Seq<LogEntry>) -> Seq<Node> {
    if logs.len() == 0 {
        seq![Node::Paragraph("No logs available."@)]
    } else {
        seq![Node::Table { headers: log_headers(), rows: logs.map_values(|l: LogEntry| log_row(l)) }]
    }
}

/// What one block becomes when bound to `ctx`: a data directive expands into
/// a comment and its records, a container is bound inside, and every other
/// block stays as it is.
pub open spec fn bind_node(b: Node, ctx: TemplateContext) -> Seq<Node>
    decreases b,
{
    match b {
        Node::Raw(t) => if trim_seq(t) == "@metrics"@ {
            seq![Node::Raw(count_comment("Metrics"@, ctx.metrics@.len()))] + metric_nodes(ctx.metrics@)
        } else if trim_seq(t) == "@logs"@ {
            seq![Node::Raw(count_comment("Logs"@, ctx.logs@.len()))] + log_section(ctx.logs@)
        } else if trim_seq(t) == "@traces"@ {
            seq![Node::Raw(count_comment("Traces"@, ctx.traces@.len()))] + trace_nodes(ctx.traces@)
        } else {
            seq![b]
        },
        Node::Container(c) => seq![Node::Container(bind_nodes_upto(c, c.len() as int, ctx))],
        Node::Frame { title, content } => seq![Node::Frame { title, content: bind_nodes_upto(content, content.len() as int, ctx) }],
        Node::Output(c) => seq![Node::Output(bind_nodes_upto(c, c.len() as int, ctx))],
        _ => seq![b],
    }
}

/// The first `n` blocks of `s` bound to `ctx`, one after another.
pub open spec fn bind_nodes_upto(s: Seq<Node>, n: int, ctx: TemplateContext) -> Seq<Node>
    decreases s, n,
{
    if n <= 0 || n > s.len() {
        Seq::empty()
    } else {
        bind_nodes_upto(s, n - 1, ctx) + bind_node(s[n - 1], ctx)
    }
}

/// Blocks bound to `ctx`.
pub open spec fn bind_nodes(s: Seq<Node>, ctx: TemplateContext) -> Seq<Node> {
    bind_nodes_upto(s, s.len() as int, ctx)
}

fn count_comment_string(label: &str, n: usize) -> (r: String)
    ensures
        r@ == count_comment(label@, n as nat),
{
    let mut r = String::new();
    push_str(&mut r, "<!-- ");
    push_str(&mut r, label);
    push_str(&mut r, ": ");
    push_str(&mut r, decimal_string(n as u64).as_str());
    push_str(&mut r, " -->");
    r
}

/// The models of two sequences of blocks, one after the other.
proof fn lemma_blocks_view_concat(a: Seq<Block>, b: Seq<Block>)
    ensures
        blocks_view(a + b) == blocks_view(a) + blocks_view(b),
{
    lemma_blocks_view(a);
    lemma_blocks_view(b);
    lemma_blocks_view(a + b);
    assert forall|k: int| 0 <= k < (a + b).len() implies #[trigger] blocks_view(a + b)[k] == (blocks_view(a) + blocks_view(b))[k] by {
        if k < a.len() {
            assert((a + b)[k] == a[k]);
        } else {
            assert((a + b)[k] == b[k - a.len()]);
        }
    }
    assert(blocks_view(a + b) =~= blocks_view(a) + blocks_view(b));
}

/// Appends `extra` to `out`.
fn append_blocks(out: &mut Vec<Block>, extra: Vec<Block>)
    ensures
        blocks_view(final(out)@) == blocks_view(old(out)@) + blocks_view(extra@),
{
    let mut extra = extra;
    let ghost o = out@;
    let ghost e = extra@;
    out.append(&mut extra);
    proof {
        lemma_blocks_view_concat(o, e);
    }
}

/// The blocks of a data directive whose trimmed text is `name`, bound to `ctx`.
fn expand_directive(name: &str, ctx: &TemplateContext) -> (r: Vec<Block>)
    requires
        name@ == "@metrics"@ || name@ == "@logs"@ || name@ == "@traces"@,
    ensures
        name@ == "@metrics"@ ==> blocks_view(r@) == seq![Node::Raw(count_comment("Metrics"@, ctx.metrics@.len()))] + metric_nodes(ctx.metrics@),
        name@ == "@logs"@ ==> blocks_view(r@) == seq![Node::Raw(count_comment("Logs"@, ctx.logs@.len()))] + log_section(ctx.logs@),
        name@ == "@traces"@ ==> blocks_view(r@) == seq![Node::Raw(count_comment("Traces"@, ctx.traces@.len()))] + trace_nodes(ctx.traces@),
{
    proof {
        reveal_strlit("@metrics");
        reveal_strlit("@logs");
        reveal_strlit("@traces");
        assert(['@', 'm', 'e', 't', 'r', 'i', 'c', 's']@ =~= "@metrics"@);
        assert(['@', 'l', 'o', 'g', 's']@ =~= "@logs"@);
    }
    let mut r: Vec<Block> = Vec::new();
    if crate::models::same_text(name, &['@', 'm', 'e', 't', 'r', 'i', 'c', 's']) {
        r.push(Block::Raw(count_comment_string("Metrics", ctx.metrics.len())));
        let ghost head = r@;
        proof {
            lemma_blocks_view(head);
            assert(blocks_view(head) =~= seq![Node::Raw(count_comment("Metrics"@, ctx.metrics@.len()))]);
        }
        append_blocks(&mut r, metrics_to_blocks(ctx.metrics.as_slice()));
    } else if crate::models::same_text(name, &['@', 'l', 'o', 'g', 's']) {
        r.push(Block::Raw(count_comment_string("Logs", ctx.logs.len())));
        if ctx.logs.len() == 0 {
            r.push(Block::Paragraph(text("No logs available.")));
        } else {
            let (headers, rows) = logs_to_rows(ctx.logs.as_slice());
            r.push(Block::Table { headers, rows });
        }
        proof {
            lemma_blocks_view(r@);
            assert(blocks_view(r@) =~= seq![Node::Raw(count_comment("Logs"@, ctx.logs@.len()))] + log_section(ctx.logs@));
        }
    } else {
        r.push(Block::Raw(count_comment_string("Traces", ctx.traces.len())));
        let ghost first = r@;
        let mut i: usize = 0;
        while i < ctx.traces.len()
            invariant
                i <= ctx.traces@.len(),
                first.len() == 1,
                r@.len() == 1 + i,
                r@[0] == first[0],
                forall|k: int| 0 <= k < i ==> block_view(#[trigger] r@[1 + k]) == trace_node(ctx.traces@[k]),
            decreases ctx.traces.len() - i,
        {
            r.push(trace_block(&ctx.traces[i]));
            i += 1;
        }
        proof {
            lemma_blocks_view(r@);
            let want = seq![Node::Raw(count_comment("Traces"@, ctx.traces@.len()))] + trace_nodes(ctx.traces@);
            assert forall|k: int| 0 <= k < r@.len() implies #[trigger] blocks_view(r@)[k] == want[k] by {
                if k > 0 {
                    assert(r@[1 + (k - 1)] == r@[k]);
                }
            }
            assert(blocks_view(r@) =~= want);
        }
    }
    r
}

/// One block bound to `ctx`.
fn bind_block(b: &Block, ctx: &TemplateContext) -> (r: Vec<Block>)
    ensures
        blocks_view(r@) == bind_node(block_view(*b), *ctx),
    decreases b,
{
    let mut r: Vec<Block> = Vec::new();
    match b {
        Block::Raw(t) => {
            let chars = chars_of(t.as_str());
            let trimmed = trimmed_string_of(chars.as_slice(), 0, chars.len());
            assert(chars@.subrange(0, chars@.len() as int) =~= t@);
            proof {
                reveal_strlit("@metrics");
                reveal_strlit("@logs");
                reveal_strlit("@traces");
                assert(['@', 'm', 'e', 't', 'r', 'i', 'c', 's']@ =~= "@metrics"@);
                assert(['@', 'l', 'o', 'g', 's']@ =~= "@logs"@);
                assert(['@', 't', 'r', 'a', 'c', 'e', 's']@ =~= "@traces"@);
            }
            if crate::models::same_text(trimmed.as_str(), &['@', 'm', 'e', 't', 'r', 'i', 'c', 's'])
                || crate::models::same_text(trimmed.as_str(), &['@', 'l', 'o', 'g', 's'])
                || crate::models::same_text(trimmed.as_str(), &['@', 't', 'r', 'a', 'c', 'e', 's']) {
                return expand_directive(trimmed.as_str(), ctx);
            }
            r.push(copy_block(b));
        },
        Block::Container(c) => {
            proof { lemma_blocks_view(c@); }
            r.push(Block::Container(bind_vec(c, ctx)));
        },
        Block::Frame { title, content } => {
            proof { lemma_blocks_view(content@); }
            r.push(Block::Frame { title: copy_opt(title), content: bind_vec(content, ctx) });
        },
        Block::Output(c) => {
            proof { lemma_blocks_view(c@); }
            r.push(Block::Output(bind_vec(c, ctx)));
        },
        _ => {
            r.push(copy_block(b));
        },
    }
    proof {
        lemma_blocks_view(r@);
    }
    assert(blocks_view(r@) =~= bind_node(block_view(*b), *ctx));
    r
}

/// The blocks of a vector bound to `ctx`.
fn bind_vec(v: &Vec<Block>, ctx: &TemplateContext) -> (r: Vec<Block>)
    ensures
        blocks_view(r@) == bind_nodes_upto(blocks_view(v@), v@.len() as int, *ctx),
    decreases v,
{
    let mut r: Vec<Block> = Vec::new();
    let mut i: usize = 0;
    proof {
        lemma_blocks_view(v@);
        assert(blocks_view(r@) =~= Seq::<Node>::empty());
    }
    while i < v.len()
        invariant
            i <= v@.len(),
            blocks_view(v@).len() == v@.len(),
            forall|k: int| 0 <= k < v@.len() ==> #[trigger] blocks_view(v@)[k] == block_view(v@[k]),
            blocks_view(r@) == bind_nodes_upto(blocks_view(v@), i as int, *ctx),
        decreases v.len() - i,
    {
        proof {
            assert(decreases_to!(v => v@[i as int]));
        }
        let part = bind_block(&v[i], ctx);
        append_blocks(&mut r, part);
        i += 1;
    }
    r
}

impl TemplateContext {
    /// The same context with the variable `name` set to `value`.
    pub fn with_variable(self, name: &str, value: &str) -> (r: Self)
        requires
            crate::parser::keys_unique(pairs_view(self.variables@)),
        ensures
            pairs_view(r.variables@) == crate::parser::meta_insert(pairs_view(self.variables@), name@, value@),
            r.metrics == self.metrics,
            r.logs == self.logs,
            r.traces == self.traces,
    {
        let mut c = self;
        crate::models::set_pair(&mut c.variables, name, value);
        c
    }

    /// The same context with each of `vars` set.
    pub fn with_variables(self, vars: Vec<(String, String)>) -> (r: Self)
        requires
            crate::parser::keys_unique(pairs_view(self.variables@)),
        ensures
            pairs_view(r.variables@) == crate::models::bind_all(pairs_view(self.variables@), pairs_view(vars@)),
            r.metrics == self.metrics,
            r.logs == self.logs,
            r.traces == self.traces,
    {
        let mut c = self;
        crate::models::extend_pairs(&mut c.variables, &vars);
        c
    }

    /// The same context with `value` stored under `key` after the others.
    pub fn with_data(self, key: &str, value: serde_json::Value) -> (r: Self)
        ensures
            r.data@.len() == self.data@.len() + 1,
            r.data@.last().0@ == key@,
            r.data@.last().1 == value,
            r.data@.drop_last() == self.data@,
            r.variables == self.variables,
            r.metrics == self.metrics,
            r.logs == self.logs,
            r.traces == self.traces,
    {
        let mut c = self;
        c.data.push((text(key), value));
        assert(c.data@.drop_last() =~= self.data@);
        c
    }

    /// The same context with these metric records.
    pub fn with_metrics(self, metrics: Vec<Metric>) -> (r: Self)
        ensures
            r.metrics == metrics,
            r.variables == self.variables,
            r.logs == self.logs,
            r.traces == self.traces,
    {
        TemplateContext { metrics, ..self }
    }

    /// The same context with these log records.
    pub fn with_logs(self, logs: Vec<LogEntry>) -> (r: Self)
        ensures
            r.logs == logs,
            r.variables == self.variables,
            r.metrics == self.metrics,
            r.traces == self.traces,
    {
        TemplateContext { logs, ..self }
    }

    /// The same context with these trace records.
    pub fn with_traces(self, traces: Vec<Trace>) -> (r: Self)
        ensures
            r.traces == traces,
            r.variables == self.variables,
            r.metrics == self.metrics,
            r.logs == self.logs,
    {
        TemplateContext { traces, ..self }
    }

    /// An empty context.
    pub fn new() -> (r: Self)
        ensures
            r.variables@.len() == 0,
            r.metrics@.len() == 0,
            r.logs@.len() == 0,
            r.traces@.len() == 0,
    {
        TemplateContext {
            variables: Vec::new(),
            metrics: Vec::new(),
            logs: Vec::new(),
            traces: Vec::new(),
            data: Vec::new(),
        }
    }
}

/// Binds a parsed tree to `ctx`, depth first, into a new tree.
///
/// Binding cannot fail today; the result type leaves room for directives
/// whose lookups can.
pub fn process_blocks(blocks: &[Block], ctx: &TemplateContext) -> (r: Result<Vec<Block>, Error>)
    ensures
        r matches Ok(v) && blocks_view(v@) == bind_nodes(blocks_view(blocks@), *ctx),
{
    let mut r: Vec<Block> = Vec::new();
    let mut i: usize = 0;
    proof {
        lemma_blocks_view(blocks@);
        assert(blocks_view(r@) =~= Seq::<Node>::empty());
    }
    while i < blocks.len()
        invariant
            i <= blocks@.len(),
            blocks_view(blocks@).len() == blocks@.len(),
            forall|k: int| 0 <= k < blocks@.len() ==> #[trigger] blocks_view(blocks@)[k] == block_view(blocks@[k]),
            blocks_view(r@) == bind_nodes_upto(blocks_view(blocks@), i as int, *ctx),
        decreases blocks.len() - i,
    {
        let part = bind_block(&blocks[i], ctx);
        append_blocks(&mut r, part);
        i += 1;
    }
    Ok(r)
}

/// The variables of the dashboard page: the time it was made, the host, and
/// how many records of each kind it shows.
pub open spec fn dashboard_variables(now: Seq<char>, metrics: nat, traces: nat, logs: nat) -> Seq<(Seq<char>, Seq<char>)> {
    seq![
        ("current_time"@, now),
        ("hostname"@, "maxteibel-server"@),
        ("metric_count"@, decimal(metrics)),
        ("trace_count"@, decimal(traces)),
        ("log_count"@, decimal(logs)),
    ]
}

/// The context of the dashboard page for these records, made at `now`.
pub fn dashboard_context(metrics: Vec<Metric>, traces: Vec<Trace>, logs: Vec<LogEntry>, now: &str) -> (r: TemplateContext)
    ensures
        pairs_view(r.variables@) == dashboard_variables(now@, metrics@.len(), traces@.len(), logs@.len()),
        r.metrics == metrics,
        r.traces == traces,
        r.logs == logs,
        r.data@.len() == 0,
{
    let variables = vec![
        (text("current_time"), text(now)),
        (text("hostname"), text("maxteibel-server")),
        (text("metric_count"), decimal_string(metrics.len() as u64)),
        (text("trace_count"), decimal_string(traces.len() as u64)),
        (text("log_count"), decimal_string(logs.len() as u64)),
    ];
    assert(pairs_view(variables@) =~= dashboard_variables(now@, metrics@.len(), traces@.len(), logs@.len()));
    TemplateContext { variables, metrics, logs, traces, data: Vec::new() }
}

/// `s` from index `i` on, with each occurrence of `pat` replaced by `val`,
/// scanning left to right without overlaps (what `str::replace` does).
pub open spec fn replace_from(s: Seq<char>, i: int, pat: Seq<char>, val: Seq<char>) -> Seq<char>
    decreases s.len() - i,
{
    if i < 0 || i >= s.len() || pat.len() == 0 {
        Seq::empty()
    } else if i + pat.len() <= s.len() && s.subrange(i, i + pat.len()) == pat {
        val + replace_from(s, i + pat.len(), pat, val)
    } else {
        seq![s[i]] + replace_from(s, i + 1, pat, val)
    }
}

pub open spec fn replace_all(s: Seq<char>, pat: Seq<char>, val: Seq<char>) -> Seq<char> {
    replace_from(s, 0, pat, val)
}

/// The token `[[name]]` that a variable replaces.
pub open spec fn token(name: Seq<char>) -> Seq<char> {
    "[["@ + name + "]]"@
}

/// `s` with the token of each variable replaced by its value, one variable
/// after another in order.
pub open spec fn substitute(s: Seq<char>, vars: Seq<(Seq<char>, Seq<char>)>) -> Seq<char>
    decreases vars.len(),
{
    if vars.len() == 0 {
        s
    } else {
        replace_all(substitute(s, vars.drop_last()), token(vars.last().0), vars.last().1)
    }
}

/// Replaces each occurrence of `pat` in `s` by `val`.
pub fn replace_text(s: &str, pat: &[char], val: &str) -> (r: String)
    requires
        pat@.len() > 0,
    ensures
        r@ == replace_all(s@, pat@, val@),
{
    let chars = chars_of(s);
    let n = chars.len();
    let mut out = String::new();
    let mut i: usize = 0;
    assert(out@ + replace_from(chars@, 0, pat@, val@) =~= replace_from(chars@, 0, pat@, val@));
    while i < n
        invariant
            i <= n == chars@.len(),
            chars@ == s@,
            pat@.len() > 0,
            replace_all(s@, pat@, val@) == out@ + replace_from(chars@, i as int, pat@, val@),
        decreases n - i,
    {
        let hit = crate::parser::match_string(chars.as_slice(), i, pat);
        if hit {
            let ghost before = out@;
            push_str(&mut out, val);
            assert(before + (val@ + replace_from(chars@, i + pat@.len(), pat@, val@)) =~= out@ + replace_from(chars@, i + pat@.len(), pat@, val@));
            i += pat.len();
        } else {
            let ghost before = out@;
            push_char(&mut out, chars[i]);
            assert(before + (seq![chars@[i as int]] + replace_from(chars@, i + 1, pat@, val@)) =~= out@ + replace_from(chars@, i + 1, pat@, val@));
            i += 1;
        }
    }
    assert(out@ + replace_from(chars@, i as int, pat@, val@) =~= out@);
    out
}

/// Replaces each `[[name]]` token in rendered text by the value of the
/// variable `name`; tokens of unknown names stay as they are.
pub fn substitute_variables_in_content(content: &str, variables: &[(String, String)]) -> (r: String)
    ensures
        r@ == substitute(content@, pairs_view(variables@)),
{
    let mut result = text(content);
    let mut i: usize = 0;
    while i < variables.len()
        invariant
            i <= variables@.len(),
            result@ == substitute(content@, pairs_view(variables@.subrange(0, i as int))),
        decreases variables.len() - i,
    {
        let mut pattern = text("[[");
        push_str(&mut pattern, variables[i].0.as_str());
        push_str(&mut pattern, "]]");
        let pat = chars_of(pattern.as_str());
        proof {
            reveal_strlit("[[");
            let p = pairs_view(variables@.subrange(0, i + 1));
            assert(p.drop_last() =~= pairs_view(variables@.subrange(0, i as int)));
            assert(p.last() == (variables@[i as int].0@, variables@[i as int].1@));
        }
        result = replace_text(result.as_str(), pat.as_slice(), variables[i].1.as_str());
        i += 1;
    }
    assert(variables@.subrange(0, variables@.len() as int) =~= variables@);
    result
}

} // verus!
