//! In-memory stores of metric, trace and log records, with the queries that
//! documents are built from.
use vstd::prelude::*;
use crate::block::{copy_opt, copy_pairs, pairs_view};
use crate::error::Error;
use crate::models::{LogEntry, LogLevel, Metric, Trace, level_rank, lookup};
use crate::strings::chars_of;

verus! {

/// The instant that an RFC 3339 time denotes, as whole seconds since the Unix
/// epoch and nanoseconds past them (what `chrono` reads from the text).
pub uninterp spec fn instant_of(ts: Seq<char>) -> Option<(i64, u32)>;

/// Relies on `chrono::DateTime::parse_from_rfc3339`, read as seconds and
/// nanoseconds since the epoch: the instant depends on the text alone, and
/// text that is no RFC 3339 time gives none.
#[verifier::external_body]
pub(crate) fn instant(ts: &str) -> (r: Option<(i64, u32)>)
    ensures
        r == instant_of(ts@),
{
    chrono::DateTime::parse_from_rfc3339(ts).ok().map(|t| (t.timestamp(), t.timestamp_subsec_nanos()))
}

pub open spec fn not_after(a: (i64, u32), b: (i64, u32)) -> bool {
    a.0 < b.0 || (a.0 == b.0 && a.1 <= b.1)
}

/// Whether the time `ts` lies from `start` to `end`, both included; times
/// that do not read as instants lie nowhere.
pub open spec fn in_range(ts: Seq<char>, start: (i64, u32), end: (i64, u32)) -> bool {
    match instant_of(ts) {
        Some(t) => not_after(start, t) && not_after(t, end),
        None => false,
    }
}

fn within(ts: &str, start: (i64, u32), end: (i64, u32)) -> (r: bool)
    ensures
        r == in_range(ts@, start, end),
{
    match instant(ts) {
        Some(t) => (start.0 < t.0 || (start.0 == t.0 && start.1 <= t.1)) && (t.0 < end.0 || (t.0 == end.0 && t.1 <= end.1)),
        None => false,
    }
}

/// What a metric query keeps.
pub enum MetricQuery {
    All,
    Name(String),
    Label(String, String),
    TimeRange((i64, u32), (i64, u32)),
}

pub open spec fn metric_kept(m: Metric, q: MetricQuery) -> bool {
    match q {
        MetricQuery::All => true,
        MetricQuery::Name(n) => m.name@ == n@,
        MetricQuery::Label(k, v) => lookup(pairs_view(m.labels@), k@) == Some(v@),
        MetricQuery::TimeRange(s, e) => in_range(m.timestamp@, s, e),
    }
}

/// The model of a metric record.
pub open spec fn metric_view(m: Metric) -> (Seq<char>, Seq<char>, Seq<char>, Seq<(Seq<char>, Seq<char>)>) {
    (m.name@, m.value@, m.timestamp@, pairs_view(m.labels@))
}

/// The models of the records of `ms` that `q` keeps, in order.
pub open spec fn metrics_kept(ms: Seq<Metric>, q: MetricQuery) -> Seq<(Seq<char>, Seq<char>, Seq<char>, Seq<(Seq<char>, Seq<char>)>)>
    decreases ms.len(),
{
    if ms.len() == 0 {
        Seq::empty()
    } else if metric_kept(ms.last(), q) {
        metrics_kept(ms.drop_last(), q).push(metric_view(ms.last()))
    } else {
        metrics_kept(ms.drop_last(), q)
    }
}

fn copy_metric(m: &Metric) -> (r: Metric)
    ensures
        metric_view(r) == metric_view(*m),
{
    Metric { name: m.name.clone(), value: m.value.clone(), timestamp: m.timestamp.clone(), labels: copy_pairs(&m.labels) }
}

fn metric_matches(m: &Metric, q: &MetricQuery) -> (r: bool)
    ensures
        r == metric_kept(*m, *q),
{
    match q {
        MetricQuery::All => true,
        MetricQuery::Name(n) => crate::models::same_text(m.name.as_str(), chars_of(n.as_str()).as_slice()),
        MetricQuery::Label(k, v) => m.has_label_value(k.as_str(), v.as_str()),
        MetricQuery::TimeRange(s, e) => within(m.timestamp.as_str(), *s, *e),
    }
}

/// Metric records, in the order they were added.
pub struct MetricStorage {
    pub metrics: Vec<Metric>,
}

impl MetricStorage {
    pub fn new() -> (r: Self)
        ensures
            r.metrics@.len() == 0,
    {
        MetricStorage { metrics: Vec::new() }
    }

    /// Adds a record after the others.
    pub fn add(&mut self, metric: Metric) -> (r: Result<(), Error>)
        ensures
            r is Ok,
            final(self).metrics@ == old(self).metrics@.push(metric),
    {
        self.metrics.push(metric);
        Ok(())
    }

    /// Copies of the records that `q` keeps, in order.
    pub fn query(&self, q: &MetricQuery) -> (r: Result<Vec<Metric>, Error>)
        ensures
            r is Ok,
            r->Ok_0@.map_values(|m: Metric| metric_view(m)) == metrics_kept(self.metrics@, *q),
    {
        let mut out: Vec<Metric> = Vec::new();
        let mut i: usize = 0;
        while i < self.metrics.len()
            invariant
                i <= self.metrics@.len(),
                out@.map_values(|m: Metric| metric_view(m)) == metrics_kept(self.metrics@.subrange(0, i as int), *q),
            decreases self.metrics.len() - i,
        {
            proof {
                let p = self.metrics@.subrange(0, i + 1);
                assert(p.drop_last() =~= self.metrics@.subrange(0, i as int));
                assert(p.last() == self.metrics@[i as int]);
            }
            if metric_matches(&self.metrics[i], q) {
                let ghost before = out@;
                out.push(copy_metric(&self.metrics[i]));
                assert(out@.map_values(|m: Metric| metric_view(m)) =~= before.map_values(|m: Metric| metric_view(m)).push(
                    metric_view(self.metrics@[i as int]),
                ));
            }
            i += 1;
        }
        assert(self.metrics@.subrange(0, self.metrics@.len() as int) =~= self.metrics@);
        Ok(out)
    }

    pub fn get_all(&self) -> (r: Result<Vec<Metric>, Error>)
        ensures
            r is Ok,
            r->Ok_0@.map_values(|m: Metric| metric_view(m)) == metrics_kept(self.metrics@, MetricQuery::All),
    {
        self.query(&MetricQuery::All)
    }

    pub fn get_by_name(&self, name: &str) -> (r: Result<Vec<Metric>, Error>)
        ensures
            r is Ok,
            exists|n: String| n@ == name@ && r->Ok_0@.map_values(|m: Metric| metric_view(m)) == metrics_kept(
                self.metrics@,
                MetricQuery::Name(n),
            ),
    {
        let mut n = String::new();
        crate::strings::push_str(&mut n, name);
        let q = MetricQuery::Name(n);
        self.query(&q)
    }

    pub fn get_by_label(&self, key: &str, value: &str) -> (r: Result<Vec<Metric>, Error>)
        ensures
            r is Ok,
            exists|k: String, v: String| k@ == key@ && v@ == value@ && r->Ok_0@.map_values(|m: Metric| metric_view(m))
                == metrics_kept(self.metrics@, MetricQuery::Label(k, v)),
    {
        let mut k = String::new();
        crate::strings::push_str(&mut k, key);
        let mut v = String::new();
        crate::strings::push_str(&mut v, value);
        let q = MetricQuery::Label(k, v);
        self.query(&q)
    }

    /// The records taken from `start` to `end`, both included.
    pub fn get_by_time_range(&self, start: (i64, u32), end: (i64, u32)) -> (r: Result<Vec<Metric>, Error>)
        ensures
            r is Ok,
            r->Ok_0@.map_values(|m: Metric| metric_view(m)) == metrics_kept(self.metrics@, MetricQuery::TimeRange(start, end)),
    {
        self.query(&MetricQuery::TimeRange(start, end))
    }

    pub fn clear(&mut self) -> (r: Result<(), Error>)
        ensures
            r is Ok,
            final(self).metrics@.len() == 0,
    {
        self.metrics.clear();
        Ok(())
    }

    pub fn count(&self) -> (r: Result<usize, Error>)
        ensures
            r == Ok::<usize, Error>(self.metrics@.len() as usize),
    {
        Ok(self.metrics.len())
    }
}

/// Whether `needle` occurs in `hay`.
pub open spec fn contains_seq(hay: Seq<char>, needle: Seq<char>) -> bool {
    exists|i: int| crate::parser::starts_with(hay, i, needle)
}

/// Whether `needle` occurs in `hay` (what `str::contains` reports).
pub fn contains_text(hay: &str, needle: &str) -> (r: bool)
    ensures
        r == contains_seq(hay@, needle@),
{
    let h = chars_of(hay);
    let n = chars_of(needle);
    let mut i: usize = 0;
    while i <= h.len()
        invariant
            i <= h@.len() + 1,
            h@.len() <= isize::MAX,
            h@ == hay@,
            n@ == needle@,
            forall|k: int| 0 <= k < i ==> !crate::parser::starts_with(hay@, k, needle@),
        decreases h.len() + 1 - i,
    {
        if crate::parser::match_string(h.as_slice(), i, n.as_slice()) {
            return true;
        }
        i += 1;
    }
    assert forall|k: int| !crate::parser::starts_with(hay@, k, needle@) by {
        if 0 <= k && k + needle@.len() <= hay@.len() {
            assert(k < i);
        }
    }
    false
}

/// What a trace query keeps.
pub enum TraceQuery {
    All,
    Id(String),
    Name(String),
    Children(String),
    Roots,
    TimeRange((i64, u32), (i64, u32)),
}

pub open spec fn trace_kept(t: Trace, q: TraceQuery) -> bool {
    match q {
        TraceQuery::All => true,
        TraceQuery::Id(id) => t.span_id@ == id@,
        TraceQuery::Name(n) => t.name@ == n@,
        TraceQuery::Children(p) => t.parent_id matches Some(x) && x@ == p@,
        TraceQuery::Roots => t.parent_id is None,
        TraceQuery::TimeRange(s, e) => in_range(t.start_time@, s, e),
    }
}

/// The model of a trace record.
pub open spec fn trace_view(t: Trace) -> (Seq<char>, u64, Seq<char>, Seq<char>, Option<Seq<char>>, Seq<char>, Seq<(Seq<char>, Seq<char>)>) {
    (t.name@, t.duration_ms, t.start_time@, t.end_time@, crate::block::opt_view(t.parent_id), t.span_id@, pairs_view(t.metadata@))
}

pub open spec fn traces_kept(ts: Seq<Trace>, q: TraceQuery) -> Seq<(Seq<char>, u64, Seq<char>, Seq<char>, Option<Seq<char>>, Seq<char>, Seq<(Seq<char>, Seq<char>)>)>
    decreases ts.len(),
{
    if ts.len() == 0 {
        Seq::empty()
    } else if trace_kept(ts.last(), q) {
        traces_kept(ts.drop_last(), q).push(trace_view(ts.last()))
    } else {
        traces_kept(ts.drop_last(), q)
    }
}

fn copy_trace(t: &Trace) -> (r: Trace)
    ensures
        trace_view(r) == trace_view(*t),
{
    Trace {
        name: t.name.clone(),
        duration_ms: t.duration_ms,
        start_time: t.start_time.clone(),
        end_time: t.end_time.clone(),
        parent_id: copy_opt(&t.parent_id),
        span_id: t.span_id.clone(),
        metadata: copy_pairs(&t.metadata),
    }
}

fn same(a: &String, b: &String) -> (r: bool)
    ensures
        r == (a@ == b@),
{
    crate::models::same_text(a.as_str(), chars_of(b.as_str()).as_slice())
}

fn trace_matches(t: &Trace, q: &TraceQuery) -> (r: bool)
    ensures
        r == trace_kept(*t, *q),
{
    match q {
        TraceQuery::All => true,
        TraceQuery::Id(id) => same(&t.span_id, id),
        TraceQuery::Name(n) => same(&t.name, n),
        TraceQuery::Children(p) => match &t.parent_id {
            Some(x) => same(x, p),
            None => false,
        },
        TraceQuery::Roots => t.parent_id.is_none(),
        TraceQuery::TimeRange(s, e) => within(t.start_time.as_str(), *s, *e),
    }
}

fn text(s: &str) -> (r: String)
    ensures
        r@ == s@,
{
    let mut r = String::new();
    crate::strings::push_str(&mut r, s);
    r
}

/// Trace records, in the order they were added.
pub struct TraceStorage {
    pub traces: Vec<Trace>,
}

impl TraceStorage {
    pub fn new() -> (r: Self)
        ensures
            r.traces@.len() == 0,
    {
        TraceStorage { traces: Vec::new() }
    }

    pub fn add(&mut self, trace: Trace) -> (r: Result<(), Error>)
        ensures
            r is Ok,
            final(self).traces@ == old(self).traces@.push(trace),
    {
        self.traces.push(trace);
        Ok(())
    }

    /// Copies of the records that `q` keeps, in order.
    pub fn query(&self, q: &TraceQuery) -> (r: Result<Vec<Trace>, Error>)
        ensures
            r is Ok,
            r->Ok_0@.map_values(|t: Trace| trace_view(t)) == traces_kept(self.traces@, *q),
    {
        let mut out: Vec<Trace> = Vec::new();
        let mut i: usize = 0;
        while i < self.traces.len()
            invariant
                i <= self.traces@.len(),
                out@.map_values(|t: Trace| trace_view(t)) == traces_kept(self.traces@.subrange(0, i as int), *q),
            decreases self.traces.len() - i,
        {
            proof {
                let p = self.traces@.subrange(0, i + 1);
                assert(p.drop_last() =~= self.traces@.subrange(0, i as int));
                assert(p.last() == self.traces@[i as int]);
            }
            if trace_matches(&self.traces[i], q) {
                let ghost before = out@;
                out.push(copy_trace(&self.traces[i]));
                assert(out@.map_values(|t: Trace| trace_view(t)) =~= before.map_values(|t: Trace| trace_view(t)).push(
                    trace_view(self.traces@[i as int]),
                ));
            }
            i += 1;
        }
        assert(self.traces@.subrange(0, self.traces@.len() as int) =~= self.traces@);
        Ok(out)
    }

    pub fn get_all(&self) -> (r: Result<Vec<Trace>, Error>)
        ensures
            r is Ok,
            r->Ok_0@.map_values(|t: Trace| trace_view(t)) == traces_kept(self.traces@, TraceQuery::All),
    {
        self.query(&TraceQuery::All)
    }

    /// The first record with this span id.
    pub fn get_by_id(&self, span_id: &str) -> (r: Result<Option<Trace>, Error>)
        ensures
            r is Ok,
            exists|id: String| id@ == span_id@ && {
                let kept = traces_kept(self.traces@, TraceQuery::Id(id));
                if kept.len() == 0 {
                    r->Ok_0 is None
                } else {
                    r->Ok_0 is Some && trace_view(r->Ok_0->Some_0) == kept[0]
                }
            },
    {
        let q = TraceQuery::Id(text(span_id));
        let found = match self.query(&q) {
            Ok(v) => v,
            Err(e) => return Err(e),
        };
        if found.len() == 0 {
            proof {
                assert(found@.map_values(|t: Trace| trace_view(t)).len() == 0);
            }
            Ok(None)
        } else {
            proof {
                assert(found@.map_values(|t: Trace| trace_view(t))[0] == trace_view(found@[0]));
            }
            Ok(Some(copy_trace(&found[0])))
        }
    }

    pub fn get_by_name(&self, name: &str) -> (r: Result<Vec<Trace>, Error>)
        ensures
            r is Ok,
            exists|n: String| n@ == name@ && r->Ok_0@.map_values(|t: Trace| trace_view(t)) == traces_kept(
                self.traces@,
                TraceQuery::Name(n),
            ),
    {
        let q = TraceQuery::Name(text(name));
        self.query(&q)
    }

    /// The records whose parent is `parent_id`.
    pub fn get_children(&self, parent_id: &str) -> (r: Result<Vec<Trace>, Error>)
        ensures
            r is Ok,
            exists|p: String| p@ == parent_id@ && r->Ok_0@.map_values(|t: Trace| trace_view(t)) == traces_kept(
                self.traces@,
                TraceQuery::Children(p),
            ),
    {
        let q = TraceQuery::Children(text(parent_id));
        self.query(&q)
    }

    /// The records without a parent.
    pub fn get_roots(&self) -> (r: Result<Vec<Trace>, Error>)
        ensures
            r is Ok,
            r->Ok_0@.map_values(|t: Trace| trace_view(t)) == traces_kept(self.traces@, TraceQuery::Roots),
    {
        self.query(&TraceQuery::Roots)
    }

    /// The records started from `start` to `end`, both included.
    pub fn get_by_time_range(&self, start: (i64, u32), end: (i64, u32)) -> (r: Result<Vec<Trace>, Error>)
        ensures
            r is Ok,
            r->Ok_0@.map_values(|t: Trace| trace_view(t)) == traces_kept(self.traces@, TraceQuery::TimeRange(start, end)),
    {
        self.query(&TraceQuery::TimeRange(start, end))
    }

    pub fn clear(&mut self) -> (r: Result<(), Error>)
        ensures
            r is Ok,
            final(self).traces@.len() == 0,
    {
        self.traces.clear();
        Ok(())
    }

    pub fn count(&self) -> (r: Result<usize, Error>)
        ensures
            r == Ok::<usize, Error>(self.traces@.len() as usize),
    {
        Ok(self.traces.len())
    }
}

/// What a log query keeps.
pub enum LogQuery {
    All,
    MinLevel(LogLevel),
    Source(String),
    MessageContains(String),
    TimeRange((i64, u32), (i64, u32)),
}

pub open spec fn log_kept(l: LogEntry, q: LogQuery) -> bool {
    match q {
        LogQuery::All => true,
        LogQuery::MinLevel(m) => level_rank(l.level) >= level_rank(m),
        LogQuery::Source(s) => l.source@ == s@,
        LogQuery::MessageContains(x) => contains_seq(l.message@, x@),
        LogQuery::TimeRange(s, e) => in_range(l.timestamp@, s, e),
    }
}

/// The model of a log record.
pub open spec fn log_view(l: LogEntry) -> (Seq<char>, LogLevel, Seq<char>, Seq<char>, Seq<(Seq<char>, Seq<char>)>) {
    (l.message@, l.level, l.timestamp@, l.source@, pairs_view(l.metadata@))
}

pub open spec fn logs_kept(ls: Seq<LogEntry>, q: LogQuery) -> Seq<(Seq<char>, LogLevel, Seq<char>, Seq<char>, Seq<(Seq<char>, Seq<char>)>)>
    decreases ls.len(),
{
    if ls.len() == 0 {
        Seq::empty()
    } else if log_kept(ls.last(), q) {
        logs_kept(ls.drop_last(), q).push(log_view(ls.last()))
    } else {
        logs_kept(ls.drop_last(), q)
    }
}

fn copy_log(l: &LogEntry) -> (r: LogEntry)
    ensures
        log_view(r) == log_view(*l),
{
    LogEntry {
        message: l.message.clone(),
        level: l.level,
        timestamp: l.timestamp.clone(),
        source: l.source.clone(),
        metadata: copy_pairs(&l.metadata),
    }
}

fn log_matches(l: &LogEntry, q: &LogQuery) -> (r: bool)
    ensures
        r == log_kept(*l, *q),
{
    match q {
        LogQuery::All => true,
        LogQuery::MinLevel(m) => l.is_level_at_least(*m),
        LogQuery::Source(s) => same(&l.source, s),
        LogQuery::MessageContains(x) => contains_text(l.message.as_str(), x.as_str()),
        LogQuery::TimeRange(s, e) => within(l.timestamp.as_str(), *s, *e),
    }
}

/// Log records, in the order they were added.
pub struct LogStorage {
    pub logs: Vec<LogEntry>,
}

impl LogStorage {
    pub fn new() -> (r: Self)
        ensures
            r.logs@.len() == 0,
    {
        LogStorage { logs: Vec::new() }
    }

    pub fn add(&mut self, log: LogEntry) -> (r: Result<(), Error>)
        ensures
            r is Ok,
            final(self).logs@ == old(self).logs@.push(log),
    {
        self.logs.push(log);
        Ok(())
    }

    /// Copies of the records that `q` keeps, in order.
    pub fn query(&self, q: &LogQuery) -> (r: Result<Vec<LogEntry>, Error>)
        ensures
            r is Ok,
            r->Ok_0@.map_values(|l: LogEntry| log_view(l)) == logs_kept(self.logs@, *q),
    {
        let mut out: Vec<LogEntry> = Vec::new();
        let mut i: usize = 0;
        while i < self.logs.len()
            invariant
                i <= self.logs@.len(),
                out@.map_values(|l: LogEntry| log_view(l)) == logs_kept(self.logs@.subrange(0, i as int), *q),
            decreases self.logs.len() - i,
        {
            proof {
                let p = self.logs@.subrange(0, i + 1);
                assert(p.drop_last() =~= self.logs@.subrange(0, i as int));
                assert(p.last() == self.logs@[i as int]);
            }
            if log_matches(&self.logs[i], q) {
                let ghost before = out@;
                out.push(copy_log(&self.logs[i]));
                assert(out@.map_values(|l: LogEntry| log_view(l)) =~= before.map_values(|l: LogEntry| log_view(l)).push(
                    log_view(self.logs@[i as int]),
                ));
            }
            i += 1;
        }
        assert(self.logs@.subrange(0, self.logs@.len() as int) =~= self.logs@);
        Ok(out)
    }

    pub fn get_all(&self) -> (r: Result<Vec<LogEntry>, Error>)
        ensures
            r is Ok,
            r->Ok_0@.map_values(|l: LogEntry| log_view(l)) == logs_kept(self.logs@, LogQuery::All),
    {
        self.query(&LogQuery::All)
    }

    /// The records at least as severe as `min_level`.
    pub fn get_by_level(&self, min_level: LogLevel) -> (r: Result<Vec<LogEntry>, Error>)
        ensures
            r is Ok,
            r->Ok_0@.map_values(|l: LogEntry| log_view(l)) == logs_kept(self.logs@, LogQuery::MinLevel(min_level)),
    {
        self.query(&LogQuery::MinLevel(min_level))
    }

    pub fn get_by_source(&self, source: &str) -> (r: Result<Vec<LogEntry>, Error>)
        ensures
            r is Ok,
            exists|s: String| s@ == source@ && r->Ok_0@.map_values(|l: LogEntry| log_view(l)) == logs_kept(
                self.logs@,
                LogQuery::Source(s),
            ),
    {
        let q = LogQuery::Source(text(source));
        self.query(&q)
    }

    pub fn get_by_message_contains(&self, needle: &str) -> (r: Result<Vec<LogEntry>, Error>)
        ensures
            r is Ok,
            exists|s: String| s@ == needle@ && r->Ok_0@.map_values(|l: LogEntry| log_view(l)) == logs_kept(
                self.logs@,
                LogQuery::MessageContains(s),
            ),
    {
        let q = LogQuery::MessageContains(text(needle));
        self.query(&q)
    }

    /// The records logged from `start` to `end`, both included.
    pub fn get_by_time_range(&self, start: (i64, u32), end: (i64, u32)) -> (r: Result<Vec<LogEntry>, Error>)
        ensures
            r is Ok,
            r->Ok_0@.map_values(|l: LogEntry| log_view(l)) == logs_kept(self.logs@, LogQuery::TimeRange(start, end)),
    {
        self.query(&LogQuery::TimeRange(start, end))
    }

    pub fn clear(&mut self) -> (r: Result<(), Error>)
        ensures
            r is Ok,
            final(self).logs@.len() == 0,
    {
        self.logs.clear();
        Ok(())
    }

    pub fn count(&self) -> (r: Result<usize, Error>)
        ensures
            r == Ok::<usize, Error>(self.logs@.len() as usize),
    {
        Ok(self.logs.len())
    }
}

} // verus!
