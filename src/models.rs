//! The records that data directives are bound to: metrics, log entries and
//! traces, each holding as text what the documents show of it.
use vstd::prelude::*;
use crate::block::pairs_view;
use crate::strings::{to_uppercase, upper_of};

verus! {

/// The severity of a log entry, from least to most severe.
#[derive(Debug, Clone, Copy, PartialEq, Eq, Structural, PartialOrd, Ord, Hash)]
pub enum LogLevel {
    Debug,
    Info,
    Warning,
    Error,
}

pub open spec fn level_name(l: LogLevel) -> Seq<char> {
    match l {
        LogLevel::Debug => seq!['D', 'E', 'B', 'U', 'G'],
        LogLevel::Info => seq!['I', 'N', 'F', 'O'],
        LogLevel::Warning => seq!['W', 'A', 'R', 'N', 'I', 'N', 'G'],
        LogLevel::Error => seq!['E', 'R', 'R', 'O', 'R'],
    }
}

/// The level that an upper-case name stands for.
pub open spec fn level_of_upper(u: Seq<char>) -> Option<LogLevel> {
    if u == seq!['D', 'E', 'B', 'U', 'G'] {
        Some(LogLevel::Debug)
    } else if u == seq!['I', 'N', 'F', 'O'] {
        Some(LogLevel::Info)
    } else if u == seq!['W', 'A', 'R', 'N', 'I', 'N', 'G'] || u == seq!['W', 'A', 'R', 'N'] {
        Some(LogLevel::Warning)
    } else if u == seq!['E', 'R', 'R', 'O', 'R'] || u == seq!['E', 'R', 'R'] {
        Some(LogLevel::Error)
    } else {
        None
    }
}

/// Whether the characters of `s` are those of `lit`.
pub fn same_text(s: &str, lit: &[char]) -> (r: bool)
    ensures
        r == (s@ == lit@),
{
    let n = crate::strings::chars_of(s);
    if n.len() != lit.len() {
        return false;
    }
    let mut i: usize = 0;
    while i < lit.len()
        invariant
            i <= lit@.len(),
            n@.len() == lit@.len(),
            n@ == s@,
            forall|k: int| 0 <= k < i ==> n@[k] == lit@[k],
        decreases lit.len() - i,
    {
        if n[i] != lit[i] {
            return false;
        }
        i += 1;
    }
    assert(s@ =~= lit@);
    true
}

impl LogLevel {
    /// The upper-case name of the level.
    pub fn as_str(&self) -> (r: &'static str)
        ensures
            r@ == level_name(*self),
    {
        proof {
            reveal_strlit("DEBUG");
            reveal_strlit("INFO");
            reveal_strlit("WARNING");
            reveal_strlit("ERROR");
        }
        match self {
            LogLevel::Debug => "DEBUG",
            LogLevel::Info => "INFO",
            LogLevel::Warning => "WARNING",
            LogLevel::Error => "ERROR",
        }
    }

    /// The level named by `s` in any case; `WARN` and `ERR` are accepted too.
    pub fn from_str(s: &str) -> (r: Option<LogLevel>)
        ensures
            r == level_of_upper(upper_of(s@)),
    {
        let u = to_uppercase(s);
        proof {
            assert(['D', 'E', 'B', 'U', 'G']@ =~= seq!['D', 'E', 'B', 'U', 'G']);
            assert(['I', 'N', 'F', 'O']@ =~= seq!['I', 'N', 'F', 'O']);
            assert(['W', 'A', 'R', 'N', 'I', 'N', 'G']@ =~= seq!['W', 'A', 'R', 'N', 'I', 'N', 'G']);
            assert(['W', 'A', 'R', 'N']@ =~= seq!['W', 'A', 'R', 'N']);
            assert(['E', 'R', 'R', 'O', 'R']@ =~= seq!['E', 'R', 'R', 'O', 'R']);
            assert(['E', 'R', 'R']@ =~= seq!['E', 'R', 'R']);
        }
        if same_text(u.as_str(), &['D', 'E', 'B', 'U', 'G']) {
            Some(LogLevel::Debug)
        } else if same_text(u.as_str(), &['I', 'N', 'F', 'O']) {
            Some(LogLevel::Info)
        } else if same_text(u.as_str(), &['W', 'A', 'R', 'N', 'I', 'N', 'G']) || same_text(
            u.as_str(),
            &['W', 'A', 'R', 'N'],
        ) {
            Some(LogLevel::Warning)
        } else if same_text(u.as_str(), &['E', 'R', 'R', 'O', 'R']) || same_text(u.as_str(), &['E', 'R', 'R']) {
            Some(LogLevel::Error)
        } else {
            None
        }
    }
}

/// The value bound to `key` in `m`: that of its first pair with that key.
pub open spec fn lookup(m: Seq<(Seq<char>, Seq<char>)>, key: Seq<char>) -> Option<Seq<char>>
    decreases m.len(),
{
    if m.len() == 0 {
        None
    } else if m[0].0 == key {
        Some(m[0].1)
    } else {
        lookup(m.drop_first(), key)
    }
}

/// The value bound to `key` among `pairs`.
pub fn find_value<'a>(pairs: &'a Vec<(String, String)>, key: &str) -> (r: Option<&'a String>)
    ensures
        match lookup(pairs_view(pairs@), key@) {
            Some(v) => r matches Some(x) && x@ == v,
            None => r is None,
        },
{
    let mut i: usize = 0;
    assert(pairs_view(pairs@).subrange(0, pairs@.len() as int) =~= pairs_view(pairs@));
    while i < pairs.len()
        invariant
            i <= pairs@.len(),
            lookup(pairs_view(pairs@), key@) == lookup(pairs_view(pairs@).subrange(i as int, pairs@.len() as int), key@),
        decreases pairs.len() - i,
    {
        let ghost rest = pairs_view(pairs@).subrange(i as int, pairs@.len() as int);
        assert(rest[0] == (pairs@[i as int].0@, pairs@[i as int].1@));
        if same_text(pairs[i].0.as_str(), crate::strings::chars_of(key).as_slice()) {
            return Some(&pairs[i].1);
        }
        assert(rest.drop_first() =~= pairs_view(pairs@).subrange(i + 1, pairs@.len() as int));
        i += 1;
    }
    None
}

/// A measurement: its name, its value as written, when it was taken, and labels.
#[derive(Debug, Clone, PartialEq)]
pub struct Metric {
    pub name: String,
    pub value: String,
    pub timestamp: String,
    pub labels: Vec<(String, String)>,
}

fn text(s: &str) -> (r: String)
    ensures
        r@ == s@,
{
    let mut r = String::new();
    crate::strings::push_str(&mut r, s);
    r
}

/// The rank of a level in the order Debug < Info < Warning < Error.
pub open spec fn level_rank(l: LogLevel) -> int {
    match l {
        LogLevel::Debug => 0,
        LogLevel::Info => 1,
        LogLevel::Warning => 2,
        LogLevel::Error => 3,
    }
}

fn rank(l: LogLevel) -> (r: u8)
    ensures
        r as int == level_rank(l),
{
    match l {
        LogLevel::Debug => 0,
        LogLevel::Info => 1,
        LogLevel::Warning => 2,
        LogLevel::Error => 3,
    }
}

/// Binds `key` to `value` among `pairs`, keeping each key once.
pub fn set_pair(pairs: &mut Vec<(String, String)>, key: &str, value: &str)
    requires
        crate::parser::keys_unique(pairs_view(old(pairs)@)),
    ensures
        pairs_view(final(pairs)@) == crate::parser::meta_insert(pairs_view(old(pairs)@), key@, value@),
        crate::parser::keys_unique(pairs_view(final(pairs)@)),
{
    crate::parser::insert_meta(pairs, text(key), text(value));
}

/// `m` with each pair of `extra` bound in turn.
pub open spec fn bind_all(m: Seq<(Seq<char>, Seq<char>)>, extra: Seq<(Seq<char>, Seq<char>)>) -> Seq<(Seq<char>, Seq<char>)>
    decreases extra.len(),
{
    if extra.len() == 0 {
        m
    } else {
        crate::parser::meta_insert(bind_all(m, extra.drop_last()), extra.last().0, extra.last().1)
    }
}

/// Binds each pair of `extra` among `pairs`, in order.
pub fn extend_pairs(pairs: &mut Vec<(String, String)>, extra: &Vec<(String, String)>)
    requires
        crate::parser::keys_unique(pairs_view(old(pairs)@)),
    ensures
        pairs_view(final(pairs)@) == bind_all(pairs_view(old(pairs)@), pairs_view(extra@)),
        crate::parser::keys_unique(pairs_view(final(pairs)@)),
{
    let mut i: usize = 0;
    while i < extra.len()
        invariant
            i <= extra@.len(),
            crate::parser::keys_unique(pairs_view(pairs@)),
            pairs_view(pairs@) == bind_all(pairs_view(old(pairs)@), pairs_view(extra@.subrange(0, i as int))),
        decreases extra.len() - i,
    {
        proof {
            let p = pairs_view(extra@.subrange(0, i + 1));
            assert(p.drop_last() =~= pairs_view(extra@.subrange(0, i as int)));
            assert(p.last() == (extra@[i as int].0@, extra@[i as int].1@));
        }
        set_pair(pairs, extra[i].0.as_str(), extra[i].1.as_str());
        i += 1;
    }
    assert(extra@.subrange(0, extra@.len() as int) =~= extra@);
}

impl Metric {
    /// A metric with no labels, taken now.
    pub fn new(name: &str, value: &str) -> (r: Metric)
        ensures
            r.name@ == name@,
            r.value@ == value@,
            r.labels@.len() == 0,
    {
        Metric { name: text(name), value: text(value), timestamp: crate::clock::now_rfc3339(), labels: Vec::new() }
    }

    /// A metric with no labels, taken at `timestamp`.
    pub fn with_timestamp(name: &str, value: &str, timestamp: &str) -> (r: Metric)
        ensures
            r.name@ == name@,
            r.value@ == value@,
            r.timestamp@ == timestamp@,
            r.labels@.len() == 0,
    {
        Metric { name: text(name), value: text(value), timestamp: text(timestamp), labels: Vec::new() }
    }

    /// The same metric with the label `key` set to `value`.
    pub fn with_label(self, key: &str, value: &str) -> (r: Metric)
        requires
            crate::parser::keys_unique(pairs_view(self.labels@)),
        ensures
            pairs_view(r.labels@) == crate::parser::meta_insert(pairs_view(self.labels@), key@, value@),
            r.name == self.name,
            r.value == self.value,
    {
        let mut m = self;
        set_pair(&mut m.labels, key, value);
        m
    }

    /// The same metric with each of `labels` set.
    pub fn with_labels(self, labels: Vec<(String, String)>) -> (r: Metric)
        requires
            crate::parser::keys_unique(pairs_view(self.labels@)),
        ensures
            pairs_view(r.labels@) == bind_all(pairs_view(self.labels@), pairs_view(labels@)),
            r.name == self.name,
            r.value == self.value,
    {
        let mut m = self;
        extend_pairs(&mut m.labels, &labels);
        m
    }

    /// Whether the label `key` is set.
    pub fn has_label(&self, key: &str) -> (r: bool)
        ensures
            r == lookup(pairs_view(self.labels@), key@) is Some,
    {
        self.get_label(key).is_some()
    }

    /// Whether the label `key` is set to `value`.
    pub fn has_label_value(&self, key: &str, value: &str) -> (r: bool)
        ensures
            r == (lookup(pairs_view(self.labels@), key@) == Some(value@)),
    {
        match self.get_label(key) {
            Some(v) => same_text(v.as_str(), crate::strings::chars_of(value).as_slice()),
            None => false,
        }
    }

    /// The value of the label `key`.
    pub fn get_label(&self, key: &str) -> (r: Option<&String>)
        ensures
            match lookup(pairs_view(self.labels@), key@) {
                Some(v) => r matches Some(x) && x@ == v,
                None => r is None,
            },
    {
        find_value(&self.labels, key)
    }
}

/// The whole milliseconds from `start` to `end`: zero when `end` is not
/// later or either time is unknown, and at most `u64::MAX`.
pub open spec fn span_millis(start: Option<(i64, u32)>, end: Option<(i64, u32)>) -> int {
    match (start, end) {
        (Some(s), Some(e)) => {
            let nanos = (e.0 - s.0) * 1_000_000_000 + (e.1 - s.1);
            if nanos <= 0 {
                0
            } else if nanos / 1_000_000 > u64::MAX {
                u64::MAX as int
            } else {
                nanos / 1_000_000
            }
        },
        _ => 0,
    }
}

fn millis_between(start: Option<(i64, u32)>, end: Option<(i64, u32)>) -> (r: u64)
    ensures
        r as int == span_millis(start, end),
{
    match (start, end) {
        (Some(s), Some(e)) => {
            let secs: i128 = e.0 as i128 - s.0 as i128;
            assert(-0x1_0000_0000_0000_0000 <= secs <= 0x1_0000_0000_0000_0000);
            let whole: i128 = secs * 1_000_000_000;
            let nanos: i128 = whole + (e.1 as i128 - s.1 as i128);
            if nanos <= 0 {
                0
            } else if nanos / 1_000_000 > u64::MAX as i128 {
                u64::MAX
            } else {
                (nanos / 1_000_000) as u64
            }
        },
        _ => 0,
    }
}

/// A log line: message, level, time (RFC 3339 text), source and metadata.
#[derive(Debug, Clone, PartialEq)]
pub struct LogEntry {
    pub message: String,
    pub level: LogLevel,
    pub timestamp: String,
    pub source: String,
    pub metadata: Vec<(String, String)>,
}

/// A timed operation: name, duration, start time (RFC 3339 text) and metadata.
#[derive(Debug, Clone, PartialEq)]
pub struct Trace {
    pub name: String,
    pub duration_ms: u64,
    pub start_time: String,
    pub end_time: String,
    pub parent_id: Option<String>,
    pub span_id: String,
    pub metadata: Vec<(String, String)>,
}

impl LogEntry {
    /// An entry with no metadata, logged now.
    pub fn new(message: &str, level: LogLevel, source: &str) -> (r: LogEntry)
        ensures
            r.message@ == message@,
            r.level == level,
            r.source@ == source@,
            r.metadata@.len() == 0,
    {
        LogEntry {
            message: text(message),
            level,
            timestamp: crate::clock::now_rfc3339(),
            source: text(source),
            metadata: Vec::new(),
        }
    }

    /// An entry with no metadata, logged at `timestamp`.
    pub fn with_timestamp(message: &str, level: LogLevel, source: &str, timestamp: &str) -> (r: LogEntry)
        ensures
            r.message@ == message@,
            r.level == level,
            r.source@ == source@,
            r.timestamp@ == timestamp@,
            r.metadata@.len() == 0,
    {
        LogEntry { message: text(message), level, timestamp: text(timestamp), source: text(source), metadata: Vec::new() }
    }

    /// The same entry with the metadata `key` set to `value`.
    pub fn with_metadata(self, key: &str, value: &str) -> (r: LogEntry)
        requires
            crate::parser::keys_unique(pairs_view(self.metadata@)),
        ensures
            pairs_view(r.metadata@) == crate::parser::meta_insert(pairs_view(self.metadata@), key@, value@),
            r.message == self.message,
            r.level == self.level,
    {
        let mut l = self;
        set_pair(&mut l.metadata, key, value);
        l
    }

    /// The same entry with each of `metadata` set.
    pub fn with_metadata_map(self, metadata: Vec<(String, String)>) -> (r: LogEntry)
        requires
            crate::parser::keys_unique(pairs_view(self.metadata@)),
        ensures
            pairs_view(r.metadata@) == bind_all(pairs_view(self.metadata@), pairs_view(metadata@)),
            r.message == self.message,
            r.level == self.level,
    {
        let mut l = self;
        extend_pairs(&mut l.metadata, &metadata);
        l
    }

    /// The value of the metadata entry `key`.
    pub fn get_metadata(&self, key: &str) -> (r: Option<&String>)
        ensures
            match lookup(pairs_view(self.metadata@), key@) {
                Some(v) => r matches Some(x) && x@ == v,
                None => r is None,
            },
    {
        find_value(&self.metadata, key)
    }

    /// Whether the metadata entry `key` is set.
    pub fn has_metadata(&self, key: &str) -> (r: bool)
        ensures
            r == lookup(pairs_view(self.metadata@), key@) is Some,
    {
        self.get_metadata(key).is_some()
    }

    /// The entry as one line: `[time] [LEVEL] [source]: message`, the time
    /// written to the millisecond in UTC (or as stored when it does not read
    /// as a time).
    pub fn format(&self) -> (r: String)
        ensures
            r@ == "["@ + match crate::clock::clock_text_of(self.timestamp@) {
                Some(t) => t,
                None => self.timestamp@,
            } + "] ["@ + level_name(self.level) + "] ["@ + self.source@ + "]: "@ + self.message@,
    {
        let time = match crate::clock::clock_text(self.timestamp.as_str()) {
            Some(t) => t,
            None => self.timestamp.clone(),
        };
        let mut r = text("[");
        crate::strings::push_str(&mut r, time.as_str());
        crate::strings::push_str(&mut r, "] [");
        crate::strings::push_str(&mut r, self.level.as_str());
        crate::strings::push_str(&mut r, "] [");
        crate::strings::push_str(&mut r, self.source.as_str());
        crate::strings::push_str(&mut r, "]: ");
        crate::strings::push_str(&mut r, self.message.as_str());
        r
    }

    /// Whether this entry is at least as severe as `level`.
    pub fn is_level_at_least(&self, level: LogLevel) -> (r: bool)
        ensures
            r == (level_rank(self.level) >= level_rank(level)),
    {
        rank(self.level) >= rank(level)
    }
}

impl Trace {
    /// A root trace of `duration_ms` that ends now, with a fresh span id.
    pub fn new(name: &str, duration_ms: u64) -> (r: Trace)
        requires
            duration_ms <= crate::clock::MAX_SPAN_MS,
        ensures
            r.name@ == name@,
            r.duration_ms == duration_ms,
            r.parent_id is None,
            r.metadata@.len() == 0,
    {
        let (start_time, end_time) = crate::clock::span_ending_now(duration_ms);
        Trace {
            name: text(name),
            duration_ms,
            start_time,
            end_time,
            parent_id: None,
            span_id: crate::clock::new_span_id(),
            metadata: Vec::new(),
        }
    }

    /// A root trace from `start_time` to `end_time` (RFC 3339 texts), with a
    /// fresh span id; its duration is `span_millis` of the two.
    pub fn with_times(name: &str, start_time: &str, end_time: &str) -> (r: Trace)
        ensures
            r.name@ == name@,
            r.start_time@ == start_time@,
            r.end_time@ == end_time@,
            r.duration_ms as int == span_millis(crate::storage::instant_of(start_time@), crate::storage::instant_of(end_time@)),
            r.parent_id is None,
            r.metadata@.len() == 0,
    {
        let duration_ms = millis_between(crate::storage::instant(start_time), crate::storage::instant(end_time));
        Trace {
            name: text(name),
            duration_ms,
            start_time: text(start_time),
            end_time: text(end_time),
            parent_id: None,
            span_id: crate::clock::new_span_id(),
            metadata: Vec::new(),
        }
    }

    /// The same trace as a child of `parent_id`.
    pub fn with_parent(self, parent_id: &str) -> (r: Trace)
        ensures
            r.parent_id matches Some(p) && p@ == parent_id@,
            r.name == self.name,
            r.duration_ms == self.duration_ms,
            r.metadata == self.metadata,
    {
        let mut t = self;
        t.parent_id = Some(text(parent_id));
        t
    }

    /// The same trace with the metadata `key` set to `value`.
    pub fn with_metadata(self, key: &str, value: &str) -> (r: Trace)
        requires
            crate::parser::keys_unique(pairs_view(self.metadata@)),
        ensures
            pairs_view(r.metadata@) == crate::parser::meta_insert(pairs_view(self.metadata@), key@, value@),
            r.name == self.name,
            r.duration_ms == self.duration_ms,
    {
        let mut t = self;
        set_pair(&mut t.metadata, key, value);
        t
    }

    /// The same trace with each of `metadata` set.
    pub fn with_metadata_map(self, metadata: Vec<(String, String)>) -> (r: Trace)
        requires
            crate::parser::keys_unique(pairs_view(self.metadata@)),
        ensures
            pairs_view(r.metadata@) == bind_all(pairs_view(self.metadata@), pairs_view(metadata@)),
            r.name == self.name,
            r.duration_ms == self.duration_ms,
    {
        let mut t = self;
        extend_pairs(&mut t.metadata, &metadata);
        t
    }

    /// Whether the trace has no parent.
    pub fn is_root(&self) -> (r: bool)
        ensures
            r == self.parent_id is None,
    {
        self.parent_id.is_none()
    }

    /// Whether the metadata entry `key` is set.
    pub fn has_metadata(&self, key: &str) -> (r: bool)
        ensures
            r == lookup(pairs_view(self.metadata@), key@) is Some,
    {
        self.get_metadata(key).is_some()
    }

    /// The value of the metadata entry `key`.
    pub fn get_metadata(&self, key: &str) -> (r: Option<&String>)
        ensures
            match lookup(pairs_view(self.metadata@), key@) {
                Some(v) => r matches Some(x) && x@ == v,
                None => r is None,
            },
    {
        find_value(&self.metadata, key)
    }
}

} // verus!
