//! The markup parser: text to a sequence of blocks.
//!
//! The grammar is stated as spec functions over the characters of the input
//! (`document`), and each parsing function is proved to compute it.
use vstd::prelude::*;
use vstd::slice::slice_subrange;
use crate::block::{Block, Node, Trend, blocks_view, pairs_view, strings_view, rows_view};
use crate::error::{Error, ParseError, ParseErrorKind};
use crate::number::{check_trend, is_float_text, parse_u64, parse_unsigned_spec, parse_usize};
use crate::block::{block_view, opt_view};
use crate::strings::{chars_of, push_char, push_str, is_alnum, is_alphanumeric, is_whitespace, skip_space, string_of, trim_seq, trimmed_string_of};

verus! {

/// The model of a parse error: its kind, its text, and the line and column
/// where it was found.
pub struct Failure {
    pub kind: ParseErrorKind,
    pub text: Seq<char>,
    pub line: int,
    pub column: int,
}

/// The line (from 1) of the character at index `p`.
pub open spec fn line_at(s: Seq<char>, p: int) -> int
    decreases p,
{
    if p <= 0 || p > s.len() {
        1
    } else {
        line_at(s, p - 1) + if s[p - 1] == '\n' { 1int } else { 0int }
    }
}

/// The column (from 1) of the character at index `p`.
pub open spec fn column_at(s: Seq<char>, p: int) -> int
    decreases p,
{
    if p <= 0 || p > s.len() {
        1
    } else if s[p - 1] == '\n' {
        1
    } else {
        column_at(s, p - 1) + 1
    }
}

/// `e` reports the failure `f`.
pub open spec fn reports(e: ParseError, f: Failure) -> bool {
    &&& e.kind == f.kind
    &&& e.text@ == f.text
    &&& e.line as int == f.line
    &&& e.column as int == f.column
}

/// The failure of kind `kind` at index `pos` of `s`.
pub open spec fn fail<T>(s: Seq<char>, kind: ParseErrorKind, text: Seq<char>, pos: int) -> Result<T, Failure> {
    Err(Failure { kind, text, line: line_at(s, pos), column: column_at(s, pos) })
}

/// The character at `p`, or NUL past the end.
pub open spec fn peek(s: Seq<char>, p: int) -> char {
    if 0 <= p < s.len() {
        s[p]
    } else {
        '\0'
    }
}

/// Whether the characters at `p` are `lit`.
pub open spec fn starts_with(s: Seq<char>, p: int, lit: Seq<char>) -> bool {
    0 <= p && p + lit.len() <= s.len() && s.subrange(p, p + lit.len()) == lit
}

/// The index of the first unescaped `e` at or after `q`, or the length; a
/// backslash right before `e` escapes it.
pub open spec fn scan_until(s: Seq<char>, q: int, e: char) -> int
    decreases s.len() - q,
{
    if q < 0 || q >= s.len() {
        s.len() as int
    } else if s[q] == e {
        q
    } else if s[q] == '\\' && q + 1 < s.len() && s[q + 1] == e {
        scan_until(s, q + 2, e)
    } else {
        scan_until(s, q + 1, e)
    }
}

/// The index of the first `@` at or after `q`, or the length.
pub open spec fn text_end(s: Seq<char>, q: int) -> int
    decreases s.len() - q,
{
    if q < 0 || q >= s.len() {
        s.len() as int
    } else if s[q] == '@' {
        q
    } else {
        text_end(s, q + 1)
    }
}

pub open spec fn is_ident_char(c: char) -> bool {
    is_alnum(c) || c == '_'
}

/// The index just after the directive name that starts at `q`.
pub open spec fn ident_end(s: Seq<char>, q: int) -> int
    decreases s.len() - q,
{
    if q < 0 || q >= s.len() {
        s.len() as int
    } else if is_ident_char(s[q]) {
        ident_end(s, q + 1)
    } else {
        q
    }
}

/// Consumes the character `c` at `p`.
pub open spec fn expect_at(s: Seq<char>, p: int, c: char) -> Result<int, Failure> {
    if p >= s.len() {
        fail(s, ParseErrorKind::UnexpectedEnd { expected: c }, Seq::empty(), p)
    } else if s[p] != c {
        fail(s, ParseErrorKind::Unexpected { expected: c, found: s[p] }, Seq::empty(), p)
    } else {
        Ok(p + 1)
    }
}

/// An argument group `{...}` at `p`: its raw text and the index after it.
pub open spec fn group_at(s: Seq<char>, p: int) -> Result<(Seq<char>, int), Failure> {
    match expect_at(s, p, '{') {
        Err(f) => Err(f),
        Ok(p1) => {
            let q = scan_until(s, p1, '}');
            if q >= s.len() {
                fail(s, ParseErrorKind::UnexpectedEnd { expected: '}' }, Seq::empty(), s.len() as int)
            } else {
                Ok((s.subrange(p1, q), q + 1))
            }
        },
    }
}

/// An argument group if one follows right at `p`.
pub open spec fn opt_group_at(s: Seq<char>, p: int) -> Result<(Option<Seq<char>>, int), Failure> {
    if peek(s, p) == '{' {
        match group_at(s, p) {
            Err(f) => Err(f),
            Ok((t, n)) => Ok((Some(t), n)),
        }
    } else {
        Ok((None, p))
    }
}

/// The index after the brace that closes a body opened `depth` levels deep.
pub open spec fn body_close(s: Seq<char>, q: int, depth: nat) -> Option<int>
    decreases s.len() - q,
{
    if depth == 0 {
        Some(q)
    } else if q < 0 || q >= s.len() {
        None
    } else if s[q] == '{' {
        body_close(s, q + 1, depth + 1)
    } else if s[q] == '}' {
        body_close(s, q + 1, (depth - 1) as nat)
    } else {
        body_close(s, q + 1, depth)
    }
}

/// A nested body `{...}` at `p`: where its text starts and ends, and the index after it.
pub open spec fn body_at(s: Seq<char>, p: int, unclosed: ParseErrorKind) -> Result<(int, int, int), Failure> {
    match expect_at(s, p, '{') {
        Err(f) => Err(f),
        Ok(p1) => match body_close(s, p1, 1) {
            None => fail(s, unclosed, Seq::empty(), s.len() as int),
            Some(e) => Ok((p1, e - 1, e)),
        },
    }
}

/// The index of the first `|` at or after `q`, or the length.
pub open spec fn next_bar(s: Seq<char>, q: int) -> int
    decreases s.len() - q,
{
    if q < 0 || q >= s.len() {
        s.len() as int
    } else if s[q] == '|' {
        q
    } else {
        next_bar(s, q + 1)
    }
}

/// The trimmed cells of `s` from `start` on, split at each `|`.
pub open spec fn cells_from(s: Seq<char>, start: int) -> Seq<Seq<char>>
    decreases s.len() - start,
{
    let k = next_bar(s, start);
    if start < 0 || start > s.len() || k >= s.len() || k < start {
        seq![trim_seq(s.subrange(start, s.len() as int))]
    } else {
        seq![trim_seq(s.subrange(start, k))] + cells_from(s, k + 1)
    }
}

/// The trimmed cells of a table line.
pub open spec fn cells(s: Seq<char>) -> Seq<Seq<char>> {
    cells_from(s, 0)
}

pub open spec fn lit_row() -> Seq<char> {
    seq!['@', 'r', 'o', 'w']
}

pub open spec fn lit_headers() -> Seq<char> {
    seq!['@', 'h', 'e', 'a', 'd', 'e', 'r', 's']
}

pub open spec fn lit_meta() -> Seq<char> {
    seq!['@', 'm', 'e', 't', 'a']
}

/// The `@row{...}` lines of a table from `p` on.
pub open spec fn rows_at(s: Seq<char>, p: int) -> Result<(Seq<Seq<Seq<char>>>, int), Failure>
    decreases s.len() - p,
{
    if p >= 0 && p < s.len() && starts_with(s, p, lit_row()) {
        match group_at(s, p + 4) {
            Err(f) => Err(f),
            Ok((line, n)) => {
                let q = skip_space(s, n);
                if q <= p || q > s.len() {
                    Ok((Seq::empty(), p))
                } else {
                    match rows_at(s, q) {
                        Err(f) => Err(f),
                        Ok((rest, e)) => Ok((seq![cells(line)] + rest, e)),
                    }
                }
            },
        }
    } else {
        Ok((Seq::empty(), p))
    }
}

/// The body of `@table` at `p`: optional headers, rows, closing brace.
pub open spec fn table_at(s: Seq<char>, p: int) -> Result<(Node, int), Failure> {
    match expect_at(s, p, '{') {
        Err(f) => Err(f),
        Ok(p1) => {
            let p2 = skip_space(s, p1);
            let hd: Result<(Seq<Seq<char>>, int), Failure> = if starts_with(s, p2, lit_headers()) {
                match group_at(s, p2 + 8) {
                    Err(f) => Err(f),
                    Ok((line, n)) => Ok((cells(line), skip_space(s, n))),
                }
            } else {
                Ok((Seq::empty(), p2))
            };
            match hd {
                Err(f) => Err(f),
                Ok((headers, p3)) => match rows_at(s, p3) {
                    Err(f) => Err(f),
                    Ok((rows, p4)) => match expect_at(s, p4, '}') {
                        Err(f) => Err(f),
                        Ok(p5) => Ok((Node::Table { headers, rows }, p5)),
                    },
                },
            }
        },
    }
}

/// `m` with `k` bound to `v`: the pair of that key replaced, or a new pair last.
pub open spec fn meta_insert(m: Seq<(Seq<char>, Seq<char>)>, k: Seq<char>, v: Seq<char>) -> Seq<(Seq<char>, Seq<char>)> {
    if exists|i: int| 0 <= i < m.len() && (#[trigger] m[i]).0 == k {
        let i = choose|i: int| 0 <= i < m.len() && (#[trigger] m[i]).0 == k;
        m.update(i, (k, v))
    } else {
        m.push((k, v))
    }
}

/// The `@meta{key}{value}` entries of a trace from `p` on, added to `acc`.
pub open spec fn metas_at(s: Seq<char>, p: int, acc: Seq<(Seq<char>, Seq<char>)>) -> Result<(Seq<(Seq<char>, Seq<char>)>, int), Failure>
    decreases s.len() - p,
{
    if p >= 0 && p < s.len() && starts_with(s, p, lit_meta()) {
        match group_at(s, p + 5) {
            Err(f) => Err(f),
            Ok((k, n1)) => match group_at(s, n1) {
                Err(f) => Err(f),
                Ok((v, n2)) => if n2 <= p || n2 > s.len() {
                    Ok((acc, p))
                } else {
                    metas_at(s, n2, meta_insert(acc, k, v))
                },
            },
        }
    } else {
        Ok((acc, p))
    }
}

/// The arguments of `@trace` at `p`.
pub open spec fn trace_at(s: Seq<char>, p: int) -> Result<(Node, int), Failure> {
    match group_at(s, p) {
        Err(f) => Err(f),
        Ok((name, p1)) => match group_at(s, p1) {
            Err(f) => Err(f),
            Ok((dur, p2)) => match parse_unsigned_spec(dur, u64::MAX as nat) {
                None => fail(s, ParseErrorKind::InvalidDuration, dur, p2),
                Some(d) => match group_at(s, p2) {
                    Err(f) => Err(f),
                    Ok((start_time, p3)) => match group_at(s, p3) {
                        Err(f) => Err(f),
                        Ok((status, p4)) => if peek(s, p4) == '{' {
                            match metas_at(s, p4 + 1, Seq::empty()) {
                                Err(f) => Err(f),
                                Ok((metadata, p5)) => match expect_at(s, p5, '}') {
                                    Err(f) => Err(f),
                                    Ok(p6) => Ok((Node::Trace { name, duration_ms: d as u64, start_time, status, metadata }, p6)),
                                },
                            }
                        } else {
                            Ok((Node::Trace { name, duration_ms: d as u64, start_time, status, metadata: Seq::empty() }, p4))
                        },
                    },
                },
            },
        },
    }
}

/// The arguments of `@metric` at `p`.
pub open spec fn metric_at(s: Seq<char>, p: int) -> Result<(Node, int), Failure> {
    match group_at(s, p) {
        Err(f) => Err(f),
        Ok((name, p1)) => match group_at(s, p1) {
            Err(f) => Err(f),
            Ok((value, p2)) => match opt_group_at(s, p2) {
                Err(f) => Err(f),
                Ok((unit, p3)) => match opt_group_at(s, p3) {
                    Err(f) => Err(f),
                    Ok((trend, p4)) => match trend {
                        Some(t) => if is_float_text(t) {
                            Ok((Node::Metric { name, value, unit, trend }, p4))
                        } else {
                            fail(s, ParseErrorKind::InvalidTrend, t, p4)
                        },
                        None => Ok((Node::Metric { name, value, unit, trend }, p4)),
                    },
                },
            },
        },
    }
}

/// The arguments of `@log` at `p`.
pub open spec fn log_at(s: Seq<char>, p: int) -> Result<(Node, int), Failure> {
    match group_at(s, p) {
        Err(f) => Err(f),
        Ok((message, p1)) => match group_at(s, p1) {
            Err(f) => Err(f),
            Ok((level, p2)) => match opt_group_at(s, p2) {
                Err(f) => Err(f),
                Ok((timestamp, p3)) => match opt_group_at(s, p3) {
                    Err(f) => Err(f),
                    Ok((source, p4)) => Ok((Node::LogEntry { message, level, timestamp, source }, p4)),
                },
            },
        },
    }
}

/// The arguments of `@heading` at `p`.
pub open spec fn heading_at(s: Seq<char>, p: int) -> Result<(Node, int), Failure> {
    match group_at(s, p) {
        Err(f) => Err(f),
        Ok((lv, p1)) => match parse_unsigned_spec(lv, usize::MAX as nat) {
            None => fail(s, ParseErrorKind::InvalidHeadingLevel, lv, p1),
            Some(level) => match group_at(s, p1) {
                Err(f) => Err(f),
                Ok((text, p2)) => Ok((Node::Heading { level: level as usize, text }, p2)),
            },
        },
    }
}

pub open spec fn word_heading() -> Seq<char> { seq!['h', 'e', 'a', 'd', 'i', 'n', 'g'] }
pub open spec fn word_paragraph() -> Seq<char> { seq!['p', 'a', 'r', 'a', 'g', 'r', 'a', 'p', 'h'] }
pub open spec fn word_command() -> Seq<char> { seq!['c', 'o', 'm', 'm', 'a', 'n', 'd'] }
pub open spec fn word_output() -> Seq<char> { seq!['o', 'u', 't', 'p', 'u', 't'] }
pub open spec fn word_frame() -> Seq<char> { seq!['f', 'r', 'a', 'm', 'e'] }
pub open spec fn word_metric() -> Seq<char> { seq!['m', 'e', 't', 'r', 'i', 'c'] }
pub open spec fn word_log() -> Seq<char> { seq!['l', 'o', 'g'] }
pub open spec fn word_table() -> Seq<char> { seq!['t', 'a', 'b', 'l', 'e'] }
pub open spec fn word_trace() -> Seq<char> { seq!['t', 'r', 'a', 'c', 'e'] }
pub open spec fn word_raw() -> Seq<char> { seq!['r', 'a', 'w'] }
pub open spec fn word_metrics() -> Seq<char> { seq!['m', 'e', 't', 'r', 'i', 'c', 's'] }
pub open spec fn word_logs() -> Seq<char> { seq!['l', 'o', 'g', 's'] }
pub open spec fn word_traces() -> Seq<char> { seq!['t', 'r', 'a', 'c', 'e', 's'] }
pub open spec fn word_var() -> Seq<char> { seq!['v', 'a', 'r'] }

/// A directive without a nested body, named `id`, whose arguments start at `p`.
pub open spec fn simple_directive_at(s: Seq<char>, id: Seq<char>, p: int) -> Result<(Node, int), Failure> {
    if id == word_heading() {
        heading_at(s, p)
    } else if id == word_paragraph() {
        match group_at(s, p) { Err(f) => Err(f), Ok((t, n)) => Ok((Node::Paragraph(t), n)) }
    } else if id == word_command() {
        match group_at(s, p) { Err(f) => Err(f), Ok((t, n)) => Ok((Node::CommandPrompt(t), n)) }
    } else if id == word_metric() {
        metric_at(s, p)
    } else if id == word_log() {
        log_at(s, p)
    } else if id == word_table() {
        table_at(s, p)
    } else if id == word_trace() {
        trace_at(s, p)
    } else if id == word_raw() {
        match group_at(s, p) { Err(f) => Err(f), Ok((t, n)) => Ok((Node::Raw(t), n)) }
    } else {
        fail(s, ParseErrorKind::UnknownDirective, id, p)
    }
}

/// The marker that `@var{name}` leaves for the final substitution.
pub open spec fn var_marker(name: Seq<char>) -> Seq<char> {
    seq!['@', 'v', 'a', 'r', '{'] + name + seq!['}']
}

/// The block that starts at or after `p`, and the index after it; `None` at
/// the end of the input.
pub open spec fn block_at(s: Seq<char>, p: int) -> Result<Option<(Node, int)>, Failure>
    decreases s.len(), s.len() - p,
{
    let q = skip_space(s, p);
    if p < 0 || p > s.len() || q < p || q >= s.len() {
        Ok(None)
    } else if s[q] != '@' {
        Ok(Some((Node::Paragraph(s.subrange(q, text_end(s, q))), text_end(s, q))))
    } else {
        let d = q + 1;
        let ie = ident_end(s, d);
        let id = s.subrange(d, ie);
        if id == word_metrics() {
            Ok(Some((Node::Raw(seq!['@'] + word_metrics()), ie)))
        } else if id == word_logs() {
            Ok(Some((Node::Raw(seq!['@'] + word_logs()), ie)))
        } else if id == word_traces() {
            Ok(Some((Node::Raw(seq!['@'] + word_traces()), ie)))
        } else if id == word_var() {
            match group_at(s, ie) {
                Err(f) => Err(f),
                Ok((name, n)) => Ok(Some((Node::Raw(var_marker(name)), n))),
            }
        } else if id == word_output() {
            match body_at(s, ie, ParseErrorKind::UnclosedOutput) {
                Err(f) => Err(f),
                Ok((a, b, n)) => if 0 < a <= b <= s.len() {
                    match blocks_from(s.subrange(a, b), 0) {
                        Err(f) => Err(f),
                        Ok(children) => Ok(Some((Node::Output(children), n))),
                    }
                } else {
                    Ok(None)
                },
            }
        } else if id == word_frame() {
            // one group is the body; a second group right after makes the first the title
            match body_at(s, ie, ParseErrorKind::UnclosedFrame) {
                Err(f) => Err(f),
                Ok((a, b, n)) => if peek(s, n) == '{' {
                    match group_at(s, ie) {
                        Err(f) => Err(f),
                        Ok((title, p2)) => match body_at(s, p2, ParseErrorKind::UnclosedFrame) {
                            Err(f) => Err(f),
                            Ok((a2, b2, n2)) => if 0 < a2 <= b2 <= s.len() {
                                match blocks_from(s.subrange(a2, b2), 0) {
                                    Err(f) => Err(f),
                                    Ok(content) => Ok(Some((Node::Frame { title: Some(title), content }, n2))),
                                }
                            } else {
                                Ok(None)
                            },
                        },
                    }
                } else if 0 < a <= b <= s.len() {
                    match blocks_from(s.subrange(a, b), 0) {
                        Err(f) => Err(f),
                        Ok(content) => Ok(Some((Node::Frame { title: None, content }, n))),
                    }
                } else {
                    Ok(None)
                },
            }
        } else {
            match simple_directive_at(s, id, ie) {
                Err(f) => Err(f),
                Ok((b, n)) => Ok(Some((b, n))),
            }
        }
    }
}

/// The blocks from `p` to the end of the input.
pub open spec fn blocks_from(s: Seq<char>, p: int) -> Result<Seq<Node>, Failure>
    decreases s.len(), s.len() + 1 - p,
{
    if p < 0 || p > s.len() {
        Ok(Seq::empty())
    } else {
        match block_at(s, p) {
            Err(f) => Err(f),
            Ok(None) => Ok(Seq::empty()),
            Ok(Some((b, n))) => if n <= p || n > s.len() {
                Ok(Seq::empty())
            } else {
                match blocks_from(s, n) {
                    Err(f) => Err(f),
                    Ok(rest) => Ok(seq![b] + rest),
                }
            },
        }
    }
}

/// The blocks of a whole document.
pub open spec fn document(s: Seq<char>) -> Result<Seq<Node>, Failure> {
    blocks_from(s, 0)
}

/// Line and column of the character at index `p`.
fn locate(s: &[char], p: usize) -> (r: (usize, usize))
    requires
        p <= s@.len(),
        s@.len() < usize::MAX,
    ensures
        r.0 as int == line_at(s@, p as int),
        r.1 as int == column_at(s@, p as int),
{
    let mut line: usize = 1;
    let mut column: usize = 1;
    let mut i: usize = 0;
    while i < p
        invariant
            i <= p <= s@.len() < usize::MAX,
            line as int == line_at(s@, i as int),
            column as int == column_at(s@, i as int),
            line <= i + 1,
            column <= i + 1,
        decreases p - i,
    {
        if s[i] == '\n' {
            line += 1;
            column = 1;
        } else {
            column += 1;
        }
        i += 1;
    }
    (line, column)
}

/// The error of kind `kind` at index `pos`, whose text is the characters `lo..hi`.
fn failure(s: &[char], kind: ParseErrorKind, lo: usize, hi: usize, pos: usize) -> (e: ParseError)
    requires
        lo <= hi <= s@.len(),
        pos <= s@.len(),
        s@.len() < usize::MAX,
    ensures
        reports(e, Failure { kind, text: s@.subrange(lo as int, hi as int), line: line_at(s@, pos as int), column: column_at(s@, pos as int) }),
{
    let (line, column) = locate(s, pos);
    ParseError { kind, text: string_of(s, lo, hi), line, column }
}

/// The error of kind `kind` at index `pos`, with no text.
fn failure_at(s: &[char], kind: ParseErrorKind, pos: usize) -> (e: ParseError)
    requires
        pos <= s@.len(),
        s@.len() < usize::MAX,
    ensures
        reports(e, Failure { kind, text: Seq::empty(), line: line_at(s@, pos as int), column: column_at(s@, pos as int) }),
{
    let e = failure(s, kind, 0, 0, pos);
    assert(s@.subrange(0, 0) =~= Seq::<char>::empty());
    e
}

proof fn lemma_scan_until_range(s: Seq<char>, q: int, e: char)
    requires
        0 <= q <= s.len(),
    ensures
        q <= scan_until(s, q, e) <= s.len(),
    decreases s.len() - q,
{
    if q < s.len() && s[q] != e {
        if s[q] == '\\' && q + 1 < s.len() && s[q + 1] == e {
            lemma_scan_until_range(s, q + 2, e);
        } else {
            lemma_scan_until_range(s, q + 1, e);
        }
    }
}

/// Consumes the character `c` at `p` (what the grammar's `expect_at` states).
fn expect_char(s: &[char], p: usize, c: char) -> (r: Result<usize, ParseError>)
    requires
        p <= s@.len(),
        s@.len() < usize::MAX,
    ensures
        match expect_at(s@, p as int, c) {
            Ok(n) => r matches Ok(m) && m == n,
            Err(f) => r matches Err(e) && reports(e, f),
        },
{
    if p >= s.len() {
        return Err(failure_at(s, ParseErrorKind::UnexpectedEnd { expected: c }, p));
    }
    if s[p] != c {
        return Err(failure_at(s, ParseErrorKind::Unexpected { expected: c, found: s[p] }, p));
    }
    Ok(p + 1)
}

/// The index of the first unescaped `end` at or after `p`, or the length.
fn parse_until(s: &[char], p: usize, end: char) -> (r: usize)
    requires
        p <= s@.len(),
    ensures
        r as int == scan_until(s@, p as int, end),
        p <= r <= s@.len(),
{
    proof {
        lemma_scan_until_range(s@, p as int, end);
    }
    let mut i = p;
    while i < s.len() && s[i] != end
        invariant
            p <= i <= s@.len(),
            scan_until(s@, p as int, end) == scan_until(s@, i as int, end),
        decreases s.len() - i,
    {
        if s[i] == '\\' && i + 1 < s.len() && s[i + 1] == end {
            i += 1;
        }
        i += 1;
    }
    i
}

/// An argument group `{...}` at `p`: the span of its text and the index after it.
fn parse_group(s: &[char], p: usize) -> (r: Result<(usize, usize, usize), ParseError>)
    requires
        p <= s@.len(),
        s@.len() < usize::MAX,
    ensures
        match group_at(s@, p as int) {
            Ok((t, n)) => r matches Ok((a, b, c)) && a <= b <= s@.len() && s@.subrange(a as int, b as int) == t
                && c == n && c <= s@.len() && c > p,
            Err(f) => r matches Err(e) && reports(e, f),
        },
{
    let p1 = match expect_char(s, p, '{') {
        Ok(n) => n,
        Err(e) => return Err(e),
    };
    let q = parse_until(s, p1, '}');
    if q >= s.len() {
        return Err(failure_at(s, ParseErrorKind::UnexpectedEnd { expected: '}' }, s.len()));
    }
    Ok((p1, q, q + 1))
}

/// The text of an argument group at `p` as a string.
fn group_string(s: &[char], p: usize) -> (r: Result<(String, usize), ParseError>)
    requires
        p <= s@.len(),
        s@.len() < usize::MAX,
    ensures
        match group_at(s@, p as int) {
            Ok((t, n)) => r matches Ok((x, c)) && x@ == t && c == n && c <= s@.len() && c > p,
            Err(f) => r matches Err(e) && reports(e, f),
        },
{
    match parse_group(s, p) {
        Ok((a, b, c)) => Ok((string_of(s, a, b), c)),
        Err(e) => Err(e),
    }
}

/// An argument group if one follows right at `p`.
fn opt_group_string(s: &[char], p: usize) -> (r: Result<(Option<String>, usize), ParseError>)
    requires
        p <= s@.len(),
        s@.len() < usize::MAX,
    ensures
        match opt_group_at(s@, p as int) {
            Ok((t, n)) => r matches Ok((x, c)) && opt_view(x) == t && c == n && c <= s@.len() && c >= p,
            Err(f) => r matches Err(e) && reports(e, f),
        },
{
    if p < s.len() && s[p] == '{' {
        match group_string(s, p) {
            Ok((x, c)) => Ok((Some(x), c)),
            Err(e) => Err(e),
        }
    } else {
        Ok((None, p))
    }
}

/// The index of the first character at or after `p` that is not white space.
fn skip_whitespace(s: &[char], p: usize) -> (r: usize)
    requires
        p <= s@.len(),
    ensures
        r as int == skip_space(s@, p as int),
        p <= r <= s@.len(),
{
    let mut i = p;
    while i < s.len() && is_whitespace(s[i])
        invariant
            p <= i <= s@.len(),
            skip_space(s@, p as int) == skip_space(s@, i as int),
        decreases s.len() - i,
    {
        i += 1;
    }
    i
}

/// The index of the first `@` at or after `p`, or the length.
fn parse_text(s: &[char], p: usize) -> (r: usize)
    requires
        p <= s@.len(),
    ensures
        r as int == text_end(s@, p as int),
        p <= r <= s@.len(),
{
    let mut i = p;
    while i < s.len() && s[i] != '@'
        invariant
            p <= i <= s@.len(),
            text_end(s@, p as int) == text_end(s@, i as int),
        decreases s.len() - i,
    {
        i += 1;
    }
    i
}

/// The index just after the directive name that starts at `p`.
fn parse_identifier(s: &[char], p: usize) -> (r: usize)
    requires
        p <= s@.len(),
    ensures
        r as int == ident_end(s@, p as int),
        p <= r <= s@.len(),
{
    let mut i = p;
    while i < s.len() && (is_alphanumeric(s[i]) || s[i] == '_')
        invariant
            p <= i <= s@.len(),
            ident_end(s@, p as int) == ident_end(s@, i as int),
        decreases s.len() - i,
    {
        i += 1;
    }
    i
}

/// Whether the characters at `p` are `lit`.
pub fn match_string(s: &[char], p: usize, lit: &[char]) -> (r: bool)
    requires
        p <= s@.len(),
    ensures
        r == starts_with(s@, p as int, lit@),
{
    let n = s.len();
    if lit.len() > n - p {
        return false;
    }
    let mut i: usize = 0;
    while i < lit.len()
        invariant
            i <= lit@.len(),
            n == s@.len(),
            p + lit@.len() <= s@.len(),
            forall|k: int| 0 <= k < i ==> s@[p + k] == lit@[k],
        decreases lit.len() - i,
    {
        if s[p + i] != lit[i] {
            assert(s@.subrange(p as int, p + lit@.len())[i as int] != lit@[i as int]);
            return false;
        }
        i += 1;
    }
    assert(s@.subrange(p as int, p + lit@.len()) =~= lit@);
    true
}

/// Whether the characters `a..b` are `word`.
fn same_word(s: &[char], a: usize, b: usize, word: &[char]) -> (r: bool)
    requires
        a <= b <= s@.len(),
    ensures
        r == (s@.subrange(a as int, b as int) == word@),
{
    if b - a != word.len() {
        return false;
    }
    let r = match_string(s, a, word);
    assert(r == (s@.subrange(a as int, b as int) =~= word@));
    r
}

/// A nested body `{...}` at `p`: where its text starts and ends, and the index after it.
fn parse_body(s: &[char], p: usize, unclosed: ParseErrorKind) -> (r: Result<(usize, usize, usize), ParseError>)
    requires
        p <= s@.len(),
        s@.len() < usize::MAX,
    ensures
        match body_at(s@, p as int, unclosed) {
            Ok((a, b, n)) => r matches Ok((x, y, z)) && x == a && y == b && z == n && p < x <= y < z <= s@.len(),
            Err(f) => r matches Err(e) && reports(e, f),
        },
{
    let p1 = match expect_char(s, p, '{') {
        Ok(n) => n,
        Err(e) => return Err(e),
    };
    let mut depth: usize = 1;
    let mut i = p1;
    while depth > 0 && i < s.len()
        invariant
            p1 <= i <= s@.len() < usize::MAX,
            depth <= i - p1 + 1,
            i == p1 ==> depth == 1,
            body_close(s@, p1 as int, 1) == body_close(s@, i as int, depth as nat),
        decreases s.len() - i,
    {
        if s[i] == '{' {
            depth += 1;
        } else if s[i] == '}' {
            depth -= 1;
        }
        i += 1;
    }
    if depth > 0 {
        return Err(failure_at(s, unclosed, s.len()));
    }
    Ok((p1, i - 1, i))
}

/// The trimmed cells of the characters `lo..hi`, split at each `|`.
fn split_cells(s: &[char], lo: usize, hi: usize) -> (r: Vec<String>)
    requires
        lo <= hi <= s@.len(),
    ensures
        strings_view(r@) == cells(s@.subrange(lo as int, hi as int)),
{
    let ghost line = s@.subrange(lo as int, hi as int);
    let mut r: Vec<String> = Vec::new();
    let mut start = lo;
    let mut i = lo;
    while i < hi
        invariant
            lo <= start <= i <= hi <= s@.len(),
            line == s@.subrange(lo as int, hi as int),
            cells(line) == strings_view(r@) + cells_from(line, start - lo),
            next_bar(line, start - lo) == next_bar(line, i - lo),
        decreases hi - i,
    {
        assert(line[i - lo] == s@[i as int]);
        if s[i] == '|' {
            let cell = trimmed_string_of(s, start, i);
            proof {
                assert(line.subrange(start - lo, i - lo) =~= s@.subrange(start as int, i as int));
                assert(cells_from(line, start - lo) == seq![trim_seq(line.subrange(start - lo, i - lo))] + cells_from(line, i - lo + 1));
            }
            let ghost old_r = r@;
            r.push(cell);
            proof {
                assert(strings_view(r@) =~= strings_view(old_r).push(cell@));
                assert(strings_view(r@) + cells_from(line, i - lo + 1) =~= strings_view(old_r) + (seq![cell@] + cells_from(line, i - lo + 1)));
            }
            start = i + 1;
        }
        i += 1;
    }
    let cell = trimmed_string_of(s, start, hi);
    proof {
        assert(line.subrange(start - lo, line.len() as int) =~= s@.subrange(start as int, hi as int));
        assert(cells_from(line, start - lo) == seq![trim_seq(line.subrange(start - lo, line.len() as int))]);
    }
    let ghost old_r = r@;
    r.push(cell);
    assert(strings_view(r@) =~= strings_view(old_r) + seq![cell@]);
    r
}

/// `m` keeps each key once.
pub open spec fn keys_unique(m: Seq<(Seq<char>, Seq<char>)>) -> bool {
    forall|i: int, j: int| 0 <= i < j < m.len() ==> (#[trigger] m[i]).0 != (#[trigger] m[j]).0
}

/// Binds `key` to `value` in `m` (what `meta_insert` states).
pub fn insert_meta(m: &mut Vec<(String, String)>, key: String, value: String)
    requires
        keys_unique(pairs_view(old(m)@)),
    ensures
        pairs_view(final(m)@) == meta_insert(pairs_view(old(m)@), key@, value@),
        keys_unique(pairs_view(final(m)@)),
{
    let ghost mv = pairs_view(m@);
    let mut i: usize = 0;
    while i < m.len()
        invariant
            i <= m@.len(),
            mv == pairs_view(m@),
            mv == pairs_view(old(m)@),
            keys_unique(mv),
            forall|k: int| 0 <= k < i ==> (#[trigger] mv[k]).0 != key@,
        decreases m.len() - i,
    {
        if m[i].0 == key {
            proof {
                assert(mv[i as int].0 == key@);
                let c = choose|c: int| 0 <= c < mv.len() && (#[trigger] mv[c]).0 == key@;
                assert(c == i) by {
                    if c < i {
                        assert(mv[c].0 != key@);
                    } else if c > i {
                        assert(mv[i as int].0 != mv[c].0);
                    }
                }
                assert(meta_insert(mv, key@, value@) == mv.update(i as int, (key@, value@)));
                assert forall|x: int, y: int| 0 <= x < y < mv.len() implies (#[trigger] mv.update(i as int, (key@, value@))[x]).0
                    != (#[trigger] mv.update(i as int, (key@, value@))[y]).0 by {
                    if x != i && y != i {
                        assert(mv[x].0 != mv[y].0);
                    } else if x == i {
                        assert(mv[i as int].0 != mv[y].0);
                    } else {
                        assert(mv[x].0 != mv[i as int].0);
                    }
                }
            }
            m.set(i, (key, value));
            proof {
                assert(pairs_view(m@) =~= mv.update(i as int, (key@, value@)));
            }
            return;
        }
        i += 1;
    }
    m.push((key, value));
    proof {
        assert(pairs_view(m@) =~= mv.push((key@, value@)));
        assert(!exists|c: int| 0 <= c < mv.len() && (#[trigger] mv[c]).0 == key@);
    }
}

/// The `@meta{key}{value}` entries of a trace from `p` on.
fn parse_metas(s: &[char], p: usize) -> (r: Result<(Vec<(String, String)>, usize), ParseError>)
    requires
        p <= s@.len(),
        s@.len() < usize::MAX,
    ensures
        match metas_at(s@, p as int, Seq::empty()) {
            Ok((m, n)) => r matches Ok((x, c)) && pairs_view(x@) == m && c == n && p <= c <= s@.len(),
            Err(f) => r matches Err(e) && reports(e, f),
        },
{
    let mut m: Vec<(String, String)> = Vec::new();
    let mut q = p;
    proof {
        assert(pairs_view(m@) =~= Seq::<(Seq<char>, Seq<char>)>::empty());
    }
    while q < s.len() && match_string(s, q, &['@', 'm', 'e', 't', 'a'])
        invariant
            p <= q <= s@.len() < usize::MAX,
            keys_unique(pairs_view(m@)),
            metas_at(s@, p as int, Seq::empty()) == metas_at(s@, q as int, pairs_view(m@)),
        decreases s.len() - q,
    {
        proof {
            assert(['@', 'm', 'e', 't', 'a']@ =~= lit_meta());
        }
        let (key, n1) = match group_string(s, q + 5) {
            Ok(x) => x,
            Err(e) => return Err(e),
        };
        let (value, n2) = match group_string(s, n1) {
            Ok(x) => x,
            Err(e) => return Err(e),
        };
        insert_meta(&mut m, key, value);
        q = n2;
    }
    proof {
        assert(['@', 'm', 'e', 't', 'a']@ =~= lit_meta());
    }
    Ok((m, q))
}

/// The `@row{...}` lines of a table from `p` on.
fn parse_rows(s: &[char], p: usize) -> (r: Result<(Vec<Vec<String>>, usize), ParseError>)
    requires
        p <= s@.len(),
        s@.len() < usize::MAX,
    ensures
        match rows_at(s@, p as int) {
            Ok((rows, n)) => r matches Ok((x, c)) && rows_view(x@) == rows && c == n && p <= c <= s@.len(),
            Err(f) => r matches Err(e) && reports(e, f),
        },
{
    let mut rows: Vec<Vec<String>> = Vec::new();
    let mut q = p;
    while q < s.len() && match_string(s, q, &['@', 'r', 'o', 'w'])
        invariant
            p <= q <= s@.len() < usize::MAX,
            rows_at(s@, p as int) == match rows_at(s@, q as int) {
                Ok((rest, e)) => Ok((rows_view(rows@) + rest, e)),
                Err(f) => Err(f),
            },
        decreases s.len() - q,
    {
        proof {
            assert(['@', 'r', 'o', 'w']@ =~= lit_row());
        }
        let (a, b, n) = match parse_group(s, q + 4) {
            Ok(x) => x,
            Err(e) => return Err(e),
        };
        let line = split_cells(s, a, b);
        let q2 = skip_whitespace(s, n);
        let ghost old_rows = rows@;
        rows.push(line);
        proof {
            assert(rows_view(rows@) =~= rows_view(old_rows).push(cells(s@.subrange(a as int, b as int))));
            match rows_at(s@, q2 as int) {
                Ok((rest, e)) => {
                    assert(rows_view(rows@) + rest =~= rows_view(old_rows) + (seq![cells(s@.subrange(a as int, b as int))] + rest));
                },
                Err(f) => {},
            }
        }
        q = q2;
    }
    proof {
        assert(['@', 'r', 'o', 'w']@ =~= lit_row());
        assert(rows_view(rows@) + Seq::<Seq<Seq<char>>>::empty() =~= rows_view(rows@));
    }
    Ok((rows, q))
}

/// The body of `@table` at `p`.
fn parse_table_directive(s: &[char], p: usize) -> (r: Result<(Block, usize), ParseError>)
    requires
        p <= s@.len(),
        s@.len() < usize::MAX,
    ensures
        match table_at(s@, p as int) {
            Ok((node, n)) => r matches Ok((b, c)) && block_view(b) == node && c == n && p < c <= s@.len(),
            Err(f) => r matches Err(e) && reports(e, f),
        },
{
    let p1 = match expect_char(s, p, '{') {
        Ok(n) => n,
        Err(e) => return Err(e),
    };
    let p2 = skip_whitespace(s, p1);
    let mut headers: Vec<String> = Vec::new();
    let mut p3 = p2;
    proof {
        assert(['@', 'h', 'e', 'a', 'd', 'e', 'r', 's']@ =~= lit_headers());
    }
    if match_string(s, p2, &['@', 'h', 'e', 'a', 'd', 'e', 'r', 's']) {
        let (a, b, n) = match parse_group(s, p2 + 8) {
            Ok(x) => x,
            Err(e) => return Err(e),
        };
        headers = split_cells(s, a, b);
        p3 = skip_whitespace(s, n);
    } else {
        assert(strings_view(headers@) =~= Seq::<Seq<char>>::empty());
    }
    let (rows, p4) = match parse_rows(s, p3) {
        Ok(x) => x,
        Err(e) => return Err(e),
    };
    let p5 = match expect_char(s, p4, '}') {
        Ok(n) => n,
        Err(e) => return Err(e),
    };
    Ok((Block::Table { headers, rows }, p5))
}

/// The arguments of `@trace` at `p`.
fn parse_trace_directive(s: &[char], p: usize) -> (r: Result<(Block, usize), ParseError>)
    requires
        p <= s@.len(),
        s@.len() < usize::MAX,
    ensures
        match trace_at(s@, p as int) {
            Ok((node, n)) => r matches Ok((b, c)) && block_view(b) == node && c == n && p < c <= s@.len(),
            Err(f) => r matches Err(e) && reports(e, f),
        },
{
    let (name, p1) = match group_string(s, p) {
        Ok(x) => x,
        Err(e) => return Err(e),
    };
    let (a, b, p2) = match parse_group(s, p1) {
        Ok(x) => x,
        Err(e) => return Err(e),
    };
    let duration_ms = match parse_u64(slice_subrange(s, a, b)) {
        Some(d) => d,
        None => return Err(failure(s, ParseErrorKind::InvalidDuration, a, b, p2)),
    };
    let (start_time, p3) = match group_string(s, p2) {
        Ok(x) => x,
        Err(e) => return Err(e),
    };
    let (status, p4) = match group_string(s, p3) {
        Ok(x) => x,
        Err(e) => return Err(e),
    };
    if p4 < s.len() && s[p4] == '{' {
        let (metadata, p5) = match parse_metas(s, p4 + 1) {
            Ok(x) => x,
            Err(e) => return Err(e),
        };
        let p6 = match expect_char(s, p5, '}') {
            Ok(n) => n,
            Err(e) => return Err(e),
        };
        Ok((Block::Trace { name, duration_ms, start_time, status, metadata }, p6))
    } else {
        let metadata: Vec<(String, String)> = Vec::new();
        assert(pairs_view(metadata@) =~= Seq::<(Seq<char>, Seq<char>)>::empty());
        Ok((Block::Trace { name, duration_ms, start_time, status, metadata }, p4))
    }
}

/// The arguments of `@metric` at `p`.
fn parse_metric_directive(s: &[char], p: usize) -> (r: Result<(Block, usize), ParseError>)
    requires
        p <= s@.len(),
        s@.len() < usize::MAX,
    ensures
        match metric_at(s@, p as int) {
            Ok((node, n)) => r matches Ok((b, c)) && block_view(b) == node && c == n && p < c <= s@.len(),
            Err(f) => r matches Err(e) && reports(e, f),
        },
{
    let (name, p1) = match group_string(s, p) {
        Ok(x) => x,
        Err(e) => return Err(e),
    };
    let (value, p2) = match group_string(s, p1) {
        Ok(x) => x,
        Err(e) => return Err(e),
    };
    let (unit, p3) = match opt_group_string(s, p2) {
        Ok(x) => x,
        Err(e) => return Err(e),
    };
    if p3 < s.len() && s[p3] == '{' {
        let (a, b, p4) = match parse_group(s, p3) {
            Ok(x) => x,
            Err(e) => return Err(e),
        };
        let (valid, _sign) = check_trend(slice_subrange(s, a, b));
        if !valid {
            return Err(failure(s, ParseErrorKind::InvalidTrend, a, b, p4));
        }
        let trend = Some(Trend { text: string_of(s, a, b) });
        Ok((Block::Metric { name, value, unit, trend }, p4))
    } else {
        Ok((Block::Metric { name, value, unit, trend: None }, p3))
    }
}

/// The arguments of `@log` at `p`.
fn parse_log_directive(s: &[char], p: usize) -> (r: Result<(Block, usize), ParseError>)
    requires
        p <= s@.len(),
        s@.len() < usize::MAX,
    ensures
        match log_at(s@, p as int) {
            Ok((node, n)) => r matches Ok((b, c)) && block_view(b) == node && c == n && p < c <= s@.len(),
            Err(f) => r matches Err(e) && reports(e, f),
        },
{
    let (message, p1) = match group_string(s, p) {
        Ok(x) => x,
        Err(e) => return Err(e),
    };
    let (level, p2) = match group_string(s, p1) {
        Ok(x) => x,
        Err(e) => return Err(e),
    };
    let (timestamp, p3) = match opt_group_string(s, p2) {
        Ok(x) => x,
        Err(e) => return Err(e),
    };
    let (source, p4) = match opt_group_string(s, p3) {
        Ok(x) => x,
        Err(e) => return Err(e),
    };
    Ok((Block::LogEntry { message, level, timestamp, source }, p4))
}

/// The arguments of `@heading` at `p`.
fn parse_heading_directive(s: &[char], p: usize) -> (r: Result<(Block, usize), ParseError>)
    requires
        p <= s@.len(),
        s@.len() < usize::MAX,
    ensures
        match heading_at(s@, p as int) {
            Ok((node, n)) => r matches Ok((b, c)) && block_view(b) == node && c == n && p < c <= s@.len(),
            Err(f) => r matches Err(e) && reports(e, f),
        },
{
    let (a, b, p1) = match parse_group(s, p) {
        Ok(x) => x,
        Err(e) => return Err(e),
    };
    let level = match parse_usize(slice_subrange(s, a, b)) {
        Some(l) => l,
        None => return Err(failure(s, ParseErrorKind::InvalidHeadingLevel, a, b, p1)),
    };
    let (text, p2) = match group_string(s, p1) {
        Ok(x) => x,
        Err(e) => return Err(e),
    };
    Ok((Block::Heading { level, text }, p2))
}

/// A directive without a nested body, named by the characters `d..ie`.
fn parse_simple_directive(s: &[char], d: usize, ie: usize) -> (r: Result<(Block, usize), ParseError>)
    requires
        d <= ie <= s@.len(),
        s@.len() < usize::MAX,
    ensures
        match simple_directive_at(s@, s@.subrange(d as int, ie as int), ie as int) {
            Ok((node, n)) => r matches Ok((b, c)) && block_view(b) == node && c == n && ie < c <= s@.len(),
            Err(f) => r matches Err(e) && reports(e, f),
        },
{
    proof {
        assert(['h', 'e', 'a', 'd', 'i', 'n', 'g']@ =~= word_heading());
        assert(['p', 'a', 'r', 'a', 'g', 'r', 'a', 'p', 'h']@ =~= word_paragraph());
        assert(['c', 'o', 'm', 'm', 'a', 'n', 'd']@ =~= word_command());
        assert(['m', 'e', 't', 'r', 'i', 'c']@ =~= word_metric());
        assert(['l', 'o', 'g']@ =~= word_log());
        assert(['t', 'a', 'b', 'l', 'e']@ =~= word_table());
        assert(['t', 'r', 'a', 'c', 'e']@ =~= word_trace());
        assert(['r', 'a', 'w']@ =~= word_raw());
    }
    if same_word(s, d, ie, &['h', 'e', 'a', 'd', 'i', 'n', 'g']) {
        parse_heading_directive(s, ie)
    } else if same_word(s, d, ie, &['p', 'a', 'r', 'a', 'g', 'r', 'a', 'p', 'h']) {
        match group_string(s, ie) {
            Ok((t, n)) => Ok((Block::Paragraph(t), n)),
            Err(e) => Err(e),
        }
    } else if same_word(s, d, ie, &['c', 'o', 'm', 'm', 'a', 'n', 'd']) {
        match group_string(s, ie) {
            Ok((t, n)) => Ok((Block::CommandPrompt(t), n)),
            Err(e) => Err(e),
        }
    } else if same_word(s, d, ie, &['m', 'e', 't', 'r', 'i', 'c']) {
        parse_metric_directive(s, ie)
    } else if same_word(s, d, ie, &['l', 'o', 'g']) {
        parse_log_directive(s, ie)
    } else if same_word(s, d, ie, &['t', 'a', 'b', 'l', 'e']) {
        parse_table_directive(s, ie)
    } else if same_word(s, d, ie, &['t', 'r', 'a', 'c', 'e']) {
        parse_trace_directive(s, ie)
    } else if same_word(s, d, ie, &['r', 'a', 'w']) {
        match group_string(s, ie) {
            Ok((t, n)) => Ok((Block::Raw(t), n)),
            Err(e) => Err(e),
        }
    } else {
        Err(failure(s, ParseErrorKind::UnknownDirective, d, ie, ie))
    }
}

/// The string of the characters of `lit`.
fn literal(lit: &[char]) -> (r: String)
    ensures
        r@ == lit@,
{
    let r = string_of(lit, 0, lit.len());
    assert(lit@.subrange(0, lit@.len() as int) =~= lit@);
    r
}

/// The block that starts at or after `p`, and the index after it.
fn parse_block(s: &[char], p: usize) -> (r: Result<Option<(Block, usize)>, ParseError>)
    requires
        p <= s@.len(),
        s@.len() < usize::MAX,
    ensures
        match block_at(s@, p as int) {
            Ok(None) => r matches Ok(None),
            Ok(Some((node, n))) => r matches Ok(Some((b, c))) && block_view(b) == node && c == n && p < c <= s@.len(),
            Err(f) => r matches Err(e) && reports(e, f),
        },
    decreases s@.len(), s@.len() - p,
{
    let q = skip_whitespace(s, p);
    if q >= s.len() {
        return Ok(None);
    }
    if s[q] != '@' {
        let t = parse_text(s, q + 1);
        assert(text_end(s@, q as int) == text_end(s@, q + 1));
        return Ok(Some((Block::Paragraph(string_of(s, q, t)), t)));
    }
    let d = q + 1;
    proof {
        assert(['m', 'e', 't', 'r', 'i', 'c', 's']@ =~= word_metrics());
        assert(['l', 'o', 'g', 's']@ =~= word_logs());
        assert(['t', 'r', 'a', 'c', 'e', 's']@ =~= word_traces());
        assert(['v', 'a', 'r']@ =~= word_var());
        assert(['o', 'u', 't', 'p', 'u', 't']@ =~= word_output());
        assert(['f', 'r', 'a', 'm', 'e']@ =~= word_frame());
        assert(['@', 'm', 'e', 't', 'r', 'i', 'c', 's']@ =~= seq!['@'] + word_metrics());
        assert(['@', 'l', 'o', 'g', 's']@ =~= seq!['@'] + word_logs());
        assert(['@', 't', 'r', 'a', 'c', 'e', 's']@ =~= seq!['@'] + word_traces());
    }
    let ie = parse_identifier(s, d);
    if same_word(s, d, ie, &['m', 'e', 't', 'r', 'i', 'c', 's']) {
        return Ok(Some((Block::Raw(literal(&['@', 'm', 'e', 't', 'r', 'i', 'c', 's'])), ie)));
    }
    if same_word(s, d, ie, &['l', 'o', 'g', 's']) {
        return Ok(Some((Block::Raw(literal(&['@', 'l', 'o', 'g', 's'])), ie)));
    }
    if same_word(s, d, ie, &['t', 'r', 'a', 'c', 'e', 's']) {
        return Ok(Some((Block::Raw(literal(&['@', 't', 'r', 'a', 'c', 'e', 's'])), ie)));
    }
    if same_word(s, d, ie, &['v', 'a', 'r']) {
        let (name, n) = match group_string(s, ie) {
            Ok(x) => x,
            Err(e) => return Err(e),
        };
        let mut marker = literal(&['@', 'v', 'a', 'r', '{']);
        push_str(&mut marker, name.as_str());
        push_char(&mut marker, '}');
        proof {
            assert(['@', 'v', 'a', 'r', '{']@ =~= seq!['@', 'v', 'a', 'r', '{']);
            assert(marker@ =~= var_marker(name@));
        }
        return Ok(Some((Block::Raw(marker), n)));
    }
    if same_word(s, d, ie, &['o', 'u', 't', 'p', 'u', 't']) {
        let (a, b, n) = match parse_body(s, ie, ParseErrorKind::UnclosedOutput) {
            Ok(x) => x,
            Err(e) => return Err(e),
        };
        let children = match parse_blocks(slice_subrange(s, a, b), 0) {
            Ok(v) => v,
            Err(e) => return Err(e),
        };
        return Ok(Some((Block::Output(children), n)));
    }
    if same_word(s, d, ie, &['f', 'r', 'a', 'm', 'e']) {
        let (a, b, n) = match parse_body(s, ie, ParseErrorKind::UnclosedFrame) {
            Ok(x) => x,
            Err(e) => return Err(e),
        };
        if n < s.len() && s[n] == '{' {
            let (title, p2) = match group_string(s, ie) {
                Ok(x) => x,
                Err(e) => return Err(e),
            };
            let (a2, b2, n2) = match parse_body(s, p2, ParseErrorKind::UnclosedFrame) {
                Ok(x) => x,
                Err(e) => return Err(e),
            };
            let content = match parse_blocks(slice_subrange(s, a2, b2), 0) {
                Ok(v) => v,
                Err(e) => return Err(e),
            };
            return Ok(Some((Block::Frame { title: Some(title), content }, n2)));
        }
        let content = match parse_blocks(slice_subrange(s, a, b), 0) {
            Ok(v) => v,
            Err(e) => return Err(e),
        };
        return Ok(Some((Block::Frame { title: None, content }, n)));
    }
    match parse_simple_directive(s, d, ie) {
        Ok((b, n)) => Ok(Some((b, n))),
        Err(e) => Err(e),
    }
}

/// The blocks from `p` to the end of the input.
fn parse_blocks(s: &[char], p: usize) -> (r: Result<Vec<Block>, ParseError>)
    requires
        p <= s@.len(),
        s@.len() < usize::MAX,
    ensures
        match blocks_from(s@, p as int) {
            Ok(nodes) => r matches Ok(v) && blocks_view(v@) == nodes,
            Err(f) => r matches Err(e) && reports(e, f),
        },
    decreases s@.len(), s@.len() + 1 - p,
{
    let mut out: Vec<Block> = Vec::new();
    let mut q = p;
    proof {
        assert(blocks_view(out@) =~= Seq::<Node>::empty());
        assert(Seq::<Node>::empty() + Seq::<Node>::empty() =~= Seq::<Node>::empty());
        match blocks_from(s@, p as int) {
            Ok(rest) => {
                assert(blocks_view(out@) + rest =~= rest);
            },
            Err(f) => {},
        }
    }
    while q < s.len()
        invariant
            p <= q <= s@.len() < usize::MAX,
            blocks_from(s@, p as int) == match blocks_from(s@, q as int) {
                Ok(rest) => Ok(blocks_view(out@) + rest),
                Err(f) => Err(f),
            },
        decreases s.len() - q,
    {
        match parse_block(s, q) {
            Err(e) => return Err(e),
            Ok(None) => {
                proof {
                    assert(blocks_view(out@) + Seq::<Node>::empty() =~= blocks_view(out@));
                }
                return Ok(out);
            },
            Ok(Some((b, n))) => {
                let ghost old_out = out@;
                out.push(b);
                proof {
                    crate::block::lemma_blocks_view(old_out);
                    crate::block::lemma_blocks_view(out@);
                    assert(blocks_view(out@) =~= blocks_view(old_out).push(block_view(b)));
                    match blocks_from(s@, n as int) {
                        Ok(rest) => {
                            assert(blocks_view(out@) + rest =~= blocks_view(old_out) + (seq![block_view(b)] + rest));
                        },
                        Err(f) => {},
                    }
                }
                q = n;
            },
        }
    }
    proof {
        assert(skip_space(s@, q as int) == q);
        assert(block_at(s@, q as int) == Ok::<Option<(Node, int)>, Failure>(None));
        assert(blocks_view(out@) + Seq::<Node>::empty() =~= blocks_view(out@));
    }
    Ok(out)
}

/// Parses a whole document.
///
/// Succeeds exactly when the text follows the grammar (`document`), with the
/// blocks it describes; otherwise the error names the first violation.
pub fn parse(content: &str) -> (r: Result<Vec<Block>, Error>)
    ensures
        match document(content@) {
            Ok(nodes) => r matches Ok(v) && blocks_view(v@) == nodes,
            Err(f) => r matches Err(Error::Parse(e)) && reports(e, f),
        },
{
    let chars = chars_of(content);
    match parse_blocks(chars.as_slice(), 0) {
        Ok(v) => Ok(v),
        Err(e) => Err(Error::Parse(e)),
    }
}

} // verus!
