//! Writing blocks back as markup: headings, paragraphs, commands, raw text,
//! metrics, log entries, and output and frame bodies that hold such blocks.
use vstd::prelude::*;
use crate::block::{Block, Node, block_view, blocks_view, lemma_blocks_view};
use crate::number::{is_float_text, all_digits, digit_value, digits_value, is_digit, parse_unsigned_spec, unsigned_body};
use crate::parser::{
    block_at, blocks_from, document, group_at, simple_directive_at, ident_end, is_ident_char, scan_until, word_command, word_frame, word_heading, word_metrics, word_output,
    word_paragraph, word_raw, word_traces, word_var, word_table, word_trace, word_metric,
};
use crate::strings::{decimal, decimal_string, digit_char, is_alnum, is_alphanumeric, is_space, is_whitespace, push_char, push_str, skip_space};

verus! {

/// What reading markup back relies on of the standard character classes:
/// `@` is not white space, the letters of directive names are alphanumeric,
/// and `{` is not.
pub open spec fn markup_char_facts() -> bool {
    &&& !is_space('@')
    &&& !is_alnum('{')
    &&& is_alnum('a') && is_alnum('c') && is_alnum('d') && is_alnum('e') && is_alnum('g') && is_alnum('h')
    &&& is_alnum('i') && is_alnum('m') && is_alnum('n') && is_alnum('o') && is_alnum('p') && is_alnum('r')
    &&& is_alnum('w') && is_alnum('f') && is_alnum('t') && is_alnum('u') && is_alnum('l')
}

/// Text that an argument group holds as it is: no brace, no backslash.
pub open spec fn is_plain(t: Seq<char>) -> bool {
    forall|k: int| 0 <= k < t.len() ==> #[trigger] t[k] != '}' && t[k] != '{' && t[k] != '\\'
}

/// The blocks that `markup_of` writes: texts without braces or backslashes,
/// a metric trend only with a unit and as a number, a log source only with a
/// timestamp, and output and frame bodies of such blocks. Tables and traces
/// are not written.
pub open spec fn writable(b: Node) -> bool
    decreases b,
{
    match b {
        Node::Heading { level, text } => is_plain(text),
        Node::Paragraph(t) => is_plain(t),
        Node::CommandPrompt(t) => is_plain(t),
        Node::Raw(t) => is_plain(t),
        Node::Metric { name, value, unit, trend } => is_plain(name) && is_plain(value) && opt_plain(unit) && match trend {
            Some(t) => unit is Some && is_plain(t) && is_float_text(t),
            None => true,
        },
        Node::LogEntry { message, level, timestamp, source } => is_plain(message) && is_plain(level) && opt_plain(timestamp)
            && opt_plain(source) && (source is Some ==> timestamp is Some),
        Node::Output(c) => all_writable(c, c.len() as int),
        Node::Frame { title, content } => match title {
            Some(t) => is_plain(t) && all_writable(content, content.len() as int),
            None => all_writable(content, content.len() as int),
        },
        _ => false,
    }
}

/// The first `n` blocks of `s` are writable.
pub open spec fn all_writable(s: Seq<Node>, n: int) -> bool
    decreases s, n,
{
    if n <= 0 || n > s.len() {
        true
    } else {
        all_writable(s, n - 1) && writable(s[n - 1])
    }
}

proof fn lemma_all_writable(s: Seq<Node>, n: int)
    requires
        0 <= n <= s.len(),
    ensures
        all_writable(s, n) <==> forall|i: int| 0 <= i < n ==> writable(#[trigger] s[i]),
    decreases n,
{
    if n > 0 {
        lemma_all_writable(s, n - 1);
    }
}

pub open spec fn group(t: Seq<char>) -> Seq<char> {
    seq!['{'] + t + seq!['}']
}

/// A group for a given text, nothing otherwise.
pub open spec fn opt_group(o: Option<Seq<char>>) -> Seq<char> {
    match o {
        Some(x) => group(x),
        None => Seq::empty(),
    }
}

pub open spec fn opt_plain(o: Option<Seq<char>>) -> bool {
    match o {
        Some(x) => is_plain(x),
        None => true,
    }
}

/// The directive that writes a block.
pub open spec fn markup_of(b: Node) -> Seq<char>
    decreases b,
{
    match b {
        Node::Heading { level, text } => seq!['@'] + word_heading() + group(decimal(level as nat)) + group(text),
        Node::Paragraph(t) => seq!['@'] + word_paragraph() + group(t),
        Node::CommandPrompt(t) => seq!['@'] + word_command() + group(t),
        Node::Raw(t) => seq!['@'] + word_raw() + group(t),
        Node::Metric { name, value, unit, trend } => seq!['@'] + word_metric() + group(name) + group(value) + opt_group(unit)
            + opt_group(trend),
        Node::LogEntry { message, level, timestamp, source } => seq!['@'] + crate::parser::word_log() + group(message) + group(
            level,
        ) + opt_group(timestamp) + opt_group(source),
        Node::Output(c) => seq!['@'] + word_output() + group(markup_all(c)),
        Node::Frame { title, content } => match title {
            Some(t) => seq!['@'] + word_frame() + group(t) + group(markup_all(content)),
            None => seq!['@'] + word_frame() + group(markup_all(content)),
        },
        _ => Seq::empty(),
    }
}

/// The directives that write blocks, one after another.
pub open spec fn markup_all(bs: Seq<Node>) -> Seq<char>
    decreases bs,
{
    if bs.len() == 0 {
        Seq::empty()
    } else {
        markup_of(bs[0]) + markup_all(bs.subrange(1, bs.len() as int))
    }
}

/// Learns `markup_char_facts` from the standard character classes.
pub fn learn_markup_char_facts()
    ensures
        markup_char_facts(),
{
    let _ = is_whitespace('@');
    let _ = is_alphanumeric('{');
    let _ = is_alphanumeric('a');
    let _ = is_alphanumeric('c');
    let _ = is_alphanumeric('d');
    let _ = is_alphanumeric('e');
    let _ = is_alphanumeric('g');
    let _ = is_alphanumeric('h');
    let _ = is_alphanumeric('i');
    let _ = is_alphanumeric('m');
    let _ = is_alphanumeric('n');
    let _ = is_alphanumeric('o');
    let _ = is_alphanumeric('p');
    let _ = is_alphanumeric('r');
    let _ = is_alphanumeric('w');
    let _ = is_alphanumeric('f');
    let _ = is_alphanumeric('t');
    let _ = is_alphanumeric('u');
    let _ = is_alphanumeric('l');
}

proof fn lemma_ident_run(s: Seq<char>, q: int, e: int)
    requires
        0 <= q <= e < s.len(),
        forall|k: int| q <= k < e ==> is_ident_char(#[trigger] s[k]),
        !is_ident_char(s[e]),
    ensures
        ident_end(s, q) == e,
    decreases e - q,
{
    if q < e {
        lemma_ident_run(s, q + 1, e);
    }
}

proof fn lemma_scan_plain(s: Seq<char>, q: int, e: int)
    requires
        0 <= q <= e < s.len(),
        s[e] == '}',
        forall|k: int| q <= k < e ==> #[trigger] s[k] != '}' && s[k] != '\\',
    ensures
        scan_until(s, q, '}') == e,
    decreases e - q,
{
    if q < e {
        lemma_scan_plain(s, q + 1, e);
    }
}

/// A group of plain text at `p` reads back as that text.
proof fn lemma_group_at(s: Seq<char>, p: int, t: Seq<char>)
    requires
        0 <= p,
        p + t.len() + 2 <= s.len(),
        s.subrange(p, p + t.len() + 2) == group(t),
        is_plain(t),
    ensures
        group_at(s, p) == Ok::<(Seq<char>, int), crate::parser::Failure>((t, p + t.len() + 2)),
{
    let g = group(t);
    assert(g[0] == '{');
    assert(s[p] == g[0]);
    assert(g[t.len() as int + 1] == '}');
    assert(s[p + t.len() + 1] == g[t.len() as int + 1]);
    assert forall|k: int| p + 1 <= k < p + 1 + t.len() implies #[trigger] s[k] != '}' && s[k] != '\\' by {
        assert(s[k] == g[k - p]);
        assert(g[k - p] == t[k - p - 1]);
    }
    lemma_scan_plain(s, p + 1, p + 1 + t.len());
    assert(s.subrange(p + 1, p + 1 + t.len()) =~= t) by {
        assert forall|k: int| 0 <= k < t.len() implies s.subrange(p + 1, p + 1 + t.len())[k] == t[k] by {
            assert(s[p + 1 + k] == g[k + 1]);
        }
    }
}

proof fn lemma_digit_char_value(d: nat)
    requires
        d < 10,
    ensures
        digit_value(digit_char(d)) == d,
        is_digit(digit_char(d)),
{
}

pub(crate) proof fn lemma_decimal_digits(n: nat)
    ensures
        decimal(n).len() > 0,
        all_digits(decimal(n)),
        digits_value(decimal(n)) == n,
    decreases n,
{
    if n >= 10 {
        lemma_decimal_digits(n / 10);
        lemma_digit_char_value(n % 10);
        let d = decimal(n / 10).push(digit_char(n % 10));
        assert(d.drop_last() =~= decimal(n / 10));
        assert((n / 10) * 10 + n % 10 == n) by (nonlinear_arith);
        assert(decimal(n) == d);
        assert(d.last() == digit_char(n % 10));
        assert(digits_value(d) == digits_value(d.drop_last()) * 10 + digit_value(d.last()));
        assert forall|i: int| 0 <= i < d.len() implies is_digit(#[trigger] d[i]) by {
            if i < d.len() - 1 {
                assert(d[i] == decimal(n / 10)[i]);
            }
        }
    } else {
        lemma_digit_char_value(n);
        let d = decimal(n);
        assert(d.drop_last() =~= Seq::<char>::empty());
        assert(d.last() == digit_char(n));
        assert(digits_value(d) == digits_value(d.drop_last()) * 10 + digit_value(d.last()));
        assert(digits_value(Seq::<char>::empty()) == 0);
    }
}

proof fn lemma_decimal_plain(n: nat)
    ensures
        is_plain(decimal(n)),
        parse_unsigned_spec(decimal(n), usize::MAX as nat) == (if n <= usize::MAX { Some(n) } else { None::<nat> }),
{
    lemma_decimal_digits(n);
    let d = decimal(n);
    assert forall|k: int| 0 <= k < d.len() implies #[trigger] d[k] != '}' && d[k] != '\\' by {
        assert(is_digit(d[k]));
    }
    assert(is_digit(d[0]));
    assert(unsigned_body(d) == d);
}

/// `@word{t}` at `p`: past the `@` no keyword matches, the name ends before
/// the brace, and the group reads back as `t`.
proof fn lemma_word_group(s: Seq<char>, p: int, w: Seq<char>, t: Seq<char>)
    requires
        markup_char_facts(),
        0 <= p,
        p + w.len() + t.len() + 3 <= s.len(),
        s.subrange(p, p + w.len() + t.len() + 3) == seq!['@'] + w + group(t),
        w.len() > 0,
        forall|k: int| 0 <= k < w.len() ==> is_ident_char(#[trigger] w[k]),
        is_plain(t),
    ensures
        skip_space(s, p) == p,
        s[p] == '@',
        ident_end(s, p + 1) == p + 1 + w.len(),
        s.subrange(p + 1, p + 1 + w.len()) == w,
        s[p + 1] == w[0],
        group_at(s, p + 1 + w.len()) == Ok::<(Seq<char>, int), crate::parser::Failure>((t, p + w.len() + t.len() + 3)),
{
    let m = seq!['@'] + w + group(t);
    assert(s[p] == m[0]);
    assert forall|k: int| 0 <= k < w.len() implies s[p + 1 + k] == #[trigger] w[k] by {
        assert(s[p + 1 + k] == m[1 + k]);
    }
    assert(s.subrange(p + 1, p + 1 + w.len()) =~= w) by {
        assert forall|k: int| 0 <= k < w.len() implies s.subrange(p + 1, p + 1 + w.len())[k] == w[k] by {
            assert(s[p + 1 + k] == w[k]);
        }
    }
    assert(s[p + 1 + w.len()] == m[1 + w.len() as int]);
    assert(m[1 + w.len() as int] == '{');
    assert forall|k: int| p + 1 <= k < p + 1 + w.len() implies is_ident_char(#[trigger] s[k]) by {
        assert(s[k] == w[k - p - 1]);
    }
    lemma_ident_run(s, p + 1, p + 1 + w.len());
    let q = p + 1 + w.len();
    assert(s.subrange(q, q + t.len() + 2) =~= group(t)) by {
        assert forall|k: int| 0 <= k < t.len() + 2 implies s.subrange(q, q + t.len() + 2)[k] == group(t)[k] by {
            assert(s[q + k] == m[1 + w.len() + k]);
        }
    }
    lemma_group_at(s, q, t);
}

/// `s` holds `a + b` at `q`: it holds `a` there and `b` right after.
proof fn lemma_split(s: Seq<char>, q: int, a: Seq<char>, b: Seq<char>)
    requires
        0 <= q,
        q + a.len() + b.len() <= s.len(),
        s.subrange(q, q + a.len() + b.len()) == a + b,
    ensures
        s.subrange(q, q + a.len()) == a,
        s.subrange(q + a.len(), q + a.len() + b.len()) == b,
{
    assert forall|k: int| 0 <= k < a.len() implies s.subrange(q, q + a.len())[k] == a[k] by {
        assert(s.subrange(q, q + a.len() + b.len())[k] == (a + b)[k]);
    }
    assert forall|k: int| 0 <= k < b.len() implies s.subrange(q + a.len(), q + a.len() + b.len())[k] == b[k] by {
        assert(s.subrange(q + a.len(), q + a.len() + b.len())[k] == s[q + a.len() + k]);
        assert(s.subrange(q, q + a.len() + b.len())[a.len() + k] == s[q + a.len() + k]);
        assert(s.subrange(q, q + a.len() + b.len())[a.len() + k] == (a + b)[a.len() + k]);
        assert((a + b)[a.len() + k] == b[k]);
    }
    assert(s.subrange(q, q + a.len()) =~= a);
    assert(s.subrange(q + a.len(), q + a.len() + b.len()) =~= b);
}

pub open spec fn brace_free(x: Seq<char>) -> bool {
    forall|k: int| 0 <= k < x.len() ==> #[trigger] x[k] != '{' && x[k] != '}'
}

/// Characters without braces leave the depth of a body as it is.
proof fn lemma_close_skip(s: Seq<char>, q: int, x: Seq<char>, d: nat)
    requires
        d >= 1,
        0 <= q,
        q + x.len() <= s.len(),
        s.subrange(q, q + x.len()) == x,
        brace_free(x),
    ensures
        crate::parser::body_close(s, q, d) == crate::parser::body_close(s, q + x.len(), d),
    decreases x.len(),
{
    if x.len() > 0 {
        assert(s[q] == s.subrange(q, q + x.len())[0]);
        let y = x.subrange(1, x.len() as int);
        assert(s.subrange(q + 1, q + 1 + y.len()) =~= y) by {
            assert forall|k: int| 0 <= k < y.len() implies s.subrange(q + 1, q + 1 + y.len())[k] == y[k] by {
                assert(s.subrange(q, q + x.len())[k + 1] == x[k + 1]);
            }
        }
        assert(brace_free(y)) by {
            assert forall|k: int| 0 <= k < y.len() implies #[trigger] y[k] != '{' && y[k] != '}' by {
                assert(y[k] == x[k + 1]);
            }
        }
        lemma_close_skip(s, q + 1, y, d);
    }
}

proof fn lemma_close_open(s: Seq<char>, q: int, d: nat)
    requires
        d >= 1,
        0 <= q < s.len(),
        s[q] == '{',
    ensures
        crate::parser::body_close(s, q, d) == crate::parser::body_close(s, q + 1, d + 1),
{
}

proof fn lemma_close_shut(s: Seq<char>, q: int, d: nat)
    requires
        d >= 1,
        0 <= q < s.len(),
        s[q] == '}',
    ensures
        crate::parser::body_close(s, q, d) == crate::parser::body_close(s, q + 1, (d - 1) as nat),
{
}

/// An optional group of plain text leaves the depth as it is.
proof fn lemma_close_opt_group(s: Seq<char>, q: int, o: Option<Seq<char>>, d: nat)
    requires
        d >= 1,
        0 <= q,
        q + opt_group(o).len() <= s.len(),
        s.subrange(q, q + opt_group(o).len()) == opt_group(o),
        opt_plain(o),
    ensures
        crate::parser::body_close(s, q, d) == crate::parser::body_close(s, q + opt_group(o).len(), d),
{
    match o {
        Some(x) => {
            lemma_plain_brace_free(x);
            lemma_close_group_flat(s, q, x, d);
        },
        None => {},
    }
}

/// A group `{x}` with a balanced `x` leaves the depth as it is.
proof fn lemma_close_group_flat(s: Seq<char>, q: int, x: Seq<char>, d: nat)
    requires
        d >= 1,
        0 <= q,
        q + x.len() + 2 <= s.len(),
        s.subrange(q, q + x.len() + 2) == group(x),
        brace_free(x),
    ensures
        crate::parser::body_close(s, q, d) == crate::parser::body_close(s, q + x.len() + 2, d),
{
    lemma_split(s, q, seq!['{'] + x, seq!['}']);
    lemma_split(s, q, seq!['{'], x);
    assert(s[q] == s.subrange(q, q + 1)[0]);
    assert(s[q + 1 + x.len()] == s.subrange(q + 1 + x.len(), q + 2 + x.len())[0]);
    lemma_close_open(s, q, d);
    lemma_close_skip(s, q + 1, x, d + 1);
    lemma_close_shut(s, q + 1 + x.len(), d + 1);
}

proof fn lemma_plain_brace_free(t: Seq<char>)
    requires
        is_plain(t),
    ensures
        brace_free(t),
{
    assert forall|k: int| 0 <= k < t.len() implies #[trigger] t[k] != '{' && t[k] != '}' by {
        assert(t[k] != '}' && t[k] != '{' && t[k] != '\\');
    }
}

proof fn lemma_word_brace_free(w: Seq<char>)
    requires
        w == word_heading() || w == word_paragraph() || w == word_command() || w == word_raw() || w == word_output()
            || w == word_frame() || w == word_metric() || w == crate::parser::word_log(),
    ensures
        brace_free(seq!['@'] + w),
{
    let x = seq!['@'] + w;
    assert forall|k: int| 0 <= k < x.len() implies #[trigger] x[k] != '{' && x[k] != '}' by {
        if k > 0 {
            assert(x[k] == w[k - 1]);
        }
    }
}

/// The markup of a writable block keeps the depth of a body as it was.
proof fn lemma_close_node(s: Seq<char>, q: int, b: Node, d: nat)
    requires
        d >= 1,
        writable(b),
        0 <= q,
        q + markup_of(b).len() <= s.len(),
        s.subrange(q, q + markup_of(b).len()) == markup_of(b),
    ensures
        crate::parser::body_close(s, q, d) == crate::parser::body_close(s, q + markup_of(b).len(), d),
    decreases b,
{
    match b {
        Node::Heading { level, text } => {
            let w = word_heading();
            let dec = decimal(level as nat);
            lemma_decimal_plain(level as nat);
            lemma_plain_brace_free(dec);
            lemma_plain_brace_free(text);
            lemma_word_brace_free(w);
            lemma_split(s, q, seq!['@'] + w + group(dec), group(text));
            lemma_split(s, q, seq!['@'] + w, group(dec));
            lemma_close_skip(s, q, seq!['@'] + w, d);
            lemma_close_group_flat(s, q + 1 + w.len(), dec, d);
            lemma_close_group_flat(s, q + 3 + w.len() + dec.len(), text, d);
        },
        Node::Output(c) => {
            let w = word_output();
            let m = markup_all(c);
            lemma_all_writable(c, c.len() as int);
            lemma_word_brace_free(w);
            lemma_split(s, q, seq!['@'] + w, group(m));
            lemma_close_skip(s, q, seq!['@'] + w, d);
            let g = q + 1 + w.len();
            lemma_split(s, g, seq!['{'] + m, seq!['}']);
            lemma_split(s, g, seq!['{'], m);
            lemma_close_nodes(s, g + 1, c, d + 1);
            lemma_close_group_nodes(s, g, c, d);
        },
        Node::Metric { name, value, unit, trend } => {
            let w = word_metric();
            lemma_word_brace_free(w);
            lemma_plain_brace_free(name);
            lemma_plain_brace_free(value);
            let a1 = seq!['@'] + w;
            let a2 = a1 + group(name);
            let a3 = a2 + group(value);
            let a4 = a3 + opt_group(unit);
            lemma_split(s, q, a4, opt_group(trend));
            lemma_split(s, q, a3, opt_group(unit));
            lemma_split(s, q, a2, group(value));
            lemma_split(s, q, a1, group(name));
            lemma_close_skip(s, q, a1, d);
            lemma_close_group_flat(s, q + a1.len(), name, d);
            lemma_close_group_flat(s, q + a2.len(), value, d);
            lemma_close_opt_group(s, q + a3.len(), unit, d);
            lemma_close_opt_group(s, q + a4.len(), trend, d);
        },
        Node::LogEntry { message, level, timestamp, source } => {
            let w = crate::parser::word_log();
            lemma_word_brace_free(w);
            lemma_plain_brace_free(message);
            lemma_plain_brace_free(level);
            let a1 = seq!['@'] + w;
            let a2 = a1 + group(message);
            let a3 = a2 + group(level);
            let a4 = a3 + opt_group(timestamp);
            lemma_split(s, q, a4, opt_group(source));
            lemma_split(s, q, a3, opt_group(timestamp));
            lemma_split(s, q, a2, group(level));
            lemma_split(s, q, a1, group(message));
            lemma_close_skip(s, q, a1, d);
            lemma_close_group_flat(s, q + a1.len(), message, d);
            lemma_close_group_flat(s, q + a2.len(), level, d);
            lemma_close_opt_group(s, q + a3.len(), timestamp, d);
            lemma_close_opt_group(s, q + a4.len(), source, d);
        },
        Node::Frame { title: None, content } => {
            let w = word_frame();
            let m = markup_all(content);
            lemma_all_writable(content, content.len() as int);
            lemma_word_brace_free(w);
            lemma_split(s, q, seq!['@'] + w, group(m));
            lemma_close_skip(s, q, seq!['@'] + w, d);
            let g = q + 1 + w.len();
            lemma_split(s, g, seq!['{'] + m, seq!['}']);
            lemma_split(s, g, seq!['{'], m);
            lemma_close_nodes(s, g + 1, content, d + 1);
            lemma_close_group_nodes(s, g, content, d);
        },
        Node::Frame { title, content } => {
            let w = word_frame();
            let t = title->Some_0;
            let m = markup_all(content);
            lemma_all_writable(content, content.len() as int);
            lemma_word_brace_free(w);
            lemma_plain_brace_free(t);
            lemma_split(s, q, seq!['@'] + w + group(t), group(m));
            lemma_split(s, q, seq!['@'] + w, group(t));
            lemma_close_skip(s, q, seq!['@'] + w, d);
            lemma_close_group_flat(s, q + 1 + w.len(), t, d);
            let g = q + 3 + w.len() + t.len();
            lemma_split(s, g, seq!['{'] + m, seq!['}']);
            lemma_split(s, g, seq!['{'], m);
            lemma_close_nodes(s, g + 1, content, d + 1);
            lemma_close_group_nodes(s, g, content, d);
        },
        _ => {
            let (w, t) = match b {
                Node::Paragraph(t) => (word_paragraph(), t),
                Node::CommandPrompt(t) => (word_command(), t),
                Node::Raw(t) => (word_raw(), t),
                _ => (Seq::empty(), Seq::empty()),
            };
            lemma_plain_brace_free(t);
            lemma_word_brace_free(w);
            lemma_split(s, q, seq!['@'] + w, group(t));
            lemma_close_skip(s, q, seq!['@'] + w, d);
            lemma_close_group_flat(s, q + 1 + w.len(), t, d);
        },
    }
}

/// A group holding the markup of writable blocks keeps the depth as it was.
proof fn lemma_close_group_nodes(s: Seq<char>, q: int, bs: Seq<Node>, d: nat)
    requires
        d >= 1,
        forall|i: int| 0 <= i < bs.len() ==> writable(#[trigger] bs[i]),
        0 <= q,
        q + markup_all(bs).len() + 2 <= s.len(),
        s.subrange(q, q + markup_all(bs).len() + 2) == group(markup_all(bs)),
        crate::parser::body_close(s, q + 1, d + 1) == crate::parser::body_close(s, q + 1 + markup_all(bs).len(), d + 1),
    ensures
        crate::parser::body_close(s, q, d) == crate::parser::body_close(s, q + markup_all(bs).len() + 2, d),
{
    let m = markup_all(bs);
    lemma_split(s, q, seq!['{'] + m, seq!['}']);
    lemma_split(s, q, seq!['{'], m);
    assert(s[q] == s.subrange(q, q + 1)[0]);
    assert(s[q + 1 + m.len()] == s.subrange(q + 1 + m.len(), q + 2 + m.len())[0]);
    lemma_close_open(s, q, d);
    lemma_close_shut(s, q + 1 + m.len(), d + 1);
}

/// The markup of writable blocks keeps the depth of a body as it was.
proof fn lemma_close_nodes(s: Seq<char>, q: int, bs: Seq<Node>, d: nat)
    requires
        d >= 1,
        forall|i: int| 0 <= i < bs.len() ==> writable(#[trigger] bs[i]),
        0 <= q,
        q + markup_all(bs).len() <= s.len(),
        s.subrange(q, q + markup_all(bs).len()) == markup_all(bs),
    ensures
        crate::parser::body_close(s, q, d) == crate::parser::body_close(s, q + markup_all(bs).len(), d),
    decreases bs,
{
    if bs.len() > 0 {
        let rest = bs.subrange(1, bs.len() as int);
        let m0 = markup_of(bs[0]);
        lemma_split(s, q, m0, markup_all(rest));
        assert(decreases_to!(bs => bs[0]));
        lemma_close_node(s, q, bs[0], d);
        assert forall|i: int| 0 <= i < rest.len() implies writable(#[trigger] rest[i]) by {
            assert(rest[i] == bs[i + 1]);
        }
        assert(decreases_to!(bs => rest));
        lemma_close_nodes(s, q + m0.len(), rest, d);
    }
}

/// The directive that writes `b` reads back as `b`, wherever it stands.
proof fn lemma_block_at_markup(s: Seq<char>, p: int, b: Node)
    requires
        markup_char_facts(),
        writable(b),
        0 <= p,
        p + markup_of(b).len() <= s.len(),
        s.subrange(p, p + markup_of(b).len()) == markup_of(b),
        p + markup_of(b).len() == s.len() || s[p + markup_of(b).len()] != '{',
    ensures
        block_at(s, p) == Ok::<Option<(Node, int)>, crate::parser::Failure>(Some((b, p + markup_of(b).len()))),
    decreases b, 2int,
{
    match b {
        Node::Output(c) => {
            lemma_block_at_output(s, p, c);
        },
        Node::Metric { name, value, unit, trend } => {
            lemma_block_at_metric(s, p, name, value, unit, trend);
        },
        Node::LogEntry { message, level, timestamp, source } => {
            lemma_block_at_log(s, p, message, level, timestamp, source);
        },
        Node::Frame { title: None, content } => {
            lemma_block_at_bare_frame(s, p, content);
        },
        Node::Frame { title, content } => {
            lemma_block_at_frame(s, p, title->Some_0, content);
        },
        _ => {
            lemma_block_at_leaf(s, p, b);
        },
    }
}

/// An output directive reads back as its block.
proof fn lemma_block_at_output(s: Seq<char>, p: int, c: Seq<Node>)
    requires
        markup_char_facts(),
        writable(Node::Output(c)),
        0 <= p,
        p + markup_of(Node::Output(c)).len() <= s.len(),
        s.subrange(p, p + markup_of(Node::Output(c)).len()) == markup_of(Node::Output(c)),
    ensures
        block_at(s, p) == Ok::<Option<(Node, int)>, crate::parser::Failure>(
            Some((Node::Output(c), p + markup_of(Node::Output(c)).len())),
        ),
    decreases c, 1int,
{
    let b = Node::Output(c);
    lemma_all_writable(c, c.len() as int);
    let d = p + 1;
    let m = markup_of(b);
    assert(s[p] == s.subrange(p, p + m.len())[0]);
    assert(s[p] == '@');
    assert(skip_space(s, p) == p);
    assert(word_frame()[0] != word_table()[0]);
    assert(word_frame()[0] != word_trace()[0]);
    assert(word_output()[0] != word_metric()[0]);
    let w = word_output();
    let mc = markup_all(c);
    lemma_split(s, p, seq!['@'] + w, group(mc));
    lemma_split(s, p, seq!['@'], w);
    lemma_split(s, p + 1 + w.len(), seq!['{'] + mc, seq!['}']);
    lemma_split(s, p + 1 + w.len(), seq!['{'], mc);
    assert(s[p + 1 + w.len()] == s.subrange(p + 1 + w.len(), p + 2 + w.len())[0]);
    lemma_ident_word(s, p + 1, w);
    assert(s[p + 1] == s.subrange(p + 1, p + 1 + w.len())[0]);
    let ie = p + 1 + w.len();
    assert(s.subrange(d, ie) == w);
    assert(s[ie] == s.subrange(ie, ie + 1)[0]);
    let p1 = ie + 1;
    assert(s[p1 + mc.len()] == s.subrange(p1 + mc.len(), p1 + mc.len() + 1)[0]);
    lemma_close_nodes(s, p1, c, 1);
    lemma_close_shut(s, p1 + mc.len(), 1);
    assert(crate::parser::body_close(s, p1, 1) == Some(p1 + mc.len() + 1));
    assert(s.subrange(p1, p1 + mc.len()) == mc);
    let sub = s.subrange(p1, p1 + mc.len());
    assert(sub.subrange(0, sub.len() as int) =~= sub);
    lemma_blocks_from_markup(sub, 0, c);
}


/// An optional group of plain text at `q` reads back as that text, when
/// nothing but another kind of character follows an absent one.
proof fn lemma_opt_group_at(s: Seq<char>, q: int, o: Option<Seq<char>>)
    requires
        0 <= q,
        q + opt_group(o).len() <= s.len(),
        s.subrange(q, q + opt_group(o).len()) == opt_group(o),
        opt_plain(o),
        o is None ==> (q == s.len() || s[q] != '{'),
    ensures
        crate::parser::opt_group_at(s, q) == Ok::<(Option<Seq<char>>, int), crate::parser::Failure>((o, q + opt_group(o).len())),
{
    match o {
        Some(x) => {
            lemma_group_at(s, q, x);
            assert(s[q] == s.subrange(q, q + x.len() + 2)[0]);
        },
        None => {},
    }
}

/// The directive name at `p + 1` is `w`, and groups follow it.
proof fn lemma_directive_name(s: Seq<char>, p: int, w: Seq<char>, rest: Seq<char>)
    requires
        markup_char_facts(),
        w == word_metric() || w == crate::parser::word_log(),
        0 <= p,
        p + 1 + w.len() + rest.len() <= s.len(),
        s.subrange(p, p + 1 + w.len() + rest.len()) == seq!['@'] + w + rest,
        rest.len() > 0,
        rest[0] == '{',
    ensures
        skip_space(s, p) == p,
        s[p] == '@',
        ident_end(s, p + 1) == p + 1 + w.len(),
        s.subrange(p + 1, p + 1 + w.len()) == w,
{
    lemma_split(s, p, seq!['@'] + w, rest);
    lemma_split(s, p, seq!['@'], w);
    assert(s[p] == s.subrange(p, p + 1)[0]);
    assert(s[p + 1 + w.len()] == s.subrange(p + 1 + w.len(), p + 1 + w.len() + rest.len())[0]);
    assert forall|k: int| p + 1 <= k < p + 1 + w.len() implies is_ident_char(#[trigger] s[k]) by {
        assert(s[k] == s.subrange(p + 1, p + 1 + w.len())[k - p - 1]);
    }
    lemma_ident_run(s, p + 1, p + 1 + w.len());
}

/// The metric directive written from these parts reads back as its block.
#[verifier::rlimit(100)]
proof fn lemma_metric_pieces(s: Seq<char>, p: int, name: Seq<char>, value: Seq<char>, unit: Option<Seq<char>>, trend: Option<Seq<char>>)
    requires
        markup_char_facts(),
        is_plain(name) && is_plain(value) && opt_plain(unit) && (trend is Some ==> unit is Some && is_plain(trend->Some_0) && is_float_text(trend->Some_0)),
        0 <= p,
        p + (seq!['@'] + word_metric() + group(name) + group(value) + opt_group(unit) + opt_group(trend)).len() <= s.len(),
        s.subrange(p, p + (seq!['@'] + word_metric() + group(name) + group(value) + opt_group(unit) + opt_group(trend)).len()) == seq!['@'] + word_metric() + group(name) + group(value) + opt_group(unit) + opt_group(trend),
        p + (seq!['@'] + word_metric() + group(name) + group(value) + opt_group(unit) + opt_group(trend)).len() == s.len() || s[p + (seq!['@'] + word_metric() + group(name) + group(value) + opt_group(unit) + opt_group(trend)).len()] != '{',
    ensures
        block_at(s, p) == Ok::<Option<(Node, int)>, crate::parser::Failure>(Some((Node::Metric { name, value, unit, trend }, p + (seq!['@'] + word_metric() + group(name) + group(value) + opt_group(unit) + opt_group(trend)).len()))),
{
    let w = word_metric();
    let a1 = seq!['@'] + w;
    let a2 = a1 + group(name);
    let a3 = a2 + group(value);
    let a4 = a3 + opt_group(unit);
    let m = a4 + opt_group(trend);
    lemma_split(s, p, a4, opt_group(trend));
    lemma_split(s, p, a3, opt_group(unit));
    lemma_split(s, p, a2, group(value));
    lemma_split(s, p, a1, group(name));
    let rest = group(name) + group(value) + opt_group(unit) + opt_group(trend);
    assert(m =~= seq!['@'] + w + rest);
    assert(rest[0] == '{');
    lemma_directive_name(s, p, w, rest);
    let ie = p + a1.len();
    lemma_group_at(s, ie, name);
    lemma_group_at(s, p + a2.len(), value);
    if unit is None {
        assert(trend is None);
    }
    lemma_opt_group_at(s, p + a3.len(), unit);
    lemma_opt_group_at(s, p + a4.len(), trend);
    let node = Node::Metric { name, value, unit, trend };
    assert(crate::parser::metric_at(s, ie) == Ok::<(Node, int), crate::parser::Failure>((node, p + m.len())));
    assert(word_metric() != word_heading());
    assert(word_metric() != word_paragraph());
    assert(word_metric() != word_command());
    assert(simple_directive_at(s, w, ie) == Ok::<(Node, int), crate::parser::Failure>((node, p + m.len())));
    lemma_block_at_simple(s, p, w, node, p + m.len());
}

/// A metric directive reads back as its block.
proof fn lemma_block_at_metric(s: Seq<char>, p: int, name: Seq<char>, value: Seq<char>, unit: Option<Seq<char>>, trend: Option<Seq<char>>)
    requires
        markup_char_facts(),
        writable(Node::Metric { name, value, unit, trend }),
        0 <= p,
        p + markup_of(Node::Metric { name, value, unit, trend }).len() <= s.len(),
        s.subrange(p, p + markup_of(Node::Metric { name, value, unit, trend }).len()) == markup_of(Node::Metric { name, value, unit, trend }),
        p + markup_of(Node::Metric { name, value, unit, trend }).len() == s.len() || s[p + markup_of(Node::Metric { name, value, unit, trend }).len()] != '{',
    ensures
        block_at(s, p) == Ok::<Option<(Node, int)>, crate::parser::Failure>(Some((Node::Metric { name, value, unit, trend }, p + markup_of(Node::Metric { name, value, unit, trend }).len()))),
{
    assert(markup_of(Node::Metric { name, value, unit, trend }) == seq!['@'] + word_metric() + group(name) + group(value) + opt_group(unit) + opt_group(trend));
    lemma_metric_pieces(s, p, name, value, unit, trend);
}

/// A directive named `w`, not a keyword, whose arguments read back as
/// `node`, reads back as `node`.
proof fn lemma_block_at_simple(s: Seq<char>, p: int, w: Seq<char>, node: Node, end: int)
    requires
        w == word_metric() || w == crate::parser::word_log(),
        0 <= p < s.len(),
        skip_space(s, p) == p,
        s[p] == '@',
        ident_end(s, p + 1) == p + 1 + w.len(),
        p + 1 + w.len() <= s.len(),
        s.subrange(p + 1, p + 1 + w.len()) == w,
        simple_directive_at(s, w, p + 1 + w.len()) == Ok::<(Node, int), crate::parser::Failure>((node, end)),
    ensures
        block_at(s, p) == Ok::<Option<(Node, int)>, crate::parser::Failure>(Some((node, end))),
{
    assert(word_metric()[0] != word_metrics()[0] || word_metric().len() != word_metrics().len());
    assert(word_metric() != word_metrics()) by {
        assert(word_metric().len() != word_metrics().len());
    }
    assert(word_metric()[0] != word_output()[0]);
    assert(word_metric()[0] != word_traces()[0]);
    assert(crate::parser::word_log()[0] != word_var()[0]);
}

/// The log directive written from these parts reads back as its block.
#[verifier::rlimit(100)]
proof fn lemma_log_pieces(s: Seq<char>, p: int, message: Seq<char>, level: Seq<char>, timestamp: Option<Seq<char>>, source: Option<Seq<char>>)
    requires
        markup_char_facts(),
        is_plain(message) && is_plain(level) && opt_plain(timestamp) && opt_plain(source) && (source is Some ==> timestamp is Some),
        0 <= p,
        p + (seq!['@'] + crate::parser::word_log() + group(message) + group(level) + opt_group(timestamp) + opt_group(source)).len() <= s.len(),
        s.subrange(p, p + (seq!['@'] + crate::parser::word_log() + group(message) + group(level) + opt_group(timestamp) + opt_group(source)).len()) == seq!['@'] + crate::parser::word_log() + group(message) + group(level) + opt_group(timestamp) + opt_group(source),
        p + (seq!['@'] + crate::parser::word_log() + group(message) + group(level) + opt_group(timestamp) + opt_group(source)).len() == s.len() || s[p + (seq!['@'] + crate::parser::word_log() + group(message) + group(level) + opt_group(timestamp) + opt_group(source)).len()] != '{',
    ensures
        block_at(s, p) == Ok::<Option<(Node, int)>, crate::parser::Failure>(Some((Node::LogEntry { message, level, timestamp, source }, p + (seq!['@'] + crate::parser::word_log() + group(message) + group(level) + opt_group(timestamp) + opt_group(source)).len()))),
{
    let w = crate::parser::word_log();
    let a1 = seq!['@'] + w;
    let a2 = a1 + group(message);
    let a3 = a2 + group(level);
    let a4 = a3 + opt_group(timestamp);
    lemma_split(s, p, a4, opt_group(source));
    lemma_split(s, p, a3, opt_group(timestamp));
    lemma_split(s, p, a2, group(level));
    lemma_split(s, p, a1, group(message));
    let rest = group(message) + group(level) + opt_group(timestamp) + opt_group(source);
    assert(a4 + opt_group(source) =~= seq!['@'] + w + rest);
    assert(rest[0] == '{');
    lemma_directive_name(s, p, w, rest);
    let ie = p + a1.len();
    lemma_group_at(s, ie, message);
    lemma_group_at(s, p + a2.len(), level);
    if timestamp is None {
        assert(source is None);
    }
    lemma_opt_group_at(s, p + a3.len(), timestamp);
    lemma_opt_group_at(s, p + a4.len(), source);
    let node = Node::LogEntry { message, level, timestamp, source };
    let end = p + a4.len() + opt_group(source).len();
    assert(crate::parser::log_at(s, ie) == Ok::<(Node, int), crate::parser::Failure>((node, end)));
    assert(w != word_heading());
    assert(w != word_paragraph());
    assert(w != word_command());
    assert(w != word_metric());
    assert(simple_directive_at(s, w, ie) == Ok::<(Node, int), crate::parser::Failure>((node, end)));
    lemma_block_at_simple(s, p, w, node, end);
}

/// A log directive reads back as its block.
proof fn lemma_block_at_log(s: Seq<char>, p: int, message: Seq<char>, level: Seq<char>, timestamp: Option<Seq<char>>, source: Option<Seq<char>>)
    requires
        markup_char_facts(),
        writable(Node::LogEntry { message, level, timestamp, source }),
        0 <= p,
        p + markup_of(Node::LogEntry { message, level, timestamp, source }).len() <= s.len(),
        s.subrange(p, p + markup_of(Node::LogEntry { message, level, timestamp, source }).len()) == markup_of(Node::LogEntry { message, level, timestamp, source }),
        p + markup_of(Node::LogEntry { message, level, timestamp, source }).len() == s.len() || s[p + markup_of(Node::LogEntry { message, level, timestamp, source }).len()] != '{',
    ensures
        block_at(s, p) == Ok::<Option<(Node, int)>, crate::parser::Failure>(Some((Node::LogEntry { message, level, timestamp, source }, p + markup_of(Node::LogEntry { message, level, timestamp, source }).len()))),
{
    assert(markup_of(Node::LogEntry { message, level, timestamp, source }) == seq!['@'] + crate::parser::word_log() + group(message) + group(level) + opt_group(timestamp) + opt_group(source));
    lemma_log_pieces(s, p, message, level, timestamp, source);
}

/// A frame directive with its body alone reads back as an untitled frame.
proof fn lemma_block_at_bare_frame(s: Seq<char>, p: int, c: Seq<Node>)
    requires
        markup_char_facts(),
        writable(Node::Frame { title: None, content: c }),
        0 <= p,
        p + markup_of(Node::Frame { title: None, content: c }).len() <= s.len(),
        s.subrange(p, p + markup_of(Node::Frame { title: None, content: c }).len()) == markup_of(Node::Frame { title: None, content: c }),
        p + markup_of(Node::Frame { title: None, content: c }).len() == s.len() || s[p + markup_of(Node::Frame { title: None, content: c }).len()] != '{',
    ensures
        block_at(s, p) == Ok::<Option<(Node, int)>, crate::parser::Failure>(
            Some((Node::Frame { title: None, content: c }, p + markup_of(Node::Frame { title: None, content: c }).len())),
        ),
    decreases c, 1int,
{
    let b = Node::Frame { title: None, content: c };
    lemma_all_writable(c, c.len() as int);
    assert(crate::parser::peek(s, p + markup_of(b).len()) != '{');
    let d = p + 1;
    let m = markup_of(b);
    assert(s[p] == s.subrange(p, p + m.len())[0]);
    assert(s[p] == '@');
    assert(skip_space(s, p) == p);
    assert(word_frame()[0] != word_table()[0]);
    assert(word_frame()[0] != word_trace()[0]);
    assert(word_output()[0] != word_metric()[0]);
    let w = word_frame();
    let mc = markup_all(c);
    lemma_split(s, p, seq!['@'] + w, group(mc));
    lemma_split(s, p, seq!['@'], w);
    lemma_split(s, p + 1 + w.len(), seq!['{'] + mc, seq!['}']);
    lemma_split(s, p + 1 + w.len(), seq!['{'], mc);
    assert(s[p + 1 + w.len()] == s.subrange(p + 1 + w.len(), p + 2 + w.len())[0]);
    lemma_ident_word(s, p + 1, w);
    assert(s[p + 1] == s.subrange(p + 1, p + 1 + w.len())[0]);
    let ie = p + 1 + w.len();
    assert(s.subrange(d, ie) == w);
    assert(s[ie] == s.subrange(ie, ie + 1)[0]);
    let p1 = ie + 1;
    assert(s[p1 + mc.len()] == s.subrange(p1 + mc.len(), p1 + mc.len() + 1)[0]);
    lemma_close_nodes(s, p1, c, 1);
    lemma_close_shut(s, p1 + mc.len(), 1);
    assert(crate::parser::body_close(s, p1, 1) == Some(p1 + mc.len() + 1));
    assert(s.subrange(p1, p1 + mc.len()) == mc);
    let sub = s.subrange(p1, p1 + mc.len());
    assert(sub.subrange(0, sub.len() as int) =~= sub);
    lemma_blocks_from_markup(sub, 0, c);
}

/// A group of plain text at `ie`, read as a body, closes right after itself.
proof fn lemma_title_group_close(s: Seq<char>, ie: int, t: Seq<char>)
    requires
        0 <= ie,
        ie + t.len() + 2 <= s.len(),
        s.subrange(ie, ie + t.len() + 2) == group(t),
        is_plain(t),
    ensures
        s[ie] == '{',
        crate::parser::body_close(s, ie + 1, 1) == Some(ie + t.len() + 2),
{
    lemma_plain_brace_free(t);
    lemma_split(s, ie, seq!['{'] + t, seq!['}']);
    lemma_split(s, ie, seq!['{'], t);
    assert(s[ie] == s.subrange(ie, ie + 1)[0]);
    assert(s[ie + 1 + t.len()] == s.subrange(ie + 1 + t.len(), ie + 2 + t.len())[0]);
    lemma_close_skip(s, ie + 1, t, 1);
    lemma_close_shut(s, ie + 1 + t.len(), 1);
}

/// A titled frame directive reads back as its block.
#[verifier::rlimit(80)]
proof fn lemma_block_at_frame(s: Seq<char>, p: int, t: Seq<char>, content: Seq<Node>)
    requires
        markup_char_facts(),
        writable(Node::Frame { title: Some(t), content }),
        0 <= p,
        p + markup_of(Node::Frame { title: Some(t), content }).len() <= s.len(),
        s.subrange(p, p + markup_of(Node::Frame { title: Some(t), content }).len()) == markup_of(
            Node::Frame { title: Some(t), content },
        ),
    ensures
        block_at(s, p) == Ok::<Option<(Node, int)>, crate::parser::Failure>(
            Some((Node::Frame { title: Some(t), content }, p + markup_of(Node::Frame { title: Some(t), content }).len())),
        ),
    decreases content, 1int,
{
    let b = Node::Frame { title: Some(t), content };
    lemma_all_writable(content, content.len() as int);
    let d = p + 1;
    let m = markup_of(b);
    assert(s[p] == s.subrange(p, p + m.len())[0]);
    assert(s[p] == '@');
    assert(skip_space(s, p) == p);
    assert(word_frame()[0] != word_table()[0]);
    assert(word_frame()[0] != word_trace()[0]);
    assert(word_output()[0] != word_metric()[0]);
    let w = word_frame();
        let mc = markup_all(content);
    lemma_split(s, p, seq!['@'] + w + group(t), group(mc));
    lemma_split(s, p, seq!['@'] + w, group(t));
    lemma_split(s, p, seq!['@'], w);
    lemma_split(s, p + 3 + w.len() + t.len(), seq!['{'] + mc, seq!['}']);
    lemma_split(s, p + 3 + w.len() + t.len(), seq!['{'], mc);
    lemma_split(s, p + 1 + w.len(), seq!['{'] + t, seq!['}']);
    lemma_split(s, p + 1 + w.len(), seq!['{'], t);
    assert(s[p + 1 + w.len()] == s.subrange(p + 1 + w.len(), p + 2 + w.len())[0]);
    lemma_ident_word(s, p + 1, w);
    assert(s[p + 1] == s.subrange(p + 1, p + 1 + w.len())[0]);
    let ie = p + 1 + w.len();
    assert(s.subrange(d, ie) == w);
    lemma_title_group_close(s, ie, t);
    lemma_group_at(s, ie, t);
    assert(s[ie] == s.subrange(ie, ie + t.len() + 2)[0]);
    let p2 = ie + t.len() + 2;
    assert(s[p2] == s.subrange(p2, p2 + 1)[0]);
    let p1 = p2 + 1;
    assert(s[p1 + mc.len()] == s.subrange(p1 + mc.len(), p1 + mc.len() + 1)[0]);
    lemma_close_nodes(s, p1, content, 1);
    lemma_close_shut(s, p1 + mc.len(), 1);
    assert(crate::parser::body_close(s, p1, 1) == Some(p1 + mc.len() + 1));
    assert(s.subrange(p1, p1 + mc.len()) == mc);
    let sub = s.subrange(p1, p1 + mc.len());
    assert(sub.subrange(0, sub.len() as int) =~= sub);
    lemma_blocks_from_markup(sub, 0, content);
}

/// The directive name `w` at `q` ends right before the brace that follows it.
proof fn lemma_ident_word(s: Seq<char>, q: int, w: Seq<char>)
    requires
        markup_char_facts(),
        w == word_output() || w == word_frame(),
        0 <= q,
        q + w.len() < s.len(),
        s.subrange(q, q + w.len()) == w,
        s[q + w.len()] == '{',
    ensures
        ident_end(s, q) == q + w.len(),
{
    assert forall|k: int| q <= k < q + w.len() implies is_ident_char(#[trigger] s[k]) by {
        assert(s[k] == s.subrange(q, q + w.len())[k - q]);
    }
    lemma_ident_run(s, q, q + w.len());
}

/// A heading, paragraph, command or raw directive reads back as its block.
#[verifier::rlimit(60)]
proof fn lemma_block_at_leaf(s: Seq<char>, p: int, b: Node)
    requires
        markup_char_facts(),
        writable(b),
        !(b is Output),
        !(b is Frame),
        !(b is Metric),
        !(b is LogEntry),
        0 <= p,
        p + markup_of(b).len() <= s.len(),
        s.subrange(p, p + markup_of(b).len()) == markup_of(b),
    ensures
        block_at(s, p) == Ok::<Option<(Node, int)>, crate::parser::Failure>(Some((b, p + markup_of(b).len()))),
{
    let d = p + 1;
    let (w, t) = match b {
        Node::Heading { level, text } => (word_heading(), decimal(level as nat)),
        Node::Paragraph(t) => (word_paragraph(), t),
        Node::CommandPrompt(t) => (word_command(), t),
        Node::Raw(t) => (word_raw(), t),
        _ => (Seq::empty(), Seq::empty()),
    };
    let first_len = w.len() + t.len() + 3;
    match b {
        Node::Heading { level, text } => {
            lemma_decimal_plain(level as nat);
        },
        _ => {},
    }
    assert(s.subrange(p, p + first_len) =~= seq!['@'] + w + group(t)) by {
        let m = markup_of(b);
        assert forall|k: int| 0 <= k < first_len implies s.subrange(p, p + first_len)[k] == (seq!['@'] + w + group(t))[k] by {
            assert(s[p + k] == m[k]);
        }
    }
    assert forall|k: int| 0 <= k < w.len() implies is_ident_char(#[trigger] w[k]) by {}
    lemma_word_group(s, p, w, t);
    assert(w != word_output());
    assert(w != word_frame());
    assert(word_command()[0] != word_heading()[0]);
    assert(word_raw()[0] != crate::parser::word_log()[0]);
    match b {
        Node::Heading { level, text } => {
            let q = p + first_len;
            let m = markup_of(b);
            assert(s.subrange(q, q + text.len() + 2) =~= group(text)) by {
                assert forall|k: int| 0 <= k < text.len() + 2 implies s.subrange(q, q + text.len() + 2)[k] == group(text)[k] by {
                    assert(s[q + k] == m[first_len + k]);
                }
            }
            lemma_group_at(s, q, text);
        },
        _ => {},
    }
}

proof fn lemma_blocks_from_markup(s: Seq<char>, p: int, bs: Seq<Node>)
    requires
        markup_char_facts(),
        forall|i: int| 0 <= i < bs.len() ==> writable(#[trigger] bs[i]),
        0 <= p,
        p + markup_all(bs).len() == s.len(),
        s.subrange(p, s.len() as int) == markup_all(bs),
    ensures
        blocks_from(s, p) == Ok::<Seq<Node>, crate::parser::Failure>(bs),
    decreases bs, 0int,
{
    if bs.len() == 0 {
        assert(skip_space(s, p) == p);
        assert(bs =~= Seq::<Node>::empty());
    } else {
        let rest_nodes = bs.subrange(1, bs.len() as int);
        let m = markup_of(bs[0]);
        let rest = markup_all(rest_nodes);
        lemma_split(s, p, m, rest);
        assert(decreases_to!(bs => bs[0]));
        if rest_nodes.len() > 0 {
            lemma_markup_nonempty(rest_nodes[0]);
            assert(rest_nodes[0] == bs[1]);
            assert(rest[0] == markup_of(rest_nodes[0])[0]);
            assert(s[p + m.len()] == s.subrange(p + m.len(), p + m.len() + rest.len())[0]);
        } else {
            assert(rest.len() == 0);
        }
        lemma_block_at_markup(s, p, bs[0]);
        assert forall|i: int| 0 <= i < rest_nodes.len() implies writable(#[trigger] rest_nodes[i]) by {
            assert(rest_nodes[i] == bs[i + 1]);
        }
        assert(decreases_to!(bs => rest_nodes));
        lemma_blocks_from_markup(s, p + m.len(), rest_nodes);
        lemma_markup_nonempty(bs[0]);
        assert(seq![bs[0]] + rest_nodes =~= bs);
    }
}

proof fn lemma_markup_nonempty(b: Node)
    requires
        writable(b),
    ensures
        markup_of(b).len() > 0,
        markup_of(b)[0] == '@',
{
}

/// Reading back the markup of writable blocks gives the same blocks.
proof fn lemma_markup_round_trip(bs: Seq<Node>)
    requires
        markup_char_facts(),
        forall|i: int| 0 <= i < bs.len() ==> writable(#[trigger] bs[i]),
    ensures
        document(markup_all(bs)) == Ok::<Seq<Node>, crate::parser::Failure>(bs),
{
    let s = markup_all(bs);
    assert(s.subrange(0, s.len() as int) =~= s);
    lemma_blocks_from_markup(s, 0, bs);
}

proof fn lemma_markup_all_push(bs: Seq<Node>, b: Node)
    ensures
        markup_all(bs.push(b)) == markup_all(bs) + markup_of(b),
    decreases bs.len(),
{
    if bs.len() == 0 {
        assert(bs.push(b).subrange(1, 1) =~= Seq::<Node>::empty());
        assert(bs.push(b)[0] == b);
        assert(markup_all(bs.push(b).subrange(1, 1)) == Seq::<char>::empty());
        assert(markup_all(bs) == Seq::<char>::empty());
        assert(markup_of(b) + Seq::<char>::empty() =~= markup_of(b));
        assert(Seq::<char>::empty() + markup_of(b) =~= markup_of(b));
    } else {
        let rest = bs.subrange(1, bs.len() as int);
        lemma_markup_all_push(rest, b);
        assert(bs.push(b).subrange(1, bs.len() as int + 1) =~= rest.push(b));
        assert(bs.push(b)[0] == bs[0]);
        assert(markup_of(bs[0]) + (markup_all(rest) + markup_of(b)) =~= markup_of(bs[0]) + markup_all(rest) + markup_of(b));
    }
}

/// Whether a text can stand in an argument group as it is.
fn plain(t: &str) -> (r: bool)
    ensures
        r == is_plain(t@),
{
    let c = crate::strings::chars_of(t);
    let mut i: usize = 0;
    while i < c.len()
        invariant
            i <= c@.len(),
            c@ == t@,
            forall|k: int| 0 <= k < i ==> #[trigger] c@[k] != '}' && c@[k] != '{' && c@[k] != '\\',
        decreases c.len() - i,
    {
        if c[i] == '}' || c[i] == '{' || c[i] == '\\' {
            return false;
        }
        i += 1;
    }
    true
}

/// `@` + `name` + `{`, as a string.
fn opening(name: &[char]) -> (r: String)
    ensures
        r@ == seq!['@'] + name@ + seq!['{'],
{
    let mut r = String::new();
    push_char(&mut r, '@');
    let mut i: usize = 0;
    while i < name.len()
        invariant
            i <= name@.len(),
            r@ == seq!['@'] + name@.subrange(0, i as int),
        decreases name.len() - i,
    {
        push_char(&mut r, name[i]);
        assert(name@.subrange(0, i + 1) =~= name@.subrange(0, i as int).push(name@[i as int]));
        i += 1;
    }
    assert(name@.subrange(0, name@.len() as int) =~= name@);
    push_char(&mut r, '{');
    r
}

/// A body with a block that cannot be written cannot be written either.
proof fn lemma_child_not_writable(c: Seq<Node>, j: int, title: Option<Option<Seq<char>>>)
    requires
        0 <= j < c.len(),
        !writable(c[j]),
    ensures
        title is None ==> !writable(Node::Output(c)),
        title matches Some(t) ==> !writable(Node::Frame { title: t, content: c }),
{
    lemma_all_writable(c, c.len() as int);
}

/// The directive that writes a metric block, if it is writable.
fn write_metric(name: &String, value: &String, unit: &Option<String>, trend: &Option<crate::block::Trend>) -> (r: Option<String>)
    ensures
        writable(Node::Metric { name: name@, value: value@, unit: crate::block::opt_view(*unit), trend: crate::block::trend_view(*trend) }) ==> r is Some && r->Some_0@ == markup_of(Node::Metric { name: name@, value: value@, unit: crate::block::opt_view(*unit), trend: crate::block::trend_view(*trend) }),
        !writable(Node::Metric { name: name@, value: value@, unit: crate::block::opt_view(*unit), trend: crate::block::trend_view(*trend) }) ==> r is None,
{
    proof {
        assert(['m', 'e', 't', 'r', 'i', 'c']@ =~= word_metric());
    }
    if !plain(name.as_str()) || !plain(value.as_str()) {
        return None;
    }
    match unit {
        Some(u) => {
            if !plain(u.as_str()) {
                return None;
            }
        },
        None => {},
    }
    match trend {
        Some(tr) => {
            if unit.is_none() || !plain(tr.text.as_str()) {
                return None;
            }
            let (valid, _sign) = crate::number::check_trend(crate::strings::chars_of(tr.text.as_str()).as_slice());
            if !valid {
                return None;
            }
        },
        None => {},
    }
    let mut out = opening(&['m', 'e', 't', 'r', 'i', 'c']);
    push_str(&mut out, name.as_str());
    push_char(&mut out, '}');
    push_char(&mut out, '{');
    push_str(&mut out, value.as_str());
    push_char(&mut out, '}');
    match unit {
        Some(u) => {
            push_char(&mut out, '{');
            push_str(&mut out, u.as_str());
            push_char(&mut out, '}');
        },
        None => {},
    }
    match trend {
        Some(tr) => {
            push_char(&mut out, '{');
            push_str(&mut out, tr.text.as_str());
            push_char(&mut out, '}');
        },
        None => {},
    }
    assert(out@ =~= markup_of(Node::Metric { name: name@, value: value@, unit: crate::block::opt_view(*unit), trend: crate::block::trend_view(*trend) }));
    Some(out)
}

/// The directive that writes a log block, if it is writable.
fn write_log(message: &String, level: &String, timestamp: &Option<String>, source: &Option<String>) -> (r: Option<String>)
    ensures
        writable(Node::LogEntry { message: message@, level: level@, timestamp: crate::block::opt_view(*timestamp), source: crate::block::opt_view(*source) }) ==> r is Some && r->Some_0@ == markup_of(Node::LogEntry { message: message@, level: level@, timestamp: crate::block::opt_view(*timestamp), source: crate::block::opt_view(*source) }),
        !writable(Node::LogEntry { message: message@, level: level@, timestamp: crate::block::opt_view(*timestamp), source: crate::block::opt_view(*source) }) ==> r is None,
{
    proof {
        assert(['l', 'o', 'g']@ =~= crate::parser::word_log());
    }
    if !plain(message.as_str()) || !plain(level.as_str()) {
        return None;
    }
    match timestamp {
        Some(x) => {
            if !plain(x.as_str()) {
                return None;
            }
        },
        None => {
            if source.is_some() {
                return None;
            }
        },
    }
    match source {
        Some(x) => {
            if !plain(x.as_str()) {
                return None;
            }
        },
        None => {},
    }
    let mut out = opening(&['l', 'o', 'g']);
    push_str(&mut out, message.as_str());
    push_char(&mut out, '}');
    push_char(&mut out, '{');
    push_str(&mut out, level.as_str());
    push_char(&mut out, '}');
    match timestamp {
        Some(x) => {
            push_char(&mut out, '{');
            push_str(&mut out, x.as_str());
            push_char(&mut out, '}');
        },
        None => {},
    }
    match source {
        Some(x) => {
            push_char(&mut out, '{');
            push_str(&mut out, x.as_str());
            push_char(&mut out, '}');
        },
        None => {},
    }
    assert(out@ =~= markup_of(Node::LogEntry { message: message@, level: level@, timestamp: crate::block::opt_view(*timestamp), source: crate::block::opt_view(*source) }));
    Some(out)
}

/// The directive that writes a block, if it is writable.
fn write_block(b: &Block) -> (r: Option<String>)
    ensures
        writable(block_view(*b)) ==> r is Some && r->Some_0@ == markup_of(block_view(*b)),
        !writable(block_view(*b)) ==> r is None,
    decreases b,
{
    proof {
        assert(['h', 'e', 'a', 'd', 'i', 'n', 'g']@ =~= word_heading());
        assert(['p', 'a', 'r', 'a', 'g', 'r', 'a', 'p', 'h']@ =~= word_paragraph());
        assert(['c', 'o', 'm', 'm', 'a', 'n', 'd']@ =~= word_command());
        assert(['r', 'a', 'w']@ =~= word_raw());
        assert(['o', 'u', 't', 'p', 'u', 't']@ =~= word_output());
        assert(['f', 'r', 'a', 'm', 'e']@ =~= word_frame());
        assert(['m', 'e', 't', 'r', 'i', 'c']@ =~= word_metric());
        assert(['l', 'o', 'g']@ =~= crate::parser::word_log());
    }
    match b {
        Block::Output(c) => {
            proof {
                lemma_blocks_view(c@);
            }
            let inner = match write_children(c) {
                Some(x) => x,
                None => {
                    proof {
                        let j = choose|j: int| 0 <= j < c@.len() && !writable(#[trigger] block_view(c@[j]));
                        let bv = blocks_view(c@);
                        assert(bv[j] == block_view(c@[j]));
                        assert(!writable(bv[j]));
                        assert(block_view(*b) == Node::Output(bv));
                        lemma_child_not_writable(bv, j, None);
                    }
                    return None;
                },
            };
            proof {
                lemma_all_writable(blocks_view(c@), c@.len() as int);
                assert forall|i: int| 0 <= i < c@.len() implies writable(#[trigger] blocks_view(c@)[i]) by {
                    assert(blocks_view(c@)[i] == block_view(c@[i]));
                }
            }
            let mut out = opening(&['o', 'u', 't', 'p', 'u', 't']);
            push_str(&mut out, inner.as_str());
            push_char(&mut out, '}');
            assert(out@ =~= markup_of(block_view(*b)));
            return Some(out);
        },
        Block::Frame { title, content } => {
            proof {
                lemma_blocks_view(content@);
            }
            match title {
                Some(t) => {
                    if !plain(t.as_str()) {
                        return None;
                    }
                },
                None => {},
            }
            let inner = match write_children(content) {
                Some(x) => x,
                None => {
                    proof {
                        let j = choose|j: int| 0 <= j < content@.len() && !writable(#[trigger] block_view(content@[j]));
                        let bv = blocks_view(content@);
                        assert(bv[j] == block_view(content@[j]));
                        assert(!writable(bv[j]));
                        assert(block_view(*b) == Node::Frame { title: crate::block::opt_view(*title), content: bv });
                        lemma_child_not_writable(bv, j, Some(crate::block::opt_view(*title)));
                    }
                    return None;
                },
            };
            proof {
                lemma_all_writable(blocks_view(content@), content@.len() as int);
                assert forall|i: int| 0 <= i < content@.len() implies writable(#[trigger] blocks_view(content@)[i]) by {
                    assert(blocks_view(content@)[i] == block_view(content@[i]));
                }
            }
            let mut out = opening(&['f', 'r', 'a', 'm', 'e']);
            match title {
                Some(t) => {
                    push_str(&mut out, t.as_str());
                    push_char(&mut out, '}');
                    push_char(&mut out, '{');
                },
                None => {},
            }
            push_str(&mut out, inner.as_str());
            push_char(&mut out, '}');
            assert(out@ =~= markup_of(block_view(*b)));
            return Some(out);
        },
        Block::Metric { name, value, unit, trend } => {
            return write_metric(name, value, unit, trend);
        },
        Block::LogEntry { message, level, timestamp, source } => {
            return write_log(message, level, timestamp, source);
        },
        _ => {},
    }
    let (mut out, text) = match b {
        Block::Heading { level, text } => {
            let mut out = opening(&['h', 'e', 'a', 'd', 'i', 'n', 'g']);
            push_str(&mut out, decimal_string(*level as u64).as_str());
            push_char(&mut out, '}');
            push_char(&mut out, '{');
            (out, text)
        },
        Block::Paragraph(t) => (opening(&['p', 'a', 'r', 'a', 'g', 'r', 'a', 'p', 'h']), t),
        Block::CommandPrompt(t) => (opening(&['c', 'o', 'm', 'm', 'a', 'n', 'd']), t),
        Block::Raw(t) => (opening(&['r', 'a', 'w']), t),
        _ => return None,
    };
    if !plain(text.as_str()) {
        return None;
    }
    push_str(&mut out, text.as_str());
    push_char(&mut out, '}');
    assert(out@ =~= markup_of(block_view(*b)));
    Some(out)
}

/// The markup of the blocks of a vector, if all are writable.
fn write_children(blocks: &Vec<Block>) -> (r: Option<String>)
    ensures
        (forall|i: int| 0 <= i < blocks@.len() ==> writable(#[trigger] block_view(blocks@[i]))) ==> r is Some
            && r->Some_0@ == markup_all(blocks_view(blocks@)),
        !(forall|i: int| 0 <= i < blocks@.len() ==> writable(#[trigger] block_view(blocks@[i]))) ==> r is None,
    decreases blocks,
{
    let mut out = String::new();
    let mut i: usize = 0;
    proof {
        lemma_blocks_view(blocks@);
        assert(blocks_view(blocks@).subrange(0, 0) =~= Seq::<Node>::empty());
    }
    while i < blocks.len()
        invariant
            i <= blocks@.len(),
            blocks_view(blocks@).len() == blocks@.len(),
            forall|k: int| 0 <= k < blocks@.len() ==> #[trigger] blocks_view(blocks@)[k] == block_view(blocks@[k]),
            forall|k: int| 0 <= k < i ==> writable(#[trigger] block_view(blocks@[k])),
            out@ == markup_all(blocks_view(blocks@).subrange(0, i as int)),
        decreases blocks.len() - i,
    {
        proof {
            assert(decreases_to!(blocks => blocks@[i as int]));
        }
        let part = match write_block(&blocks[i]) {
            Some(p) => p,
            None => return None,
        };
        push_str(&mut out, part.as_str());
        proof {
            let v = blocks_view(blocks@);
            assert(v.subrange(0, i + 1) =~= v.subrange(0, i as int).push(v[i as int]));
            lemma_markup_all_push(v.subrange(0, i as int), v[i as int]);
        }
        i += 1;
    }
    proof {
        let v = blocks_view(blocks@);
        assert(v.subrange(0, v.len() as int) =~= v);
    }
    Some(out)
}

/// The markup of blocks that are all writable (see `writable`), or `None`
/// when one is not. Parsing that markup gives back the same blocks.
pub fn serialize(blocks: &[Block]) -> (r: Option<String>)
    ensures
        (forall|i: int| 0 <= i < blocks@.len() ==> writable(#[trigger] block_view(blocks@[i]))) ==> r is Some
            && r->Some_0@ == markup_all(blocks_view(blocks@)) && document(r->Some_0@) == Ok::<
            Seq<Node>,
            crate::parser::Failure,
        >(blocks_view(blocks@)),
        !(forall|i: int| 0 <= i < blocks@.len() ==> writable(#[trigger] block_view(blocks@[i]))) ==> r is None,
{
    learn_markup_char_facts();
    let mut out = String::new();
    let mut i: usize = 0;
    proof {
        lemma_blocks_view(blocks@);
        assert(blocks_view(blocks@).subrange(0, 0) =~= Seq::<Node>::empty());
    }
    while i < blocks.len()
        invariant
            i <= blocks@.len(),
            markup_char_facts(),
            blocks_view(blocks@).len() == blocks@.len(),
            forall|k: int| 0 <= k < blocks@.len() ==> #[trigger] blocks_view(blocks@)[k] == block_view(blocks@[k]),
            forall|k: int| 0 <= k < i ==> writable(#[trigger] block_view(blocks@[k])),
            out@ == markup_all(blocks_view(blocks@).subrange(0, i as int)),
        decreases blocks.len() - i,
    {
        let part = match write_block(&blocks[i]) {
            Some(p) => p,
            None => return None,
        };
        push_str(&mut out, part.as_str());
        proof {
            let v = blocks_view(blocks@);
            assert(v.subrange(0, i + 1) =~= v.subrange(0, i as int).push(v[i as int]));
            lemma_markup_all_push(v.subrange(0, i as int), v[i as int]);
        }
        i += 1;
    }
    proof {
        let v = blocks_view(blocks@);
        assert(v.subrange(0, v.len() as int) =~= v);
        assert forall|k: int| 0 <= k < v.len() implies writable(#[trigger] v[k]) by {
            assert(v[k] == block_view(blocks@[k]));
        }
        lemma_markup_round_trip(v);
    }
    Some(out)
}

} // verus!
