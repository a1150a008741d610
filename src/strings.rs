//! Character-level helpers on which the parser and the renderers are built.
use vstd::prelude::*;
use vstd::string::*;

verus! {

/// Whether `c` has Unicode's White_Space property (what `char::is_whitespace` reports).
pub uninterp spec fn is_space(c: char) -> bool;

/// Whether `c` is alphabetic or numeric in Unicode's sense (what
/// `char::is_alphanumeric` reports).
pub uninterp spec fn is_alnum(c: char) -> bool;

/// The upper-case form of a string (what `str::to_uppercase` returns).
pub uninterp spec fn upper_of(s: Seq<char>) -> Seq<char>;

pub open spec fn is_ascii_alnum(c: char) -> bool {
    ('a' <= c && c <= 'z') || ('A' <= c && c <= 'Z') || ('0' <= c && c <= '9')
}

/// Relies on `char::is_whitespace`: the White_Space property, which among
/// ASCII characters holds of the space and of U+0009 to U+000D (tab, line
/// feed, vertical tab, form feed, carriage return).
#[verifier::external_body]
pub(crate) fn is_whitespace(c: char) -> (r: bool)
    ensures
        r == is_space(c),
        (c as u32) < 128 ==> (r <==> (c == ' ' || ('\t' <= c && c <= '\r'))),
{
    c.is_whitespace()
}

/// Relies on `char::is_alphanumeric`: Alphabetic or Numeric, which among
/// ASCII characters are exactly the letters and digits.
#[verifier::external_body]
pub(crate) fn is_alphanumeric(c: char) -> (r: bool)
    ensures
        r == is_alnum(c),
        (c as u32) < 128 ==> (r <==> is_ascii_alnum(c)),
{
    c.is_alphanumeric()
}

/// Relies on `str::to_uppercase`: the result depends on the characters alone.
#[verifier::external_body]
pub(crate) fn to_uppercase(s: &str) -> (r: String)
    ensures
        r@ == upper_of(s@),
{
    s.to_uppercase()
}

/// Relies on `String::push`: appends one character.
#[verifier::external_body]
pub(crate) fn push_char(s: &mut String, c: char)
    ensures
        final(s)@ == old(s)@.push(c),
{
    s.push(c)
}

/// Relies on `str::chars`, collected into a `Vec`: the characters in order.
/// A `Vec` never holds more than `isize::MAX` bytes, so its length stays
/// below `usize::MAX`.
#[verifier::external_body]
pub(crate) fn chars_of(s: &str) -> (r: Vec<char>)
    ensures
        r@ == s@,
        r@.len() <= isize::MAX as int,
{
    s.chars().collect()
}

/// The characters `lo..hi` of `v` as a string.
pub fn string_of(v: &[char], lo: usize, hi: usize) -> (r: String)
    requires
        lo <= hi <= v@.len(),
    ensures
        r@ == v@.subrange(lo as int, hi as int),
{
    let mut r = String::new();
    let mut i = lo;
    while i < hi
        invariant
            lo <= i <= hi <= v@.len(),
            r@ == v@.subrange(lo as int, i as int),
        decreases hi - i,
    {
        push_char(&mut r, v[i]);
        assert(v@.subrange(lo as int, i + 1) == v@.subrange(lo as int, i as int).push(v@[i as int]));
        i += 1;
    }
    r
}

/// `s` written `n` times.
pub open spec fn repeat_seq(s: Seq<char>, n: nat) -> Seq<char>
    decreases n,
{
    if n == 0 {
        Seq::empty()
    } else {
        repeat_seq(s, (n - 1) as nat) + s
    }
}

pub proof fn lemma_repeat_len(s: Seq<char>, n: nat)
    ensures
        repeat_seq(s, n).len() == n * s.len(),
    decreases n,
{
    if n > 0 {
        lemma_repeat_len(s, (n - 1) as nat);
        assert(n * s.len() == (n - 1) * s.len() + s.len()) by (nonlinear_arith);
    } else {
        assert(n * s.len() == 0) by (nonlinear_arith)
            requires
                n == 0,
        ;
    }
}

/// `s` written `n` times (what `str::repeat` returns).
pub fn repeat(s: &str, n: usize) -> (r: String)
    ensures
        r@ == repeat_seq(s@, n as nat),
{
    let mut r = String::new();
    let mut i: usize = 0;
    while i < n
        invariant
            i <= n,
            r@ == repeat_seq(s@, i as nat),
        decreases n - i,
    {
        r.append(s);
        i += 1;
    }
    r
}

/// Appends `t` to `s`.
pub fn push_str(s: &mut String, t: &str)
    ensures
        final(s)@ == old(s)@ + t@,
{
    s.append(t);
}

/// The index of the first character at or after `q` that is not white space.
pub open spec fn skip_space(s: Seq<char>, q: int) -> int
    decreases s.len() - q,
{
    if q < 0 || q >= s.len() {
        q
    } else if is_space(s[q]) {
        skip_space(s, q + 1)
    } else {
        q
    }
}

/// The index just after the last character before `q` that is not white space.
pub open spec fn trim_back(s: Seq<char>, q: int) -> int
    decreases q,
{
    if q <= 0 || q > s.len() {
        q
    } else if is_space(s[q - 1]) {
        trim_back(s, q - 1)
    } else {
        q
    }
}

/// `s` without white space at either end (what `str::trim` returns).
pub open spec fn trim_seq(s: Seq<char>) -> Seq<char> {
    let a = skip_space(s, 0);
    let b = trim_back(s, s.len() as int);
    if a < b {
        s.subrange(a, b)
    } else {
        Seq::empty()
    }
}

pub proof fn lemma_skip_space_range(s: Seq<char>, q: int)
    requires
        0 <= q <= s.len(),
    ensures
        q <= skip_space(s, q) <= s.len(),
        forall|k: int| q <= k < skip_space(s, q) ==> is_space(s[k]),
        skip_space(s, q) < s.len() ==> !is_space(s[skip_space(s, q)]),
    decreases s.len() - q,
{
    if q < s.len() && is_space(s[q]) {
        lemma_skip_space_range(s, q + 1);
    }
}

pub proof fn lemma_trim_back_range(s: Seq<char>, q: int)
    requires
        0 <= q <= s.len(),
    ensures
        0 <= trim_back(s, q) <= q,
        forall|k: int| trim_back(s, q) <= k < q ==> is_space(s[k]),
        trim_back(s, q) > 0 ==> !is_space(s[trim_back(s, q) - 1]),
    decreases q,
{
    if q > 0 && is_space(s[q - 1]) {
        lemma_trim_back_range(s, q - 1);
    }
}

/// The characters `lo..hi` of `v` without white space at either end.
pub fn trimmed_string_of(v: &[char], lo: usize, hi: usize) -> (r: String)
    requires
        lo <= hi <= v@.len(),
    ensures
        r@ == trim_seq(v@.subrange(lo as int, hi as int)),
{
    let ghost s = v@.subrange(lo as int, hi as int);
    let mut a = lo;
    while a < hi && is_whitespace(v[a])
        invariant
            lo <= a <= hi <= v@.len(),
            s == v@.subrange(lo as int, hi as int),
            skip_space(s, 0) == skip_space(s, a - lo),
        decreases hi - a,
    {
        assert(s[a - lo] == v@[a as int]);
        a += 1;
    }
    let mut b = hi;
    while b > a && is_whitespace(v[b - 1])
        invariant
            lo <= a <= b <= hi <= v@.len(),
            s == v@.subrange(lo as int, hi as int),
            skip_space(s, 0) == skip_space(s, a - lo),
            trim_back(s, s.len() as int) == trim_back(s, b - lo),
        decreases b,
    {
        assert(s[b - 1 - lo] == v@[b - 1]);
        b -= 1;
    }
    proof {
        lemma_skip_space_range(s, 0);
        lemma_trim_back_range(s, s.len() as int);
        lemma_trim_back_range(s, b - lo);
        if a < hi {
            assert(s[a - lo] == v@[a as int]);
            assert(skip_space(s, a - lo) == a - lo);
        }
        if b > a {
            assert(s[b - 1 - lo] == v@[b - 1]);
            assert(trim_back(s, b - lo) == b - lo);
        }
    }
    let r = string_of(v, a, b);
    proof {
        if a < b {
            assert(r@ =~= s.subrange(a - lo, b - lo));
        } else {
            assert(r@ =~= Seq::<char>::empty());
        }
    }
    r
}

/// The digit characters for values below ten.
pub open spec fn digit_char(d: nat) -> char {
    if d == 0 { '0' } else if d == 1 { '1' } else if d == 2 { '2' } else if d == 3 { '3' }
    else if d == 4 { '4' } else if d == 5 { '5' } else if d == 6 { '6' } else if d == 7 { '7' }
    else if d == 8 { '8' } else { '9' }
}

/// The decimal notation of `n`, without sign or leading zeros.
pub open spec fn decimal(n: nat) -> Seq<char>
    decreases n,
{
    if n < 10 {
        seq![digit_char(n)]
    } else {
        decimal(n / 10).push(digit_char(n % 10))
    }
}

fn digit_of(d: u64) -> (c: char)
    requires
        d < 10,
    ensures
        c == digit_char(d as nat),
{
    if d == 0 { '0' } else if d == 1 { '1' } else if d == 2 { '2' } else if d == 3 { '3' }
    else if d == 4 { '4' } else if d == 5 { '5' } else if d == 6 { '6' } else if d == 7 { '7' }
    else if d == 8 { '8' } else { '9' }
}

/// The decimal notation of `n` (what `Display` writes for an unsigned integer).
pub fn decimal_string(n: u64) -> (r: String)
    ensures
        r@ == decimal(n as nat),
    decreases n,
{
    if n < 10 {
        let mut r = String::new();
        push_char(&mut r, digit_of(n));
        proof {
            assert(r@ =~= seq![digit_char(n as nat)]);
        }
        r
    } else {
        let mut r = decimal_string(n / 10);
        push_char(&mut r, digit_of(n % 10));
        r
    }
}

} // verus!
