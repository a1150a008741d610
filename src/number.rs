//! The numeric arguments of directives: unsigned integers and trend values.
use vstd::prelude::*;

verus! {

pub open spec fn is_digit(c: char) -> bool {
    '0' <= c && c <= '9'
}

pub open spec fn digit_value(c: char) -> nat {
    (c as u32 - '0' as u32) as nat
}

pub open spec fn all_digits(s: Seq<char>) -> bool {
    forall|i: int| 0 <= i < s.len() ==> is_digit(#[trigger] s[i])
}

/// The value of a run of decimal digits.
pub open spec fn digits_value(s: Seq<char>) -> nat
    decreases s.len(),
{
    if s.len() == 0 {
        0
    } else {
        digits_value(s.drop_last()) * 10 + digit_value(s.last())
    }
}

/// `s` without one leading `+`.
pub open spec fn unsigned_body(s: Seq<char>) -> Seq<char> {
    if s.len() > 0 && s[0] == '+' {
        s.drop_first()
    } else {
        s
    }
}

/// The unsigned integer that `s` writes, if it is at most `max`: an optional
/// `+` and at least one decimal digit, nothing else (the grammar of `str::parse`
/// for unsigned integers).
pub open spec fn parse_unsigned_spec(s: Seq<char>, max: nat) -> Option<nat> {
    let b = unsigned_body(s);
    if b.len() > 0 && all_digits(b) && digits_value(b) <= max {
        Some(digits_value(b))
    } else {
        None
    }
}

proof fn lemma_digits_value_grows(s: Seq<char>, i: int, j: int)
    requires
        0 <= i <= j <= s.len(),
        all_digits(s),
    ensures
        digits_value(s.subrange(0, i)) <= digits_value(s.subrange(0, j)),
    decreases j - i,
{
    if i < j {
        lemma_digits_value_grows(s, i, j - 1);
        assert(s.subrange(0, j).drop_last() =~= s.subrange(0, j - 1));
    }
}

fn parse_unsigned(s: &[char], max: u64) -> (r: Option<u64>)
    requires
        max >= 10,
    ensures
        match parse_unsigned_spec(s@, max as nat) {
            Some(v) => r == Some(v as u64),
            None => r is None,
        },
{
    let start: usize = if s.len() > 0 && s[0] == '+' { 1 } else { 0 };
    let ghost b = unsigned_body(s@);
    assert(b =~= s@.subrange(start as int, s@.len() as int));
    if start >= s.len() {
        return None;
    }
    let mut i = start;
    while i < s.len()
        invariant
            start <= i <= s@.len(),
            b == unsigned_body(s@),
            max >= 10,
            b =~= s@.subrange(start as int, s@.len() as int),
            forall|k: int| start <= k < i ==> is_digit(s@[k]),
        decreases s.len() - i,
    {
        if !('0' <= s[i] && s[i] <= '9') {
            assert(!is_digit(b[i - start]));
            assert(!all_digits(b));
            return None;
        }
        i += 1;
    }
    assert(all_digits(b));
    let mut v: u64 = 0;
    let mut i = start;
    while i < s.len()
        invariant
            start <= i <= s@.len(),
            b == unsigned_body(s@),
            max >= 10,
            b =~= s@.subrange(start as int, s@.len() as int),
            all_digits(b),
            v as nat == digits_value(b.subrange(0, i - start)),
            v <= max,
        decreases s.len() - i,
    {
        assert(b[i - start] == s@[i as int]);
        assert(is_digit(s@[i as int]));
        let d = (s[i] as u32 - '0' as u32) as u64;
        proof {
            let p = b.subrange(0, i - start + 1);
            assert(p.drop_last() =~= b.subrange(0, i - start));
            assert(p.last() == s@[i as int]);
        }
        if v > (max - d) / 10 {
            proof {
                assert(digits_value(b.subrange(0, i - start + 1)) > max) by (nonlinear_arith)
                    requires
                        digits_value(b.subrange(0, i - start + 1)) == v * 10 + d,
                        v > (max - d) / 10,
                        d <= 9,
                        max >= 10,
                ;
                lemma_digits_value_grows(b, i - start + 1, b.len() as int);
                assert(b.subrange(0, b.len() as int) =~= b);
            }
            return None;
        }
        v = v * 10 + d;
        i += 1;
    }
    assert(b.subrange(0, b.len() as int) =~= b);
    Some(v)
}

/// The heading level that `s` writes (what `str::parse::<usize>` accepts).
pub fn parse_usize(s: &[char]) -> (r: Option<usize>)
    ensures
        match parse_unsigned_spec(s@, usize::MAX as nat) {
            Some(v) => r == Some(v as usize),
            None => r is None,
        },
{
    match parse_unsigned(s, usize::MAX as u64) {
        Some(v) => Some(v as usize),
        None => None,
    }
}

/// The duration that `s` writes (what `str::parse::<u64>` accepts).
pub fn parse_u64(s: &[char]) -> (r: Option<u64>)
    ensures
        match parse_unsigned_spec(s@, u64::MAX as nat) {
            Some(v) => r == Some(v as u64),
            None => r is None,
        },
{
    parse_unsigned(s, u64::MAX)
}

pub open spec fn is_sign(c: char) -> bool {
    c == '+' || c == '-'
}

/// Whether `b` is the word `lw` with each letter in either case (`uw` holds the
/// same word in upper case).
pub open spec fn word_ci(b: Seq<char>, lw: Seq<char>, uw: Seq<char>) -> bool {
    b.len() == lw.len() && forall|k: int| 0 <= k < b.len() ==> #[trigger] b[k] == lw[k] || b[k] == uw[k]
}

/// `s` without one leading sign.
pub open spec fn float_body(s: Seq<char>) -> Seq<char> {
    if s.len() > 0 && is_sign(s[0]) {
        s.drop_first()
    } else {
        s
    }
}

pub open spec fn is_nan_word(b: Seq<char>) -> bool {
    word_ci(b, seq!['n', 'a', 'n'], seq!['N', 'A', 'N'])
}

pub open spec fn is_inf_word(b: Seq<char>) -> bool {
    word_ci(b, seq!['i', 'n', 'f'], seq!['I', 'N', 'F']) || word_ci(
        b,
        seq!['i', 'n', 'f', 'i', 'n', 'i', 't', 'y'],
        seq!['I', 'N', 'F', 'I', 'N', 'I', 'T', 'Y'],
    )
}

/// The index of the first `e` or `E` at or after `q`, or the length.
pub open spec fn exp_start(b: Seq<char>, q: int) -> int
    decreases b.len() - q,
{
    if q < 0 || q >= b.len() {
        b.len() as int
    } else if b[q] == 'e' || b[q] == 'E' {
        q
    } else {
        exp_start(b, q + 1)
    }
}

/// Digits with at most one point among them, and at least one digit.
pub open spec fn mantissa_ok(m: Seq<char>) -> bool {
    &&& forall|i: int| 0 <= i < m.len() ==> m[i] == '.' || is_digit(#[trigger] m[i])
    &&& forall|i: int, j: int| 0 <= i < m.len() && 0 <= j < m.len() && #[trigger] m[i] == '.'
        && #[trigger] m[j] == '.' ==> i == j
    &&& exists|i: int| 0 <= i < m.len() && is_digit(#[trigger] m[i])
}

/// Empty, or an `e` with an optional sign and at least one digit.
pub open spec fn exponent_ok(x: Seq<char>) -> bool {
    x.len() == 0 || {
        let y = x.drop_first();
        let z = if y.len() > 0 && is_sign(y[0]) { y.drop_first() } else { y };
        z.len() > 0 && all_digits(z)
    }
}

pub open spec fn is_number_text(b: Seq<char>) -> bool {
    let k = exp_start(b, 0);
    mantissa_ok(b.subrange(0, k)) && exponent_ok(b.subrange(k, b.len() as int))
}

/// Whether `s` is a floating-point number as `str::parse::<f64>` reads one: an
/// optional sign, then `inf`, `infinity` or `nan` in any case, or digits with
/// an optional point and an optional exponent.
pub open spec fn is_float_text(s: Seq<char>) -> bool {
    let b = float_body(s);
    is_nan_word(b) || is_inf_word(b) || is_number_text(b)
}

/// The direction of the number that `s` writes: 1 above zero, -1 below zero,
/// 0 for zero, not-a-number, or text that is no number.
pub open spec fn trend_sign(s: Seq<char>) -> int {
    let b = float_body(s);
    let nonzero = is_inf_word(b) || (is_number_text(b) && exists|i: int|
        0 <= i < exp_start(b, 0) && is_digit(#[trigger] b[i]) && b[i] != '0');
    if !is_float_text(s) || is_nan_word(b) || !nonzero {
        0
    } else if s[0] == '-' {
        -1
    } else {
        1
    }
}

/// Whether the characters `lo..` of `s` are the word `lw` in any case.
fn is_word(s: &[char], lo: usize, lw: &[char], uw: &[char]) -> (r: bool)
    requires
        lo <= s@.len(),
        lw@.len() == uw@.len(),
    ensures
        r == word_ci(s@.subrange(lo as int, s@.len() as int), lw@, uw@),
{
    let ghost b = s@.subrange(lo as int, s@.len() as int);
    let n = s.len();
    if n - lo != lw.len() {
        return false;
    }
    let mut i: usize = 0;
    while i < lw.len()
        invariant
            i <= lw@.len(),
            lo <= s@.len(),
            n == s@.len(),
            lw@.len() == uw@.len(),
            lw@.len() == s@.len() - lo,
            b == s@.subrange(lo as int, s@.len() as int),
            forall|k: int| 0 <= k < i ==> #[trigger] b[k] == lw@[k] || b[k] == uw@[k],
        decreases lw.len() - i,
    {
        assert(b[i as int] == s@[lo + i]);
        if s[lo + i] != lw[i] && s[lo + i] != uw[i] {
            return false;
        }
        i += 1;
    }
    true
}

/// Whether the characters `k..` of `s` are an empty or a well-formed exponent.
fn exponent_valid(s: &[char], k: usize) -> (r: bool)
    requires
        k <= s@.len(),
    ensures
        r == exponent_ok(s@.subrange(k as int, s@.len() as int)),
{
    let ghost x = s@.subrange(k as int, s@.len() as int);
    if k >= s.len() {
        assert(x.len() == 0);
        return true;
    }
    let mut j = k + 1;
    if j < s.len() && (s[j] == '+' || s[j] == '-') {
        j += 1;
    }
    let j0 = j;
    let ghost y = x.drop_first();
    let ghost z = if y.len() > 0 && is_sign(y[0]) { y.drop_first() } else { y };
    assert(z =~= s@.subrange(j0 as int, s@.len() as int));
    if j >= s.len() {
        return false;
    }
    while j < s.len()
        invariant
            j0 <= j <= s@.len(),
            k < s@.len(),
            x == s@.subrange(k as int, s@.len() as int),
            y == x.drop_first(),
            z == (if y.len() > 0 && is_sign(y[0]) { y.drop_first() } else { y }),
            z == s@.subrange(j0 as int, s@.len() as int),
            forall|i: int| 0 <= i < j - j0 ==> is_digit(#[trigger] z[i]),
        decreases s.len() - j,
    {
        assert(z[j - j0] == s@[j as int]);
        if !('0' <= s[j] && s[j] <= '9') {
            assert(!is_digit(z[j - j0]));
            assert(!all_digits(z));
            return false;
        }
        j += 1;
    }
    true
}

/// Whether the characters `lo..k` of `s` are a well-formed mantissa, and
/// whether one of its digits is not zero.
fn mantissa_valid(s: &[char], lo: usize, k: usize) -> (r: (bool, bool))
    requires
        lo <= k <= s@.len(),
    ensures
        r.0 == mantissa_ok(s@.subrange(lo as int, k as int)),
        r.0 ==> (r.1 <==> exists|j: int|
            0 <= j < k - lo && is_digit(#[trigger] s@.subrange(lo as int, k as int)[j])
                && s@.subrange(lo as int, k as int)[j] != '0'),
{
    let ghost m = s@.subrange(lo as int, k as int);
    let mut seen_dot = false;
    let mut seen_digit = false;
    let mut nonzero = false;
    let mut i = lo;
    while i < k
        invariant
            lo <= i <= k <= s@.len(),
            m == s@.subrange(lo as int, k as int),
            forall|j: int| 0 <= j < i - lo ==> m[j] == '.' || is_digit(#[trigger] m[j]),
            forall|x: int, y: int| 0 <= x < i - lo && 0 <= y < i - lo && #[trigger] m[x] == '.'
                && #[trigger] m[y] == '.' ==> x == y,
            seen_dot <==> exists|j: int| 0 <= j < i - lo && #[trigger] m[j] == '.',
            seen_digit <==> exists|j: int| 0 <= j < i - lo && is_digit(#[trigger] m[j]),
            nonzero <==> exists|j: int| 0 <= j < i - lo && is_digit(#[trigger] m[j]) && m[j] != '0',
        decreases k - i,
    {
        let c = s[i];
        assert(m[i - lo] == c);
        if c == '.' {
            if seen_dot {
                return (false, false);
            }
            seen_dot = true;
        } else if '0' <= c && c <= '9' {
            seen_digit = true;
            if c != '0' {
                nonzero = true;
            }
        } else {
            return (false, false);
        }
        i += 1;
    }
    (seen_digit, nonzero)
}

/// Whether `s` is a number as `str::parse::<f64>` reads one, and its direction.
pub fn check_trend(s: &[char]) -> (r: (bool, i8))
    ensures
        r.0 == is_float_text(s@),
        r.1 as int == trend_sign(s@),
{
    let neg = s.len() > 0 && s[0] == '-';
    let lo: usize = if s.len() > 0 && (s[0] == '+' || s[0] == '-') { 1 } else { 0 };
    let ghost b = float_body(s@);
    assert(b =~= s@.subrange(lo as int, s@.len() as int));
    let nan = is_word(s, lo, &['n', 'a', 'n'], &['N', 'A', 'N']);
    let inf = is_word(s, lo, &['i', 'n', 'f'], &['I', 'N', 'F']) || is_word(
        s,
        lo,
        &['i', 'n', 'f', 'i', 'n', 'i', 't', 'y'],
        &['I', 'N', 'F', 'I', 'N', 'I', 'T', 'Y'],
    );
    proof {
        assert(seq!['n', 'a', 'n'] =~= ['n', 'a', 'n']@);
        assert(seq!['N', 'A', 'N'] =~= ['N', 'A', 'N']@);
        assert(seq!['i', 'n', 'f'] =~= ['i', 'n', 'f']@);
        assert(seq!['I', 'N', 'F'] =~= ['I', 'N', 'F']@);
        assert(seq!['i', 'n', 'f', 'i', 'n', 'i', 't', 'y'] =~= ['i', 'n', 'f', 'i', 'n', 'i', 't', 'y']@);
        assert(seq!['I', 'N', 'F', 'I', 'N', 'I', 'T', 'Y'] =~= ['I', 'N', 'F', 'I', 'N', 'I', 'T', 'Y']@);
    }
    if nan {
        return (true, 0);
    }
    if inf {
        return (true, if neg { -1 } else { 1 });
    }
    let mut k = lo;
    while k < s.len() && s[k] != 'e' && s[k] != 'E'
        invariant
            lo <= k <= s@.len(),
            b == s@.subrange(lo as int, s@.len() as int),
            exp_start(b, 0) == exp_start(b, k - lo),
        decreases s.len() - k,
    {
        assert(b[k - lo] == s@[k as int]);
        k += 1;
    }
    proof {
        if k < s.len() {
            assert(b[k - lo] == s@[k as int]);
        }
        assert(exp_start(b, k - lo) == k - lo);
        assert(b.subrange(0, k - lo) =~= s@.subrange(lo as int, k as int));
        assert(b.subrange(k - lo, b.len() as int) =~= s@.subrange(k as int, s@.len() as int));
    }
    let (mant_ok, nonzero) = mantissa_valid(s, lo, k);
    let exp_ok = exponent_valid(s, k);
    if !(mant_ok && exp_ok) {
        return (false, 0);
    }
    proof {
        let m = s@.subrange(lo as int, k as int);
        if nonzero {
            let j = choose|j: int| 0 <= j < k - lo && is_digit(#[trigger] m[j]) && m[j] != '0';
            assert(b[j] == m[j]);
        }
        if exists|j: int| 0 <= j < exp_start(b, 0) && is_digit(#[trigger] b[j]) && b[j] != '0' {
            let j = choose|j: int| 0 <= j < exp_start(b, 0) && is_digit(#[trigger] b[j]) && b[j] != '0';
            assert(m[j] == b[j]);
        }
    }
    if !nonzero {
        return (true, 0);
    }
    (true, if neg { -1 } else { 1 })
}

} // verus!
