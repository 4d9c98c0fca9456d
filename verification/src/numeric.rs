//! Recognition of floating-point numeric literals written in scientific
//! notation: an optional sign, a mantissa of digits with an optional
//! fractional part, and an optional exponent.

use vstd::prelude::*;
use crate::ascii::{digit, is_digit, is_sign, DOT, LOWER_E, MINUS, PLUS, UPPER_E};

verus! {

/// Every byte of `s` is a digit.
pub open spec fn all_digits(s: Seq<u8>) -> bool {
    forall|i: int| 0 <= i < s.len() ==> is_digit(#[trigger] s[i])
}

/// A mantissa: either a non-empty run of digits, or two runs of digits
/// around a single dot, with at least one digit in all.
pub open spec fn is_mantissa(s: Seq<u8>) -> bool {
    ||| (s.len() > 0 && all_digits(s))
    ||| (exists|d: int|
        0 <= d < s.len() && s[d] == DOT && s.len() > 1 && all_digits(s.subrange(0, d))
            && all_digits(s.subrange(d + 1, s.len() as int)))
}

/// An optional sign followed by a non-empty run of digits.
pub open spec fn is_signed_digits(s: Seq<u8>) -> bool {
    ||| (s.len() > 0 && all_digits(s))
    ||| (s.len() > 1 && is_sign(s[0]) && all_digits(s.subrange(1, s.len() as int)))
}

/// An exponent marker followed by an optionally signed digit run.
pub open spec fn is_exponent(s: Seq<u8>) -> bool {
    s.len() >= 2 && (s[0] == LOWER_E || s[0] == UPPER_E) && is_signed_digits(
        s.subrange(1, s.len() as int),
    )
}

/// `s` without its leading sign mark, if it carries one.
pub open spec fn strip_sign(s: Seq<u8>) -> Seq<u8> {
    if s.len() > 0 && is_sign(s[0]) {
        s.subrange(1, s.len() as int)
    } else {
        s
    }
}

/// Position `e` splits `body` into a mantissa and an optional exponent.
pub open spec fn split_at_ok(body: Seq<u8>, e: int) -> bool {
    0 <= e <= body.len() && is_mantissa(body.subrange(0, e)) && (e == body.len() || is_exponent(
        body.subrange(e, body.len() as int),
    ))
}

/// `s` matches the numeric-literal grammar exactly: an optional sign, then a
/// mantissa, then an optional exponent, with nothing before or after.
pub open spec fn is_numeric_literal(s: Seq<u8>) -> bool {
    exists|e: int| split_at_ok(strip_sign(s), e)
}

/// The digit runs the scanner found: digits reach from the start to `a`; when
/// a dot follows `a`, fractional digits reach from past the dot to `b`, and
/// otherwise `b` is `a`.
pub open spec fn scan_runs(body: Seq<u8>, a: int, b: int, has_dot: bool) -> bool {
    &&& 0 <= a <= body.len()
    &&& (forall|j: int| 0 <= j < a ==> is_digit(#[trigger] body[j]))
    &&& (a < body.len() ==> !is_digit(body[a]))
    &&& (has_dot <==> (a < body.len() && body[a] == DOT))
    &&& (has_dot ==> a + 1 <= b <= body.len())
    &&& (has_dot ==> forall|j: int| a + 1 <= j < b ==> is_digit(#[trigger] body[j]))
    &&& (has_dot ==> (b < body.len() ==> !is_digit(body[b])))
    &&& (!has_dot ==> b == a)
}

/// A digit run of `s` carried into the digits of `s` themselves.
proof fn lemma_all_digits_transfer(s: Seq<u8>, lo: int, hi: int)
    requires
        0 <= lo <= hi <= s.len(),
        all_digits(s.subrange(lo, hi)),
    ensures
        forall|j: int| lo <= j < hi ==> is_digit(#[trigger] s[j]),
{
    assert forall|j: int| lo <= j < hi implies is_digit(s[j]) by {
        assert(is_digit(s.subrange(lo, hi)[j - lo]));
    }
}

/// Digits of `s` over a range collected into a digit run.
proof fn lemma_all_digits_intro(s: Seq<u8>, lo: int, hi: int)
    requires
        0 <= lo <= hi <= s.len(),
        forall|j: int| lo <= j < hi ==> is_digit(#[trigger] s[j]),
    ensures
        all_digits(s.subrange(lo, hi)),
{
    assert forall|j: int| 0 <= j < s.subrange(lo, hi).len() implies is_digit(
        #[trigger] s.subrange(lo, hi)[j],
    ) by {
        assert(is_digit(s[lo + j]));
    }
}

/// Any split of `body` into a mantissa and an optional exponent puts the
/// mantissa end exactly at `b`, and leaves the scanner's mantissa non-empty.
proof fn lemma_split_is_pinned(body: Seq<u8>, a: int, b: int, has_dot: bool, e: int)
    requires
        scan_runs(body, a, b, has_dot),
        0 <= e <= body.len(),
        is_mantissa(body.subrange(0, e)),
        e < body.len() ==> (body[e] == LOWER_E || body[e] == UPPER_E),
    ensures
        e == b,
        a > 0 || (has_dot && b > a + 1),
{
    let m = body.subrange(0, e);
    if m.len() > 0 && all_digits(m) {
        lemma_all_digits_transfer(body, 0, e);
        if e > a {
            assert(is_digit(body[a]));
            assert(false);
        }
        if e < a {
            assert(is_digit(body[e]));
            assert(false);
        }
        assert(e == a);
        if has_dot {
            assert(body[e] == DOT);
            assert(false);
        }
    } else {
        let d = choose|d: int|
            0 <= d < m.len() && m[d] == DOT && m.len() > 1 && all_digits(m.subrange(0, d))
                && all_digits(m.subrange(d + 1, m.len() as int));
        assert(m.subrange(0, d) =~= body.subrange(0, d));
        assert(m.subrange(d + 1, m.len() as int) =~= body.subrange(d + 1, e));
        lemma_all_digits_transfer(body, 0, d);
        lemma_all_digits_transfer(body, d + 1, e);
        assert(body[d] == DOT);
        if d > a {
            assert(is_digit(body[a]));
            assert(false);
        }
        if d < a {
            assert(is_digit(body[d]));
            assert(false);
        }
        assert(d == a);
        assert(has_dot);
        if e > b {
            assert(is_digit(body[b]));
            assert(false);
        }
        if e < b {
            assert(is_digit(body[e]));
            assert(false);
        }
        assert(e == b);
        if a == 0 {
            assert(b == e == m.len());
            assert(b > a + 1);
        }
    }
}

/// With no digit before the dot and none after it, no split of `body` works.
proof fn lemma_no_mantissa(body: Seq<u8>, a: int, b: int, has_dot: bool)
    requires
        scan_runs(body, a, b, has_dot),
        !(a > 0 || (has_dot && b > a + 1)),
    ensures
        forall|e: int| !(#[trigger] split_at_ok(body, e)),
{
    assert forall|e: int| !(#[trigger] split_at_ok(body, e)) by {
        if split_at_ok(body, e) {
            if e < body.len() {
                assert(body.subrange(e, body.len() as int)[0] == body[e]);
            }
            lemma_split_is_pinned(body, a, b, has_dot, e);
        }
    }
}

/// With a sound mantissa but no exponent marker at its end, no split of
/// `body` works.
proof fn lemma_no_exponent_head(body: Seq<u8>, a: int, b: int, has_dot: bool)
    requires
        scan_runs(body, a, b, has_dot),
        b < body.len(),
        body[b] != LOWER_E && body[b] != UPPER_E,
    ensures
        forall|e: int| !(#[trigger] split_at_ok(body, e)),
{
    assert forall|e: int| !(#[trigger] split_at_ok(body, e)) by {
        if split_at_ok(body, e) {
            if e < body.len() {
                assert(body.subrange(e, body.len() as int)[0] == body[e]);
            }
            lemma_split_is_pinned(body, a, b, has_dot, e);
        }
    }
}

/// With an exponent marker whose digits do not reach the end of `body`, or
/// are missing, no split of `body` works.  `c` is where the exponent's digits
/// would start, past any sign; the digit run from `c` ends at `d2`.
proof fn lemma_no_exponent_digits(body: Seq<u8>, a: int, b: int, has_dot: bool, c: int, d2: int)
    requires
        scan_runs(body, a, b, has_dot),
        b < body.len(),
        body[b] == LOWER_E || body[b] == UPPER_E,
        if b + 1 < body.len() && is_sign(body[b + 1]) {
            c == b + 2
        } else {
            c == b + 1
        },
        c <= d2 <= body.len(),
        forall|j: int| c <= j < d2 ==> is_digit(#[trigger] body[j]),
        d2 < body.len() ==> !is_digit(body[d2]),
        !(d2 == body.len() && d2 > c),
    ensures
        forall|e: int| !(#[trigger] split_at_ok(body, e)),
{
    assert forall|e: int| !(#[trigger] split_at_ok(body, e)) by {
        if split_at_ok(body, e) {
            if e < body.len() {
                assert(body.subrange(e, body.len() as int)[0] == body[e]);
            }
            lemma_split_is_pinned(body, a, b, has_dot, e);
            assert(e == b && b < body.len());
            let u = body.subrange(b, body.len() as int);
            assert(is_exponent(u));
            let v = u.subrange(1, u.len() as int);
            assert(v =~= body.subrange(b + 1, body.len() as int));
            if v.len() > 0 && all_digits(v) {
                lemma_all_digits_transfer(body, b + 1, body.len() as int);
                assert(c == b + 1);
                assert(false);
            } else {
                assert(v.len() > 1 && is_sign(v[0]) && all_digits(v.subrange(1, v.len() as int)));
                assert(v[0] == body[b + 1]);
                assert(v.subrange(1, v.len() as int) =~= body.subrange(b + 2, body.len() as int));
                lemma_all_digits_transfer(body, b + 2, body.len() as int);
                assert(c == b + 2);
                assert(false);
            }
        }
    }
}

/// The scanner's digit runs form a sound mantissa up to `b`.
proof fn lemma_scan_mantissa(body: Seq<u8>, a: int, b: int, has_dot: bool)
    requires
        scan_runs(body, a, b, has_dot),
        a > 0 || (has_dot && b > a + 1),
    ensures
        is_mantissa(body.subrange(0, b)),
{
    if has_dot {
        lemma_all_digits_intro(body, 0, a);
        lemma_all_digits_intro(body, a + 1, b);
        let m = body.subrange(0, b);
        assert(m.subrange(0, a) =~= body.subrange(0, a));
        assert(m.subrange(a + 1, m.len() as int) =~= body.subrange(a + 1, b));
        assert(m[a] == DOT);
        assert(is_mantissa(m));
    } else {
        lemma_all_digits_intro(body, 0, a);
        let m = body.subrange(0, b);
        assert(m =~= body.subrange(0, a));
        assert(is_mantissa(m));
    }
}

/// Digits that reach from `c` to the end of `body`, past the exponent marker
/// at `b` and any sign, form a sound exponent.
proof fn lemma_scan_exponent(body: Seq<u8>, b: int, c: int)
    requires
        0 <= b < body.len(),
        body[b] == LOWER_E || body[b] == UPPER_E,
        if b + 1 < body.len() && is_sign(body[b + 1]) {
            c == b + 2
        } else {
            c == b + 1
        },
        c < body.len(),
        forall|j: int| c <= j < body.len() ==> is_digit(#[trigger] body[j]),
    ensures
        is_exponent(body.subrange(b, body.len() as int)),
{
    lemma_all_digits_intro(body, c, body.len() as int);
    let u = body.subrange(b, body.len() as int);
    let v = u.subrange(1, u.len() as int);
    assert(u[0] == body[b]);
    if c == b + 1 {
        assert(v =~= body.subrange(c, body.len() as int));
        assert(is_signed_digits(v));
    } else {
        assert(v[0] == body[b + 1]);
        assert(v.subrange(1, v.len() as int) =~= body.subrange(c, body.len() as int));
        assert(is_signed_digits(v));
    }
}

/// First position at or after `from` that does not hold a digit.
fn digit_run_end(s: &[u8], from: usize) -> (end: usize)
    requires
        from <= s@.len(),
    ensures
        from <= end <= s@.len(),
        forall|j: int| from <= j < end ==> is_digit(#[trigger] s@[j]),
        end < s@.len() ==> !is_digit(s@[end as int]),
{
    let mut i: usize = from;
    while i < s.len() && digit(s[i])
        invariant
            from <= i <= s@.len(),
            forall|j: int| from <= j < i ==> is_digit(#[trigger] s@[j]),
        decreases s@.len() - i,
    {
        i += 1;
    }
    i
}

/// `s` parses in full as a floating-point numeric literal.
pub fn is_numeric(s: &[u8]) -> (r: bool)
    ensures
        r == is_numeric_literal(s@),
{
    let off: usize = if s.len() > 0 && (s[0] == PLUS || s[0] == MINUS) {
        1
    } else {
        0
    };
    let body: &[u8] = &s[off..s.len()];
    proof {
        assert(body@ =~= strip_sign(s@));
    }
    let ghost bv = body@;
    let n: usize = body.len();
    let a: usize = digit_run_end(body, 0);
    let mut has_dot = false;
    let mut b: usize = a;
    if a < n && body[a] == DOT {
        has_dot = true;
        b = digit_run_end(body, a + 1);
    }
    proof {
        assert(scan_runs(bv, a as int, b as int, has_dot));
    }
    if !(a > 0 || (has_dot && b > a + 1)) {
        proof {
            lemma_no_mantissa(bv, a as int, b as int, has_dot);
        }
        return false;
    }
    proof {
        lemma_scan_mantissa(bv, a as int, b as int, has_dot);
    }
    if b == n {
        proof {
            assert(split_at_ok(bv, b as int));
        }
        return true;
    }
    let hbyte = body[b];
    if hbyte != LOWER_E && hbyte != UPPER_E {
        proof {
            lemma_no_exponent_head(bv, a as int, b as int, has_dot);
        }
        return false;
    }
    let mut c: usize = b + 1;
    if c < n && (body[c] == PLUS || body[c] == MINUS) {
        c += 1;
    }
    let d2: usize = digit_run_end(body, c);
    if d2 == n && d2 > c {
        proof {
            lemma_scan_exponent(bv, b as int, c as int);
            assert(split_at_ok(bv, b as int));
        }
        true
    } else {
        proof {
            lemma_no_exponent_digits(bv, a as int, b as int, has_dot, c as int, d2 as int);
        }
        false
    }
}

} // verus!
