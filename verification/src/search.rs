//! Substring search, prefix matching (literal and case-folded), and byte
//! counting over byte strings.

use vstd::prelude::*;
use crate::ascii::{fold_byte, fold_bytes, fold};

verus! {

/// `n` occurs in `h` as the contiguous run that starts at position `i`.
pub open spec fn matches_at(h: Seq<u8>, n: Seq<u8>, i: int) -> bool {
    0 <= i && i + n.len() <= h.len() && h.subrange(i, i + n.len()) == n
}

/// `n` is a contiguous substring of `h` (trivially so when `n` is empty).
pub open spec fn is_substring(h: Seq<u8>, n: Seq<u8>) -> bool {
    exists|i: int| matches_at(h, n, i)
}

/// `t` begins with `p`, byte for byte.
pub open spec fn is_prefix(p: Seq<u8>, t: Seq<u8>) -> bool {
    p.len() <= t.len() && t.subrange(0, p.len() as int) == p
}

/// Number of occurrences of the byte `c` in `s`.
pub open spec fn count_byte(s: Seq<u8>, c: u8) -> nat
    decreases s.len(),
{
    if s.len() == 0 {
        0
    } else {
        count_byte(s.drop_last(), c) + if s.last() == c {
            1nat
        } else {
            0nat
        }
    }
}

/// A count of one byte never exceeds the length of the string scanned.
pub proof fn lemma_count_le_len(s: Seq<u8>, c: u8)
    ensures
        count_byte(s, c) <= s.len(),
    decreases s.len(),
{
    if s.len() > 0 {
        lemma_count_le_len(s.drop_last(), c);
    }
}

/// `t` begins with `p`, byte for byte.
pub fn starts_with(p: &[u8], t: &[u8]) -> (r: bool)
    ensures
        r == is_prefix(p@, t@),
{
    if p.len() > t.len() {
        return false;
    }
    let mut j: usize = 0;
    while j < p.len()
        invariant
            0 <= j <= p@.len(),
            p@.len() <= t@.len(),
            forall|k: int| 0 <= k < j ==> t@[k] == p@[k],
        decreases p@.len() - j,
    {
        if t[j] != p[j] {
            proof {
                assert(t@.subrange(0, p@.len() as int)[j as int] != p@[j as int]);
            }
            return false;
        }
        j += 1;
    }
    proof {
        assert(t@.subrange(0, p@.len() as int) =~= p@);
    }
    true
}

/// The two byte strings hold the same bytes.
pub fn bytes_eq(a: &[u8], b: &[u8]) -> (r: bool)
    ensures
        r == (a@ == b@),
{
    if a.len() != b.len() {
        return false;
    }
    let r = starts_with(a, b);
    proof {
        assert(b@.subrange(0, a@.len() as int) =~= b@);
        if a@ == b@ {
            assert(is_prefix(a@, b@));
        }
    }
    r
}

/// `t` begins with `p` once both are folded to lower case.
pub fn starts_with_folded(p: &[u8], t: &[u8]) -> (r: bool)
    ensures
        r == is_prefix(fold_bytes(p@), fold_bytes(t@)),
{
    if p.len() > t.len() {
        return false;
    }
    let mut j: usize = 0;
    while j < p.len()
        invariant
            0 <= j <= p@.len(),
            p@.len() <= t@.len(),
            forall|k: int| 0 <= k < j ==> fold_byte(t@[k]) == fold_byte(p@[k]),
        decreases p@.len() - j,
    {
        if fold(t[j]) != fold(p[j]) {
            proof {
                assert(fold_bytes(t@).subrange(0, fold_bytes(p@).len() as int)[j as int]
                    != fold_bytes(p@)[j as int]);
            }
            return false;
        }
        j += 1;
    }
    proof {
        assert(fold_bytes(t@).subrange(0, fold_bytes(p@).len() as int) =~= fold_bytes(p@));
    }
    true
}

/// `t` begins with `p` under the requested case policy.  With `folded` set
/// the comparison folds both strings to lower case first; without it the
/// comparison is byte-for-byte.
pub open spec fn prefix_under_policy(p: Seq<u8>, t: Seq<u8>, folded: bool) -> bool {
    if folded {
        is_prefix(fold_bytes(p), fold_bytes(t))
    } else {
        is_prefix(p, t)
    }
}

/// `text` begins with `prefix` under the requested case policy.
pub fn has_prefix(prefix: &[u8], text: &[u8], folded: bool) -> (r: bool)
    ensures
        r == prefix_under_policy(prefix@, text@, folded),
{
    if folded {
        starts_with_folded(prefix, text)
    } else {
        starts_with(prefix, text)
    }
}

/// `needle` is a contiguous substring of `haystack`.
pub fn contains(haystack: &[u8], needle: &[u8]) -> (r: bool)
    ensures
        r == is_substring(haystack@, needle@),
{
    if needle.len() > haystack.len() {
        return false;
    }
    if needle.len() == 0 {
        proof {
            assert(haystack@.subrange(0, 0) =~= needle@);
            assert(matches_at(haystack@, needle@, 0));
        }
        return true;
    }
    let mut i: usize = 0;
    let last = haystack.len() - needle.len();
    while i <= last
        invariant
            0 <= i <= last + 1,
            last == haystack@.len() - needle@.len(),
            last < usize::MAX,
            1 <= needle@.len() <= haystack@.len(),
            forall|k: int| 0 <= k < i ==> !matches_at(haystack@, needle@, k),
        decreases last + 1 - i,
    {
        let tail: &[u8] = &haystack[i..haystack.len()];
        if starts_with(needle, tail) {
            proof {
                assert(tail@.subrange(0, needle@.len() as int)
                    =~= haystack@.subrange(i as int, i + needle@.len()));
                assert(matches_at(haystack@, needle@, i as int));
            }
            return true;
        }
        proof {
            assert(tail@.subrange(0, needle@.len() as int)
                =~= haystack@.subrange(i as int, i + needle@.len()));
        }
        i += 1;
    }
    false
}

/// Number of occurrences of the byte `c` in `s`, by one linear scan.
pub fn count_char(s: &[u8], c: u8) -> (n: usize)
    ensures
        n == count_byte(s@, c),
        n <= s@.len(),
{
    let mut n: usize = 0;
    let mut i: usize = 0;
    while i < s.len()
        invariant
            0 <= i <= s@.len(),
            n == count_byte(s@.subrange(0, i as int), c),
            n <= i,
        decreases s@.len() - i,
    {
        proof {
            assert(s@.subrange(0, i + 1).drop_last() =~= s@.subrange(0, i as int));
            assert(s@.subrange(0, i + 1).last() == s@[i as int]);
        }
        if s[i] == c {
            n += 1;
        }
        i += 1;
    }
    proof {
        assert(s@.subrange(0, s@.len() as int) =~= s@);
    }
    n
}

} // verus!
