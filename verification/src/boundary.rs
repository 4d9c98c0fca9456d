//! The integer encoding used when predicate results cross the foreign call
//! boundary: booleans as a four-byte integer restricted to 0 and 1, counts as
//! a non-negative four-byte integer, and a defined zero result for an absent
//! (null) string reference in place of any argument.

use vstd::prelude::*;
use crate::ident::{is_identifier, is_valid_identifier};
use crate::numeric::{is_numeric, is_numeric_literal};
use crate::search::{
    contains, count_byte, count_char, has_prefix, is_substring, prefix_under_policy,
};

verus! {

/// A boolean carried across the boundary: 1 for true, 0 for false, never any
/// other value.
pub open spec fn encode_bool(b: bool) -> int {
    if b {
        1
    } else {
        0
    }
}

/// Whether `txt` parses in full as a floating-point numeric literal, encoded
/// for the boundary.  An absent reference yields the defined result 0.
pub fn strisnumber(txt: Option<&[u8]>) -> (r: i32)
    ensures
        r == 0 || r == 1,
        txt matches Some(t) ==> r == encode_bool(is_numeric_literal(t@)),
        txt is None ==> r == 0,
{
    match txt {
        Some(t) => if is_numeric(t) {
            1
        } else {
            0
        },
        None => 0,
    }
}

/// Whether `pname` occurs as a contiguous substring of `ptxt`, encoded for
/// the boundary.  An absent reference yields the defined result 0.
pub fn strhasname(ptxt: Option<&[u8]>, pname: Option<&[u8]>) -> (r: i32)
    ensures
        r == 0 || r == 1,
        ptxt matches Some(t) ==> pname matches Some(n) ==> r == encode_bool(
            is_substring(t@, n@),
        ),
        ptxt is None || pname is None ==> r == 0,
{
    match (ptxt, pname) {
        (Some(t), Some(n)) => if contains(t, n) {
            1
        } else {
            0
        },
        _ => 0,
    }
}

/// Whether `pname` is a legal bare identifier, encoded for the boundary.
/// An absent reference yields the defined result 0.
pub fn strokname(pname: Option<&[u8]>) -> (r: i32)
    ensures
        r == 0 || r == 1,
        pname matches Some(n) ==> r == encode_bool(is_identifier(n@)),
        pname is None ==> r == 0,
{
    match pname {
        Some(n) => if is_valid_identifier(n) {
            1
        } else {
            0
        },
        None => 0,
    }
}

/// Whether `plong` begins with `pshort`, encoded for the boundary.  The case
/// flag is inverted against its name: a nonzero `casesensitive` folds both
/// strings to lower case before comparing, and zero compares byte for byte.
/// An absent reference yields the defined result 0.
pub fn strbegin(pshort: Option<&[u8]>, plong: Option<&[u8]>, casesensitive: i32) -> (r: i32)
    ensures
        r == 0 || r == 1,
        pshort matches Some(s) ==> plong matches Some(l) ==> r == encode_bool(
            prefix_under_policy(s@, l@, casesensitive != 0),
        ),
        pshort is None || plong is None ==> r == 0,
{
    match (pshort, plong) {
        (Some(s), Some(l)) => if has_prefix(s, l, casesensitive != 0) {
            1
        } else {
            0
        },
        _ => 0,
    }
}

/// The number of occurrences of the byte `c` in `s`, encoded for the
/// boundary: non-negative and never above the length of the input.  An
/// absent reference yields the defined result 0.
pub fn strsymbolcount(s: Option<&[u8]>, c: u8) -> (r: i32)
    requires
        s matches Some(t) ==> t@.len() <= i32::MAX,
    ensures
        s matches Some(t) ==> r == count_byte(t@, c) && 0 <= r <= t@.len(),
        s is None ==> r == 0,
{
    match s {
        Some(t) => {
            let n = count_char(t, c);
            n as i32
        },
        None => 0,
    }
}

/// Every predicate is a pure function of its inputs: each contract pins the
/// result to a spec function of the input alone, so two results of one
/// predicate on identical inputs are identical, with no state drift between
/// calls.
pub proof fn lemma_predicates_deterministic(
    s: Seq<u8>,
    h: Seq<u8>,
    nd: Seq<u8>,
    w: Seq<u8>,
    p: Seq<u8>,
    t: Seq<u8>,
    folded: bool,
    u: Seq<u8>,
    c: u8,
    num1: bool,
    num2: bool,
    con1: bool,
    con2: bool,
    idn1: bool,
    idn2: bool,
    pre1: bool,
    pre2: bool,
    cnt1: nat,
    cnt2: nat,
)
    requires
        num1 == is_numeric_literal(s),
        num2 == is_numeric_literal(s),
        con1 == is_substring(h, nd),
        con2 == is_substring(h, nd),
        idn1 == is_identifier(w),
        idn2 == is_identifier(w),
        pre1 == prefix_under_policy(p, t, folded),
        pre2 == prefix_under_policy(p, t, folded),
        cnt1 == count_byte(u, c),
        cnt2 == count_byte(u, c),
    ensures
        num1 == num2,
        con1 == con2,
        idn1 == idn2,
        pre1 == pre2,
        cnt1 == cnt2,
{
}

} // verus!
