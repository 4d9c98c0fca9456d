//! Byte-level ASCII classification and case folding shared by the predicates.

use vstd::prelude::*;

verus! {

/// ASCII code of '0'.
pub const DIGIT_ZERO: u8 = 0x30;

/// ASCII code of '9'.
pub const DIGIT_NINE: u8 = 0x39;

/// ASCII code of 'A'.
pub const UPPER_A: u8 = 0x41;

/// ASCII code of 'Z'.
pub const UPPER_Z: u8 = 0x5a;

/// ASCII code of 'a'.
pub const LOWER_A: u8 = 0x61;

/// ASCII code of 'z'.
pub const LOWER_Z: u8 = 0x7a;

/// ASCII code of '+'.
pub const PLUS: u8 = 0x2b;

/// ASCII code of '-'.
pub const MINUS: u8 = 0x2d;

/// ASCII code of '.'.
pub const DOT: u8 = 0x2e;

/// ASCII code of 'e'.
pub const LOWER_E: u8 = 0x65;

/// ASCII code of 'E'.
pub const UPPER_E: u8 = 0x45;

/// ASCII code of '_'.
pub const UNDERSCORE: u8 = 0x5f;

/// Distance between an ASCII upper-case letter and its lower-case form.
pub const CASE_GAP: u8 = 0x20;

/// The byte is an ASCII decimal digit.
pub open spec fn is_digit(b: u8) -> bool {
    DIGIT_ZERO <= b && b <= DIGIT_NINE
}

/// The byte is an ASCII letter.
pub open spec fn is_letter(b: u8) -> bool {
    (LOWER_A <= b && b <= LOWER_Z) || (UPPER_A <= b && b <= UPPER_Z)
}

/// The byte is a sign mark of a numeric literal.
pub open spec fn is_sign(b: u8) -> bool {
    b == PLUS || b == MINUS
}

/// The byte with any ASCII upper-case letter folded to lower case.
pub open spec fn fold_byte(b: u8) -> u8 {
    if UPPER_A <= b && b <= UPPER_Z {
        (b + CASE_GAP) as u8
    } else {
        b
    }
}

/// A whole byte string folded to lower case, byte by byte.
pub open spec fn fold_bytes(s: Seq<u8>) -> Seq<u8> {
    s.map_values(|b: u8| fold_byte(b))
}

/// Digit test, executable form.
pub fn digit(b: u8) -> (r: bool)
    ensures
        r == is_digit(b),
{
    DIGIT_ZERO <= b && b <= DIGIT_NINE
}

/// Case folding of one byte, executable form.
pub fn fold(b: u8) -> (r: u8)
    ensures
        r == fold_byte(b),
{
    if UPPER_A <= b && b <= UPPER_Z {
        b + CASE_GAP
    } else {
        b
    }
}

} // verus!
