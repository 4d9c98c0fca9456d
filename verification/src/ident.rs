//! Identifier validation: the bare-identifier grammar of the host language
//! (ASCII letter or underscore head, letters, digits or underscores after,
//! non-empty) minus its reserved words.

use vstd::prelude::*;
use vstd::string::StringSliceAdditionalSpecFns;
use crate::ascii::{is_digit, is_letter, UNDERSCORE};
use crate::search::bytes_eq;

verus! {

/// The byte may open an identifier.
pub open spec fn is_ident_start(b: u8) -> bool {
    is_letter(b) || b == UNDERSCORE
}

/// The byte may continue an identifier.
pub open spec fn is_ident_cont(b: u8) -> bool {
    is_letter(b) || is_digit(b) || b == UNDERSCORE
}

/// The byte string has identifier shape: non-empty, a letter or underscore
/// first, and only letters, digits or underscores throughout.
pub open spec fn is_ident_shape(s: Seq<u8>) -> bool {
    &&& s.len() > 0
    &&& is_ident_start(s[0])
    &&& forall|i: int| 0 <= i < s.len() ==> is_ident_cont(#[trigger] s[i])
}

/// The byte string spells a reserved word of the host grammar, or the lone
/// underscore, which the grammar keeps as a wildcard.
pub open spec fn is_reserved(s: Seq<u8>) -> bool {
    ||| s == "_".spec_bytes()
    ||| s == "abstract".spec_bytes()
    ||| s == "as".spec_bytes()
    ||| s == "async".spec_bytes()
    ||| s == "await".spec_bytes()
    ||| s == "become".spec_bytes()
    ||| s == "box".spec_bytes()
    ||| s == "break".spec_bytes()
    ||| s == "const".spec_bytes()
    ||| s == "continue".spec_bytes()
    ||| s == "crate".spec_bytes()
    ||| s == "do".spec_bytes()
    ||| s == "dyn".spec_bytes()
    ||| s == "else".spec_bytes()
    ||| s == "enum".spec_bytes()
    ||| s == "extern".spec_bytes()
    ||| s == "false".spec_bytes()
    ||| s == "final".spec_bytes()
    ||| s == "fn".spec_bytes()
    ||| s == "for".spec_bytes()
    ||| s == "if".spec_bytes()
    ||| s == "impl".spec_bytes()
    ||| s == "in".spec_bytes()
    ||| s == "let".spec_bytes()
    ||| s == "loop".spec_bytes()
    ||| s == "macro".spec_bytes()
    ||| s == "match".spec_bytes()
    ||| s == "mod".spec_bytes()
    ||| s == "move".spec_bytes()
    ||| s == "mut".spec_bytes()
    ||| s == "override".spec_bytes()
    ||| s == "priv".spec_bytes()
    ||| s == "pub".spec_bytes()
    ||| s == "ref".spec_bytes()
    ||| s == "return".spec_bytes()
    ||| s == "Self".spec_bytes()
    ||| s == "self".spec_bytes()
    ||| s == "static".spec_bytes()
    ||| s == "struct".spec_bytes()
    ||| s == "super".spec_bytes()
    ||| s == "trait".spec_bytes()
    ||| s == "true".spec_bytes()
    ||| s == "try".spec_bytes()
    ||| s == "type".spec_bytes()
    ||| s == "typeof".spec_bytes()
    ||| s == "unsafe".spec_bytes()
    ||| s == "unsized".spec_bytes()
    ||| s == "use".spec_bytes()
    ||| s == "virtual".spec_bytes()
    ||| s == "where".spec_bytes()
    ||| s == "while".spec_bytes()
    ||| s == "yield".spec_bytes()
}

/// The byte string is a legal bare identifier: identifier shape and not a
/// reserved word.
pub open spec fn is_identifier(s: Seq<u8>) -> bool {
    is_ident_shape(s) && !is_reserved(s)
}

/// The byte string spells a reserved word of the host grammar.
pub fn is_reserved_word(s: &[u8]) -> (r: bool)
    ensures
        r == is_reserved(s@),
{
    bytes_eq(s, "_".as_bytes()) || bytes_eq(s, "abstract".as_bytes()) || bytes_eq(
        s,
        "as".as_bytes(),
    ) || bytes_eq(s, "async".as_bytes()) || bytes_eq(s, "await".as_bytes()) || bytes_eq(
        s,
        "become".as_bytes(),
    ) || bytes_eq(s, "box".as_bytes()) || bytes_eq(s, "break".as_bytes()) || bytes_eq(
        s,
        "const".as_bytes(),
    ) || bytes_eq(s, "continue".as_bytes()) || bytes_eq(s, "crate".as_bytes()) || bytes_eq(
        s,
        "do".as_bytes(),
    ) || bytes_eq(s, "dyn".as_bytes()) || bytes_eq(s, "else".as_bytes()) || bytes_eq(
        s,
        "enum".as_bytes(),
    ) || bytes_eq(s, "extern".as_bytes()) || bytes_eq(s, "false".as_bytes()) || bytes_eq(
        s,
        "final".as_bytes(),
    ) || bytes_eq(s, "fn".as_bytes()) || bytes_eq(s, "for".as_bytes()) || bytes_eq(
        s,
        "if".as_bytes(),
    ) || bytes_eq(s, "impl".as_bytes()) || bytes_eq(s, "in".as_bytes()) || bytes_eq(
        s,
        "let".as_bytes(),
    ) || bytes_eq(s, "loop".as_bytes()) || bytes_eq(s, "macro".as_bytes()) || bytes_eq(
        s,
        "match".as_bytes(),
    ) || bytes_eq(s, "mod".as_bytes()) || bytes_eq(s, "move".as_bytes()) || bytes_eq(
        s,
        "mut".as_bytes(),
    ) || bytes_eq(s, "override".as_bytes()) || bytes_eq(s, "priv".as_bytes()) || bytes_eq(
        s,
        "pub".as_bytes(),
    ) || bytes_eq(s, "ref".as_bytes()) || bytes_eq(s, "return".as_bytes()) || bytes_eq(
        s,
        "Self".as_bytes(),
    ) || bytes_eq(s, "self".as_bytes()) || bytes_eq(s, "static".as_bytes()) || bytes_eq(
        s,
        "struct".as_bytes(),
    ) || bytes_eq(s, "super".as_bytes()) || bytes_eq(s, "trait".as_bytes()) || bytes_eq(
        s,
        "true".as_bytes(),
    ) || bytes_eq(s, "try".as_bytes()) || bytes_eq(s, "type".as_bytes()) || bytes_eq(
        s,
        "typeof".as_bytes(),
    ) || bytes_eq(s, "unsafe".as_bytes()) || bytes_eq(s, "unsized".as_bytes()) || bytes_eq(
        s,
        "use".as_bytes(),
    ) || bytes_eq(s, "virtual".as_bytes()) || bytes_eq(s, "where".as_bytes()) || bytes_eq(
        s,
        "while".as_bytes(),
    ) || bytes_eq(s, "yield".as_bytes())
}

/// The byte string is a legal bare identifier.
pub fn is_valid_identifier(name: &[u8]) -> (r: bool)
    ensures
        r == is_identifier(name@),
{
    if name.len() == 0 {
        return false;
    }
    let head = name[0];
    let head_ok = (0x61 <= head && head <= 0x7a) || (0x41 <= head && head <= 0x5a) || head
        == UNDERSCORE;
    if !head_ok {
        return false;
    }
    let mut i: usize = 0;
    while i < name.len()
        invariant
            0 <= i <= name@.len(),
            forall|k: int| 0 <= k < i ==> is_ident_cont(#[trigger] name@[k]),
        decreases name@.len() - i,
    {
        let b = name[i];
        let ok = (0x61 <= b && b <= 0x7a) || (0x41 <= b && b <= 0x5a) || (0x30 <= b && b <= 0x39)
            || b == UNDERSCORE;
        if !ok {
            return false;
        }
        i += 1;
    }
    !is_reserved_word(name)
}

/// An identifier is never empty, never opens with a digit, and never holds a
/// space.
pub proof fn lemma_identifier_rejections(s: Seq<u8>)
    ensures
        s.len() == 0 ==> !is_identifier(s),
        s.len() > 0 && is_digit(s[0]) ==> !is_identifier(s),
        (exists|i: int| 0 <= i < s.len() && s[i] == 0x20) ==> !is_identifier(s),
{
    if exists|i: int| 0 <= i < s.len() && s[i] == 0x20 {
        let i = choose|i: int| 0 <= i < s.len() && s[i] == 0x20;
        assert(!is_ident_cont(s[i]));
    }
}

} // verus!
