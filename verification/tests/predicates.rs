use steve::ident::is_valid_identifier;
use steve::numeric::is_numeric;
use steve::search::{contains, count_char, has_prefix};

#[test]
fn numeric_accepts_literals() {
    assert!(is_numeric(b"3.14"));
    assert!(is_numeric(b"1e10"));
    assert!(is_numeric(b"0"));
    assert!(is_numeric(b"+1"));
    assert!(is_numeric(b"-2.5e-3"));
    assert!(is_numeric(b".5"));
    assert!(is_numeric(b"5."));
    assert!(is_numeric(b"1E+5"));
    assert!(is_numeric(b"-0.0"));
}

#[test]
fn numeric_rejects_garbage() {
    assert!(!is_numeric(b"abc"));
    assert!(!is_numeric(b""));
    assert!(!is_numeric(b"12abc"));
    assert!(!is_numeric(b" 3"));
    assert!(!is_numeric(b"3 "));
    assert!(!is_numeric(b"."));
    assert!(!is_numeric(b"+"));
    assert!(!is_numeric(b"+."));
    assert!(!is_numeric(b"1e"));
    assert!(!is_numeric(b"1e+"));
    assert!(!is_numeric(b"e5"));
    assert!(!is_numeric(b"1.2.3"));
    assert!(!is_numeric(b"1e5e5"));
    assert!(!is_numeric(b"--1"));
    assert!(!is_numeric(b"1-"));
}

#[test]
fn contains_finds_substrings() {
    assert!(contains(b"hello world", b"lo wo"));
    assert!(contains(b"abc", b""));
    assert!(!contains(b"abc", b"abcd"));
    assert!(contains(b"abc", b"abc"));
    assert!(contains(b"", b""));
    assert!(!contains(b"", b"a"));
    assert!(contains(b"aaa", b"aa"));
    assert!(!contains(b"abc", b"ac"));
    assert!(contains(b"banana", b"nan"));
}

#[test]
fn identifier_accepts_legal_names() {
    assert!(is_valid_identifier(b"x1"));
    assert!(is_valid_identifier(b"_tmp"));
    assert!(is_valid_identifier(b"A_9"));
    assert!(is_valid_identifier(b"union"));
    assert!(is_valid_identifier(b"selfish"));
}

#[test]
fn identifier_rejects_malformed_names() {
    assert!(!is_valid_identifier(b"1x"));
    assert!(!is_valid_identifier(b""));
    assert!(!is_valid_identifier(b"a b"));
    assert!(!is_valid_identifier(b" x"));
    assert!(!is_valid_identifier(b"a-b"));
    assert!(!is_valid_identifier(b"a\xffb"));
}

#[test]
fn identifier_rejects_reserved_words() {
    assert!(!is_valid_identifier(b"fn"));
    assert!(!is_valid_identifier(b"while"));
    assert!(!is_valid_identifier(b"Self"));
    assert!(!is_valid_identifier(b"self"));
    assert!(!is_valid_identifier(b"_"));
    assert!(!is_valid_identifier(b"yield"));
    assert!(!is_valid_identifier(b"async"));
}

#[test]
fn prefix_flag_folds_case_when_set() {
    assert!(has_prefix(b"ABC", b"abcdef", true));
    assert!(has_prefix(b"abc", b"ABCDEF", true));
    assert!(has_prefix(b"abc", b"abcdef", true));
    assert!(!has_prefix(b"abd", b"abcdef", true));
}

#[test]
fn prefix_without_flag_is_literal() {
    assert!(!has_prefix(b"ABC", b"abcdef", false));
    assert!(has_prefix(b"abc", b"abcdef", false));
    assert!(has_prefix(b"", b"abc", false));
    assert!(has_prefix(b"", b"", false));
    assert!(!has_prefix(b"abcd", b"abc", false));
    assert!(has_prefix(b"abc", b"abc", false));
}

#[test]
fn count_char_counts_exact_bytes() {
    assert_eq!(count_char(b"banana", b'a'), 3);
    assert_eq!(count_char(b"", b'x'), 0);
    assert_eq!(count_char(b"banana", b'n'), 2);
    assert_eq!(count_char(b"banana", b'z'), 0);
    assert_eq!(count_char(b"aaaa", b'a'), 4);
}

#[test]
fn non_utf8_bytes_are_tolerated() {
    assert!(!is_numeric(b"\xff3"));
    assert!(contains(b"a\xffb", b"\xff"));
    assert!(!contains(b"abc", b"\xff"));
    assert!(has_prefix(b"\xff", b"\xffzz", false));
    assert_eq!(count_char(b"\xfe\xff\xfe", 0xfe), 2);
}

#[test]
fn predicates_are_idempotent() {
    assert_eq!(is_numeric(b"3.14"), is_numeric(b"3.14"));
    assert_eq!(is_numeric(b"12abc"), is_numeric(b"12abc"));
    assert_eq!(contains(b"hello", b"ell"), contains(b"hello", b"ell"));
    assert_eq!(is_valid_identifier(b"_tmp"), is_valid_identifier(b"_tmp"));
    assert_eq!(
        has_prefix(b"ABC", b"abcdef", true),
        has_prefix(b"ABC", b"abcdef", true)
    );
    assert_eq!(count_char(b"banana", b'a'), count_char(b"banana", b'a'));
}
