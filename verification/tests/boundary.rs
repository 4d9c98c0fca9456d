use steve::boundary::{strbegin, strhasname, strisnumber, strokname, strsymbolcount};

#[test]
fn boolean_results_are_zero_or_one() {
    assert_eq!(strisnumber(Some(b"3.14".as_slice())), 1);
    assert_eq!(strisnumber(Some(b"abc".as_slice())), 0);
    assert_eq!(strhasname(Some(b"hello world".as_slice()), Some(b"lo wo".as_slice())), 1);
    assert_eq!(strhasname(Some(b"abc".as_slice()), Some(b"abcd".as_slice())), 0);
    assert_eq!(strokname(Some(b"_tmp".as_slice())), 1);
    assert_eq!(strokname(Some(b"1x".as_slice())), 0);
}

#[test]
fn begin_flag_semantics_are_inverted() {
    assert_eq!(strbegin(Some(b"ABC".as_slice()), Some(b"abcdef".as_slice()), 1), 1);
    assert_eq!(strbegin(Some(b"ABC".as_slice()), Some(b"abcdef".as_slice()), 0), 0);
    assert_eq!(strbegin(Some(b"abc".as_slice()), Some(b"abcdef".as_slice()), 0), 1);
    assert_eq!(strbegin(Some(b"ABC".as_slice()), Some(b"abcdef".as_slice()), -7), 1);
}

#[test]
fn symbol_count_is_bounded_by_length() {
    assert_eq!(strsymbolcount(Some(b"banana".as_slice()), b'a'), 3);
    assert_eq!(strsymbolcount(Some(b"".as_slice()), b'x'), 0);
    let counted = strsymbolcount(Some(b"mississippi".as_slice()), b's');
    assert_eq!(counted, 4);
    assert!(counted >= 0);
    assert!((counted as usize) <= b"mississippi".len());
}

#[test]
fn absent_references_yield_defined_zero() {
    assert_eq!(strisnumber(None), 0);
    assert_eq!(strhasname(None, Some(b"a".as_slice())), 0);
    assert_eq!(strhasname(Some(b"a".as_slice()), None), 0);
    assert_eq!(strhasname(None, None), 0);
    assert_eq!(strokname(None), 0);
    assert_eq!(strbegin(None, Some(b"a".as_slice()), 1), 0);
    assert_eq!(strbegin(Some(b"a".as_slice()), None, 0), 0);
    assert_eq!(strsymbolcount(None, b'a'), 0);
}

#[test]
fn repeated_boundary_calls_agree() {
    assert_eq!(
        strisnumber(Some(b"1e10".as_slice())),
        strisnumber(Some(b"1e10".as_slice()))
    );
    assert_eq!(
        strbegin(Some(b"ABC".as_slice()), Some(b"abcdef".as_slice()), 1),
        strbegin(Some(b"ABC".as_slice()), Some(b"abcdef".as_slice()), 1)
    );
    assert_eq!(
        strsymbolcount(Some(b"banana".as_slice()), b'a'),
        strsymbolcount(Some(b"banana".as_slice()), b'a')
    );
}
