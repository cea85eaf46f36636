use rds::array::text::{extract_in_between, find, parse_usize, starts_at, trim};

#[test]
fn find_gives_first_position() {
    assert_eq!(find(b"abcabc", b"bc", 0), Some(1));
    assert_eq!(find(b"abcabc", b"bc", 2), Some(4));
    assert_eq!(find(b"abcabc", b"bc", 5), None);
    assert_eq!(find(b"abcabc", b"abcabc", 0), Some(0));
    assert_eq!(find(b"abc", b"abcd", 0), None);
    assert_eq!(find(b"abc", b"x", 0), None);
    assert_eq!(find(b"abc", b"", 3), Some(3));
    assert_eq!(find(b"abc", b"c", 7), None);
    assert!(starts_at(b"abc", b"bc", 1));
    assert!(!starts_at(b"abc", b"ab", 1));
}

#[test]
fn extract_takes_text_between() {
    let source = b"{'descr': '<i8', 'fortran_order': False, 'shape': (5,), }";
    assert_eq!(extract_in_between(source, b"'descr': '", b"',"), Some(b"<i8".to_vec()));
    assert_eq!(extract_in_between(source, b"'fortran_order': ", b","), Some(b"False".to_vec()));
    assert_eq!(extract_in_between(source, b"'shape': (", b")"), Some(b"5,".to_vec()));
    assert_eq!(extract_in_between(source, b"'order': ", b","), None);
    assert_eq!(extract_in_between(source, b"'shape': (", b"]"), None);
    assert_eq!(extract_in_between(b"a,b,c", b",", b","), Some(b"b".to_vec()));
    assert_eq!(extract_in_between(b"ab", b"a", b"b"), Some(Vec::new()));
}

#[test]
fn trim_drops_white_space() {
    assert_eq!(trim(b"  12 \t\n"), b"12".to_vec());
    assert_eq!(trim(b"1 2"), b"1 2".to_vec());
    assert_eq!(trim(b" \r\n "), Vec::<u8>::new());
    assert_eq!(trim(b""), Vec::<u8>::new());
    assert_eq!(trim(b"\x0b\x0cx"), b"x".to_vec());
}

#[test]
fn parse_usize_reads_decimal_numbers() {
    assert_eq!(parse_usize(b"0"), Some(0));
    assert_eq!(parse_usize(b"007"), Some(7));
    assert_eq!(parse_usize(b"+42"), Some(42));
    assert_eq!(parse_usize(b"18446744073709551615"), Some(18446744073709551615));
    assert_eq!(parse_usize(b"18446744073709551616"), None);
    assert_eq!(parse_usize(b""), None);
    assert_eq!(parse_usize(b"+"), None);
    assert_eq!(parse_usize(b"-1"), None);
    assert_eq!(parse_usize(b"1a"), None);
    assert_eq!(parse_usize(b" 1"), None);
    assert_eq!(parse_usize(b"++1"), None);
}
