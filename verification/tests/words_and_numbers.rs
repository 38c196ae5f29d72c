use litebox_windows_userland::bytes::{copy_range, find, find_byte, push_le};
use litebox_windows_userland::numbers::{parse_signed, parse_unsigned, push_decimal, push_digits};
use litebox_windows_userland::text::{cut, join_from, split_on, split_words, trim};

#[test]
fn words_are_split_and_joined() {
    let words = split_words(" a\u{3000}bc\t\u{85}d ");
    assert_eq!(words, vec!["a".to_owned(), "bc".to_owned(), "d".to_owned()]);
    assert_eq!(join_from(&words, 1, ','), "bc,d");
    assert_eq!(join_from(&words, 3, ','), "");
    assert_eq!(split_on("a,,b", ','), vec!["a".to_owned(), String::new(), "b".to_owned()]);
    assert_eq!(split_on("", ','), vec![String::new()]);
    assert_eq!(cut("1-2-3", '-'), Some(("1".to_owned(), "2-3".to_owned())));
    assert_eq!(cut("12", '-'), None);
    assert_eq!(trim("\u{2003} x y \r\n"), "x y");
    assert_eq!(trim("  "), "");
}

#[test]
fn numbers_are_written_and_read() {
    let mut s = String::new();
    push_digits(&mut s, 0, 10);
    push_digits(&mut s, 0xDEAD, 16);
    push_decimal(&mut s, i64::MIN);
    assert_eq!(s, "0dead-9223372036854775808");
    assert_eq!(parse_unsigned("007", 10, 9), Some(7));
    assert_eq!(parse_unsigned("+7", 10, 9), Some(7));
    assert_eq!(parse_unsigned("10", 10, 9), None);
    assert_eq!(parse_unsigned("18446744073709551616", 10, u64::MAX), None);
    assert_eq!(parse_unsigned("", 10, 9), None);
    assert_eq!(parse_unsigned("+", 10, 9), None);
    assert_eq!(parse_unsigned("-1", 10, 9), None);
    assert_eq!(parse_unsigned("Ff", 16, 255), Some(255));
    assert_eq!(parse_signed("-9223372036854775808", i64::MIN, i64::MAX), Some(i64::MIN));
    assert_eq!(parse_signed("-0", -5, 5), Some(0));
    assert_eq!(parse_signed("6", -5, 5), None);
    assert_eq!(parse_signed("--1", -5, 5), None);
}

#[test]
fn bytes_are_searched() {
    assert_eq!(find(b"aXbXb", b"Xb"), Some(1));
    assert_eq!(find(b"ab", b"abc"), None);
    assert_eq!(find_byte(b"a\nb\n", b'\n', 2), Some(3));
    assert_eq!(find_byte(b"ab", b'\n', 0), None);
    assert_eq!(copy_range(b"abcd", 1, 3), b"bc".to_vec());
    let mut out = vec![9];
    push_le(&mut out, 0x1_0203, 2);
    assert_eq!(out, vec![9, 3, 2]);
}
