//! Tests for the byte-string and calendar primitives the parsers are
//! built on.

use library_of_babel::date::{parse_i32, parse_u32, Date};
use library_of_babel::text::{
    contains_bytes, find_byte, find_sub, format_u64, parse_u64, split_lines, split_on_byte,
    to_lowercase, trim,
};

fn bytes(s: &str) -> Vec<u8> {
    s.as_bytes().to_vec()
}

#[test]
fn trimming_strips_ascii_whitespace_from_both_ends() {
    assert_eq!(trim(b"  hello\t"), bytes("hello"));
    assert_eq!(trim(b"\r\n"), bytes(""));
    assert_eq!(trim(b"x"), bytes("x"));
    assert_eq!(trim(b"a b"), bytes("a b"));
}

#[test]
fn lowercasing_touches_only_ascii_letters() {
    assert_eq!(to_lowercase(b"MiXeD 42!"), bytes("mixed 42!"));
}

#[test]
fn searching_finds_first_occurrences() {
    assert_eq!(find_byte(b"a:b:c", 58), 1);
    assert_eq!(find_byte(b"abc", 58), 3);
    assert_eq!(find_sub(b"xx//yy//", b"//"), 2);
    assert_eq!(find_sub(b"xxyy", b"//"), 4);
    assert!(contains_bytes(b"this is a leaflet schema!", b"leaflet"));
    assert!(!contains_bytes(b"nothing here", b"leaflet"));
}

#[test]
fn splitting_lines_matches_line_iteration() {
    let pieces = split_lines(b"a\nb\r\nc\n");
    assert_eq!(pieces, vec![bytes("a"), bytes("b"), bytes("c")]);
    let pieces = split_lines(b"");
    assert_eq!(pieces.len(), 0);
    let pieces = split_lines(b"only");
    assert_eq!(pieces, vec![bytes("only")]);
}

#[test]
fn splitting_on_a_byte_keeps_empty_pieces() {
    let pieces = split_on_byte(b"2024.1.2", 46);
    assert_eq!(pieces, vec![bytes("2024"), bytes("1"), bytes("2")]);
    let pieces = split_on_byte(b"a..b", 46);
    assert_eq!(pieces, vec![bytes("a"), bytes(""), bytes("b")]);
    let pieces = split_on_byte(b"", 46);
    assert_eq!(pieces, vec![bytes("")]);
}

#[test]
fn unsigned_parsing_matches_the_standard_library() {
    assert_eq!(parse_u64(b"0"), Some(0));
    assert_eq!(parse_u64(b"+42"), Some(42));
    assert_eq!(parse_u64(b"18446744073709551615"), Some(u64::MAX));
    assert_eq!(parse_u64(b"18446744073709551616"), None);
    assert_eq!(parse_u64(b""), None);
    assert_eq!(parse_u64(b"-1"), None);
    assert_eq!(parse_u64(b"1 2"), None);
    assert_eq!(parse_u32(b"4294967295"), Some(u32::MAX));
    assert_eq!(parse_u32(b"4294967296"), None);
}

#[test]
fn signed_parsing_matches_the_standard_library() {
    assert_eq!(parse_i32(b"-2147483648"), Some(i32::MIN));
    assert_eq!(parse_i32(b"2147483647"), Some(i32::MAX));
    assert_eq!(parse_i32(b"2147483648"), None);
    assert_eq!(parse_i32(b"+7"), Some(7));
    assert_eq!(parse_i32(b"++7"), None);
    assert_eq!(parse_i32(b"-"), None);
}

#[test]
fn formatting_produces_canonical_decimals() {
    assert_eq!(format_u64(0), bytes("0"));
    assert_eq!(format_u64(7), bytes("7"));
    assert_eq!(format_u64(1926), bytes("1926"));
    assert_eq!(format_u64(u64::MAX), bytes("18446744073709551615"));
}

#[test]
fn calendar_validity_follows_the_leap_rule() {
    assert!(Date::from_ymd(2024, 2, 29).is_some());
    assert!(Date::from_ymd(2023, 2, 29).is_none());
    assert!(Date::from_ymd(1900, 2, 29).is_none());
    assert!(Date::from_ymd(2000, 2, 29).is_some());
    assert!(Date::from_ymd(2024, 4, 31).is_none());
    assert!(Date::from_ymd(2024, 0, 1).is_none());
    assert!(Date::from_ymd(2024, 13, 1).is_none());
    let date = Date::from_ymd(2024, 12, 31).unwrap();
    assert_eq!((date.year, date.month, date.day), (2024, 12, 31));
}
