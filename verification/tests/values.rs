use rusticwasm::error::ParseError;
use rusticwasm::values::{id, literal, u32};

fn rest(s: &str, pos: usize) -> &str {
    &s[pos..]
}

#[test]
fn id_parse() {
    let s = "$valid_id%#! foo ";
    let (p, name) = id(s, 0).unwrap();
    assert_eq!(name, "$valid_id%#!");
    assert_eq!(rest(s, p), "foo ");

    let s2 = "  $valid_id%#! foo ";
    let (p2, name2) = id(s2, 0).unwrap();
    assert_eq!(name2, "$valid_id%#!");
    assert_eq!(rest(s2, p2), "foo ");

    assert!(id("valid_id%#! foo ", 0).is_err());
}

#[test]
fn u32_parse() {
    let s = "12";
    let (p, v) = u32(s, 0).unwrap();
    assert_eq!(v, 12);
    assert_eq!(rest(s, p), "");

    assert!(u32("hello", 0).is_err());
}

#[test]
fn literal_parse() {
    let s = "\"valid#+123\"";
    let (p, v) = literal(s, 0).unwrap();
    assert_eq!(v, "valid#+123".to_string());
    assert_eq!(rest(s, p), "");

    assert!(literal("invalid", 0).is_err());
}

#[test]
fn u32_overflow_is_numeric_overflow() {
    assert_eq!(u32("99999999999", 0), Err(ParseError::NumericOverflow));
    let (_, v) = u32("4294967295", 0).unwrap();
    assert_eq!(v, u32::MAX);
    assert_eq!(u32("4294967296", 0), Err(ParseError::NumericOverflow));
}
