//! Tests for the decimal field readers, which mirror how the standard
//! library's integer parsing treats signs, stray bytes and range.
use at_protocol::parse::{parse_i16, parse_u8};

#[test]
fn u8_plain_and_signed() {
    assert_eq!(parse_u8(b"0"), Some(0));
    assert_eq!(parse_u8(b"42"), Some(42));
    assert_eq!(parse_u8(b"255"), Some(255));
    assert_eq!(parse_u8(b"+7"), Some(7));
}

#[test]
fn u8_rejects_overflow_and_junk() {
    assert_eq!(parse_u8(b"256"), None);
    assert_eq!(parse_u8(b"99999999999999999999"), None);
    assert_eq!(parse_u8(b""), None);
    assert_eq!(parse_u8(b"+"), None);
    assert_eq!(parse_u8(b"1a"), None);
    assert_eq!(parse_u8(b"-1"), None);
    assert_eq!(parse_u8(b" 1"), None);
}

#[test]
fn i16_signs_and_range() {
    assert_eq!(parse_i16(b"-40"), Some(-40));
    assert_eq!(parse_i16(b"-32768"), Some(-32768));
    assert_eq!(parse_i16(b"32767"), Some(32767));
    assert_eq!(parse_i16(b"+5"), Some(5));
    assert_eq!(parse_i16(b"0"), Some(0));
}

#[test]
fn i16_rejects_overflow_and_junk() {
    assert_eq!(parse_i16(b"32768"), None);
    assert_eq!(parse_i16(b"-32769"), None);
    assert_eq!(parse_i16(b""), None);
    assert_eq!(parse_i16(b"-"), None);
    assert_eq!(parse_i16(b"--1"), None);
    assert_eq!(parse_i16(b"12.5"), None);
}
