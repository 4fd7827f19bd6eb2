//! Fixed-point number grammar tests: what parses, what is refused, and how
//! extra precision is cut off.

use geotruth_core::fixed::{floor_div, floor_mod, parse_int12, parse_scaled_micro, parse_u32};

#[test]
fn scaled_micro_parses_decimals() {
    assert_eq!(parse_scaled_micro(b"4807.038"), Some(4_807_038_000));
    assert_eq!(parse_scaled_micro(b"0"), Some(0));
    assert_eq!(parse_scaled_micro(b"-0.5"), Some(-500_000));
    assert_eq!(parse_scaled_micro(b"22.4"), Some(22_400_000));
    assert_eq!(parse_scaled_micro(b"1."), Some(1_000_000));
    assert_eq!(parse_scaled_micro(b".25"), Some(250_000));
}

#[test]
fn scaled_micro_cuts_extra_fraction_digits() {
    assert_eq!(parse_scaled_micro(b"1.23456789"), Some(1_234_567));
}

#[test]
fn scaled_micro_refuses_malformed_input() {
    assert_eq!(parse_scaled_micro(b""), None);
    assert_eq!(parse_scaled_micro(b"-"), None);
    assert_eq!(parse_scaled_micro(b"."), None);
    assert_eq!(parse_scaled_micro(b"1.2.3"), None);
    assert_eq!(parse_scaled_micro(b"12a"), None);
    assert_eq!(parse_scaled_micro(b" 1"), None);
    // more than twelve digits before the dot
    assert_eq!(parse_scaled_micro(b"1234567890123"), None);
    assert_eq!(parse_scaled_micro(b"999999999999"), Some(999_999_999_999_000_000));
}

#[test]
fn u32_parse_is_digits_only() {
    assert_eq!(parse_u32(b"0042"), Some(42));
    assert_eq!(parse_u32(b"4294967295"), Some(u32::MAX));
    assert_eq!(parse_u32(b"4294967296"), None);
    assert_eq!(parse_u32(b""), None);
    assert_eq!(parse_u32(b"+1"), None);
    assert_eq!(parse_u32(b"12 "), None);
}

#[test]
fn int12_parse_handles_signs() {
    assert_eq!(parse_int12(b"12"), Some(12));
    assert_eq!(parse_int12(b"-12"), Some(-12));
    assert_eq!(parse_int12(b"--1"), None);
    assert_eq!(parse_int12(b""), None);
}

#[test]
fn floor_division_rounds_down() {
    assert_eq!(floor_div(7, 2), 3);
    assert_eq!(floor_div(-7, 2), -4);
    assert_eq!(floor_mod(7, 2), 1);
    assert_eq!(floor_mod(-7, 2), 1);
}
