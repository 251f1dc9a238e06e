use sliceparse::integer_parse::{parse_u32_from_char_slice, parse_u32_from_u8_chars_slice};
use sliceparse::math::integer_math::{concat_u32, u32_count};

#[test]
fn passes() {}

#[test]
fn u32_count_of_zero_is_one() {
    assert_eq!(u32_count(0), 1);
}

#[test]
fn u32_count_three_digits() {
    assert_eq!(u32_count(999), 3);
}

#[test]
fn u32_count_four_digits() {
    assert_eq!(u32_count(1000), 4);
}

#[test]
fn u32_count_boundaries() {
    assert_eq!(u32_count(9), 1);
    assert_eq!(u32_count(10), 2);
    assert_eq!(u32_count(u32::MAX), 10);
}

#[test]
fn concat_u32_appends_digits() {
    assert_eq!(concat_u32(12, 3), Some(123));
}

#[test]
fn concat_u32_overflow_is_none() {
    assert_eq!(concat_u32(u32::MAX, 1), None);
}

#[test]
fn concat_u32_power_overflow_is_none() {
    // The scale 10^digit_count(right) already leaves the u32 range, so
    // the result is None even though the appended value alone would fit.
    assert_eq!(concat_u32(0, 4_000_000_000), None);
}

#[test]
fn concat_u32_with_zero_right() {
    assert_eq!(concat_u32(1, 0), Some(10));
    assert_eq!(concat_u32(0, 0), Some(0));
    assert_eq!(concat_u32(0, 7), Some(7));
}

#[test]
fn parse_empty_is_zero() {
    assert_eq!(parse_u32_from_char_slice(&[]), Some(0));
}

#[test]
fn parse_digits() {
    assert_eq!(parse_u32_from_char_slice(&['1', '2', '3']), Some(123));
}

#[test]
fn parse_invalid_digit_is_none() {
    assert_eq!(parse_u32_from_char_slice(&['1', '2', 'a']), None);
}

#[test]
fn parse_overflow_is_none() {
    let too_big: Vec<char> = "4294967296".chars().collect();
    assert_eq!(parse_u32_from_char_slice(&too_big), None);
}

#[test]
fn parse_max_round_trip() {
    let digits: Vec<char> = "4294967295".chars().collect();
    assert_eq!(parse_u32_from_char_slice(&digits), Some(u32::MAX));
}

#[test]
fn parse_leading_zeros() {
    assert_eq!(parse_u32_from_char_slice(&['0', '0', '7']), Some(7));
}

#[test]
fn parse_bytes() {
    assert_eq!(parse_u32_from_u8_chars_slice(b"123"), Some(123));
}

#[test]
fn parse_bytes_empty_is_zero() {
    assert_eq!(parse_u32_from_u8_chars_slice(b""), Some(0));
}

#[test]
fn parse_bytes_invalid_is_none() {
    assert_eq!(parse_u32_from_u8_chars_slice(b"12x"), None);
}
