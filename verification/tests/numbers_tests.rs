use weather::numbers::parse_i32;
use weather::result::SimpleError;

#[test]
fn parses_plain_digits() {
    assert_eq!(parse_i32("42"), Ok(42));
    assert_eq!(parse_i32("0"), Ok(0));
    assert_eq!(parse_i32("007"), Ok(7));
}

#[test]
fn parses_signed_literals() {
    assert_eq!(parse_i32("-7"), Ok(-7));
    assert_eq!(parse_i32("+13"), Ok(13));
    assert_eq!(parse_i32("-0"), Ok(0));
}

#[test]
fn parses_extreme_values() {
    assert_eq!(parse_i32("2147483647"), Ok(i32::MAX));
    assert_eq!(parse_i32("-2147483648"), Ok(i32::MIN));
}

#[test]
fn rejects_out_of_range_literals() {
    assert!(matches!(parse_i32("2147483648"), Err(SimpleError::Parse(_))));
    assert!(matches!(parse_i32("-2147483649"), Err(SimpleError::Parse(_))));
    assert!(matches!(parse_i32("99999999999999999999"), Err(SimpleError::Parse(_))));
}

#[test]
fn rejects_malformed_literals() {
    assert!(matches!(parse_i32(""), Err(SimpleError::Parse(_))));
    assert!(matches!(parse_i32("-"), Err(SimpleError::Parse(_))));
    assert!(matches!(parse_i32("+"), Err(SimpleError::Parse(_))));
    assert!(matches!(parse_i32("12x"), Err(SimpleError::Parse(_))));
    assert!(matches!(parse_i32("x12"), Err(SimpleError::Parse(_))));
    assert!(matches!(parse_i32(" 12"), Err(SimpleError::Parse(_))));
    assert!(matches!(parse_i32("1.5"), Err(SimpleError::Parse(_))));
}
