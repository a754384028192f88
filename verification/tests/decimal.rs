use retirement::decimal::parse_decimal;
use retirement::text::push_decimal;

#[test]
fn parses_plain_decimals() {
    assert_eq!(parse_decimal("0.55"), Some(55_000_000));
    assert_eq!(parse_decimal("1"), Some(100_000_000));
    assert_eq!(parse_decimal("67432.15000000"), Some(6_743_215_000_000));
    assert_eq!(parse_decimal("0.00123000"), Some(123_000));
    assert_eq!(parse_decimal("+2.5"), Some(250_000_000));
    assert_eq!(parse_decimal(".5"), Some(50_000_000));
    assert_eq!(parse_decimal("5."), Some(500_000_000));
    assert_eq!(parse_decimal("0.000000010"), Some(1));
}

#[test]
fn rejects_what_is_not_a_plain_decimal() {
    assert_eq!(parse_decimal(""), None);
    assert_eq!(parse_decimal("."), None);
    assert_eq!(parse_decimal("+"), None);
    assert_eq!(parse_decimal("-1"), None);
    assert_eq!(parse_decimal("1e3"), None);
    assert_eq!(parse_decimal("1.2.3"), None);
    assert_eq!(parse_decimal(" 1"), None);
    assert_eq!(parse_decimal("abc"), None);
    // a nonzero ninth decimal is not exact at eight places
    assert_eq!(parse_decimal("0.000000001"), None);
}

#[test]
fn rejects_values_too_large() {
    assert_eq!(parse_decimal("184467440737.09551615"), Some(u64::MAX));
    assert_eq!(parse_decimal("184467440737.09551616"), None);
    assert_eq!(parse_decimal("184467440738"), None);
    assert_eq!(parse_decimal("99999999999999999999999"), None);
}

#[test]
fn renders_decimal_numbers() {
    let mut s = String::from("n=");
    push_decimal(&mut s, 0);
    assert_eq!(s, "n=0");
    let mut s = String::new();
    push_decimal(&mut s, 1_700_000_100);
    assert_eq!(s, "1700000100");
    let mut s = String::new();
    push_decimal(&mut s, u64::MAX);
    assert_eq!(s, u64::MAX.to_string());
}
