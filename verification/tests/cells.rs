//! Tests of the cell-level parsers: integer counts and coordinate text.

use station_usage::float_text::is_float_text;
use station_usage::parse_int::parse_count;

#[test]
fn plain_and_signed_integers_parse() {
    assert_eq!(parse_count("42"), Some(42));
    assert_eq!(parse_count("+7"), Some(7));
    assert_eq!(parse_count("-7"), Some(-7));
    assert_eq!(parse_count("007"), Some(7));
    assert_eq!(parse_count("0"), Some(0));
}

#[test]
fn integer_range_limits_are_exact() {
    assert_eq!(parse_count("2147483647"), Some(i32::MAX));
    assert_eq!(parse_count("2147483648"), None);
    assert_eq!(parse_count("-2147483648"), Some(i32::MIN));
    assert_eq!(parse_count("-2147483649"), None);
    assert_eq!(parse_count("99999999999999999999"), None);
}

#[test]
fn non_numeric_cells_do_not_parse() {
    assert_eq!(parse_count(""), None);
    assert_eq!(parse_count("-"), None);
    assert_eq!(parse_count("+"), None);
    assert_eq!(parse_count(" 5"), None);
    assert_eq!(parse_count("5 "), None);
    assert_eq!(parse_count("1.5"), None);
    assert_eq!(parse_count("abc"), None);
    assert_eq!(parse_count("1_000"), None);
}

#[test]
fn count_parsing_matches_standard_integer_parsing() {
    let cells = [
        "42", "+7", "-7", "007", "0", "2147483647", "2147483648", "-2147483648", "-2147483649",
        "", "-", "+", " 5", "5 ", "1.5", "abc", "1_000", "٣",
    ];
    for cell in cells {
        assert_eq!(parse_count(cell), cell.parse::<i32>().ok(), "cell {:?}", cell);
    }
}

#[test]
fn decimal_forms_are_float_text() {
    assert!(is_float_text("0"));
    assert!(is_float_text("51.5"));
    assert!(is_float_text("-0.1"));
    assert!(is_float_text("+.5"));
    assert!(is_float_text("5."));
    assert!(is_float_text("1e5"));
    assert!(is_float_text("-1.5E-3"));
    assert!(is_float_text("inf"));
    assert!(is_float_text("-Infinity"));
    assert!(is_float_text("NaN"));
}

#[test]
fn malformed_forms_are_not_float_text() {
    assert!(!is_float_text(""));
    assert!(!is_float_text("."));
    assert!(!is_float_text("-"));
    assert!(!is_float_text("1e"));
    assert!(!is_float_text("e5"));
    assert!(!is_float_text("1.2.3"));
    assert!(!is_float_text("1,5"));
    assert!(!is_float_text(" 1.0"));
    assert!(!is_float_text("0x1p3"));
}

#[test]
fn float_text_matches_standard_float_parsing() {
    let cells = [
        "0", "51.5", "-0.1", "+.5", "5.", "1e5", "-1.5E-3", "inf", "-Infinity", "NaN", "",
        ".", "-", "1e", "e5", "1.2.3", "1,5", " 1.0", "0x1p3", "1e999", "infinit",
    ];
    for cell in cells {
        assert_eq!(is_float_text(cell), cell.parse::<f64>().is_ok(), "cell {:?}", cell);
    }
}
