use post_extract::count::{parse_count, parse_numerical_int};

#[test]
fn parse_count_round_trips_plain_integers() {
    assert_eq!(parse_count("1,234"), Some(1234));
}

#[test]
fn parse_count_scales_locale_suffixes() {
    assert_eq!(parse_count("1.5พัน"), Some(1500));
    assert_eq!(parse_count("2หมื่น"), Some(20000));
    assert_eq!(parse_count("3แสน"), Some(300000));
    assert_eq!(parse_count(""), Some(0));
}

#[test]
fn parse_count_blank_is_zero() {
    assert_eq!(parse_count("   "), Some(0));
    assert_eq!(parse_count("\n\t"), Some(0));
}

#[test]
fn parse_count_strips_separators() {
    assert_eq!(parse_count("1 234 567"), Some(1234567));
    assert_eq!(parse_count("12,345หมื่น"), Some(123450000));
}

#[test]
fn parse_count_fractional_truncates() {
    assert_eq!(parse_count("1.25พัน"), Some(1250));
    assert_eq!(parse_count("1.2345พัน"), Some(1234));
    assert_eq!(parse_count("0.1แสน"), Some(10000));
    assert_eq!(parse_count(".5พัน"), Some(500));
    assert_eq!(parse_count("7.พัน"), Some(7000));
}

#[test]
fn parse_count_rejects_non_numerals() {
    assert_eq!(parse_count("abc"), None);
    assert_eq!(parse_count("1.5"), None);
    assert_eq!(parse_count("1..5พัน"), None);
    assert_eq!(parse_count(".พัน"), None);
    assert_eq!(parse_count("12x"), None);
}

#[test]
fn parse_count_saturates_scaled_values() {
    assert_eq!(parse_count("99999999999แสน"), Some(u32::MAX));
}

#[test]
fn parse_count_rejects_plain_overflow() {
    assert_eq!(parse_count("4294967295"), Some(u32::MAX));
    assert_eq!(parse_count("4294967296"), None);
}

#[test]
fn parse_numerical_int_rejects_blank() {
    assert_eq!(parse_numerical_int(""), None);
    assert_eq!(parse_numerical_int("  "), None);
    assert_eq!(parse_numerical_int("57"), Some(57));
}
