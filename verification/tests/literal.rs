use lutdinho::literal::{is_channel_token, parse_size};

#[test]
fn parse_size_reads_decimal_numerals() {
    assert_eq!(parse_size("32"), Some(32));
    assert_eq!(parse_size("1"), Some(1));
    assert_eq!(parse_size("007"), Some(7));
    assert_eq!(parse_size("65"), Some(65));
    assert_eq!(parse_size(&usize::MAX.to_string()), Some(usize::MAX));
}

#[test]
fn parse_size_refuses_what_is_no_positive_size() {
    assert_eq!(parse_size(""), None);
    assert_eq!(parse_size("0"), None);
    assert_eq!(parse_size("000"), None);
    assert_eq!(parse_size("+5"), None);
    assert_eq!(parse_size("-5"), None);
    assert_eq!(parse_size("3 "), None);
    assert_eq!(parse_size("3a"), None);
    assert_eq!(parse_size("\u{0663}"), None);
    assert_eq!(parse_size("18446744073709551616"), None);
    assert_eq!(parse_size("99999999999999999999999"), None);
}

#[test]
fn channel_numerals_are_recognised() {
    for good in [
        "0", "9", "10", "0.5", "1.000000", "0.003922", "1.0e-05", "3.25e-1", "1e-5", "1.0E-05",
        "1.0e5", "1.0e+5", "-1", "+1", "-0.5", "+12.75E+10", "007",
    ] {
        assert!(is_channel_token(good), "{}", good);
    }
}

#[test]
fn other_texts_are_no_channel_numerals() {
    for bad in [
        "", ".", "a", "1.", ".5", "1.5.", "1.0e-", "1.0e-5x", "1 ", " 1", "1.0e", "1.0e-5.0", "+",
        "-", "+-1", "1e", "e5", "1e+", "1..5", "1.5e1.5", "--1", "1-", "0x10", "inf", "nan",
        "\u{0661}", "1.\u{0661}",
    ] {
        assert!(!is_channel_token(bad), "{}", bad);
    }
}
