use stocksman::price::{above_zero, below_zero, equal_values, finite_value, nan_value, zero_value};
use stocksman::text::{i64_text, parse_i64, parse_u32, parse_u64, trimmed, u64_text};

#[test]
fn integers_parse_like_the_standard_library() {
    for text in ["0", "+7", "18446744073709551615", "18446744073709551616", "", "+", "-1", "1_0", " 1"] {
        assert_eq!(parse_u64(text), text.parse::<u64>().ok(), "u64 {text:?}");
    }
    for text in ["4294967295", "4294967296", "+0", "12a"] {
        assert_eq!(parse_u32(text), text.parse::<u32>().ok(), "u32 {text:?}");
    }
    for text in [
        "-9223372036854775808",
        "-9223372036854775809",
        "9223372036854775807",
        "9223372036854775808",
        "-0",
        "+12",
        "-",
    ] {
        assert_eq!(parse_i64(text), text.parse::<i64>().ok(), "i64 {text:?}");
    }
}

#[test]
fn integers_are_written_in_decimal() {
    assert_eq!(u64_text(0), "0");
    assert_eq!(u64_text(u64::MAX), "18446744073709551615");
    assert_eq!(i64_text(i64::MIN), "-9223372036854775808");
    assert_eq!(i64_text(-42), "-42");
}

#[test]
fn trimming_follows_unicode_whitespace() {
    assert!(trimmed("en-GB"));
    assert!(!trimmed(" en-GB"));
    assert!(!trimmed("en-GB\u{3000}"));
    assert!(trimmed(""));
}

#[test]
fn binary64_predicates_match_the_float_operations() {
    for value in [
        0.0f64,
        -0.0,
        1.5,
        -2.25,
        f64::INFINITY,
        f64::NEG_INFINITY,
        f64::NAN,
        f64::MIN_POSITIVE,
        5e-324,
    ] {
        let bits = value.to_bits();
        assert_eq!(finite_value(bits), value.is_finite(), "{value}");
        assert_eq!(nan_value(bits), value.is_nan(), "{value}");
        assert_eq!(zero_value(bits), value == 0.0, "{value}");
        assert_eq!(above_zero(bits), value > 0.0, "{value}");
        assert_eq!(below_zero(bits), value < 0.0, "{value}");
        assert_eq!(equal_values(bits, bits), value == value, "{value}");
    }
    assert!(equal_values(0.0f64.to_bits(), (-0.0f64).to_bits()));
}
