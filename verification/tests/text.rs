use mehu::text::{i64_to_string, parse_i64, split_spaces, str_eq, str_is_prefix};

#[test]
fn split_spaces_tokenizes_and_drops_empties() {
    assert_eq!(split_spaces("red car"), vec!["red", "car"]);
    assert_eq!(split_spaces("  a  b "), vec!["a", "b"]);
    assert_eq!(split_spaces("single"), vec!["single"]);
    assert!(split_spaces("").is_empty());
    assert!(split_spaces("   ").is_empty());
}

#[test]
fn parse_i64_accepts_signed_decimals() {
    assert_eq!(parse_i64("42"), Some(42));
    assert_eq!(parse_i64("-7"), Some(-7));
    assert_eq!(parse_i64("0"), Some(0));
    assert_eq!(parse_i64("007"), Some(7));
    assert_eq!(parse_i64("9223372036854775807"), Some(i64::MAX));
    assert_eq!(parse_i64("-9223372036854775808"), Some(i64::MIN));
}

#[test]
fn parse_i64_rejects_malformed_and_overflowing_input() {
    assert_eq!(parse_i64(""), None);
    assert_eq!(parse_i64("-"), None);
    assert_eq!(parse_i64("12a"), None);
    assert_eq!(parse_i64("a12"), None);
    assert_eq!(parse_i64("1 2"), None);
    assert_eq!(parse_i64("--5"), None);
    assert_eq!(parse_i64("9223372036854775808"), None);
    assert_eq!(parse_i64("-9223372036854775809"), None);
    assert_eq!(parse_i64("99999999999999999999999"), None);
}

#[test]
fn i64_to_string_renders_decimals() {
    assert_eq!(i64_to_string(0), "0");
    assert_eq!(i64_to_string(42), "42");
    assert_eq!(i64_to_string(-7), "-7");
    assert_eq!(i64_to_string(i64::MAX), "9223372036854775807");
    assert_eq!(i64_to_string(i64::MIN), "-9223372036854775808");
}

#[test]
fn decimal_round_trip() {
    for v in [0, 1, -1, 10, 99, -100, 123456789, i64::MAX, i64::MIN] {
        assert_eq!(parse_i64(&i64_to_string(v)), Some(v));
    }
}

#[test]
fn str_eq_compares_contents() {
    assert!(str_eq("abc", "abc"));
    assert!(!str_eq("abc", "abd"));
    assert!(!str_eq("abc", "ab"));
    assert!(str_eq("", ""));
}

#[test]
fn str_is_prefix_checks_prefixes() {
    assert!(str_is_prefix("re", "red"));
    assert!(str_is_prefix("", "red"));
    assert!(str_is_prefix("red", "red"));
    assert!(!str_is_prefix("redder", "red"));
    assert!(!str_is_prefix("RE", "red"));
}
