use aetheris_app::quantity::split_quantity;
use aetheris_app::text::{
    contains_str, eq_ignore_ascii_case, replace_text, split_whitespace, starts_with,
    to_ascii_lowercase, trim, u128_text, usize_text,
};

#[test]
fn trim_and_split_follow_unicode_whitespace() {
    assert_eq!(trim("  \t team-a \n"), "team-a");
    assert_eq!(trim("\u{a0}x\u{3000}"), "x");
    assert_eq!(trim("   "), "");
    assert_eq!(
        split_whitespace("  Running \t 1/1\n"),
        vec![String::from("Running"), String::from("1/1")]
    );
    assert!(split_whitespace(" \n ").is_empty());
}

#[test]
fn ascii_case_helpers() {
    assert_eq!(to_ascii_lowercase("Hello-ÄB"), "hello-Äb");
    assert!(eq_ignore_ascii_case("Warning", "WARNING"));
    assert!(!eq_ignore_ascii_case("Warning", "Warn"));
}

#[test]
fn substring_helpers() {
    assert!(starts_with("forbidden:", "forbidden"));
    assert!(!starts_with("forbid", "forbidden"));
    assert!(contains_str("pods/exec is denied", "pods/exec"));
    assert!(contains_str("abc", ""));
    assert!(!contains_str("ab", "abc"));
}

#[test]
fn replace_text_matches_str_replace() {
    for (s, from, to) in [
        ("aaa", "aa", "b"),
        ("{name} copy", "{name}", "Work"),
        ("abc", "", "-"),
        ("", "", "x"),
        ("none here", "zz", "y"),
    ] {
        assert_eq!(replace_text(s, from, to), s.replace(from, to));
    }
}

#[test]
fn decimal_text() {
    assert_eq!(usize_text(0), "0");
    assert_eq!(usize_text(1050), "1050");
    assert_eq!(u128_text(340282366920938463463374607431768211455), u128::MAX.to_string());
}

#[test]
fn split_quantity_separates_number_and_suffix() {
    assert_eq!(split_quantity("125m"), (String::from("125"), String::from("m")));
    assert_eq!(split_quantity("1.5Gi"), (String::from("1.5"), String::from("Gi")));
    assert_eq!(split_quantity("42"), (String::from("42"), String::new()));
    assert_eq!(split_quantity("Ki"), (String::new(), String::from("Ki")));
    assert_eq!(split_quantity(""), (String::new(), String::new()));
}
