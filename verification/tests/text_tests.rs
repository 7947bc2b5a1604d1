use etp::text::{ends_with, last_path_component, parse_u64, starts_with, str_eq};

#[test]
fn string_comparisons() {
    assert!(str_eq("abc", "abc"));
    assert!(!str_eq("abc", "abd"));
    assert!(!str_eq("abc", "ab"));
    assert!(ends_with("test::main", "main"));
    assert!(ends_with("test::main", "::main"));
    assert!(!ends_with("test::main", "rain"));
    assert!(starts_with("intrinsics::mem::load", "intrinsics::mem::"));
    assert!(!starts_with("intr", "intrinsics::mem::"));
}

#[test]
fn last_path_component_cases() {
    assert_eq!(last_path_component("a::b::c"), "c");
    assert_eq!(last_path_component("plain"), "plain");
    assert_eq!(last_path_component("x::__hidden"), "__hidden");
    assert_eq!(last_path_component("odd:::tail"), ":tail");
}

#[test]
fn parse_u64_cases() {
    assert_eq!(parse_u64("0"), Some(0));
    assert_eq!(parse_u64("40960"), Some(40960));
    assert_eq!(parse_u64("18446744073709551615"), Some(u64::MAX));
    assert_eq!(parse_u64("18446744073709551616"), None);
    assert_eq!(parse_u64(""), None);
    assert_eq!(parse_u64("12x"), None);
}

#[test]
fn spaces_builds_indentation() {
    assert_eq!(etp::spaces(0), "");
    assert_eq!(etp::spaces(4), "    ");
}
