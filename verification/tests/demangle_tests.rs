use etp::demangle::demangle;

#[test]
fn plain_text_passes_through() {
    assert_eq!(demangle("hello"), Some(String::from("hello")));
    assert_eq!(demangle(""), Some(String::from("")));
    assert_eq!(demangle("core::run"), Some(String::from("core::run")));
}

#[test]
fn lone_underscores_are_preserved() {
    assert_eq!(demangle("a_b"), Some(String::from("a_b")));
    assert_eq!(demangle("a__b"), Some(String::from("a__b")));
    assert_eq!(demangle("trailing_"), Some(String::from("trailing_")));
}

#[test]
fn demangling_is_idempotent_on_demangled_names() {
    let once = demangle("_ZN4test4mainE").unwrap();
    assert_eq!(once, "test::main");
    assert_eq!(demangle(&once), Some(once.clone()));
}

#[test]
fn simple_region_round_trip() {
    assert_eq!(demangle("_ZN1a1bE"), Some(String::from("a::b")));
    assert_eq!(demangle("_ZN4core3runE"), Some(String::from("core::run")));
    assert_eq!(demangle("_ZNE"), Some(String::from("")));
}

#[test]
fn multi_digit_lengths() {
    assert_eq!(
        demangle("_ZN12abcdefghijkl3xyzE"),
        Some(String::from("abcdefghijkl::xyz"))
    );
}

#[test]
fn prefix_before_region_is_kept() {
    assert_eq!(demangle("mymod::_ZN3fooE"), Some(String::from("mymod::foo")));
}

#[test]
fn malformed_regions_fail() {
    // No N after the marker.
    assert_eq!(demangle("_Zx"), None);
    // A component where a length is owed.
    assert_eq!(demangle("_ZNabcE"), None);
    // Text after the terminator.
    assert_eq!(demangle("_ZN1aEx"), None);
    // An unclosed region.
    assert_eq!(demangle("_ZN3ab"), None);
}
