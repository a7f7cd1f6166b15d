use fluree_migrate::display::{format_bytes, i64_to_string, truncate_tail, u64_to_string};
use fluree_migrate::names::{
    capitalize, case_normalize, remove_namespace, remove_underscore, standardize,
    standardize_class_name, standardize_property_name,
};
use fluree_migrate::add_prefix;

#[test]
fn capitalize_first_letter() {
    assert_eq!(capitalize("person"), "Person");
    assert_eq!(capitalize("Person"), "Person");
    assert_eq!(capitalize(""), "");
    assert_eq!(capitalize("x"), "X");
}

// The first character takes its full Unicode uppercase expansion, which
// may be more than one character.
#[test]
fn capitalize_uses_unicode_uppercase() {
    assert_eq!(capitalize("\u{e9}tude"), "\u{c9}tude");
    assert_eq!(capitalize("\u{df}eta"), "SSeta");
}

#[test]
fn case_normalize_merges_underscores() {
    assert_eq!(case_normalize("person_stuff"), "personStuff");
    assert_eq!(case_normalize("a__b"), "aB");
    assert_eq!(case_normalize("_auth"), "Auth");
    assert_eq!(case_normalize("trailing_"), "trailing");
    assert_eq!(case_normalize("plain"), "plain");
    assert_eq!(case_normalize("a_\u{df}x"), "aSSx");
}

#[test]
fn standardize_matches_case_normalize() {
    assert_eq!(standardize("person_stuff"), "personStuff");
    assert_eq!(standardize(""), "");
}

#[test]
fn remove_namespace_takes_second_segment() {
    assert_eq!(remove_namespace("ns:name"), "name");
    assert_eq!(remove_namespace("plain"), "plain");
    assert_eq!(remove_namespace("a:b:c"), "b");
    assert_eq!(remove_namespace(":x"), "x");
}

#[test]
fn remove_underscore_strips_one() {
    assert_eq!(remove_underscore("_fn"), "fn");
    assert_eq!(remove_underscore("_auth"), "auth");
    assert_eq!(remove_underscore("auth"), "auth");
    assert_eq!(remove_underscore(""), "");
}

#[test]
fn class_names_standardized() {
    assert_eq!(standardize_class_name("person"), "Person");
    assert_eq!(standardize_class_name("person_record"), "PersonRecord");
    assert_eq!(standardize_class_name("ns:team"), "Team");
}

#[test]
fn property_names_standardized() {
    assert_eq!(standardize_property_name("age"), "age");
    assert_eq!(standardize_property_name("home_town"), "homeTown");
}

#[test]
fn add_prefix_concatenates() {
    assert_eq!(add_prefix("name", "pre/"), "pre/name");
}

#[test]
fn decimal_rendering() {
    assert_eq!(u64_to_string(0), "0");
    assert_eq!(u64_to_string(12345), "12345");
    assert_eq!(u64_to_string(u64::MAX), "18446744073709551615");
    assert_eq!(i64_to_string(-42), "-42");
    assert_eq!(i64_to_string(i64::MIN), "-9223372036854775808");
}

#[test]
fn truncate_tail_keeps_short_strings() {
    assert_eq!(truncate_tail("short", 40), "short");
}

#[test]
fn truncate_tail_marks_long_strings() {
    let long = "abcdefghijklmnopqrstuvwxyz";
    assert_eq!(truncate_tail(long, 10), "...qrstuvwxyz");
}

#[test]
fn format_bytes_scales() {
    assert_eq!(format_bytes(0), "0.0 bytes");
    assert_eq!(format_bytes(512), "512.0 bytes");
    assert_eq!(format_bytes(1536), "1.5 KB");
    assert_eq!(format_bytes(1048576), "1.0 MB");
    assert_eq!(format_bytes(2500000), "2.4 MB");
}

#[test]
fn format_bytes_rounds_half_to_even() {
    // 1280 / 1024 = 1.25 exactly; one decimal place rounds to the even digit
    assert_eq!(format_bytes(1280), "1.2 KB");
    // 1408 / 1024 = 1.375 -> 1.4
    assert_eq!(format_bytes(1408), "1.4 KB");
}
