use aur_update::version::{compare_versions, strip_revision};

#[test]
fn greater_number_is_newer() {
    assert!(compare_versions("1.2.0", "1.3.0"));
    assert!(!compare_versions("1.3.0", "1.2.0"));
    assert!(compare_versions("1.4.0", "1.5.0"));
    assert!(compare_versions("1.9", "1.10"));
    assert!(!compare_versions("1.10", "1.9"));
    assert!(compare_versions("2.0.0", "10.0.0"));
}

#[test]
fn a_version_is_not_newer_than_itself() {
    for v in ["", "0", "1.2.0", "v1.2", "1.beta", "a.b.c", "1..2", "é.ü"] {
        assert!(!compare_versions(v, v), "{v}");
    }
}

#[test]
fn missing_parts_count_as_zero() {
    assert!(!compare_versions("1.2", "1.2.0"));
    assert!(!compare_versions("1.2.0", "1.2"));
    assert!(!compare_versions("1", "1.0.0.0"));
    assert!(compare_versions("1.2", "1.2.1"));
    assert!(!compare_versions("1.2.1", "1.2"));
    assert!(compare_versions("1.2", "1.2.0.1"));
}

#[test]
fn empty_string_is_version_zero() {
    assert!(!compare_versions("", "0"));
    assert!(!compare_versions("0", ""));
    assert!(!compare_versions("", "0.0"));
    assert!(compare_versions("", "0.1"));
    assert!(!compare_versions("0.1", ""));
    assert!(compare_versions("", "1"));
}

#[test]
fn leading_v_is_set_aside() {
    assert!(compare_versions("v1.2.0", "1.3.0"));
    assert!(compare_versions("1.2.0", "V1.3.0"));
    assert!(!compare_versions("v1.2.0", "1.2.0"));
    assert!(!compare_versions("1.2.0", "v1.2.0"));
    assert!(!compare_versions("v", ""));
    assert!(!compare_versions("", "v"));
}

#[test]
fn leading_zeros_do_not_count() {
    assert!(!compare_versions("1.02", "1.2"));
    assert!(!compare_versions("1.2", "1.02"));
    assert!(compare_versions("1.02", "1.3"));
    assert!(compare_versions("1.000", "1.001"));
    assert!(!compare_versions("1.0", "1.000"));
}

#[test]
fn numbers_of_any_size_are_ordered_by_value() {
    let big = "1.99999999999999999999999999999999999999";
    let bigger = "1.100000000000000000000000000000000000000";
    assert!(compare_versions(big, bigger));
    assert!(!compare_versions(bigger, big));
    assert!(compare_versions("18446744073709551615", "18446744073709551616"));
    assert!(!compare_versions("18446744073709551616", "18446744073709551615"));
    assert!(!compare_versions("018446744073709551616", "18446744073709551616"));
}

#[test]
fn words_are_ordered_by_their_characters() {
    assert!(compare_versions("1.alpha", "1.beta"));
    assert!(!compare_versions("1.beta", "1.alpha"));
    assert!(compare_versions("1.rc", "1.rc1"));
    assert!(!compare_versions("1.rc1", "1.rc"));
    assert!(compare_versions("1.A", "1.a"));
    assert!(compare_versions("1.z", "1.é"));
}

#[test]
fn every_number_comes_before_every_word() {
    assert!(compare_versions("1.999", "1.a"));
    assert!(!compare_versions("1.a", "1.999"));
    assert!(compare_versions("1.2", "1.2.x"));
    assert!(!compare_versions("1.2.x", "1.2"));
    assert!(compare_versions("1.0", "1.0beta"));
}

#[test]
fn comparison_is_transitive_on_a_chain() {
    let chain = ["", "0.0.1", "0.9", "0.10", "1", "1.0.1", "1.2.a", "1.2.b", "1.10", "2", "a", "b"];
    for i in 0..chain.len() {
        for j in 0..chain.len() {
            assert_eq!(compare_versions(chain[i], chain[j]), i < j, "{} {}", chain[i], chain[j]);
        }
    }
}

#[test]
fn revision_is_what_follows_the_first_hyphen() {
    assert_eq!(strip_revision("1.5.0-2"), "1.5.0");
    assert_eq!(strip_revision("1.5.0"), "1.5.0");
    assert_eq!(strip_revision("1.5.0-rc-2"), "1.5.0");
    assert_eq!(strip_revision("-1"), "");
    assert_eq!(strip_revision(""), "");
    assert_eq!(strip_revision("1.5.0-"), "1.5.0");
    assert_eq!(strip_revision("é.1-2"), "é.1");
}
