use std::cmp::Ordering;

use nodever::error::VersionError;
use nodever::version::{node_version_compare_fn, parse_version_triple, sort_versions,
    try_version_compare};

#[test]
fn compare_equal_token_is_equal() {
    assert_eq!(node_version_compare_fn("v1.2.3", "v1.2.3"), Ordering::Equal);
}

#[test]
fn compare_is_big_endian_on_the_triple() {
    assert_eq!(node_version_compare_fn("v2.0.0", "v1.9.9"), Ordering::Greater);
    assert_eq!(node_version_compare_fn("v1.2.3", "v1.2.4"), Ordering::Less);
    assert_eq!(node_version_compare_fn("v1.10.0", "v1.9.0"), Ordering::Greater);
    assert_eq!(node_version_compare_fn("v0.0.1", "v0.1.0"), Ordering::Less);
}

#[test]
fn compare_is_numeric_not_lexical() {
    assert_eq!(node_version_compare_fn("v10.0.0", "v9.0.0"), Ordering::Greater);
}

#[test]
fn compare_ignores_textual_differences_of_equal_triples() {
    assert_eq!(node_version_compare_fn("v1.02.3", "v1.2.3"), Ordering::Equal);
    assert_eq!(node_version_compare_fn("1.2.3", "v1.2.3"), Ordering::Equal);
}

#[test]
fn parse_version_triple_reads_the_three_fields() {
    assert_eq!(parse_version_triple("v1.2.3"), Some((1, 2, 3)));
    assert_eq!(parse_version_triple("v14.17.0"), Some((14, 17, 0)));
    assert_eq!(parse_version_triple("v18446744073709551615.0.0"),
        Some((u64::MAX, 0, 0)));
}

#[test]
fn parse_version_triple_rejects_undecomposable_tokens() {
    assert_eq!(parse_version_triple(""), None);
    assert_eq!(parse_version_triple("v1.2"), None);
    assert_eq!(parse_version_triple("v1..2"), None);
    assert_eq!(parse_version_triple("va.b.c"), None);
    assert_eq!(parse_version_triple("v18446744073709551616.0.0"), None);
}

#[test]
fn try_compare_reports_the_malformed_token() {
    assert_eq!(try_version_compare("v1.2", "v1.0.0"),
        Err(VersionError::MalformedVersionToken));
    assert_eq!(try_version_compare("v1.0.0", "junk"),
        Err(VersionError::MalformedVersionToken));
    assert_eq!(try_version_compare("v2.0.0", "v10.0.0"), Ok(Ordering::Less));
}

#[test]
fn sort_orders_numerically() {
    let input = vec!["v10.0.0".to_string(), "v2.0.0".to_string(), "v1.9.9".to_string()];
    let expected = vec!["v1.9.9".to_string(), "v2.0.0".to_string(), "v10.0.0".to_string()];
    assert_eq!(sort_versions(input), Ok(expected));
}

#[test]
fn sort_keeps_duplicates() {
    let input = vec!["v1.0.0".to_string(), "v0.1.0".to_string(), "v1.0.0".to_string()];
    let expected = vec!["v0.1.0".to_string(), "v1.0.0".to_string(), "v1.0.0".to_string()];
    assert_eq!(sort_versions(input), Ok(expected));
}

#[test]
fn sort_of_nothing_is_nothing() {
    assert_eq!(sort_versions(Vec::new()), Ok(Vec::new()));
}

#[test]
fn sort_reports_a_malformed_token() {
    let input = vec!["v1.0.0".to_string(), "junk".to_string()];
    assert_eq!(sort_versions(input), Err(VersionError::MalformedVersionToken));
}
