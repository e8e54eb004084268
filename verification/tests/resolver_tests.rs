use nodever::error::VersionError;
use nodever::resolver::{check_version_available, contains_version, is_latest_request,
    is_valid_version_id, normalize_version_request, resolve_latest, resolve_version,
    validate_requested_version};

fn discovered(tokens: &[&str]) -> Vec<String> {
    tokens.iter().map(|t| t.to_string()).collect()
}

#[test]
fn resolving_a_bare_triple_succeeds_after_normalization() {
    let available = discovered(&["v0.1.0", "v1.2.3", "v2.0.0"]);
    assert_eq!(resolve_version("1.2.3", &available), Ok("v1.2.3".to_string()));
}

#[test]
fn resolving_a_prefixed_triple_returns_it_unchanged() {
    let available = discovered(&["v1.2.3"]);
    assert_eq!(resolve_version("v1.2.3", &available), Ok("v1.2.3".to_string()));
}

#[test]
fn a_request_missing_its_patch_component_is_rejected_without_a_set() {
    assert_eq!(validate_requested_version("1.2"), Err(VersionError::InvalidVersionFormat));
    let available = discovered(&["v1.2.0"]);
    assert_eq!(resolve_version("1.2", &available), Err(VersionError::InvalidVersionFormat));
}

#[test]
fn a_request_with_a_suffix_is_rejected() {
    assert_eq!(validate_requested_version("1.2.3-beta"),
        Err(VersionError::InvalidVersionFormat));
    assert_eq!(validate_requested_version("1.2.3.4"),
        Err(VersionError::InvalidVersionFormat));
    assert_eq!(validate_requested_version(""), Err(VersionError::InvalidVersionFormat));
}

#[test]
fn an_absent_version_is_not_available() {
    let available = discovered(&["v1.2.3", "v2.0.0"]);
    assert_eq!(resolve_version("9.9.9", &available), Err(VersionError::VersionNotAvailable));
}

#[test]
fn membership_is_textual_not_numeric() {
    let available = discovered(&["v1.2.3"]);
    assert_eq!(resolve_version("1.02.3", &available), Err(VersionError::VersionNotAvailable));
    assert!(contains_version(&available, "v1.2.3"));
    assert!(!contains_version(&available, "v1.02.3"));
}

#[test]
fn shape_validation_is_exact() {
    assert!(is_valid_version_id("v1.2.3"));
    assert!(is_valid_version_id("v10.11.12"));
    assert!(is_valid_version_id("v01.2.3"));
    assert!(!is_valid_version_id("1.2.3"));
    assert!(!is_valid_version_id("v1.2"));
    assert!(!is_valid_version_id("v1.2.3 "));
    assert!(!is_valid_version_id("v1.2.3-rc1"));
    assert!(!is_valid_version_id("vv1.2.3"));
    assert!(!is_valid_version_id("v1..3"));
}

#[test]
fn normalization_prefixes_the_v_only_when_missing() {
    assert_eq!(normalize_version_request("1.2.3"), "v1.2.3".to_string());
    assert_eq!(normalize_version_request("v1.2.3"), "v1.2.3".to_string());
}

#[test]
fn the_latest_keyword_is_recognized() {
    assert!(is_latest_request("latest"));
    assert!(!is_latest_request("v1.2.3"));
    assert!(!is_latest_request("latest/"));
}

#[test]
fn latest_resolves_to_the_numeric_maximum() {
    let available = discovered(&["v1.9.9", "v10.0.0", "v2.0.0"]);
    assert_eq!(resolve_latest(&available), Ok("v10.0.0".to_string()));
}

#[test]
fn latest_of_an_empty_set_is_not_available() {
    let available = discovered(&[]);
    assert_eq!(resolve_latest(&available), Err(VersionError::VersionNotAvailable));
}

#[test]
fn latest_reports_a_malformed_token() {
    let available = discovered(&["v1.0.0", "vnext"]);
    assert_eq!(resolve_latest(&available), Err(VersionError::MalformedVersionToken));
}

#[test]
fn availability_check_returns_the_identifier_unchanged() {
    let available = discovered(&["v1.2.3"]);
    assert_eq!(check_version_available("v1.2.3", &available), Ok("v1.2.3".to_string()));
    assert_eq!(check_version_available("v9.9.9", &available),
        Err(VersionError::VersionNotAvailable));
}

#[test]
fn each_failure_kind_has_its_message() {
    assert_eq!(VersionError::FetchFailed.message(), "failed to fetch the version index");
    assert_eq!(VersionError::FetchTimeout.message(), "timed out fetching the version index");
    assert_eq!(VersionError::InvalidVersionFormat.message(), "invalid version string");
    assert_eq!(VersionError::VersionNotAvailable.message(), "version not available");
    assert_eq!(VersionError::MalformedVersionToken.message(), "malformed version token");
}

#[test]
fn only_the_transport_failures_are_retryable() {
    assert!(VersionError::FetchFailed.is_retryable());
    assert!(VersionError::FetchTimeout.is_retryable());
    assert!(!VersionError::InvalidVersionFormat.is_retryable());
    assert!(!VersionError::VersionNotAvailable.is_retryable());
    assert!(!VersionError::MalformedVersionToken.is_retryable());
}
