//! Standard constraints.
use update_versions_lsp::version_utils::normalize::standard;

#[test]
fn test_standard_caret_passthrough() {
    assert_eq!(standard("^1.2.3"), "^1.2.3");
}

#[test]
fn test_standard_tilde_passthrough() {
    assert_eq!(standard("~1.2.3"), "~1.2.3");
}

#[test]
fn test_standard_bare_valid() {
    assert_eq!(standard("1.2.3"), "1.2.3");
}

#[test]
fn test_standard_bare_two_part() {
    // "1.2" is a valid VersionReq in the semver crate (treated as ^1.2) — passed through as-is.
    assert_eq!(standard("1.2"), "1.2");
}
