//! Constraints of any ecosystem.
use update_versions_lsp::semver_utils::{
    build_replacement_text, extract_base_version, find_latest, find_update_candidates,
    is_prerelease_constraint, normalize_constraint, prerelease_newer_than_constraint,
};

// --- normalize_constraint tests ---

#[test]
fn test_normalize_caret() {
    assert_eq!(normalize_constraint("^1.2.3"), "^1.2.3");
}

#[test]
fn test_normalize_tilde() {
    assert_eq!(normalize_constraint("~1.2.3"), "~1.2.3");
}

#[test]
fn test_normalize_ruby_pessimistic() {
    assert_eq!(normalize_constraint("~> 1.2"), "~1.2");
}

#[test]
fn test_normalize_python_compatible() {
    assert_eq!(normalize_constraint("~=1.2"), "~1.2");
}

#[test]
fn test_normalize_python_exact() {
    assert_eq!(normalize_constraint("==1.2.3"), "=1.2.3");
}

// --- extract_base_version tests ---

#[test]
fn semver_utils_test_extract_base_caret() {
    assert_eq!(extract_base_version("^1.2.3"), Some("1.2.3".to_string()));
}

#[test]
fn semver_utils_test_extract_base_tilde() {
    assert_eq!(extract_base_version("~1.2.3"), Some("1.2.3".to_string()));
}

#[test]
fn semver_utils_test_extract_base_gte() {
    assert_eq!(extract_base_version(">=1.2.0"), Some("1.2.0".to_string()));
}

#[test]
fn semver_utils_test_extract_base_bare() {
    assert_eq!(extract_base_version("1.2.3"), Some("1.2.3".to_string()));
}

#[test]
fn semver_utils_test_extract_base_two_component() {
    assert_eq!(extract_base_version("~1.2"), Some("1.2.0".to_string()));
}

#[test]
fn semver_utils_test_extract_base_one_component() {
    assert_eq!(extract_base_version("^1"), Some("1.0.0".to_string()));
}

// --- build_replacement_text tests ---

#[test]
fn semver_utils_test_replace_caret() {
    assert_eq!(build_replacement_text("^1.2.0", "2.0.0"), "^2.0.0");
}

#[test]
fn semver_utils_test_replace_tilde() {
    assert_eq!(build_replacement_text("~1.2.0", "1.2.5"), "~1.2.5");
}

#[test]
fn semver_utils_test_replace_gte() {
    assert_eq!(build_replacement_text(">=1.0.0", "2.0.0"), ">=2.0.0");
}

#[test]
fn semver_utils_test_replace_bare() {
    assert_eq!(build_replacement_text("1.0.0", "2.0.0"), "2.0.0");
}

#[test]
fn semver_utils_test_replace_ruby_pessimistic() {
    assert_eq!(build_replacement_text("~>1.2", "1.3.0"), "~>1.3.0");
}

// --- find_latest tests ---

#[test]
fn semver_utils_test_find_latest_picks_highest() {
    let versions = vec![
        "1.0.0".to_string(),
        "2.0.0".to_string(),
        "1.5.0".to_string(),
    ];
    assert_eq!(find_latest(&versions), Some("2.0.0".to_string()));
}

#[test]
fn semver_utils_test_find_latest_ignores_prerelease() {
    let versions = vec!["1.0.0".to_string(), "2.0.0-alpha.1".to_string()];
    assert_eq!(find_latest(&versions), Some("1.0.0".to_string()));
}

#[test]
fn semver_utils_test_find_latest_empty() {
    assert_eq!(find_latest(&[]), None);
}

// --- find_update_candidates tests ---

#[test]
fn test_find_update_candidates_in_range_only() {
    // Versions in-range but newer than base are still reported as patch updates
    let versions = vec!["1.2.5".to_string(), "1.2.3".to_string()];
    let candidates = find_update_candidates("^1.2.0", &versions).unwrap();
    assert_eq!(candidates.in_range, Some("1.2.5".to_string()));
    assert_eq!(candidates.patch, Some("1.2.5".to_string()));
    assert!(candidates.minor.is_none());
    assert!(candidates.major.is_none());
}

#[test]
fn test_find_update_candidates_patch() {
    let versions = vec!["1.2.5".to_string()];
    let candidates = find_update_candidates("=1.2.0", &versions).unwrap();
    assert_eq!(candidates.patch, Some("1.2.5".to_string()));
    assert!(candidates.minor.is_none());
    assert!(candidates.major.is_none());
}

#[test]
fn test_find_update_candidates_minor() {
    let versions = vec!["1.3.0".to_string(), "1.2.5".to_string()];
    let candidates = find_update_candidates("~1.2.0", &versions).unwrap();
    // ~1.2.0 is >=1.2.0 <1.3.0 so 1.2.5 is in range (and a patch update), 1.3.0 is a minor update
    assert_eq!(candidates.in_range, Some("1.2.5".to_string()));
    assert_eq!(candidates.minor, Some("1.3.0".to_string()));
    assert_eq!(candidates.patch, Some("1.2.5".to_string()));
    assert!(candidates.major.is_none());
}

#[test]
fn test_find_update_candidates_major() {
    let versions = vec!["2.0.0".to_string(), "1.2.5".to_string()];
    let candidates = find_update_candidates("^1.2.0", &versions).unwrap();
    assert_eq!(candidates.in_range, Some("1.2.5".to_string()));
    assert_eq!(candidates.major, Some("2.0.0".to_string()));
    assert!(candidates.minor.is_none());
    assert_eq!(candidates.patch, Some("1.2.5".to_string()));
}

#[test]
fn test_find_update_candidates_picks_best() {
    // Multiple versions available across all tiers — best of each should win.
    let versions = vec![
        "3.0.0".to_string(),
        "2.1.0".to_string(),
        "2.0.0".to_string(),
        "1.3.0".to_string(),
        "1.2.2".to_string(),
        "1.2.1".to_string(),
    ];
    let candidates = find_update_candidates("~1.2.0", &versions).unwrap();
    // ~1.2.0 is >=1.2.0 <1.3.0; 1.2.2 and 1.2.1 are in range (and patch updates), best patch is 1.2.2
    assert_eq!(candidates.in_range, Some("1.2.2".to_string()));
    assert_eq!(candidates.minor, Some("1.3.0".to_string()));
    assert_eq!(candidates.major, Some("3.0.0".to_string()));
    assert_eq!(candidates.patch, Some("1.2.2".to_string()));
}

#[test]
fn test_find_update_candidates_invalid_constraint() {
    let versions = vec!["1.0.0".to_string()];
    // Wildcard "*" can't be parsed to a base version
    assert!(find_update_candidates("*", &versions).is_none());
}

#[test]
fn test_find_update_candidates_empty_versions() {
    let candidates = find_update_candidates("^1.0.0", &[]).unwrap();
    assert!(candidates.in_range.is_none());
    assert!(candidates.patch.is_none());
    assert!(candidates.minor.is_none());
    assert!(candidates.major.is_none());
}

// --- is_prerelease_constraint tests ---

#[test]
fn test_is_prerelease_constraint_yes() {
    assert!(is_prerelease_constraint("^1.0.0-alpha.1"));
    assert!(is_prerelease_constraint("1.0.0-beta.2"));
    assert!(is_prerelease_constraint("~2.0.0-rc.1"));
}

#[test]
fn test_is_prerelease_constraint_no() {
    assert!(!is_prerelease_constraint("^1.0.0"));
    assert!(!is_prerelease_constraint("~1.2.3"));
    assert!(!is_prerelease_constraint(">=2.0.0"));
}

// --- prerelease_newer_than_constraint tests ---

#[test]
fn test_prerelease_newer_than_constraint_yes() {
    assert!(prerelease_newer_than_constraint("^1.0.0", "2.0.0-alpha.1"));
    assert!(prerelease_newer_than_constraint("^1.0.0", "1.1.0-rc.1"));
    assert!(prerelease_newer_than_constraint("~1.2.0", "1.3.0-beta.1"));
}

#[test]
fn test_prerelease_newer_than_constraint_no() {
    // Pre-release same base as constraint base — not strictly greater
    assert!(!prerelease_newer_than_constraint("^1.0.0", "1.0.0-alpha.1"));
    // Pre-release older than constraint base
    assert!(!prerelease_newer_than_constraint("^2.0.0", "1.9.9-rc.1"));
}

#[test]
fn test_prerelease_newer_than_constraint_invalid() {
    assert!(!prerelease_newer_than_constraint("^1.0.0", "not-a-version"));
    assert!(!prerelease_newer_than_constraint("*", "2.0.0-alpha.1"));
}
