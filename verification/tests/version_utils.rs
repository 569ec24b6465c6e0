//! Constraints and candidates.
use update_versions_lsp::version_utils::normalize::{deno, ruby, standard};
use update_versions_lsp::version_utils::{
    build_replacement_text, extract_base_version, find_latest, find_update_candidates,
    is_prerelease_constraint, prerelease_newer_than_constraint,
};

// --- extract_base_version ---

#[test]
fn mod_test_extract_base_caret() {
    assert_eq!(extract_base_version("^1.2.3"), Some("1.2.3".to_string()));
}

#[test]
fn mod_test_extract_base_tilde() {
    assert_eq!(extract_base_version("~1.2.3"), Some("1.2.3".to_string()));
}

#[test]
fn mod_test_extract_base_gte() {
    assert_eq!(extract_base_version(">=1.2.0"), Some("1.2.0".to_string()));
}

#[test]
fn mod_test_extract_base_bare() {
    assert_eq!(extract_base_version("1.2.3"), Some("1.2.3".to_string()));
}

#[test]
fn mod_test_extract_base_two_component() {
    assert_eq!(extract_base_version("~1.2"), Some("1.2.0".to_string()));
}

#[test]
fn mod_test_extract_base_one_component() {
    assert_eq!(extract_base_version("^1"), Some("1.0.0".to_string()));
}

#[test]
fn test_extract_base_v_prefix() {
    assert_eq!(extract_base_version("v12.6.1"), Some("12.6.1".to_string()));
}

#[test]
fn test_extract_base_ruby_pessimistic() {
    assert_eq!(extract_base_version("~> 7.1"), Some("7.1.0".to_string()));
}

// --- build_replacement_text ---

#[test]
fn mod_test_replace_caret() {
    assert_eq!(build_replacement_text("^1.2.0", "2.0.0"), "^2.0.0");
}

#[test]
fn mod_test_replace_tilde() {
    assert_eq!(build_replacement_text("~1.2.0", "1.2.5"), "~1.2.5");
}

#[test]
fn mod_test_replace_gte() {
    assert_eq!(build_replacement_text(">=1.0.0", "2.0.0"), ">=2.0.0");
}

#[test]
fn mod_test_replace_bare() {
    assert_eq!(build_replacement_text("1.0.0", "2.0.0"), "2.0.0");
}

#[test]
fn mod_test_replace_ruby_pessimistic() {
    assert_eq!(build_replacement_text("~>1.2", "1.3.0"), "~>1.3.0");
}

#[test]
fn test_replace_v_prefix() {
    assert_eq!(build_replacement_text("v12.6.1", "13.0.0"), "v13.0.0");
}

// --- find_latest ---

#[test]
fn mod_test_find_latest_picks_highest() {
    let versions = vec![
        "1.0.0".to_string(),
        "2.0.0".to_string(),
        "1.5.0".to_string(),
    ];
    assert_eq!(find_latest(&versions), Some("2.0.0".to_string()));
}

#[test]
fn mod_test_find_latest_ignores_prerelease() {
    let versions = vec!["1.0.0".to_string(), "2.0.0-alpha.1".to_string()];
    assert_eq!(find_latest(&versions), Some("1.0.0".to_string()));
}

#[test]
fn mod_test_find_latest_empty() {
    assert_eq!(find_latest(&[]), None);
}

// --- find_update_candidates (standard semver: npm, Cargo, Composer, Pub) ---

#[test]
fn test_candidates_in_range_only() {
    let versions = vec!["1.2.5".to_string(), "1.2.3".to_string()];
    let c = find_update_candidates("^1.2.0", &versions, standard).unwrap();
    assert_eq!(c.in_range, Some("1.2.5".to_string()));
    assert_eq!(c.patch, Some("1.2.5".to_string()));
    assert!(c.minor.is_none());
    assert!(c.major.is_none());
}

#[test]
fn test_candidates_patch() {
    let versions = vec!["1.2.5".to_string()];
    let c = find_update_candidates("=1.2.0", &versions, standard).unwrap();
    assert_eq!(c.patch, Some("1.2.5".to_string()));
    assert!(c.minor.is_none());
    assert!(c.major.is_none());
}

#[test]
fn test_candidates_minor() {
    let versions = vec!["1.3.0".to_string(), "1.2.5".to_string()];
    let c = find_update_candidates("~1.2.0", &versions, standard).unwrap();
    assert_eq!(c.in_range, Some("1.2.5".to_string()));
    assert_eq!(c.minor, Some("1.3.0".to_string()));
    assert_eq!(c.patch, Some("1.2.5".to_string()));
    assert!(c.major.is_none());
}

#[test]
fn test_candidates_major() {
    let versions = vec!["2.0.0".to_string(), "1.2.5".to_string()];
    let c = find_update_candidates("^1.2.0", &versions, standard).unwrap();
    assert_eq!(c.in_range, Some("1.2.5".to_string()));
    assert_eq!(c.major, Some("2.0.0".to_string()));
    assert!(c.minor.is_none());
    assert_eq!(c.patch, Some("1.2.5".to_string()));
}

#[test]
fn test_candidates_picks_best() {
    let versions = vec![
        "3.0.0".to_string(),
        "2.1.0".to_string(),
        "2.0.0".to_string(),
        "1.3.0".to_string(),
        "1.2.2".to_string(),
        "1.2.1".to_string(),
    ];
    let c = find_update_candidates("~1.2.0", &versions, standard).unwrap();
    assert_eq!(c.in_range, Some("1.2.2".to_string()));
    assert_eq!(c.minor, Some("1.3.0".to_string()));
    assert_eq!(c.major, Some("3.0.0".to_string()));
    assert_eq!(c.patch, Some("1.2.2".to_string()));
}

#[test]
fn test_candidates_invalid_constraint() {
    let versions = vec!["1.0.0".to_string()];
    assert!(find_update_candidates("*", &versions, standard).is_none());
}

#[test]
fn test_candidates_empty_versions() {
    let c = find_update_candidates("^1.0.0", &[], standard).unwrap();
    assert!(c.in_range.is_none());
    assert!(c.patch.is_none());
    assert!(c.minor.is_none());
    assert!(c.major.is_none());
}

// --- find_update_candidates with ruby normaliser (RubyGems, Dub) ---

#[test]
fn test_candidates_ruby_pessimistic() {
    let versions = vec![
        "7.1.0".to_string(),
        "7.2.0".to_string(),
        "8.0.0".to_string(),
    ];
    let c = find_update_candidates("~> 7.1", &versions, ruby).unwrap();
    assert_eq!(c.in_range, Some("7.2.0".to_string()));
    assert_eq!(c.minor, Some("7.2.0".to_string()));
    assert_eq!(c.major, Some("8.0.0".to_string()));
    assert!(c.patch.is_none());
}

// --- find_update_candidates with deno normaliser (Deno deno.land/x) ---

#[test]
fn test_candidates_deno_v_prefix() {
    let versions = vec![
        "12.6.1".to_string(),
        "12.7.0".to_string(),
        "13.0.0".to_string(),
    ];
    let c = find_update_candidates("v12.6.1", &versions, deno).unwrap();
    assert_eq!(c.in_range, Some("12.7.0".to_string()));
    assert_eq!(c.minor, Some("12.7.0".to_string()));
    assert_eq!(c.major, Some("13.0.0".to_string()));
    assert!(c.patch.is_none());
}

// --- is_prerelease_constraint ---

#[test]
fn test_is_prerelease_yes() {
    assert!(is_prerelease_constraint("^1.0.0-alpha.1"));
    assert!(is_prerelease_constraint("1.0.0-beta.2"));
    assert!(is_prerelease_constraint("~2.0.0-rc.1"));
}

#[test]
fn test_is_prerelease_no() {
    assert!(!is_prerelease_constraint("^1.0.0"));
    assert!(!is_prerelease_constraint("~1.2.3"));
    assert!(!is_prerelease_constraint(">=2.0.0"));
}

// --- prerelease_newer_than_constraint ---

#[test]
fn test_prerelease_newer_yes() {
    assert!(prerelease_newer_than_constraint("^1.0.0", "2.0.0-alpha.1"));
    assert!(prerelease_newer_than_constraint("^1.0.0", "1.1.0-rc.1"));
    assert!(prerelease_newer_than_constraint("~1.2.0", "1.3.0-beta.1"));
}

#[test]
fn test_prerelease_newer_no() {
    assert!(!prerelease_newer_than_constraint("^1.0.0", "1.0.0-alpha.1"));
    assert!(!prerelease_newer_than_constraint("^2.0.0", "1.9.9-rc.1"));
}

#[test]
fn test_prerelease_newer_invalid() {
    assert!(!prerelease_newer_than_constraint("^1.0.0", "not-a-version"));
    assert!(!prerelease_newer_than_constraint("*", "2.0.0-alpha.1"));
}
