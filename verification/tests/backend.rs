//! Statuses and labels.
use update_versions_lsp::backend::{classify_dependency, hint_label};
use update_versions_lsp::cache::VersionResult;
use update_versions_lsp::locate::Range;
use update_versions_lsp::providers::{DependencyStatus, ParsedDependency};
use update_versions_lsp::version_utils;

#[test]
fn test_hint_label_up_to_date() {
    let status = DependencyStatus::UpToDate {
        version: "1.0.0".to_string(),
    };
    assert_eq!(hint_label(&status), "✔ latest");
}

#[test]
fn test_hint_label_major_update() {
    let status = DependencyStatus::UpdateAvailable {
        major: Some("2.0.0".to_string()),
        minor: None,
        patch: None,
    };
    assert_eq!(hint_label(&status), "↑ 2.0.0 (major)");
}

#[test]
fn test_hint_label_minor_update() {
    let status = DependencyStatus::UpdateAvailable {
        major: None,
        minor: Some("1.1.0".to_string()),
        patch: None,
    };
    assert_eq!(hint_label(&status), "↑ 1.1.0 (minor)");
}

#[test]
fn test_hint_label_patch_update() {
    let status = DependencyStatus::UpdateAvailable {
        major: None,
        minor: None,
        patch: Some("1.0.1".to_string()),
    };
    assert_eq!(hint_label(&status), "↑ 1.0.1 (patch)");
}

#[test]
fn test_hint_label_version_not_found_with_candidate() {
    let status = DependencyStatus::VersionNotFound {
        latest: "2.0.0".to_string(),
        patch: None,
        minor: None,
        major: Some("2.0.0".to_string()),
    };
    assert_eq!(hint_label(&status), "✘ not found, ↑ 2.0.0 (major)");
}

#[test]
fn test_hint_label_version_not_found_no_candidate() {
    // No higher candidate — falls back to showing latest.
    let status = DependencyStatus::VersionNotFound {
        latest: "1.0.0".to_string(),
        patch: None,
        minor: None,
        major: None,
    };
    assert_eq!(hint_label(&status), "✘ not found, ↑ 1.0.0 (latest)");
}

#[test]
fn test_hint_label_not_found() {
    assert_eq!(hint_label(&DependencyStatus::NotFound), "✘ not found");
}

#[test]
fn test_hint_label_unsupported() {
    assert_eq!(hint_label(&DependencyStatus::Unsupported), "⊘ unsupported");
}

#[test]
fn test_hint_label_loading() {
    assert_eq!(hint_label(&DependencyStatus::Loading), "… fetching");
}

#[test]
fn test_classify_dependency_up_to_date() {
    // Only the base version itself is available — nothing newer, so it's up to date.
    let dep = ParsedDependency {
        name: "react".to_string(),
        version_constraint: "^18.2.0".to_string(),
        version_range: Range::default(),
    };
    let result = VersionResult {
        stable_versions: vec!["18.2.0".to_string()],
        prerelease: None,
    };
    match classify_dependency(&dep, &result, version_utils::normalize::standard) {
        DependencyStatus::UpToDate { .. } => {}
        other => panic!("Expected UpToDate, got {:?}", other),
    }
}

#[test]
fn test_classify_dependency_major_update() {
    // ^1.0.0 is satisfied by 1.0.0 (in_range = Some), so 2.0.0 shows as UpdateAvailable.
    let dep = ParsedDependency {
        name: "react".to_string(),
        version_constraint: "^1.0.0".to_string(),
        version_range: Range::default(),
    };
    let result = VersionResult {
        stable_versions: vec!["1.0.0".to_string(), "2.0.0".to_string()],
        prerelease: None,
    };
    match classify_dependency(&dep, &result, version_utils::normalize::standard) {
        DependencyStatus::UpdateAvailable {
            major: Some(_),
            minor: None,
            patch: None,
        } => {}
        other => panic!("Expected Major update, got {:?}", other),
    }
}

#[test]
fn test_classify_dependency_not_found() {
    let dep = ParsedDependency {
        name: "nonexistent".to_string(),
        version_constraint: "^1.0.0".to_string(),
        version_range: Range::default(),
    };
    let result = VersionResult {
        stable_versions: vec![],
        prerelease: None,
    };
    match classify_dependency(&dep, &result, version_utils::normalize::standard) {
        DependencyStatus::NotFound => {}
        other => panic!("Expected NotFound, got {:?}", other),
    }
}

#[test]
fn test_classify_dependency_patch_update() {
    // ~1.0.0 (>=1.0.0, <1.1.0) is satisfied by 1.0.5, so it shows as UpdateAvailable.
    let dep = ParsedDependency {
        name: "serde".to_string(),
        version_constraint: "~1.0.0".to_string(),
        version_range: Range::default(),
    };
    let result = VersionResult {
        stable_versions: vec!["1.0.0".to_string(), "1.0.5".to_string()],
        prerelease: None,
    };
    match classify_dependency(&dep, &result, version_utils::normalize::standard) {
        DependencyStatus::UpdateAvailable {
            patch: Some(_),
            minor: None,
            major: None,
        } => {}
        other => panic!("Expected patch update, got {:?}", other),
    }
}

#[test]
fn test_classify_dependency_version_not_found_with_higher() {
    // =1.0.0 pins an exact version that doesn't exist; a higher version is available.
    let dep = ParsedDependency {
        name: "serde".to_string(),
        version_constraint: "=1.0.0".to_string(),
        version_range: Range::default(),
    };
    let result = VersionResult {
        stable_versions: vec!["1.0.5".to_string()],
        prerelease: None,
    };
    match classify_dependency(&dep, &result, version_utils::normalize::standard) {
        DependencyStatus::VersionNotFound {
            latest,
            patch: Some(_),
            minor: None,
            major: None,
        } => assert_eq!(latest, "1.0.5"),
        other => panic!(
            "Expected VersionNotFound with patch candidate, got {:?}",
            other
        ),
    }
}

#[test]
fn test_classify_dependency_version_not_found_no_candidates() {
    // Pinned above all available versions — latest is still offered as fallback.
    let dep = ParsedDependency {
        name: "pkg".to_string(),
        version_constraint: "=99.0.0".to_string(),
        version_range: Range::default(),
    };
    let result = VersionResult {
        stable_versions: vec!["1.0.0".to_string()],
        prerelease: None,
    };
    match classify_dependency(&dep, &result, version_utils::normalize::standard) {
        DependencyStatus::VersionNotFound {
            latest,
            patch: None,
            minor: None,
            major: None,
        } => assert_eq!(latest, "1.0.0"),
        other => panic!(
            "Expected VersionNotFound with no candidates, got {:?}",
            other
        ),
    }
}

#[test]
fn test_classify_dependency_minor_update() {
    let dep = ParsedDependency {
        name: "tokio".to_string(),
        version_constraint: "~1.2.0".to_string(),
        version_range: Range::default(),
    };
    let result = VersionResult {
        stable_versions: vec!["1.3.0".to_string(), "1.2.5".to_string()],
        prerelease: None,
    };
    match classify_dependency(&dep, &result, version_utils::normalize::standard) {
        DependencyStatus::UpdateAvailable {
            minor: Some(_),
            major: None,
            ..
        } => {}
        other => panic!("Expected minor update, got {:?}", other),
    }
}

#[test]
fn test_classify_dependency_unsupported() {
    let dep = ParsedDependency {
        name: "pkg".to_string(),
        version_constraint: "*".to_string(),
        version_range: Range::default(),
    };
    let result = VersionResult {
        stable_versions: vec!["1.0.0".to_string()],
        prerelease: None,
    };
    match classify_dependency(&dep, &result, version_utils::normalize::standard) {
        DependencyStatus::Unsupported => {}
        other => panic!("Expected Unsupported, got {:?}", other),
    }
}
