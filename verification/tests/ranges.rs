//! Constraints of more than one bound.
use update_versions_lsp::backend::hint_tooltip;
use update_versions_lsp::backend::status::status_for;
use update_versions_lsp::cache::VersionResult;
use update_versions_lsp::locate::Range;
use update_versions_lsp::providers::{DependencyStatus, ParsedDependency, ResolvedDependency};
use update_versions_lsp::semver_utils;
use update_versions_lsp::version_utils::normalize::python;
use update_versions_lsp::version_utils::{
    build_replacement_text, extract_base_version, is_prerelease_constraint,
};

#[test]
fn both_bounds_of_a_pair_move() {
    for (original, version, expected) in [
        (">=1.0.0 <2.0.0", "2.0.0", ">=2.0.0 <3.0.0"),
        (">=1.0.0 <2.0.0", "1.4.2", ">=1.4.2 <2.0.0"),
        (">= 1.5, < 2", "2.3.0", ">= 2.3.0, < 3.0.0"),
        (">1.2.0,<=1.4.0", "1.6.1", ">1.6.1,<=1.8.0"),
        (">=1.2.3 <1.2.9", "1.3.0", ">=1.3.0 <1.3.6"),
        (">=0.5.0 <3.0.0", "4.1.0", ">=4.1.0 <7.0.0"),
        (">=1.0.0 <2.0.0", "2.0.0-rc.1", ">=2.0.0-rc.1 <3.0.0"),
        (">=1.0.0<2.0.0", "2.0.0", ">=2.0.0<3.0.0"),
    ] {
        assert_eq!(build_replacement_text(original, version), expected);
        assert_eq!(semver_utils::build_replacement_text(original, version), expected);
    }
}

#[test]
fn an_upper_bound_stays_within_the_numbers() {
    let version = format!("{}.0.0", u64::MAX);
    assert_eq!(
        build_replacement_text(">=1.0.0 <2.0.0", &version),
        format!(">={} <{}", version, version)
    );
}

#[test]
fn a_pair_moves_twice() {
    let once = build_replacement_text(">=1.2.0, <1.5.0", "2.0.0");
    assert_eq!(once, ">=2.0.0, <2.3.0");
    assert_eq!(build_replacement_text(&once, "3.1.4"), ">=3.1.4, <3.4.0");
    assert_eq!(build_replacement_text(">=1.2.0, <1.5.0", "3.1.4"), ">=3.1.4, <3.4.0");
    assert_eq!(extract_base_version(&once).as_deref(), Some("2.0.0"));
}

#[test]
fn other_constraints_become_bare() {
    for original in [
        "^1.0 || ^2.0",
        "1.2.3 - 2.3.4",
        ">=1.0 <2.0 !=1.5",
        ">=2.0.0 <1.0.0",
        ">=1.0.0 <1.0.0",
        "^1.0 <2.0",
        "<2.0.0 >=1.0.0",
        ">=1.0.0 <x1",
        ">=1.0.0 >2.0.0",
    ] {
        assert_eq!(build_replacement_text(original, "2.0.0"), "2.0.0");
    }
    assert_eq!(build_replacement_text(">=1.0.0 <2.0.0", "2.x"), "2.x");
    // White space at the end adds no bound.
    assert_eq!(build_replacement_text("^1.0 ", "2.0.0"), "^2.0.0");
}

#[test]
fn the_base_is_the_first_lower_bound() {
    assert_eq!(extract_base_version(">=1.2, <2").as_deref(), Some("1.2.0"));
    assert_eq!(extract_base_version("^1.0 || ^2.0").as_deref(), Some("1.0.0"));
    assert_eq!(semver_utils::extract_base_version(">=1.2, <2").as_deref(), Some("1.2.0"));
    assert!(is_prerelease_constraint(">=1.0.0-rc.1, <2.0.0"));
    // An upper bound is no base where another bound follows it.
    assert!(!is_prerelease_constraint("<1.0.0-rc.1, >=0.5.0"));
}

fn known() -> VersionResult {
    VersionResult {
        stable_versions: vec!["2.1.0".to_string(), "1.4.0".to_string(), "1.0.0".to_string()],
        prerelease: None,
    }
}

#[test]
fn a_pair_is_updated() {
    let requirement = python(">=1.0,<2.0");
    match status_for(">=1.0,<2.0", &requirement, &known()) {
        DependencyStatus::UpdateAvailable { patch, minor, major } => {
            assert_eq!(patch, None);
            assert_eq!(minor.as_deref(), Some("1.4.0"));
            assert_eq!(major.as_deref(), Some("2.1.0"));
        }
        other => panic!("{:?}", other),
    }
    let updated = build_replacement_text(">=1.0,<2.0", "2.1.0");
    assert_eq!(updated, ">=2.1.0,<3.0.0");
    match status_for(&updated, &python(&updated), &known()) {
        DependencyStatus::UpToDate { version } => assert_eq!(version, "2.1.0"),
        other => panic!("{:?}", other),
    }
}

fn tooltip(constraint: &str, status: DependencyStatus, prerelease: Option<&str>) -> String {
    hint_tooltip(&ResolvedDependency {
        parsed: ParsedDependency {
            name: "p".to_string(),
            version_constraint: constraint.to_string(),
            version_range: Range::default(),
        },
        status,
        prerelease: prerelease.map(|v| v.to_string()),
    })
}

#[test]
fn a_lost_operator_is_warned_of() {
    let update = || DependencyStatus::UpdateAvailable {
        patch: None,
        minor: None,
        major: Some("2.0.0".to_string()),
    };
    assert_eq!(
        tooltip("^1.0, <1.8", update(), None),
        "Current: ^1.0, <1.8\nMajor: ↑ 2.0.0\nWarning: operator not preserved"
    );
    assert_eq!(
        tooltip(">=1.0, <1.8", update(), None),
        "Current: >=1.0, <1.8\nMajor: ↑ 2.0.0"
    );
    assert_eq!(tooltip("^1.0", update(), None), "Current: ^1.0\nMajor: ↑ 2.0.0");
    let missing = DependencyStatus::VersionNotFound {
        latest: "0.9.0".to_string(),
        patch: None,
        minor: None,
        major: None,
    };
    assert_eq!(
        tooltip("^1 || ^2", missing, None),
        "Version '^1 || ^2' not found in registry\nLatest: 0.9.0\nWarning: operator not preserved"
    );
    // Without an update there is nothing to lose, but for a newer prerelease.
    assert_eq!(
        tooltip("^1 || ^2", DependencyStatus::Unsupported, None),
        "Version constraint '^1 || ^2' is not supported"
    );
    assert_eq!(
        tooltip("^1 || ^2", DependencyStatus::Unsupported, Some("3.0.0-rc.1")),
        "Version constraint '^1 || ^2' is not supported\nWarning: operator not preserved"
    );
}

#[test]
fn a_prerelease_with_a_release_is_not_up_to_date() {
    let result = VersionResult {
        stable_versions: vec!["1.0.0".to_string()],
        prerelease: None,
    };
    match status_for("^1.0.0-rc.1", "^1.0.0-rc.1", &result) {
        DependencyStatus::UpdateAvailable { patch, minor, major } => {
            assert_eq!(patch.as_deref(), Some("1.0.0"));
            assert!(minor.is_none() && major.is_none());
        }
        other => panic!("{:?}", other),
    }
}
