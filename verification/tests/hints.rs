//! Tooltips, hints and code actions.
use update_versions_lsp::backend::actions::{actions_on, Action};
use update_versions_lsp::backend::hints::hint_for;
use update_versions_lsp::backend::hint_tooltip;
use update_versions_lsp::locate::{Position, Range};
use update_versions_lsp::providers::{DependencyStatus, ParsedDependency, ResolvedDependency};
use update_versions_lsp::text::chars::chars_of;
use update_versions_lsp::text::lines::lines_of;

fn resolved(
    constraint: &str,
    line: u32,
    status: DependencyStatus,
    prerelease: Option<&str>,
) -> ResolvedDependency {
    ResolvedDependency {
        parsed: ParsedDependency {
            name: "pkg".to_string(),
            version_constraint: constraint.to_string(),
            version_range: Range {
                start: Position { line, character: 4 },
                end: Position { line, character: 9 },
            },
        },
        status,
        prerelease: prerelease.map(|p| p.to_string()),
    }
}

fn update(patch: Option<&str>, minor: Option<&str>, major: Option<&str>) -> DependencyStatus {
    DependencyStatus::UpdateAvailable {
        patch: patch.map(|v| v.to_string()),
        minor: minor.map(|v| v.to_string()),
        major: major.map(|v| v.to_string()),
    }
}

fn missing(patch: Option<&str>, latest: &str) -> DependencyStatus {
    DependencyStatus::VersionNotFound {
        latest: latest.to_string(),
        patch: patch.map(|v| v.to_string()),
        minor: None,
        major: None,
    }
}

fn titles(actions: &[Action]) -> Vec<&str> {
    actions.iter().map(|a| a.title.as_str()).collect()
}

#[test]
fn tooltips_tell_the_status() {
    let tooltip = |status| hint_tooltip(&resolved("^1.0.0", 0, status, Some("2.0.0-rc.1")));
    assert_eq!(
        tooltip(DependencyStatus::UpToDate {
            version: "1.0.0".to_string()
        }),
        "✔ Up to date (1.0.0)"
    );
    assert_eq!(
        tooltip(update(Some("1.0.1"), Some("1.1.0"), Some("2.0.0"))),
        "Current: ^1.0.0\nMajor: ↑ 2.0.0\nMinor: ↑ 1.1.0\nPatch: ↑ 1.0.1"
    );
    assert_eq!(
        tooltip(update(None, Some("1.1.0"), None)),
        "Current: ^1.0.0\nMinor: ↑ 1.1.0"
    );
    assert_eq!(
        tooltip(missing(Some("1.0.1"), "3.0.0")),
        "Version '^1.0.0' not found in registry\nPatch: ↑ 1.0.1"
    );
    assert_eq!(
        tooltip(missing(None, "0.9.0")),
        "Version '^1.0.0' not found in registry\nLatest: 0.9.0"
    );
    assert_eq!(
        tooltip(DependencyStatus::NotFound),
        "Package 'pkg' not found in registry"
    );
    assert_eq!(
        tooltip(DependencyStatus::Unsupported),
        "Version constraint '^1.0.0' is not supported"
    );
    assert_eq!(
        tooltip(DependencyStatus::Loading),
        "Fetching version information…"
    );
}

#[test]
fn tooltips_name_the_prerelease_to_those_on_one() {
    let tooltip = |status| hint_tooltip(&resolved("^1.0.0-beta.1", 0, status, Some("1.0.0-rc.1")));
    assert_eq!(
        tooltip(update(None, None, Some("2.0.0"))),
        "Current: ^1.0.0-beta.1\nMajor: ↑ 2.0.0\nPrerelease: 1.0.0-rc.1"
    );
    assert_eq!(
        tooltip(DependencyStatus::NotFound),
        "Package 'pkg' not found in registry\nPrerelease: 1.0.0-rc.1"
    );
}

#[test]
fn hints_stand_at_the_end_of_the_line() {
    let lines = lines_of(&chars_of("one\n\"ü\": 1\n"));
    let hint = hint_for(&lines, &resolved("1", 1, DependencyStatus::NotFound, None));
    assert_eq!(hint.position, Position { line: 1, character: 7 });
    assert_eq!(hint.label, "✘ not found");
    let beyond = hint_for(&lines, &resolved("1", 9, DependencyStatus::Loading, None));
    assert_eq!(beyond.position, Position { line: 9, character: 0 });
    assert_eq!(beyond.label, "… fetching");
}

#[test]
fn actions_replace_the_constraint() {
    let deps = vec![
        resolved("^1.0.0", 3, update(Some("1.0.1"), Some("1.1.0"), Some("2.0.0")), None),
        resolved("~1.0.0", 4, update(Some("1.0.1"), None, None), None),
    ];
    let actions = actions_on(&deps, false, 3);
    assert_eq!(
        titles(&actions),
        [
            "Update pkg to 1.0.1 (patch)",
            "Update pkg to 1.1.0 (minor)",
            "Update pkg to 2.0.0 (major)"
        ]
    );
    let texts: Vec<&str> = actions.iter().map(|a| a.new_text.as_str()).collect();
    assert_eq!(texts, ["^1.0.1", "^1.1.0", "^2.0.0"]);
    let preferred: Vec<bool> = actions.iter().map(|a| a.is_preferred).collect();
    assert_eq!(preferred, [true, false, false]);
    assert!(actions.iter().all(|a| a.range == deps[0].parsed.version_range));
    assert_eq!(titles(&actions_on(&deps, false, 4)), ["Update pkg to 1.0.1 (patch)"]);
    assert!(actions_on(&deps, false, 5).is_empty());
}

#[test]
fn the_latest_is_offered_where_nothing_fits() {
    let deps = vec![resolved("=9.0.0", 0, missing(None, "2.0.0"), None)];
    let actions = actions_on(&deps, false, 0);
    assert_eq!(titles(&actions), ["Update pkg to 2.0.0 (latest)"]);
    assert_eq!(actions[0].new_text, "=2.0.0");
    assert!(actions[0].is_preferred);
    let deps = vec![resolved("=1.0.0", 0, missing(Some("1.0.5"), "2.0.0"), None)];
    assert_eq!(
        titles(&actions_on(&deps, false, 0)),
        ["Update pkg to 1.0.5 (patch)"]
    );
}

#[test]
fn prereleases_are_offered_unless_hidden() {
    let up_to_date = || DependencyStatus::UpToDate {
        version: "1.0.0".to_string(),
    };
    let newer = vec![resolved("^1.0.0", 0, up_to_date(), Some("1.1.0-rc.1"))];
    let actions = actions_on(&newer, false, 0);
    assert_eq!(titles(&actions), ["Update pkg to 1.1.0-rc.1 (prerelease)"]);
    assert_eq!(actions[0].new_text, "^1.1.0-rc.1");
    assert!(!actions[0].is_preferred);
    assert!(actions_on(&newer, true, 0).is_empty());
    let older = vec![resolved("^1.0.0", 0, up_to_date(), Some("1.0.0-rc.1"))];
    assert!(actions_on(&older, false, 0).is_empty());
}

#[test]
fn prereleases_are_offered_to_those_on_one() {
    let deps = vec![resolved(
        "1.0.0-alpha.1",
        0,
        update(None, None, Some("2.0.0")),
        Some("1.0.0-beta.1"),
    )];
    assert_eq!(
        titles(&actions_on(&deps, true, 0)),
        [
            "Update pkg to 2.0.0 (major)",
            "Update pkg to 1.0.0-beta.1 (prerelease)"
        ]
    );
    let same = vec![resolved(
        "1.0.0-alpha.1",
        0,
        DependencyStatus::NotFound,
        Some("1.0.0-alpha.1"),
    )];
    assert!(actions_on(&same, false, 0).is_empty());
}
