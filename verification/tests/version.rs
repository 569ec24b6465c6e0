//! Versions: text, order and requirements.
use update_versions_lsp::version::Version;
use update_versions_lsp::version_utils::{candidates_for, select_candidates};

fn version(text: &str) -> Version {
    Version::parse(text).unwrap()
}

#[test]
fn parsing_tells_the_fields() {
    let v = version("1.22.333-alpha.7+build.009");
    assert_eq!((v.major, v.minor, v.patch), (1, 22, 333));
    assert_eq!(v.pre, "alpha.7");
    assert_eq!(v.build, "build.009");
    assert!(!v.is_stable());
    assert!(version("1.0.0+b").is_stable());
}

#[test]
fn parsing_refuses_what_is_no_version() {
    for text in [
        "", "1", "1.2", "1.2.3.4", "01.2.3", "1.2.3-", "1.2.3+", "1.2.3-01", "1.2.3-a..b", "v1.2.3",
        " 1.2.3", "1.2.3 ", "1.2.18446744073709551616", "1.2.3-ä",
    ] {
        assert!(Version::parse(text).is_none(), "{:?}", text);
    }
}

#[test]
fn text_and_version_tell_each_other() {
    for text in ["0.0.0", "1.2.3", "1.2.3-rc.1", "1.2.3+001", "1.2.3--.-+0.a-b"] {
        assert_eq!(version(text).to_string(), text);
    }
}

#[test]
fn versions_are_ordered() {
    let ascending = [
        "0.9.9",
        "1.0.0-0",
        "1.0.0-2",
        "1.0.0-12",
        "1.0.0-alpha",
        "1.0.0-alpha.1",
        "1.0.0-alpha.beta",
        "1.0.0-beta",
        "1.0.0-beta.2",
        "1.0.0-beta.11",
        "1.0.0-pre12",
        "1.0.0-pre8",
        "1.0.0-rc.1",
        "1.0.0",
        "1.0.0+0",
        "1.0.0+00",
        "1.0.0+1",
        "1.0.0+a",
        "1.0.0+a.1",
        "1.0.10",
        "1.2.0",
        "1.11.0",
        "2.0.0",
    ];
    for (i, a) in ascending.iter().enumerate() {
        for (j, b) in ascending.iter().enumerate() {
            assert_eq!(version(a).precedes(&version(b)), i < j, "{} {}", a, b);
        }
    }
}

#[test]
fn requirements_decide_what_is_in_range() {
    let versions: Vec<String> = ["1.9.0", "1.2.3", "2.0.0"].iter().map(|s| s.to_string()).collect();
    let c = candidates_for("1.2.0", "^1.2.0", &versions).unwrap();
    assert_eq!(c.in_range.as_deref(), Some("1.9.0"));
    let c = candidates_for("1.2.0", "~1.2.0", &versions).unwrap();
    assert_eq!(c.in_range.as_deref(), Some("1.2.3"));
    let c = candidates_for("1.2.0", ">=3", &versions).unwrap();
    assert_eq!(c.in_range, None);
    assert!(candidates_for("1.2.0", "1.2.0 || 2", &versions).is_none());
    assert!(candidates_for("latest", "^1.2.0", &versions).is_none());
}

#[test]
fn candidates_are_selected_by_their_numbers() {
    let versions: Vec<String> = [
        "1.2.4", "1.2.10", "1.3.0", "1.10.1", "2.0.0-rc.1", "2.0.0", "10.0.0", "0.9.0", "1.2.3", "x",
    ]
    .iter()
    .map(|s| s.to_string())
    .collect();
    let mut in_range = vec![false; versions.len()];
    in_range[0] = true;
    in_range[8] = true;
    // A mark on a prerelease, or on what is no version, does not count.
    in_range[4] = true;
    in_range[9] = true;
    let c = select_candidates(&version("1.2.3"), &versions, &in_range);
    assert_eq!(c.in_range.as_deref(), Some("1.2.4"));
    assert_eq!(c.patch.as_deref(), Some("1.2.10"));
    assert_eq!(c.minor.as_deref(), Some("1.10.1"));
    assert_eq!(c.major.as_deref(), Some("10.0.0"));
}

#[test]
fn the_release_of_a_prerelease_is_a_patch() {
    let versions = vec!["1.0.0".to_string()];
    let c = candidates_for("^1.0.0-alpha.1", "^1.0.0-alpha.1", &versions).unwrap();
    assert_eq!(c.in_range.as_deref(), Some("1.0.0"));
    assert_eq!(c.patch.as_deref(), Some("1.0.0"));
    assert!(c.minor.is_none() && c.major.is_none());
    // To the release itself it is none.
    let c = candidates_for("^1.0.0", "^1.0.0", &versions).unwrap();
    assert!(c.patch.is_none() && c.minor.is_none() && c.major.is_none());
}
