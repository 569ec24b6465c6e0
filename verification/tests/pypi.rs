//! `requirements.txt` and `pyproject.toml`.
use update_versions_lsp::providers::pypi::{
    is_pep440_prerelease, normalize_pypi_name, parse_pypi_version_stable, parse_pyproject_toml,
    parse_req_line, parse_requirements_txt,
};

// --- is_pep440_prerelease ---

#[test]
fn test_stable_version() {
    assert!(!is_pep440_prerelease("1.2.3"));
}

#[test]
fn test_post_release_is_stable() {
    assert!(!is_pep440_prerelease("1.2.3.post1"));
}

#[test]
fn test_alpha_is_prerelease() {
    assert!(is_pep440_prerelease("1.0a1"));
}

#[test]
fn test_beta_is_prerelease() {
    assert!(is_pep440_prerelease("2.0b3"));
}

#[test]
fn test_rc_is_prerelease() {
    assert!(is_pep440_prerelease("3.0rc1"));
}

#[test]
fn test_dev_is_prerelease() {
    assert!(is_pep440_prerelease("1.0.dev1"));
}

// --- parse_pypi_version_stable ---

#[test]
fn test_parse_stable_three_part() {
    let v = parse_pypi_version_stable("2.31.0").unwrap();
    assert_eq!(v.to_string(), "2.31.0");
}

#[test]
fn test_parse_stable_two_part() {
    let v = parse_pypi_version_stable("5.0").unwrap();
    assert_eq!(v.to_string(), "5.0.0");
}

#[test]
fn test_parse_post_release_stripped() {
    let v = parse_pypi_version_stable("1.2.3.post2").unwrap();
    assert_eq!(v.to_string(), "1.2.3");
}

#[test]
fn test_parse_prerelease_returns_none() {
    assert!(parse_pypi_version_stable("1.0a1").is_none());
}

// --- parse_req_line ---

#[test]
fn test_req_line_eq() {
    let (name, constraint, offset) = parse_req_line("requests==2.28.0").unwrap();
    assert_eq!(name, "requests");
    assert_eq!(constraint, "==2.28.0");
    assert_eq!(offset, 8);
}

#[test]
fn test_req_line_gte() {
    let (name, constraint, offset) = parse_req_line("flask>=2.0.0").unwrap();
    assert_eq!(name, "flask");
    assert_eq!(constraint, ">=2.0.0");
    assert_eq!(offset, 5);
}

#[test]
fn test_req_line_compatible() {
    let (name, constraint, offset) = parse_req_line("django~=4.2.0").unwrap();
    assert_eq!(name, "django");
    assert_eq!(constraint, "~=4.2.0");
    assert_eq!(offset, 6);
}

#[test]
fn test_req_line_with_extras() {
    let (name, constraint, offset) = parse_req_line("requests[security]>=2.28.0").unwrap();
    assert_eq!(name, "requests");
    assert_eq!(constraint, ">=2.28.0");
    assert_eq!(offset, 18);
}

#[test]
fn test_req_line_no_version_returns_none() {
    assert!(parse_req_line("requests").is_none());
}

#[test]
fn test_req_line_normalises_name() {
    let (name, _, _) = parse_req_line("My-Package>=1.0.0").unwrap();
    assert_eq!(name, "my_package");
}

// --- parse_requirements_txt ---

#[test]
fn test_parse_requirements_txt_basic() {
    let content = "requests==2.28.0\nflask>=2.0.0\n# comment\n\n-r base.txt\n";
    let deps = parse_requirements_txt(content);
    assert_eq!(deps.len(), 2);
    assert_eq!(deps[0].name, "requests");
    assert_eq!(deps[0].version_constraint, "==2.28.0");
    assert_eq!(deps[1].name, "flask");
    assert_eq!(deps[1].version_constraint, ">=2.0.0");
}

#[test]
fn test_parse_requirements_txt_ranges() {
    let content = "requests==2.28.0\n";
    let deps = parse_requirements_txt(content);
    assert_eq!(deps[0].version_range.start.character, 8); // after "requests"
    assert_eq!(deps[0].version_range.end.character, 16);  // end of "==2.28.0"
}

// --- parse_pyproject_toml (PEP 621) ---

#[test]
fn test_parse_pyproject_pep621() {
    let content = r#"
[project]
name = "myapp"
dependencies = [
    "requests>=2.28.0",
    "flask>=2.0.0",
]
"#;
    let deps = parse_pyproject_toml(content);
    assert_eq!(deps.len(), 2);
    assert_eq!(deps[0].name, "requests");
    assert_eq!(deps[0].version_constraint, ">=2.28.0");
    assert_eq!(deps[1].name, "flask");
    assert_eq!(deps[1].version_constraint, ">=2.0.0");
}

// --- parse_pyproject_toml (Poetry) ---

#[test]
fn test_parse_pyproject_poetry() {
    let content = r#"
[tool.poetry.dependencies]
python = "^3.9"
requests = "^2.28.0"
flask = "^2.0.0"
"#;
    let mut deps = parse_pyproject_toml(content);
    assert_eq!(deps.len(), 2); // python is skipped
    // Sort by name so the assertion is order-independent (HashMap iteration is non-deterministic)
    deps.sort_by(|a, b| a.name.cmp(&b.name));
    assert_eq!(deps[0].name, "flask");
    assert_eq!(deps[0].version_constraint, "^2.0.0");
    assert_eq!(deps[1].name, "requests");
    assert_eq!(deps[1].version_constraint, "^2.28.0");
}

// --- normalize_pypi_name ---

#[test]
fn test_normalize_name_dashes() {
    assert_eq!(normalize_pypi_name("My-Package"), "my_package");
}

#[test]
fn test_normalize_name_dots() {
    assert_eq!(normalize_pypi_name("zope.interface"), "zope_interface");
}
