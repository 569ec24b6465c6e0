//! `Cargo.toml`.
use update_versions_lsp::document::Node;
use update_versions_lsp::providers::cargo::{extract_toml_version, parse_cargo_toml};

#[test]
fn test_extract_cargo_version_string() {
    let val = Node::Text("1.0.0".to_string());
    assert_eq!(extract_toml_version(&val), Some("1.0.0".to_string()));
}

#[test]
fn test_extract_cargo_version_table() {
    let toml_str = r#"
[dep]
version = "1.0.0"
features = ["derive"]
"#;
    let parsed = Node::from_toml(toml_str).unwrap();
    let val = parsed.get_str("dep").unwrap();
    assert_eq!(extract_toml_version(val), Some("1.0.0".to_string()));
}

#[test]
fn test_extract_cargo_version_path_only() {
    let toml_str = r#"
[dep]
path = "../my-crate"
"#;
    let parsed = Node::from_toml(toml_str).unwrap();
    let val = parsed.get_str("dep").unwrap();
    assert_eq!(extract_toml_version(val), None);
}

#[test]
fn test_extract_cargo_version_git_only() {
    let toml_str = r#"
[dep]
git = "https://github.com/user/repo"
"#;
    let parsed = Node::from_toml(toml_str).unwrap();
    let val = parsed.get_str("dep").unwrap();
    assert_eq!(extract_toml_version(val), None);
}

#[test]
fn test_parse_cargo_toml_basic() {
    let content = r#"[package]
name = "my-project"
version = "0.1.0"

[dependencies]
serde = "1.0"
tokio = { version = "1.0", features = ["full"] }

[dev-dependencies]
pretty_assertions = "1.3.0"
"#;

    let keys = vec!["dependencies".to_string(), "dev-dependencies".to_string()];
    let deps = parse_cargo_toml(content, &keys);

    assert_eq!(deps.len(), 3);

    let serde_dep = deps.iter().find(|d| d.name == "serde").unwrap();
    assert_eq!(serde_dep.version_constraint, "1.0");

    let tokio_dep = deps.iter().find(|d| d.name == "tokio").unwrap();
    assert_eq!(tokio_dep.version_constraint, "1.0");

    let pa_dep = deps.iter().find(|d| d.name == "pretty_assertions").unwrap();
    assert_eq!(pa_dep.version_constraint, "1.3.0");
}

#[test]
fn test_parse_cargo_toml_skips_path_deps() {
    let content = r#"[dependencies]
serde = "1.0"
local-crate = { path = "../local" }
git-crate = { git = "https://github.com/user/repo" }
"#;

    let keys = vec!["dependencies".to_string()];
    let deps = parse_cargo_toml(content, &keys);

    assert_eq!(deps.len(), 1);
    assert_eq!(deps[0].name, "serde");
}

#[test]
fn test_parse_cargo_toml_workspace_deps() {
    let content = r#"[workspace.dependencies]
serde = "1.0"
tokio = { version = "1.35", features = ["full"] }
"#;

    let keys = vec!["workspace.dependencies".to_string()];
    let deps = parse_cargo_toml(content, &keys);

    assert_eq!(deps.len(), 2);
}

#[test]
fn test_parse_cargo_toml_version_range_location() {
    let content = r#"[dependencies]
serde = "1.0"
"#;

    let keys = vec!["dependencies".to_string()];
    let deps = parse_cargo_toml(content, &keys);

    assert_eq!(deps.len(), 1);
    let dep = &deps[0];
    assert_eq!(dep.version_range.start.line, 1); // line 1 (0-indexed)
    assert!(dep.version_range.start.character < dep.version_range.end.character);
}

#[test]
fn test_parse_cargo_toml_empty() {
    let content = r#"[package]
name = "my-project"
"#;
    let keys = vec!["dependencies".to_string()];
    let deps = parse_cargo_toml(content, &keys);
    assert!(deps.is_empty());
}

#[test]
fn test_parse_cargo_toml_invalid() {
    let content = "not valid toml {{{";
    let keys = vec!["dependencies".to_string()];
    let deps = parse_cargo_toml(content, &keys);
    assert!(deps.is_empty());
}
