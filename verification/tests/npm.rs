//! `package.json`.
use update_versions_lsp::providers::npm::{
    find_highest_prerelease, is_unsupported_specifier, parse_package_json, split_npm_alias,
};

#[test]
fn test_is_unsupported_specifier() {
    assert!(is_unsupported_specifier("file:../local-pkg"));
    assert!(is_unsupported_specifier("link:../local-pkg"));
    assert!(is_unsupported_specifier("workspace:*"));
    assert!(is_unsupported_specifier("github:user/repo"));
    assert!(is_unsupported_specifier("git+https://github.com/user/repo"));
    assert!(is_unsupported_specifier("*"));
    assert!(is_unsupported_specifier("latest"));

    assert!(!is_unsupported_specifier("^18.2.0"));
    assert!(!is_unsupported_specifier("~1.2.3"));
    assert!(!is_unsupported_specifier(">=1.0.0"));
    assert!(!is_unsupported_specifier("1.0.0"));
}

#[test]
fn test_split_npm_alias() {
    assert_eq!(split_npm_alias("react@^19.0.0"), Some(("react", "^19.0.0")));
    assert_eq!(
        split_npm_alias("@scope/pkg@~1.2.3"),
        Some(("@scope/pkg", "~1.2.3"))
    );
    // No version — should return None
    assert_eq!(split_npm_alias("react"), None);
    assert_eq!(split_npm_alias("@scope/pkg"), None);
}

#[test]
fn test_parse_package_json_npm_alias() {
    let content = r#"{
  "dependencies": {
    "react-19": "npm:react@^19.0.0",
    "react": "^18.2.0"
  }
}"#;
    let keys = vec!["dependencies".to_string()];
    let deps = parse_package_json(content, &keys);

    assert_eq!(deps.len(), 2);

    let alias = deps.iter().find(|d| d.name == "react" && d.version_constraint == "^19.0.0");
    let alias = alias.expect("npm alias dependency should be parsed");
    // Range should point to the version part, not the full value
    assert_eq!(alias.version_range.start.line, 2);
    // "npm:react@" is 10 chars; opening quote + 2-space indent for value is at some col
    // Just verify start < end and the span equals the version string length
    assert_eq!(
        (alias.version_range.end.character - alias.version_range.start.character) as usize,
        "^19.0.0".len()
    );

    let plain = deps.iter().find(|d| d.name == "react" && d.version_constraint == "^18.2.0");
    assert!(plain.is_some(), "plain react dep should still be parsed");
}

#[test]
fn test_parse_package_json_npm_alias_scoped() {
    let content = r#"{
  "dependencies": {
    "my-react": "npm:@scope/react@^1.0.0"
  }
}"#;
    let keys = vec!["dependencies".to_string()];
    let deps = parse_package_json(content, &keys);

    assert_eq!(deps.len(), 1);
    assert_eq!(deps[0].name, "@scope/react");
    assert_eq!(deps[0].version_constraint, "^1.0.0");
}

#[test]
fn test_parse_package_json_npm_alias_bare_skipped() {
    // bare "npm:react" with no version — should be silently skipped
    let content = r#"{
  "dependencies": {
    "react-alias": "npm:react",
    "lodash": "^4.0.0"
  }
}"#;
    let keys = vec!["dependencies".to_string()];
    let deps = parse_package_json(content, &keys);

    assert_eq!(deps.len(), 1);
    assert_eq!(deps[0].name, "lodash");
}

#[test]
fn test_parse_package_json_basic() {
    let content = r#"{
  "name": "my-project",
  "dependencies": {
    "react": "^18.2.0",
    "lodash": "~4.17.21"
  },
  "devDependencies": {
    "typescript": "^5.0.0"
  }
}"#;

    let keys = vec!["dependencies".to_string(), "devDependencies".to_string()];
    let deps = parse_package_json(content, &keys);

    assert_eq!(deps.len(), 3);

    let react = deps.iter().find(|d| d.name == "react").unwrap();
    assert_eq!(react.version_constraint, "^18.2.0");

    let lodash = deps.iter().find(|d| d.name == "lodash").unwrap();
    assert_eq!(lodash.version_constraint, "~4.17.21");

    let typescript = deps.iter().find(|d| d.name == "typescript").unwrap();
    assert_eq!(typescript.version_constraint, "^5.0.0");
}

#[test]
fn test_parse_package_json_skips_unsupported() {
    let content = r#"{
  "dependencies": {
    "react": "^18.2.0",
    "local-pkg": "file:../local",
    "ws-pkg": "workspace:*"
  }
}"#;
    let keys = vec!["dependencies".to_string()];
    let deps = parse_package_json(content, &keys);
    assert_eq!(deps.len(), 1);
    assert_eq!(deps[0].name, "react");
}

#[test]
fn test_parse_package_json_scoped_package() {
    let content = r#"{
  "dependencies": {
    "@types/react": "^18.0.0",
    "@scope/pkg": "~1.0.0"
  }
}"#;
    let keys = vec!["dependencies".to_string()];
    let deps = parse_package_json(content, &keys);
    assert_eq!(deps.len(), 2);
    assert!(deps.iter().any(|d| d.name == "@types/react"));
    assert!(deps.iter().any(|d| d.name == "@scope/pkg"));
}

#[test]
fn test_parse_package_json_version_ranges() {
    let content = r#"{
  "dependencies": {
    "react": "^18.2.0"
  }
}"#;
    let keys = vec!["dependencies".to_string()];
    let deps = parse_package_json(content, &keys);
    assert_eq!(deps.len(), 1);

    let dep = &deps[0];
    // The range should point to "^18.2.0" in the file
    assert_eq!(dep.version_range.start.line, 2);
    assert_eq!(dep.version_range.end.line, 2);
    // Check that column offsets make sense (content starts after opening quote)
    assert!(dep.version_range.start.character < dep.version_range.end.character);
}

#[test]
fn test_parse_package_json_empty() {
    let content = "{}";
    let keys = vec!["dependencies".to_string()];
    let deps = parse_package_json(content, &keys);
    assert!(deps.is_empty());
}

#[test]
fn test_parse_package_json_invalid_json() {
    let content = "not json at all";
    let keys = vec!["dependencies".to_string()];
    let deps = parse_package_json(content, &keys);
    assert!(deps.is_empty());
}

#[test]
fn test_parse_package_json_nested_key() {
    let content = r#"{
  "pnpm": {
    "overrides": {
      "lodash": "^4.17.21"
    }
  }
}"#;
    let keys = vec!["pnpm.overrides".to_string()];
    let deps = parse_package_json(content, &keys);
    assert_eq!(deps.len(), 1);
    assert_eq!(deps[0].name, "lodash");
}

#[test]
fn test_find_highest_prerelease() {
    let mut versions: Vec<String> = Vec::new();
    versions.push("1.0.0".to_string());
    versions.push("2.0.0-alpha.1".to_string());
    versions.push("2.0.0-beta.1".to_string());
    versions.push("2.0.0-rc.1".to_string());

    let result = find_highest_prerelease(&versions);
    assert_eq!(result, Some("2.0.0-rc.1".to_string()));
}

#[test]
fn test_find_highest_prerelease_none() {
    let mut versions: Vec<String> = Vec::new();
    versions.push("1.0.0".to_string());
    versions.push("2.0.0".to_string());

    let result = find_highest_prerelease(&versions);
    assert!(result.is_none());
}
