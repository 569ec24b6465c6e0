//! `composer.json`.
use update_versions_lsp::providers::composer::{
    format_composer_version, is_composer_prerelease, is_unsupported_composer_constraint,
    parse_composer_json, parse_composer_version,
};
use update_versions_lsp::version::Version;

#[test]
fn test_parse_composer_json_basic() {
    let content = r#"{
    "require": {
        "php": "^8.1",
        "symfony/console": "^6.0",
        "guzzlehttp/guzzle": "^7.5"
    },
    "require-dev": {
        "phpunit/phpunit": "^10.0"
    }
}"#;
    let deps = parse_composer_json(content);
    assert_eq!(deps.len(), 3);
    let names: Vec<&str> = deps.iter().map(|d| d.name.as_str()).collect();
    assert!(names.contains(&"symfony/console"));
    assert!(names.contains(&"guzzlehttp/guzzle"));
    assert!(names.contains(&"phpunit/phpunit"));
    // php platform requirement should be skipped
    assert!(!names.contains(&"php"));
}

#[test]
fn test_parse_composer_json_skips_platform_and_dev() {
    let content = r#"{
    "require": {
        "php": "^8.0",
        "ext-json": "*",
        "lib-curl": "*",
        "vendor/pkg": "dev-main",
        "vendor/valid": "^1.0"
    }
}"#;
    let deps = parse_composer_json(content);
    assert_eq!(deps.len(), 1);
    assert_eq!(deps[0].name, "vendor/valid");
}

#[test]
fn test_parse_composer_json_version_range() {
    let content = r#"{
    "require": {
        "vendor/package": "^2.3.4"
    }
}"#;
    let deps = parse_composer_json(content);
    assert_eq!(deps.len(), 1);
    let dep = &deps[0];
    assert_eq!(dep.version_constraint, "^2.3.4");
    // The version string starts after the opening quote
    assert_eq!(dep.version_range.start.line, 2);
    let line = r#"        "vendor/package": "^2.3.4""#;
    let expected_start = line.find("^2.3.4").unwrap() as u32;
    assert_eq!(dep.version_range.start.character, expected_start);
    assert_eq!(
        dep.version_range.end.character,
        expected_start + "^2.3.4".len() as u32
    );
}

#[test]
fn test_is_composer_prerelease() {
    assert!(is_composer_prerelease("1.0.0-alpha.1"));
    assert!(is_composer_prerelease("1.0.0-beta1"));
    assert!(is_composer_prerelease("2.0.0-RC1"));
    assert!(is_composer_prerelease("3.0.0-dev"));
    assert!(!is_composer_prerelease("1.0.0"));
    assert!(!is_composer_prerelease("2.3.4"));
}

#[test]
fn test_parse_composer_version_normal() {
    assert!(parse_composer_version("1.0.0").is_some());
    assert!(parse_composer_version("v2.3.4").is_some());
    assert!(parse_composer_version("1.2").is_some());
}

#[test]
fn test_parse_composer_version_prerelease_returns_none() {
    assert!(parse_composer_version("1.0.0-alpha1").is_none());
    assert!(parse_composer_version("2.0.0-beta").is_none());
}

#[test]
fn test_is_unsupported_composer_constraint() {
    assert!(is_unsupported_composer_constraint("dev-main"));
    assert!(is_unsupported_composer_constraint("dev-master"));
    assert!(is_unsupported_composer_constraint("*"));
    assert!(is_unsupported_composer_constraint("self.version"));
    assert!(!is_unsupported_composer_constraint("^1.0"));
    assert!(!is_unsupported_composer_constraint("~2.3.4"));
}

#[test]
fn test_parse_composer_version_four_part() {
    // Composer allows four-part versions like "1.2.3.0"; the 4th component is dropped.
    let v = parse_composer_version("1.2.3.0").expect("should parse 4-part version");
    assert_eq!(v.major, 1);
    assert_eq!(v.minor, 2);
    assert_eq!(v.patch, 3);
}

#[test]
fn test_format_composer_version() {
    let v = Version {
        major: 1,
        minor: 2,
        patch: 3,
        pre: String::new(),
        build: String::new(),
    };
    assert_eq!(format_composer_version(&v), "1.2.3");
}
