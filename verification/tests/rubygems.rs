//! `Gemfile`.
use update_versions_lsp::providers::rubygems::{
    is_version_constraint, pad_to_semver, parse_gemfile, strip_inline_comment,
};

#[test]
fn test_parse_gemfile_basic() {
    let content = r#"
source 'https://rubygems.org'

gem 'rails', '~> 7.0'
gem 'pg', '>= 1.4.0'
gem 'devise', '~> 4.9'
"#;
    let deps = parse_gemfile(content);
    assert_eq!(deps.len(), 3);
    let names: Vec<&str> = deps.iter().map(|d| d.name.as_str()).collect();
    assert!(names.contains(&"rails"));
    assert!(names.contains(&"pg"));
    assert!(names.contains(&"devise"));
}

#[test]
fn test_parse_gemfile_no_version_skipped() {
    let content = r#"
gem 'rails'
gem 'pg', '>= 1.4.0'
"#;
    let deps = parse_gemfile(content);
    assert_eq!(deps.len(), 1);
    assert_eq!(deps[0].name, "pg");
}

#[test]
fn test_parse_gemfile_git_skipped() {
    let content = r#"
gem 'rails', git: 'https://github.com/rails/rails'
gem 'pg', '>= 1.4.0'
"#;
    let deps = parse_gemfile(content);
    assert_eq!(deps.len(), 1);
    assert_eq!(deps[0].name, "pg");
}

#[test]
fn test_parse_gemfile_double_quotes() {
    let content = r#"gem "puma", ">= 5.0""#;
    let deps = parse_gemfile(content);
    assert_eq!(deps.len(), 1);
    assert_eq!(deps[0].version_constraint, ">= 5.0");
}

#[test]
fn test_parse_gemfile_version_range_character_offset() {
    let line = "gem 'devise', '~> 4.9'";
    let deps = parse_gemfile(line);
    assert_eq!(deps.len(), 1);
    let dep = &deps[0];
    let expected_start = line.find("~> 4.9").unwrap() as u32;
    assert_eq!(dep.version_range.start.character, expected_start);
    assert_eq!(
        dep.version_range.end.character,
        expected_start + "~> 4.9".len() as u32
    );
}

#[test]
fn test_parse_gemfile_comment_skipped() {
    let content = r#"
# gem 'old', '1.0'
gem 'rails', '~> 7.0'
"#;
    let deps = parse_gemfile(content);
    assert_eq!(deps.len(), 1);
    assert_eq!(deps[0].name, "rails");
}

#[test]
fn test_pad_to_semver() {
    assert_eq!(pad_to_semver("1.2.3"), Some("1.2.3".to_string()));
    assert_eq!(pad_to_semver("1.2"), Some("1.2.0".to_string()));
    assert_eq!(pad_to_semver("1"), Some("1.0.0".to_string()));
    assert_eq!(pad_to_semver("not-a-version"), None);
}

#[test]
fn test_strip_inline_comment() {
    assert_eq!(
        strip_inline_comment("gem 'rails', '~> 7.0' # web"),
        "gem 'rails', '~> 7.0'"
    );
    assert_eq!(
        strip_inline_comment("gem 'rails', '~> 7.0'"),
        "gem 'rails', '~> 7.0'"
    );
}

#[test]
fn test_is_version_constraint() {
    assert!(is_version_constraint("~> 4.9"));
    assert!(is_version_constraint(">= 1.0"));
    assert!(is_version_constraint("1.2.3"));
    assert!(!is_version_constraint(""));
    assert!(!is_version_constraint("path:"));
}

#[test]
fn test_parse_gemfile_multiple_constraints_takes_first() {
    // When multiple constraints are given, the first version constraint wins.
    let content = r#"gem 'pg', '~> 1.4', '>= 1.4.3'"#;
    let deps = parse_gemfile(content);
    assert_eq!(deps.len(), 1);
    assert_eq!(deps[0].name, "pg");
    assert_eq!(deps[0].version_constraint, "~> 1.4");
}
