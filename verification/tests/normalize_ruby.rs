//! Ruby constraints.
use update_versions_lsp::version_utils::normalize::ruby;

// ~> pessimistic constraint operator
#[test]
fn test_ruby_pessimistic_one_part() {
    assert_eq!(ruby("~> 7"), ">=7.0.0, <8.0.0");
}

#[test]
fn test_ruby_pessimistic_one_part_zero() {
    assert_eq!(ruby("~> 0"), ">=0.0.0, <1.0.0");
}

#[test]
fn test_ruby_pessimistic_two_part() {
    assert_eq!(ruby("~> 7.1"), ">=7.1.0, <8.0.0");
}

#[test]
fn test_ruby_pessimistic_two_part_zero_major() {
    assert_eq!(ruby("~> 0.9"), ">=0.9.0, <1.0.0");
}

#[test]
fn test_ruby_pessimistic_three_part() {
    assert_eq!(ruby("~> 7.1.0"), "~7.1.0");
}

#[test]
fn test_ruby_pessimistic_four_part() {
    // 4-component versions (uncommon but valid in RubyGems)
    assert_eq!(ruby("~> 7.1.0.1"), "~7.1.0.1");
}

// Standard Ruby comparison operators (passed through as-is)
#[test]
fn test_ruby_exact() {
    // Ruby uses = for exact match; semver crate also recognises =
    assert_eq!(ruby("= 1.0.0"), "= 1.0.0");
}

#[test]
fn test_ruby_not_equal() {
    // != is valid Ruby syntax; no semver-crate equivalent, passes through
    assert_eq!(ruby("!= 1.0.0"), "!= 1.0.0");
}

#[test]
fn test_ruby_gte() {
    assert_eq!(ruby(">= 1.0.0"), ">= 1.0.0");
}

#[test]
fn test_ruby_lte() {
    assert_eq!(ruby("<= 2.0.0"), "<= 2.0.0");
}

#[test]
fn test_ruby_gt() {
    assert_eq!(ruby("> 1.0.0"), "> 1.0.0");
}

#[test]
fn test_ruby_lt() {
    assert_eq!(ruby("< 2.0.0"), "< 2.0.0");
}

// Bare version (no operator)
#[test]
fn test_ruby_bare_version() {
    assert_eq!(ruby("7.0.0"), "7.0.0");
}

// Whitespace handling
#[test]
fn test_ruby_leading_trailing_whitespace() {
    assert_eq!(ruby("  ~> 7.1  "), ">=7.1.0, <8.0.0");
}
