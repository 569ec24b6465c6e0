//! Deno constraints.
use update_versions_lsp::version_utils::normalize::deno;

#[test]
fn test_deno_v_prefix() {
    assert_eq!(deno("v12.6.1"), "12.6.1");
}

#[test]
fn test_deno_no_v_prefix() {
    assert_eq!(deno("^12.6.1"), "^12.6.1");
}

#[test]
fn test_deno_bare_version_no_v() {
    // A bare semver without v-prefix — falls through to standard
    assert_eq!(deno("12.6.1"), "12.6.1");
}

#[test]
fn test_deno_v_not_followed_by_digit() {
    // Not a version pin — falls through unchanged
    assert_eq!(deno("vendor"), "vendor");
}
