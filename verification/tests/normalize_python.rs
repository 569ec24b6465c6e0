//! Python constraints.
use update_versions_lsp::version_utils::normalize::python;

#[test]
fn test_python_exact() {
    assert_eq!(python("==1.2.3"), "=1.2.3");
}

#[test]
fn test_python_compatible() {
    assert_eq!(python("~=1.2"), "~1.2");
}

#[test]
fn test_python_passthrough_gte() {
    assert_eq!(python(">=1.2.0"), ">=1.2.0");
}

#[test]
fn test_python_passthrough_neq() {
    assert_eq!(python("!=1.2.0"), "!=1.2.0");
}
