//! Where the binary comes from.
use update_versions_lsp::extension::{binary_path, next_step, Architecture, BinaryStep, Os};

#[test]
fn paths_go_by_the_system() {
    assert_eq!(binary_path(Os::Linux), "bin/update-versions-lsp");
    assert_eq!(binary_path(Os::Mac), "bin/update-versions-lsp");
    assert_eq!(binary_path(Os::Windows), "bin/update-versions-lsp.exe");
}

#[test]
fn a_used_path_counts_while_it_is_there() {
    let used = Some("old".to_string());
    match next_step(&used, true, false, Os::Linux, Architecture::X86, "1.0.0") {
        BinaryStep::Use { path } => assert_eq!(path, "old"),
        other => panic!("{:?}", other),
    }
    match next_step(&used, false, true, Os::Linux, Architecture::X86, "1.0.0") {
        BinaryStep::Use { path } => assert_eq!(path, "bin/update-versions-lsp"),
        other => panic!("{:?}", other),
    }
}

#[test]
fn downloads_go_by_the_platform() {
    let asset = |os, arch| match next_step(&None, false, false, os, arch, "0.2.0") {
        BinaryStep::Download { asset, .. } => Some(asset),
        BinaryStep::Unavailable => None,
        other => panic!("{:?}", other),
    };
    assert_eq!(
        asset(Os::Mac, Architecture::Aarch64).as_deref(),
        Some("update-versions-lsp-aarch64-apple-darwin")
    );
    assert_eq!(
        asset(Os::Mac, Architecture::X8664).as_deref(),
        Some("update-versions-lsp-x86_64-apple-darwin")
    );
    assert_eq!(
        asset(Os::Linux, Architecture::Aarch64).as_deref(),
        Some("update-versions-lsp-aarch64-unknown-linux-gnu")
    );
    assert_eq!(
        asset(Os::Linux, Architecture::X8664).as_deref(),
        Some("update-versions-lsp-x86_64-unknown-linux-gnu")
    );
    assert_eq!(
        asset(Os::Windows, Architecture::X8664).as_deref(),
        Some("update-versions-lsp-x86_64-pc-windows-msvc.exe")
    );
    assert_eq!(asset(Os::Windows, Architecture::Aarch64), None);
    assert_eq!(asset(Os::Linux, Architecture::X86), None);
    match next_step(&None, true, false, Os::Windows, Architecture::X8664, "0.2.0") {
        BinaryStep::Download { path, url, .. } => {
            assert_eq!(path, "bin/update-versions-lsp.exe");
            assert_eq!(
                url,
                "https://github.com/christophehurpeau/zed-update-versions-lsp/releases/download/update-versions-lsp-v0.2.0/update-versions-lsp-x86_64-pc-windows-msvc.exe"
            );
        }
        other => panic!("{:?}", other),
    }
}
