//! Where the editor finds the server's binary, and where it comes from.
use vstd::prelude::*;
use crate::text::chars::{joined, push_str, string_of, text_of};

verus! {

/// An operating system.
#[derive(Debug, Clone, Copy, PartialEq, Eq, Structural)]
pub enum Os {
    Mac,
    Linux,
    Windows,
}

/// A processor architecture.
#[derive(Debug, Clone, Copy, PartialEq, Eq, Structural)]
pub enum Architecture {
    Aarch64,
    X86,
    X8664,
}

/// The ending of an executable's name.
pub open spec fn suffix(os: Os) -> Seq<char> {
    match os {
        Os::Windows => ".exe"@,
        _ => ""@,
    }
}

/// Where the binary stands in the working directory.
pub open spec fn path(os: Os) -> Seq<char> {
    "bin/update-versions-lsp"@ + suffix(os)
}

/// The target for which a prebuilt binary is released.
pub open spec fn target(os: Os, arch: Architecture) -> Option<Seq<char>> {
    match (os, arch) {
        (Os::Mac, Architecture::Aarch64) => Some("aarch64-apple-darwin"@),
        (Os::Mac, Architecture::X8664) => Some("x86_64-apple-darwin"@),
        (Os::Linux, Architecture::Aarch64) => Some("aarch64-unknown-linux-gnu"@),
        (Os::Linux, Architecture::X8664) => Some("x86_64-unknown-linux-gnu"@),
        (Os::Windows, Architecture::X8664) => Some("x86_64-pc-windows-msvc"@),
        _ => None,
    }
}

/// The name of a released binary.
pub open spec fn asset(os: Os, target: Seq<char>) -> Seq<char> {
    "update-versions-lsp-"@ + target + suffix(os)
}

/// The address of a released binary.
pub open spec fn url(version: Seq<char>, asset: Seq<char>) -> Seq<char> {
    "https://github.com/christophehurpeau/zed-update-versions-lsp/releases/download/update-versions-lsp-v"@
        + version + "/"@ + asset
}

/// How to come by the binary.
#[derive(Debug)]
pub enum BinaryStep {
    /// It is there.
    Use { path: String },
    /// It is to be downloaded.
    Download { path: String, asset: String, url: String },
    /// There is none for this platform.
    Unavailable,
}

/// How to come by the binary, as a mathematical value.
pub enum StepView {
    Use { path: Seq<char> },
    Download { path: Seq<char>, asset: Seq<char>, url: Seq<char> },
    Unavailable,
}

impl View for BinaryStep {
    type V = StepView;

    open spec fn view(&self) -> StepView {
        match self {
            BinaryStep::Use { path } => StepView::Use { path: path@ },
            BinaryStep::Download { path, asset, url } => StepView::Download {
                path: path@,
                asset: asset@,
                url: url@,
            },
            BinaryStep::Unavailable => StepView::Unavailable,
        }
    }
}

/// How to come by the binary: a path that was used before and is still there
/// counts first, then the one in the working directory, then a download.
pub open spec fn step(
    used: Option<Seq<char>>,
    used_is_there: bool,
    is_there: bool,
    os: Os,
    arch: Architecture,
    version: Seq<char>,
) -> StepView {
    if used is Some && used_is_there {
        StepView::Use { path: used->0 }
    } else if is_there {
        StepView::Use { path: path(os) }
    } else {
        match target(os, arch) {
            Some(t) => StepView::Download {
                path: path(os),
                asset: asset(os, t),
                url: url(version, asset(os, t)),
            },
            None => StepView::Unavailable,
        }
    }
}

/// What was downloaded is used from then on, while it is there.
pub proof fn law_downloaded_is_used(
    used: Option<Seq<char>>,
    used_is_there: bool,
    os: Os,
    arch: Architecture,
    version: Seq<char>,
    later: bool,
)
    requires
        step(used, used_is_there, false, os, arch, version) is Download,
    ensures
        ({
            let path = step(used, used_is_there, false, os, arch, version)->Download_path;
            step(Some(path), true, later, os, arch, version) == StepView::Use { path }
        }),
{
}

/// A path that was used and is there is used again; else the one in the working
/// directory, where that is there; else the binary is downloaded to that place, where
/// one is released for the platform.
pub proof fn law_steps(
    used: Option<Seq<char>>,
    used_is_there: bool,
    is_there: bool,
    os: Os,
    arch: Architecture,
    version: Seq<char>,
)
    ensures
        used is Some && used_is_there ==> step(used, used_is_there, is_there, os, arch, version)
            == (StepView::Use { path: used->0 }),
        (used is None || !used_is_there) && is_there ==> step(
            used,
            used_is_there,
            is_there,
            os,
            arch,
            version,
        ) == (StepView::Use { path: path(os) }),
        (used is None || !used_is_there) && !is_there && (arch == Architecture::X86 || (os
            == Os::Windows && arch == Architecture::Aarch64)) ==> step(
            used,
            used_is_there,
            is_there,
            os,
            arch,
            version,
        ) is Unavailable,
        (used is None || !used_is_there) && !is_there && arch != Architecture::X86 && (os
            != Os::Windows || arch != Architecture::Aarch64) ==> (step(
            used,
            used_is_there,
            is_there,
            os,
            arch,
            version,
        ) matches StepView::Download { path: to, asset, url } && to == path(os) && url
            == "https://github.com/christophehurpeau/zed-update-versions-lsp/releases/download/update-versions-lsp-v"@
            + version + "/"@ + asset),
{
}

/// The word for an architecture in the name of a released binary.
pub open spec fn architecture_word(arch: Architecture) -> Seq<char> {
    if arch == Architecture::Aarch64 {
        "aarch64"@
    } else {
        "x86_64"@
    }
}

/// The words for a system in the name of a released binary.
pub open spec fn system_words(os: Os) -> Seq<char> {
    match os {
        Os::Mac => "apple-darwin"@,
        Os::Linux => "unknown-linux-gnu"@,
        Os::Windows => "pc-windows-msvc.exe"@,
    }
}

/// What is downloaded is named after the architecture and the system, and is put where
/// the system looks for an executable of the name of the server.
pub proof fn law_download_fits_platform(os: Os, arch: Architecture, version: Seq<char>)
    ensures
        step(None, false, false, os, arch, version) matches StepView::Download {
            path: to,
            asset,
            url,
        } ==> {
            &&& asset == "update-versions-lsp-"@ + architecture_word(arch) + "-"@ + system_words(os)
            &&& to == (if os == Os::Windows {
                "bin/update-versions-lsp.exe"@
            } else {
                "bin/update-versions-lsp"@
            })
        },
{
    reveal_strlit("");
    reveal_strlit("-");
    reveal_strlit(".exe");
    reveal_strlit("aarch64");
    reveal_strlit("x86_64");
    reveal_strlit("bin/update-versions-lsp");
    reveal_strlit("bin/update-versions-lsp.exe");
    match target(os, arch) {
        Some(t) => {
            lemma_target_words(os, arch);
            let name = "update-versions-lsp-"@;
            let words = architecture_word(arch) + "-"@ + system_words(os);
            assert(name + t + suffix(os) == name + (t + suffix(os)));
            assert(name + architecture_word(arch) + "-"@ + system_words(os) == name + words);
            assert(path(os) == (if os == Os::Windows {
                "bin/update-versions-lsp.exe"@
            } else {
                "bin/update-versions-lsp"@
            }));
        },
        None => {},
    }
}

/// A target and the ending of an executable are the words of the platform.
proof fn lemma_target_words(os: Os, arch: Architecture)
    requires
        target(os, arch) is Some,
    ensures
        target(os, arch)->0 + suffix(os) == architecture_word(arch) + "-"@ + system_words(os),
{
    reveal_strlit("");
    reveal_strlit("-");
    reveal_strlit(".exe");
    reveal_strlit("aarch64");
    reveal_strlit("x86_64");
    reveal_strlit("apple-darwin");
    reveal_strlit("unknown-linux-gnu");
    reveal_strlit("pc-windows-msvc.exe");
    reveal_strlit("aarch64-apple-darwin");
    reveal_strlit("x86_64-apple-darwin");
    reveal_strlit("aarch64-unknown-linux-gnu");
    reveal_strlit("x86_64-unknown-linux-gnu");
    reveal_strlit("x86_64-pc-windows-msvc");
    assert(target(os, arch)->0 + suffix(os) =~= architecture_word(arch) + "-"@ + system_words(os));
}

/// The ending of an executable's name.
fn suffix_of(os: Os) -> (r: &'static str)
    ensures
        r@ == suffix(os),
{
    match os {
        Os::Windows => ".exe",
        _ => "",
    }
}

/// Where the binary stands in the working directory.
pub fn binary_path(os: Os) -> (r: String)
    ensures
        r@ == path(os),
{
    let mut out: Vec<char> = Vec::new();
    push_str(&mut out, "bin/update-versions-lsp");
    push_str(&mut out, suffix_of(os));
    assert(out@ == path(os));
    string_of(out.as_slice())
}

/// The target for which a prebuilt binary is released.
fn target_of(os: Os, arch: Architecture) -> (r: Option<&'static str>)
    ensures
        match r {
            Some(t) => target(os, arch) == Some(t@),
            None => target(os, arch) is None,
        },
{
    match (os, arch) {
        (Os::Mac, Architecture::Aarch64) => Some("aarch64-apple-darwin"),
        (Os::Mac, Architecture::X8664) => Some("x86_64-apple-darwin"),
        (Os::Linux, Architecture::Aarch64) => Some("aarch64-unknown-linux-gnu"),
        (Os::Linux, Architecture::X8664) => Some("x86_64-unknown-linux-gnu"),
        (Os::Windows, Architecture::X8664) => Some("x86_64-pc-windows-msvc"),
        _ => None,
    }
}

/// Decides how to come by the binary, from the path that was used before, and
/// from whether that path and the one in the working directory are files.
pub fn next_step(
    used: &Option<String>,
    used_is_there: bool,
    is_there: bool,
    os: Os,
    arch: Architecture,
    version: &str,
) -> (r: BinaryStep)
    ensures
        r@ == step(
            text_of(*used),
            used_is_there,
            is_there,
            os,
            arch,
            version@,
        ),
{
    if let Some(path) = used {
        if used_is_there {
            return BinaryStep::Use { path: path.clone() };
        }
    }
    let path = binary_path(os);
    if is_there {
        return BinaryStep::Use { path };
    }
    match target_of(os, arch) {
        Some(target) => {
            let asset = joined("update-versions-lsp-", target, suffix_of(os));
            let base = joined(
                "https://github.com/christophehurpeau/zed-update-versions-lsp/releases/download/update-versions-lsp-v",
                version,
                "/",
            );
            let url = joined(base.as_str(), asset.as_str(), "");
            proof {
                reveal_strlit("");
                assert(url@ == self::url(version@, asset@));
            }
            BinaryStep::Download { path, asset, url }
        },
        None => BinaryStep::Unavailable,
    }
}

} // verus!
