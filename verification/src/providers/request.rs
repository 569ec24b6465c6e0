//! What registries are asked.
use vstd::prelude::*;
use vstd::slice::slice_subrange;
use crate::text::chars::{owned, push_chars, push_str, string_of, text_of};
use crate::text::search::{begins, find_char, position_char, starts_with_str};

verus! {

/// A registry, which tells how its reply is to be read.
#[derive(Debug, Clone, Copy, PartialEq, Eq, Structural)]
pub enum Registry {
    Npm,
    CratesIo,
    PyPi,
    Packagist,
    RubyGems,
    Jsr,
    DenoLand,
}

/// A request for the versions of a package.
#[derive(Debug)]
pub struct VersionRequest {
    pub registry: Registry,
    pub url: String,
    /// The media type to ask for, where it matters.
    pub accept: Option<String>,
    /// The server presents itself as an extension of the editor.
    pub as_extension: bool,
}

/// A request as a mathematical value.
pub struct RequestView {
    pub registry: Registry,
    pub url: Seq<char>,
    pub accept: Option<Seq<char>>,
    pub as_extension: bool,
}

impl View for VersionRequest {
    type V = RequestView;

    open spec fn view(&self) -> RequestView {
        RequestView {
            registry: self.registry,
            url: self.url@,
            accept: text_of(self.accept),
            as_extension: self.as_extension,
        }
    }
}

/// The view of a request that may be absent.
pub open spec fn request_view(r: Option<VersionRequest>) -> Option<RequestView> {
    match r {
        Some(q) => Some(q@),
        None => None,
    }
}

/// A package name as npm's registry takes it: the slash of a scoped name is
/// escaped.
pub open spec fn escaped(name: Seq<char>) -> Seq<char> {
    if begins(name, "@"@) {
        match find_char(name, '/') {
            Some(i) => name.take(i) + "%2F"@ + name.skip(i + 1),
            None => name,
        }
    } else {
        name
    }
}

/// The request to npm's registry.
pub open spec fn npm_question(
    base: Seq<char>,
    name: Seq<char>,
    as_extension: bool,
) -> RequestView {
    RequestView {
        registry: Registry::Npm,
        url: base + "/"@ + escaped(name),
        accept: Some("application/vnd.npm.install-v1+json"@),
        as_extension,
    }
}

/// A request whose address holds the package name between two texts.
pub open spec fn plain_question(
    registry: Registry,
    before: Seq<char>,
    name: Seq<char>,
    behind: Seq<char>,
) -> RequestView {
    RequestView { registry, url: before + name + behind, accept: None, as_extension: true }
}

/// The request to npm's registry.
pub fn npm_request(base: &str, name: &[char], as_extension: bool) -> (r: VersionRequest)
    ensures
        r@ == npm_question(base@, name@, as_extension),
{
    let mut out: Vec<char> = Vec::new();
    push_str(&mut out, base);
    push_str(&mut out, "/");
    let slash = if starts_with_str(name, "@") {
        position_char(name, '/')
    } else {
        None
    };
    let size: usize = name.len();
    match slash {
        Some(i) => {
            push_chars(&mut out, slice_subrange(name, 0, i));
            push_str(&mut out, "%2F");
            push_chars(&mut out, slice_subrange(name, i + 1, size));
        },
        None => {
            push_chars(&mut out, name);
        },
    }
    assert(out@ == base@ + "/"@ + escaped(name@));
    let accept = owned("application/vnd.npm.install-v1+json");
    VersionRequest {
        registry: Registry::Npm,
        url: string_of(out.as_slice()),
        accept: Some(accept),
        as_extension,
    }
}

/// A request whose address holds the package name between two texts.
pub fn plain_request(registry: Registry, before: &str, name: &[char], behind: &str) -> (r:
    VersionRequest)
    ensures
        r@ == plain_question(registry, before@, name@, behind@),
{
    let mut out: Vec<char> = Vec::new();
    push_str(&mut out, before);
    push_chars(&mut out, name);
    push_str(&mut out, behind);
    assert(out@ == before@ + name@ + behind@);
    VersionRequest { registry, url: string_of(out.as_slice()), accept: None, as_extension: true }
}

} // verus!
