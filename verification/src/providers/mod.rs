//! Package ecosystems: reading their manifests and their registries.
pub mod cargo;
pub mod composer;
pub mod deno;
pub mod gem_rows;
pub mod json_manifests;
pub mod listings;
pub mod npm;
pub mod pypi;
pub mod pypi_rows;
pub mod registry;
pub mod reply;
pub mod request;
pub mod rubygems;
pub mod toml_manifests;
pub mod version_texts;

use vstd::prelude::*;
use self::pypi::normal_name;
use self::request::{request_view, RequestView, VersionRequest};
use crate::listing::{least, lemma_least, lemma_least_is};
use crate::locate::{stands_at, Range};
use crate::outline::{stands_before, KeyView};
use crate::text::chars::{chars_of, copied, string_of, text_of};
use crate::text::search::{ends, ends_with_str};

verus! {

/// A single dependency parsed from a manifest file.
#[derive(Debug)]
pub struct ParsedDependency {
    /// Package name.
    pub name: String,
    /// The version constraint as it is written.
    pub version_constraint: String,
    /// Range that covers the constraint, operator and all, in the document.
    pub version_range: Range,
}

/// A parsed dependency as a mathematical value.
pub struct DependencyView {
    pub name: Seq<char>,
    pub constraint: Seq<char>,
    pub range: Range,
}

impl View for ParsedDependency {
    type V = DependencyView;

    open spec fn view(&self) -> DependencyView {
        DependencyView {
            name: self.name@,
            constraint: self.version_constraint@,
            range: self.version_range,
        }
    }
}

/// Parsed dependencies as mathematical values.
pub open spec fn dependencies_view(v: Seq<ParsedDependency>) -> Seq<DependencyView> {
    v.map_values(|d: ParsedDependency| d@)
}

/// A text in a document names a package: as it is, in its normal form on PyPI,
/// or behind the address of deno.land.
pub open spec fn names(written: Seq<char>, name: Seq<char>) -> bool {
    written == name || normal_name(written) == name || "deno:"@ + written == name
}

/// The range of a dependency covers exactly its constraint at index `k` of line
/// `i`, behind a text that names the package.
pub open spec fn is_declared_at(
    lines: Seq<Seq<char>>,
    dep: DependencyView,
    i: int,
    k: int,
    written: KeyView,
) -> bool {
    &&& stands_at(lines, dep.range, dep.constraint, i, k)
    &&& stands_before(lines, written, i, k)
    &&& names(written.text, dep.name)
}

/// The range of a dependency covers exactly its constraint, behind a text that
/// names the package. Which entry of the document that is, the law of each
/// ecosystem says.
pub open spec fn is_declared(lines: Seq<Seq<char>>, dep: DependencyView) -> bool {
    exists|i: int, k: int, written: KeyView| is_declared_at(lines, dep, i, k, written)
}

/// The same of every dependency.
pub open spec fn all_declared(lines: Seq<Seq<char>>, deps: Seq<DependencyView>) -> bool {
    forall|k: int| 0 <= k < deps.len() ==> is_declared(lines, #[trigger] deps[k])
}

impl Clone for ParsedDependency {
    fn clone(&self) -> (r: Self)
        ensures
            r == *self,
    {
        ParsedDependency {
            name: self.name.clone(),
            version_constraint: self.version_constraint.clone(),
            version_range: self.version_range,
        }
    }
}

/// The dependency at a place that may not have been found.
pub open spec fn dependency_at(
    name: Seq<char>,
    constraint: Seq<char>,
    range: Option<Range>,
) -> Option<DependencyView> {
    match range {
        Some(range) => Some(DependencyView { name, constraint, range }),
        None => None,
    }
}

/// The view of a dependency that may be absent.
pub open spec fn dependency_view(d: Option<ParsedDependency>) -> Option<DependencyView> {
    match d {
        Some(p) => Some(p@),
        None => None,
    }
}

/// The dependency at a place that may not have been found.
pub fn dependency(name: &[char], constraint: &[char], range: Option<Range>) -> (r: Option<
    ParsedDependency,
>)
    ensures
        dependency_view(r) == dependency_at(name@, constraint@, range),
{
    match range {
        Some(range) => Some(
            ParsedDependency {
                name: string_of(name),
                version_constraint: string_of(constraint),
                version_range: range,
            },
        ),
        None => None,
    }
}

/// The list with one more dependency.
pub proof fn lemma_dependencies_push(v: Seq<ParsedDependency>, d: ParsedDependency)
    ensures
        dependencies_view(v.push(d)) == dependencies_view(v).push(d@),
{
}

/// Two lists of dependencies, one after the other.
pub proof fn lemma_dependencies_append(a: Seq<ParsedDependency>, b: Seq<ParsedDependency>)
    ensures
        dependencies_view(a + b) == dependencies_view(a) + dependencies_view(b),
{
}

/// The texts of some string slices.
pub open spec fn pattern_texts(v: Seq<&'static str>) -> Seq<Seq<char>> {
    v.map_values(|s: &'static str| s@)
}

/// What a package ecosystem is, as far as its manifests and its registry go.
pub trait Provider: Send + Sync {
    /// The ends of the names of the files that it handles.
    spec fn patterns(&self) -> Seq<Seq<char>>;

    /// The name of the ecosystem.
    spec fn title(&self) -> Seq<char>;

    /// The dependencies that a document declares.
    spec fn dependencies(&self, uri: Seq<char>, content: Seq<char>) -> Seq<DependencyView>;

    /// The requirement that a constraint stands for.
    spec fn normal_form(&self, constraint: Seq<char>) -> Seq<char>;

    /// What to ask of the registry about a package.
    spec fn question(&self, package: Seq<char>) -> Option<RequestView>;

    /// File name patterns that this provider handles, matched against the end
    /// of the document's URI.
    fn file_patterns(&self) -> (r: Vec<&'static str>)
        ensures
            pattern_texts(r@) == self.patterns(),
    ;

    /// Parses a document and extracts its dependencies.
    fn parse_dependencies(&self, uri: &str, content: &str) -> (r: Vec<ParsedDependency>)
        ensures
            dependencies_view(r@) == self.dependencies(uri@, content@),
    ;

    /// The request that asks the registry for the versions of a package.
    fn version_request(&self, package_name: &str) -> (r: Option<VersionRequest>)
        ensures
            request_view(r) == self.question(package_name@),
    ;

    /// The provider's name, used as a prefix of cache keys.
    fn name(&self) -> (r: &str)
        ensures
            r@ == self.title(),
    ;

    /// Turns a constraint of this ecosystem into a version requirement.
    fn normalize_constraint(&self, constraint: &str) -> (r: String)
        ensures
            r@ == self.normal_form(constraint@),
    ;
}

/// A document is handled where one of the patterns is the end of its URI.
pub open spec fn handles(patterns: Seq<Seq<char>>, uri: Seq<char>) -> bool {
    exists|i: int| 0 <= i < patterns.len() && ends(uri, #[trigger] patterns[i])
}

/// A provider in a registry.
pub struct Registered {
    pub provider: Box<dyn Provider>,
}

/// A provider does what another does.
pub open spec fn acts_like<P: Provider>(a: &Box<dyn Provider>, b: P) -> bool {
    &&& a.patterns() == b.patterns()
    &&& a.title() == b.title()
    &&& forall|uri: Seq<char>, content: Seq<char>|
        #[trigger] a.dependencies(uri, content) == b.dependencies(uri, content)
    &&& forall|c: Seq<char>| #[trigger] a.normal_form(c) == b.normal_form(c)
    &&& forall|p: Seq<char>| #[trigger] a.question(p) == b.question(p)
}

/// Registry that selects the right provider for a document URI.
pub struct ProviderRegistry {
    pub providers: Vec<Registered>,
}

/// Which providers handle a document.
pub open spec fn handles_at(providers: Seq<Registered>, uri: Seq<char>) -> spec_fn(int) -> bool {
    |i: int| handles(providers[i].provider.patterns(), uri)
}

/// Whether one of the patterns is the end of a URI.
fn any_pattern(patterns: &Vec<&'static str>, uri: &[char]) -> (r: bool)
    ensures
        r == handles(pattern_texts(patterns@), uri@),
{
    let ghost all = pattern_texts(patterns@);
    for i in 0..patterns.len()
        invariant
            all == pattern_texts(patterns@),
            forall|j: int| 0 <= j < i ==> !ends(uri@, #[trigger] all[j]),
    {
        assert(all[i as int] == patterns@[i as int]@);
        if ends_with_str(uri, patterns[i]) {
            assert(ends(uri@, all[i as int]));
            return true;
        }
    }
    false
}

impl ProviderRegistry {
    /// A registry without providers.
    pub fn new() -> (r: Self)
        ensures
            r.providers@.len() == 0,
    {
        ProviderRegistry { providers: Vec::new() }
    }

    /// Adds a provider behind those there are.
    pub fn register(&mut self, provider: Registered)
        ensures
            final(self).providers@ == old(self).providers@.push(provider),
    {
        self.providers.push(provider);
    }

    /// Finds the first provider that handles a document.
    pub fn get_provider(&self, uri: &str) -> (r: Option<&Registered>)
        ensures
            match least(self.providers@.len() as int, handles_at(self.providers@, uri@)) {
                Some(i) => r == Some(&self.providers@[i]),
                None => r is None,
            },
    {
        let cs = chars_of(uri);
        let ghost f = handles_at(self.providers@, uri@);
        for i in 0..self.providers.len()
            invariant
                cs@ == uri@,
                f == handles_at(self.providers@, uri@),
                forall|j: int| 0 <= j < i ==> !#[trigger] f(j),
        {
            let patterns = self.providers[i].provider.file_patterns();
            if any_pattern(&patterns, cs.as_slice()) {
                proof {
                    assert(f(i as int));
                    lemma_least_is(self.providers@.len() as int, f, i as int);
                }
                return Some(&self.providers[i]);
            }
            assert(!f(i as int));
        }
        proof {
            lemma_least(self.providers@.len() as int, f);
        }
        None
    }
}

/// Status of a resolved dependency.
#[derive(Debug)]
pub enum DependencyStatus {
    /// Currently fetching from the registry.
    Loading,
    /// The declared range already admits the latest version.
    UpToDate { version: String },
    /// A newer version is available.
    UpdateAvailable { patch: Option<String>, minor: Option<String>, major: Option<String> },
    /// The constraint admits no version of the registry. `latest` is the
    /// highest stable version there; the others are candidates higher than the
    /// constraint's base version.
    VersionNotFound {
        latest: String,
        patch: Option<String>,
        minor: Option<String>,
        major: Option<String>,
    },
    /// The package was not found in the registry.
    NotFound,
    /// The constraint syntax is not supported.
    Unsupported,
}

/// A status as a mathematical value.
pub enum StatusView {
    Loading,
    UpToDate { version: Seq<char> },
    UpdateAvailable {
        patch: Option<Seq<char>>,
        minor: Option<Seq<char>>,
        major: Option<Seq<char>>,
    },
    VersionNotFound {
        latest: Seq<char>,
        patch: Option<Seq<char>>,
        minor: Option<Seq<char>>,
        major: Option<Seq<char>>,
    },
    NotFound,
    Unsupported,
}

impl View for DependencyStatus {
    type V = StatusView;

    open spec fn view(&self) -> StatusView {
        match self {
            DependencyStatus::Loading => StatusView::Loading,
            DependencyStatus::UpToDate { version } => StatusView::UpToDate { version: version@ },
            DependencyStatus::UpdateAvailable { patch, minor, major } => {
                StatusView::UpdateAvailable {
                    patch: text_of(*patch),
                    minor: text_of(*minor),
                    major: text_of(*major),
                }
            },
            DependencyStatus::VersionNotFound { latest, patch, minor, major } => {
                StatusView::VersionNotFound {
                    latest: latest@,
                    patch: text_of(*patch),
                    minor: text_of(*minor),
                    major: text_of(*major),
                }
            },
            DependencyStatus::NotFound => StatusView::NotFound,
            DependencyStatus::Unsupported => StatusView::Unsupported,
        }
    }
}

impl Clone for DependencyStatus {
    fn clone(&self) -> (r: Self)
        ensures
            r == *self,
    {
        match self {
            DependencyStatus::Loading => DependencyStatus::Loading,
            DependencyStatus::UpToDate { version } => DependencyStatus::UpToDate {
                version: version.clone(),
            },
            DependencyStatus::UpdateAvailable { patch, minor, major } => {
                DependencyStatus::UpdateAvailable {
                    patch: copied(patch),
                    minor: copied(minor),
                    major: copied(major),
                }
            },
            DependencyStatus::VersionNotFound { latest, patch, minor, major } => {
                DependencyStatus::VersionNotFound {
                    latest: latest.clone(),
                    patch: copied(patch),
                    minor: copied(minor),
                    major: copied(major),
                }
            },
            DependencyStatus::NotFound => DependencyStatus::NotFound,
            DependencyStatus::Unsupported => DependencyStatus::Unsupported,
        }
    }
}

/// A fully resolved dependency: what was parsed, and what the registry says.
#[derive(Debug)]
pub struct ResolvedDependency {
    pub parsed: ParsedDependency,
    pub status: DependencyStatus,
    /// Highest prerelease version, if there is one.
    pub prerelease: Option<String>,
}

/// A resolved dependency as a mathematical value.
pub struct ResolvedView {
    pub parsed: DependencyView,
    pub status: StatusView,
    pub prerelease: Option<Seq<char>>,
}

impl View for ResolvedDependency {
    type V = ResolvedView;

    open spec fn view(&self) -> ResolvedView {
        ResolvedView {
            parsed: self.parsed@,
            status: self.status@,
            prerelease: text_of(self.prerelease),
        }
    }
}

impl Clone for ResolvedDependency {
    fn clone(&self) -> (r: Self)
        ensures
            r == *self,
    {
        ResolvedDependency {
            parsed: self.parsed.clone(),
            status: self.status.clone(),
            prerelease: copied(&self.prerelease),
        }
    }
}

} // verus!
