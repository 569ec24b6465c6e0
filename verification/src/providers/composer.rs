//! Composer: `composer.json` and Packagist.
use vstd::prelude::*;
use vstd::slice::slice_subrange;
use super::{
    acts_like, all_declared, dependencies_view, dependency, dependency_at, dependency_view,
    is_declared, is_declared_at, lemma_dependencies_append, lemma_dependencies_push, pattern_texts,
    DependencyView, ParsedDependency, Provider, Registered,
};
use super::npm::{find_version_range, is_beside, version_range};
use super::registry::{lemma_views_push, release_of};
use super::request::{plain_question, plain_request, Registry, RequestView, VersionRequest};
use crate::cache::{nothing_known, ResultView, VersionResult};
use crate::document::{
    entries_in, entries_of, entries_view, json_document, node_ref_view, parse_json, Node, NodeView,
};
use crate::listing::{gather, least, lemma_gather, lemma_least, lemma_least_is};
use crate::outline::{
    address_of, address_view, lemma_key_before, lemma_located, lies_in, push_key, spot_of, under,
    Outline, Place, SpotView,
};
use crate::outline::json::{json_outline, law_json_outline_placed, outline_json};
use crate::ranking::{all_valid, newest, newest_of, rank, ranked, views};
use crate::text::chars::{
    chars_of, lemma_texts_push, lowercase, lowercase_of, push_chars, push_str, same_str, spells,
    string_of, texts,
};
use crate::text::lines::{lines, lines_of};
use crate::text::number::{decimal, decimal_of, number, number_of};
use crate::text::search::{
    begins, contains_str, occurs, parts_view, split, split_on, starts_with_str,
};
use crate::version::{version_of, Version, VersionView};
use crate::version_utils::normalize::{standard, standard_form};

verus! {

/// A version text that is marked as unstable.
pub open spec fn is_unstable(version: Seq<char>) -> bool {
    let lower = lowercase(version);
    ||| occurs(lower, "alpha"@)
    ||| occurs(lower, "beta"@)
    ||| occurs(lower, "-rc"@)
    ||| occurs(lower, ".rc"@)
    ||| occurs(lower, "dev"@)
    ||| occurs(lower, "patch"@)
}

/// A version text without its leading `v` or `V`.
pub open spec fn unmarked(version: Seq<char>) -> Seq<char> {
    if version.len() > 0 && (version[0] == 'v' || version[0] == 'V') {
        version.skip(1)
    } else {
        version
    }
}

/// Every part is a number.
pub open spec fn all_numbers(parts: Seq<Seq<char>>) -> bool {
    forall|i: int| 0 <= i < parts.len() ==> number(#[trigger] parts[i]) is Some
}

/// The release that a Composer version stands for: four numbers count by their
/// first three, and two get a third.
pub open spec fn composer_version(version: Seq<char>) -> Option<VersionView> {
    let s = unmarked(version);
    let parts = split(s, '.');
    if version_of(s) is Some {
        release_of(s)
    } else if parts.len() == 4 && all_numbers(parts) {
        release_of(parts[0] + "."@ + parts[1] + "."@ + parts[2])
    } else if parts.len() == 2 && all_numbers(parts) {
        release_of(s + ".0"@)
    } else {
        None
    }
}

/// The three numbers of a version.
pub open spec fn numbers_text(v: VersionView) -> Seq<char> {
    decimal(v.major as nat) + "."@ + decimal(v.minor as nat) + "."@ + decimal(v.patch as nat)
}

/// The stable versions by the number of their text.
pub open spec fn composer_stable_at(list: Seq<Seq<char>>) -> spec_fn(int) -> Option<VersionView> {
    |i: int|
        if is_unstable(list[i]) {
            None
        } else {
            composer_version(list[i])
        }
}

/// The unstable versions by the number of their text.
pub open spec fn composer_unstable_at(list: Seq<Seq<char>>) -> spec_fn(int) -> Option<VersionView> {
    |i: int|
        if is_unstable(list[i]) {
            composer_version(list[i])
        } else {
            None
        }
}

/// The lookup result for the version texts of a package.
pub open spec fn composer_result(list: Seq<Seq<char>>) -> ResultView {
    let n = list.len() as int;
    ResultView {
        stable_versions: ranked(gather(n, composer_stable_at(list))).map_values(
            |v: VersionView| numbers_text(v),
        ),
        prerelease: match newest(gather(n, composer_unstable_at(list))) {
            Some(v) => Some(numbers_text(v)),
            None => None,
        },
    }
}

/// A package and its version texts, as Packagist lists them.
#[derive(Debug)]
pub struct PackageVersions {
    pub name: String,
    pub versions: Vec<String>,
}

/// Which packages have a name.
pub open spec fn is_named(packages: Seq<PackageVersions>, name: Seq<char>) -> spec_fn(int) -> bool {
    |i: int| packages[i].name@ == name
}

/// The version texts of a package: those under its own name, or else the first
/// there are.
pub open spec fn package_versions(
    packages: Seq<PackageVersions>,
    name: Seq<char>,
) -> Option<Seq<Seq<char>>> {
    match least(packages.len() as int, is_named(packages, name)) {
        Some(i) => Some(texts(packages[i].versions@)),
        None => if packages.len() > 0 {
            Some(texts(packages[0].versions@))
        } else {
            None
        },
    }
}

/// A requirement on the platform, not on a package.
pub open spec fn is_platform(name: Seq<char>) -> bool {
    name == "php"@ || begins(name, "ext-"@) || begins(name, "lib-"@)
}

/// A constraint that names no registry version.
pub open spec fn is_unsupported(value: Seq<char>) -> bool {
    ||| begins(lowercase(value), "dev-"@)
    ||| lowercase(value) == "self.version"@
    ||| begins(value, "@"@)
    ||| value == "*"@
}

/// The dependency that one entry of a table declares.
pub open spec fn composer_dependency(
    lines: Seq<Seq<char>>,
    section: Seq<char>,
    name: Seq<char>,
    value: NodeView,
) -> Option<DependencyView> {
    match value {
        NodeView::Text(v) => if is_platform(name) || is_unsupported(v) {
            None
        } else {
            dependency_at(name, v, version_range(lines, under(seq![section, name]), v, 0, v))
        },
        _ => None,
    }
}

/// The same by the number of the entry.
pub open spec fn composer_entry_at(
    lines: Seq<Seq<char>>,
    section: Seq<char>,
    entries: Seq<(Seq<char>, NodeView)>,
) -> spec_fn(int) -> Option<DependencyView> {
    |i: int| composer_dependency(lines, section, entries[i].0, entries[i].1)
}

/// The dependencies that a table declares.
pub open spec fn table_dependencies(
    document: NodeView,
    lines: Seq<Seq<char>>,
    section: Seq<char>,
) -> Seq<DependencyView> {
    let entries = entries_of(document.get(section));
    gather(entries.len() as int, composer_entry_at(lines, section, entries))
}

/// The dependencies of a `composer.json`, given what it holds.
pub open spec fn composer_dependencies(document: NodeView, content: Seq<char>) -> Seq<
    DependencyView,
> {
    table_dependencies(document, lines(content), "require"@) + table_dependencies(
        document,
        lines(content),
        "require-dev"@,
    )
}

/// The dependencies of a `composer.json`; none where it is no JSON.
pub open spec fn composer_json(content: Seq<char>) -> Seq<DependencyView> {
    match json_document(content) {
        Some(document) => composer_dependencies(document, content),
        None => seq![],
    }
}

/// Returns true if a Composer version is a prerelease. Composer uses suffixes
/// like `-alpha`, `-beta`, `-RC`, `-dev` and `.x-dev`.
pub fn is_composer_prerelease(version: &str) -> (r: bool)
    ensures
        r == is_unstable(version@),
{
    let cs = chars_of(version);
    let lower = lowercase_of(cs.as_slice());
    let l = lower.as_slice();
    contains_str(l, "alpha") || contains_str(l, "beta") || contains_str(l, "-rc") || contains_str(
        l,
        ".rc",
    ) || contains_str(l, "dev") || contains_str(l, "patch")
}

/// Whether every part is a number.
pub fn numbers(parts: &Vec<Vec<char>>) -> (r: bool)
    ensures
        r == all_numbers(parts_view(parts@)),
{
    let ghost all = parts_view(parts@);
    for i in 0..parts.len()
        invariant
            all == parts_view(parts@),
            forall|j: int| 0 <= j < i ==> number(#[trigger] all[j]) is Some,
    {
        assert(all[i as int] == parts@[i as int]@);
        if number_of(parts[i].as_slice()).is_none() {
            return false;
        }
    }
    true
}

/// The release that a text spells.
fn release(text: &str) -> (r: Option<Version>)
    ensures
        match r {
            Some(v) => release_of(text@) == Some(v@) && v@.valid(),
            None => release_of(text@) is None,
        },
{
    match Version::parse(text) {
        Some(v) => if v.is_stable() {
            Some(v)
        } else {
            None
        },
        None => None,
    }
}

/// Strips Composer's `v` prefix and reads the version. Prereleases give
/// `None`.
pub fn parse_composer_version(version: &str) -> (r: Option<Version>)
    ensures
        match r {
            Some(v) => composer_version(version@) == Some(v@) && v@.valid(),
            None => composer_version(version@) is None,
        },
{
    let cs = chars_of(version);
    let s = if cs.len() > 0 && (cs[0] == 'v' || cs[0] == 'V') {
        slice_subrange(cs.as_slice(), 1, cs.len())
    } else {
        cs.as_slice()
    };
    assert(s@ == unmarked(version@));
    let text = string_of(s);
    if Version::parse(text.as_str()).is_some() {
        return release(text.as_str());
    }
    let parts = split_on(s, '.');
    let ghost all = split(s@, '.');
    assert(parts@.len() == all.len());
    if parts.len() == 4 && numbers(&parts) {
        assert(parts@[0]@ == all[0] && parts@[1]@ == all[1] && parts@[2]@ == all[2]);
        let mut three: Vec<char> = Vec::new();
        push_chars(&mut three, parts[0].as_slice());
        push_str(&mut three, ".");
        push_chars(&mut three, parts[1].as_slice());
        push_str(&mut three, ".");
        push_chars(&mut three, parts[2].as_slice());
        assert(three@ == all[0] + "."@ + all[1] + "."@ + all[2]);
        let three = string_of(three.as_slice());
        return release(three.as_str());
    }
    if parts.len() == 2 && numbers(&parts) {
        let mut padded: Vec<char> = Vec::new();
        push_chars(&mut padded, s);
        push_str(&mut padded, ".0");
        assert(padded@ == s@ + ".0"@);
        let padded = string_of(padded.as_slice());
        return release(padded.as_str());
    }
    None
}

/// Formats a version as its three numbers.
pub fn format_composer_version(v: &Version) -> (r: String)
    ensures
        r@ == numbers_text(v@),
{
    let mut out = decimal_of(v.major);
    push_str(&mut out, ".");
    let minor = decimal_of(v.minor);
    push_chars(&mut out, minor.as_slice());
    push_str(&mut out, ".");
    let patch = decimal_of(v.patch);
    push_chars(&mut out, patch.as_slice());
    assert(out@ == numbers_text(v@));
    string_of(out.as_slice())
}

/// The lookup result for the version texts of a package.
pub fn composer_versions(list: &Vec<String>) -> (r: VersionResult)
    ensures
        r@ == composer_result(texts(list@)),
{
    let ghost all = texts(list@);
    let ghost sat = composer_stable_at(all);
    let ghost uat = composer_unstable_at(all);
    let mut stable: Vec<Version> = Vec::new();
    let mut unstable: Vec<Version> = Vec::new();
    assert(views(stable@) == gather(0, sat));
    assert(views(unstable@) == gather(0, uat));
    for i in 0..list.len()
        invariant
            all == texts(list@),
            sat == composer_stable_at(all),
            uat == composer_unstable_at(all),
            all_valid(stable@),
            all_valid(unstable@),
            views(stable@) == gather(i as int, sat),
            views(unstable@) == gather(i as int, uat),
    {
        assert(all[i as int] == list@[i as int]@);
        let text = list[i].as_str();
        let is_pre = is_composer_prerelease(text);
        if let Some(v) = parse_composer_version(text) {
            proof {
                lemma_views_push(stable@, v);
                lemma_views_push(unstable@, v);
            }
            if is_pre {
                assert(sat(i as int) is None && uat(i as int) == Some(v@));
                unstable.push(v);
            } else {
                assert(sat(i as int) == Some(v@) && uat(i as int) is None);
                stable.push(v);
            }
        } else {
            assert(sat(i as int) is None && uat(i as int) is None);
        }
    }
    let sorted = rank(stable.as_slice());
    let ghost goal = ranked(views(stable@)).map_values(|v: VersionView| numbers_text(v));
    let mut stable_versions: Vec<String> = Vec::new();
    for i in 0..sorted.len()
        invariant
            views(sorted@) == ranked(views(stable@)),
            goal == ranked(views(stable@)).map_values(|v: VersionView| numbers_text(v)),
            texts(stable_versions@) == goal.take(i as int),
    {
        assert(views(sorted@)[i as int] == sorted@[i as int]@);
        let text = format_composer_version(&sorted[i]);
        proof {
            lemma_texts_push(stable_versions@, text);
            assert(text@ == goal[i as int]);
            assert(goal.take(i as int + 1) == goal.take(i as int).push(goal[i as int]));
        }
        stable_versions.push(text);
    }
    assert(goal.take(goal.len() as int) == goal);
    let prerelease = match newest_of(unstable.as_slice()) {
        Some(v) => Some(format_composer_version(&v)),
        None => None,
    };
    VersionResult { stable_versions, prerelease }
}

/// The lookup result for a package among those that Packagist lists: under its
/// own name, or else under the first there is.
pub fn packagist_versions(packages: &Vec<PackageVersions>, package_name: &str) -> (r: VersionResult)
    ensures
        r@ == (match package_versions(packages@, package_name@) {
            Some(list) => composer_result(list),
            None => nothing_known(),
        }),
{
    let ghost f = is_named(packages@, package_name@);
    for i in 0..packages.len()
        invariant
            f == is_named(packages@, package_name@),
            forall|j: int| 0 <= j < i ==> !#[trigger] f(j),
    {
        if same_str(packages[i].name.as_str(), package_name) {
            proof {
                assert(f(i as int));
                lemma_least_is(packages@.len() as int, f, i as int);
            }
            return composer_versions(&packages[i].versions);
        }
        assert(!f(i as int));
    }
    proof {
        lemma_least(packages@.len() as int, f);
    }
    if packages.len() > 0 {
        composer_versions(&packages[0].versions)
    } else {
        VersionResult::default()
    }
}

/// Returns `true` for constraints that name no registry version.
pub fn is_unsupported_composer_constraint(value: &str) -> (r: bool)
    ensures
        r == is_unsupported(value@),
{
    let cs = chars_of(value);
    let lower = lowercase_of(cs.as_slice());
    starts_with_str(lower.as_slice(), "dev-") || spells(lower.as_slice(), "self.version")
        || starts_with_str(cs.as_slice(), "@") || spells(cs.as_slice(), "*")
}

/// The dependencies that a table declares.
fn table(outline: &Outline, document: &Node, section: &str) -> (r: Vec<ParsedDependency>)
    requires
        outline.valid(),
        outline.strings() == json_outline(outline.rows()),
    ensures
        dependencies_view(r@) == table_dependencies(document@, outline.rows(), section@),
{
    let mut deps: Vec<ParsedDependency> = Vec::new();
    let found = document.get_str(section);
    let ghost ls = outline.rows();
    let ghost entries = entries_of(node_ref_view(found));
    let ghost at = composer_entry_at(ls, section@, entries);
    assert(dependencies_view(deps@) == gather(0, at));
    if let Some(list) = entries_in(found) {
        for i in 0..list.len()
            invariant
                outline.valid(),
                outline.strings() == json_outline(outline.rows()),
                ls == outline.rows(),
                entries == entries_view(list@),
                at == composer_entry_at(ls, section@, entries),
                dependencies_view(deps@) == gather(i as int, at),
        {
            assert(entries[i as int] == (list@[i as int].0@, list@[i as int].1@));
            let name = chars_of(list[i].0.as_str());
            let n = name.as_slice();
            let platform = spells(n, "php") || starts_with_str(n, "ext-") || starts_with_str(
                n,
                "lib-",
            );
            let found = match &list[i].1 {
                Node::Text(text) => if platform || is_unsupported_composer_constraint(
                    text.as_str(),
                ) {
                    None
                } else {
                    let version = chars_of(text.as_str());
                    let v = version.as_slice();
                    let address = place(section, n);
                    assert(v@.subrange(0, v@.len() as int) == v@);
                    let range = find_version_range(outline, &address, v, 0, v);
                    dependency(n, v, range)
                },
                _ => None,
            };
            assert(dependency_view(found) == at(i as int));
            if let Some(dep) = found {
                proof {
                    lemma_dependencies_push(deps@, dep);
                }
                deps.push(dep);
            }
        }
    }
    deps
}

/// The address of an entry of a table.
fn place(section: &str, name: &[char]) -> (r: Vec<Place>)
    ensures
        address_view(r@) == under(seq![section@, name@]),
{
    let cs = chars_of(section);
    let mut address: Vec<Place> = Vec::new();
    push_key(&mut address, cs.as_slice());
    push_key(&mut address, name);
    assert(address_view(address@) == under(seq![section@, name@]));
    address
}

/// The dependencies of a `composer.json`, given what it holds.
pub fn dependencies_in(document: &Node, content: &str) -> (r: Vec<ParsedDependency>)
    ensures
        dependencies_view(r@) == composer_dependencies(document@, content@),
{
    let cs = chars_of(content);
    let outline = outline_json(lines_of(cs.as_slice()));
    let mut deps = table(&outline, document, "require");
    let mut more = table(&outline, document, "require-dev");
    proof {
        lemma_dependencies_append(deps@, more@);
    }
    deps.append(&mut more);
    deps
}

/// Parses a `composer.json` and extracts the versioned dependencies.
pub fn parse_composer_json(content: &str) -> (r: Vec<ParsedDependency>)
    ensures
        dependencies_view(r@) == composer_json(content@),
{
    match parse_json(content) {
        Some(document) => dependencies_in(&document, content),
        None => {
            let deps: Vec<ParsedDependency> = Vec::new();
            assert(dependencies_view(deps@) == Seq::<DependencyView>::empty());
            deps
        },
    }
}

/// A dependency is what an entry of a table declares, and its constraint is the
/// value of that entry: on the line of its name, behind it, and behind the key
/// of the table.
pub open spec fn is_entry(
    document: NodeView,
    lines: Seq<Seq<char>>,
    section: Seq<char>,
    dep: DependencyView,
    e: int,
    spot: SpotView,
) -> bool {
    let entries = entries_of(document.get(section));
    &&& 0 <= e < entries.len()
    &&& entries[e] == (dep.name, NodeView::Text(dep.constraint))
    &&& is_beside(spot)
    &&& lies_in(
        lines,
        json_outline(lines),
        spot,
        under(seq![section, dep.name]),
        dep.constraint,
        0,
        dep.constraint,
        dep.range,
    )
}

/// A dependency stands at an entry that declares it.
pub open spec fn has_entry(
    document: NodeView,
    lines: Seq<Seq<char>>,
    section: Seq<char>,
    dep: DependencyView,
) -> bool {
    exists|e: int, spot: SpotView| is_entry(document, lines, section, dep, e, spot)
}

/// Each dependency of a table stands at its own entry.
pub proof fn law_composer_entries(document: NodeView, lines: Seq<Seq<char>>, section: Seq<char>)
    ensures
        ({
            let deps = table_dependencies(document, lines, section);
            forall|i: int|
                0 <= i < deps.len() ==> has_entry(document, lines, section, #[trigger] deps[i])
        }),
{
    let entries = entries_of(document.get(section));
    let deps = table_dependencies(document, lines, section);
    let at = composer_entry_at(lines, section, entries);
    law_json_outline_placed(lines);
    assert forall|i: int| 0 <= i < deps.len() implies has_entry(
        document,
        lines,
        section,
        #[trigger] deps[i],
    ) by {
        lemma_gather(entries.len() as int, at, i);
        let e = choose|e: int| 0 <= e < entries.len() && #[trigger] at(e) == Some(deps[i]);
        let version = entries[e].1->Text_0;
        let address = under(seq![section, entries[e].0]);
        assert(version.subrange(0, version.len() as int) == version);
        lemma_located(lines, json_outline(lines), address, version, 0, version);
        let spot = spot_of(json_outline(lines), address, version)->0;
        assert(is_entry(document, lines, section, deps[i], e, spot));
    }
}

proof fn lemma_table_declared(document: NodeView, lines: Seq<Seq<char>>, section: Seq<char>)
    ensures
        all_declared(lines, table_dependencies(document, lines, section)),
{
    let deps = table_dependencies(document, lines, section);
    law_composer_entries(document, lines, section);
    assert forall|i: int| 0 <= i < deps.len() implies is_declared(lines, #[trigger] deps[i]) by {
        let dep = deps[i];
        let (e, spot) = choose|e: int, spot: SpotView|
            is_entry(document, lines, section, dep, e, spot);
        assert(address_of(spot.path).len() == spot.path.len());
        let written = lemma_key_before(
            lines,
            spot,
            under(seq![section, dep.name]),
            1,
            dep.name,
        );
        assert(is_declared_at(lines, dep, spot.line, spot.at + 0, written));
    }
}

/// The range of each dependency covers exactly its constraint, behind its name.
pub proof fn law_composer_ranges(document: NodeView, content: Seq<char>)
    ensures
        all_declared(lines(content), composer_dependencies(document, content)),
{
    lemma_table_declared(document, lines(content), "require"@);
    lemma_table_declared(document, lines(content), "require-dev"@);
}

/// The same for the text of a `composer.json`.
pub proof fn law_composer_json_ranges(content: Seq<char>)
    ensures
        all_declared(lines(content), composer_json(content)),
{
    if let Some(document) = json_document(content) {
        law_composer_ranges(document, content);
    }
}

/// Composer: versions come from Packagist.
#[derive(Debug)]
pub struct ComposerProvider {}

impl ComposerProvider {
    /// The provider.
    pub fn new() -> (r: Self)
        ensures
            r == (ComposerProvider {}),
    {
        ComposerProvider {}
    }

    /// The provider made ready for a registry.
    pub fn shared(self) -> (r: Registered)
        ensures
            acts_like(&r.provider, self),
    {
        Registered { provider: Box::new(self) }
    }
}

impl Provider for ComposerProvider {
    open spec fn patterns(&self) -> Seq<Seq<char>> {
        seq!["composer.json"@]
    }

    open spec fn title(&self) -> Seq<char> {
        "composer"@
    }

    open spec fn dependencies(&self, uri: Seq<char>, content: Seq<char>) -> Seq<DependencyView> {
        composer_json(content)
    }

    open spec fn normal_form(&self, constraint: Seq<char>) -> Seq<char> {
        standard_form(constraint)
    }

    open spec fn question(&self, package: Seq<char>) -> Option<RequestView> {
        Some(
            plain_question(
                Registry::Packagist,
                "https://repo.packagist.org/p2/"@,
                package,
                ".json"@,
            ),
        )
    }

    fn file_patterns(&self) -> (r: Vec<&'static str>) {
        let mut out: Vec<&'static str> = Vec::new();
        out.push("composer.json");
        assert(pattern_texts(out@) == self.patterns());
        out
    }

    fn parse_dependencies(&self, uri: &str, content: &str) -> (r: Vec<ParsedDependency>) {
        parse_composer_json(content)
    }

    fn version_request(&self, package_name: &str) -> (r: Option<VersionRequest>) {
        let cs = chars_of(package_name);
        Some(
            plain_request(
                Registry::Packagist,
                "https://repo.packagist.org/p2/",
                cs.as_slice(),
                ".json",
            ),
        )
    }

    fn name(&self) -> (r: &str) {
        "composer"
    }

    fn normalize_constraint(&self, constraint: &str) -> (r: String) {
        standard(constraint)
    }
}

} // verus!
