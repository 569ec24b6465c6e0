//! Cargo: `Cargo.toml` and crates.io.
use vstd::prelude::*;
use super::{
    acts_like, all_declared, dependencies_view, dependency, dependency_at, dependency_view,
    is_declared, is_declared_at, lemma_dependencies_append, lemma_dependencies_push, names,
    pattern_texts, DependencyView, ParsedDependency, Provider, Registered,
};
use super::registry::{listed_result, result_for};
use super::request::{plain_question, plain_request, Registry, RequestView, VersionRequest};
use crate::cache::VersionResult;
use crate::document::{
    entries_in, entries_of, entries_view, node_ref_view, parse_toml, toml_document, Node, NodeView,
};
use crate::listing::{gather, join, lemma_gather, lemma_join};
use crate::locate::Range;
use crate::outline::{
    address_of, address_view, entry_address, entry_place, lemma_key_before, lemma_located,
    lemma_spot_found, lies_in, located, place_of, push_key, spot_of, under, Outline, Place,
    PlaceView, SpotView,
};
use crate::outline::toml::{
    law_toml_outline_placed, lemma_toml_keys_plain, outline_toml, toml_outline,
};
use crate::outline::toml_rows::{
    has_text, is_document, keys_at, law_toml_entry_found, row_lines, value_of, TomlRow,
};
use crate::text::chars::{chars_of, lemma_texts_push, text_of, texts};
use crate::text::lines::{lines, lines_of};
use crate::version_utils::normalize::{standard, standard_form};

verus! {

/// The version that a TOML value declares: the value itself, or what a table
/// has under `version`.
pub open spec fn toml_version(value: NodeView) -> Option<Seq<char>> {
    match value {
        NodeView::Text(s) => Some(s),
        NodeView::Table(_) => match value.get("version"@) {
            Some(NodeView::Text(s)) => Some(s),
            _ => None,
        },
        _ => None,
    }
}

/// The address of the version that an entry of a section declares: the entry's
/// own, or that of the key `version` in its table.
pub open spec fn version_address(
    section: Seq<char>,
    name: Seq<char>,
    value: NodeView,
) -> Seq<PlaceView> {
    match value {
        NodeView::Text(_) => entry_address(section, name),
        _ => entry_address(section, name).push(PlaceView::Key("version"@)),
    }
}

/// Where the version of an entry stands. The entry may be a string, an inline
/// table or a section of its own.
pub open spec fn toml_range(
    lines: Seq<Seq<char>>,
    section: Seq<char>,
    name: Seq<char>,
    value: NodeView,
    version: Seq<char>,
) -> Option<Range> {
    located(
        lines,
        toml_outline(lines),
        version_address(section, name, value),
        version,
        0,
        version,
    )
}

/// The dependency that one entry of a section declares.
pub open spec fn toml_dependency(
    lines: Seq<Seq<char>>,
    section: Seq<char>,
    name: Seq<char>,
    value: NodeView,
) -> Option<DependencyView> {
    match toml_version(value) {
        Some(version) => dependency_at(
            name,
            version,
            toml_range(lines, section, name, value, version),
        ),
        None => None,
    }
}

/// The same by the number of the entry.
pub open spec fn toml_entry_at(
    lines: Seq<Seq<char>>,
    key: Seq<char>,
    entries: Seq<(Seq<char>, NodeView)>,
) -> spec_fn(int) -> Option<DependencyView> {
    |i: int| toml_dependency(lines, key, entries[i].0, entries[i].1)
}

/// The dependencies that a section declares.
pub open spec fn section_dependencies(
    lines: Seq<Seq<char>>,
    key: Seq<char>,
    entries: Seq<(Seq<char>, NodeView)>,
) -> Seq<DependencyView> {
    gather(entries.len() as int, toml_entry_at(lines, key, entries))
}

/// The dependencies of the sections under the keys, by the number of the key.
pub open spec fn section_at(
    document: NodeView,
    lines: Seq<Seq<char>>,
    keys: Seq<Seq<char>>,
) -> spec_fn(int) -> Seq<DependencyView> {
    |k: int| section_dependencies(lines, keys[k], entries_of(document.resolve(keys[k])))
}

/// The dependencies of a `Cargo.toml`, given what it holds.
pub open spec fn cargo_dependencies(
    document: NodeView,
    content: Seq<char>,
    keys: Seq<Seq<char>>,
) -> Seq<DependencyView> {
    join(keys.len() as int, section_at(document, lines(content), keys))
}

/// The dependencies of a `Cargo.toml`; none where it is no TOML.
pub open spec fn cargo_toml(content: Seq<char>, keys: Seq<Seq<char>>) -> Seq<DependencyView> {
    match toml_document(content) {
        Some(document) => cargo_dependencies(document, content, keys),
        None => seq![],
    }
}

/// A version that crates.io lists, or jsr.io.
#[derive(Debug)]
pub struct CrateVersion {
    pub num: String,
    pub yanked: bool,
}

/// The number of a version that was not yanked, by its place in the list.
pub open spec fn kept_at(rows: Seq<CrateVersion>) -> spec_fn(int) -> Option<Seq<char>> {
    |i: int|
        if rows[i].yanked {
            None
        } else {
            Some(rows[i].num@)
        }
}

/// The numbers of the versions that were not yanked.
pub open spec fn kept(rows: Seq<CrateVersion>) -> Seq<Seq<char>> {
    gather(rows.len() as int, kept_at(rows))
}

/// Extracts the version from a TOML dependency value: a plain string, or a
/// table with a `version` key. A table with only a path or a repository has
/// none.
pub fn extract_toml_version(value: &Node) -> (r: Option<String>)
    ensures
        text_of(r) == toml_version(value@),
{
    match value {
        Node::Text(s) => Some(s.clone()),
        Node::Table(_) => match value.get_str("version") {
            Some(Node::Text(s)) => Some(s.clone()),
            _ => None,
        },
        _ => None,
    }
}

/// The address of the version that an entry of a section declares.
fn version_place(section: &[char], name: &[char], value: &Node) -> (r: Vec<Place>)
    ensures
        address_view(r@) == version_address(section@, name@, value@),
{
    let mut address = entry_place(section, name);
    match value {
        Node::Text(_) => {},
        _ => {
            let key = chars_of("version");
            push_key(&mut address, key.as_slice());
        },
    }
    address
}

/// Finds the range of the version that an entry of a section declares.
pub fn find_toml_version_range(
    outline: &Outline,
    dep_key: &str,
    name: &[char],
    value: &Node,
    version: &[char],
) -> (r: Option<Range>)
    requires
        outline.valid(),
        outline.strings() == toml_outline(outline.rows()),
    ensures
        r == toml_range(outline.rows(), dep_key@, name@, value@, version@),
{
    let section = chars_of(dep_key);
    let address = version_place(section.as_slice(), name, value);
    assert(version@.subrange(0, version@.len() as int) == version@);
    outline.locate(&address, version, 0, version)
}

/// The dependencies that a section declares.
pub fn section(outline: &Outline, dep_key: &str, table: Option<&Node>) -> (r: Vec<
    ParsedDependency,
>)
    requires
        outline.valid(),
        outline.strings() == toml_outline(outline.rows()),
    ensures
        dependencies_view(r@) == section_dependencies(
            outline.rows(),
            dep_key@,
            entries_of(node_ref_view(table)),
        ),
{
    let mut deps: Vec<ParsedDependency> = Vec::new();
    let ghost ls = outline.rows();
    let ghost entries = entries_of(node_ref_view(table));
    let ghost at = toml_entry_at(ls, dep_key@, entries);
    assert(dependencies_view(deps@) == gather(0, at));
    if let Some(list) = entries_in(table) {
        for i in 0..list.len()
            invariant
                outline.valid(),
                outline.strings() == toml_outline(outline.rows()),
                ls == outline.rows(),
                entries == entries_view(list@),
                at == toml_entry_at(ls, dep_key@, entries),
                dependencies_view(deps@) == gather(i as int, at),
        {
            assert(entries[i as int] == (list@[i as int].0@, list@[i as int].1@));
            let found = match extract_toml_version(&list[i].1) {
                Some(version) => {
                    let name = chars_of(list[i].0.as_str());
                    let constraint = chars_of(version.as_str());
                    let range = find_toml_version_range(
                        outline,
                        dep_key,
                        name.as_slice(),
                        &list[i].1,
                        constraint.as_slice(),
                    );
                    dependency(name.as_slice(), constraint.as_slice(), range)
                },
                None => None,
            };
            assert(dependency_view(found) == at(i as int));
            if let Some(dep) = found {
                proof {
                    lemma_dependencies_push(deps@, dep);
                }
                deps.push(dep);
            }
        }
    }
    deps
}

/// The dependencies of a `Cargo.toml`, given what it holds.
pub fn dependencies_in(document: &Node, content: &str, dependency_keys: &[String]) -> (r: Vec<
    ParsedDependency,
>)
    ensures
        dependencies_view(r@) == cargo_dependencies(document@, content@, texts(dependency_keys@)),
{
    let mut deps: Vec<ParsedDependency> = Vec::new();
    let cs = chars_of(content);
    let outline = outline_toml(lines_of(cs.as_slice()));
    let ghost keys = texts(dependency_keys@);
    let ghost at = section_at(document@, lines(content@), keys);
    assert(dependencies_view(deps@) == join(0, at));
    for k in 0..dependency_keys.len()
        invariant
            outline.valid(),
            outline.rows() == lines(content@),
            outline.strings() == toml_outline(outline.rows()),
            keys == texts(dependency_keys@),
            at == section_at(document@, lines(content@), keys),
            dependencies_view(deps@) == join(k as int, at),
    {
        let key = dependency_keys[k].as_str();
        assert(keys[k as int] == key@);
        let mut more = section(&outline, key, document.resolve(key));
        proof {
            lemma_dependencies_append(deps@, more@);
            assert(dependencies_view(more@) == at(k as int));
        }
        deps.append(&mut more);
    }
    deps
}

/// Parses a `Cargo.toml` and extracts the dependencies under the configured
/// keys.
pub fn parse_cargo_toml(content: &str, dependency_keys: &[String]) -> (r: Vec<ParsedDependency>)
    ensures
        dependencies_view(r@) == cargo_toml(content@, texts(dependency_keys@)),
{
    match parse_toml(content) {
        Some(document) => dependencies_in(&document, content, dependency_keys),
        None => {
            let deps: Vec<ParsedDependency> = Vec::new();
            assert(dependencies_view(deps@) == Seq::<DependencyView>::empty());
            deps
        },
    }
}

/// The lookup result for versions that may be yanked; those do not count.
pub fn crate_versions(rows: &Vec<CrateVersion>) -> (r: VersionResult)
    ensures
        r@ == listed_result(kept(rows@)),
{
    let ghost at = kept_at(rows@);
    let mut list: Vec<String> = Vec::new();
    assert(texts(list@) == gather(0, at));
    for i in 0..rows.len()
        invariant
            at == kept_at(rows@),
            texts(list@) == gather(i as int, at),
    {
        if rows[i].yanked {
            assert(at(i as int) is None);
        } else {
            let num = rows[i].num.clone();
            proof {
                lemma_texts_push(list@, num);
                assert(at(i as int) == Some(num@));
            }
            list.push(num);
        }
    }
    result_for(list.as_slice())
}

/// In a document with one entry per line the version of an entry is found, be it
/// the entry itself, the first string of its inline table, or a line of a
/// section of its own.
pub proof fn law_toml_version_found(
    rows: Seq<TomlRow>,
    i: int,
    section: Seq<char>,
    name: Seq<char>,
    value: NodeView,
)
    requires
        is_document(rows),
        0 <= i < rows.len(),
        has_text(rows[i]),
        under(keys_at(rows, i)) == version_address(section, name, value),
        toml_version(value) == Some(value_of(rows[i])),
    ensures
        ({
            let found = toml_dependency(row_lines(rows), section, name, value);
            &&& found is Some
            &&& found->0.name == name
            &&& found->0.constraint == value_of(rows[i])
        }),
{
    let outline = toml_outline(row_lines(rows));
    let spot = law_toml_entry_found(rows, i);
    let m = choose|m: int| 0 <= m < outline.len() && outline[m] == spot;
    lemma_spot_found(
        outline,
        outline.len() as int,
        version_address(section, name, value),
        value_of(rows[i]),
        m,
    );
}

/// A dependency is what an entry of a section declares, and its constraint is
/// the string at that entry, behind the keys that lead to it: those of the
/// section, and the entry's name.
pub open spec fn is_entry(
    lines: Seq<Seq<char>>,
    section: Seq<char>,
    name: Seq<char>,
    value: NodeView,
    dep: DependencyView,
    spot: SpotView,
) -> bool {
    &&& toml_version(value) == Some(dep.constraint)
    &&& lies_in(
        lines,
        toml_outline(lines),
        spot,
        version_address(section, name, value),
        dep.constraint,
        0,
        dep.constraint,
        dep.range,
    )
}

/// A version that is found stands at its own entry.
pub proof fn lemma_toml_range(
    lines: Seq<Seq<char>>,
    section: Seq<char>,
    name: Seq<char>,
    value: NodeView,
    dep: DependencyView,
)
    requires
        toml_version(value) == Some(dep.constraint),
        toml_range(lines, section, name, value, dep.constraint) == Some(dep.range),
    ensures
        exists|spot: SpotView| is_entry(lines, section, name, value, dep, spot),
{
    let version = dep.constraint;
    let address = version_address(section, name, value);
    law_toml_outline_placed(lines);
    assert(version.subrange(0, version.len() as int) == version);
    lemma_located(lines, toml_outline(lines), address, version, 0, version);
    let spot = spot_of(toml_outline(lines), address, version)->0;
    assert(is_entry(lines, section, name, value, dep, spot));
}

/// A dependency stands at an entry that declares it and has its name.
pub open spec fn has_entry(
    lines: Seq<Seq<char>>,
    section: Seq<char>,
    entries: Seq<(Seq<char>, NodeView)>,
    dep: DependencyView,
) -> bool {
    exists|e: int, spot: SpotView|
        0 <= e < entries.len() && dep.name == entries[e].0 && #[trigger] is_entry(
            lines,
            section,
            entries[e].0,
            entries[e].1,
            dep,
            spot,
        )
}

/// Each dependency of a section stands at its own entry.
pub proof fn law_section_entries(
    lines: Seq<Seq<char>>,
    section: Seq<char>,
    entries: Seq<(Seq<char>, NodeView)>,
)
    ensures
        ({
            let deps = section_dependencies(lines, section, entries);
            forall|i: int|
                0 <= i < deps.len() ==> has_entry(lines, section, entries, #[trigger] deps[i])
        }),
{
    let deps = section_dependencies(lines, section, entries);
    let at = toml_entry_at(lines, section, entries);
    assert forall|i: int| 0 <= i < deps.len() implies has_entry(
        lines,
        section,
        entries,
        #[trigger] deps[i],
    ) by {
        lemma_gather(entries.len() as int, at, i);
        let e = choose|e: int| 0 <= e < entries.len() && #[trigger] at(e) == Some(deps[i]);
        lemma_toml_range(lines, section, entries[e].0, entries[e].1, deps[i]);
    }
}

/// What stands at an entry is declared there, behind the entry's name.
pub proof fn lemma_entry_declared(
    lines: Seq<Seq<char>>,
    section: Seq<char>,
    name: Seq<char>,
    value: NodeView,
    dep: DependencyView,
    spot: SpotView,
)
    requires
        is_entry(lines, section, name, value, dep, spot),
        names(name, dep.name),
    ensures
        is_declared(lines, dep),
{
    let address = version_address(section, name, value);
    let j = entry_address(section, name).len() - 1;
    lemma_toml_keys_plain(lines, spot);
    assert(address_of(spot.path) == address);
    assert(address_of(spot.path).len() == spot.path.len() && 0 <= j < address.len());
    assert(address[j] == PlaceView::Key(name));
    assert(address_of(spot.path)[j] == place_of(spot.path[j]));
    let written = lemma_key_before(
        lines,
        spot,
        address,
        j,
        name,
    );
    assert(is_declared_at(lines, dep, spot.line, spot.at + 0, written));
}

/// The range of each dependency covers exactly its constraint, behind its name.
pub proof fn law_cargo_ranges(document: NodeView, content: Seq<char>, keys: Seq<Seq<char>>)
    ensures
        all_declared(lines(content), cargo_dependencies(document, content, keys)),
{
    let ls = lines(content);
    let at = section_at(document, ls, keys);
    let deps = cargo_dependencies(document, content, keys);
    assert forall|k: int| 0 <= k < deps.len() implies is_declared(ls, #[trigger] deps[k]) by {
        lemma_join(keys.len() as int, at, k);
        let (i, j) = choose|i: int, j: int|
            0 <= i < keys.len() && 0 <= j < at(i).len() && #[trigger] at(i)[j] == deps[k];
        let entries = entries_of(document.resolve(keys[i]));
        law_section_entries(ls, keys[i], entries);
        assert(has_entry(ls, keys[i], entries, at(i)[j]));
        let (e, spot) = choose|e: int, spot: SpotView|
            0 <= e < entries.len() && deps[k].name == entries[e].0 && #[trigger] is_entry(
                ls,
                keys[i],
                entries[e].0,
                entries[e].1,
                deps[k],
                spot,
            );
        lemma_entry_declared(ls, keys[i], entries[e].0, entries[e].1, deps[k], spot);
    }
}

/// The same for the text of a `Cargo.toml`.
pub proof fn law_cargo_toml_ranges(content: Seq<char>, keys: Seq<Seq<char>>)
    ensures
        all_declared(lines(content), cargo_toml(content, keys)),
{
    if let Some(document) = toml_document(content) {
        law_cargo_ranges(document, content, keys);
    }
}

/// Cargo: versions come from crates.io.
#[derive(Debug)]
pub struct CargoProvider {
    pub dependency_keys: Vec<String>,
}

impl CargoProvider {
    /// A provider with the given settings.
    pub fn new(dependency_keys: Vec<String>) -> (r: Self)
        ensures
            r.dependency_keys == dependency_keys,
    {
        CargoProvider { dependency_keys }
    }

    /// The provider made ready for a registry.
    pub fn shared(self) -> (r: Registered)
        ensures
            acts_like(&r.provider, self),
    {
        Registered { provider: Box::new(self) }
    }
}

impl Provider for CargoProvider {
    open spec fn patterns(&self) -> Seq<Seq<char>> {
        seq!["Cargo.toml"@]
    }

    open spec fn title(&self) -> Seq<char> {
        "cargo"@
    }

    open spec fn dependencies(&self, uri: Seq<char>, content: Seq<char>) -> Seq<DependencyView> {
        cargo_toml(content, texts(self.dependency_keys@))
    }

    open spec fn normal_form(&self, constraint: Seq<char>) -> Seq<char> {
        standard_form(constraint)
    }

    open spec fn question(&self, package: Seq<char>) -> Option<RequestView> {
        Some(
            plain_question(
                Registry::CratesIo,
                "https://crates.io/api/v1/crates/"@,
                package,
                ""@,
            ),
        )
    }

    fn file_patterns(&self) -> (r: Vec<&'static str>) {
        let mut out: Vec<&'static str> = Vec::new();
        out.push("Cargo.toml");
        assert(pattern_texts(out@) == self.patterns());
        out
    }

    fn parse_dependencies(&self, uri: &str, content: &str) -> (r: Vec<ParsedDependency>) {
        parse_cargo_toml(content, self.dependency_keys.as_slice())
    }

    fn version_request(&self, package_name: &str) -> (r: Option<VersionRequest>) {
        let cs = chars_of(package_name);
        Some(
            plain_request(
                Registry::CratesIo,
                "https://crates.io/api/v1/crates/",
                cs.as_slice(),
                "",
            ),
        )
    }

    fn name(&self) -> (r: &str) {
        "cargo"
    }

    fn normalize_constraint(&self, constraint: &str) -> (r: String) {
        standard(constraint)
    }
}

} // verus!
