//! npm: `package.json` and the npm registry.
use vstd::prelude::*;
use vstd::slice::slice_subrange;
use super::{
    acts_like, all_declared, dependencies_view, dependency, dependency_at, dependency_view,
    is_declared, is_declared_at, lemma_dependencies_push, pattern_texts, DependencyView,
    ParsedDependency, Provider, Registered,
};
use super::registry::{display_of, prereleases, result_for};
use super::request::{npm_question, npm_request, RequestView, VersionRequest};
use crate::document::{
    entries_in, entries_of, entries_view, json_document, node_ref_view, parse_json, Node, NodeView,
};
use crate::listing::{gather, join, lemma_gather, lemma_join};
use crate::locate::Range;
use crate::outline::{
    address_view, entry_address, entry_place, find_spot, lemma_key_before, lemma_located,
    lemma_spot_found, lemma_text_before, lies_in, range_in, spot_of, Outline, Place, PlaceView,
    Spot, SpotView, Step, StepView,
};
use crate::outline::json::{json_outline, law_json_outline_placed, outline_json};
use crate::outline::json_rows::{
    is_document, law_json_entry_found, law_json_nothing_else, row_lines, tables, JsonRow,
};
use crate::ranking::newest;
use crate::text::chars::{chars_of, spells, text_of, texts};
use crate::text::lines::{lines, lines_of};
use crate::text::search::{
    after, after_prefix, begins, find_char, is_char, lemma_find_where, occurs_at, position_char,
    split, starts_with_str,
};
use crate::version_utils::normalize::{standard, standard_form};

verus! {

/// Where the version of an alias begins: the index of the `@` behind the
/// package name, which may itself begin with one. Neither may be empty.
pub open spec fn alias_at(rest: Seq<char>) -> Option<int> {
    let at = if begins(rest, "@"@) {
        match find_char(rest, '/') {
            Some(slash) => match find_char(rest.skip(slash), '@') {
                Some(i) => Some(slash + i),
                None => None,
            },
            None => None,
        }
    } else {
        find_char(rest, '@')
    };
    match at {
        Some(i) => if 0 < i && i + 1 < rest.len() {
            Some(i)
        } else {
            None
        },
        None => None,
    }
}

/// A specifier that names no registry version: a file, a link, a repository,
/// an address, or any version at all.
pub open spec fn is_unsupported(value: Seq<char>) -> bool {
    ||| begins(value, "file:"@)
    ||| begins(value, "link:"@)
    ||| begins(value, "workspace:"@)
    ||| begins(value, "github:"@)
    ||| begins(value, "git+"@)
    ||| begins(value, "git:"@)
    ||| begins(value, "http:"@)
    ||| begins(value, "https://"@)
    ||| value == "*"@
    ||| value == "latest"@
}

/// A string that stands on the line of its own key.
pub open spec fn is_beside(spot: SpotView) -> bool {
    spot.path.len() > 0 && (spot.path.last() matches StepView::Key(key) && key.line == spot.line)
}

/// Where the version stands that begins `offset` characters into the value of
/// an entry. The value has to stand on the line of its key.
pub open spec fn version_range(
    lines: Seq<Seq<char>>,
    address: Seq<PlaceView>,
    value: Seq<char>,
    offset: int,
    version: Seq<char>,
) -> Option<Range> {
    match spot_of(json_outline(lines), address, value) {
        Some(spot) => if is_beside(spot) {
            Some(range_in(lines, spot, offset, version))
        } else {
            None
        },
        None => None,
    }
}

/// The dependency that an alias `npm:package@version` declares.
pub open spec fn alias_dependency(
    lines: Seq<Seq<char>>,
    address: Seq<PlaceView>,
    value: Seq<char>,
) -> Option<DependencyView> {
    let rest = after(value, "npm:"@);
    match alias_at(rest) {
        Some(at) => {
            let version = rest.skip(at + 1);
            dependency_at(
                rest.take(at),
                version,
                version_range(lines, address, value, value.len() - version.len(), version),
            )
        },
        None => None,
    }
}

/// The dependency that one entry of a table declares.
pub open spec fn entry_dependency(
    lines: Seq<Seq<char>>,
    section: Seq<char>,
    key: Seq<char>,
    value: NodeView,
) -> Option<DependencyView> {
    let address = entry_address(section, key);
    match value {
        NodeView::Text(v) => if begins(v, "npm:"@) {
            alias_dependency(lines, address, v)
        } else if is_unsupported(v) {
            None
        } else {
            dependency_at(key, v, version_range(lines, address, v, 0, v))
        },
        _ => None,
    }
}

/// The same by the number of the entry.
pub open spec fn entry_at(
    lines: Seq<Seq<char>>,
    section: Seq<char>,
    entries: Seq<(Seq<char>, NodeView)>,
) -> spec_fn(int) -> Option<DependencyView> {
    |i: int| entry_dependency(lines, section, entries[i].0, entries[i].1)
}

/// The dependencies that the tables under the keys declare, by the number of
/// the key.
pub open spec fn table_at(
    document: NodeView,
    lines: Seq<Seq<char>>,
    keys: Seq<Seq<char>>,
) -> spec_fn(int) -> Seq<DependencyView> {
    |k: int|
        {
            let entries = entries_of(document.resolve(keys[k]));
            gather(entries.len() as int, entry_at(lines, keys[k], entries))
        }
}

/// The dependencies of a `package.json`, given what it holds.
pub open spec fn package_dependencies(
    document: NodeView,
    content: Seq<char>,
    keys: Seq<Seq<char>>,
) -> Seq<DependencyView> {
    join(keys.len() as int, table_at(document, lines(content), keys))
}

/// The dependencies of a `package.json`; none where it is no JSON.
pub open spec fn package_json(content: Seq<char>, keys: Seq<Seq<char>>) -> Seq<DependencyView> {
    match json_document(content) {
        Some(document) => package_dependencies(document, content, keys),
        None => seq![],
    }
}

/// There is an `@` where the version of an alias begins.
pub proof fn lemma_alias_at(rest: Seq<char>)
    requires
        alias_at(rest) is Some,
    ensures
        0 < alias_at(rest)->0 < rest.len() - 1,
        rest[alias_at(rest)->0] == '@',
{
    lemma_find_where(rest, is_char('@'));
    lemma_find_where(rest, is_char('/'));
    if let Some(slash) = find_char(rest, '/') {
        lemma_find_where(rest.skip(slash), is_char('@'));
    }
}

/// The index of the `@` behind the package name of an alias.
pub fn alias_index(rest: &[char]) -> (r: Option<usize>)
    ensures
        match r {
            Some(i) => alias_at(rest@) == Some(i as int) && 0 < i && i + 1 < rest@.len()
                && rest@[i as int] == '@',
            None => alias_at(rest@) is None,
        },
{
    let at: Option<usize> = if starts_with_str(rest, "@") {
        match position_char(rest, '/') {
            Some(slash) => match position_char(slice_subrange(rest, slash, rest.len()), '@') {
                Some(i) => Some(slash + i),
                None => None,
            },
            None => None,
        }
    } else {
        position_char(rest, '@')
    };
    match at {
        Some(i) => if 0 < i && i < rest.len() - 1 {
            Some(i)
        } else {
            None
        },
        None => None,
    }
}

/// Splits an alias, without its leading `npm:`, into the package name and the
/// version constraint.
///
/// Returns `None` if there is no version part, as in `react`. A scoped name
/// keeps its `@`: `@scope/pkg@^1.0.0` gives `("@scope/pkg", "^1.0.0")`.
pub fn split_npm_alias(rest: &str) -> (r: Option<(&str, &str)>)
    ensures
        match r {
            Some((name, version)) => alias_at(rest@) is Some && name@ == rest@.take(
                alias_at(rest@)->0,
            ) && version@ == rest@.skip(alias_at(rest@)->0 + 1),
            None => alias_at(rest@) is None,
        },
{
    let cs = chars_of(rest);
    match alias_index(cs.as_slice()) {
        Some(i) => Some((rest.substring_char(0, i), rest.substring_char(i + 1, cs.len()))),
        None => None,
    }
}

/// Whether a specifier names no registry version.
pub fn is_unsupported_specifier(value: &str) -> (r: bool)
    ensures
        r == is_unsupported(value@),
{
    let cs = chars_of(value);
    let v = cs.as_slice();
    starts_with_str(v, "file:") || starts_with_str(v, "link:") || starts_with_str(v, "workspace:")
        || starts_with_str(v, "github:") || starts_with_str(v, "git+") || starts_with_str(v, "git:")
        || starts_with_str(v, "http:") || starts_with_str(v, "https://") || spells(v, "*")
        || spells(v, "latest")
}

/// Whether a string stands on the line of its own key.
fn beside(spot: &Spot) -> (r: bool)
    ensures
        r == is_beside(spot@),
{
    let size: usize = spot.path.len();
    if size == 0 {
        return false;
    }
    assert(spot@.path.last() == spot.path@[size - 1]@);
    match &spot.path[size - 1] {
        Step::Key(key) => key.line == spot.line,
        _ => false,
    }
}

/// Finds the range of the version that begins `offset` characters into the
/// value of an entry.
pub fn find_version_range(
    outline: &Outline,
    address: &Vec<Place>,
    value: &[char],
    offset: usize,
    version: &[char],
) -> (r: Option<Range>)
    requires
        outline.valid(),
        outline.strings() == json_outline(outline.rows()),
        occurs_at(value@, version@, offset as int),
    ensures
        r == version_range(
            outline.rows(),
            address_view(address@),
            value@,
            offset as int,
            version@,
        ),
{
    match find_spot(&outline.spots, address, value) {
        Some(spot) => if beside(spot) {
            Some(outline.range(spot, offset, version))
        } else {
            None
        },
        None => None,
    }
}

/// The version of an alias stands at its end.
proof fn lemma_alias_version(value: Seq<char>, at: int)
    requires
        begins(value, "npm:"@),
        alias_at(after(value, "npm:"@)) == Some(at),
    ensures
        0 < at < after(value, "npm:"@).len() - 1,
        ({
            let version = after(value, "npm:"@).skip(at + 1);
            &&& version.len() <= value.len()
            &&& occurs_at(value, version, value.len() - version.len())
        }),
{
    let rest = after(value, "npm:"@);
    let version = rest.skip(at + 1);
    let k = value.len() - version.len();
    assert(value.subrange(k, k + version.len()) == version);
}

/// The dependency that an alias `npm:package@version` declares.
fn find_npm_alias_dependency(outline: &Outline, address: &Vec<Place>, value: &[char]) -> (r: Option<
    ParsedDependency,
>)
    requires
        outline.valid(),
        outline.strings() == json_outline(outline.rows()),
        begins(value@, "npm:"@),
    ensures
        dependency_view(r) == alias_dependency(outline.rows(), address_view(address@), value@),
{
    let rest = match after_prefix(value, "npm:") {
        Some(rest) => rest,
        None => return None,
    };
    let at: usize = match alias_index(rest) {
        Some(at) => at,
        None => return None,
    };
    proof {
        lemma_alias_version(value@, at as int);
    }
    let end: usize = rest.len();
    let name = slice_subrange(rest, 0, at);
    let version = slice_subrange(rest, at + 1, end);
    assert(name@ == rest@.take(at as int));
    assert(version@ == rest@.skip(at + 1));
    let offset: usize = value.len() - version.len();
    let range = find_version_range(outline, address, value, offset, version);
    dependency(name, version, range)
}

/// The dependency that one entry of a table declares.
fn entry(outline: &Outline, section: &[char], key: &str, value: &Node) -> (r: Option<
    ParsedDependency,
>)
    requires
        outline.valid(),
        outline.strings() == json_outline(outline.rows()),
    ensures
        dependency_view(r) == entry_dependency(outline.rows(), section@, key@, value@),
{
    match value {
        Node::Text(text) => {
            let name = chars_of(key);
            let version = chars_of(text.as_str());
            let v = version.as_slice();
            let address = entry_place(section, name.as_slice());
            if starts_with_str(v, "npm:") {
                find_npm_alias_dependency(outline, &address, v)
            } else if is_unsupported_specifier(text.as_str()) {
                None
            } else {
                assert(v@.subrange(0, v@.len() as int) == v@);
                let range = find_version_range(outline, &address, v, 0, v);
                dependency(name.as_slice(), v, range)
            }
        },
        _ => None,
    }
}

/// The dependencies of a `package.json`, given what it holds.
pub fn dependencies_in(document: &Node, content: &str, dependency_keys: &[String]) -> (r: Vec<
    ParsedDependency,
>)
    ensures
        dependencies_view(r@) == package_dependencies(
            document@,
            content@,
            texts(dependency_keys@),
        ),
{
    let mut deps: Vec<ParsedDependency> = Vec::new();
    let cs = chars_of(content);
    let outline = outline_json(lines_of(cs.as_slice()));
    let ghost ls = lines(content@);
    let ghost keys = texts(dependency_keys@);
    let ghost table = table_at(document@, ls, keys);
    for k in 0..dependency_keys.len()
        invariant
            outline.valid(),
            outline.rows() == ls,
            outline.strings() == json_outline(ls),
            keys == texts(dependency_keys@),
            table == table_at(document@, ls, keys),
            dependencies_view(deps@) == join(k as int, table),
    {
        let section = chars_of(dependency_keys[k].as_str());
        let found = document.resolve(dependency_keys[k].as_str());
        let ghost entries = entries_of(node_ref_view(found));
        let ghost at = entry_at(ls, keys[k as int], entries);
        let ghost before = join(k as int, table);
        assert(keys[k as int] == dependency_keys@[k as int]@);
        assert(table(k as int) == gather(entries.len() as int, at));
        if let Some(list) = entries_in(found) {
            assert(before + gather(0, at) == before);
            for i in 0..list.len()
                invariant
                    outline.valid(),
                    outline.rows() == ls,
                    outline.strings() == json_outline(ls),
                    section@ == keys[k as int],
                    entries == entries_view(list@),
                    at == entry_at(ls, keys[k as int], entries),
                    dependencies_view(deps@) == before + gather(i as int, at),
            {
                let found = entry(&outline, section.as_slice(), list[i].0.as_str(), &list[i].1);
                assert(entries[i as int] == (list@[i as int].0@, list@[i as int].1@));
                assert(dependency_view(found) == at(i as int));
                if let Some(dep) = found {
                    proof {
                        lemma_dependencies_push(deps@, dep);
                    }
                    deps.push(dep);
                }
                assert(dependencies_view(deps@) == before + gather(i as int + 1, at));
            }
        } else {
            assert(gather(0, at) == Seq::<DependencyView>::empty());
        }
        assert(dependencies_view(deps@) == join(k as int + 1, table));
    }
    deps
}

/// Parses a `package.json` and extracts the dependencies under the configured
/// keys.
pub fn parse_package_json(content: &str, dependency_keys: &[String]) -> (r: Vec<ParsedDependency>)
    ensures
        dependencies_view(r@) == package_json(content@, texts(dependency_keys@)),
{
    match parse_json(content) {
        Some(document) => dependencies_in(&document, content, dependency_keys),
        None => {
            let deps: Vec<ParsedDependency> = Vec::new();
            assert(dependencies_view(deps@) == Seq::<DependencyView>::empty());
            deps
        },
    }
}

/// The newest prerelease of a list of version texts.
pub fn find_highest_prerelease(list: &[String]) -> (r: Option<String>)
    ensures
        text_of(r) == display_of(newest(prereleases(texts(list@)))),
{
    result_for(list).prerelease
}

/// In a document with one entry per line every entry of a table whose value is a
/// version declares a dependency.
pub proof fn law_package_entry_found(rows: Seq<JsonRow>, i: int, section: Seq<char>)
    requires
        is_document(rows),
        0 <= i < rows.len(),
        rows[i].body is Text,
        tables(rows, i) == split(section, '.'),
        !is_unsupported(rows[i].body->Text_value),
        !begins(rows[i].body->Text_value, "npm:"@),
    ensures
        ({
            let key = rows[i].body->Text_key;
            let value = rows[i].body->Text_value;
            let found = entry_dependency(row_lines(rows), section, key, NodeView::Text(value));
            &&& found is Some
            &&& found->0.name == key
            &&& found->0.constraint == value
        }),
{
    let outline = json_outline(row_lines(rows));
    let value = rows[i].body->Text_value;
    let address = entry_address(section, rows[i].body->Text_key);
    let spot = law_json_entry_found(rows, i);
    let m = choose|m: int| 0 <= m < outline.len() && outline[m] == spot;
    lemma_spot_found(outline, outline.len() as int, address, value, m);
    let found = spot_of(outline, address, value)->0;
    let j = law_json_nothing_else(rows, found);
    assert(is_beside(found));
}

/// A dependency is what an entry of a table under the keys declares, and its
/// constraint ends the value of that entry: on the line of the entry's name,
/// behind it, and behind the keys of its table.
pub open spec fn is_entry(
    document: NodeView,
    lines: Seq<Seq<char>>,
    keys: Seq<Seq<char>>,
    dep: DependencyView,
    k: int,
    e: int,
    spot: SpotView,
) -> bool {
    let entries = entries_of(document.resolve(keys[k]));
    let (name, value) = entries[e];
    &&& 0 <= k < keys.len()
    &&& 0 <= e < entries.len()
    &&& entry_dependency(lines, keys[k], name, value) == Some(dep)
    &&& is_beside(spot)
    &&& value is Text
    &&& lies_in(
        lines,
        json_outline(lines),
        spot,
        entry_address(keys[k], name),
        value->Text_0,
        value->Text_0.len() - dep.constraint.len(),
        dep.constraint,
        dep.range,
    )
}

/// A dependency stands at an entry that declares it.
pub open spec fn has_entry(
    document: NodeView,
    lines: Seq<Seq<char>>,
    keys: Seq<Seq<char>>,
    dep: DependencyView,
) -> bool {
    exists|k: int, e: int, spot: SpotView| is_entry(document, lines, keys, dep, k, e, spot)
}

/// Each dependency stands at its own entry.
pub proof fn law_package_entries(document: NodeView, content: Seq<char>, keys: Seq<Seq<char>>)
    ensures
        ({
            let deps = package_dependencies(document, content, keys);
            forall|i: int|
                0 <= i < deps.len() ==> has_entry(
                    document,
                    lines(content),
                    keys,
                    #[trigger] deps[i],
                )
        }),
{
    let ls = lines(content);
    let table = table_at(document, ls, keys);
    let deps = package_dependencies(document, content, keys);
    law_json_outline_placed(ls);
    assert forall|i: int| 0 <= i < deps.len() implies has_entry(
        document,
        ls,
        keys,
        #[trigger] deps[i],
    ) by {
        let dep = deps[i];
        lemma_join(keys.len() as int, table, i);
        let (k, j) = choose|k: int, j: int|
            0 <= k < keys.len() && 0 <= j < table(k).len() && #[trigger] table(k)[j] == dep;
        let entries = entries_of(document.resolve(keys[k]));
        let at = entry_at(ls, keys[k], entries);
        assert(table(k) == gather(entries.len() as int, at));
        lemma_gather(entries.len() as int, at, j);
        let e = choose|e: int| 0 <= e < entries.len() && #[trigger] at(e) == Some(dep);
        let value = entries[e].1->Text_0;
        let address = entry_address(keys[k], entries[e].0);
        if begins(value, "npm:"@) {
            lemma_alias_version(value, alias_at(after(value, "npm:"@))->0);
        } else {
            assert(value.subrange(0, value.len() as int) == value);
        }
        lemma_located(
            ls,
            json_outline(ls),
            address,
            value,
            value.len() - dep.constraint.len(),
            dep.constraint,
        );
        let spot = spot_of(json_outline(ls), address, value)->0;
        assert(is_entry(document, ls, keys, dep, k, e, spot));
    }
}

/// What stands at an entry is declared there.
proof fn lemma_entry_declared(
    document: NodeView,
    lines: Seq<Seq<char>>,
    keys: Seq<Seq<char>>,
    dep: DependencyView,
)
    requires
        has_entry(document, lines, keys, dep),
    ensures
        is_declared(lines, dep),
{
    let (k, e, spot) = choose|k: int, e: int, spot: SpotView|
        is_entry(document, lines, keys, dep, k, e, spot);
    let (name, node) = entries_of(document.resolve(keys[k]))[e];
    let value = node->Text_0;
    let offset = value.len() - dep.constraint.len();
    let written = if begins(value, "npm:"@) {
        let rest = after(value, "npm:"@);
        let at = alias_at(rest)->0;
        let first = "npm:"@.len() as int;
        lemma_alias_version(value, at);
        assert(value.subrange(first, first + at) == rest.take(at));
        lemma_text_before(lines, spot, rest.take(at), first, offset)
    } else {
        let address = entry_address(keys[k], name);
        lemma_key_before(lines, spot, address, address.len() - 1, name)
    };
    assert(is_declared_at(lines, dep, spot.line, spot.at + offset, written));
}

/// The range of each dependency covers exactly its constraint, behind its name.
pub proof fn law_package_ranges(document: NodeView, content: Seq<char>, keys: Seq<Seq<char>>)
    ensures
        all_declared(lines(content), package_dependencies(document, content, keys)),
{
    let deps = package_dependencies(document, content, keys);
    law_package_entries(document, content, keys);
    assert forall|i: int| 0 <= i < deps.len() implies is_declared(
        lines(content),
        #[trigger] deps[i],
    ) by {
        lemma_entry_declared(document, lines(content), keys, deps[i]);
    }
}

/// The same for the text of a `package.json`.
pub proof fn law_package_json_ranges(content: Seq<char>, keys: Seq<Seq<char>>)
    ensures
        all_declared(lines(content), package_json(content, keys)),
{
    if let Some(document) = json_document(content) {
        law_package_ranges(document, content, keys);
    }
}

/// npm: versions come from the npm registry.
#[derive(Debug)]
pub struct NpmProvider {
    pub registry: String,
    pub dependency_keys: Vec<String>,
}

impl NpmProvider {
    /// A provider with the given settings.
    pub fn new(registry: String, dependency_keys: Vec<String>) -> (r: Self)
        ensures
            r.registry == registry,
            r.dependency_keys == dependency_keys,
    {
        NpmProvider { registry, dependency_keys }
    }

    /// The provider made ready for a registry.
    pub fn shared(self) -> (r: Registered)
        ensures
            acts_like(&r.provider, self),
    {
        Registered { provider: Box::new(self) }
    }
}

impl Provider for NpmProvider {
    open spec fn patterns(&self) -> Seq<Seq<char>> {
        seq!["package.json"@]
    }

    open spec fn title(&self) -> Seq<char> {
        "npm"@
    }

    open spec fn dependencies(&self, uri: Seq<char>, content: Seq<char>) -> Seq<DependencyView> {
        package_json(content, texts(self.dependency_keys@))
    }

    open spec fn normal_form(&self, constraint: Seq<char>) -> Seq<char> {
        standard_form(constraint)
    }

    open spec fn question(&self, package: Seq<char>) -> Option<RequestView> {
        Some(npm_question(self.registry@, package, false))
    }

    fn file_patterns(&self) -> (r: Vec<&'static str>) {
        let mut out: Vec<&'static str> = Vec::new();
        out.push("package.json");
        assert(pattern_texts(out@) == self.patterns());
        out
    }

    fn parse_dependencies(&self, uri: &str, content: &str) -> (r: Vec<ParsedDependency>) {
        parse_package_json(content, self.dependency_keys.as_slice())
    }

    fn version_request(&self, package_name: &str) -> (r: Option<VersionRequest>) {
        let cs = chars_of(package_name);
        Some(npm_request(self.registry.as_str(), cs.as_slice(), false))
    }

    fn name(&self) -> (r: &str) {
        "npm"
    }

    fn normalize_constraint(&self, constraint: &str) -> (r: String) {
        standard(constraint)
    }
}

} // verus!
