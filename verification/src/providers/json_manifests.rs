//! JSON manifests with one entry per line: which entries declare a dependency.
use vstd::prelude::*;
use super::DependencyView;
use super::composer::{
    composer_dependencies, composer_dependency, composer_entry_at, table_dependencies,
};
use super::deno::{
    clean_lines, constraint_start, deno_dependencies, import_at, import_dependency, imports,
    scope_at, specifier,
};
use super::npm::{
    alias_at, entry_at, entry_dependency, is_beside, package_dependencies, table_at, version_range,
};
use super::pypi_rows::range_behind;
use crate::document::{entries_of, NodeView};
use crate::listing::{gather, join, lemma_gathered, lemma_joined};
use crate::locate::{quoted, Range};
use crate::outline::{lemma_spot_found, located, spot_of, under, PlaceView};
use crate::outline::json::json_outline;
use crate::outline::json_rows::{
    is_document, law_json_entry_found, law_json_nothing_else, row_lines, row_text, tables, JsonBody,
    JsonRow,
};
use crate::text::chars::lowercase;
use crate::text::lines::lines;
use crate::text::search::{
    after, begins, ends, find_char, is_char, lemma_find_where, lemma_find_where_is,
    lemma_find_where_none, split,
};

verus! {

/// What stands before the string on the line of an entry.
pub open spec fn value_head(row: JsonRow) -> Seq<char> {
    match row.body {
        JsonBody::Text { key, before, behind, value } => row.lead + quoted(key) + before + seq![':']
            + behind + seq!['"'],
        _ => seq![],
    }
}

/// Two lines hold the same entry of the same table.
pub open spec fn same_entry(rows: Seq<JsonRow>, i: int, j: int) -> bool {
    &&& 0 <= j < rows.len()
    &&& rows[j].body is Text
    &&& rows[j].body->Text_key == rows[i].body->Text_key
    &&& rows[j].body->Text_value == rows[i].body->Text_value
    &&& tables(rows, j) == tables(rows, i)
}

/// Keys are told by the address that they make.
pub proof fn lemma_under_injective(a: Seq<Seq<char>>, b: Seq<Seq<char>>)
    requires
        under(a) == under(b),
    ensures
        a == b,
{
    assert(under(a).len() == a.len() && under(b).len() == b.len());
    assert forall|i: int| 0 <= i < a.len() implies a[i] == b[i] by {
        assert(under(a)[i] == PlaceView::Key(a[i]));
        assert(under(b)[i] == PlaceView::Key(b[i]));
    }
    assert(a == b);
}

/// Where the string of an entry is found.
proof fn lemma_entry_spot(rows: Seq<JsonRow>, i: int) -> (j: int)
    requires
        is_document(rows),
        0 <= i < rows.len(),
        rows[i].body is Text,
    ensures
        same_entry(rows, i, j),
        ({
            let outline = json_outline(row_lines(rows));
            let address = under(tables(rows, i).push(rows[i].body->Text_key));
            let value = rows[i].body->Text_value;
            let spot = spot_of(outline, address, value)->0;
            &&& spot_of(outline, address, value) is Some
            &&& is_beside(spot)
            &&& spot.line == j
            &&& forall|n: int|
                0 <= n <= value.len() ==> #[trigger] row_lines(rows)[j].take(spot.at + n)
                    == value_head(rows[j]) + value.take(n)
        }),
{
    let outline = json_outline(row_lines(rows));
    let key = rows[i].body->Text_key;
    let value = rows[i].body->Text_value;
    let address = under(tables(rows, i).push(key));
    let own = law_json_entry_found(rows, i);
    let m = choose|m: int| 0 <= m < outline.len() && outline[m] == own;
    lemma_spot_found(outline, outline.len() as int, address, value, m);
    let spot = spot_of(outline, address, value)->0;
    let j = law_json_nothing_else(rows, spot);
    crate::outline::lemma_last_spot(outline, outline.len() as int, address, value);
    let other = rows[j].body->Text_key;
    lemma_under_injective(tables(rows, i).push(key), tables(rows, j).push(other));
    assert(tables(rows, i) == tables(rows, i).push(key).drop_last());
    assert(tables(rows, j) == tables(rows, j).push(other).drop_last());
    assert(tables(rows, i).push(key).last() == tables(rows, j).push(other).last());
    assert forall|n: int| 0 <= n <= value.len() implies #[trigger] row_lines(rows)[j].take(
        spot.at + n,
    ) == value_head(rows[j]) + value.take(n) by {
        assert(row_lines(rows)[j] == row_text(rows[j]));
        assert(row_text(rows[j]).take(spot.at + n) == value_head(rows[j]) + value.take(n));
    }
    j
}

/// A dependency is what an entry declares: it has a name, its constraint stands
/// `offset` characters into the value, and its range is where that stands on a
/// line with this entry.
pub open spec fn is_declared_by(
    dep: DependencyView,
    rows: Seq<JsonRow>,
    i: int,
    name: Seq<char>,
    constraint: Seq<char>,
    offset: int,
) -> bool {
    &&& dep.name == name
    &&& dep.constraint == constraint
    &&& exists|j: int| #[trigger]
        same_entry(rows, i, j) && dep.range == range_behind(
            j,
            value_head(rows[j]) + rows[i].body->Text_value.take(offset),
            constraint,
        )
}

/// Where a version stands in the value of an entry.
proof fn lemma_version_range(rows: Seq<JsonRow>, i: int, offset: int, version: Seq<char>) -> (j:
    int)
    requires
        is_document(rows),
        0 <= i < rows.len(),
        rows[i].body is Text,
        0 <= offset <= rows[i].body->Text_value.len(),
    ensures
        same_entry(rows, i, j),
        ({
            let address = under(tables(rows, i).push(rows[i].body->Text_key));
            let value = rows[i].body->Text_value;
            let range = range_behind(j, value_head(rows[j]) + value.take(offset), version);
            &&& version_range(row_lines(rows), address, value, offset, version) == Some(range)
            &&& located(
                row_lines(rows),
                json_outline(row_lines(rows)),
                address,
                value,
                offset,
                version,
            ) == Some(range)
        }),
{
    let j = lemma_entry_spot(rows, i);
    let address = under(tables(rows, i).push(rows[i].body->Text_key));
    let value = rows[i].body->Text_value;
    let spot = spot_of(json_outline(row_lines(rows)), address, value)->0;
    assert(row_lines(rows)[j].take(spot.at + offset) == value_head(rows[j]) + value.take(offset));
    j
}

/// A value of `package.json` that names no version of the registry: a file, a link,
/// a workspace, a repository, an address, or any version at all.
pub open spec fn is_elsewhere(value: Seq<char>) -> bool {
    ||| begins(value, "file:"@)
    ||| begins(value, "link:"@)
    ||| begins(value, "workspace:"@)
    ||| begins(value, "github:"@)
    ||| begins(value, "git+"@)
    ||| begins(value, "git:"@)
    ||| begins(value, "http:"@)
    ||| begins(value, "https://"@)
    ||| value == "*"@
    ||| value == "latest"@
}

/// The tables that the keys of the settings name are read: an entry of one of them
/// is in the list where it declares a dependency.
proof fn lemma_package_entry(
    document: NodeView,
    content: Seq<char>,
    keys: Seq<Seq<char>>,
    k: int,
    e: int,
)
    requires
        0 <= k < keys.len(),
        0 <= e < entries_of(document.resolve(keys[k])).len(),
        ({
            let (key, value) = entries_of(document.resolve(keys[k]))[e];
            entry_dependency(lines(content), keys[k], key, value) is Some
        }),
    ensures
        ({
            let (key, value) = entries_of(document.resolve(keys[k]))[e];
            package_dependencies(document, content, keys).contains(
                entry_dependency(lines(content), keys[k], key, value)->0,
            )
        }),
{
    let entries = entries_of(document.resolve(keys[k]));
    let at = entry_at(lines(content), keys[k], entries);
    let tables = table_at(document, lines(content), keys);
    assert(at(e) is Some);
    lemma_gathered(entries.len() as int, at, e);
    let list = gather(entries.len() as int, at);
    let j = choose|j: int| 0 <= j < list.len() && #[trigger] list[j] == at(e)->0;
    assert(tables(k) == list);
    lemma_joined(keys.len() as int, tables, k, j);
    let all = join(keys.len() as int, tables);
    let m = choose|m: int| 0 <= m < all.len() && #[trigger] all[m] == tables(k)[j];
    assert(package_dependencies(document, content, keys)[m] == at(e)->0);
}

/// Every entry of a table that is read, whose value names a version of the registry,
/// declares a dependency of its name with that value as its constraint.
pub proof fn law_package_entry_declares(
    content: Seq<char>,
    rows: Seq<JsonRow>,
    i: int,
    document: NodeView,
    keys: Seq<Seq<char>>,
    k: int,
    e: int,
)
    requires
        lines(content) == row_lines(rows),
        is_document(rows),
        0 <= i < rows.len(),
        rows[i].body is Text,
        0 <= k < keys.len(),
        split(keys[k], '.') == tables(rows, i),
        0 <= e < entries_of(document.resolve(keys[k])).len(),
        entries_of(document.resolve(keys[k]))[e] == (
            rows[i].body->Text_key,
            NodeView::Text(rows[i].body->Text_value),
        ),
        !is_elsewhere(rows[i].body->Text_value),
        !begins(rows[i].body->Text_value, "npm:"@),
    ensures
        exists|m: int|
            0 <= m < package_dependencies(document, content, keys).len() && is_declared_by(
                #[trigger] package_dependencies(document, content, keys)[m],
                rows,
                i,
                rows[i].body->Text_key,
                rows[i].body->Text_value,
                0,
            ),
{
    let key = rows[i].body->Text_key;
    let value = rows[i].body->Text_value;
    let j = lemma_version_range(rows, i, 0, value);
    let dep = entry_dependency(lines(content), keys[k], key, NodeView::Text(value))->0;
    lemma_package_entry(document, content, keys, k, e);
    let all = package_dependencies(document, content, keys);
    let m = choose|m: int| 0 <= m < all.len() && all[m] == dep;
    assert(same_entry(rows, i, j));
    assert(is_declared_by(all[m], rows, i, key, value, 0));
}

/// A package name before the `@` of its version: without an `@` of its own, or with
/// one in front of its scope.
pub open spec fn is_package_name(name: Seq<char>) -> bool {
    if name.len() > 0 && name[0] == '@' {
        exists|slash: int|
            0 < slash < name.len() && #[trigger] name[slash] == '/' && (forall|i: int|
                0 <= i < slash ==> #[trigger] name[i] != '/') && forall|i: int|
                slash < i < name.len() ==> #[trigger] name[i] != '@'
    } else {
        name.len() > 0 && forall|i: int| 0 <= i < name.len() ==> #[trigger] name[i] != '@'
    }
}

/// Where the version of an alias begins.
proof fn lemma_alias(name: Seq<char>, version: Seq<char>)
    requires
        is_package_name(name),
        version.len() > 0,
    ensures
        alias_at(name + seq!['@'] + version) == Some(name.len() as int),
{
    reveal_strlit("@");
    let rest = name + seq!['@'] + version;
    let n = name.len() as int;
    assert(rest[n] == '@');
    assert(rest.take(1)[0] == name[0]);
    if name[0] == '@' {
        assert(rest.take(1) == "@"@);
        let slash = choose|slash: int|
            0 < slash < name.len() && #[trigger] name[slash] == '/' && (forall|i: int|
                0 <= i < slash ==> #[trigger] name[i] != '/') && forall|i: int|
                slash < i < name.len() ==> #[trigger] name[i] != '@';
        assert(rest[slash] == '/');
        assert forall|i: int| 0 <= i < slash implies !is_char('/')(rest[i]) by {
            assert(rest[i] == name[i]);
        }
        lemma_find_where_is(rest, is_char('/'), slash);
        let tail = rest.skip(slash);
        assert(tail[n - slash] == '@');
        assert forall|i: int| 0 <= i < n - slash implies !is_char('@')(tail[i]) by {
            assert(tail[i] == name[i + slash]);
        }
        lemma_find_where_is(tail, is_char('@'), n - slash);
    } else {
        assert(!begins(rest, "@"@));
        assert forall|i: int| 0 <= i < n implies !is_char('@')(rest[i]) by {
            assert(rest[i] == name[i]);
        }
        lemma_find_where_is(rest, is_char('@'), n);
    }
}

/// Every alias `npm:name@version` in a table that is read declares a dependency of
/// the name in it, with the version behind that as its constraint.
pub proof fn law_alias_entry_declares(
    content: Seq<char>,
    rows: Seq<JsonRow>,
    i: int,
    document: NodeView,
    keys: Seq<Seq<char>>,
    k: int,
    e: int,
    name: Seq<char>,
    version: Seq<char>,
)
    requires
        lines(content) == row_lines(rows),
        is_document(rows),
        0 <= i < rows.len(),
        rows[i].body is Text,
        0 <= k < keys.len(),
        split(keys[k], '.') == tables(rows, i),
        0 <= e < entries_of(document.resolve(keys[k])).len(),
        entries_of(document.resolve(keys[k]))[e] == (
            rows[i].body->Text_key,
            NodeView::Text(rows[i].body->Text_value),
        ),
        is_package_name(name),
        version.len() > 0,
        rows[i].body->Text_value == "npm:"@ + name + seq!['@'] + version,
    ensures
        exists|m: int|
            0 <= m < package_dependencies(document, content, keys).len() && is_declared_by(
                #[trigger] package_dependencies(document, content, keys)[m],
                rows,
                i,
                name,
                version,
                "npm:"@.len() as int + name.len() + 1,
            ),
{
    reveal_strlit("npm:");
    let key = rows[i].body->Text_key;
    let value = rows[i].body->Text_value;
    let rest = name + seq!['@'] + version;
    lemma_alias(name, version);
    assert(value == "npm:"@ + rest);
    assert(value.take(4) == "npm:"@);
    assert(after(value, "npm:"@) == rest);
    assert(rest.take(name.len() as int) == name);
    assert(rest.skip(name.len() as int + 1) == version);
    let offset = 4 + name.len() + 1;
    assert(value.len() - version.len() == offset);
    let j = lemma_version_range(rows, i, offset as int, version);
    let dep = entry_dependency(lines(content), keys[k], key, NodeView::Text(value))->0;
    lemma_package_entry(document, content, keys, k, e);
    let all = package_dependencies(document, content, keys);
    let m = choose|m: int| 0 <= m < all.len() && all[m] == dep;
    assert(same_entry(rows, i, j));
    assert(is_declared_by(all[m], rows, i, name, version, offset as int));
}

/// What is no string, and a string that names no version of the registry, declares
/// nothing; nor does an alias without a version.
pub proof fn law_other_package_entries_declare_nothing(
    lines: Seq<Seq<char>>,
    section: Seq<char>,
    key: Seq<char>,
    value: NodeView,
)
    ensures
        value !is Text ==> entry_dependency(lines, section, key, value) is None,
        value is Text && is_elsewhere(value->Text_0) ==> entry_dependency(
            lines,
            section,
            key,
            value,
        ) is None,
        value is Text && begins(value->Text_0, "npm:"@) && (forall|i: int|
            4 <= i < value->Text_0.len() ==> #[trigger] value->Text_0[i] != '@')
            ==> entry_dependency(lines, section, key, value) is None,
{
    reveal_strlit("npm:");
    reveal_strlit("file:");
    reveal_strlit("link:");
    reveal_strlit("workspace:");
    reveal_strlit("github:");
    reveal_strlit("git+");
    reveal_strlit("git:");
    reveal_strlit("http:");
    reveal_strlit("https://");
    reveal_strlit("*");
    reveal_strlit("latest");
    reveal_strlit("@");
    if let NodeView::Text(v) = value {
        if begins(v, "npm:"@) {
            assert(v.take(4)[0] == v[0]);
            if is_elsewhere(v) {
                lemma_first(v, "file:"@);
                lemma_first(v, "link:"@);
                lemma_first(v, "workspace:"@);
                lemma_first(v, "github:"@);
                lemma_first(v, "git+"@);
                lemma_first(v, "git:"@);
                lemma_first(v, "http:"@);
                lemma_first(v, "https://"@);
            }
            let rest = after(v, "npm:"@);
            if forall|i: int| 4 <= i < v.len() ==> #[trigger] v[i] != '@' {
                assert forall|i: int| 0 <= i < rest.len() implies !is_char('@')(rest[i]) by {
                    assert(rest[i] == v[i + 4]);
                }
                lemma_find_where_none(rest, is_char('@'));
                if begins(rest, "@"@) {
                    assert(rest.take(1)[0] == rest[0]);
                }
            }
        }
    }
}

/// A text begins with the first character of what it begins with.
proof fn lemma_first(s: Seq<char>, p: Seq<char>)
    requires
        p.len() > 0,
    ensures
        begins(s, p) ==> s[0] == p[0],
{
    if begins(s, p) {
        assert(s.take(p.len() as int)[0] == s[0]);
    }
}

/// A requirement of `composer.json` on the platform.
pub open spec fn is_on_platform(name: Seq<char>) -> bool {
    name == "php"@ || begins(name, "ext-"@) || begins(name, "lib-"@)
}

/// A constraint of `composer.json` that names no version of the registry: a branch,
/// the version of the package itself, a stability flag, or any version at all.
pub open spec fn is_unversioned(value: Seq<char>) -> bool {
    ||| begins(lowercase(value), "dev-"@)
    ||| lowercase(value) == "self.version"@
    ||| begins(value, "@"@)
    ||| value == "*"@
}

/// What an entry declares that is no requirement on the platform and names a version.
proof fn lemma_composer_dependency(
    lines: Seq<Seq<char>>,
    keys: Seq<Seq<char>>,
    section: Seq<char>,
    name: Seq<char>,
    value: Seq<char>,
    range: Range,
)
    requires
        !is_on_platform(name),
        !is_unversioned(value),
        keys == seq![section, name],
        version_range(lines, under(keys), value, 0, value) == Some(range),
    ensures
        composer_dependency(lines, section, name, NodeView::Text(value)) == Some(
            DependencyView { name, constraint: value, range },
        ),
{
}

/// Two keys in a list.
proof fn lemma_two_keys(a: Seq<char>, b: Seq<char>)
    ensures
        seq![a].push(b) == seq![a, b],
{
}

/// What an entry of a table declares, and where.
proof fn lemma_composer_declares(rows: Seq<JsonRow>, i: int, section: Seq<char>) -> (range: Range)
    requires
        is_document(rows),
        0 <= i < rows.len(),
        rows[i].body is Text,
        tables(rows, i) == seq![section],
    ensures
        ({
            let key = rows[i].body->Text_key;
            let value = rows[i].body->Text_value;
            let dep = DependencyView { name: key, constraint: value, range };
            &&& version_range(row_lines(rows), under(seq![section, key]), value, 0, value) == Some(
                range,
            )
            &&& is_declared_by(dep, rows, i, key, value, 0)
        }),
{
    let key = rows[i].body->Text_key;
    let value = rows[i].body->Text_value;
    let j = lemma_version_range(rows, i, 0, value);
    lemma_two_keys(section, key);
    let range = range_behind(j, value_head(rows[j]) + value.take(0), value);
    assert(same_entry(rows, i, j));
    range
}

/// The two tables are read: an entry of one of them is in the list where it declares
/// a dependency.
proof fn lemma_composer_entry(
    document: NodeView,
    content: Seq<char>,
    section: Seq<char>,
    e: int,
)
    requires
        section == "require"@ || section == "require-dev"@,
        0 <= e < entries_of(document.get(section)).len(),
        ({
            let (key, value) = entries_of(document.get(section))[e];
            composer_dependency(lines(content), section, key, value) is Some
        }),
    ensures
        ({
            let (key, value) = entries_of(document.get(section))[e];
            composer_dependencies(document, content).contains(
                composer_dependency(lines(content), section, key, value)->0,
            )
        }),
{
    let ls = lines(content);
    let entries = entries_of(document.get(section));
    let at = composer_entry_at(ls, section, entries);
    assert(at(e) is Some);
    lemma_gathered(entries.len() as int, at, e);
    let list = gather(entries.len() as int, at);
    let n = choose|n: int| 0 <= n < list.len() && #[trigger] list[n] == at(e)->0;
    let first = table_dependencies(document, ls, "require"@);
    let second = table_dependencies(document, ls, "require-dev"@);
    let all = composer_dependencies(document, content);
    assert(all == first + second);
    if section == "require"@ {
        assert(first == list);
        assert(all[n] == first[n]);
    } else {
        assert(second == list);
        assert(all[first.len() + n] == second[n]);
    }
}

/// The same for an entry that is no requirement on the platform and names a version.
proof fn lemma_composer_listed(
    document: NodeView,
    content: Seq<char>,
    section: Seq<char>,
    e: int,
    name: Seq<char>,
    value: Seq<char>,
    range: Range,
)
    requires
        section == "require"@ || section == "require-dev"@,
        0 <= e < entries_of(document.get(section)).len(),
        entries_of(document.get(section))[e] == (name, NodeView::Text(value)),
        !is_on_platform(name),
        !is_unversioned(value),
        version_range(lines(content), under(seq![section, name]), value, 0, value) == Some(range),
    ensures
        composer_dependencies(document, content).contains(
            (DependencyView { name, constraint: value, range }),
        ),
{
    lemma_composer_dependency(lines(content), seq![section, name], section, name, value, range);
    lemma_composer_entry(document, content, section, e);
}

/// Every entry of `require` and of `require-dev` that is no requirement on the
/// platform, and whose value names a version of the registry, declares a dependency
/// of its name with that value as its constraint.
pub proof fn law_composer_entry_declares(
    content: Seq<char>,
    rows: Seq<JsonRow>,
    i: int,
    document: NodeView,
    section: Seq<char>,
    e: int,
)
    requires
        lines(content) == row_lines(rows),
        is_document(rows),
        0 <= i < rows.len(),
        rows[i].body is Text,
        section == "require"@ || section == "require-dev"@,
        tables(rows, i) == seq![section],
        0 <= e < entries_of(document.get(section)).len(),
        entries_of(document.get(section))[e] == (
            rows[i].body->Text_key,
            NodeView::Text(rows[i].body->Text_value),
        ),
        !is_on_platform(rows[i].body->Text_key),
        !is_unversioned(rows[i].body->Text_value),
    ensures
        exists|m: int|
            0 <= m < composer_dependencies(document, content).len() && is_declared_by(
                #[trigger] composer_dependencies(document, content)[m],
                rows,
                i,
                rows[i].body->Text_key,
                rows[i].body->Text_value,
                0,
            ),
{
    let key = rows[i].body->Text_key;
    let value = rows[i].body->Text_value;
    let range = lemma_composer_declares(rows, i, section);
    let dep = DependencyView { name: key, constraint: value, range };
    lemma_composer_listed(document, content, section, e, key, value, range);
    let all = composer_dependencies(document, content);
    let m = choose|m: int| 0 <= m < all.len() && all[m] == dep;
    assert(is_declared_by(all[m], rows, i, key, value, 0));
}

/// A requirement on the platform, what is no string, and a string that names no
/// version of the registry, declare nothing.
pub proof fn law_other_composer_entries_declare_nothing(
    lines: Seq<Seq<char>>,
    section: Seq<char>,
    name: Seq<char>,
    value: NodeView,
)
    requires
        is_on_platform(name) || value !is Text || is_unversioned(value->Text_0),
    ensures
        composer_dependency(lines, section, name, value) is None,
{
}

/// A text that begins like a version: with a digit, a comparison, or a `v`.
pub open spec fn opens_version(c: Seq<char>) -> bool {
    c.len() > 0 && (('0' <= c[0] && c[0] <= '9') || c[0] == '^' || c[0] == '~' || c[0] == '>'
        || c[0] == '<' || c[0] == '=' || c[0] == 'v')
}

/// A path behind a version, or none.
pub open spec fn is_path(path: Seq<char>) -> bool {
    path.len() > 0 ==> path[0] == '/'
}

/// No character is a slash.
pub open spec fn has_no_slash(s: Seq<char>) -> bool {
    forall|i: int| 0 <= i < s.len() ==> #[trigger] s[i] != '/'
}

/// What stands before a path.
proof fn lemma_before_path(version: Seq<char>, path: Seq<char>)
    requires
        has_no_slash(version),
        is_path(path),
    ensures
        super::deno::first_segment(version + path) == version,
{
    let s = version + path;
    let n = version.len() as int;
    assert forall|i: int| 0 <= i < n implies !is_char('/')(s[i]) by {
        assert(s[i] == version[i]);
    }
    if path.len() > 0 {
        assert(s[n] == path[0]);
        lemma_find_where_is(s, is_char('/'), n);
        assert(s.take(n) == version);
    } else {
        assert(s == version);
        lemma_find_where_none(s, is_char('/'));
    }
}

/// A specifier `npm:name@version` names the package `npm:name` with that version as
/// its constraint.
pub proof fn law_npm_specifier(name: Seq<char>, version: Seq<char>)
    requires
        is_package_name(name),
        opens_version(version),
    ensures
        specifier("npm:"@ + name + seq!['@'] + version) == Some(("npm:"@ + name, version)),
{
    reveal_strlit("npm:");
    reveal_strlit("jsr:");
    let s = "npm:"@ + name + seq!['@'] + version;
    let rest = name + seq!['@'] + version;
    lemma_alias(name, version);
    assert(s == "npm:"@ + rest);
    assert(s.take(4) == "npm:"@);
    assert(after(s, "npm:"@) == rest);
    lemma_first(s, "jsr:"@);
    assert(s[0] == 'n');
    assert(rest.take(name.len() as int) == name);
    assert(rest.skip(name.len() as int + 1) == version);
}

/// A specifier `jsr:@scope/name@version`, with or without a path behind it, names
/// the package `jsr:@scope/name` with that version as its constraint.
pub proof fn law_jsr_specifier(
    scope: Seq<char>,
    name: Seq<char>,
    version: Seq<char>,
    path: Seq<char>,
)
    requires
        has_no_slash(scope),
        forall|i: int| 0 <= i < name.len() ==> #[trigger] name[i] != '@',
        opens_version(version),
        has_no_slash(version),
        is_path(path),
    ensures
        ({
            let package = "jsr:@"@ + scope + seq!['/'] + name;
            specifier(package + seq!['@'] + version + path) == Some((package, version))
        }),
{
    reveal_strlit("jsr:@");
    reveal_strlit("jsr:");
    reveal_strlit("@");
    let package = "jsr:@"@ + scope + seq!['/'] + name;
    let s = package + seq!['@'] + version + path;
    let rest = after(s, "jsr:"@);
    let slash = scope.len() as int + 1;
    let at = slash + 1 + name.len();
    assert(s.take(4) == "jsr:"@);
    assert(rest == package.skip(4) + seq!['@'] + version + path);
    assert(rest.take(1) == "@"@);
    assert(rest[slash] == '/');
    assert forall|i: int| 0 <= i < slash implies !is_char('/')(rest[i]) by {
        if i > 0 {
            assert(rest[i] == scope[i - 1]);
        }
    }
    lemma_find_where_is(rest, is_char('/'), slash);
    let tail = rest.skip(slash + 1);
    assert(tail[name.len() as int] == '@');
    assert forall|i: int| 0 <= i < name.len() implies !is_char('@')(tail[i]) by {
        assert(tail[i] == name[i]);
    }
    lemma_find_where_is(tail, is_char('@'), name.len() as int);
    assert(rest.skip(at + 1) == version + path);
    assert((version + path)[0] == version[0]);
    lemma_before_path(version, path);
    assert("jsr:"@ + rest.take(at as int) == package);
}

/// An address `https://deno.land/x/name@version`, with or without a path behind it,
/// names the package `deno:name` with that version as its constraint; the version
/// begins with a digit, or with one behind a `v`.
pub proof fn law_deno_land_specifier(name: Seq<char>, version: Seq<char>, path: Seq<char>)
    requires
        name.len() > 0,
        forall|i: int| 0 <= i < name.len() ==> #[trigger] name[i] != '@',
        version.len() > 0,
        ('0' <= version[0] && version[0] <= '9') || (version[0] == 'v' && version.len() > 1 && '0'
            <= version[1] && version[1] <= '9'),
        has_no_slash(version),
        is_path(path),
    ensures
        specifier("https://deno.land/x/"@ + name + seq!['@'] + version + path) == Some(
            ("deno:"@ + name, version),
        ),
{
    reveal_strlit("https://deno.land/x/");
    reveal_strlit("npm:");
    reveal_strlit("jsr:");
    reveal_strlit("v");
    let head = "https://deno.land/x/"@;
    let s = head + name + seq!['@'] + version + path;
    let rest = name + seq!['@'] + version + path;
    let n = name.len() as int;
    assert(s.take(head.len() as int) == head);
    assert(after(s, head) == rest);
    lemma_first(s, "npm:"@);
    lemma_first(s, "jsr:"@);
    assert(s[0] == 'h');
    assert(rest[n] == '@');
    assert forall|i: int| 0 <= i < n implies !is_char('@')(rest[i]) by {
        assert(rest[i] == name[i]);
    }
    lemma_find_where_is(rest, is_char('@'), n);
    assert(rest.skip(n + 1) == version + path);
    lemma_before_path(version, path);
    assert(rest.take(n) == name);
    assert(version.take(1)[0] == version[0]);
    if version[0] == 'v' {
        assert(version.take(1) == "v"@);
        assert(after(version, "v"@)[0] == version[1]);
    } else {
        lemma_first(version, "v"@);
    }
}

/// A specifier that names a package names its registry, and its constraint begins like
/// a version.
pub proof fn law_specifiers_name_registries(s: Seq<char>)
    requires
        specifier(s) is Some,
    ensures
        ({
            let (name, constraint) = specifier(s)->0;
            &&& opens_version(constraint)
            &&& begins(s, "jsr:"@) && begins(name, "jsr:"@) || begins(s, "npm:"@) && begins(
                name,
                "npm:"@,
            ) || begins(s, "https://deno.land/x/"@) && begins(name, "deno:"@)
        }),
{
    reveal_strlit("v");
    let (name, constraint) = specifier(s)->0;
    if super::deno::jsr_specifier(s) is Some {
        let rest = after(s, "jsr:"@);
        let at = super::deno::jsr_at(rest)->0;
        lemma_segment(rest.skip(at + 1));
        assert(name.take("jsr:"@.len() as int) == "jsr:"@);
    } else if super::deno::npm_specifier(s) is Some {
        assert(name.take("npm:"@.len() as int) == "npm:"@);
    } else {
        let rest = after(s, "https://deno.land/x/"@);
        let at = find_char(rest, '@')->0;
        assert(name.take("deno:"@.len() as int) == "deno:"@);
        if begins(constraint, "v"@) {
            lemma_first(constraint, "v"@);
        }
    }
}

/// What stands before the first slash begins with the first character, where that is
/// none.
proof fn lemma_segment(s: Seq<char>)
    requires
        s.len() > 0,
        s[0] != '/',
    ensures
        super::deno::first_segment(s).len() > 0,
        super::deno::first_segment(s)[0] == s[0],
{
    lemma_find_where(s, is_char('/'));
}

/// Every import whose value is a specifier declares the dependency that it names,
/// and the range is where its constraint stands.
pub proof fn law_import_declares(
    content: Seq<char>,
    rows: Seq<JsonRow>,
    i: int,
    document: NodeView,
    e: int,
    name: Seq<char>,
    constraint: Seq<char>,
)
    requires
        clean_lines(content) == row_lines(rows),
        is_document(rows),
        0 <= i < rows.len(),
        rows[i].body is Text,
        tables(rows, i) == seq!["imports"@],
        0 <= e < entries_of(document.get("imports"@)).len(),
        entries_of(document.get("imports"@))[e] == (
            rows[i].body->Text_key,
            NodeView::Text(rows[i].body->Text_value),
        ),
        rows[i].body->Text_value.len() > 0,
        rows[i].body->Text_value.last() != '/',
        specifier(rows[i].body->Text_value) == Some((name, constraint)),
        0 <= constraint_start(rows[i].body->Text_value, name) <= rows[i].body->Text_value.len(),
    ensures
        exists|m: int|
            0 <= m < deno_dependencies(document, content).len() && is_declared_by(
                #[trigger] deno_dependencies(document, content)[m],
                rows,
                i,
                name,
                constraint,
                constraint_start(rows[i].body->Text_value, name),
            ),
{
    reveal_strlit("/");
    let key = rows[i].body->Text_key;
    let value = rows[i].body->Text_value;
    let ls = clean_lines(content);
    let offset = constraint_start(value, name);
    let j = lemma_version_range(rows, i, offset, constraint);
    let keys = seq!["imports"@];
    let entries = entries_of(document.get("imports"@));
    let at = import_at(ls, keys, entries);
    if ends(value, "/"@) {
        assert(value.skip(value.len() - 1)[0] == value.last());
    }
    let dep = at(e)->0;
    assert(at(e) is Some);
    lemma_gathered(entries.len() as int, at, e);
    let list = gather(entries.len() as int, at);
    let n = choose|n: int| 0 <= n < list.len() && #[trigger] list[n] == dep;
    let all = deno_dependencies(document, content);
    assert(imports(ls, keys, document.get("imports"@)) == list);
    assert(all[n] == list[n]);
    assert(same_entry(rows, i, j));
    assert(is_declared_by(all[n], rows, i, name, constraint, offset));
}

/// An import declares a dependency.
spec fn import_declares(
    lines: Seq<Seq<char>>,
    address: Seq<PlaceView>,
    value: NodeView,
    dep: DependencyView,
) -> bool {
    import_dependency(lines, address, value) == Some(dep)
}

/// What an import declares, and where.
proof fn lemma_import_found(
    rows: Seq<JsonRow>,
    i: int,
    keys: Seq<Seq<char>>,
    name: Seq<char>,
    constraint: Seq<char>,
) -> (dep: DependencyView)
    requires
        is_document(rows),
        0 <= i < rows.len(),
        rows[i].body is Text,
        tables(rows, i) == keys,
        rows[i].body->Text_value.len() > 0,
        rows[i].body->Text_value.last() != '/',
        specifier(rows[i].body->Text_value) == Some((name, constraint)),
        0 <= constraint_start(rows[i].body->Text_value, name) <= rows[i].body->Text_value.len(),
    ensures
        import_declares(
            row_lines(rows),
            under(keys.push(rows[i].body->Text_key)),
            NodeView::Text(rows[i].body->Text_value),
            dep,
        ),
        is_declared_by(
            dep,
            rows,
            i,
            name,
            constraint,
            constraint_start(rows[i].body->Text_value, name),
        ),
{
    reveal_strlit("/");
    let value = rows[i].body->Text_value;
    let offset = constraint_start(value, name);
    let j = lemma_version_range(rows, i, offset, constraint);
    if ends(value, "/"@) {
        assert(value.skip(value.len() - 1)[0] == value.last());
    }
    assert(same_entry(rows, i, j));
    let range = range_behind(j, value_head(rows[j]) + value.take(offset), constraint);
    DependencyView { name, constraint, range }
}

/// The scopes are read: an entry of one of them is in the list where it declares a
/// dependency.
proof fn lemma_scope_entry(
    document: NodeView,
    content: Seq<char>,
    keys: Seq<Seq<char>>,
    k: int,
    e: int,
    key: Seq<char>,
    value: NodeView,
    dep: DependencyView,
)
    requires
        keys.len() == 2,
        keys[0] == "scopes"@,
        keys[1] == entries_of(document.get("scopes"@))[k].0,
        0 <= k < entries_of(document.get("scopes"@)).len(),
        0 <= e < entries_of(Some(entries_of(document.get("scopes"@))[k].1)).len(),
        entries_of(Some(entries_of(document.get("scopes"@))[k].1))[e] == (key, value),
        import_declares(
            clean_lines(content),
            under(keys.push(key)),
            value,
            dep,
        ),
    ensures
        deno_dependencies(document, content).contains(dep),
{
    let ls = clean_lines(content);
    let scopes = entries_of(document.get("scopes"@));
    assert(keys == seq!["scopes"@, scopes[k].0]);
    let entries = entries_of(Some(scopes[k].1));
    let at = import_at(ls, keys, entries);
    assert(at(e) == Some(dep));
    lemma_gathered(entries.len() as int, at, e);
    let list = gather(entries.len() as int, at);
    let n = choose|n: int| 0 <= n < list.len() && #[trigger] list[n] == dep;
    let f = scope_at(ls, scopes);
    assert(f(k) == list);
    lemma_joined(scopes.len() as int, f, k, n);
    let joined = join(scopes.len() as int, f);
    let m = choose|m: int| 0 <= m < joined.len() && #[trigger] joined[m] == f(k)[n];
    let first = imports(ls, seq!["imports"@], document.get("imports"@));
    let all = deno_dependencies(document, content);
    assert(all == first + joined);
    assert(all[first.len() + m] == dep);
}

/// Some dependency of a list is what an import declares.
pub open spec fn lists_import(
    list: Seq<DependencyView>,
    rows: Seq<JsonRow>,
    i: int,
    name: Seq<char>,
    constraint: Seq<char>,
) -> bool {
    exists|m: int|
        0 <= m < list.len() && is_declared_by(
            #[trigger] list[m],
            rows,
            i,
            name,
            constraint,
            constraint_start(rows[i].body->Text_value, name),
        )
}

proof fn lemma_listed(
    list: Seq<DependencyView>,
    dep: DependencyView,
    rows: Seq<JsonRow>,
    i: int,
    name: Seq<char>,
    constraint: Seq<char>,
)
    requires
        list.contains(dep),
        is_declared_by(
            dep,
            rows,
            i,
            name,
            constraint,
            constraint_start(rows[i].body->Text_value, name),
        ),
    ensures
        lists_import(list, rows, i, name, constraint),
{
    let m = choose|m: int| 0 <= m < list.len() && list[m] == dep;
    assert(is_declared_by(
        list[m],
        rows,
        i,
        name,
        constraint,
        constraint_start(rows[i].body->Text_value, name),
    ));
}

/// The same for the imports of a scope.
pub proof fn law_scoped_import_declares(
    content: Seq<char>,
    rows: Seq<JsonRow>,
    i: int,
    document: NodeView,
    k: int,
    e: int,
    name: Seq<char>,
    constraint: Seq<char>,
)
    requires
        clean_lines(content) == row_lines(rows),
        is_document(rows),
        0 <= i < rows.len(),
        rows[i].body is Text,
        0 <= k < entries_of(document.get("scopes"@)).len(),
        tables(rows, i).len() == 2,
        tables(rows, i)[0] == "scopes"@,
        tables(rows, i)[1] == entries_of(document.get("scopes"@))[k].0,
        0 <= e < entries_of(Some(entries_of(document.get("scopes"@))[k].1)).len(),
        entries_of(Some(entries_of(document.get("scopes"@))[k].1))[e] == (
            rows[i].body->Text_key,
            NodeView::Text(rows[i].body->Text_value),
        ),
        rows[i].body->Text_value.len() > 0,
        rows[i].body->Text_value.last() != '/',
        specifier(rows[i].body->Text_value) == Some((name, constraint)),
        0 <= constraint_start(rows[i].body->Text_value, name) <= rows[i].body->Text_value.len(),
    ensures
        lists_import(deno_dependencies(document, content), rows, i, name, constraint),
{
    let key = rows[i].body->Text_key;
    let value = rows[i].body->Text_value;
    let keys = tables(rows, i);
    let dep = lemma_import_found(rows, i, keys, name, constraint);
    lemma_scope_entry(document, content, keys, k, e, key, NodeView::Text(value), dep);
    lemma_listed(deno_dependencies(document, content), dep, rows, i, name, constraint);
}

/// The constraint of a specifier stands at its own place: behind the `@` that ends
/// the name of the package.
pub proof fn law_constraint_places(name: Seq<char>)
    ensures
        forall|value: Seq<char>|
            begins(value, "npm:"@) || begins(value, "jsr:"@) ==> #[trigger] constraint_start(
                value,
                name,
            ) == name.len() + 1,
        forall|value: Seq<char>|
            begins(value, "https://deno.land/x/"@) ==> #[trigger] constraint_start(
                value,
                "deno:"@ + name,
            ) == "https://deno.land/x/"@.len() + name.len() + 1,
{
    reveal_strlit("npm:");
    reveal_strlit("jsr:");
    reveal_strlit("https://deno.land/x/");
    assert forall|value: Seq<char>|
        begins(value, "npm:"@) || begins(value, "jsr:"@) implies #[trigger] constraint_start(
        value,
        name,
    ) == name.len() + 1 by {
        lemma_first(value, "npm:"@);
        lemma_first(value, "jsr:"@);
        lemma_first(value, "https://deno.land/x/"@);
    }
}

/// An import declares nothing where its value is no string, where it ends with a slash
/// and so maps a path, and where it begins with none of the three registries.
pub proof fn law_other_imports_declare_nothing(
    lines: Seq<Seq<char>>,
    address: Seq<PlaceView>,
    value: NodeView,
)
    requires
        match value {
            NodeView::Text(s) => {
                ||| s.len() > 0 && s.last() == '/'
                ||| !begins(s, "jsr:"@) && !begins(s, "npm:"@) && !begins(
                    s,
                    "https://deno.land/x/"@,
                )
            },
            _ => true,
        },
    ensures
        import_dependency(lines, address, value) is None,
{
    reveal_strlit("/");
    if let NodeView::Text(s) = value {
        if s.len() > 0 && s.last() == '/' {
            assert(s.skip(s.len() - 1) == "/"@);
        }
    }
}

} // verus!
