//! TOML manifests with one entry per line: which entries declare a dependency.
use vstd::prelude::*;
use super::{dependency_at, DependencyView};
use super::cargo::{
    cargo_dependencies, section_at, toml_dependency, toml_entry_at, toml_range, toml_version,
    version_address,
};
use super::json_manifests::lemma_under_injective;
use super::pypi::{
    item_at, item_dependency, normal_name, poetry_at, poetry_dependencies, poetry_dependency,
    project_dependencies, pyproject_dependencies,
};
use super::pypi_rows::{law_requirement_is_read, range_behind, Written};
use crate::document::{entries_of, items_of, NodeView};
use crate::listing::{gather, join, lemma_gathered, lemma_joined};
use crate::locate::Range;
use crate::outline::{
    address_of, lemma_last_spot, lemma_located, lemma_spot_found, lies_in, located, spot_of, under,
    PlaceView, SpotView,
};
use crate::outline::toml::{law_toml_outline_placed, toml_outline};
use crate::outline::toml_lists::{
    holds_list, inline_text, is_inline_list, law_inline_items_found, law_list_items_found,
    InlineList, TomlList,
};
use crate::outline::toml_rows::{
    has_text, is_document, keys_at, law_toml_entry_found, law_toml_nothing_else, row_lines,
    row_text, table, value_of, TomlBody, TomlRow,
};
use crate::text::lines::lines;
use crate::text::search::split;

verus! {

/// What stands before the string on the line of an entry.
pub open spec fn value_head(row: TomlRow) -> Seq<char> {
    match row.body {
        TomlBody::Text { own, value } => row.lead + own.text() + seq!['"'],
        TomlBody::Inline { own, gap, inner, value, tail } => row.lead + own.text() + seq!['{'] + gap
            + inner.text() + seq!['"'],
        _ => seq![],
    }
}

/// Two lines hold the same string under the same keys.
pub open spec fn same_entry(rows: Seq<TomlRow>, i: int, j: int) -> bool {
    &&& 0 <= j < rows.len()
    &&& has_text(rows[j])
    &&& value_of(rows[j]) == value_of(rows[i])
    &&& keys_at(rows, j) == keys_at(rows, i)
}

/// A dependency has a name, the string of a line as its constraint, and its range is
/// where that stands on a line with this entry.
pub open spec fn is_declared_by(
    dep: DependencyView,
    rows: Seq<TomlRow>,
    i: int,
    name: Seq<char>,
) -> bool {
    &&& dep.name == name
    &&& dep.constraint == value_of(rows[i])
    &&& exists|j: int| #[trigger]
        same_entry(rows, i, j) && dep.range == range_behind(
            j,
            value_head(rows[j]),
            value_of(rows[i]),
        )
}

/// Where the string of an entry is found.
proof fn lemma_entry_located(rows: Seq<TomlRow>, i: int) -> (j: int)
    requires
        is_document(rows),
        0 <= i < rows.len(),
        has_text(rows[i]),
    ensures
        same_entry(rows, i, j),
        located(
            row_lines(rows),
            toml_outline(row_lines(rows)),
            under(keys_at(rows, i)),
            value_of(rows[i]),
            0,
            value_of(rows[i]),
        ) == Some(range_behind(j, value_head(rows[j]), value_of(rows[i]))),
{
    let outline = toml_outline(row_lines(rows));
    let value = value_of(rows[i]);
    let address = under(keys_at(rows, i));
    let own = law_toml_entry_found(rows, i);
    let m = choose|m: int| 0 <= m < outline.len() && outline[m] == own;
    lemma_spot_found(outline, outline.len() as int, address, value, m);
    let spot = spot_of(outline, address, value)->0;
    let j = law_toml_nothing_else(rows, spot);
    lemma_last_spot(outline, outline.len() as int, address, value);
    lemma_under_injective(keys_at(rows, i), keys_at(rows, j));
    assert(row_lines(rows)[j] == row_text(rows[j]));
    assert(row_text(rows[j]).take(spot.at + 0) == value_head(rows[j]));
    j
}

/// The version of an entry is its string, or the string under `version` in its
/// table; nothing else has one.
pub proof fn law_version_of_entry(value: NodeView)
    ensures
        value is Text ==> toml_version(value) == Some(value->Text_0),
        value is Table && value.get("version"@) is Some && value.get("version"@)->0 is Text
            ==> toml_version(value) == Some(value.get("version"@)->0->Text_0),
        value is Table && (value.get("version"@) is None || value.get("version"@)->0 !is Text)
            ==> toml_version(value) is None,
        value is List || value is Other ==> toml_version(value) is None,
{
}

/// The string of line `i` is the version of an entry: the entry itself, or what
/// its table has under `version`.
pub open spec fn is_version_at(
    rows: Seq<TomlRow>,
    i: int,
    section: Seq<Seq<char>>,
    name: Seq<char>,
    value: NodeView,
) -> bool {
    ||| value == NodeView::Text(value_of(rows[i])) && keys_at(rows, i) == section.push(name)
    ||| value is Table && value.get("version"@) == Some(NodeView::Text(value_of(rows[i])))
        && keys_at(rows, i) == section.push(name).push("version"@)
}

/// What an entry declares, and where.
proof fn lemma_declares(
    rows: Seq<TomlRow>,
    i: int,
    section: Seq<char>,
    name: Seq<char>,
    value: NodeView,
) -> (range: Range)
    requires
        is_document(rows),
        0 <= i < rows.len(),
        has_text(rows[i]),
        is_version_at(rows, i, split(section, '.'), name, value),
    ensures
        toml_version(value) == Some(value_of(rows[i])),
        toml_range(row_lines(rows), section, name, value, value_of(rows[i])) == Some(range),
        exists|j: int| #[trigger]
            same_entry(rows, i, j) && range == range_behind(
                j,
                value_head(rows[j]),
                value_of(rows[i]),
            ),
{
    let j = lemma_entry_located(rows, i);
    let keys = split(section, '.').push(name);
    if value is Text {
        assert(version_address(section, name, value) == under(keys));
    } else {
        assert(under(keys.push("version"@)) == under(keys).push(PlaceView::Key("version"@)));
        assert(version_address(section, name, value) == under(keys.push("version"@)));
    }
    assert(same_entry(rows, i, j));
    range_behind(j, value_head(rows[j]), value_of(rows[i]))
}

/// Every entry of a section that is read, be it a string or a table with a version,
/// declares a dependency of its name with that version as its constraint.
pub proof fn law_cargo_entry_declares(
    content: Seq<char>,
    rows: Seq<TomlRow>,
    i: int,
    document: NodeView,
    keys: Seq<Seq<char>>,
    k: int,
    e: int,
)
    requires
        lines(content) == row_lines(rows),
        is_document(rows),
        0 <= i < rows.len(),
        has_text(rows[i]),
        0 <= k < keys.len(),
        0 <= e < entries_of(document.resolve(keys[k])).len(),
        is_version_at(
            rows,
            i,
            split(keys[k], '.'),
            entries_of(document.resolve(keys[k]))[e].0,
            entries_of(document.resolve(keys[k]))[e].1,
        ),
    ensures
        exists|m: int|
            0 <= m < cargo_dependencies(document, content, keys).len() && is_declared_by(
                #[trigger] cargo_dependencies(document, content, keys)[m],
                rows,
                i,
                entries_of(document.resolve(keys[k]))[e].0,
            ),
{
    let entries = entries_of(document.resolve(keys[k]));
    let (name, value) = entries[e];
    let ls = lines(content);
    let range = lemma_declares(rows, i, keys[k], name, value);
    let dep = DependencyView { name, constraint: value_of(rows[i]), range };
    let at = toml_entry_at(ls, keys[k], entries);
    assert(at(e) == Some(dep));
    lemma_gathered(entries.len() as int, at, e);
    let list = gather(entries.len() as int, at);
    let n = choose|n: int| 0 <= n < list.len() && #[trigger] list[n] == dep;
    let sections = section_at(document, ls, keys);
    assert(sections(k) == list);
    lemma_joined(keys.len() as int, sections, k, n);
    let all = join(keys.len() as int, sections);
    let m = choose|m: int| 0 <= m < all.len() && #[trigger] all[m] == sections(k)[n];
    assert(cargo_dependencies(document, content, keys)[m] == dep);
    assert(is_declared_by(cargo_dependencies(document, content, keys)[m], rows, i, name));
}

/// An entry without a version declares nothing.
pub proof fn law_unversioned_entries_declare_nothing(
    lines: Seq<Seq<char>>,
    section: Seq<char>,
    name: Seq<char>,
    value: NodeView,
)
    requires
        value !is Text,
        value.get("version"@) is None || value.get("version"@)->0 !is Text,
    ensures
        toml_dependency(lines, section, name, value) is None,
        poetry_dependency(lines, name, value) is None,
{
}

/// Every entry of Poetry's table but `python`, be it a string or a table with a
/// version, declares a dependency of its normal name with that version as its
/// constraint.
pub proof fn law_poetry_entry_declares(
    content: Seq<char>,
    rows: Seq<TomlRow>,
    i: int,
    document: NodeView,
    e: int,
)
    requires
        lines(content) == row_lines(rows),
        is_document(rows),
        0 <= i < rows.len(),
        has_text(rows[i]),
        ({
            let entries = entries_of(document.follow(seq!["tool"@, "poetry"@, "dependencies"@]));
            &&& 0 <= e < entries.len()
            &&& entries[e].0 != "python"@
            &&& is_version_at(
                rows,
                i,
                split("tool.poetry.dependencies"@, '.'),
                entries[e].0,
                entries[e].1,
            )
        }),
    ensures
        ({
            let entries = entries_of(document.follow(seq!["tool"@, "poetry"@, "dependencies"@]));
            exists|m: int|
                0 <= m < pyproject_dependencies(document, content).len() && is_declared_by(
                    #[trigger] pyproject_dependencies(document, content)[m],
                    rows,
                    i,
                    normal_name(entries[e].0),
                )
        }),
{
    let entries = entries_of(document.follow(seq!["tool"@, "poetry"@, "dependencies"@]));
    let (name, value) = entries[e];
    let ls = lines(content);
    let range = lemma_declares(rows, i, "tool.poetry.dependencies"@, name, value);
    let dep = DependencyView { name: normal_name(name), constraint: value_of(rows[i]), range };
    let at = poetry_at(ls, entries);
    assert(at(e) == Some(dep));
    lemma_gathered(entries.len() as int, at, e);
    let list = gather(entries.len() as int, at);
    let n = choose|n: int| 0 <= n < list.len() && #[trigger] list[n] == dep;
    let first = project_dependencies(document, ls);
    let all = pyproject_dependencies(document, content);
    assert(poetry_dependencies(document, ls) == list);
    assert(all[first.len() + n] == list[n]);
    assert(is_declared_by(all[first.len() + n], rows, i, normal_name(name)));
}

/// The parts of the name of Poetry's table.
pub proof fn law_poetry_table()
    ensures
        split("tool.poetry.dependencies"@, '.') == seq!["tool"@, "poetry"@, "dependencies"@],
{
    reveal_strlit("tool.poetry.dependencies");
    reveal_strlit("tool");
    reveal_strlit("poetry");
    reveal_strlit("dependencies");
    crate::text::search::lemma_split_none("tool"@, '.');
    crate::text::search::lemma_split_push("tool"@, '.', "poetry"@);
    let two = "tool"@.push('.') + "poetry"@;
    crate::text::search::lemma_split_push(two, '.', "dependencies"@);
    assert(two.push('.') + "dependencies"@ == "tool.poetry.dependencies"@);
    assert(split("tool.poetry.dependencies"@, '.') == seq!["tool"@, "poetry"@, "dependencies"@]);
}

/// An item of the list under `project` that holds a requirement declares it, where
/// its string is found in the document.
pub proof fn law_item_declares(lines: Seq<Seq<char>>, i: int, w: Written)
    requires
        w.valid(),
    ensures
        item_dependency(lines, i, NodeView::Text(w.text())) == dependency_at(
            normal_name(w.name),
            w.constraint(),
            located(
                lines,
                toml_outline(lines),
                under(seq!["project"@, "dependencies"@]).push(PlaceView::Item(i)),
                w.text(),
                w.head().len() as int,
                w.constraint(),
            ),
        ),
{
    law_requirement_is_read(w);
}

/// A dependency is what a requirement says, and its constraint stands in a string
/// of the document that is this requirement under this number.
pub open spec fn is_listed(
    dep: DependencyView,
    lines: Seq<Seq<char>>,
    k: int,
    w: Written,
    spot: SpotView,
) -> bool {
    &&& dep.name == normal_name(w.name)
    &&& dep.constraint == w.constraint()
    &&& lies_in(
        lines,
        toml_outline(lines),
        spot,
        under(seq!["project"@, "dependencies"@]).push(PlaceView::Item(k)),
        w.text(),
        w.head().len() as int,
        w.constraint(),
        dep.range,
    )
}

/// A requirement whose string is found in the list declares a dependency.
proof fn lemma_found_item_declares(
    content: Seq<char>,
    own: SpotView,
    k: int,
    w: Written,
    document: NodeView,
)
    requires
        toml_outline(lines(content)).contains(own),
        own.text == w.text(),
        address_of(own.path) == under(seq!["project"@, "dependencies"@]).push(PlaceView::Item(k)),
        w.valid(),
        is_item_of(document, k, w),
    ensures
        declares_item(document, content, k, w),
{
    let ls = lines(content);
    let outline = toml_outline(ls);
    let keys = seq!["project"@, "dependencies"@];
    let address = under(keys).push(PlaceView::Item(k));
    let start = w.head().len() as int;
    let j = choose|j: int| 0 <= j < outline.len() && outline[j] == own;
    lemma_spot_found(outline, outline.len() as int, address, w.text(), j);
    law_toml_outline_placed(ls);
    assert(w.text().subrange(start, w.text().len() as int) == w.constraint());
    lemma_located(ls, outline, address, w.text(), start, w.constraint());
    law_item_declares(ls, k, w);
    let items = items_of(document.follow(keys));
    let dep = item_dependency(ls, k, items[k])->0;
    let at = item_at(ls, items);
    assert(at(k) == Some(dep));
    lemma_gathered(items.len() as int, at, k);
    let first = project_dependencies(document, ls);
    let m = choose|m: int| 0 <= m < first.len() && #[trigger] first[m] == dep;
    let all = pyproject_dependencies(document, content);
    assert(all[m] == dep);
    let spot = spot_of(outline, address, w.text())->0;
    assert(is_listed(all[m], ls, k, w, spot));
}

/// Item `k` of the list under `project` is a requirement.
pub open spec fn is_item_of(document: NodeView, k: int, w: Written) -> bool {
    let items = items_of(document.follow(seq!["project"@, "dependencies"@]));
    0 <= k < items.len() && items[k] == NodeView::Text(w.text())
}

/// A dependency of a `pyproject.toml` is what item `k` says, with the constraint
/// where that stands in the list.
pub open spec fn declares_item(
    document: NodeView,
    content: Seq<char>,
    k: int,
    w: Written,
) -> bool {
    let deps = pyproject_dependencies(document, content);
    exists|m: int, spot: SpotView|
        0 <= m < deps.len() && #[trigger] is_listed(deps[m], lines(content), k, w, spot)
}

/// Every requirement of the list under `project` that stands on a line of its own
/// declares a dependency.
pub proof fn law_listed_requirement_declares(
    content: Seq<char>,
    rows: Seq<TomlRow>,
    list: TomlList,
    k: int,
    w: Written,
    document: NodeView,
)
    requires
        holds_list(lines(content), rows, list),
        table(rows, rows.len() as int) == seq!["project"@],
        list.own.key == "dependencies"@,
        0 <= k < list.items.len(),
        list.items[k].value == w.text(),
        w.valid(),
        is_item_of(document, k, w),
    ensures
        declares_item(document, content, k, w),
{
    let own = law_list_items_found(lines(content), rows, list, k);
    assert(table(rows, rows.len() as int).push(list.own.key) == seq![
        "project"@,
        "dependencies"@,
    ]);
    lemma_found_item_declares(content, own, k, w, document);
}

/// Every requirement of the list under `project` that stands on one line with the
/// others declares a dependency.
pub proof fn law_inline_requirement_declares(
    content: Seq<char>,
    rows: Seq<TomlRow>,
    list: InlineList,
    w: Written,
    document: NodeView,
)
    requires
        is_document(rows),
        table(rows, rows.len() as int) == seq!["project"@],
        lines(content).len() > rows.len(),
        lines(content).take(rows.len() as int) == row_lines(rows),
        lines(content)[rows.len() as int] == inline_text(list),
        is_inline_list(list),
        list.own.key == "dependencies"@,
        list.value == w.text(),
        w.valid(),
        is_item_of(document, list.before.len() as int, w),
    ensures
        declares_item(document, content, list.before.len() as int, w),
{
    let own = law_inline_items_found(lines(content), rows, list);
    assert(table(rows, rows.len() as int).push(list.own.key) == seq![
        "project"@,
        "dependencies"@,
    ]);
    lemma_found_item_declares(content, own, list.before.len() as int, w, document);
}

} // verus!
