//! PyPI: `requirements.txt`, `pyproject.toml` and pypi.org.
use vstd::prelude::*;
use vstd::slice::slice_subrange;
use super::{
    acts_like, all_declared, dependencies_view, dependency, dependency_at, dependency_view,
    is_declared, is_declared_at, lemma_dependencies_append, lemma_dependencies_push, pattern_texts,
    DependencyView, ParsedDependency, Provider, Registered,
};
use super::cargo::{
    extract_toml_version, find_toml_version_range, is_entry, lemma_entry_declared, lemma_toml_range,
    toml_range, toml_version,
};
use super::composer::{all_numbers, numbers};
use super::registry::{lemma_views_push, rank_result, release_of, result_of};
use super::request::{plain_question, plain_request, Registry, RequestView, VersionRequest};
use crate::cache::{ResultView, VersionResult};
use crate::document::{
    entries_in, entries_of, entries_view, items_in, items_of, items_view, node_ref_view, parse_toml,
    toml_document, Node, NodeView,
};
use crate::listing::{gather, lemma_gather};
use crate::locate::{lemma_occurs_inside, span, span_of, stands_at};
use crate::outline::{
    address_view, lemma_located, lemma_text_before, lies_in, located, push_key, spot_of, under,
    KeyView, Outline, Place, PlaceView, SpotView,
};
use crate::outline::toml::{law_toml_outline_placed, outline_toml, toml_outline};
use crate::ranking::{all_valid, views};
use crate::text::chars::{
    chars_of, digit, is_digit, is_letter, lemma_texts_push, letter, lower, lowercase, lowercase_of,
    push_chars, push_str, spells, string_of, texts,
};
use crate::text::lines::{lines, lines_of};
use crate::text::number::number;
use crate::text::search::{
    after, after_prefix, begins, contains_str, ends, ends_with_str, find, find_char, find_where,
    is_char, lemma_find, lemma_find_where, lemma_find_where_is, lemma_find_where_none, occurs,
    occurs_at, parts_view, position_char, position_letter, position_str, split, split_on,
    starts_with_str,
};
use crate::text::trim::{
    lemma_trim_end_prefix, lemma_trim_start_suffix, start_of, trim, trim_end, trim_start, trimmed,
    trimmed_end,
};
use crate::text::utf8::{byte_len, bytes};
use crate::version::{version_of, Version, VersionView};
use crate::version_utils::normalize::python;
use crate::version_utils::normalize::python::python_form;

verus! {

/// A version text that marks a prerelease: a development version, or one with
/// letters that is no post-release.
pub open spec fn is_pre_text(version: Seq<char>) -> bool {
    let lower = lowercase(version);
    if occurs(lower, ".dev"@) {
        true
    } else if occurs(lower, ".post"@) {
        false
    } else {
        exists|i: int| 0 <= i < version.len() && is_letter(#[trigger] version[i])
    }
}

/// A version text without its post-release suffix.
pub open spec fn without_post(version: Seq<char>) -> Seq<char> {
    match find(lowercase(version), ".post"@) {
        Some(i) => version.take(i),
        None => version,
    }
}

/// The release that a stable version text stands for; two numbers get a third.
pub open spec fn pypi_release(version: Seq<char>) -> Option<VersionView> {
    let base = without_post(version);
    let parts = split(base, '.');
    if version_of(base) is Some {
        release_of(base)
    } else if parts.len() == 2 && all_numbers(parts) {
        release_of(base + ".0"@)
    } else {
        None
    }
}

/// A dotted number, filled up to three components.
pub open spec fn padded_number(s: Seq<char>) -> Option<Seq<char>> {
    let parts = split(s, '.');
    if parts.len() == 1 {
        if all_numbers(parts) {
            Some(s + ".0.0"@)
        } else {
            None
        }
    } else if parts.len() == 2 {
        if all_numbers(parts) {
            Some(s + ".0"@)
        } else {
            None
        }
    } else {
        Some(s)
    }
}

/// The prerelease tag that a marker stands for.
pub open spec fn tag_of(marker: Seq<char>) -> Option<Seq<char>> {
    if begins(marker, "rc"@) {
        Some("rc."@ + after(marker, "rc"@))
    } else if begins(marker, "alpha"@) {
        Some("alpha."@ + after(marker, "alpha"@))
    } else if begins(marker, "a"@) {
        Some("alpha."@ + after(marker, "a"@))
    } else if begins(marker, "beta"@) {
        Some("beta."@ + after(marker, "beta"@))
    } else if begins(marker, "b"@) {
        Some("beta."@ + after(marker, "b"@))
    } else {
        None
    }
}

/// The version that a prerelease text stands for; development versions stand
/// for none.
pub open spec fn pypi_prerelease(version: Seq<char>) -> Option<VersionView> {
    let lower = lowercase(version);
    if occurs(lower, ".dev"@) {
        None
    } else {
        match find_where(version, |c: char| is_letter(c)) {
            Some(i) => match padded_number(version.take(i)) {
                Some(number) => match tag_of(lower.skip(i)) {
                    Some(tag) => version_of(number + "-"@ + tag),
                    None => None,
                },
                None => None,
            },
            None => None,
        }
    }
}

/// The stable versions by the number of their text.
pub open spec fn pypi_stable_at(list: Seq<Seq<char>>) -> spec_fn(int) -> Option<VersionView> {
    |i: int|
        if is_pre_text(list[i]) {
            None
        } else {
            pypi_release(list[i])
        }
}

/// The prereleases by the number of their text.
pub open spec fn pypi_pre_at(list: Seq<Seq<char>>) -> spec_fn(int) -> Option<VersionView> {
    |i: int|
        if is_pre_text(list[i]) {
            pypi_prerelease(list[i])
        } else {
            None
        }
}

/// A release that pypi.org lists: its version, and of each of its files whether
/// it was yanked.
#[derive(Debug)]
pub struct PypiRelease {
    pub version: String,
    pub files_yanked: Vec<bool>,
}

/// A release is yanked where it has files and all of them are.
pub open spec fn is_yanked(files: Seq<bool>) -> bool {
    files.len() > 0 && forall|i: int| 0 <= i < files.len() ==> #[trigger] files[i]
}

/// The version of a release that was not yanked, by its place in the list.
pub open spec fn kept_at(rows: Seq<PypiRelease>) -> spec_fn(int) -> Option<Seq<char>> {
    |i: int|
        if is_yanked(rows[i].files_yanked@) {
            None
        } else {
            Some(rows[i].version@)
        }
}

/// The versions of the releases that were not yanked.
pub open spec fn kept(rows: Seq<PypiRelease>) -> Seq<Seq<char>> {
    gather(rows.len() as int, kept_at(rows))
}

/// The lookup result for the version texts of a package.
pub open spec fn pypi_result(list: Seq<Seq<char>>) -> ResultView {
    let n = list.len() as int;
    result_of(gather(n, pypi_stable_at(list)), gather(n, pypi_pre_at(list)))
}

/// A requirement line without its comment, which a blank sets off.
pub open spec fn without_comment(line: Seq<char>) -> Seq<char> {
    match find(line, " #"@) {
        Some(i) => trim_end(line.take(i)),
        None => line,
    }
}

/// A character of a package name.
pub open spec fn is_name_char(c: char) -> bool {
    is_letter(c) || is_digit(c) || c == '-' || c == '_' || c == '.'
}

/// The number of characters at the front before the first that satisfies `f`.
pub open spec fn length_until(s: Seq<char>, f: spec_fn(char) -> bool) -> int {
    match find_where(s, f) {
        Some(i) => i,
        None => s.len() as int,
    }
}

/// The length of the package name at the front of a requirement.
pub open spec fn name_length(s: Seq<char>) -> int {
    length_until(s, |c: char| !is_name_char(c))
}

/// The length of the extras in square brackets at the front of a text.
pub open spec fn extras_length(s: Seq<char>) -> int {
    if begins(s, "["@) {
        match find_char(s, ']') {
            Some(i) => i + 1,
            None => s.len() as int,
        }
    } else {
        0
    }
}

/// The number of blanks at the front of a text.
pub open spec fn blanks_length(s: Seq<char>) -> int {
    length_until(s, |c: char| c != ' ')
}

/// Where the constraint of a requirement begins: behind the name, the extras
/// and the blanks.
pub open spec fn constraint_start(s: Seq<char>) -> int {
    let name = name_length(s);
    let extras = extras_length(s.skip(name));
    name + extras + blanks_length(s.skip(name + extras))
}

/// A text that begins with a comparison.
pub open spec fn begins_with_operator(s: Seq<char>) -> bool {
    ||| begins(s, "=="@)
    ||| begins(s, "!="@)
    ||| begins(s, ">="@)
    ||| begins(s, "<="@)
    ||| begins(s, "~="@)
    ||| begins(s, ">"@)
    ||| begins(s, "<"@)
}

/// A package name in the form under which it is looked up.
pub open spec fn normal_name(name: Seq<char>) -> Seq<char> {
    lowercase(name).map_values(
        |c: char|
            if c == '-' || c == '.' {
                '_'
            } else {
                c
            },
    )
}

/// Characters that name the same package: letters of either case, and the three
/// separators.
pub open spec fn is_alike(a: char, b: char) -> bool {
    lower(a) == lower(b) || (is_separator(a) && is_separator(b))
}

/// A separator in a package name.
pub open spec fn is_separator(c: char) -> bool {
    c == '-' || c == '_' || c == '.'
}

/// Names that are spelt alike are looked up as one, and a looked-up name stays
/// as it is.
pub proof fn law_one_name_per_package(a: Seq<char>, b: Seq<char>)
    requires
        a.len() == b.len(),
        forall|i: int| 0 <= i < a.len() ==> is_alike(#[trigger] a[i], b[i]),
    ensures
        normal_name(a) == normal_name(b),
        normal_name(normal_name(a)) == normal_name(a),
{
    assert forall|i: int| 0 <= i < a.len() implies normal_name(a)[i] == normal_name(b)[i] by {
        assert(is_alike(a[i], b[i]));
    }
    assert(normal_name(a) == normal_name(b));
    assert(normal_name(normal_name(a)) == normal_name(a));
}

/// A requirement: the package name, the constraint, and the index at which the
/// constraint begins.
pub open spec fn requirement(s: Seq<char>) -> Option<(Seq<char>, Seq<char>, int)> {
    let start = constraint_start(s);
    if name_length(s) > 0 && begins_with_operator(s.skip(start)) {
        Some((normal_name(s.take(name_length(s))), trim_end(s.skip(start)), start))
    } else {
        None
    }
}

/// A line of a `requirements.txt` that declares nothing: a blank one, a
/// comment, an option or a path.
pub open spec fn is_skipped(t: Seq<char>) -> bool {
    t.len() == 0 || t[0] == '#' || t[0] == '-' || t[0] == '.'
}

/// The dependency that a line of a `requirements.txt` declares.
pub open spec fn line_dependency(i: int, line: Seq<char>) -> Option<DependencyView> {
    let t = trim(line);
    if is_skipped(t) {
        None
    } else {
        match requirement(without_comment(t)) {
            Some((name, constraint, start)) => {
                let k = line.len() - trim_start(line).len() + start;
                Some(DependencyView { name, constraint, range: span(i, line.take(k), constraint) })
            },
            None => None,
        }
    }
}

/// The same by the number of the line.
pub open spec fn line_at(lines: Seq<Seq<char>>) -> spec_fn(int) -> Option<DependencyView> {
    |i: int| line_dependency(i, lines[i])
}

/// The dependencies of a `requirements.txt`.
pub open spec fn requirements_txt(content: Seq<char>) -> Seq<DependencyView> {
    gather(lines(content).len() as int, line_at(lines(content)))
}

/// The address of an item of the list of requirements.
pub open spec fn item_address(i: int) -> Seq<PlaceView> {
    under(seq!["project"@, "dependencies"@]).push(PlaceView::Item(i))
}

/// The dependency that an item of the list of requirements declares.
pub open spec fn item_dependency(lines: Seq<Seq<char>>, i: int, item: NodeView) -> Option<
    DependencyView,
> {
    match item {
        NodeView::Text(text) => match requirement(text) {
            Some((name, constraint, start)) => dependency_at(
                name,
                constraint,
                located(lines, toml_outline(lines), item_address(i), text, start, constraint),
            ),
            None => None,
        },
        _ => None,
    }
}

/// The same by the number of the item.
pub open spec fn item_at(lines: Seq<Seq<char>>, items: Seq<NodeView>) -> spec_fn(int) -> Option<
    DependencyView,
> {
    |i: int| item_dependency(lines, i, items[i])
}

/// The dependency that an entry of Poetry's table declares. The entry `python`
/// is no package.
pub open spec fn poetry_dependency(
    lines: Seq<Seq<char>>,
    name: Seq<char>,
    value: NodeView,
) -> Option<DependencyView> {
    if name == "python"@ {
        None
    } else {
        match toml_version(value) {
            Some(version) => dependency_at(
                normal_name(name),
                version,
                toml_range(lines, "tool.poetry.dependencies"@, name, value, version),
            ),
            None => None,
        }
    }
}

/// The same by the number of the entry.
pub open spec fn poetry_at(
    lines: Seq<Seq<char>>,
    entries: Seq<(Seq<char>, NodeView)>,
) -> spec_fn(int) -> Option<DependencyView> {
    |i: int| poetry_dependency(lines, entries[i].0, entries[i].1)
}

/// The dependencies that the list under `project` declares.
pub open spec fn project_dependencies(document: NodeView, lines: Seq<Seq<char>>) -> Seq<
    DependencyView,
> {
    let items = items_of(document.follow(seq!["project"@, "dependencies"@]));
    gather(items.len() as int, item_at(lines, items))
}

/// The dependencies that Poetry's table declares.
pub open spec fn poetry_dependencies(document: NodeView, lines: Seq<Seq<char>>) -> Seq<
    DependencyView,
> {
    let entries = entries_of(document.follow(seq!["tool"@, "poetry"@, "dependencies"@]));
    gather(entries.len() as int, poetry_at(lines, entries))
}

/// The dependencies of a `pyproject.toml`, given what it holds.
pub open spec fn pyproject_dependencies(document: NodeView, content: Seq<char>) -> Seq<
    DependencyView,
> {
    project_dependencies(document, lines(content)) + poetry_dependencies(document, lines(content))
}

/// The dependencies of a `pyproject.toml`; none where it is no TOML.
pub open spec fn pyproject_toml(content: Seq<char>) -> Seq<DependencyView> {
    match toml_document(content) {
        Some(document) => pyproject_dependencies(document, content),
        None => seq![],
    }
}

/// Returns true if a version text represents a prerelease. Post-releases are
/// no prereleases.
pub fn is_pep440_prerelease(version: &str) -> (r: bool)
    ensures
        r == is_pre_text(version@),
{
    let cs = chars_of(version);
    let lower = lowercase_of(cs.as_slice());
    if contains_str(lower.as_slice(), ".dev") {
        return true;
    }
    if contains_str(lower.as_slice(), ".post") {
        return false;
    }
    for i in 0..cs.len()
        invariant
            cs@ == version@,
            lower@ == lowercase(version@),
            !occurs(lower@, ".dev"@),
            !occurs(lower@, ".post"@),
            forall|j: int| 0 <= j < i ==> !is_letter(#[trigger] version@[j]),
    {
        if letter(cs[i]) {
            assert(is_letter(version@[i as int]));
            return true;
        }
    }
    false
}

/// Reads a stable version: a post-release suffix comes off, and two-part
/// versions are filled up.
pub fn parse_pypi_version_stable(version: &str) -> (r: Option<Version>)
    ensures
        match r {
            Some(v) => pypi_release(version@) == Some(v@) && v@.valid(),
            None => pypi_release(version@) is None,
        },
{
    let cs = chars_of(version);
    let lower = lowercase_of(cs.as_slice());
    assert(lower@.len() == cs@.len());
    let base = match position_str(lower.as_slice(), ".post") {
        Some(i) => slice_subrange(cs.as_slice(), 0, i),
        None => cs.as_slice(),
    };
    assert(base@ == without_post(version@));
    let text = string_of(base);
    if let Some(v) = Version::parse(text.as_str()) {
        return if v.is_stable() {
            Some(v)
        } else {
            None
        };
    }
    let parts = split_on(base, '.');
    assert(parts@.len() == split(base@, '.').len());
    if parts.len() == 2 && numbers(&parts) {
        let mut padded: Vec<char> = Vec::new();
        push_chars(&mut padded, base);
        push_str(&mut padded, ".0");
        assert(padded@ == base@ + ".0"@);
        let padded = string_of(padded.as_slice());
        return match Version::parse(padded.as_str()) {
            Some(v) => if v.is_stable() {
                Some(v)
            } else {
                None
            },
            None => None,
        };
    }
    None
}

/// Fills a dotted number up to three components.
pub fn pad_to_semver_numeric(s: &[char]) -> (r: Option<Vec<char>>)
    ensures
        match r {
            Some(v) => padded_number(s@) == Some(v@),
            None => padded_number(s@) is None,
        },
{
    let parts = split_on(s, '.');
    assert(parts@.len() == split(s@, '.').len());
    let mut out: Vec<char> = Vec::new();
    push_chars(&mut out, s);
    assert(out@ == s@);
    if parts.len() == 1 {
        if !numbers(&parts) {
            return None;
        }
        push_str(&mut out, ".0.0");
    } else if parts.len() == 2 {
        if !numbers(&parts) {
            return None;
        }
        push_str(&mut out, ".0");
    }
    Some(out)
}

/// The prerelease tag that a marker stands for.
fn tag(marker: &[char]) -> (r: Option<Vec<char>>)
    ensures
        match r {
            Some(v) => tag_of(marker@) == Some(v@),
            None => tag_of(marker@) is None,
        },
{
    let mut out: Vec<char> = Vec::new();
    if let Some(n) = after_prefix(marker, "rc") {
        push_str(&mut out, "rc.");
        push_chars(&mut out, n);
        assert(out@ == "rc."@ + n@);
    } else if let Some(n) = after_prefix(marker, "alpha") {
        push_str(&mut out, "alpha.");
        push_chars(&mut out, n);
        assert(out@ == "alpha."@ + n@);
    } else if let Some(n) = after_prefix(marker, "a") {
        push_str(&mut out, "alpha.");
        push_chars(&mut out, n);
        assert(out@ == "alpha."@ + n@);
    } else if let Some(n) = after_prefix(marker, "beta") {
        push_str(&mut out, "beta.");
        push_chars(&mut out, n);
        assert(out@ == "beta."@ + n@);
    } else if let Some(n) = after_prefix(marker, "b") {
        push_str(&mut out, "beta.");
        push_chars(&mut out, n);
        assert(out@ == "beta."@ + n@);
    } else {
        return None;
    }
    Some(out)
}

/// Reads a prerelease text: `1.0a1` stands for `1.0.0-alpha.1`, `1.0b2` for
/// `1.0.0-beta.2`, and `1.0rc1` for `1.0.0-rc.1`.
pub fn parse_pep440_prerelease_as_semver(version: &str) -> (r: Option<Version>)
    ensures
        match r {
            Some(v) => pypi_prerelease(version@) == Some(v@) && v@.valid(),
            None => pypi_prerelease(version@) is None,
        },
{
    let cs = chars_of(version);
    let lower = lowercase_of(cs.as_slice());
    assert(lower@.len() == cs@.len());
    if contains_str(lower.as_slice(), ".dev") {
        return None;
    }
    let i: usize = match position_letter(cs.as_slice()) {
        Some(i) => i,
        None => return None,
    };
    let number = match pad_to_semver_numeric(slice_subrange(cs.as_slice(), 0, i)) {
        Some(number) => number,
        None => return None,
    };
    let marker = slice_subrange(lower.as_slice(), i, lower.len());
    assert(marker@ == lower@.skip(i as int));
    assert(cs@.subrange(0, i as int) == cs@.take(i as int));
    let label = match tag(marker) {
        Some(label) => label,
        None => return None,
    };
    let mut out: Vec<char> = Vec::new();
    push_chars(&mut out, number.as_slice());
    push_str(&mut out, "-");
    push_chars(&mut out, label.as_slice());
    assert(out@ == number@ + "-"@ + label@);
    let text = string_of(out.as_slice());
    Version::parse(text.as_str())
}

/// The lookup result for the version texts of a package.
pub fn pypi_versions(list: &Vec<String>) -> (r: VersionResult)
    ensures
        r@ == pypi_result(texts(list@)),
{
    let ghost all = texts(list@);
    let ghost sat = pypi_stable_at(all);
    let ghost pat = pypi_pre_at(all);
    let mut stable: Vec<Version> = Vec::new();
    let mut pre: Vec<Version> = Vec::new();
    assert(views(stable@) == gather(0, sat));
    assert(views(pre@) == gather(0, pat));
    for i in 0..list.len()
        invariant
            all == texts(list@),
            sat == pypi_stable_at(all),
            pat == pypi_pre_at(all),
            all_valid(stable@),
            all_valid(pre@),
            views(stable@) == gather(i as int, sat),
            views(pre@) == gather(i as int, pat),
    {
        assert(all[i as int] == list@[i as int]@);
        let text = list[i].as_str();
        if is_pep440_prerelease(text) {
            assert(sat(i as int) is None);
            if let Some(v) = parse_pep440_prerelease_as_semver(text) {
                proof {
                    lemma_views_push(pre@, v);
                    assert(pat(i as int) == Some(v@));
                }
                pre.push(v);
            } else {
                assert(pat(i as int) is None);
            }
        } else {
            assert(pat(i as int) is None);
            if let Some(v) = parse_pypi_version_stable(text) {
                proof {
                    lemma_views_push(stable@, v);
                    assert(sat(i as int) == Some(v@));
                }
                stable.push(v);
            } else {
                assert(sat(i as int) is None);
            }
        }
    }
    rank_result(&stable, &pre)
}

/// Whether a release is yanked.
fn yanked(files: &Vec<bool>) -> (r: bool)
    ensures
        r == is_yanked(files@),
{
    for i in 0..files.len()
        invariant
            forall|j: int| 0 <= j < i ==> #[trigger] files@[j],
    {
        if !files[i] {
            return false;
        }
    }
    files.len() > 0
}

/// The lookup result for the releases that pypi.org lists; yanked ones do not
/// count.
pub fn pypi_releases(rows: &Vec<PypiRelease>) -> (r: VersionResult)
    ensures
        r@ == pypi_result(kept(rows@)),
{
    let ghost at = kept_at(rows@);
    let mut list: Vec<String> = Vec::new();
    assert(texts(list@) == gather(0, at));
    for i in 0..rows.len()
        invariant
            at == kept_at(rows@),
            texts(list@) == gather(i as int, at),
    {
        if yanked(&rows[i].files_yanked) {
            assert(at(i as int) is None);
        } else {
            let version = rows[i].version.clone();
            proof {
                lemma_texts_push(list@, version);
                assert(at(i as int) == Some(version@));
            }
            list.push(version);
        }
    }
    pypi_versions(&list)
}

/// Strips a comment, which a blank sets off, from a requirement line.
pub fn strip_inline_comment(line: &[char]) -> (r: &[char])
    ensures
        r@ == without_comment(line@),
{
    match position_str(line, " #") {
        Some(i) => trimmed_end(slice_subrange(line, 0, i)),
        None => line,
    }
}

/// Whether a text begins with a comparison.
pub fn starts_with_version_operator(s: &[char]) -> (r: bool)
    ensures
        r == begins_with_operator(s@),
{
    starts_with_str(s, "==") || starts_with_str(s, "!=") || starts_with_str(s, ">=")
        || starts_with_str(s, "<=") || starts_with_str(s, "~=") || starts_with_str(s, ">")
        || starts_with_str(s, "<")
}

/// Normalises a package name: lower case, with `_` for `-` and `.`.
pub fn normalize_name(name: &[char]) -> (r: Vec<char>)
    ensures
        r@ == normal_name(name@),
{
    let lower = lowercase_of(name);
    let mut out: Vec<char> = Vec::new();
    for i in 0..lower.len()
        invariant
            lower@ == lowercase(name@),
            out@ == normal_name(name@).take(i as int),
    {
        let c = lower[i];
        let d = if c == '-' || c == '.' {
            '_'
        } else {
            c
        };
        out.push(d);
        assert(out@ == normal_name(name@).take(i as int + 1));
    }
    assert(normal_name(name@).take(lower@.len() as int) == normal_name(name@));
    out
}

/// Normalises a package name given as a string.
pub fn normalize_pypi_name(name: &str) -> (r: String)
    ensures
        r@ == normal_name(name@),
{
    let cs = chars_of(name);
    let out = normalize_name(cs.as_slice());
    string_of(out.as_slice())
}

/// The length of the package name at the front of a requirement.
fn name_end(s: &[char]) -> (r: usize)
    ensures
        r == name_length(s@),
        r <= s@.len(),
{
    let ghost f = |c: char| !is_name_char(c);
    for i in 0..s.len()
        invariant
            f == (|c: char| !is_name_char(c)),
            forall|j: int| 0 <= j < i ==> !f(#[trigger] s@[j]),
    {
        let c = s[i];
        if !(letter(c) || digit(c) || c == '-' || c == '_' || c == '.') {
            proof {
                lemma_find_where_is(s@, f, i as int);
            }
            return i;
        }
        assert(!f(s@[i as int]));
    }
    proof {
        lemma_find_where_none(s@, f);
    }
    s.len()
}

/// The number of blanks at the front of a text.
fn blanks_end(s: &[char]) -> (r: usize)
    ensures
        r == blanks_length(s@),
        r <= s@.len(),
{
    let ghost f = |c: char| c != ' ';
    for i in 0..s.len()
        invariant
            f == (|c: char| c != ' '),
            forall|j: int| 0 <= j < i ==> !f(#[trigger] s@[j]),
    {
        if s[i] != ' ' {
            proof {
                lemma_find_where_is(s@, f, i as int);
            }
            return i;
        }
        assert(!f(s@[i as int]));
    }
    proof {
        lemma_find_where_none(s@, f);
    }
    s.len()
}

/// The length of the extras at the front of a text.
fn extras_end(s: &[char]) -> (r: usize)
    ensures
        r == extras_length(s@),
        r <= s@.len(),
{
    let size: usize = s.len();
    if starts_with_str(s, "[") {
        match position_char(s, ']') {
            Some(i) => i + 1,
            None => size,
        }
    } else {
        0
    }
}

/// Reads a requirement: the name, the constraint, and the index at which the
/// constraint begins.
fn read_requirement(s: &[char]) -> (r: Option<(Vec<char>, Vec<char>, usize)>)
    ensures
        match r {
            Some((name, constraint, start)) => requirement(s@) == Some(
                (name@, constraint@, start as int),
            ) && start <= s@.len(),
            None => requirement(s@) is None,
        },
{
    let name: usize = name_end(s);
    let behind_name = slice_subrange(s, name, s.len());
    assert(behind_name@ == s@.skip(name as int));
    let extras: usize = extras_end(behind_name);
    let behind_extras = slice_subrange(behind_name, extras, behind_name.len());
    assert(behind_extras@ == s@.skip(name + extras));
    let blanks: usize = blanks_end(behind_extras);
    let rest = slice_subrange(behind_extras, blanks, behind_extras.len());
    let size: usize = s.len();
    assert(name + extras + blanks <= size);
    let start: usize = name + extras + blanks;
    assert(rest@ == s@.skip(start as int));
    if name == 0 || !starts_with_version_operator(rest) {
        return None;
    }
    let mut constraint: Vec<char> = Vec::new();
    push_chars(&mut constraint, trimmed_end(rest));
    assert(constraint@ == trim_end(rest@));
    assert(s@.subrange(0, name as int) == s@.take(name as int));
    Some((normalize_name(slice_subrange(s, 0, name)), constraint, start))
}

/// Reads a single requirement such as `requests>=2.28.0` or
/// `Django[extra]~=4.2.0`.
///
/// Returns the normalised package name, the constraint, and the number of bytes
/// before the constraint.
pub fn parse_req_line(line: &str) -> (r: Option<(String, String, usize)>)
    ensures
        match r {
            Some((name, constraint, offset)) => requirement(line@) is Some && ({
                let (n, c, start) = requirement(line@)->0;
                name@ == n && constraint@ == c && offset == bytes(line@.take(start))
            }),
            None => requirement(line@) is None,
        },
{
    let cs = chars_of(line);
    match read_requirement(cs.as_slice()) {
        Some((name, constraint, start)) => {
            assert(cs@.subrange(0, start as int) == cs@.take(start as int));
            Some(
                (
                    string_of(name.as_slice()),
                    string_of(constraint.as_slice()),
                    byte_len(slice_subrange(cs.as_slice(), 0, start)),
                ),
            )
        },
        None => None,
    }
}

/// The constraint of a requirement stands where it begins.
pub proof fn lemma_requirement(s: Seq<char>)
    requires
        requirement(s) is Some,
        0 <= (requirement(s)->0).2 <= s.len(),
    ensures
        occurs_at(s, (requirement(s)->0).1, (requirement(s)->0).2),
{
    let start = constraint_start(s);
    lemma_trim_end_prefix(s.skip(start));
    let c = trim_end(s.skip(start));
    assert(s.subrange(start, start + c.len()) == s.skip(start).take(c.len() as int));
}

/// The constraint begins inside the requirement, behind the name.
pub proof fn lemma_constraint_start(s: Seq<char>)
    ensures
        0 <= name_length(s) <= constraint_start(s) <= s.len(),
{
    let f = |c: char| !is_name_char(c);
    let g = |c: char| c != ' ';
    lemma_find_where(s, f);
    let name = name_length(s);
    lemma_find_where(s.skip(name), is_char(']'));
    let extras = extras_length(s.skip(name));
    lemma_find_where(s.skip(name + extras), g);
}

/// A line without its comment stands at the front of the line.
proof fn lemma_without_comment(t: Seq<char>)
    ensures
        begins(t, without_comment(t)),
{
    lemma_find(t, " #"@);
    match find(t, " #"@) {
        Some(i) => {
            lemma_trim_end_prefix(t.take(i));
            assert(t.take(i).take(without_comment(t).len() as int) == t.take(
                without_comment(t).len() as int,
            ));
        },
        None => {
            assert(t.take(t.len() as int) == t);
        },
    }
}

/// A line without its comment and the white space around it stands in the line.
proof fn lemma_line_start(line: Seq<char>)
    ensures
        occurs_at(line, without_comment(trim(line)), line.len() - trim_start(line).len()),
{
    let u = trim_start(line);
    let t = trim(line);
    let e = without_comment(t);
    lemma_without_comment(t);
    lemma_trim_end_prefix(u);
    lemma_trim_start_suffix(line);
    let offset = line.len() - u.len();
    assert(line.subrange(offset, offset + e.len()) == u.take(t.len() as int).take(e.len() as int));
}

/// The constraint of a line stands where its dependency says.
proof fn lemma_line_constraint(line: Seq<char>)
    requires
        requirement(without_comment(trim(line))) is Some,
    ensures
        ({
            let (name, constraint, start) = requirement(without_comment(trim(line)))->0;
            let k = line.len() - trim_start(line).len() + start;
            &&& 0 <= start
            &&& occurs_at(line, constraint, k)
        }),
{
    let e = without_comment(trim(line));
    let (name, constraint, start) = requirement(e)->0;
    lemma_constraint_start(e);
    lemma_requirement(e);
    lemma_line_start(line);
    lemma_occurs_inside(line, e, line.len() - trim_start(line).len(), start, constraint);
}

/// The dependency that a line declares.
fn read_line(index: usize, line: &[char]) -> (r: Option<ParsedDependency>)
    ensures
        dependency_view(r) == line_dependency(index as int, line@),
{
    let t = trimmed(line);
    if t.len() == 0 || t[0] == '#' || t[0] == '-' || t[0] == '.' {
        return None;
    }
    match read_requirement(strip_inline_comment(t)) {
        Some((name, constraint, start)) => {
            let trim_offset: usize = start_of(line);
            let size: usize = line.len();
            proof {
                lemma_line_constraint(line@);
                assert(trim_offset == line@.len() - trim_start(line@).len());
            }
            let from: usize = trim_offset + start;
            let to: usize = from + constraint.len();
            let range = span_of(line, index, from, to);
            Some(
                ParsedDependency {
                    name: string_of(name.as_slice()),
                    version_constraint: string_of(constraint.as_slice()),
                    version_range: range,
                },
            )
        },
        None => None,
    }
}

/// Parses a `requirements.txt` and extracts the versioned dependencies.
pub fn parse_requirements_txt(content: &str) -> (r: Vec<ParsedDependency>)
    ensures
        dependencies_view(r@) == requirements_txt(content@),
{
    let cs = chars_of(content);
    let all_lines = lines_of(cs.as_slice());
    let ghost ls = lines(content@);
    let ghost at = line_at(ls);
    let mut deps: Vec<ParsedDependency> = Vec::new();
    assert(dependencies_view(deps@) == gather(0, at));
    for i in 0..all_lines.len()
        invariant
            ls == parts_view(all_lines@),
            at == line_at(ls),
            dependencies_view(deps@) == gather(i as int, at),
    {
        assert(ls[i as int] == all_lines@[i as int]@);
        let found = read_line(i, all_lines[i].as_slice());
        assert(dependency_view(found) == at(i as int));
        if let Some(dep) = found {
            proof {
                lemma_dependencies_push(deps@, dep);
            }
            deps.push(dep);
        }
    }
    deps
}

/// The address of an item of the list of requirements.
fn item_place(i: usize) -> (r: Vec<Place>)
    ensures
        address_view(r@) == item_address(i as int),
{
    let project = chars_of("project");
    let dependencies = chars_of("dependencies");
    let mut address: Vec<Place> = Vec::new();
    push_key(&mut address, project.as_slice());
    push_key(&mut address, dependencies.as_slice());
    let ghost before = address_view(address@);
    address.push(Place::Item(i));
    assert(before == under(seq!["project"@, "dependencies"@]));
    assert(address_view(address@) == before.push(PlaceView::Item(i as int)));
    address
}

/// The dependency that an item of the list of requirements declares.
fn read_item(outline: &Outline, i: usize, item: &Node) -> (r: Option<ParsedDependency>)
    requires
        outline.valid(),
        outline.strings() == toml_outline(outline.rows()),
    ensures
        dependency_view(r) == item_dependency(outline.rows(), i as int, item@),
{
    match item {
        Node::Text(text) => {
            let cs = chars_of(text.as_str());
            match read_requirement(cs.as_slice()) {
                Some((name, constraint, start)) => {
                    proof {
                        lemma_requirement(cs@);
                    }
                    let address = item_place(i);
                    let range = outline.locate(
                        &address,
                        cs.as_slice(),
                        start,
                        constraint.as_slice(),
                    );
                    dependency(name.as_slice(), constraint.as_slice(), range)
                },
                None => None,
            }
        },
        _ => None,
    }
}

/// The dependencies that the list under `project` declares.
fn read_project(outline: &Outline, document: &Node) -> (r: Vec<ParsedDependency>)
    requires
        outline.valid(),
        outline.strings() == toml_outline(outline.rows()),
    ensures
        dependencies_view(r@) == project_dependencies(document@, outline.rows()),
{
    let found = match document.get_str("project") {
        Some(project) => project.get_str("dependencies"),
        None => None,
    };
    proof {
        let keys = seq!["project"@, "dependencies"@];
        assert(keys.skip(1) == seq!["dependencies"@]);
        assert(keys.skip(1).skip(1) == Seq::<Seq<char>>::empty());
        reveal_with_fuel(NodeView::follow, 3);
        assert(document@.follow(keys) == node_ref_view(found));
    }
    let ghost ls = outline.rows();
    let ghost items = items_of(node_ref_view(found));
    let ghost at = item_at(ls, items);
    let mut deps: Vec<ParsedDependency> = Vec::new();
    assert(dependencies_view(deps@) == gather(0, at));
    if let Some(list) = items_in(found) {
        for i in 0..list.len()
            invariant
                outline.valid(),
                outline.strings() == toml_outline(outline.rows()),
                ls == outline.rows(),
                items == items_view(list@),
                at == item_at(ls, items),
                dependencies_view(deps@) == gather(i as int, at),
        {
            assert(items[i as int] == list@[i as int]@);
            let found = read_item(outline, i, &list[i]);
            assert(dependency_view(found) == at(i as int));
            if let Some(dep) = found {
                proof {
                    lemma_dependencies_push(deps@, dep);
                }
                deps.push(dep);
            }
        }
    }
    deps
}

/// The dependencies that Poetry's table declares.
fn read_poetry(outline: &Outline, document: &Node) -> (r: Vec<ParsedDependency>)
    requires
        outline.valid(),
        outline.strings() == toml_outline(outline.rows()),
    ensures
        dependencies_view(r@) == poetry_dependencies(document@, outline.rows()),
{
    let found = match document.get_str("tool") {
        Some(tool) => match tool.get_str("poetry") {
            Some(poetry) => poetry.get_str("dependencies"),
            None => None,
        },
        None => None,
    };
    proof {
        let keys = seq!["tool"@, "poetry"@, "dependencies"@];
        assert(keys.skip(1) == seq!["poetry"@, "dependencies"@]);
        assert(keys.skip(1).skip(1) == seq!["dependencies"@]);
        assert(keys.skip(1).skip(1).skip(1) == Seq::<Seq<char>>::empty());
        reveal_with_fuel(NodeView::follow, 4);
        assert(document@.follow(keys) == node_ref_view(found));
    }
    let ghost ls = outline.rows();
    let ghost entries = entries_of(node_ref_view(found));
    let ghost at = poetry_at(ls, entries);
    let mut deps: Vec<ParsedDependency> = Vec::new();
    assert(dependencies_view(deps@) == gather(0, at));
    if let Some(list) = entries_in(found) {
        for i in 0..list.len()
            invariant
                outline.valid(),
                outline.strings() == toml_outline(outline.rows()),
                ls == outline.rows(),
                entries == entries_view(list@),
                at == poetry_at(ls, entries),
                dependencies_view(deps@) == gather(i as int, at),
        {
            assert(entries[i as int] == (list@[i as int].0@, list@[i as int].1@));
            let name = chars_of(list[i].0.as_str());
            let mut found: Option<ParsedDependency> = None;
            if !spells(name.as_slice(), "python") {
                if let Some(version) = extract_toml_version(&list[i].1) {
                    let constraint = chars_of(version.as_str());
                    let range = find_toml_version_range(
                        outline,
                        "tool.poetry.dependencies",
                        name.as_slice(),
                        &list[i].1,
                        constraint.as_slice(),
                    );
                    let normal = normalize_name(name.as_slice());
                    found = dependency(normal.as_slice(), constraint.as_slice(), range);
                }
            }
            assert(dependency_view(found) == at(i as int));
            if let Some(dep) = found {
                proof {
                    lemma_dependencies_push(deps@, dep);
                }
                deps.push(dep);
            }
        }
    }
    deps
}

/// The dependencies of a `pyproject.toml`, given what it holds.
pub fn dependencies_in(document: &Node, content: &str) -> (r: Vec<ParsedDependency>)
    ensures
        dependencies_view(r@) == pyproject_dependencies(document@, content@),
{
    let cs = chars_of(content);
    let outline = outline_toml(lines_of(cs.as_slice()));
    let mut deps = read_project(&outline, document);
    let mut more = read_poetry(&outline, document);
    proof {
        lemma_dependencies_append(deps@, more@);
    }
    deps.append(&mut more);
    deps
}

/// Parses a `pyproject.toml` and extracts the versioned dependencies, of the
/// `project` list and of Poetry's table.
pub fn parse_pyproject_toml(content: &str) -> (r: Vec<ParsedDependency>)
    ensures
        dependencies_view(r@) == pyproject_toml(content@),
{
    match parse_toml(content) {
        Some(document) => dependencies_in(&document, content),
        None => {
            let deps: Vec<ParsedDependency> = Vec::new();
            assert(dependencies_view(deps@) == Seq::<DependencyView>::empty());
            deps
        },
    }
}

/// A dependency is what line `i` of a `requirements.txt` declares, and its
/// constraint stands there, behind the name.
pub open spec fn is_line(lines: Seq<Seq<char>>, dep: DependencyView, i: int) -> bool {
    let line = lines[i];
    let t = without_comment(trim(line));
    let start = constraint_start(t);
    &&& 0 <= i < lines.len()
    &&& dep.name == normal_name(t.take(name_length(t)))
    &&& 0 < name_length(t) <= start
    &&& stands_at(
        lines,
        dep.range,
        dep.constraint,
        i,
        line.len() - trim_start(line).len() + start,
    )
}

/// A dependency stands on a line that declares it.
pub open spec fn has_line(lines: Seq<Seq<char>>, dep: DependencyView) -> bool {
    exists|i: int| is_line(lines, dep, i)
}

/// In a `requirements.txt` each dependency stands on its own line.
pub proof fn law_requirements_lines(content: Seq<char>)
    ensures
        ({
            let deps = requirements_txt(content);
            forall|k: int|
                0 <= k < deps.len() ==> has_line(lines(content), #[trigger] deps[k])
        }),
{
    let ls = lines(content);
    let deps = requirements_txt(content);
    let at = line_at(ls);
    assert forall|k: int| 0 <= k < deps.len() implies has_line(ls, #[trigger] deps[k]) by {
        lemma_gather(ls.len() as int, at, k);
        let i = choose|i: int| 0 <= i < ls.len() && #[trigger] at(i) == Some(deps[k]);
        lemma_line_constraint(ls[i]);
        lemma_constraint_start(without_comment(trim(ls[i])));
        assert(is_line(ls, deps[k], i));
    }
}

/// In a `requirements.txt` the range of each dependency covers exactly its
/// constraint, behind its name.
pub proof fn law_requirements_ranges(content: Seq<char>)
    ensures
        all_declared(lines(content), requirements_txt(content)),
{
    let ls = lines(content);
    let deps = requirements_txt(content);
    law_requirements_lines(content);
    assert forall|k: int| 0 <= k < deps.len() implies is_declared(ls, #[trigger] deps[k]) by {
        let i = choose|i: int| is_line(ls, deps[k], i);
        let line = ls[i];
        let t = without_comment(trim(line));
        let indent = line.len() - trim_start(line).len();
        let name = t.take(name_length(t));
        lemma_line_start(line);
        lemma_constraint_start(t);
        assert(t.subrange(0, name.len() as int) == name);
        lemma_occurs_inside(line, t, indent, 0, name);
        let written = KeyView { text: name, line: i, at: indent };
        assert(is_declared_at(ls, deps[k], i, indent + constraint_start(t), written));
    }
}

/// A dependency is what item `i` of the list under `project` declares, and its
/// constraint stands in that item, behind the name.
pub open spec fn is_item(
    lines: Seq<Seq<char>>,
    items: Seq<NodeView>,
    dep: DependencyView,
    i: int,
    spot: SpotView,
) -> bool {
    let text = items[i]->Text_0;
    let start = constraint_start(text);
    &&& 0 <= i < items.len()
    &&& items[i] is Text
    &&& dep.name == normal_name(text.take(name_length(text)))
    &&& 0 < name_length(text) <= start
    &&& lies_in(
        lines,
        toml_outline(lines),
        spot,
        item_address(i),
        text,
        start,
        dep.constraint,
        dep.range,
    )
}

/// A dependency stands in an item that declares it.
pub open spec fn has_item(
    lines: Seq<Seq<char>>,
    items: Seq<NodeView>,
    dep: DependencyView,
) -> bool {
    exists|i: int, spot: SpotView| is_item(lines, items, dep, i, spot)
}

/// In a `pyproject.toml` each dependency of the list under `project` stands in
/// its own item.
pub proof fn law_project_items(document: NodeView, lines: Seq<Seq<char>>)
    ensures
        ({
            let deps = project_dependencies(document, lines);
            let items = items_of(document.follow(seq!["project"@, "dependencies"@]));
            forall|k: int|
                0 <= k < deps.len() ==> has_item(lines, items, #[trigger] deps[k])
        }),
{
    let deps = project_dependencies(document, lines);
    let items = items_of(document.follow(seq!["project"@, "dependencies"@]));
    let at = item_at(lines, items);
    law_toml_outline_placed(lines);
    assert forall|k: int| 0 <= k < deps.len() implies has_item(
        lines,
        items,
        #[trigger] deps[k],
    ) by {
        lemma_gather(items.len() as int, at, k);
        let i = choose|i: int| 0 <= i < items.len() && #[trigger] at(i) == Some(deps[k]);
        let text = items[i]->Text_0;
        let (name, constraint, start) = requirement(text)->0;
        lemma_constraint_start(text);
        lemma_requirement(text);
        lemma_located(lines, toml_outline(lines), item_address(i), text, start, constraint);
        let spot = spot_of(toml_outline(lines), item_address(i), text)->0;
        assert(is_item(lines, items, deps[k], i, spot));
    }
}

/// A dependency stands at an entry of Poetry's table that declares it under a
/// form of its name.
pub open spec fn has_poetry_entry(
    lines: Seq<Seq<char>>,
    entries: Seq<(Seq<char>, NodeView)>,
    dep: DependencyView,
) -> bool {
    exists|e: int, spot: SpotView|
        0 <= e < entries.len() && dep.name == normal_name(entries[e].0) && #[trigger] is_entry(
            lines,
            "tool.poetry.dependencies"@,
            entries[e].0,
            entries[e].1,
            dep,
            spot,
        )
}

/// In a `pyproject.toml` each dependency of Poetry's table stands at its own
/// entry.
pub proof fn law_poetry_entries(document: NodeView, lines: Seq<Seq<char>>)
    ensures
        ({
            let deps = poetry_dependencies(document, lines);
            let entries = entries_of(document.follow(seq!["tool"@, "poetry"@, "dependencies"@]));
            forall|k: int|
                0 <= k < deps.len() ==> has_poetry_entry(lines, entries, #[trigger] deps[k])
        }),
{
    let deps = poetry_dependencies(document, lines);
    let entries = entries_of(document.follow(seq!["tool"@, "poetry"@, "dependencies"@]));
    let at = poetry_at(lines, entries);
    let section = "tool.poetry.dependencies"@;
    assert forall|k: int| 0 <= k < deps.len() implies has_poetry_entry(
        lines,
        entries,
        #[trigger] deps[k],
    ) by {
        lemma_gather(entries.len() as int, at, k);
        let e = choose|e: int| 0 <= e < entries.len() && #[trigger] at(e) == Some(deps[k]);
        lemma_toml_range(lines, section, entries[e].0, entries[e].1, deps[k]);
    }
}

/// In a `pyproject.toml` the range of each dependency covers exactly its
/// constraint, behind its name.
pub proof fn law_pyproject_ranges(document: NodeView, content: Seq<char>)
    ensures
        all_declared(lines(content), pyproject_dependencies(document, content)),
{
    let ls = lines(content);
    let first = project_dependencies(document, ls);
    let second = poetry_dependencies(document, ls);
    let items = items_of(document.follow(seq!["project"@, "dependencies"@]));
    let entries = entries_of(document.follow(seq!["tool"@, "poetry"@, "dependencies"@]));
    law_project_items(document, ls);
    law_poetry_entries(document, ls);
    assert forall|k: int| 0 <= k < first.len() implies is_declared(ls, #[trigger] first[k]) by {
        let (i, spot) = choose|i: int, spot: SpotView| is_item(ls, items, first[k], i, spot);
        let text = items[i]->Text_0;
        let name = text.take(name_length(text));
        let start = constraint_start(text);
        lemma_constraint_start(text);
        assert(text.subrange(0, name.len() as int) == name);
        let written = lemma_text_before(ls, spot, name, 0, start);
        assert(is_declared_at(ls, first[k], spot.line, spot.at + start, written));
    }
    assert forall|k: int| 0 <= k < second.len() implies is_declared(ls, #[trigger] second[k]) by {
        let dep = second[k];
        assert(has_poetry_entry(ls, entries, dep));
        let (e, spot) = choose|e: int, spot: SpotView|
            0 <= e < entries.len() && dep.name == normal_name(entries[e].0) && #[trigger] is_entry(
                ls,
                "tool.poetry.dependencies"@,
                entries[e].0,
                entries[e].1,
                dep,
                spot,
            );
        lemma_entry_declared(
            ls,
            "tool.poetry.dependencies"@,
            entries[e].0,
            entries[e].1,
            dep,
            spot,
        );
    }
}

/// The same for the text of a `pyproject.toml`.
pub proof fn law_pyproject_toml_ranges(content: Seq<char>)
    ensures
        all_declared(lines(content), pyproject_toml(content)),
{
    if let Some(document) = toml_document(content) {
        law_pyproject_ranges(document, content);
    }
}

/// PyPI: versions come from pypi.org.
#[derive(Debug)]
pub struct PypiProvider {}

impl PypiProvider {
    /// The provider.
    pub fn new() -> (r: Self)
        ensures
            r == (PypiProvider {}),
    {
        PypiProvider {}
    }

    /// The provider made ready for a registry.
    pub fn shared(self) -> (r: Registered)
        ensures
            acts_like(&r.provider, self),
    {
        Registered { provider: Box::new(self) }
    }
}

impl Provider for PypiProvider {
    open spec fn patterns(&self) -> Seq<Seq<char>> {
        seq!["requirements.txt"@, "pyproject.toml"@]
    }

    open spec fn title(&self) -> Seq<char> {
        "pypi"@
    }

    open spec fn dependencies(&self, uri: Seq<char>, content: Seq<char>) -> Seq<DependencyView> {
        if ends(uri, "requirements.txt"@) {
            requirements_txt(content)
        } else if ends(uri, "pyproject.toml"@) {
            pyproject_toml(content)
        } else {
            seq![]
        }
    }

    open spec fn normal_form(&self, constraint: Seq<char>) -> Seq<char> {
        python_form(constraint)
    }

    open spec fn question(&self, package: Seq<char>) -> Option<RequestView> {
        Some(plain_question(Registry::PyPi, "https://pypi.org/pypi/"@, package, "/json"@))
    }

    fn file_patterns(&self) -> (r: Vec<&'static str>) {
        let mut out: Vec<&'static str> = Vec::new();
        out.push("requirements.txt");
        out.push("pyproject.toml");
        assert(pattern_texts(out@) == self.patterns());
        out
    }

    fn parse_dependencies(&self, uri: &str, content: &str) -> (r: Vec<ParsedDependency>) {
        let cs = chars_of(uri);
        if ends_with_str(cs.as_slice(), "requirements.txt") {
            parse_requirements_txt(content)
        } else if ends_with_str(cs.as_slice(), "pyproject.toml") {
            parse_pyproject_toml(content)
        } else {
            let deps: Vec<ParsedDependency> = Vec::new();
            assert(dependencies_view(deps@) == Seq::<DependencyView>::empty());
            deps
        }
    }

    fn version_request(&self, package_name: &str) -> (r: Option<VersionRequest>) {
        let cs = chars_of(package_name);
        Some(plain_request(Registry::PyPi, "https://pypi.org/pypi/", cs.as_slice(), "/json"))
    }

    fn name(&self) -> (r: &str) {
        "pypi"
    }

    fn normalize_constraint(&self, constraint: &str) -> (r: String) {
        python(constraint)
    }
}

} // verus!
