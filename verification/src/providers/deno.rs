//! Deno: `deno.json`, import maps, and the registries that they name.
use vstd::prelude::*;
use vstd::slice::slice_subrange;
use super::{
    acts_like, all_declared, dependencies_view, dependency, dependency_at, dependency_view,
    is_declared, is_declared_at, lemma_dependencies_append, lemma_dependencies_push, pattern_texts,
    DependencyView, ParsedDependency, Provider, Registered,
};
use super::npm::{alias_at, alias_index, lemma_alias_at};
use super::registry::{listed_result, result_for};
use super::request::{
    npm_question, npm_request, plain_question, plain_request, Registry, RequestView, VersionRequest,
};
use crate::cache::VersionResult;
use crate::document::{
    entries_in, entries_of, entries_view, json_document, node_ref_view, parse_json, Node, NodeView,
};
use crate::listing::{gather, join, lemma_gather, lemma_join};
use crate::locate::Range;
use crate::outline::{
    address_under, address_view, copy_text, lemma_located, lemma_text_before, lies_in, located,
    push_key, spot_of, under, Outline, Place, PlaceView, SpotView,
};
use crate::outline::json::{json_outline, law_json_outline_placed, outline_json};
use crate::text::chars::{
    chars_of, digit, is_digit, lemma_texts_push, push_chars, push_str, string_of, texts,
};
use crate::text::comments::{law_comments_come_off, strip, uncommented, CommentStyle};
use crate::text::lines::{lines, lines_of};
use crate::text::search::{
    after, after_prefix, begins, ends, ends_with_str, find_char, is_char, lemma_find_where,
    lemma_parts_push, occurs_at, parts_view, position_char, starts_with_str,
};
use crate::version_utils::normalize::deno;
use crate::version_utils::normalize::deno::deno_form;

verus! {

/// A text that begins like a version constraint.
pub open spec fn begins_version(s: Seq<char>) -> bool {
    s.len() > 0 && (is_digit(s[0]) || s[0] == '^' || s[0] == '~' || s[0] == '>' || s[0] == '<'
        || s[0] == '=' || s[0] == 'v')
}

/// What stands before the first slash of a text.
pub open spec fn first_segment(s: Seq<char>) -> Seq<char> {
    match find_char(s, '/') {
        Some(i) => s.take(i),
        None => s,
    }
}

/// A version text without its leading `v`.
pub open spec fn unprefixed(s: Seq<char>) -> Seq<char> {
    if begins(s, "v"@) {
        after(s, "v"@)
    } else {
        s
    }
}

/// Where the version of a JSR package begins: the index of the `@` behind
/// `@scope/name`.
pub open spec fn jsr_at(rest: Seq<char>) -> Option<int> {
    if begins(rest, "@"@) {
        match find_char(rest, '/') {
            Some(slash) => match find_char(rest.skip(slash + 1), '@') {
                Some(i) => Some(slash + 1 + i),
                None => None,
            },
            None => None,
        }
    } else {
        None
    }
}

/// What a specifier `jsr:@scope/name@constraint` names.
pub open spec fn jsr_specifier(s: Seq<char>) -> Option<(Seq<char>, Seq<char>)> {
    let rest = after(s, "jsr:"@);
    if begins(s, "jsr:"@) && jsr_at(rest) is Some && begins_version(
        rest.skip(jsr_at(rest)->0 + 1),
    ) {
        let at = jsr_at(rest)->0;
        Some(("jsr:"@ + rest.take(at), first_segment(rest.skip(at + 1))))
    } else {
        None
    }
}

/// What a specifier `npm:package@constraint` names.
pub open spec fn npm_specifier(s: Seq<char>) -> Option<(Seq<char>, Seq<char>)> {
    let rest = after(s, "npm:"@);
    if begins(s, "npm:"@) && alias_at(rest) is Some && begins_version(
        rest.skip(alias_at(rest)->0 + 1),
    ) {
        let at = alias_at(rest)->0;
        Some(("npm:"@ + rest.take(at), rest.skip(at + 1)))
    } else {
        None
    }
}

/// What an address `https://deno.land/x/package@version` names, with or
/// without a path behind it.
pub open spec fn deno_land_specifier(s: Seq<char>) -> Option<(Seq<char>, Seq<char>)> {
    let rest = after(s, "https://deno.land/x/"@);
    if begins(s, "https://deno.land/x/"@) && find_char(rest, '@') is Some {
        let at = find_char(rest, '@')->0;
        let version = first_segment(rest.skip(at + 1));
        let bare = unprefixed(version);
        if at > 0 && bare.len() > 0 && is_digit(bare[0]) {
            Some(("deno:"@ + rest.take(at), version))
        } else {
            None
        }
    } else {
        None
    }
}

/// What a specifier names: a package with its registry, and a constraint.
pub open spec fn specifier(s: Seq<char>) -> Option<(Seq<char>, Seq<char>)> {
    match jsr_specifier(s) {
        Some(found) => Some(found),
        None => match npm_specifier(s) {
            Some(found) => Some(found),
            None => deno_land_specifier(s),
        },
    }
}

/// Where the constraint of a specifier begins: behind the `@` that ends the
/// package name. Only an address writes the name of its registry otherwise.
pub open spec fn constraint_start(specifier: Seq<char>, name: Seq<char>) -> int {
    if begins(specifier, "https://deno.land/x/"@) {
        name.len() - "deno:"@.len() + "https://deno.land/x/"@.len() + 1
    } else {
        name.len() as int + 1
    }
}

/// Where the constraint stands in the value of an import.
pub open spec fn constraint_range(
    lines: Seq<Seq<char>>,
    address: Seq<PlaceView>,
    specifier: Seq<char>,
    name: Seq<char>,
    constraint: Seq<char>,
) -> Option<Range> {
    located(
        lines,
        json_outline(lines),
        address,
        specifier,
        constraint_start(specifier, name),
        constraint,
    )
}

/// The dependency that an import declares. One that ends with a slash maps a
/// path and declares none.
pub open spec fn import_dependency(
    lines: Seq<Seq<char>>,
    address: Seq<PlaceView>,
    value: NodeView,
) -> Option<DependencyView> {
    match value {
        NodeView::Text(s) => if ends(s, "/"@) {
            None
        } else {
            match specifier(s) {
                Some((name, constraint)) => dependency_at(
                    name,
                    constraint,
                    constraint_range(lines, address, s, name, constraint),
                ),
                None => None,
            }
        },
        _ => None,
    }
}

/// The same by the number of the entry, for the table under some keys.
pub open spec fn import_at(
    lines: Seq<Seq<char>>,
    keys: Seq<Seq<char>>,
    entries: Seq<(Seq<char>, NodeView)>,
) -> spec_fn(int) -> Option<DependencyView> {
    |i: int| import_dependency(lines, under(keys.push(entries[i].0)), entries[i].1)
}

/// The dependencies that a table of imports under some keys declares.
pub open spec fn imports(
    lines: Seq<Seq<char>>,
    keys: Seq<Seq<char>>,
    table: Option<NodeView>,
) -> Seq<DependencyView> {
    gather(entries_of(table).len() as int, import_at(lines, keys, entries_of(table)))
}

/// The dependencies of the scopes, by their number.
pub open spec fn scope_at(
    lines: Seq<Seq<char>>,
    scopes: Seq<(Seq<char>, NodeView)>,
) -> spec_fn(int) -> Seq<DependencyView> {
    |i: int| imports(lines, seq!["scopes"@, scopes[i].0], Some(scopes[i].1))
}

/// The lines of a document without their comments.
pub open spec fn clean_lines(content: Seq<char>) -> Seq<Seq<char>> {
    lines(content).map_values(|line: Seq<char>| uncommented(CommentStyle::Slashes, line))
}

/// The dependencies of a Deno configuration, given what it holds.
pub open spec fn deno_dependencies(document: NodeView, content: Seq<char>) -> Seq<DependencyView> {
    let ls = clean_lines(content);
    let scopes = entries_of(document.get("scopes"@));
    imports(ls, seq!["imports"@], document.get("imports"@)) + join(
        scopes.len() as int,
        scope_at(ls, scopes),
    )
}

/// The lines without their comments, by their number, each with a line feed.
pub open spec fn uncommented_at(lines: Seq<Seq<char>>) -> spec_fn(int) -> Seq<char> {
    |i: int| uncommented(CommentStyle::Slashes, lines[i]).push('\n')
}

/// A document without its comments.
pub open spec fn without_comments(content: Seq<char>) -> Seq<char> {
    join(lines(content).len() as int, uncommented_at(lines(content)))
}

/// The dependencies of a Deno configuration; none where it is no JSON once its
/// comments are off.
pub open spec fn deno_config(content: Seq<char>) -> Seq<DependencyView> {
    match json_document(without_comments(content)) {
        Some(document) => deno_dependencies(document, content),
        None => seq![],
    }
}

/// The version texts of deno.land without their `v`.
pub open spec fn unprefixed_all(list: Seq<Seq<char>>) -> Seq<Seq<char>> {
    list.map_values(|s: Seq<char>| unprefixed(s))
}

/// Whether a text begins like a version constraint.
pub fn is_version_start(s: &[char]) -> (r: bool)
    ensures
        r == begins_version(s@),
{
    s.len() > 0 && (digit(s[0]) || s[0] == '^' || s[0] == '~' || s[0] == '>' || s[0] == '<' || s[0]
        == '=' || s[0] == 'v')
}

/// What stands before the first slash of a text.
fn segment(s: &[char]) -> (r: &[char])
    ensures
        r@ == first_segment(s@),
{
    match position_char(s, '/') {
        Some(i) => {
            assert(s@.subrange(0, i as int) == s@.take(i as int));
            slice_subrange(s, 0, i)
        },
        None => s,
    }
}

/// The view of what a specifier names.
pub open spec fn pair_view(p: Option<(String, String)>) -> Option<(Seq<char>, Seq<char>)> {
    match p {
        Some((a, b)) => Some((a@, b@)),
        None => None,
    }
}

/// A package name behind the name of its registry, and a constraint.
fn pair(registry: &str, name: &[char], constraint: &[char]) -> (r: (String, String))
    ensures
        r.0@ == registry@ + name@,
        r.1@ == constraint@,
{
    let mut out: Vec<char> = Vec::new();
    push_str(&mut out, registry);
    push_chars(&mut out, name);
    assert(out@ == registry@ + name@);
    (string_of(out.as_slice()), string_of(constraint))
}

/// Reads a specifier `jsr:@scope/name@constraint`. A path behind the
/// constraint comes off.
pub fn parse_jsr_specifier(specifier: &str) -> (r: Option<(String, String)>)
    ensures
        pair_view(r) == jsr_specifier(specifier@),
{
    let cs = chars_of(specifier);
    let rest = match after_prefix(cs.as_slice(), "jsr:") {
        Some(rest) => rest,
        None => return None,
    };
    if !starts_with_str(rest, "@") {
        return None;
    }
    let slash: usize = match position_char(rest, '/') {
        Some(i) => i,
        None => return None,
    };
    let size: usize = rest.len();
    let behind = slice_subrange(rest, slash + 1, size);
    assert(behind@ == rest@.skip(slash + 1));
    let at: usize = match position_char(behind, '@') {
        Some(i) => slash + 1 + i,
        None => return None,
    };
    let name = slice_subrange(rest, 0, at);
    let constraint = slice_subrange(rest, at + 1, size);
    assert(name@ == rest@.take(at as int));
    assert(constraint@ == rest@.skip(at + 1));
    if !is_version_start(constraint) {
        return None;
    }
    Some(pair("jsr:", name, segment(constraint)))
}

/// Reads a specifier `npm:package@constraint`.
pub fn parse_npm_specifier(specifier: &str) -> (r: Option<(String, String)>)
    ensures
        pair_view(r) == npm_specifier(specifier@),
{
    let cs = chars_of(specifier);
    let rest = match after_prefix(cs.as_slice(), "npm:") {
        Some(rest) => rest,
        None => return None,
    };
    let at: usize = match alias_index(rest) {
        Some(i) => i,
        None => return None,
    };
    let size: usize = rest.len();
    let name = slice_subrange(rest, 0, at);
    let constraint = slice_subrange(rest, at + 1, size);
    assert(name@ == rest@.take(at as int));
    assert(constraint@ == rest@.skip(at + 1));
    if !is_version_start(constraint) {
        return None;
    }
    Some(pair("npm:", name, constraint))
}

/// Reads an address `https://deno.land/x/package@version`.
pub fn parse_deno_land_url(url: &str) -> (r: Option<(String, String)>)
    ensures
        pair_view(r) == deno_land_specifier(url@),
{
    let cs = chars_of(url);
    let rest = match after_prefix(cs.as_slice(), "https://deno.land/x/") {
        Some(rest) => rest,
        None => return None,
    };
    let at: usize = match position_char(rest, '@') {
        Some(i) => i,
        None => return None,
    };
    let size: usize = rest.len();
    let name = slice_subrange(rest, 0, at);
    let behind = slice_subrange(rest, at + 1, size);
    assert(name@ == rest@.take(at as int));
    assert(behind@ == rest@.skip(at + 1));
    let version = segment(behind);
    let bare = match after_prefix(version, "v") {
        Some(bare) => bare,
        None => version,
    };
    if at == 0 || bare.len() == 0 || !digit(bare[0]) {
        return None;
    }
    Some(pair("deno:", name, version))
}

/// The constraint of a specifier stands behind the `@` that ends the package
/// name, and the name stands before that.
pub proof fn law_constraint_behind_name(s: Seq<char>)
    requires
        specifier(s) is Some,
    ensures
        ({
            let (name, constraint) = specifier(s)->0;
            let start = constraint_start(s, name);
            &&& 0 < start
            &&& s[start - 1] == '@'
            &&& occurs_at(s, constraint, start)
            &&& if begins(s, "https://deno.land/x/"@) {
                let package = after(name, "deno:"@);
                name == "deno:"@ + package && s.take(start - 1) == "https://deno.land/x/"@ + package
            } else {
                s.take(start - 1) == name
            }
        }),
{
    reveal_strlit("jsr:");
    reveal_strlit("npm:");
    reveal_strlit("deno:");
    reveal_strlit("https://deno.land/x/");
    let (name, constraint) = specifier(s)->0;
    let start = constraint_start(s, name);
    if jsr_specifier(s) is Some {
        let rest = after(s, "jsr:"@);
        let slash = find_char(rest, '/')->0;
        lemma_find_where(rest, is_char('/'));
        lemma_find_where(rest.skip(slash + 1), is_char('@'));
        lemma_first_segment(rest.skip(jsr_at(rest)->0 + 1));
        lemma_behind(s, "jsr:"@, jsr_at(rest)->0, constraint);
        assert(s[0] == s.take(4)[0]);
        assert(!begins(s, "https://deno.land/x/"@)) by {
            if s.len() >= 20 {
                assert(s.take(20)[0] == s[0]);
            }
        }
    } else if npm_specifier(s) is Some {
        let rest = after(s, "npm:"@);
        lemma_alias_at(rest);
        assert(begins(rest.skip(alias_at(rest)->0 + 1), constraint)) by {
            assert(constraint.take(constraint.len() as int) == constraint);
        }
        lemma_behind(s, "npm:"@, alias_at(rest)->0, constraint);
        assert(s[0] == s.take(4)[0]);
        assert(!begins(s, "https://deno.land/x/"@)) by {
            if s.len() >= 20 {
                assert(s.take(20)[0] == s[0]);
            }
        }
    } else {
        let rest = after(s, "https://deno.land/x/"@);
        lemma_find_where(rest, is_char('@'));
        lemma_first_segment(rest.skip(find_char(rest, '@')->0 + 1));
        lemma_behind(s, "https://deno.land/x/"@, find_char(rest, '@')->0, constraint);
        assert(after(name, "deno:"@) == rest.take(find_char(rest, '@')->0));
    }
}

/// What stands behind a mark and an index of the rest.
proof fn lemma_behind(s: Seq<char>, mark: Seq<char>, at: int, constraint: Seq<char>)
    requires
        begins(s, mark),
        0 <= at < after(s, mark).len(),
        begins(after(s, mark).skip(at + 1), constraint),
    ensures
        s.take(mark.len() + at) == mark + after(s, mark).take(at),
        s[mark.len() + at] == after(s, mark)[at],
        occurs_at(s, constraint, mark.len() + at + 1),
{
    let k = mark.len() + at + 1;
    assert(s.subrange(k, k + constraint.len()) == after(s, mark).skip(at + 1).take(
        constraint.len() as int,
    ));
    assert(s.take(mark.len() + at) == s.take(mark.len() as int) + after(s, mark).take(at));
}

/// The first segment of a text stands at its front.
proof fn lemma_first_segment(s: Seq<char>)
    ensures
        begins(s, first_segment(s)),
{
    lemma_find_where(s, is_char('/'));
    assert(s.take(s.len() as int) == s);
}

/// Finds the range of the constraint in the value of an import.
pub fn find_constraint_range_in_specifier(
    outline: &Outline,
    address: &Vec<Place>,
    specifier: &[char],
    name: &[char],
    constraint: &[char],
) -> (r: Option<Range>)
    requires
        outline.valid(),
        outline.strings() == json_outline(outline.rows()),
        self::specifier(specifier@) == Some((name@, constraint@)),
    ensures
        r == constraint_range(
            outline.rows(),
            address_view(address@),
            specifier@,
            name@,
            constraint@,
        ),
{
    proof {
        law_constraint_behind_name(specifier@);
        reveal_strlit("deno:");
        reveal_strlit("https://deno.land/x/");
    }
    let size: usize = specifier.len();
    let start: usize = if starts_with_str(specifier, "https://deno.land/x/") {
        name.len() + (21 - 5)
    } else {
        name.len() + 1
    };
    outline.locate(address, specifier, start, constraint)
}

/// The dependency that an import declares.
fn import(outline: &Outline, address: &Vec<Place>, value: &Node) -> (r: Option<ParsedDependency>)
    requires
        outline.valid(),
        outline.strings() == json_outline(outline.rows()),
    ensures
        dependency_view(r) == import_dependency(outline.rows(), address_view(address@), value@),
{
    match value {
        Node::Text(text) => {
            let cs = chars_of(text.as_str());
            if ends_with_str(cs.as_slice(), "/") {
                return None;
            }
            let found = match parse_jsr_specifier(text.as_str()) {
                Some(found) => Some(found),
                None => match parse_npm_specifier(text.as_str()) {
                    Some(found) => Some(found),
                    None => parse_deno_land_url(text.as_str()),
                },
            };
            match found {
                Some((name, version)) => {
                    let n = chars_of(name.as_str());
                    let constraint = chars_of(version.as_str());
                    let range = find_constraint_range_in_specifier(
                        outline,
                        address,
                        cs.as_slice(),
                        n.as_slice(),
                        constraint.as_slice(),
                    );
                    dependency(n.as_slice(), constraint.as_slice(), range)
                },
                None => None,
            }
        },
        _ => None,
    }
}

/// Extracts the dependencies from a table of imports under some keys.
pub fn extract_deps_from_imports(
    outline: &Outline,
    keys: &Vec<Vec<char>>,
    table: Option<&Node>,
) -> (r: Vec<ParsedDependency>)
    requires
        outline.valid(),
        outline.strings() == json_outline(outline.rows()),
    ensures
        dependencies_view(r@) == imports(outline.rows(), parts_view(keys@), node_ref_view(table)),
{
    let mut deps: Vec<ParsedDependency> = Vec::new();
    let ghost ls = outline.rows();
    let ghost prefix = parts_view(keys@);
    let ghost entries = entries_of(node_ref_view(table));
    let ghost at = import_at(ls, prefix, entries);
    assert(dependencies_view(deps@) == gather(0, at));
    if let Some(list) = entries_in(table) {
        for i in 0..list.len()
            invariant
                outline.valid(),
                outline.strings() == json_outline(outline.rows()),
                ls == outline.rows(),
                prefix == parts_view(keys@),
                entries == entries_view(list@),
                at == import_at(ls, prefix, entries),
                dependencies_view(deps@) == gather(i as int, at),
        {
            assert(entries[i as int] == (list@[i as int].0@, list@[i as int].1@));
            let mut address = address_under(keys);
            let name = chars_of(list[i].0.as_str());
            push_key(&mut address, name.as_slice());
            assert(address_view(address@) == under(prefix.push(entries[i as int].0)));
            let found = import(outline, &address, &list[i].1);
            assert(dependency_view(found) == at(i as int));
            if let Some(dep) = found {
                proof {
                    lemma_dependencies_push(deps@, dep);
                }
                deps.push(dep);
            }
        }
    }
    deps
}

/// The lines of a document without their comments.
fn uncommented_lines(content: &str) -> (r: Vec<Vec<char>>)
    ensures
        parts_view(r@) == clean_lines(content@),
{
    let cs = chars_of(content);
    let all_lines = lines_of(cs.as_slice());
    let ghost goal = clean_lines(content@);
    let mut out: Vec<Vec<char>> = Vec::new();
    for i in 0..all_lines.len()
        invariant
            goal == clean_lines(content@),
            parts_view(all_lines@) == lines(content@),
            parts_view(out@) == goal.take(i as int),
    {
        assert(lines(content@)[i as int] == all_lines@[i as int]@);
        let line = copy_text(strip_line_comment(all_lines[i].as_slice()));
        proof {
            lemma_parts_push(out@, line);
            assert(goal.take(i as int + 1) == goal.take(i as int).push(goal[i as int]));
        }
        out.push(line);
    }
    assert(goal.take(goal.len() as int) == goal);
    out
}

/// The dependencies of a Deno configuration, given what it holds.
pub fn dependencies_in(document: &Node, content: &str) -> (r: Vec<ParsedDependency>)
    ensures
        dependencies_view(r@) == deno_dependencies(document@, content@),
{
    let outline = outline_json(uncommented_lines(content));
    let ghost ls = clean_lines(content@);
    let mut keys: Vec<Vec<char>> = Vec::new();
    keys.push(chars_of("imports"));
    assert(parts_view(keys@) == seq!["imports"@]);
    let mut deps = extract_deps_from_imports(&outline, &keys, document.get_str("imports"));
    let found = document.get_str("scopes");
    let ghost first = dependencies_view(deps@);
    let ghost scopes = entries_of(node_ref_view(found));
    let ghost at = scope_at(ls, scopes);
    assert(first + join(0, at) == first);
    if let Some(list) = entries_in(found) {
        for i in 0..list.len()
            invariant
                outline.valid(),
                outline.strings() == json_outline(outline.rows()),
                ls == outline.rows(),
                scopes == entries_view(list@),
                at == scope_at(ls, scopes),
                dependencies_view(deps@) == first + join(i as int, at),
        {
            assert(scopes[i as int] == (list@[i as int].0@, list@[i as int].1@));
            let mut keys: Vec<Vec<char>> = Vec::new();
            keys.push(chars_of("scopes"));
            keys.push(chars_of(list[i].0.as_str()));
            assert(parts_view(keys@) == seq!["scopes"@, scopes[i as int].0]);
            let mut more = extract_deps_from_imports(&outline, &keys, Some(&list[i].1));
            proof {
                lemma_dependencies_append(deps@, more@);
                assert(dependencies_view(more@) == at(i as int));
                assert(first + join(i as int, at) + at(i as int) == first + join(
                    i as int + 1,
                    at,
                ));
            }
            deps.append(&mut more);
        }
    }
    deps
}

/// Strips a `//` comment from a line, respecting strings.
pub fn strip_line_comment(line: &[char]) -> (r: &[char])
    ensures
        r@ == uncommented(CommentStyle::Slashes, line@),
{
    strip(CommentStyle::Slashes, line)
}

/// Strips the `//` comments from a document.
pub fn strip_jsonc_comments(content: &str) -> (r: String)
    ensures
        r@ == without_comments(content@),
{
    let cs = chars_of(content);
    let all_lines = lines_of(cs.as_slice());
    let ghost ls = lines(content@);
    let ghost at = uncommented_at(ls);
    let mut out: Vec<char> = Vec::new();
    assert(out@ == join(0, at));
    for i in 0..all_lines.len()
        invariant
            ls == parts_view(all_lines@),
            at == uncommented_at(ls),
            out@ == join(i as int, at),
    {
        assert(ls[i as int] == all_lines@[i as int]@);
        let ghost before = out@;
        push_chars(&mut out, strip_line_comment(all_lines[i].as_slice()));
        out.push('\n');
        assert(out@ == before + at(i as int));
    }
    string_of(out.as_slice())
}

/// Parses a `deno.json` or an import map and extracts the versioned
/// dependencies.
pub fn parse_deno_config(content: &str) -> (r: Vec<ParsedDependency>)
    ensures
        dependencies_view(r@) == deno_config(content@),
{
    let json = strip_jsonc_comments(content);
    match parse_json(json.as_str()) {
        Some(document) => dependencies_in(&document, content),
        None => {
            let deps: Vec<ParsedDependency> = Vec::new();
            assert(dependencies_view(deps@) == Seq::<DependencyView>::empty());
            deps
        },
    }
}

/// The lookup result for the versions that deno.land lists. Their `v` comes
/// off.
pub fn deno_land_versions(list: &Vec<String>) -> (r: VersionResult)
    ensures
        r@ == listed_result(unprefixed_all(texts(list@))),
{
    let ghost all = texts(list@);
    let mut bare: Vec<String> = Vec::new();
    for i in 0..list.len()
        invariant
            all == texts(list@),
            texts(bare@) == unprefixed_all(all).take(i as int),
    {
        assert(all[i as int] == list@[i as int]@);
        let cs = chars_of(list[i].as_str());
        let text = match after_prefix(cs.as_slice(), "v") {
            Some(rest) => string_of(rest),
            None => string_of(cs.as_slice()),
        };
        proof {
            let goal = unprefixed_all(all);
            lemma_texts_push(bare@, text);
            assert(text@ == goal[i as int]);
            assert(goal.take(i as int + 1) == goal.take(i as int).push(goal[i as int]));
        }
        bare.push(text);
    }
    assert(unprefixed_all(all).take(all.len() as int) == unprefixed_all(all));
    result_for(bare.as_slice())
}

/// A dependency is what an import in a table under some keys declares. Its
/// constraint stands in the specifier of that import, behind the name of the
/// package there, and behind the keys that lead to the import.
pub open spec fn is_import(
    lines: Seq<Seq<char>>,
    keys: Seq<Seq<char>>,
    table: Option<NodeView>,
    dep: DependencyView,
    e: int,
    spot: SpotView,
) -> bool {
    let (key, value) = entries_of(table)[e];
    &&& 0 <= e < entries_of(table).len()
    &&& value is Text
    &&& specifier(value->Text_0) == Some((dep.name, dep.constraint))
    &&& lies_in(
        lines,
        json_outline(lines),
        spot,
        under(keys.push(key)),
        value->Text_0,
        constraint_start(value->Text_0, dep.name),
        dep.constraint,
        dep.range,
    )
}

/// A dependency stands at an import that declares it.
pub open spec fn has_import(
    lines: Seq<Seq<char>>,
    keys: Seq<Seq<char>>,
    table: Option<NodeView>,
    dep: DependencyView,
) -> bool {
    exists|e: int, spot: SpotView| is_import(lines, keys, table, dep, e, spot)
}

/// Each dependency of a table stands at its own import.
pub proof fn law_import_entries(
    lines: Seq<Seq<char>>,
    keys: Seq<Seq<char>>,
    table: Option<NodeView>,
)
    ensures
        ({
            let deps = imports(lines, keys, table);
            forall|k: int|
                0 <= k < deps.len() ==> has_import(lines, keys, table, #[trigger] deps[k])
        }),
{
    let entries = entries_of(table);
    let deps = imports(lines, keys, table);
    let at = import_at(lines, keys, entries);
    law_json_outline_placed(lines);
    assert forall|k: int| 0 <= k < deps.len() implies has_import(
        lines,
        keys,
        table,
        #[trigger] deps[k],
    ) by {
        lemma_gather(entries.len() as int, at, k);
        let e = choose|e: int| 0 <= e < entries.len() && #[trigger] at(e) == Some(deps[k]);
        let s = entries[e].1->Text_0;
        let address = under(keys.push(entries[e].0));
        law_constraint_behind_name(s);
        lemma_located(
            lines,
            json_outline(lines),
            address,
            s,
            constraint_start(s, deps[k].name),
            deps[k].constraint,
        );
        let spot = spot_of(json_outline(lines), address, s)->0;
        assert(is_import(lines, keys, table, deps[k], e, spot));
    }
}

/// What stands on the lines without their comments stands in the document.
proof fn lemma_clean_occurs(content: Seq<char>, i: int, k: int, text: Seq<char>)
    requires
        0 <= i < lines(content).len(),
        occurs_at(clean_lines(content)[i], text, k),
    ensures
        occurs_at(lines(content)[i], text, k),
        lines(content)[i].take(k) == clean_lines(content)[i].take(k),
{
    let line = lines(content)[i];
    let clean = clean_lines(content)[i];
    law_comments_come_off(CommentStyle::Slashes, line);
    assert(clean == line.take(clean.len() as int));
    assert(line.subrange(k, k + text.len()) == clean.subrange(k, k + text.len()));
    assert(line.take(k) == clean.take(k));
}

/// What stands at an import is declared there.
proof fn lemma_import_declared(
    content: Seq<char>,
    keys: Seq<Seq<char>>,
    table: Option<NodeView>,
    dep: DependencyView,
)
    requires
        has_import(clean_lines(content), keys, table, dep),
    ensures
        is_declared(lines(content), dep),
{
    let ls = clean_lines(content);
    let (e, spot) = choose|e: int, spot: SpotView| is_import(ls, keys, table, dep, e, spot);
    let s = entries_of(table)[e].1->Text_0;
    let start = constraint_start(s, dep.name);
    law_constraint_behind_name(s);
    let (name, first) = if begins(s, "https://deno.land/x/"@) {
        (after(dep.name, "deno:"@), "https://deno.land/x/"@.len() as int)
    } else {
        (dep.name, 0)
    };
    assert(s.subrange(first, start - 1) == s.take(start - 1).skip(first));
    assert(s.take(start - 1).skip(first) == name);
    let written = lemma_text_before(ls, spot, name, first, start);
    lemma_clean_occurs(content, spot.line, spot.at + start, dep.constraint);
    lemma_clean_occurs(content, written.line, written.at, name);
    assert(is_declared_at(lines(content), dep, spot.line, spot.at + start, written));
}

/// The range of each dependency covers exactly its constraint, behind the name
/// of the package.
pub proof fn law_deno_ranges(document: NodeView, content: Seq<char>)
    ensures
        all_declared(lines(content), deno_dependencies(document, content)),
{
    let ls = clean_lines(content);
    let scopes = entries_of(document.get("scopes"@));
    let at = scope_at(ls, scopes);
    let table = document.get("imports"@);
    let first = imports(ls, seq!["imports"@], table);
    let second = join(scopes.len() as int, at);
    assert forall|k: int| 0 <= k < first.len() implies is_declared(
        lines(content),
        #[trigger] first[k],
    ) by {
        law_import_entries(ls, seq!["imports"@], table);
        lemma_import_declared(content, seq!["imports"@], table, first[k]);
    }
    assert forall|k: int| 0 <= k < second.len() implies is_declared(
        lines(content),
        #[trigger] second[k],
    ) by {
        lemma_join(scopes.len() as int, at, k);
        let (i, j) = choose|i: int, j: int|
            0 <= i < scopes.len() && 0 <= j < at(i).len() && #[trigger] at(i)[j] == second[k];
        let keys = seq!["scopes"@, scopes[i].0];
        law_import_entries(ls, keys, Some(scopes[i].1));
        assert(has_import(ls, keys, Some(scopes[i].1), at(i)[j]));
        lemma_import_declared(content, keys, Some(scopes[i].1), second[k]);
    }
}

/// The same for the text of a Deno configuration.
pub proof fn law_deno_config_ranges(content: Seq<char>)
    ensures
        all_declared(lines(content), deno_config(content)),
{
    if let Some(document) = json_document(without_comments(content)) {
        law_deno_ranges(document, content);
    }
}

/// Deno: versions come from jsr.io, the npm registry or deno.land, as the
/// specifier says.
#[derive(Debug)]
pub struct DenoProvider {
    pub npm_registry: String,
}

impl DenoProvider {
    /// A provider with the given settings.
    pub fn new(npm_registry: String) -> (r: Self)
        ensures
            r.npm_registry == npm_registry,
    {
        DenoProvider { npm_registry }
    }

    /// The provider made ready for a registry.
    pub fn shared(self) -> (r: Registered)
        ensures
            acts_like(&r.provider, self),
    {
        Registered { provider: Box::new(self) }
    }
}

impl Provider for DenoProvider {
    open spec fn patterns(&self) -> Seq<Seq<char>> {
        seq!["deno.json"@, "import_map.json"@, "deno.jsonc"@]
    }

    open spec fn title(&self) -> Seq<char> {
        "deno"@
    }

    open spec fn dependencies(&self, uri: Seq<char>, content: Seq<char>) -> Seq<DependencyView> {
        deno_config(content)
    }

    open spec fn normal_form(&self, constraint: Seq<char>) -> Seq<char> {
        deno_form(constraint)
    }

    open spec fn question(&self, package: Seq<char>) -> Option<RequestView> {
        if begins(package, "jsr:"@) {
            Some(
                plain_question(
                    Registry::Jsr,
                    "https://jsr.io/"@,
                    after(package, "jsr:"@),
                    "/meta.json"@,
                ),
            )
        } else if begins(package, "npm:"@) {
            Some(npm_question(self.npm_registry@, after(package, "npm:"@), true))
        } else if begins(package, "deno:"@) {
            Some(
                plain_question(
                    Registry::DenoLand,
                    "https://cdn.deno.land/"@,
                    after(package, "deno:"@),
                    "/meta/versions.json"@,
                ),
            )
        } else {
            None
        }
    }

    fn file_patterns(&self) -> (r: Vec<&'static str>) {
        let mut out: Vec<&'static str> = Vec::new();
        out.push("deno.json");
        out.push("import_map.json");
        out.push("deno.jsonc");
        assert(pattern_texts(out@) == self.patterns());
        out
    }

    fn parse_dependencies(&self, uri: &str, content: &str) -> (r: Vec<ParsedDependency>) {
        parse_deno_config(content)
    }

    fn version_request(&self, package_name: &str) -> (r: Option<VersionRequest>) {
        let cs = chars_of(package_name);
        if let Some(name) = after_prefix(cs.as_slice(), "jsr:") {
            Some(plain_request(Registry::Jsr, "https://jsr.io/", name, "/meta.json"))
        } else if let Some(name) = after_prefix(cs.as_slice(), "npm:") {
            Some(npm_request(self.npm_registry.as_str(), name, true))
        } else if let Some(name) = after_prefix(cs.as_slice(), "deno:") {
            Some(
                plain_request(
                    Registry::DenoLand,
                    "https://cdn.deno.land/",
                    name,
                    "/meta/versions.json",
                ),
            )
        } else {
            None
        }
    }

    fn name(&self) -> (r: &str) {
        "deno"
    }

    fn normalize_constraint(&self, constraint: &str) -> (r: String) {
        deno(constraint)
    }
}

} // verus!
