//! RubyGems: `Gemfile` and rubygems.org.
use vstd::prelude::*;
use vstd::slice::slice_subrange;
use super::{
    acts_like, all_declared, dependencies_view, dependency_view, is_declared, is_declared_at,
    lemma_dependencies_push, pattern_texts, DependencyView, ParsedDependency, Provider, Registered,
};
use super::composer::{all_numbers, numbers};
use super::registry::{lemma_views_push, rank_result, result_of};
use super::request::{plain_question, plain_request, Registry, RequestView, VersionRequest};
use crate::cache::{ResultView, VersionResult};
use crate::listing::{gather, least, lemma_gather, lemma_least, lemma_least_is};
use crate::locate::{
    lemma_occurs_inside, quote, quoted, single_quote, single_quoted, span, span_of, stands_at,
};
use crate::outline::{copy_text, KeyView};
use crate::ranking::{all_valid, views};
use crate::text::chars::{
    chars_of, digit, is_digit, is_white_space, push_chars, push_str, string_of, text_of,
    white_space,
};
use crate::text::comments::{law_comments_come_off, scan, strip, uncommented, CommentStyle};
use crate::text::lines::{lines, lines_of};
use crate::text::search::{
    after, after_prefix, begins, occurs, occurs_at, parts_view, position, split, split_on,
    starts_with_str,
};
use crate::text::trim::{
    lemma_trim_end_prefix, lemma_trim_start_suffix, lemma_unquote_end_prefix,
    lemma_unquote_start_suffix, start_of, trim, trim_start, trimmed, trimmed_start, unquote,
    unquote_start, unquoted,
};
use crate::version::{version_of, Version, VersionView};
use crate::version_utils::normalize::ruby;
use crate::version_utils::normalize::ruby::ruby_form;

verus! {

/// A gem version with three components: one or two numbers get zeros.
pub open spec fn gem_text(version: Seq<char>) -> Option<Seq<char>> {
    let parts = split(version, '.');
    if version_of(version) is Some {
        Some(version)
    } else if parts.len() == 2 && all_numbers(parts) {
        Some(version + ".0"@)
    } else if parts.len() == 1 && all_numbers(parts) {
        Some(version + ".0.0"@)
    } else {
        None
    }
}

/// The version that a gem version stands for.
pub open spec fn gem_version(version: Seq<char>) -> Option<VersionView> {
    match gem_text(version) {
        Some(s) => version_of(s),
        None => None,
    }
}

/// A version that rubygems.org lists.
#[derive(Debug)]
pub struct GemVersion {
    pub number: String,
    pub prerelease: bool,
}

/// The versions that are, or are not, marked as prereleases, by their place in
/// the list.
pub open spec fn gem_at(rows: Seq<GemVersion>, prerelease: bool) -> spec_fn(int) -> Option<
    VersionView,
> {
    |i: int|
        if rows[i].prerelease == prerelease {
            gem_version(rows[i].number@)
        } else {
            None
        }
}

/// The lookup result for the versions of a gem.
pub open spec fn gem_result(rows: Seq<GemVersion>) -> ResultView {
    let n = rows.len() as int;
    result_of(gather(n, gem_at(rows, false)), gather(n, gem_at(rows, true)))
}

/// The character at `i` is `c` and stands outside quotation marks.
pub open spec fn is_bare(s: Seq<char>, i: int, c: char) -> bool {
    s[i] == c && scan(CommentStyle::Hash, s, i) == (false, false)
}

/// A line without its comment.
pub open spec fn without_comment(line: Seq<char>) -> Seq<char> {
    uncommented(CommentStyle::Hash, line)
}

/// An argument of a `gem` line, and the index at which it begins.
pub struct TokenView {
    pub at: int,
    pub text: Seq<char>,
}

/// The first `n` characters of an argument list, cut at its commas.
pub open spec fn arguments(s: Seq<char>, n: int) -> Seq<TokenView>
    decreases n,
{
    if n <= 0 {
        seq![TokenView { at: 0, text: seq![] }]
    } else {
        let before = arguments(s, n - 1);
        if is_bare(s, n - 1, ',') {
            before.push(TokenView { at: n, text: seq![] })
        } else {
            let last = before.last();
            before.drop_last().push(TokenView { at: last.at, text: last.text.push(s[n - 1]) })
        }
    }
}

/// An argument without the white space around it.
pub open spec fn trimmed_token(token: TokenView) -> TokenView {
    TokenView {
        at: token.at + token.text.len() - trim_start(token.text).len(),
        text: trim(token.text),
    }
}

/// The arguments by their number, trimmed, where they are not empty.
pub open spec fn argument_at(parts: Seq<TokenView>) -> spec_fn(int) -> Option<TokenView> {
    |i: int|
        if trim(parts[i].text).len() > 0 {
            Some(trimmed_token(parts[i]))
        } else {
            None
        }
}

/// The arguments of a list.
pub open spec fn tokens(s: Seq<char>) -> Seq<TokenView> {
    let parts = arguments(s, s.len() as int);
    gather(parts.len() as int, argument_at(parts))
}

/// An option that takes a gem from somewhere else than the registry.
pub open spec fn is_source_option(token: Seq<char>) -> bool {
    let t = trim(token);
    ||| begins(t, "git:"@)
    ||| begins(t, "path:"@)
    ||| begins(t, "github:"@)
    ||| begins(t, ":git"@)
    ||| begins(t, ":path"@)
    ||| begins(t, ":github"@)
}

/// A text that looks like a version constraint.
pub open spec fn looks_like_constraint(s: Seq<char>) -> bool {
    let t = trim(s);
    t.len() > 0 && (is_digit(t[0]) || t[0] == '~' || t[0] == '>' || t[0] == '<' || t[0] == '='
        || t[0] == '!')
}

/// The arguments behind the first that hold a version constraint.
pub open spec fn holds_constraint(tokens: Seq<TokenView>) -> spec_fn(int) -> bool {
    |i: int| i > 0 && looks_like_constraint(unquote(tokens[i].text))
}

/// Where the arguments of a `gem` line begin.
pub open spec fn arguments_start(line: Seq<char>) -> int {
    let rest = after(trim(line), "gem"@);
    let indent = line.len() - trim_start(line).len();
    indent + "gem"@.len() + rest.len() - trim_start(rest).len()
}

/// The arguments of a `gem` line.
pub open spec fn gem_tokens(line: Seq<char>) -> Option<Seq<TokenView>> {
    let t = trim(line);
    let rest = after(t, "gem"@);
    if begins(t, "gem"@) && rest.len() > 0 && is_white_space(rest[0]) {
        Some(tokens(without_comment(trim_start(rest))))
    } else {
        None
    }
}

/// Some argument takes the gem from somewhere else than the registry.
pub open spec fn is_sourced(tokens: Seq<TokenView>) -> bool {
    exists|i: int| 0 <= i < tokens.len() && is_source_option((#[trigger] tokens[i]).text)
}

/// A text stands somewhere on a line between quotation marks of either kind.
pub open spec fn is_quoted_on(line: Seq<char>, s: Seq<char>) -> bool {
    occurs(line, single_quoted(s)) || occurs(line, quoted(s))
}

/// Where an argument begins inside its quotation marks.
pub open spec fn inner_start(token: TokenView) -> int {
    token.at + token.text.len() - unquote_start(token.text).len()
}

/// The dependency that a `gem` line declares: its first argument is the name,
/// and the first argument behind it that looks like one is the constraint. The
/// line has to hold the constraint between quotation marks, be it there or
/// elsewhere.
pub open spec fn gem_dependency(line: Seq<char>, index: u32) -> Option<DependencyView> {
    match gem_tokens(line) {
        Some(list) => {
            let name = unquote(list[0].text);
            if list.len() == 0 || name.len() == 0 || is_sourced(list) {
                None
            } else {
                match least(list.len() as int, holds_constraint(list)) {
                    Some(i) => {
                        let version = unquote(list[i].text);
                        let at = arguments_start(line) + inner_start(list[i]);
                        if is_quoted_on(line, version) {
                            Some(
                                DependencyView {
                                    name,
                                    constraint: version,
                                    range: span(index as int, line.take(at), version),
                                },
                            )
                        } else {
                            None
                        }
                    },
                    None => None,
                }
            }
        },
        None => None,
    }
}

/// The dependency that a line of a `Gemfile` declares.
pub open spec fn gemfile_line(line: Seq<char>, index: u32) -> Option<DependencyView> {
    let t = trim(line);
    if t.len() == 0 || t[0] == '#' {
        None
    } else {
        gem_dependency(line, index)
    }
}

/// The same by the number of the line, cut to 32 bits.
pub open spec fn gemfile_at(lines: Seq<Seq<char>>) -> spec_fn(int) -> Option<DependencyView> {
    |i: int| gemfile_line(lines[i], i as u32)
}

/// The dependencies of a `Gemfile`.
pub open spec fn gemfile(content: Seq<char>) -> Seq<DependencyView> {
    gather(lines(content).len() as int, gemfile_at(lines(content)))
}

/// Fills a gem version up to three components. Returns `None` if it is no
/// version.
pub fn pad_to_semver(version: &str) -> (r: Option<String>)
    ensures
        text_of(r) == gem_text(version@),
{
    let cs = chars_of(version);
    let mut out: Vec<char> = Vec::new();
    push_chars(&mut out, cs.as_slice());
    assert(out@ == version@);
    if Version::parse(version).is_some() {
        return Some(string_of(out.as_slice()));
    }
    let parts = split_on(cs.as_slice(), '.');
    assert(parts@.len() == split(version@, '.').len());
    if parts.len() == 2 && numbers(&parts) {
        push_str(&mut out, ".0");
        return Some(string_of(out.as_slice()));
    }
    if parts.len() == 1 && numbers(&parts) {
        push_str(&mut out, ".0.0");
        return Some(string_of(out.as_slice()));
    }
    None
}

/// The version that a gem version stands for.
fn read_gem_version(version: &str) -> (r: Option<Version>)
    ensures
        match r {
            Some(v) => gem_version(version@) == Some(v@) && v@.valid(),
            None => gem_version(version@) is None,
        },
{
    match pad_to_semver(version) {
        Some(text) => Version::parse(text.as_str()),
        None => None,
    }
}

/// The lookup result for the versions of a gem: the registry tells which are
/// prereleases.
pub fn gem_versions(rows: &Vec<GemVersion>) -> (r: VersionResult)
    ensures
        r@ == gem_result(rows@),
{
    let ghost sat = gem_at(rows@, false);
    let ghost pat = gem_at(rows@, true);
    let mut stable: Vec<Version> = Vec::new();
    let mut pre: Vec<Version> = Vec::new();
    assert(views(stable@) == gather(0, sat));
    assert(views(pre@) == gather(0, pat));
    for i in 0..rows.len()
        invariant
            sat == gem_at(rows@, false),
            pat == gem_at(rows@, true),
            all_valid(stable@),
            all_valid(pre@),
            views(stable@) == gather(i as int, sat),
            views(pre@) == gather(i as int, pat),
    {
        if let Some(v) = read_gem_version(rows[i].number.as_str()) {
            proof {
                lemma_views_push(stable@, v);
                lemma_views_push(pre@, v);
            }
            if rows[i].prerelease {
                assert(sat(i as int) is None && pat(i as int) == Some(v@));
                pre.push(v);
            } else {
                assert(sat(i as int) == Some(v@) && pat(i as int) is None);
                stable.push(v);
            }
        } else {
            assert(sat(i as int) is None && pat(i as int) is None);
        }
    }
    rank_result(&stable, &pre)
}

/// Strips a comment from a line, unless it stands inside quotation marks.
pub fn strip_inline_comment(line: &str) -> (r: String)
    ensures
        r@ == without_comment(line@),
{
    let cs = chars_of(line);
    string_of(strip(CommentStyle::Hash, cs.as_slice()))
}

/// An argument of a `gem` line, and the index at which it begins.
#[derive(Debug)]
pub struct Token {
    pub at: usize,
    pub text: Vec<char>,
}

impl View for Token {
    type V = TokenView;

    open spec fn view(&self) -> TokenView {
        TokenView { at: self.at as int, text: self.text@ }
    }
}

/// Arguments as mathematical values.
pub open spec fn tokens_view(v: Seq<Token>) -> Seq<TokenView> {
    v.map_values(|t: Token| t@)
}

/// The list with one more argument.
proof fn lemma_tokens_push(v: Seq<Token>, t: Token)
    ensures
        tokens_view(v.push(t)) == tokens_view(v).push(t@),
{
}

/// The arguments stand where they begin.
proof fn lemma_arguments(s: Seq<char>, n: int)
    requires
        0 <= n <= s.len(),
    ensures
        arguments(s, n).len() > 0,
        arguments(s, n).last().at + arguments(s, n).last().text.len() == n,
        forall|i: int|
            0 <= i < arguments(s, n).len() ==> occurs_at(
                s,
                (#[trigger] arguments(s, n)[i]).text,
                arguments(s, n)[i].at,
            ),
    decreases n,
{
    if n > 0 {
        lemma_arguments(s, n - 1);
        let before = arguments(s, n - 1);
        let now = arguments(s, n);
        assert forall|i: int| 0 <= i < now.len() implies occurs_at(
            s,
            (#[trigger] now[i]).text,
            now[i].at,
        ) by {
            let last = before[before.len() - 1];
            if i < before.len() - 1 {
                assert(now[i] == before[i]);
            } else if i == before.len() {
                assert(s.subrange(n, n) == now[i].text);
            } else if is_bare(s, n - 1, ',') {
                assert(now[i] == last);
            } else {
                assert(s.subrange(last.at, n) == s.subrange(last.at, n - 1).push(s[n - 1]));
            }
        }
    } else {
        assert(s.subrange(0, 0) == arguments(s, n)[0].text);
    }
}

/// A trimmed text stands where its leading white space ends.
proof fn lemma_trim_occurs(s: Seq<char>)
    ensures
        occurs_at(s, trim(s), s.len() - trim_start(s).len()),
{
    let u = trim_start(s);
    let k = s.len() - u.len();
    lemma_trim_start_suffix(s);
    lemma_trim_end_prefix(u);
    assert(s.subrange(k, k + trim(s).len()) == u.take(trim(s).len() as int));
}

/// The arguments of a list stand where they begin, without white space around
/// them.
proof fn lemma_tokens(s: Seq<char>, i: int)
    requires
        0 <= i < tokens(s).len(),
    ensures
        occurs_at(s, tokens(s)[i].text, tokens(s)[i].at),
        tokens(s)[i].text.len() > 0,
{
    let parts = arguments(s, s.len() as int);
    let at = argument_at(parts);
    lemma_gather(parts.len() as int, at, i);
    let j = choose|j: int| 0 <= j < parts.len() && #[trigger] at(j) == Some(tokens(s)[i]);
    lemma_arguments(s, s.len() as int);
    let part = parts[j];
    lemma_trim_occurs(part.text);
    lemma_occurs_inside(
        s,
        part.text,
        part.at,
        part.text.len() - trim_start(part.text).len(),
        trim(part.text),
    );
}

/// The arguments of a `gem` line stand on that line.
proof fn lemma_gem_tokens(line: Seq<char>, i: int)
    requires
        gem_tokens(line) is Some,
        0 <= i < (gem_tokens(line)->0).len(),
    ensures
        ({
            let token = (gem_tokens(line)->0)[i];
            &&& token.text.len() > 0
            &&& 0 <= arguments_start(line)
            &&& occurs_at(line, token.text, arguments_start(line) + token.at)
        }),
{
    let t = trim(line);
    let rest = after(t, "gem"@);
    let u = trim_start(rest);
    let s = without_comment(u);
    let token = tokens(s)[i];
    let indent = line.len() - trim_start(line).len();
    let k = "gem"@.len() + rest.len() - u.len();
    lemma_tokens(s, i);
    law_comments_come_off(CommentStyle::Hash, u);
    assert(occurs_at(u, s, 0)) by {
        assert(u.subrange(0, s.len() as int) == u.take(s.len() as int));
    }
    lemma_occurs_inside(u, s, 0, token.at, token.text);
    lemma_trim_start_suffix(rest);
    assert(occurs_at(t, u, k)) by {
        assert(t.subrange(k, k + u.len()) == rest.skip(rest.len() - u.len()));
    }
    lemma_occurs_inside(t, u, k, token.at, token.text);
    lemma_trim_occurs(line);
    lemma_trim_start_suffix(line);
    lemma_occurs_inside(line, t, indent, k + token.at, token.text);
}

/// What an argument holds stands inside its quotation marks.
proof fn lemma_inner_occurs(line: Seq<char>, first: int, token: TokenView)
    requires
        occurs_at(line, token.text, first + token.at),
    ensures
        token.at <= inner_start(token),
        occurs_at(line, unquote(token.text), first + inner_start(token)),
{
    let s = token.text;
    let t = unquote_start(s);
    let k = s.len() - t.len();
    lemma_unquote_start_suffix(s);
    lemma_unquote_end_prefix(t);
    assert(s.subrange(k, k + unquote(s).len()) == t.take(unquote(s).len() as int));
    lemma_occurs_inside(line, s, first + token.at, k, unquote(s));
}

/// Cuts an argument list at its commas.
fn cut_arguments(s: &[char]) -> (r: Vec<Token>)
    ensures
        tokens_view(r@) == arguments(s@, s@.len() as int),
{
    let mut parts: Vec<Token> = Vec::new();
    let mut current = Token { at: 0, text: Vec::new() };
    let mut state: (bool, bool) = (false, false);
    assert(tokens_view(parts@).push(current@) == arguments(s@, 0));
    for i in 0..s.len()
        invariant
            state == scan(CommentStyle::Hash, s@, i as int),
            tokens_view(parts@).push(current@) == arguments(s@, i as int),
    {
        let c = s[i];
        let ghost before = arguments(s@, i as int);
        proof {
            assert(before.drop_last() == tokens_view(parts@));
            assert(before.last() == current@);
        }
        if c == ',' && !state.0 && !state.1 {
            proof {
                lemma_tokens_push(parts@, current);
            }
            parts.push(current);
            current = Token { at: i + 1, text: Vec::new() };
        } else {
            current.text.push(c);
        }
        assert(tokens_view(parts@).push(current@) == arguments(s@, i as int + 1));
        state = CommentStyle::Hash.step(state, c);
    }
    proof {
        lemma_tokens_push(parts@, current);
    }
    parts.push(current);
    parts
}

/// Splits the arguments of a `gem` line at its commas, respecting quotation
/// marks.
pub fn tokenise_gem_args(s: &[char]) -> (r: Vec<Token>)
    ensures
        tokens_view(r@) == tokens(s@),
{
    let parts = cut_arguments(s);
    let ghost all = arguments(s@, s@.len() as int);
    let ghost at = argument_at(all);
    let mut out: Vec<Token> = Vec::new();
    assert(tokens_view(out@) == gather(0, at));
    for i in 0..parts.len()
        invariant
            all == arguments(s@, s@.len() as int),
            all == tokens_view(parts@),
            at == argument_at(all),
            tokens_view(out@) == gather(i as int, at),
    {
        assert(all[i as int] == parts@[i as int]@);
        let part = parts[i].text.as_slice();
        let t = trimmed(part);
        if t.len() > 0 {
            proof {
                lemma_arguments(s@, s@.len() as int);
            }
            let indent: usize = start_of(part);
            let size: usize = s.len();
            assert(indent == part@.len() - trim_start(part@).len());
            assert(all[i as int].at + part@.len() <= size);
            let token = Token { at: parts[i].at + indent, text: copy_text(t) };
            proof {
                lemma_tokens_push(out@, token);
                assert(at(i as int) == Some(token@));
            }
            out.push(token);
        } else {
            assert(at(i as int) is None);
        }
    }
    out
}

/// Whether an argument takes a gem from somewhere else than the registry.
fn source_option(token: &[char]) -> (r: bool)
    ensures
        r == is_source_option(token@),
{
    let t = trimmed(token);
    starts_with_str(t, "git:") || starts_with_str(t, "path:") || starts_with_str(t, "github:")
        || starts_with_str(t, ":git") || starts_with_str(t, ":path") || starts_with_str(
        t,
        ":github",
    )
}

/// Whether a text looks like a version constraint.
fn constraint_like(s: &[char]) -> (r: bool)
    ensures
        r == looks_like_constraint(s@),
{
    let t = trimmed(s);
    t.len() > 0 && (digit(t[0]) || t[0] == '~' || t[0] == '>' || t[0] == '<' || t[0] == '=' || t[0]
        == '!')
}

/// Returns `true` if a string looks like a version constraint.
pub fn is_version_constraint(s: &str) -> (r: bool)
    ensures
        r == looks_like_constraint(s@),
{
    let cs = chars_of(s);
    constraint_like(cs.as_slice())
}

/// Whether some argument takes the gem from somewhere else.
fn has_source_option(list: &Vec<Token>) -> (r: bool)
    ensures
        r == is_sourced(tokens_view(list@)),
{
    let ghost all = tokens_view(list@);
    for i in 0..list.len()
        invariant
            all == tokens_view(list@),
            forall|j: int| 0 <= j < i ==> !is_source_option((#[trigger] all[j]).text),
    {
        assert(all[i as int] == list@[i as int]@);
        if source_option(list[i].text.as_slice()) {
            assert(is_source_option(all[i as int].text));
            return true;
        }
    }
    false
}

/// The number of the first argument that holds a version constraint.
fn constraint_index(list: &Vec<Token>) -> (r: Option<usize>)
    ensures
        match r {
            Some(i) => least(list@.len() as int, holds_constraint(tokens_view(list@))) == Some(
                i as int,
            ) && i < list@.len(),
            None => least(list@.len() as int, holds_constraint(tokens_view(list@))) is None,
        },
{
    let ghost all = tokens_view(list@);
    let ghost f = holds_constraint(all);
    for i in 0..list.len()
        invariant
            all == tokens_view(list@),
            f == holds_constraint(all),
            forall|j: int| 0 <= j < i ==> !#[trigger] f(j),
    {
        assert(all[i as int] == list@[i as int]@);
        if i > 0 && constraint_like(unquoted(list[i].text.as_slice())) {
            proof {
                assert(f(i as int));
                lemma_least_is(list@.len() as int, f, i as int);
            }
            return Some(i);
        }
        assert(!f(i as int));
    }
    proof {
        lemma_least(list@.len() as int, f);
    }
    None
}

/// Whether a text stands somewhere on a line between quotation marks.
fn quoted_on(line: &[char], s: &[char]) -> (r: bool)
    ensures
        r == is_quoted_on(line@, s@),
{
    let single = single_quote(s);
    let double = quote(s);
    position(line, single.as_slice()).is_some() || position(line, double.as_slice()).is_some()
}

/// The number of quotation marks that a text begins with.
fn leading_quotes(s: &[char]) -> (r: usize)
    ensures
        r == s@.len() - unquote_start(s@).len(),
        r <= s@.len(),
{
    let mut i: usize = 0;
    assert(s@.skip(0) == s@);
    while i < s.len() && (s[i] == '\'' || s[i] == '"')
        invariant
            i <= s@.len(),
            unquote_start(s@) == unquote_start(s@.skip(i as int)),
        decreases s@.len() - i,
    {
        assert(s@.skip(i as int).skip(1) == s@.skip(i as int + 1));
        i += 1;
    }
    i
}

/// The index at which the arguments of a `gem` line begin.
fn arguments_index(line: &[char]) -> (r: usize)
    requires
        begins(trim(line@), "gem"@),
    ensures
        r == arguments_start(line@),
{
    proof {
        reveal_strlit("gem");
        lemma_trim_occurs(line@);
        lemma_trim_start_suffix(line@);
        lemma_trim_start_suffix(after(trim(line@), "gem"@));
    }
    let t = trimmed(line);
    let size: usize = line.len();
    let rest = slice_subrange(t, 3, t.len());
    assert(rest@ == after(t@, "gem"@));
    let indent: usize = start_of(line);
    let blanks: usize = start_of(rest);
    assert(indent == line@.len() - trim_start(line@).len());
    assert(blanks == rest@.len() - trim_start(rest@).len());
    indent + 3 + blanks
}

/// Reads a single `gem` line.
pub fn parse_gem_line(line: &[char], line_idx: u32) -> (r: Option<ParsedDependency>)
    ensures
        dependency_view(r) == gem_dependency(line@, line_idx),
{
    let t = trimmed(line);
    let rest = match after_prefix(t, "gem") {
        Some(rest) => rest,
        None => return None,
    };
    if rest.len() == 0 || !white_space(rest[0]) {
        return None;
    }
    let list = tokenise_gem_args(strip(CommentStyle::Hash, trimmed_start(rest)));
    let ghost all = tokens_view(list@);
    assert(gem_tokens(line@) == Some(all));
    if list.len() == 0 {
        return None;
    }
    assert(all[0] == list@[0]@);
    let name = unquoted(list[0].text.as_slice());
    if name.len() == 0 || has_source_option(&list) {
        return None;
    }
    let i: usize = match constraint_index(&list) {
        Some(i) => i,
        None => return None,
    };
    assert(all[i as int] == list@[i as int]@);
    let token = list[i].text.as_slice();
    let version = unquoted(token);
    if !quoted_on(line, version) {
        return None;
    }
    proof {
        lemma_gem_tokens(line@, i as int);
        lemma_inner_occurs(line@, arguments_start(line@), all[i as int]);
    }
    let size: usize = line.len();
    let first: usize = arguments_index(line);
    let lead: usize = leading_quotes(token);
    let start: usize = first + list[i].at + lead;
    let end: usize = start + version.len();
    let mut range = span_of(line, 0, start, end);
    range.start.line = line_idx;
    range.end.line = line_idx;
    assert(range == span(line_idx as int, line@.take(start as int), version@));
    Some(
        ParsedDependency {
            name: string_of(name),
            version_constraint: string_of(version),
            version_range: range,
        },
    )
}

/// Parses a `Gemfile` and extracts the versioned `gem` lines.
///
/// Of several constraints the first counts. Gems without a constraint, and
/// those that come from a path or a repository, are passed over.
pub fn parse_gemfile(content: &str) -> (r: Vec<ParsedDependency>)
    ensures
        dependencies_view(r@) == gemfile(content@),
{
    let cs = chars_of(content);
    let all_lines = lines_of(cs.as_slice());
    let ghost ls = lines(content@);
    let ghost at = gemfile_at(ls);
    let mut deps: Vec<ParsedDependency> = Vec::new();
    assert(dependencies_view(deps@) == gather(0, at));
    for i in 0..all_lines.len()
        invariant
            ls == parts_view(all_lines@),
            at == gemfile_at(ls),
            dependencies_view(deps@) == gather(i as int, at),
    {
        assert(ls[i as int] == all_lines@[i as int]@);
        let line = all_lines[i].as_slice();
        let t = trimmed(line);
        let found = if t.len() == 0 || t[0] == '#' {
            None
        } else {
            parse_gem_line(
                line,
                #[verifier::truncate]
                (i as u32),
            )
        };
        assert(dependency_view(found) == at(i as int));
        if let Some(dep) = found {
            proof {
                lemma_dependencies_push(deps@, dep);
            }
            deps.push(dep);
        }
    }
    deps
}

/// A dependency is what the `gem` line `i` declares, and its constraint stands
/// in an argument of that line, behind the argument that names the gem.
pub open spec fn is_gem_line(
    lines: Seq<Seq<char>>,
    dep: DependencyView,
    i: int,
    j: int,
) -> bool {
    let line = lines[i];
    let list = gem_tokens(line)->0;
    let first = arguments_start(line);
    &&& 0 <= i < lines.len()
    &&& gem_tokens(line) is Some
    &&& 0 < j < list.len()
    &&& dep.name == unquote(list[0].text)
    &&& dep.constraint == unquote(list[j].text)
    &&& occurs_at(line, list[0].text, first + list[0].at)
    &&& list[0].at + list[0].text.len() <= list[j].at
    &&& stands_at(lines, dep.range, dep.constraint, i, first + inner_start(list[j]))
}

/// A dependency stands on a `gem` line that declares it.
pub open spec fn has_gem_line(lines: Seq<Seq<char>>, dep: DependencyView) -> bool {
    exists|i: int, j: int| is_gem_line(lines, dep, i, j)
}

/// The arguments stand one behind the other.
proof fn lemma_arguments_apart(s: Seq<char>, n: int, i: int, j: int)
    requires
        0 <= n <= s.len(),
        0 <= i < j < arguments(s, n).len(),
    ensures
        arguments(s, n)[i].at + arguments(s, n)[i].text.len() < arguments(s, n)[j].at,
    decreases n,
{
    if n > 0 {
        let before = arguments(s, n - 1);
        lemma_arguments(s, n - 1);
        if j < before.len() {
            lemma_arguments_apart(s, n - 1, i, j);
        } else if i < before.len() - 1 {
            lemma_arguments_apart(s, n - 1, i, before.len() - 1);
        }
    }
}

/// Items come out of a list in their order.
proof fn lemma_tokens_order(parts: Seq<TokenView>, n: int, j: int) -> (k: (int, int))
    requires
        0 <= n <= parts.len(),
        0 < j < gather(n, argument_at(parts)).len(),
    ensures
        0 <= k.0 < k.1 < n,
        argument_at(parts)(k.0) == Some(gather(n, argument_at(parts))[0]),
        argument_at(parts)(k.1) == Some(gather(n, argument_at(parts))[j]),
    decreases n,
{
    let at = argument_at(parts);
    let before = gather(n - 1, at);
    if j < before.len() {
        lemma_tokens_order(parts, n - 1, j)
    } else {
        lemma_gather(n - 1, at, 0);
        let i = choose|i: int| 0 <= i < n - 1 && #[trigger] at(i) == Some(before[0]);
        (i, n - 1)
    }
}

/// The first argument of a `gem` line stands before any other.
proof fn lemma_name_first(s: Seq<char>, j: int)
    requires
        0 < j < tokens(s).len(),
    ensures
        tokens(s)[0].at + tokens(s)[0].text.len() <= tokens(s)[j].at,
{
    let parts = arguments(s, s.len() as int);
    let (a, b) = lemma_tokens_order(parts, parts.len() as int, j);
    lemma_arguments_apart(s, s.len() as int, a, b);
    lemma_trim_occurs(parts[a].text);
    lemma_trim_start_suffix(parts[b].text);
}

/// Each dependency stands on its own `gem` line.
pub proof fn law_gemfile_lines(content: Seq<char>)
    ensures
        ({
            let deps = gemfile(content);
            forall|k: int|
                0 <= k < deps.len() ==> has_gem_line(lines(content), #[trigger] deps[k])
        }),
{
    let ls = lines(content);
    let deps = gemfile(content);
    let at = gemfile_at(ls);
    assert forall|k: int| 0 <= k < deps.len() implies has_gem_line(ls, #[trigger] deps[k]) by {
        lemma_gather(ls.len() as int, at, k);
        let i = choose|i: int| 0 <= i < ls.len() && #[trigger] at(i) == Some(deps[k]);
        lemma_gem_line(ls, i);
    }
}

/// What a `gem` line declares stands there.
proof fn lemma_gem_line(lines: Seq<Seq<char>>, i: int)
    requires
        0 <= i < lines.len(),
        gemfile_at(lines)(i) is Some,
    ensures
        has_gem_line(lines, gemfile_at(lines)(i)->0),
{
    let line = lines[i];
    let dep = gemfile_at(lines)(i)->0;
    let list = gem_tokens(line)->0;
    let f = holds_constraint(list);
    lemma_least(list.len() as int, f);
    let j = least(list.len() as int, f)->0;
    assert(f(j));
    lemma_gem_tokens(line, 0);
    lemma_gem_tokens(line, j);
    lemma_inner_occurs(line, arguments_start(line), list[j]);
    lemma_name_first(without_comment(trim_start(after(trim(line), "gem"@))), j);
    assert(is_gem_line(lines, dep, i, j));
}

/// What an argument holds ends inside it.
proof fn lemma_inner_end(s: Seq<char>)
    ensures
        s.len() - unquote_start(s).len() + unquote(s).len() <= s.len(),
{
    lemma_unquote_start_suffix(s);
    lemma_unquote_end_prefix(unquote_start(s));
}

/// The range of each dependency covers exactly its constraint, behind the name
/// of the gem.
pub proof fn law_gemfile_ranges(content: Seq<char>)
    ensures
        all_declared(lines(content), gemfile(content)),
{
    let ls = lines(content);
    let deps = gemfile(content);
    law_gemfile_lines(content);
    assert forall|k: int| 0 <= k < deps.len() implies is_declared(ls, #[trigger] deps[k]) by {
        let dep = deps[k];
        let (i, j) = choose|i: int, j: int| is_gem_line(ls, dep, i, j);
        let line = ls[i];
        let list = gem_tokens(line)->0;
        let first = arguments_start(line);
        let token = list[0];
        lemma_inner_occurs(line, first, token);
        lemma_inner_end(token.text);
        lemma_unquote_start_suffix(list[j].text);
        let written = KeyView { text: dep.name, line: i, at: first + inner_start(token) };
        assert(is_declared_at(ls, dep, i, first + inner_start(list[j]), written));
    }
}

/// RubyGems: versions come from rubygems.org.
#[derive(Debug)]
pub struct RubyGemsProvider {}

impl RubyGemsProvider {
    /// The provider.
    pub fn new() -> (r: Self)
        ensures
            r == (RubyGemsProvider {}),
    {
        RubyGemsProvider {}
    }

    /// The provider made ready for a registry.
    pub fn shared(self) -> (r: Registered)
        ensures
            acts_like(&r.provider, self),
    {
        Registered { provider: Box::new(self) }
    }
}

impl Provider for RubyGemsProvider {
    open spec fn patterns(&self) -> Seq<Seq<char>> {
        seq!["Gemfile"@]
    }

    open spec fn title(&self) -> Seq<char> {
        "rubygems"@
    }

    open spec fn dependencies(&self, uri: Seq<char>, content: Seq<char>) -> Seq<DependencyView> {
        gemfile(content)
    }

    open spec fn normal_form(&self, constraint: Seq<char>) -> Seq<char> {
        ruby_form(constraint)
    }

    open spec fn question(&self, package: Seq<char>) -> Option<RequestView> {
        Some(
            plain_question(
                Registry::RubyGems,
                "https://rubygems.org/api/v1/versions/"@,
                package,
                ".json"@,
            ),
        )
    }

    fn file_patterns(&self) -> (r: Vec<&'static str>) {
        let mut out: Vec<&'static str> = Vec::new();
        out.push("Gemfile");
        assert(pattern_texts(out@) == self.patterns());
        out
    }

    fn parse_dependencies(&self, uri: &str, content: &str) -> (r: Vec<ParsedDependency>) {
        parse_gemfile(content)
    }

    fn version_request(&self, package_name: &str) -> (r: Option<VersionRequest>) {
        let cs = chars_of(package_name);
        Some(
            plain_request(
                Registry::RubyGems,
                "https://rubygems.org/api/v1/versions/",
                cs.as_slice(),
                ".json",
            ),
        )
    }

    fn name(&self) -> (r: &str) {
        "rubygems"
    }

    fn normalize_constraint(&self, constraint: &str) -> (r: String) {
        ruby(constraint)
    }
}

} // verus!
