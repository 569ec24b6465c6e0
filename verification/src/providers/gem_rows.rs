//! `gem` lines, piece by piece: what is written is what is read.
use vstd::prelude::*;
use super::DependencyView;
use super::pypi_rows::range_behind;
use super::rubygems::{
    argument_at, arguments, arguments_start, gem_tokens, gemfile, gemfile_at, gemfile_line,
    holds_constraint, inner_start, is_bare, is_quoted_on, is_source_option, is_sourced,
    looks_like_constraint, tokens, trimmed_token, without_comment, TokenView,
};
use crate::listing::{gather, least, lemma_gathered, lemma_least_is};
use crate::locate::{quoted, single_quoted};
use crate::text::chars::{is_blank, is_white_space};
use crate::text::comments::{opens_comment, scan, CommentStyle};
use crate::text::lines::lines;
use crate::text::search::{after, begins, occurs, occurs_at};
use crate::text::trim::{
    lemma_trim_end_behind, lemma_trim_end_blank, lemma_trim_end_some, lemma_trim_start_blank, trim,
    trim_end, trim_start, unquote, unquote_end, unquote_start,
};

verus! {

/// A text between two quotation marks of one kind.
pub open spec fn in_quotes(q: char, t: Seq<char>) -> Seq<char> {
    seq![q] + t + seq![q]
}

/// A text that may stand between quotation marks: not empty, without that mark, and
/// without a mark of either kind at its ends.
pub open spec fn is_quotable(q: char, t: Seq<char>) -> bool {
    &&& q == '\'' || q == '"'
    &&& t.len() > 0
    &&& t[0] != '\'' && t[0] != '"'
    &&& t.last() != '\'' && t.last() != '"'
    &&& forall|i: int| 0 <= i < t.len() ==> #[trigger] t[i] != q
}

/// No quotation mark and no number sign.
pub open spec fn is_unquoted(t: Seq<char>) -> bool {
    forall|i: int|
        0 <= i < t.len() ==> #[trigger] t[i] != '\'' && t[i] != '"' && t[i] != '#'
}

/// Outside quotation marks a text without them changes nothing.
proof fn lemma_scan_plain(s: Seq<char>, m: int, n: int)
    requires
        0 <= m <= n <= s.len(),
        scan(CommentStyle::Hash, s, m) == (false, false),
        forall|i: int| m <= i < n ==> #[trigger] s[i] != '\'' && s[i] != '"',
    ensures
        forall|i: int| m <= i <= n ==> #[trigger] scan(CommentStyle::Hash, s, i) == (false, false),
    decreases n - m,
{
    if m < n {
        lemma_scan_plain(s, m, n - 1);
        assert(s[n - 1] != '\'' && s[n - 1] != '"');
        assert forall|i: int| m <= i <= n implies #[trigger] scan(CommentStyle::Hash, s, i) == (
            false,
            false,
        ) by {
            if i == n {
                assert(scan(CommentStyle::Hash, s, n - 1) == (false, false));
            }
        }
    }
}

/// Inside quotation marks.
proof fn lemma_scan_inside(s: Seq<char>, m: int, n: int, q: char)
    requires
        0 <= m < n <= s.len(),
        q == '\'' || q == '"',
        s[m] == q,
        scan(CommentStyle::Hash, s, m) == (false, false),
        forall|i: int| m < i < n ==> #[trigger] s[i] != q,
    ensures
        forall|i: int|
            m < i <= n ==> #[trigger] scan(CommentStyle::Hash, s, i) == (q == '\'', q == '"'),
    decreases n - m,
{
    if m + 1 < n {
        lemma_scan_inside(s, m, n - 1, q);
        assert(s[n - 1] != q);
    }
    assert forall|i: int| m < i <= n implies #[trigger] scan(CommentStyle::Hash, s, i) == (
        q == '\'',
        q == '"',
    ) by {
        if i == n && m + 1 < n {
            assert(scan(CommentStyle::Hash, s, n - 1) == (q == '\'', q == '"'));
        }
    }
}

/// A text between quotation marks is passed.
proof fn lemma_scan_quoted(s: Seq<char>, m: int, q: char, t: Seq<char>)
    requires
        is_quotable(q, t),
        occurs_at(s, in_quotes(q, t), m),
        scan(CommentStyle::Hash, s, m) == (false, false),
    ensures
        scan(CommentStyle::Hash, s, m + t.len() + 2) == (false, false),
        forall|i: int| m <= i < m + t.len() + 2 ==> !#[trigger] is_bare(s, i, ','),
        forall|i: int| m <= i < m + t.len() + 2 ==> !#[trigger] is_bare(s, i, '#'),
{
    let n = m + t.len() + 1;
    let part = s.subrange(m, m + t.len() + 2);
    assert(part == in_quotes(q, t));
    assert(part[0] == s[m] && part[0] == q);
    assert(part[t.len() as int + 1] == s[n] && part[t.len() as int + 1] == q);
    assert forall|i: int| m < i < n implies #[trigger] s[i] != q by {
        assert(part[i - m] == s[i]);
        assert(part[i - m] == t[i - m - 1]);
    }
    lemma_scan_inside(s, m, n as int, q);
    assert(scan(CommentStyle::Hash, s, n as int) == (q == '\'', q == '"'));
}

/// Without a comma the last argument goes on.
proof fn lemma_arguments_go_on(s: Seq<char>, m: int, n: int)
    requires
        0 <= m <= n <= s.len(),
        arguments(s, m).len() > 0,
        forall|i: int| m <= i < n ==> !#[trigger] is_bare(s, i, ','),
    ensures
        arguments(s, n) == arguments(s, m).drop_last().push(
            TokenView {
                at: arguments(s, m).last().at,
                text: arguments(s, m).last().text + s.subrange(m, n),
            },
        ),
    decreases n - m,
{
    let before = arguments(s, m);
    let last = before.last();
    if m < n {
        lemma_arguments_go_on(s, m, n - 1);
        let mid = arguments(s, n - 1);
        assert(!is_bare(s, n - 1, ','));
        assert(mid.drop_last() == before.drop_last());
        assert(last.text + s.subrange(m, n - 1).push(s[n - 1]) == (last.text + s.subrange(
            m,
            n - 1,
        )).push(s[n - 1]));
        assert(s.subrange(m, n) == s.subrange(m, n - 1).push(s[n - 1]));
        assert(mid.last().text.push(s[n - 1]) == last.text + s.subrange(m, n));
    } else {
        assert(last.text + s.subrange(m, n) == last.text);
        assert(before.drop_last().push(last) == before);
    }
}

/// Arguments that are complete stay, the last one may go on, and the others come
/// behind it.
proof fn lemma_arguments_stay(s: Seq<char>, m: int, n: int)
    requires
        0 <= m <= n <= s.len(),
        arguments(s, m).len() > 0,
    ensures
        ({
            let a = arguments(s, m);
            let b = arguments(s, n);
            let k = a.len() - 1;
            &&& b.len() >= a.len()
            &&& forall|i: int| 0 <= i < k ==> #[trigger] b[i] == a[i]
            &&& b[k].at == a[k].at
            &&& begins(b[k].text, a[k].text)
            &&& forall|i: int| k <= i < b.len() ==> (#[trigger] b[i]).at >= a[k].at
            &&& forall|i: int|
                0 <= i < b.len() ==> (#[trigger] b[i]).at + b[i].text.len() <= if n > 0 {
                    n
                } else {
                    0
                }
            &&& b.last().at + b.last().text.len() == n || m == n
        }),
    decreases n - m,
{
    let a = arguments(s, m);
    let k = a.len() - 1;
    if m < n {
        lemma_arguments_stay(s, m, n - 1);
        lemma_argument_ends(s, n);
        lemma_argument_ends(s, n - 1);
        let mid = arguments(s, n - 1);
        let b = arguments(s, n);
        if is_bare(s, n - 1, ',') {
            assert(b == mid.push(TokenView { at: n, text: seq![] }));
            assert(b[k] == mid[k]);
        } else {
            let last = mid.last();
            assert forall|i: int| 0 <= i < mid.len() - 1 implies b[i] == mid[i] by {}
            if k == mid.len() - 1 {
                assert(b[k].text == mid[k].text.push(s[n - 1]));
                assert(b[k].text.take(a[k].text.len() as int) == mid[k].text.take(
                    a[k].text.len() as int,
                ));
            }
        }
    } else {
        lemma_argument_ends(s, n);
        assert(a[k].text.take(a[k].text.len() as int) == a[k].text);
    }
}

/// Arguments end where they have been read to.
proof fn lemma_argument_ends(s: Seq<char>, n: int)
    requires
        0 <= n <= s.len(),
    ensures
        arguments(s, n).len() > 0,
        arguments(s, n).last().at + arguments(s, n).last().text.len() == n,
        forall|i: int|
            0 <= i < arguments(s, n).len() ==> 0 <= (#[trigger] arguments(s, n)[i]).at && arguments(
                s,
                n,
            )[i].at + arguments(s, n)[i].text.len() <= n && occurs_at(
                s,
                arguments(s, n)[i].text,
                arguments(s, n)[i].at,
            ),
    decreases n,
{
    let b = arguments(s, n);
    if n > 0 {
        lemma_argument_ends(s, n - 1);
        let mid = arguments(s, n - 1);
        let last = mid.last();
        assert forall|i: int| 0 <= i < b.len() implies 0 <= (#[trigger] b[i]).at && b[i].at
            + b[i].text.len() <= n && occurs_at(s, b[i].text, b[i].at) by {
            if i < mid.len() - 1 {
                assert(b[i] == mid[i]);
            } else if is_bare(s, n - 1, ',') {
                if i == mid.len() {
                    assert(s.subrange(n, n) == b[i].text);
                } else {
                    assert(b[i] == mid[i]);
                }
            } else {
                assert(mid[mid.len() - 1] == last);
                assert(s.subrange(last.at, n) == s.subrange(last.at, n - 1).push(s[n - 1]));
            }
        }
    } else {
        assert(s.subrange(0, 0) == b[0].text);
    }
}

/// The pieces of a `gem` line: white space, the quoted name, the quoted constraint,
/// further options and a comment.
pub struct WrittenGem {
    pub indent: Seq<char>,
    pub gap: Seq<char>,
    pub q: char,
    pub name: Seq<char>,
    pub before: Seq<char>,
    pub behind: Seq<char>,
    pub p: char,
    pub constraint: Seq<char>,
    pub options: Seq<char>,
    pub spaces: Seq<char>,
    pub comment: Seq<char>,
}

/// A text that begins like a version constraint: with a digit or a comparison.
pub open spec fn opens_constraint(t: Seq<char>) -> bool {
    t.len() > 0 && (('0' <= t[0] && t[0] <= '9') || t[0] == '~' || t[0] == '>' || t[0] == '<'
        || t[0] == '=' || t[0] == '!')
}

impl WrittenGem {
    /// The pieces before the options are what they are meant to be.
    pub open spec fn begins_well(self) -> bool {
        &&& is_blank(self.indent)
        &&& is_blank(self.gap)
        &&& self.gap.len() > 0
        &&& is_quotable(self.q, self.name)
        &&& is_blank(self.before)
        &&& is_blank(self.behind)
        &&& is_quotable(self.p, self.constraint)
        &&& opens_constraint(self.constraint)
    }

    /// All pieces are, and no option takes the gem from somewhere else.
    pub open spec fn valid(self) -> bool {
        &&& self.begins_well()
        &&& is_unquoted(self.options)
        &&& self.options.len() > 0 ==> self.options[0] == ',' && !is_white_space(
            self.options.last(),
        )
        &&& !occurs(self.options, "git"@)
        &&& !occurs(self.options, "path"@)
        &&& is_blank(self.spaces)
        &&& self.comment.len() > 0 ==> self.comment[0] == '#'
    }

    /// What stands before the constraint in the argument list.
    pub open spec fn head(self) -> Seq<char> {
        in_quotes(self.q, self.name) + self.before + seq![','] + self.behind + seq![self.p]
    }

    /// The first two arguments.
    pub open spec fn front(self) -> Seq<char> {
        in_quotes(self.q, self.name) + self.before + seq![','] + self.behind + in_quotes(
            self.p,
            self.constraint,
        )
    }

    /// The argument list.
    pub open spec fn list(self) -> Seq<char> {
        self.front() + self.options
    }

    /// What stands before the argument list.
    pub open spec fn lead(self) -> Seq<char> {
        self.indent + "gem"@ + self.gap
    }

    /// The line.
    pub open spec fn text(self) -> Seq<char> {
        self.lead() + self.list() + self.spaces + self.comment
    }
}

/// Where the first argument ends.
spec fn name_end(w: WrittenGem) -> int {
    w.name.len() as int + 2
}

/// Where the comma behind it stands.
spec fn comma_at(w: WrittenGem) -> int {
    name_end(w) + w.before.len() as int
}

/// Where the constraint's quotation marks begin.
spec fn constraint_at(w: WrittenGem) -> int {
    comma_at(w) + 1 + w.behind.len() as int
}

/// Where the pieces of the first two arguments stand.
proof fn lemma_layout(w: WrittenGem, s: Seq<char>)
    requires
        w.begins_well(),
        begins(s, w.front()),
    ensures
        w.front().len() == constraint_at(w) + w.constraint.len() + 2,
        s.len() >= w.front().len(),
        occurs_at(s, in_quotes(w.q, w.name), 0),
        forall|i: int| name_end(w) <= i < comma_at(w) ==> is_white_space(#[trigger] s[i]),
        s[comma_at(w)] == ',',
        forall|i: int| comma_at(w) < i < constraint_at(w) ==> is_white_space(#[trigger] s[i]),
        occurs_at(s, in_quotes(w.p, w.constraint), constraint_at(w)),
        s.subrange(0, comma_at(w)) == in_quotes(w.q, w.name) + w.before,
        s.subrange(comma_at(w) + 1, w.front().len() as int) == w.behind + in_quotes(
            w.p,
            w.constraint,
        ),
{
    let f = w.front();
    let n = f.len() as int;
    let x = in_quotes(w.q, w.name);
    let y = in_quotes(w.p, w.constraint);
    let m = name_end(w);
    let a = comma_at(w);
    let b = constraint_at(w);
    assert(x.len() == m);
    assert(s.take(n) == f);
    assert(s.subrange(0, m) == f.subrange(0, m));
    assert(f.subrange(0, m) == x);
    assert(s.subrange(b, n) == f.subrange(b, n));
    assert(f.subrange(b, n) == y);
    assert(s.subrange(0, a) == f.subrange(0, a));
    assert(f.subrange(0, a) == x + w.before);
    assert(s.subrange(a + 1, n) == f.subrange(a + 1, n));
    assert(f.subrange(a + 1, n) == w.behind + y);
    assert forall|i: int| 0 <= i < n implies #[trigger] s[i] == f[i] by {
        assert(s.take(n)[i] == s[i]);
    }
    assert(f[a] == ',');
    assert forall|i: int| m <= i < a implies is_white_space(#[trigger] s[i]) by {
        assert(f[i] == w.before[i - m]);
        assert(is_white_space(w.before[i - m]));
    }
    assert forall|i: int| a < i < b implies is_white_space(#[trigger] s[i]) by {
        assert(f[i] == w.behind[i - a - 1]);
        assert(is_white_space(w.behind[i - a - 1]));
    }
}

/// The first two arguments are passed.
proof fn lemma_front_scan(w: WrittenGem, s: Seq<char>)
    requires
        w.begins_well(),
        begins(s, w.front()),
    ensures
        scan(CommentStyle::Hash, s, w.front().len() as int) == (false, false),
        forall|i: int| 0 <= i < w.front().len() ==> !#[trigger] is_bare(s, i, '#'),
        forall|i: int|
            0 <= i < w.front().len() ==> #[trigger] is_bare(s, i, ',') == (i == comma_at(w)),
{
    let n = w.front().len() as int;
    let m = name_end(w);
    let a = comma_at(w);
    let b = constraint_at(w);
    lemma_layout(w, s);
    assert(scan(CommentStyle::Hash, s, 0) == (false, false));
    lemma_scan_quoted(s, 0, w.q, w.name);
    assert forall|i: int| m <= i < b implies #[trigger] s[i] != '\'' && s[i] != '"' && s[i] != '#'
        && (s[i] == ',' <==> i == a) by {
        if i != a {
            assert(is_white_space(s[i]));
        }
    }
    lemma_scan_plain(s, m, b);
    assert(scan(CommentStyle::Hash, s, b) == (false, false));
    assert(scan(CommentStyle::Hash, s, a) == (false, false));
    lemma_scan_quoted(s, b, w.p, w.constraint);
    assert forall|i: int| 0 <= i < n implies !#[trigger] is_bare(s, i, '#') by {
        if m <= i < b {
            assert(s[i] != '#');
        }
    }
    assert forall|i: int| 0 <= i < n implies #[trigger] is_bare(s, i, ',') == (i == a) by {
        if m <= i < b {
            assert(s[i] == ',' <==> i == a);
        }
    }
}

/// The first two arguments of a text that begins with them.
proof fn lemma_front(w: WrittenGem, s: Seq<char>)
    requires
        w.begins_well(),
        begins(s, w.front()),
    ensures
        ({
            let n = w.front().len() as int;
            &&& scan(CommentStyle::Hash, s, n) == (false, false)
            &&& forall|i: int| 0 <= i < n ==> !#[trigger] is_bare(s, i, '#')
            &&& arguments(s, n) == seq![
                TokenView { at: 0, text: in_quotes(w.q, w.name) + w.before },
                TokenView { at: comma_at(w) + 1, text: w.behind + in_quotes(w.p, w.constraint) },
            ]
        }),
{
    let n = w.front().len() as int;
    let a = comma_at(w);
    lemma_layout(w, s);
    lemma_front_scan(w, s);
    let first = TokenView { at: 0, text: in_quotes(w.q, w.name) + w.before };
    let second = TokenView { at: a + 1, text: w.behind + in_quotes(w.p, w.constraint) };
    let none = Seq::<char>::empty();
    lemma_arguments_go_on(s, 0, a);
    assert(none + s.subrange(0, a) == first.text);
    assert(arguments(s, 0) == seq![TokenView { at: 0, text: none }]);
    assert(arguments(s, a) == seq![first]);
    assert(is_bare(s, a, ','));
    assert(arguments(s, a + 1) == seq![first, TokenView { at: a + 1, text: none }]);
    lemma_arguments_go_on(s, a + 1, n);
    assert(none + s.subrange(a + 1, n) == second.text);
    assert(arguments(s, n) == seq![first, second]);
}

/// A line without its comment: what stands in front of the first bare number sign.
proof fn lemma_comment_off(s: Seq<char>, n: int)
    requires
        0 <= n <= s.len(),
        forall|i: int| 0 <= i < n ==> !#[trigger] is_bare(s, i, '#'),
        n < s.len() ==> is_bare(s, n, '#'),
    ensures
        n < s.len() ==> without_comment(s) == trim_end(s.take(n)),
        n == s.len() ==> without_comment(s) == s,
{
    reveal_strlit("#");
    let g = opens_comment(CommentStyle::Hash, s);
    assert forall|i: int| 0 <= i < n implies !#[trigger] g(i) by {
        if g(i) {
            assert(s.subrange(i, i + 1)[0] == s[i]);
            assert(is_bare(s, i, '#'));
        }
    }
    if n < s.len() {
        assert(s.subrange(n, n + 1) == "#"@);
        assert(g(n));
        lemma_least_is(s.len() as int, g, n);
    } else {
        crate::listing::lemma_least(s.len() as int, g);
    }
}

/// A line whose comment comes off still begins with what holds no bare number sign
/// and does not end with white space.
proof fn lemma_front_stays(s: Seq<char>, f: Seq<char>)
    requires
        begins(s, f),
        f.len() > 0,
        !is_white_space(f.last()),
        forall|i: int| 0 <= i < f.len() ==> !#[trigger] is_bare(s, i, '#'),
    ensures
        begins(without_comment(s), f),
{
    reveal_strlit("#");
    let g = opens_comment(CommentStyle::Hash, s);
    crate::listing::lemma_least(s.len() as int, g);
    if let Some(k) = least(s.len() as int, g) {
        assert(g(k));
        assert(s.subrange(k, k + 1)[0] == s[k]);
        assert(is_bare(s, k, '#'));
        assert(k >= f.len());
        let t = s.take(k);
        assert(t.take(f.len() as int) == s.take(f.len() as int));
        lemma_begin_stays(t, f);
    }
}

/// What does not end with white space at the front of a text stays there.
proof fn lemma_begin_stays(s: Seq<char>, p: Seq<char>)
    requires
        begins(s, p),
        p.len() > 0,
        !is_white_space(p.last()),
    ensures
        begins(trim_end(s), p),
    decreases s.len(),
{
    if is_white_space(s.last()) {
        if s.len() == p.len() {
            assert(s.take(p.len() as int) == s);
        }
        assert(s.drop_last().take(p.len() as int) == s.take(p.len() as int));
        lemma_begin_stays(s.drop_last(), p);
    }
}

/// A text between quotation marks without them.
proof fn lemma_unquoted(q: char, t: Seq<char>)
    requires
        is_quotable(q, t),
    ensures
        unquote(in_quotes(q, t)) == t,
        unquote_start(in_quotes(q, t)).len() == t.len() + 1,
{
    let s = in_quotes(q, t);
    assert(s.skip(1) == t.push(q));
    assert(t.push(q)[0] == t[0]);
    assert(unquote_start(s) == unquote_start(t.push(q)));
    assert(unquote_start(t.push(q)) == t.push(q));
    assert(t.push(q).last() == q);
    assert(t.push(q).drop_last() == t);
    assert(unquote_end(t.push(q)) == unquote_end(t));
    assert(unquote_end(t) == t);
}

/// The first two arguments, trimmed.
proof fn lemma_trimmed_arguments(w: WrittenGem)
    requires
        w.begins_well(),
    ensures
        ({
            let x = in_quotes(w.q, w.name);
            let y = in_quotes(w.p, w.constraint);
            &&& trim(x + w.before) == x
            &&& trim_start(x + w.before) == x + w.before
            &&& trim(w.behind + y) == y
            &&& trim_start(w.behind + y) == y
        }),
{
    let x = in_quotes(w.q, w.name);
    let y = in_quotes(w.p, w.constraint);
    assert(x[0] == w.q && x.last() == w.q && y[0] == w.p && y.last() == w.p);
    assert((x + w.before)[0] == w.q);
    lemma_trim_end_blank(x, w.before);
    lemma_trim_start_blank(w.behind, y);
}

/// What `gather` begins with.
proof fn lemma_gather_front<R>(n: int, f: spec_fn(int) -> Option<R>)
    requires
        n >= 2,
        f(0) is Some,
        f(1) is Some,
    ensures
        gather(n, f).len() >= 2,
        gather(n, f)[0] == f(0)->0,
        gather(n, f)[1] == f(1)->0,
        forall|k: int|
            2 <= k < gather(n, f).len() ==> exists|i: int|
                2 <= i < n && #[trigger] f(i) == Some(#[trigger] gather(n, f)[k]),
    decreases n,
{
    if n == 2 {
        reveal_with_fuel(gather, 3);
        assert(gather(1, f) == seq![f(0)->0]);
        assert(gather(2, f) == seq![f(0)->0, f(1)->0]);
    } else {
        lemma_gather_front(n - 1, f);
        let before = gather(n - 1, f);
        assert forall|k: int| 2 <= k < gather(n, f).len() implies exists|i: int|
            2 <= i < n && #[trigger] f(i) == Some(#[trigger] gather(n, f)[k]) by {
            if k < before.len() {
                assert(gather(n, f)[k] == before[k]);
                let i = choose|i: int| 2 <= i < n - 1 && #[trigger] f(i) == Some(before[k]);
                assert(f(i) == Some(gather(n, f)[k]));
            } else {
                assert(f(n - 1) == Some(gather(n, f)[k]));
            }
        }
    }
}

/// A word of the options stands in them.
proof fn lemma_word_occurs(
    options: Seq<char>,
    t: Seq<char>,
    at: int,
    mark: Seq<char>,
    offset: int,
    word: Seq<char>,
)
    requires
        occurs_at(options, t, at),
        begins(trim(t), mark),
        occurs_at(mark, word, offset),
    ensures
        occurs(options, word),
{
    let u = trim_start(t);
    let k = t.len() - u.len();
    crate::text::trim::lemma_trim_start_suffix(t);
    crate::text::trim::lemma_trim_end_prefix(u);
    let v = trim(t);
    let i = at + k + offset;
    assert(u.take(v.len() as int) == v);
    assert(v.take(mark.len() as int) == mark);
    assert(options.subrange(at, at + t.len()) == t);
    assert(t.skip(k as int) == u);
    assert forall|j: int| 0 <= j < word.len() implies options[i + j] == word[j] by {
        assert(mark.subrange(offset, offset + word.len())[j] == mark[offset + j]);
        assert(v.take(mark.len() as int)[offset + j] == v[offset + j]);
        assert(u.take(v.len() as int)[offset + j] == u[offset + j]);
        assert(t.skip(k as int)[offset + j] == t[k + offset + j]);
        assert(options.subrange(at, at + t.len())[k + offset + j] == options[at + k + offset + j]);
    }
    assert(options.subrange(i as int, i + word.len()) == word);
    assert(occurs_at(options, word, i as int));
}

/// An option that takes the gem from somewhere else names `git` or `path`.
proof fn lemma_source_words(options: Seq<char>, t: Seq<char>, at: int)
    requires
        occurs_at(options, t, at),
        !occurs(options, "git"@),
        !occurs(options, "path"@),
    ensures
        !is_source_option(trim(t)),
{
    reveal_strlit("git:");
    reveal_strlit("path:");
    reveal_strlit("github:");
    reveal_strlit(":git");
    reveal_strlit(":path");
    reveal_strlit(":github");
    reveal_strlit("git");
    reveal_strlit("path");
    crate::text::trim::lemma_trim_trimmed(t);
    crate::text::trim::lemma_trim_keeps(trim(t));
    assert("git:"@.subrange(0, 3) == "git"@);
    assert("path:"@.subrange(0, 4) == "path"@);
    assert("github:"@.subrange(0, 3) == "git"@);
    assert(":git"@.subrange(1, 4) == "git"@);
    assert(":path"@.subrange(1, 5) == "path"@);
    assert(":github"@.subrange(1, 4) == "git"@);
    if is_source_option(trim(t)) {
        let v = trim(t);
        if begins(v, "git:"@) {
            lemma_word_occurs(options, t, at, "git:"@, 0, "git"@);
        } else if begins(v, "path:"@) {
            lemma_word_occurs(options, t, at, "path:"@, 0, "path"@);
        } else if begins(v, "github:"@) {
            lemma_word_occurs(options, t, at, "github:"@, 0, "git"@);
        } else if begins(v, ":git"@) {
            lemma_word_occurs(options, t, at, ":git"@, 1, "git"@);
        } else if begins(v, ":path"@) {
            lemma_word_occurs(options, t, at, ":path"@, 1, "path"@);
        } else {
            lemma_word_occurs(options, t, at, ":github"@, 1, "git"@);
        }
    }
}

/// A text between quotation marks is no option.
proof fn lemma_quoted_is_no_option(q: char, t: Seq<char>)
    requires
        is_quotable(q, t),
    ensures
        !is_source_option(in_quotes(q, t)),
{
    reveal_strlit("git:");
    reveal_strlit("path:");
    reveal_strlit("github:");
    reveal_strlit(":git");
    reveal_strlit(":path");
    reveal_strlit(":github");
    let s = in_quotes(q, t);
    assert(s[0] == q && s.last() == q);
    crate::text::trim::lemma_trim_keeps(s);
    lemma_not_first(s, "git:"@);
    lemma_not_first(s, "path:"@);
    lemma_not_first(s, "github:"@);
    lemma_not_first(s, ":git"@);
    lemma_not_first(s, ":path"@);
    lemma_not_first(s, ":github"@);
}

proof fn lemma_not_first(s: Seq<char>, p: Seq<char>)
    requires
        p.len() > 0,
        s.len() > 0,
        s[0] != p[0],
    ensures
        !begins(s, p),
{
    if begins(s, p) {
        assert(s.take(p.len() as int)[0] == s[0]);
    }
}

/// The arguments of the list: the name, the constraint, and options that take the gem
/// from nowhere else.
proof fn lemma_list(w: WrittenGem)
    requires
        w.valid(),
    ensures
        ({
            let found = tokens(w.list());
            let a = w.name.len() as int + 2 + w.before.len() + 1 + w.behind.len();
            &&& found.len() >= 2
            &&& found[0] == TokenView { at: 0, text: in_quotes(w.q, w.name) }
            &&& found[1] == TokenView { at: a, text: in_quotes(w.p, w.constraint) }
            &&& !is_sourced(found)
        }),
        forall|i: int| 0 <= i < w.list().len() ==> !#[trigger] is_bare(w.list(), i, '#'),
        scan(CommentStyle::Hash, w.list(), w.list().len() as int) == (false, false),
{
    let s = w.list();
    let n = w.front().len() as int;
    let x = in_quotes(w.q, w.name);
    let y = in_quotes(w.p, w.constraint);
    assert(s.take(n) == w.front());
    lemma_front(w, s);
    lemma_trimmed_arguments(w);
    let end = s.len() as int;
    assert forall|i: int| n <= i < end implies #[trigger] s[i] != '\'' && s[i] != '"' && s[i]
        != '#' by {
        assert(s[i] == w.options[i - n]);
    }
    lemma_scan_plain(s, n, end);
    assert(scan(CommentStyle::Hash, s, end) == (false, false));
    assert forall|i: int| 0 <= i < end implies !#[trigger] is_bare(s, i, '#') by {
        if i >= n {
            assert(s[i] != '#');
        }
    }
    let parts = arguments(s, end);
    let f = argument_at(parts);
    if w.options.len() > 0 {
        assert(s[n] == ',');
        assert(scan(CommentStyle::Hash, s, n) == (false, false));
        assert(is_bare(s, n, ','));
        let three = arguments(s, n + 1);
        assert(three == arguments(s, n).push(TokenView { at: n + 1, text: seq![] }));
        lemma_arguments_stay(s, n + 1, end);
        assert(parts[0] == three[0] && parts[1] == three[1]);
        lemma_argument_ends(s, end);
    } else {
        assert(s == w.front());
    }
    assert(f(0) == Some(TokenView { at: 0, text: x }));
    assert(f(1) is Some);
    assert((f(1)->0).text == y);
    lemma_gather_front(parts.len() as int, f);
    let found = tokens(s);
    assert forall|k: int| 0 <= k < found.len() implies !is_source_option(
        (#[trigger] found[k]).text,
    ) by {
        if k == 0 {
            lemma_quoted_is_no_option(w.q, w.name);
        } else if k == 1 {
            lemma_quoted_is_no_option(w.p, w.constraint);
        } else {
            let i = choose|i: int| 2 <= i < parts.len() && #[trigger] f(i) == Some(found[k]);
            let t = parts[i].text;
            let at = parts[i].at - n;
            assert(w.options.len() > 0);
            assert(parts[i].at >= n + 1);
            assert(s.subrange(parts[i].at, parts[i].at + t.len()) == t);
            assert(w.options.subrange(at, at + t.len()) == t);
            assert(occurs_at(w.options, t, at));
            lemma_source_words(w.options, t, at);
            assert(found[k].text == trim(t));
        }
    }
}

/// The argument list of a line.
proof fn lemma_line_list(w: WrittenGem)
    requires
        w.valid(),
    ensures
        gem_tokens(w.text()) == Some(tokens(w.list())),
        arguments_start(w.text()) == w.lead().len(),
        trim(w.text()).len() > 0,
        trim(w.text())[0] == 'g',
{
    reveal_strlit("gem");
    let line = w.text();
    let s = w.list();
    let tail = s + w.spaces + w.comment;
    lemma_list(w);
    assert(s[0] == w.q);
    if w.options.len() > 0 {
        assert(s.last() == w.options.last());
    } else {
        assert(s == w.front());
        assert(s.last() == w.p);
    }
    let u = "gem"@ + w.gap + tail;
    assert(line == w.indent + u);
    lemma_trim_start_blank(w.indent, u);
    let rest = if w.comment.len() == 0 {
        s
    } else {
        s + w.spaces + trim_end(w.comment)
    };
    if w.comment.len() == 0 {
        assert(tail == s + w.spaces);
        lemma_trim_end_blank(s, w.spaces);
    } else {
        lemma_trim_end_some(w.comment);
        assert(tail == (s + w.spaces) + w.comment);
        lemma_trim_end_behind(s + w.spaces, w.comment);
    }
    assert(trim_end(tail) == rest);
    lemma_trim_end_behind("gem"@ + w.gap, tail);
    let t = trim(line);
    assert(t == "gem"@ + w.gap + rest);
    assert(t.take(3) == "gem"@);
    assert(after(t, "gem"@) == w.gap + rest);
    assert((w.gap + rest)[0] == w.gap[0]);
    assert(rest[0] == w.q);
    lemma_trim_start_blank(w.gap, rest);
    if w.comment.len() == 0 {
        lemma_comment_off(rest, rest.len() as int);
    } else {
        let n = s.len() as int + w.spaces.len();
        assert(rest.take(s.len() as int) == s);
        lemma_scan_same(rest, s);
        assert(scan(CommentStyle::Hash, rest, s.len() as int) == (false, false));
        assert forall|i: int| s.len() <= i < n implies #[trigger] rest[i] != '\'' && rest[i] != '"'
            && rest[i] != '#' by {
            assert(rest[i] == w.spaces[i - s.len()]);
            assert(is_white_space(w.spaces[i - s.len()]));
        }
        lemma_scan_plain(rest, s.len() as int, n as int);
        assert(rest[n as int] == trim_end(w.comment)[0]);
        assert(scan(CommentStyle::Hash, rest, n as int) == (false, false));
        assert(is_bare(rest, n as int, '#'));
        assert forall|i: int| 0 <= i < n implies !#[trigger] is_bare(rest, i, '#') by {
            if i < s.len() {
                assert(!is_bare(s, i, '#'));
                assert(rest[i] == s[i]);
            } else {
                assert(rest[i] != '#');
            }
        }
        lemma_comment_off(rest, n as int);
        assert(rest.take(n as int) == s + w.spaces);
        lemma_trim_end_blank(s, w.spaces);
    }
}

/// A scan depends on what it has passed alone.
proof fn lemma_scan_same(a: Seq<char>, b: Seq<char>)
    requires
        begins(a, b),
    ensures
        forall|i: int|
            0 <= i <= b.len() ==> #[trigger] scan(CommentStyle::Hash, a, i) == scan(
                CommentStyle::Hash,
                b,
                i,
            ),
{
    assert forall|i: int| 0 <= i <= b.len() implies #[trigger] scan(CommentStyle::Hash, a, i)
        == scan(CommentStyle::Hash, b, i) by {
        assert forall|k: int| 0 <= k < i implies a[k] == b[k] by {
            assert(a.take(b.len() as int)[k] == a[k]);
        }
        crate::text::comments::lemma_scan_prefix(CommentStyle::Hash, a, b, i);
    }
}

/// Every line of a `Gemfile` that names a gem and a constraint behind it, between
/// quotation marks of either kind, declares a dependency of that name with that
/// constraint, whatever white space, harmless options or comment stand around them;
/// and the range of the constraint is where it stands.
pub proof fn law_gem_line_declares(content: Seq<char>, i: int, w: WrittenGem)
    requires
        0 <= i < lines(content).len(),
        i <= u32::MAX,
        lines(content)[i] == w.text(),
        w.valid(),
    ensures
        gemfile(content).contains(
            (DependencyView {
                name: w.name,
                constraint: w.constraint,
                range: range_behind(i, w.lead() + w.head(), w.constraint),
            }),
        ),
{
    let line = w.text();
    let found = tokens(w.list());
    lemma_list(w);
    lemma_line_list(w);
    lemma_unquoted(w.q, w.name);
    lemma_unquoted(w.p, w.constraint);
    let f = holds_constraint(found);
    assert(f(1)) by {
        lemma_looks(w.constraint);
    }
    assert(!f(0));
    lemma_least_is(found.len() as int, f, 1);
    let at = w.lead().len() as int + w.head().len();
    assert(arguments_start(line) + inner_start(found[1]) == at);
    assert(line.take(at as int) == w.lead() + w.head());
    let k = at - 1;
    assert(line.subrange(k as int, k + w.constraint.len() + 2) == in_quotes(w.p, w.constraint));
    assert(is_quoted_on(line, w.constraint)) by {
        if w.p == '\'' {
            assert(in_quotes(w.p, w.constraint) == single_quoted(w.constraint));
            assert(occurs_at(line, single_quoted(w.constraint), k as int));
        } else {
            assert(in_quotes(w.p, w.constraint) == quoted(w.constraint));
            assert(occurs_at(line, quoted(w.constraint), k as int));
        }
    }
    let dep = DependencyView {
        name: w.name,
        constraint: w.constraint,
        range: range_behind(i, w.lead() + w.head(), w.constraint),
    };
    assert(gemfile_line(line, i as u32) == Some(dep));
    let ls = lines(content);
    let g = gemfile_at(ls);
    assert(g(i) == Some(dep));
    lemma_gathered(ls.len() as int, g, i);
    let m = choose|m: int|
        0 <= m < gather(ls.len() as int, g).len() && #[trigger] gather(ls.len() as int, g)[m]
            == dep;
    assert(gemfile(content)[m] == dep);
}

/// What begins like a constraint looks like one.
proof fn lemma_looks(t: Seq<char>)
    requires
        opens_constraint(t),
    ensures
        looks_like_constraint(t),
{
    assert(trim_start(t) == t);
    lemma_trim_end_some(t);
}

/// The words of an option that takes a gem from somewhere else than the registry.
pub open spec fn is_source_word(word: Seq<char>) -> bool {
    ||| word == "git:"@
    ||| word == "path:"@
    ||| word == "github:"@
    ||| word == ":git"@
    ||| word == ":path"@
    ||| word == ":github"@
}

/// An argument that begins with such a word is such an option.
proof fn lemma_word_is_option(t: Seq<char>, blank: Seq<char>, word: Seq<char>)
    requires
        is_blank(blank),
        is_source_word(word),
        begins(t, blank + word),
    ensures
        trim(t).len() > 0,
        is_source_option(trim(t)),
{
    reveal_strlit("git:");
    reveal_strlit("path:");
    reveal_strlit("github:");
    reveal_strlit(":git");
    reveal_strlit(":path");
    reveal_strlit(":github");
    let rest = t.skip(blank.len() as int);
    assert(t.take((blank + word).len() as int) == blank + word);
    assert(t == blank + rest) by {
        assert(t.take(blank.len() as int) == (blank + word).take(blank.len() as int));
        assert((blank + word).take(blank.len() as int) == blank);
    }
    assert(rest.take(word.len() as int) == word) by {
        assert(rest.take(word.len() as int) == (blank + word).skip(blank.len() as int));
        assert((blank + word).skip(blank.len() as int) == word);
    }
    assert(rest[0] == rest.take(word.len() as int)[0]);
    lemma_trim_start_blank(blank, rest);
    lemma_begin_stays(rest, word);
    crate::text::trim::lemma_trim_trimmed(t);
    crate::text::trim::lemma_trim_keeps(trim(t));
}

/// Some argument of a list that begins with such an option is one.
proof fn lemma_sourced(
    w: WrittenGem,
    options: Seq<char>,
    blank: Seq<char>,
    word: Seq<char>,
    s: Seq<char>,
)
    requires
        w.begins_well(),
        is_unquoted(options),
        options.len() > 0 ==> options[0] == ',',
        is_blank(blank),
        is_source_word(word),
        begins(s, w.front() + options + seq![','] + blank + word),
    ensures
        is_sourced(tokens(s)),
{
    reveal_strlit("git:");
    reveal_strlit("path:");
    reveal_strlit("github:");
    reveal_strlit(":git");
    reveal_strlit(":path");
    reveal_strlit(":github");
    let f = w.front() + options + seq![','] + blank + word;
    let n = w.front().len() as int;
    let p = n + options.len() as int;
    let q = f.len() as int;
    assert(s.take(q) == f);
    assert forall|i: int| 0 <= i < q implies #[trigger] s[i] == f[i] by {
        assert(s.take(q)[i] == s[i]);
    }
    assert(s.take(n) == f.take(n));
    assert(f.take(n) == w.front());
    lemma_front(w, s);
    assert forall|i: int| n <= i < q implies #[trigger] s[i] != '\'' && s[i] != '"' && (i > p
        ==> s[i] != ',') by {
        if i < p {
            assert(f[i] == options[i - n]);
        } else if i == p {
            assert(f[i] == ',');
        } else if i < p + 1 + blank.len() {
            assert(f[i] == blank[i - p - 1]);
            assert(is_white_space(blank[i - p - 1]));
        } else {
            assert(f[i] == word[i - p - 1 - blank.len()]);
        }
    }
    lemma_scan_plain(s, n, q);
    assert(f[p] == ',');
    assert(scan(CommentStyle::Hash, s, p) == (false, false));
    assert(is_bare(s, p, ','));
    lemma_argument_ends(s, p);
    let before = arguments(s, p);
    assert(arguments(s, p + 1) == before.push(TokenView { at: p + 1, text: seq![] }));
    assert forall|i: int| p + 1 <= i < q implies !#[trigger] is_bare(s, i, ',') by {
        assert(s[i] != ',');
    }
    lemma_arguments_go_on(s, p + 1, q);
    let none = Seq::<char>::empty();
    assert(s.subrange(p + 1, q) == f.subrange(p + 1, q));
    assert(f.subrange(p + 1, q) == blank + word);
    assert(none + s.subrange(p + 1, q) == blank + word);
    let some = arguments(s, q);
    let k = some.len() - 1;
    assert(some[k].text == blank + word);
    let end = s.len() as int;
    lemma_arguments_stay(s, q, end);
    let parts = arguments(s, end);
    assert(begins(parts[k].text, blank + word));
    lemma_word_is_option(parts[k].text, blank, word);
    let g = argument_at(parts);
    assert(g(k) == Some(trimmed_token(parts[k])));
    lemma_gathered(parts.len() as int, g, k);
    let found = tokens(s);
    let m = choose|m: int| 0 <= m < found.len() && #[trigger] found[m] == trimmed_token(parts[k]);
    assert(is_source_option(found[m].text));
}

/// A `gem` line with an option that takes the gem from somewhere else than the
/// registry declares nothing, whatever else stands on it.
pub proof fn law_sourced_gem_declares_nothing(
    line: Seq<char>,
    index: u32,
    w: WrittenGem,
    options: Seq<char>,
    blank: Seq<char>,
    word: Seq<char>,
    behind: Seq<char>,
)
    requires
        w.begins_well(),
        is_unquoted(options),
        options.len() > 0 ==> options[0] == ',',
        is_blank(blank),
        is_source_word(word),
        line == w.lead() + w.front() + options + seq![','] + blank + word + behind,
    ensures
        gemfile_line(line, index) is None,
{
    reveal_strlit("gem");
    reveal_strlit("git:");
    reveal_strlit("path:");
    reveal_strlit("github:");
    reveal_strlit(":git");
    reveal_strlit(":path");
    reveal_strlit(":github");
    let f = w.front() + options + seq![','] + blank + word;
    let g = "gem"@ + w.gap + f;
    let u = g + behind;
    assert(line == w.indent + u);
    assert(u[0] == 'g');
    lemma_trim_start_blank(w.indent, u);
    assert(u.take(g.len() as int) == g);
    assert(f.last() == word.last());
    assert(g.last() == word.last());
    lemma_begin_stays(u, g);
    let t = trim(line);
    assert(t.take(g.len() as int) == g);
    let tail = t.skip(g.len() as int);
    let r = f + tail;
    assert(t == g + tail) by {
        assert(t.take(g.len() as int) + tail == t);
    }
    assert(t.take(3) == "gem"@);
    assert(after(t, "gem"@) == w.gap + r);
    assert((w.gap + r)[0] == w.gap[0]);
    assert(w.front()[0] == w.q);
    assert(r[0] == w.q);
    lemma_trim_start_blank(w.gap, r);
    assert(r.take(f.len() as int) == f);
    let n = w.front().len() as int;
    assert(r.take(n) == w.front());
    lemma_front(w, r);
    assert forall|i: int| 0 <= i < f.len() implies !#[trigger] is_bare(r, i, '#') by {
        if i >= n {
            let p = n + options.len() as int;
            assert(r[i] == f[i]);
            if i < p {
                assert(f[i] == options[i - n]);
            } else if i == p {
                assert(f[i] == ',');
            } else if i < p + 1 + blank.len() {
                assert(f[i] == blank[i - p - 1]);
                assert(is_white_space(blank[i - p - 1]));
            } else {
                assert(f[i] == word[i - p - 1 - blank.len()]);
            }
        }
    }
    lemma_front_stays(r, f);
    lemma_sourced(w, options, blank, word, without_comment(r));
}

/// A blank line, a comment, and a line that does not begin with `gem` and white space
/// declare nothing.
pub proof fn law_other_gem_lines_declare_nothing(indent: Seq<char>, rest: Seq<char>, index: u32)
    requires
        is_blank(indent),
        rest.len() > 0 ==> !is_white_space(rest[0]),
        rest.len() < 4 || rest[0] != 'g' || rest[1] != 'e' || rest[2] != 'm' || !is_white_space(
            rest[3],
        ),
    ensures
        gemfile_line(indent + rest, index) is None,
{
    reveal_strlit("gem");
    let line = indent + rest;
    if rest.len() == 0 {
        assert(line == indent);
        lemma_nothing_left(indent);
    } else {
        lemma_trim_start_blank(indent, rest);
        crate::text::trim::lemma_trim_end_prefix(rest);
        let t = trim(line);
        assert(rest.take(t.len() as int) == t);
        if begins(t, "gem"@) {
            assert(t.take(3)[0] == t[0] && t.take(3)[1] == t[1] && t.take(3)[2] == t[2]);
            assert(rest.take(t.len() as int)[0] == rest[0]);
            assert(rest.take(t.len() as int)[1] == rest[1]);
            assert(rest.take(t.len() as int)[2] == rest[2]);
            if after(t, "gem"@).len() > 0 {
                assert(after(t, "gem"@)[0] == t[3]);
                assert(rest.take(t.len() as int)[3] == rest[3]);
            }
        }
    }
}

/// Nothing is left of white space.
proof fn lemma_nothing_left(s: Seq<char>)
    requires
        is_blank(s),
    ensures
        trim_start(s).len() == 0,
    decreases s.len(),
{
    if s.len() > 0 {
        lemma_nothing_left(s.skip(1));
    }
}

/// What a line declares has a name, and a constraint that begins with a digit or a
/// comparison and stands on the line between quotation marks.
pub proof fn law_declared_gem(line: Seq<char>, index: u32)
    requires
        gemfile_line(line, index) is Some,
    ensures
        ({
            let dep = gemfile_line(line, index)->0;
            &&& dep.name.len() > 0
            &&& opens_constraint(trim(dep.constraint))
            &&& occurs(line, in_quotes('\'', dep.constraint)) || occurs(
                line,
                in_quotes('"', dep.constraint),
            )
        }),
{
    let list = gem_tokens(line)->0;
    let f = holds_constraint(list);
    crate::listing::lemma_least(list.len() as int, f);
    let i = least(list.len() as int, f)->0;
    assert(f(i));
    let dep = gemfile_line(line, index)->0;
    assert(in_quotes('\'', dep.constraint) == single_quoted(dep.constraint));
    assert(in_quotes('"', dep.constraint) == quoted(dep.constraint));
}

} // verus!
