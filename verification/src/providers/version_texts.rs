//! The version texts of registries, piece by piece: which version they stand for.
use vstd::prelude::*;
use super::composer::{all_numbers, composer_version, is_unstable, numbers_text, unmarked};
use super::pypi::{is_pre_text, padded_number, pypi_prerelease, pypi_release, tag_of, without_post};
use super::rubygems::gem_version;
use crate::text::chars::{is_digit, is_letter, lower, lowercase};
use crate::text::number::{decimal, lemma_decimal, number};
use crate::text::search::{
    begins, lemma_find, lemma_find_is, lemma_find_where_is, lemma_split_none, lemma_split_push,
    occurs, occurs_at, split,
};
use crate::version::{
    has_leading_zero, is_identifier, is_pre_tag, is_tag_char, law_display_of_parse,
    law_parse_of_display, lemma_number_unique, marked, version_of, VersionView,
};
use crate::version_utils::written::{
    dotted, lemma_decimal_number, lemma_filled, lemma_number_parts, lemma_numbered, numbered,
};

verus! {

/// Behind every dot stands a digit, and in front of the first character none is
/// needed.
spec fn dots_before_digits(s: Seq<char>) -> bool {
    forall|i: int| 0 <= i < s.len() && #[trigger] s[i] == '.' ==> i + 1 < s.len() && is_digit(s[i + 1])
}

/// Nothing but digits and dots.
spec fn is_numeric(s: Seq<char>) -> bool {
    forall|i: int| 0 <= i < s.len() ==> is_digit(#[trigger] s[i]) || s[i] == '.'
}

/// One, two or three numbers with dots between them.
pub open spec fn numbers_up_to(count: int, a: u64, b: u64, c: u64) -> Seq<char> {
    if count == 1 {
        decimal(a as nat)
    } else if count == 2 {
        dotted(a, b)
    } else {
        numbered(a, b, c).display()
    }
}

/// The version that they stand for.
pub open spec fn filled_up(count: int, a: u64, b: u64, c: u64) -> VersionView {
    if count == 1 {
        numbered(a, 0, 0)
    } else if count == 2 {
        numbered(a, b, 0)
    } else {
        numbered(a, b, c)
    }
}

/// The shape of numbers with dots between them.
proof fn lemma_numbers(count: int, a: u64, b: u64, c: u64)
    requires
        1 <= count <= 3,
    ensures
        ({
            let t = numbers_up_to(count, a, b, c);
            &&& t.len() > 0
            &&& is_digit(t[0])
            &&& is_digit(t.last())
            &&& is_numeric(t)
            &&& dots_before_digits(t)
            &&& split(t, '.').len() == count
            &&& all_numbers(split(t, '.'))
        }),
{
    let t = numbers_up_to(count, a, b, c);
    let x = decimal(a as nat);
    let y = decimal(b as nat);
    let z = decimal(c as nat);
    lemma_decimal(a as nat);
    lemma_decimal(b as nat);
    lemma_decimal(c as nat);
    lemma_decimal_number(a);
    lemma_decimal_number(b);
    lemma_decimal_number(c);
    lemma_number_parts(a, b, c);
    lemma_numbered(a, b, c);
    assert(is_digit(x[0]) && is_digit(y[0]) && is_digit(z[0]));
    assert(is_digit(x[x.len() - 1]) && is_digit(y[y.len() - 1]) && is_digit(z[z.len() - 1]));
    let m = x.len() as int;
    let n = m + 1 + y.len();
    assert forall|i: int| 0 <= i < t.len() implies (is_digit(#[trigger] t[i]) || t[i] == '.') && (
    t[i] == '.' ==> i + 1 < t.len() && is_digit(t[i + 1])) by {
        if i < m {
            assert(t[i] == x[i]);
            assert(is_digit(x[i]));
        } else if i == m {
            assert(t[i + 1] == y[0]);
        } else if i < n {
            assert(t[i] == y[i - m - 1]);
            assert(is_digit(y[i - m - 1]));
        } else if i == n {
            assert(t[i + 1] == z[0]);
        } else {
            assert(t[i] == z[i - n - 1]);
            assert(is_digit(z[i - n - 1]));
        }
    }
    assert(t[0] == x[0]);
    if count == 1 {
        assert(t.last() == x.last());
    } else if count == 2 {
        assert(t.last() == y.last());
    } else {
        assert(t.last() == z.last());
    }
    let parts = split(t, '.');
    assert forall|i: int| 0 <= i < parts.len() implies number(#[trigger] parts[i]) is Some by {
        if i == 0 {
            assert(parts[0] == x);
        } else if i == 1 {
            assert(parts[1] == y);
        } else {
            assert(parts[2] == z);
        }
    }
}

/// Where behind every dot stands a digit, no dot stands before a letter.
proof fn lemma_no_dotted_word(s: Seq<char>, word: Seq<char>)
    requires
        dots_before_digits(s),
        word.len() > 1,
        word[0] == '.',
        is_letter(word[1]),
    ensures
        !occurs(lowercase(s), word),
{
    let l = lowercase(s);
    assert forall|i: int| !occurs_at(l, word, i) by {
        if occurs_at(l, word, i) {
            let part = l.subrange(i, i + word.len());
            assert(part[0] == l[i] && part[1] == l[i + 1]);
            assert(l[i] == lower(s[i]) && l[i + 1] == lower(s[i + 1]));
            assert(s[i] == '.');
            assert(is_digit(s[i + 1]));
        }
    }
}

/// Two and three numbers are a stable version on pypi.org, which stands for the
/// release with these numbers.
pub proof fn law_pypi_stable_text(count: int, a: u64, b: u64, c: u64)
    requires
        2 <= count <= 3,
    ensures
        !is_pre_text(numbers_up_to(count, a, b, c)),
        pypi_release(numbers_up_to(count, a, b, c)) == Some(filled_up(count, a, b, c)),
{
    let t = numbers_up_to(count, a, b, c);
    reveal_strlit(".dev");
    reveal_strlit(".post");
    lemma_numbers(count, a, b, c);
    lemma_no_dotted_word(t, ".dev"@);
    lemma_no_dotted_word(t, ".post"@);
    lemma_filled(a, b);
    lemma_numbered(a, b, 0);
    lemma_numbered(a, b, c);
    if is_pre_text(t) {
        let i = choose|i: int| 0 <= i < t.len() && is_letter(#[trigger] t[i]);
        assert(is_digit(t[i]) || t[i] == '.');
    }
    assert(without_post(t) == t);
}

/// A post-release on pypi.org is stable and stands for its release.
pub proof fn law_pypi_post_text(count: int, a: u64, b: u64, c: u64, post: u64)
    requires
        2 <= count <= 3,
    ensures
        ({
            let s = numbers_up_to(count, a, b, c) + ".post"@ + decimal(post as nat);
            !is_pre_text(s) && pypi_release(s) == Some(filled_up(count, a, b, c))
        }),
{
    let t = numbers_up_to(count, a, b, c);
    let d = decimal(post as nat);
    let s = t + ".post"@ + d;
    let l = lowercase(s);
    let n = t.len() as int;
    reveal_strlit(".dev");
    reveal_strlit(".post");
    lemma_numbers(count, a, b, c);
    lemma_decimal(post as nat);
    law_pypi_stable_text(count, a, b, c);
    lemma_no_dotted_word(t, ".post"@);
    assert(without_post(t) == t);
    assert forall|i: int| 0 <= i < l.len() && #[trigger] l[i] == '.' && i != n implies i + 1 < l.len()
        && is_digit(l[i + 1]) by {
        if i < n {
            assert(l[i] == lower(t[i]));
            assert(t[i] == '.');
            assert(is_digit(t[i + 1]));
            assert(l[i + 1] == lower(t[i + 1]));
        } else if i < n + 5 {
            assert(l[i] == lower(".post"@[i - n]));
        } else {
            assert(l[i] == lower(d[i - n - 5]));
            assert(is_digit(d[i - n - 5]));
        }
    }
    assert(l.subrange(n, n + 5) == ".post"@);
    assert forall|i: int| 0 <= i < n implies !occurs_at(l, ".post"@, i) by {
        if occurs_at(l, ".post"@, i) {
            let part = l.subrange(i, i + 5);
            assert(part[0] == l[i] && part[1] == l[i + 1]);
        }
    }
    lemma_find_is(l, ".post"@, n);
    assert(occurs(l, ".post"@));
    assert forall|i: int| !occurs_at(l, ".dev"@, i) by {
        if occurs_at(l, ".dev"@, i) {
            let part = l.subrange(i, i + 4);
            assert(part[0] == l[i] && part[1] == l[i + 1]);
            if i == n {
                assert(l[n + 1] == lower(".post"@[1]));
            }
        }
    }
    assert(s.take(n) == t);
}

/// A development version on pypi.org is no stable version and stands for none.
pub proof fn law_pypi_dev_text(s: Seq<char>, before: Seq<char>, behind: Seq<char>)
    requires
        s == before + ".dev"@ + behind,
    ensures
        is_pre_text(s),
        pypi_prerelease(s) is None,
{
    reveal_strlit(".dev");
    let l = lowercase(s);
    let n = before.len() as int;
    assert(l.subrange(n, n + 4) == ".dev"@);
    assert(occurs_at(l, ".dev"@, n));
}

/// The tag that stands for a marker.
pub open spec fn is_marker(marker: Seq<char>, tag: Seq<char>) -> bool {
    ||| marker == "a"@ && tag == "alpha"@
    ||| marker == "alpha"@ && tag == "alpha"@
    ||| marker == "b"@ && tag == "beta"@
    ||| marker == "beta"@ && tag == "beta"@
    ||| marker == "rc"@ && tag == "rc"@
}

/// A tag made of a word and a number is a prerelease tag.
proof fn lemma_word_tag(word: Seq<char>, n: u64)
    requires
        word.len() > 0,
        forall|i: int| 0 <= i < word.len() ==> is_letter(#[trigger] word[i]),
    ensures
        is_pre_tag(word.push('.') + decimal(n as nat)),
{
    let d = decimal(n as nat);
    let tag = word.push('.') + d;
    lemma_decimal(n as nat);
    assert forall|i: int| 0 <= i < d.len() implies #[trigger] d[i] != '.' by {
        assert(is_digit(d[i]));
    }
    lemma_split_none(word, '.');
    lemma_split_push(word, '.', d);
    let parts = split(tag, '.');
    assert(parts == seq![word, d]);
    assert(is_identifier(word));
    assert(is_identifier(d)) by {
        assert forall|i: int| 0 <= i < d.len() implies is_tag_char(#[trigger] d[i]) by {
            assert(is_digit(d[i]));
        }
    }
    assert(!has_leading_zero(word)) by {
        assert(is_letter(word[0]));
    }
    assert forall|i: int| 0 <= i < parts.len() implies is_identifier(#[trigger] parts[i])
        && !has_leading_zero(parts[i]) by {}
}

/// The version of a prerelease text.
pub open spec fn tagged(v: VersionView, tag: Seq<char>, n: u64) -> VersionView {
    VersionView { pre: tag.push('.') + decimal(n as nat), ..v }
}

/// What a marker with a number behind it stands for.
proof fn lemma_tag_of(marker: Seq<char>, tag: Seq<char>, n: u64)
    requires
        is_marker(marker, tag),
    ensures
        tag_of(marker + decimal(n as nat)) == Some(tag.push('.') + decimal(n as nat)),
        marker.len() > 0,
        forall|i: int| 0 <= i < marker.len() ==> 'a' <= #[trigger] marker[i] && marker[i] <= 'z',
        tag.len() > 0,
        forall|i: int| 0 <= i < tag.len() ==> is_letter(#[trigger] tag[i]),
{
    reveal_strlit("a");
    reveal_strlit("alpha");
    reveal_strlit("b");
    reveal_strlit("beta");
    reveal_strlit("rc");
    reveal_strlit("rc.");
    reveal_strlit("alpha.");
    reveal_strlit("beta.");
    let d = decimal(n as nat);
    let s = marker + d;
    lemma_decimal(n as nat);
    assert(is_digit(d[0]));
    assert(s.skip(marker.len() as int) == d);
    assert(s.take(marker.len() as int) == marker);
    assert(s[0] == marker[0]);
    if marker.len() == 1 {
        assert(s[1] == d[0]);
    } else {
        assert(s[1] == marker[1]);
    }
    if begins(s, "rc"@) {
        assert(s.take(2)[0] == s[0]);
    }
    if begins(s, "alpha"@) {
        assert(s.take(5)[0] == s[0] && s.take(5)[1] == s[1]);
    }
    if begins(s, "a"@) {
        assert(s.take(1)[0] == s[0]);
    }
    if begins(s, "beta"@) {
        assert(s.take(4)[0] == s[0] && s.take(4)[1] == s[1]);
    }
    assert("rc."@ == "rc"@.push('.'));
    assert("alpha."@ == "alpha"@.push('.'));
    assert("beta."@ == "beta"@.push('.'));
    assert("rc."@ + d == "rc"@.push('.') + d);
    assert("alpha."@ + d == "alpha"@.push('.') + d);
    assert("beta."@ + d == "beta"@.push('.') + d);
}

/// Numbers with a marker and a number behind them mark a prerelease on pypi.org,
/// which stands for the version with these numbers and the marker's tag.
pub proof fn law_pypi_prerelease_text(
    count: int,
    a: u64,
    b: u64,
    c: u64,
    marker: Seq<char>,
    tag: Seq<char>,
    n: u64,
)
    requires
        1 <= count <= 3,
        is_marker(marker, tag),
    ensures
        ({
            let s = numbers_up_to(count, a, b, c) + marker + decimal(n as nat);
            is_pre_text(s) && pypi_prerelease(s) == Some(tagged(filled_up(count, a, b, c), tag, n))
        }),
{
    let t = numbers_up_to(count, a, b, c);
    let d = decimal(n as nat);
    let s = t + marker + d;
    let k = t.len() as int;
    let f = |x: char| is_letter(x);
    reveal_strlit(".dev");
    reveal_strlit(".post");
    reveal_strlit("-");
    lemma_numbers(count, a, b, c);
    lemma_decimal(n as nat);
    lemma_tag_of(marker, tag, n);
    lemma_word_tag(tag, n);
    lemma_filled(a, b);
    lemma_numbered(a, 0, 0);
    lemma_numbered(a, b, 0);
    lemma_numbered(a, b, c);
    assert(dots_before_digits(s)) by {
        assert forall|i: int| 0 <= i < s.len() && #[trigger] s[i] == '.' implies i + 1 < s.len()
            && is_digit(s[i + 1]) by {
            if i < k {
                assert(s[i] == t[i]);
                assert(is_digit(t[i + 1]));
                assert(s[i + 1] == t[i + 1]);
            } else if i < k + marker.len() {
                assert(s[i] == marker[i - k]);
            } else {
                assert(s[i] == d[i - k - marker.len()]);
                assert(is_digit(d[i - k - marker.len()]));
            }
        }
    }
    lemma_no_dotted_word(s, ".dev"@);
    lemma_no_dotted_word(s, ".post"@);
    assert(s[k] == marker[0]);
    assert(is_letter(s[k]));
    assert(is_pre_text(s));
    assert forall|i: int| 0 <= i < k implies !f(s[i]) by {
        assert(s[i] == t[i]);
    }
    lemma_find_where_is(s, f, k);
    assert(s.take(k) == t);
    let l = lowercase(s);
    assert(l.skip(k) == marker + d) by {
        assert forall|i: int| 0 <= i < marker.len() + d.len() implies l.skip(k)[i] == (marker
            + d)[i] by {
            assert(l.skip(k)[i] == lower(s[k + i]));
            if i < marker.len() {
                assert(s[k + i] == marker[i]);
            } else {
                assert(s[k + i] == d[i - marker.len()]);
                assert(is_digit(d[i - marker.len()]));
            }
        }
        assert(l.skip(k) =~= marker + d);
    }
    let v = filled_up(count, a, b, c);
    let w = tagged(v, tag, n);
    assert(padded_number(t) == Some(v.display()));
    assert(w.valid());
    assert(w.display() == v.display() + "-"@ + w.pre);
    law_parse_of_display(w);
}

/// A text without a letter is stable, and one with a letter is not, unless it marks a
/// post-release.
pub proof fn law_letters_mark_prereleases(s: Seq<char>)
    ensures
        (forall|i: int| 0 <= i < s.len() ==> is_digit(#[trigger] s[i]) || s[i] == '.')
            ==> !is_pre_text(s),
        (exists|i: int| 0 <= i < s.len() && is_letter(#[trigger] s[i])) && (forall|i: int|
            0 <= i < s.len() - 1 && #[trigger] s[i] == '.' ==> !is_letter(s[i + 1]))
            ==> is_pre_text(s),
{
    reveal_strlit(".dev");
    reveal_strlit(".post");
    let l = lowercase(s);
    if forall|i: int| 0 <= i < s.len() ==> is_digit(#[trigger] s[i]) || s[i] == '.' {
        assert forall|i: int| !occurs_at(l, ".dev"@, i) by {
            if occurs_at(l, ".dev"@, i) {
                let part = l.subrange(i, i + 4);
                assert(part[1] == l[i + 1]);
                assert(l[i + 1] == lower(s[i + 1]));
            }
        }
    }
    if forall|i: int| 0 <= i < s.len() - 1 && #[trigger] s[i] == '.' ==> !is_letter(s[i + 1]) {
        assert forall|i: int| !occurs_at(l, ".post"@, i) by {
            if occurs_at(l, ".post"@, i) {
                let part = l.subrange(i, i + 5);
                assert(part[0] == l[i] && part[1] == l[i + 1]);
                assert(l[i] == lower(s[i]) && l[i + 1] == lower(s[i + 1]));
                assert(s[i] == '.');
            }
        }
    }
}

/// One, two and three numbers are a gem version, which stands for the version with
/// these numbers; the text of a version is one too.
pub proof fn law_gem_text(count: int, a: u64, b: u64, c: u64, v: VersionView)
    requires
        1 <= count <= 3,
        v.valid(),
    ensures
        gem_version(numbers_up_to(count, a, b, c)) == Some(filled_up(count, a, b, c)),
        gem_version(v.display()) == Some(v),
{
    lemma_numbers(count, a, b, c);
    lemma_filled(a, b);
    lemma_numbered(a, 0, 0);
    lemma_numbered(a, b, 0);
    lemma_numbered(a, b, c);
    law_parse_of_display(v);
}

/// A `v` of either case, or nothing.
pub open spec fn is_v(v: Seq<char>) -> bool {
    v.len() == 0 || (v.len() == 1 && (v[0] == 'v' || v[0] == 'V'))
}

/// Two and three numbers are a Composer version, with a `v` before them or not, and
/// stand for the release with these numbers; of four numbers the first three count.
pub proof fn law_composer_text(v: Seq<char>, count: int, a: u64, b: u64, c: u64, d: u64)
    requires
        is_v(v),
        2 <= count <= 3,
    ensures
        composer_version(v + numbers_up_to(count, a, b, c)) == Some(filled_up(count, a, b, c)),
        composer_version(v + numbered(a, b, c).display().push('.') + decimal(d as nat)) == Some(
            numbered(a, b, c),
        ),
{
    reveal_strlit(".");
    let t = numbers_up_to(count, a, b, c);
    lemma_numbers(count, a, b, c);
    lemma_filled(a, b);
    lemma_numbered(a, b, 0);
    lemma_numbered(a, b, c);
    lemma_unmarked(v, t);
    let three = numbered(a, b, c).display();
    let four = three.push('.') + decimal(d as nat);
    lemma_numbers(3, a, b, c);
    assert(four[0] == three[0]);
    lemma_unmarked(v, four);
    assert(v + four == v + three.push('.') + decimal(d as nat));
    lemma_four_is_none(a, b, c, d);
    lemma_number_parts(a, b, c);
    lemma_decimal(d as nat);
    let z = decimal(d as nat);
    assert forall|i: int| 0 <= i < z.len() implies #[trigger] z[i] != '.' by {
        assert(is_digit(z[i]));
    }
    lemma_split_push(three, '.', z);
    let parts = split(four, '.');
    assert(parts == seq![decimal(a as nat), decimal(b as nat), decimal(c as nat), z]);
    lemma_decimal_number(a);
    lemma_decimal_number(b);
    lemma_decimal_number(c);
    lemma_decimal_number(d);
    assert(all_numbers(parts));
    assert(parts[0] + "."@ + parts[1] + "."@ + parts[2] == three);
}

/// A `v` comes off.
proof fn lemma_unmarked(v: Seq<char>, t: Seq<char>)
    requires
        is_v(v),
        t.len() > 0,
        t[0] != 'v' && t[0] != 'V',
    ensures
        unmarked(v + t) == t,
{
    if v.len() == 0 {
        assert(v + t == t);
    } else {
        assert((v + t).skip(1) == t);
    }
}

/// Pieces with dots between them, from the left and from the right.
proof fn lemma_pieces(x: Seq<char>, y: Seq<char>, z: Seq<char>, p: Seq<char>, q: Seq<char>)
    ensures
        x.push('.') + y.push('.') + z + p + q == x + (seq!['.'] + (y + (seq!['.'] + (z + (p + q))))),
        (x.push('.') + y).push('.') + z == x + (seq!['.'] + (y + (seq!['.'] + z))),
{
    assert(x.push('.') + y.push('.') + z + p + q =~= x + (seq!['.'] + (y + (seq!['.'] + (z + (p
        + q))))));
    assert((x.push('.') + y).push('.') + z =~= x + (seq!['.'] + (y + (seq!['.'] + z))));
}

/// Behind the same mark the same follows.
proof fn lemma_behind_dot(x: Seq<char>, y: Seq<char>)
    requires
        seq!['.'] + x == seq!['.'] + y,
    ensures
        x == y,
{
    assert((seq!['.'] + x).skip(1) == x);
    assert((seq!['.'] + y).skip(1) == y);
}

/// Four numbers are no version.
proof fn lemma_four_is_none(a: u64, b: u64, c: u64, d: u64)
    ensures
        version_of(numbered(a, b, c).display().push('.') + decimal(d as nat)) is None,
{
    let s = numbered(a, b, c).display().push('.') + decimal(d as nat);
    if version_of(s) is Some {
        let v = version_of(s)->0;
        law_display_of_parse(s);
        let tail = marked('-', v.pre) + marked('+', v.build);
        lemma_pieces(
            decimal(v.major as nat),
            decimal(v.minor as nat),
            decimal(v.patch as nat),
            marked('-', v.pre),
            marked('+', v.build),
        );
        lemma_numbered(a, b, c);
        lemma_pieces(decimal(a as nat), decimal(b as nat), decimal(c as nat), seq![], seq![]);
        let rest = seq!['.'] + decimal(d as nat);
        lemma_push_behind(decimal(a as nat), decimal(b as nat), decimal(c as nat), rest);
        assert(s == numbered(a, b, c).display() + rest);
        lemma_three_unique(v.major, v.minor, v.patch, tail, a, b, c, rest);
        assert(rest[0] == '.');
    }
}

/// What stands behind the last piece.
proof fn lemma_push_behind(x: Seq<char>, y: Seq<char>, z: Seq<char>, rest: Seq<char>)
    ensures
        x + (seq!['.'] + (y + (seq!['.'] + z))) + rest == x + (seq!['.'] + (y + (seq!['.'] + (z
            + rest)))),
{
    assert(x + (seq!['.'] + (y + (seq!['.'] + z))) + rest =~= x + (seq!['.'] + (y + (seq!['.'] + (z
        + rest)))));
}

/// Three numbers are found again at the front of a text.
proof fn lemma_three_unique(
    a: u64,
    b: u64,
    c: u64,
    x: Seq<char>,
    d: u64,
    e: u64,
    f: u64,
    y: Seq<char>,
)
    requires
        decimal(a as nat) + (seq!['.'] + (decimal(b as nat) + (seq!['.'] + (decimal(c as nat) + x))))
            == decimal(d as nat) + (seq!['.'] + (decimal(e as nat) + (seq!['.'] + (decimal(f as nat)
            + y)))),
        x.len() > 0 ==> !is_digit(x[0]),
        y.len() > 0 ==> !is_digit(y[0]),
    ensures
        x == y,
{
    let p = decimal(c as nat) + x;
    let q = decimal(f as nat) + y;
    let m = decimal(b as nat) + (seq!['.'] + p);
    let n = decimal(e as nat) + (seq!['.'] + q);
    lemma_number_unique(a as nat, seq!['.'] + m, d as nat, seq!['.'] + n);
    lemma_behind_dot(m, n);
    lemma_number_unique(b as nat, seq!['.'] + p, e as nat, seq!['.'] + q);
    lemma_behind_dot(p, q);
    lemma_number_unique(c as nat, x, f as nat, y);
}

/// The words by which Composer marks a version as unstable.
pub open spec fn is_unstable_word(word: Seq<char>) -> bool {
    ||| word == "alpha"@
    ||| word == "beta"@
    ||| word == "-rc"@
    ||| word == ".rc"@
    ||| word == "dev"@
    ||| word == "patch"@
}

/// A Composer version is unstable where one of the words stands in it, in letters of
/// either case; one of numbers, dots and a `v` is not.
pub proof fn law_composer_unstable(
    before: Seq<char>,
    word: Seq<char>,
    behind: Seq<char>,
    v: Seq<char>,
    numbers: Seq<char>,
)
    requires
        is_unstable_word(lowercase(word)),
        is_v(v),
        forall|i: int| 0 <= i < numbers.len() ==> is_digit(#[trigger] numbers[i]) || numbers[i]
            == '.',
    ensures
        is_unstable(before + word + behind),
        !is_unstable(v + numbers),
{
    reveal_strlit("alpha");
    reveal_strlit("beta");
    reveal_strlit("-rc");
    reveal_strlit(".rc");
    reveal_strlit("dev");
    reveal_strlit("patch");
    let s = before + word + behind;
    let l = lowercase(s);
    let k = before.len() as int;
    assert(l.subrange(k, k + word.len()) == lowercase(word));
    assert(occurs_at(l, lowercase(word), k));
    let t = v + numbers;
    assert forall|p: Seq<char>| #[trigger] is_unstable_word(p) implies !occurs(
        lowercase(t),
        p,
    ) by {
        assert forall|i: int| !occurs_at(lowercase(t), p, i) by {
            if occurs_at(lowercase(t), p, i) {
                let part = lowercase(t).subrange(i, i + p.len());
                let m = p.len() - 1;
                assert(part[m] == lower(t[i + m]));
                assert(part[m] == p[m]);
                assert(p[m] == 'a' || p[m] == 'c' || p[m] == 'v' || p[m] == 'h');
                assert(part[1] == lower(t[i + 1]));
                assert(part[1] == p[1]);
                assert(p[1] != 'v' && is_letter(p[1]));
                if i + 1 < v.len() {
                } else {
                    assert(t[i + 1] == numbers[i + 1 - v.len()]);
                }
            }
        }
    }
    assert(is_unstable_word("alpha"@) && is_unstable_word("beta"@) && is_unstable_word("-rc"@));
    assert(is_unstable_word(".rc"@) && is_unstable_word("dev"@) && is_unstable_word("patch"@));
}

/// A Composer version is listed by its three numbers.
pub proof fn law_numbers_text(v: VersionView)
    ensures
        numbers_text(v) == numbered(v.major, v.minor, v.patch).display(),
{
    reveal_strlit(".");
    lemma_numbered(v.major, v.minor, v.patch);
    assert(numbers_text(v) == numbered(v.major, v.minor, v.patch).display());
}

/// A text that is no version by itself, and has other than two or four parts between
/// its dots, stands for nothing.
pub proof fn law_other_composer_texts(v: Seq<char>, t: Seq<char>)
    requires
        is_v(v),
        t.len() > 0,
        t[0] != 'v' && t[0] != 'V',
        version_of(t) is None,
        split(t, '.').len() != 2,
        split(t, '.').len() != 4,
    ensures
        composer_version(v + t) is None,
{
    lemma_unmarked(v, t);
}

/// A text of PyPI without a post-release suffix that is no version by itself, and has
/// other than two parts between its dots, stands for no release.
pub proof fn law_other_pypi_texts(t: Seq<char>)
    requires
        !occurs(lowercase(t), ".post"@),
        version_of(t) is None,
        split(t, '.').len() != 2,
    ensures
        pypi_release(t) is None,
{
    lemma_find(lowercase(t), ".post"@);
}

/// A text of rubygems.org that is no version by itself, and has more than two parts
/// between its dots, stands for nothing.
pub proof fn law_other_gem_texts(t: Seq<char>)
    requires
        version_of(t) is None,
        split(t, '.').len() > 2,
    ensures
        gem_version(t) is None,
{
}

} // verus!
