//! What holds of replacements and candidates.
use vstd::prelude::*;
use super::{
    admitted_ones, base_text, base_version, candidates, candidates_of, has_v_prefix, in_range_ones,
    is_major_of, is_minor_of, is_patch_of, is_stable_text, is_top, lemma_top, lemma_top_is,
    major_ones, minor_ones, operator, padded, patch_ones, replacement, stable_ones, top, ver,
    without_operators, without_v,
};
use super::ranges::{
    has_room, is_break, is_complex, is_single, is_version_like, lemma_operator_digits,
    lemma_operator_of, lemma_raised, lemma_range_pair, lemma_single, lemma_two_bounds, lower_bound,
    raised, range_pair, PairView,
};
use crate::order::lemma_tag_irreflexive;
use crate::text::chars::{is_blank, is_digit, is_white_space};
use crate::text::number::{decimal, lemma_decimal};
use crate::text::search::{begins, lemma_split_len, split};
use crate::text::trim::{lemma_trim_keeps, strip_all, trim};
use crate::version::{
    is_build_tag, is_newer, law_parse_of_display, lemma_tag_chars, marked, precedes,
    requirement_admits, version_of, VersionView,
};

verus! {

/// What is said of one candidate: it is a listed release of the class, newer
/// than the base, and no listed release of the class is greater.
pub open spec fn is_best_of(
    s: Seq<char>,
    base: VersionView,
    versions: Seq<Seq<char>>,
    class: spec_fn(VersionView) -> bool,
) -> bool {
    &&& versions.contains(s)
    &&& is_stable_text(s)
    &&& class(ver(s))
    &&& precedes(base, ver(s))
    &&& forall|j: int|
        0 <= j < versions.len() && is_stable_text(#[trigger] versions[j]) && class(ver(versions[j]))
            ==> !precedes(ver(s), ver(versions[j]))
}

/// Every candidate is the best of its class.
pub proof fn law_candidates_best(base: VersionView, versions: Seq<Seq<char>>, in_range: Seq<bool>)
    requires
        in_range.len() == versions.len(),
    ensures
        ({
            let c = candidates(base, versions, in_range);
            &&& c.patch is Some ==> is_best_of(
                c.patch->0,
                base,
                versions,
                |v: VersionView| is_patch_of(base, v),
            )
            &&& c.minor is Some ==> is_best_of(
                c.minor->0,
                base,
                versions,
                |v: VersionView| is_minor_of(base, v),
            )
            &&& c.major is Some ==> is_best_of(
                c.major->0,
                base,
                versions,
                |v: VersionView| is_major_of(base, v),
            )
        }),
{
    let c = candidates(base, versions, in_range);
    lemma_top(versions, patch_ones(base, versions));
    lemma_top(versions, minor_ones(base, versions));
    lemma_top(versions, major_ones(base, versions));
    if c.patch is Some {
        let keep = patch_ones(base, versions);
        let i = choose|i: int| is_top(versions, keep, i) && versions[i] == c.patch->0;
        assert(keep[i]);
        assert forall|j: int|
            0 <= j < versions.len() && is_stable_text(#[trigger] versions[j]) && is_patch_of(
                base,
                ver(versions[j]),
            ) implies !precedes(ver(c.patch->0), ver(versions[j])) by {
            assert(keep[j]);
        }
    }
    if c.minor is Some {
        let keep = minor_ones(base, versions);
        let i = choose|i: int| is_top(versions, keep, i) && versions[i] == c.minor->0;
        assert(keep[i]);
        assert forall|j: int|
            0 <= j < versions.len() && is_stable_text(#[trigger] versions[j]) && is_minor_of(
                base,
                ver(versions[j]),
            ) implies !precedes(ver(c.minor->0), ver(versions[j])) by {
            assert(keep[j]);
        }
    }
    if c.major is Some {
        let keep = major_ones(base, versions);
        let i = choose|i: int| is_top(versions, keep, i) && versions[i] == c.major->0;
        assert(keep[i]);
        assert forall|j: int|
            0 <= j < versions.len() && is_stable_text(#[trigger] versions[j]) && is_major_of(
                base,
                ver(versions[j]),
            ) implies !precedes(ver(c.major->0), ver(versions[j])) by {
            assert(keep[j]);
        }
    }
}

/// No version is a candidate of two classes.
pub proof fn law_candidates_distinct(
    base: VersionView,
    versions: Seq<Seq<char>>,
    in_range: Seq<bool>,
)
    requires
        in_range.len() == versions.len(),
    ensures
        ({
            let c = candidates(base, versions, in_range);
            &&& c.patch is Some ==> c.patch != c.minor && c.patch != c.major
            &&& c.minor is Some ==> c.minor != c.major
        }),
{
    law_candidates_best(base, versions, in_range);
}

/// Updates do not depend on what the constraint admits: a newer version is a
/// candidate whether or not it is in range.
pub proof fn law_range_hides_no_update(
    base: VersionView,
    versions: Seq<Seq<char>>,
    in_range: Seq<bool>,
    other: Seq<bool>,
)
    ensures
        candidates(base, versions, in_range).patch == candidates(base, versions, other).patch,
        candidates(base, versions, in_range).minor == candidates(base, versions, other).minor,
        candidates(base, versions, in_range).major == candidates(base, versions, other).major,
{
}

/// A release is newer than a base exactly where it is of one of the classes.
pub proof fn lemma_newer_classes(v: VersionView, base: VersionView)
    requires
        v.is_stable(),
    ensures
        is_newer(v, base) <==> is_major_of(base, v) || is_minor_of(base, v) || is_patch_of(base, v),
{
    lemma_tag_irreflexive(Seq::<char>::empty());
    if base.pre.len() == 0 {
        assert(base.pre == v.pre);
    }
}

/// There is a candidate exactly where some listed release is newer than the
/// base: no update is missed and none is made up.
pub proof fn law_candidate_iff_newer(
    base: VersionView,
    versions: Seq<Seq<char>>,
    in_range: Seq<bool>,
)
    requires
        in_range.len() == versions.len(),
    ensures
        ({
            let c = candidates(base, versions, in_range);
            (c.patch is Some || c.minor is Some || c.major is Some) <==> exists|i: int|
                0 <= i < versions.len() && is_stable_text(#[trigger] versions[i])
                    && is_newer(ver(versions[i]), base)
        }),
{
    let c = candidates(base, versions, in_range);
    lemma_top(versions, patch_ones(base, versions));
    lemma_top(versions, minor_ones(base, versions));
    lemma_top(versions, major_ones(base, versions));
    if exists|i: int|
        0 <= i < versions.len() && is_stable_text(#[trigger] versions[i]) && is_newer(
            ver(versions[i]),
            base,
        ) {
        let i = choose|i: int|
            0 <= i < versions.len() && is_stable_text(#[trigger] versions[i]) && is_newer(
                ver(versions[i]),
                base,
            );
        lemma_newer_classes(ver(versions[i]), base);
        assert(patch_ones(base, versions)[i] || minor_ones(base, versions)[i] || major_ones(
            base,
            versions,
        )[i]);
    }
    if c.patch is Some || c.minor is Some || c.major is Some {
        law_candidates_best(base, versions, in_range);
        let s = if c.patch is Some {
            c.patch->0
        } else if c.minor is Some {
            c.minor->0
        } else {
            c.major->0
        };
        let i = choose|i: int| 0 <= i < versions.len() && versions[i] == s;
        lemma_newer_classes(ver(s), base);
        assert(is_stable_text(versions[i]));
    }
}

/// The version in range is a listed release in range, and the greatest such.
pub proof fn law_in_range_best(base: VersionView, versions: Seq<Seq<char>>, in_range: Seq<bool>)
    requires
        in_range.len() == versions.len(),
    ensures
        match candidates(base, versions, in_range).in_range {
            Some(s) => exists|i: int|
                0 <= i < versions.len() && versions[i] == s && in_range[i] && is_stable_text(s)
                    && forall|j: int|
                    0 <= j < versions.len() && in_range[j] && is_stable_text(#[trigger] versions[j])
                        ==> !precedes(ver(s), ver(versions[j])),
            None => forall|j: int|
                0 <= j < versions.len() && in_range[j] ==> !is_stable_text(#[trigger] versions[j]),
        },
{
    let keep = in_range_ones(versions, in_range);
    lemma_top(versions, keep);
    match candidates(base, versions, in_range).in_range {
        Some(s) => {
            let i = choose|i: int| is_top(versions, keep, i) && versions[i] == s;
            assert(keep[i]);
            assert(in_range[i]);
            assert forall|j: int|
                0 <= j < versions.len() && in_range[j] && is_stable_text(
                    #[trigger] versions[j],
                ) implies !precedes(ver(s), ver(versions[j])) by {
                assert(keep[j]);
            }
        },
        None => {
            assert forall|j: int| 0 <= j < versions.len() && in_range[j] implies !is_stable_text(
                #[trigger] versions[j],
            ) by {
                assert(!keep[j]);
            }
        },
    }
}

/// The latest version is a listed release that no listed release succeeds;
/// there is none exactly where no release is listed.
pub proof fn law_latest(versions: Seq<Seq<char>>)
    ensures
        match top(versions, stable_ones(versions)) {
            Some(s) => versions.contains(s) && is_stable_text(s) && forall|j: int|
                0 <= j < versions.len() && is_stable_text(#[trigger] versions[j]) ==> !precedes(
                    ver(s),
                    ver(versions[j]),
                ),
            None => forall|j: int|
                0 <= j < versions.len() ==> !is_stable_text(#[trigger] versions[j]),
        },
{
    let keep = stable_ones(versions);
    lemma_top(versions, keep);
    match top(versions, keep) {
        Some(s) => {
            let i = choose|i: int| is_top(versions, keep, i) && versions[i] == s;
            assert(keep[i]);
            assert forall|j: int|
                0 <= j < versions.len() && is_stable_text(#[trigger] versions[j]) implies !precedes(
                ver(s),
                ver(versions[j]),
            ) by {
                assert(keep[j]);
            }
        },
        None => {
            assert forall|j: int| 0 <= j < versions.len() implies !is_stable_text(
                #[trigger] versions[j],
            ) by {
                assert(!keep[j]);
            }
        },
    }
}

/// Two lists of the same versions have the same greatest one, however it is
/// chosen what counts.
proof fn lemma_top_of_same(
    a: Seq<Seq<char>>,
    b: Seq<Seq<char>>,
    counts: spec_fn(Seq<char>) -> bool,
)
    requires
        forall|s: Seq<char>| #[trigger] a.contains(s) <==> b.contains(s),
        forall|s: Seq<char>| #[trigger] counts(s) ==> version_of(s) is Some,
    ensures
        top(a, a.map_values(counts)) == top(b, b.map_values(counts)),
{
    let x = a.map_values(counts);
    let y = b.map_values(counts);
    lemma_top(a, x);
    lemma_top(b, y);
    match top(a, x) {
        Some(s) => {
            let i = choose|i: int| is_top(a, x, i) && a[i] == s;
            assert(x[i] == counts(a[i]));
            assert(a.contains(s));
            assert(b.contains(s));
            let j = choose|j: int| 0 <= j < b.len() && b[j] == s;
            assert(y[j] == counts(b[j]));
            assert forall|k: int| 0 <= k < b.len() && y[k] implies !precedes(
                ver(b[j]),
                ver(#[trigger] b[k]),
            ) by {
                assert(b.contains(b[k]));
                assert(a.contains(b[k]));
                let m = choose|m: int| 0 <= m < a.len() && a[m] == b[k];
                assert(y[k] == counts(b[k]) && x[m] == counts(a[m]));
            }
            assert forall|k: int| 0 <= k < b.len() && y[k] implies version_of(
                #[trigger] b[k],
            ) is Some by {
                assert(y[k] == counts(b[k]));
            }
            assert(is_top(b, y, j));
            lemma_top_is(b, y, j);
        },
        None => {
            if top(b, y) is Some {
                let j = choose|j: int| is_top(b, y, j) && b[j] == top(b, y)->0;
                assert(b.contains(b[j]));
                assert(a.contains(b[j]));
                let m = choose|m: int| 0 <= m < a.len() && a[m] == b[j];
                assert(y[j] == counts(b[j]) && x[m] == counts(a[m]));
            }
        },
    }
}

/// Neither the order of the known versions nor their repetition matters to the
/// candidates and to the latest version.
pub proof fn law_order_does_not_matter(
    base: Option<VersionView>,
    requirement: Seq<char>,
    a: Seq<Seq<char>>,
    b: Seq<Seq<char>>,
)
    requires
        forall|s: Seq<char>| #[trigger] a.contains(s) <==> b.contains(s),
    ensures
        candidates_of(base, requirement, a) == candidates_of(base, requirement, b),
        top(a, stable_ones(a)) == top(b, stable_ones(b)),
{
    let stable = |s: Seq<char>| is_stable_text(s);
    let admitted = |s: Seq<char>| is_stable_text(s) && requirement_admits(requirement, ver(s));
    lemma_top_of_same(a, b, stable);
    assert(stable_ones(a) == a.map_values(stable));
    assert(stable_ones(b) == b.map_values(stable));
    if let Some(v) = base {
        let patch = |s: Seq<char>| is_stable_text(s) && is_patch_of(v, ver(s));
        let minor = |s: Seq<char>| is_stable_text(s) && is_minor_of(v, ver(s));
        let major = |s: Seq<char>| is_stable_text(s) && is_major_of(v, ver(s));
        lemma_top_of_same(a, b, admitted);
        lemma_top_of_same(a, b, patch);
        lemma_top_of_same(a, b, minor);
        lemma_top_of_same(a, b, major);
        assert(in_range_ones(a, admitted_ones(requirement, a)) == a.map_values(admitted));
        assert(in_range_ones(b, admitted_ones(requirement, b)) == b.map_values(admitted));
        assert(patch_ones(v, a) == a.map_values(patch));
        assert(patch_ones(v, b) == b.map_values(patch));
        assert(minor_ones(v, a) == a.map_values(minor));
        assert(minor_ones(v, b) == b.map_values(minor));
        assert(major_ones(v, a) == a.map_values(major));
        assert(major_ones(v, b) == b.map_values(major));
    }
}

/// The operators that may stand before a version.
pub open spec fn is_operator(op: Seq<char>) -> bool {
    ||| op == "~>"@
    ||| op == ">="@
    ||| op == "<="@
    ||| op == "~="@
    ||| op == "=="@
    ||| op == "!="@
    ||| op == "^"@
    ||| op == "~"@
    ||| op == ">"@
    ||| op == "<"@
    ||| op == "="@
}

/// A character with which no operator begins or goes on.
spec fn is_plain(c: char) -> bool {
    c != '~' && c != '>' && c != '<' && c != '=' && c != '!' && c != '^'
}

/// What the operators are made of.
pub proof fn lemma_operator_texts()
    ensures
        "~>"@ == seq!['~', '>'],
        ">="@ == seq!['>', '='],
        "<="@ == seq!['<', '='],
        "~="@ == seq!['~', '='],
        "=="@ == seq!['=', '='],
        "!="@ == seq!['!', '='],
        "^"@ == seq!['^'],
        "~"@ == seq!['~'],
        ">"@ == seq!['>'],
        "<"@ == seq!['<'],
        "="@ == seq!['='],
{
    reveal_strlit("~>");
    reveal_strlit(">=");
    reveal_strlit("<=");
    reveal_strlit("~=");
    reveal_strlit("==");
    reveal_strlit("!=");
    reveal_strlit("^");
    reveal_strlit("~");
    reveal_strlit(">");
    reveal_strlit("<");
    reveal_strlit("=");
}

/// A text that begins with a plain character has no operator to strip.
proof fn lemma_strip_none(t: Seq<char>)
    requires
        t.len() > 0,
        is_plain(t[0]),
    ensures
        forall|op: Seq<char>| is_operator(op) ==> #[trigger] strip_all(t, op) == t,
{
    assert forall|op: Seq<char>| is_operator(op) implies #[trigger] strip_all(t, op) == t by {
        lemma_operator_texts();
        if begins(t, op) {
            assert(t.take(op.len() as int)[0] == t[0]);
        }
    }
}

/// An operator before a plain character comes off as a whole.
proof fn lemma_strip_own(op: Seq<char>, t: Seq<char>)
    requires
        is_operator(op),
        t.len() > 0,
        is_plain(t[0]),
    ensures
        strip_all(op + t, op) == t,
{
    lemma_operator_texts();
    assert((op + t).take(op.len() as int) == op);
    assert((op + t).skip(op.len() as int) == t);
    lemma_strip_none(t);
    assert(op.len() > 0);
    assert(begins(op + t, op));
    assert(strip_all(t, op) == t);
}

/// The operator that comes off before another: the two-character ones first.
spec fn rank(op: Seq<char>) -> int {
    if op.len() == 2 {
        if op[0] == '~' && op[1] == '>' {
            0
        } else if op[0] == '>' {
            1
        } else if op[0] == '<' {
            2
        } else if op[0] == '~' {
            3
        } else if op[0] == '=' {
            4
        } else {
            5
        }
    } else if op[0] == '^' {
        6
    } else if op[0] == '~' {
        7
    } else if op[0] == '>' {
        8
    } else if op[0] == '<' {
        9
    } else {
        10
    }
}

/// An operator of lower rank does not come off another.
proof fn lemma_strip_other(op: Seq<char>, mark: Seq<char>, t: Seq<char>)
    requires
        is_operator(op),
        is_operator(mark),
        rank(mark) < rank(op),
        t.len() > 0,
        is_plain(t[0]),
    ensures
        strip_all(op + t, mark) == op + t,
{
    lemma_operator_texts();
    let s = op + t;
    if begins(s, mark) {
        assert(s.take(mark.len() as int)[0] == s[0]);
        if mark.len() == 2 {
            assert(s.take(2)[1] == s[1]);
            if op.len() == 1 {
                assert(s[1] == t[0]);
            }
        }
    }
}

/// The step of taking one operator off.
proof fn lemma_strip_step(op: Seq<char>, mark: Seq<char>, t: Seq<char>, s: Seq<char>)
    requires
        is_operator(op),
        is_operator(mark),
        t.len() > 0,
        is_plain(t[0]),
        s == (if rank(mark) <= rank(op) {
            op + t
        } else {
            t
        }),
    ensures
        strip_all(s, mark) == (if rank(mark) < rank(op) {
            op + t
        } else {
            t
        }),
{
    if rank(mark) < rank(op) {
        lemma_strip_other(op, mark, t);
    } else if rank(mark) == rank(op) {
        lemma_operator_texts();
        lemma_strip_own(op, t);
    } else {
        lemma_strip_none(t);
    }
}

/// All operators come off a constraint, and nothing else.
proof fn lemma_operators_off(op: Seq<char>, t: Seq<char>)
    requires
        is_operator(op) || op.len() == 0,
        t.len() > 0,
        is_plain(t[0]),
    ensures
        ({
            let s = strip_all(op + t, "~>"@);
            let s = strip_all(strip_all(strip_all(s, ">="@), "<="@), "~="@);
            let s = strip_all(strip_all(s, "=="@), "!="@);
            let s = strip_all(strip_all(strip_all(s, "^"@), "~"@), ">"@);
            strip_all(strip_all(s, "<"@), "="@) == t
        }),
{
    if op.len() == 0 {
        assert(op + t == t);
        lemma_strip_none(t);
    } else {
        lemma_operator_texts();
        assert(rank("~>"@) == 0 && rank(">="@) == 1 && rank("<="@) == 2 && rank("~="@) == 3);
        assert(rank("=="@) == 4 && rank("!="@) == 5 && rank("^"@) == 6);
        assert(rank("~"@) == 7 && rank(">"@) == 8 && rank("<"@) == 9 && rank("="@) == 10);
        let s0 = op + t;
        lemma_strip_step(op, "~>"@, t, s0);
        let s1 = strip_all(s0, "~>"@);
        lemma_strip_step(op, ">="@, t, s1);
        let s2 = strip_all(s1, ">="@);
        lemma_strip_step(op, "<="@, t, s2);
        let s3 = strip_all(s2, "<="@);
        lemma_strip_step(op, "~="@, t, s3);
        let s4 = strip_all(s3, "~="@);
        lemma_strip_step(op, "=="@, t, s4);
        let s5 = strip_all(s4, "=="@);
        lemma_strip_step(op, "!="@, t, s5);
        let s6 = strip_all(s5, "!="@);
        lemma_strip_step(op, "^"@, t, s6);
        let s7 = strip_all(s6, "^"@);
        lemma_strip_step(op, "~"@, t, s7);
        let s8 = strip_all(s7, "~"@);
        lemma_strip_step(op, ">"@, t, s8);
        let s9 = strip_all(s8, ">"@);
        lemma_strip_step(op, "<"@, t, s9);
        let s10 = strip_all(s9, "<"@);
        lemma_strip_step(op, "="@, t, s10);
    }
}

/// White space before a text does not matter once it is trimmed.
pub proof fn lemma_trim_blank(blank: Seq<char>, t: Seq<char>)
    requires
        is_blank(blank),
    ensures
        trim(blank + t) == trim(t),
    decreases blank.len(),
{
    if blank.len() == 0 {
        assert(blank + t == t);
    } else {
        assert((blank + t).skip(1) == blank.skip(1) + t);
        assert((blank + t)[0] == blank[0]);
        lemma_trim_blank(blank.skip(1), t);
    }
}

/// Splitting around a separator.
pub proof fn lemma_split_join(a: Seq<char>, sep: char, b: Seq<char>)
    ensures
        split(a.push(sep) + b, sep).len() == split(a, sep).len() + split(b, sep).len(),
    decreases b.len(),
{
    let s = a.push(sep) + b;
    if b.len() == 0 {
        assert(s == a.push(sep));
        assert(s.drop_last() == a);
    } else {
        assert(s.drop_last() == a.push(sep) + b.drop_last());
        lemma_split_join(a, sep, b.drop_last());
        lemma_split_len(s.drop_last(), sep);
        lemma_split_len(b.drop_last(), sep);
    }
}

/// The text of a version begins with a digit, does not end with white space,
/// and has its three components.
pub proof fn lemma_display(v: VersionView)
    requires
        v.valid(),
    ensures
        v.display().len() > 0,
        is_digit(v.display()[0]),
        !is_white_space(v.display().last()),
        is_version_like(v.display()),
        padded(v.display()) == v.display(),
{
    let d = v.display();
    let major = decimal(v.major as nat);
    let minor = decimal(v.minor as nat);
    let patch = decimal(v.patch as nat);
    lemma_decimal(v.major as nat);
    lemma_decimal(v.minor as nat);
    lemma_decimal(v.patch as nat);
    let tail = patch + marked('-', v.pre) + marked('+', v.build);
    assert(d == major.push('.') + (minor.push('.') + tail));
    lemma_split_join(major, '.', minor.push('.') + tail);
    lemma_split_join(minor, '.', tail);
    lemma_split_len(major, '.');
    lemma_split_len(minor, '.');
    lemma_split_len(tail, '.');
    assert(d[0] == major[0]);
    assert(is_build_tag(v.pre));
    lemma_tag_chars(v.pre);
    lemma_tag_chars(v.build);
    assert forall|i: int| 0 <= i < d.len() implies !is_break(#[trigger] d[i]) by {
        let a = major.len() as int + 1;
        let b = a + minor.len() as int + 1;
        let c = b + patch.len() as int;
        if i < a - 1 {
            assert(d[i] == major[i]);
        } else if a <= i < b - 1 {
            assert(d[i] == minor[i - a]);
        } else if b <= i < c {
            assert(d[i] == patch[i - b]);
        } else if c <= i < c + marked('-', v.pre).len() {
            assert(d[i] == marked('-', v.pre)[i - c]);
        } else if c <= i {
            assert(d[i] == marked('+', v.build)[i - c - marked('-', v.pre).len()]);
        }
    }
    if v.build.len() > 0 {
        assert(d.last() == v.build.last());
    } else if v.pre.len() > 0 {
        assert(d.last() == v.pre.last());
    } else {
        assert(d.last() == patch.last());
        assert(is_digit(patch[patch.len() - 1]));
    }
}

/// Behind an operator, with or without white space, what is left of a constraint
/// without its operators is the text that begins with a plain character.
pub proof fn lemma_text_read_back(op: Seq<char>, blank: Seq<char>, t: Seq<char>)
    requires
        is_operator(op) || op.len() == 0,
        is_blank(blank),
        t.len() > 0,
        is_digit(t[0]) || t[0] == 'v',
        !is_white_space(t.last()),
    ensures
        without_operators(op + blank + t) == t,
{
    let r = op + blank + t;
    let u = blank + t;
    assert(r == op + u);
    lemma_trim_keeps(t);
    lemma_trim_blank(blank, t);
    if blank.len() > 0 {
        assert(is_white_space(blank[0]));
    }
    assert(is_plain(u[0]));
    assert(u.last() == t.last());
    if op.len() > 0 {
        lemma_operator_texts();
        assert(r[0] == op[0]);
        assert(r.last() == t.last());
        lemma_trim_keeps(r);
        lemma_operators_off(op, u);
        assert(without_operators(r) == trim(u));
    } else {
        assert(r == u);
        lemma_operators_off(op, t);
        assert(op + t == t);
        assert(without_operators(r) == trim(t));
    }
}

/// Behind an operator, with or without white space, the base of a constraint
/// is its version.
proof fn lemma_bound_read_back(op: Seq<char>, blank: Seq<char>, v: VersionView)
    requires
        is_operator(op) || op.len() == 0,
        is_blank(blank),
        v.valid(),
    ensures
        without_v(without_operators(op + blank + v.display())) == v.display(),
{
    lemma_display(v);
    lemma_text_read_back(op, blank, v.display());
}

/// A pair of bounds moves as a whole: its signs stay, its lower bound becomes
/// the new version, and its upper bound stays as far above.
pub proof fn law_pair_moves(original: Seq<char>, v: VersionView)
    requires
        range_pair(original) is Some,
        v.valid(),
        has_room(range_pair(original)->0.lower, range_pair(original)->0.upper, v),
    ensures
        ({
            let pair = range_pair(original)->0;
            range_pair(replacement(original, v.display())) == Some(
                PairView { lower: v, upper: raised(pair.lower, pair.upper, v), ..pair },
            )
        }),
{
    let pair = range_pair(original)->0;
    let u = raised(pair.lower, pair.upper, v);
    lemma_range_pair(original);
    lemma_raised(pair.lower, pair.upper, v, v);
    lemma_display(v);
    lemma_display(u);
    law_parse_of_display(v);
    law_parse_of_display(u);
    lemma_two_bounds(pair.op, v.display(), pair.middle, u.display());
}

/// A replacement keeps the operator of the original, unless that has several
/// bounds that are no pair.
pub proof fn law_operator_kept(original: Seq<char>, v: VersionView)
    requires
        !is_complex(original),
        v.valid(),
    ensures
        operator(replacement(original, v.display())) == operator(original),
{
    let d = v.display();
    lemma_display(v);
    law_parse_of_display(v);
    lemma_operator_digits(original);
    if let Some(pair) = range_pair(original) {
        let rest = d + pair.middle + raised(pair.lower, pair.upper, v).display();
        lemma_range_pair(original);
        lemma_operator_of(pair.op, rest);
        assert(replacement(original, d) == pair.op + rest);
    } else {
        lemma_single(operator(original), d);
    }
}

/// Of two replacements the last one counts.
pub proof fn law_replace_twice(original: Seq<char>, first: VersionView, second: Seq<char>)
    requires
        first.valid(),
        range_pair(original) matches Some(pair) ==> has_room(pair.lower, pair.upper, first),
    ensures
        replacement(replacement(original, first.display()), second) == replacement(
            original,
            second,
        ),
{
    let d = first.display();
    lemma_display(first);
    law_parse_of_display(first);
    lemma_operator_digits(original);
    if let Some(pair) = range_pair(original) {
        law_pair_moves(original, first);
        if let Some(v) = version_of(second) {
            lemma_range_pair(original);
            lemma_raised(pair.lower, pair.upper, first, v);
        }
    } else if is_single(original) {
        lemma_single(operator(original), d);
    } else {
        lemma_single(Seq::empty(), d);
        assert(Seq::<char>::empty() + d == d);
        assert(Seq::<char>::empty() + second == second);
    }
}

/// What a replacement writes is read back: behind an operator, with or without
/// white space, the base of the new constraint is the new version.
pub proof fn law_replacement_read_back(
    original: Seq<char>,
    op: Seq<char>,
    blank: Seq<char>,
    v: VersionView,
)
    requires
        !is_complex(original),
        operator(original) == op + blank,
        is_operator(op) || op.len() == 0,
        is_blank(blank),
        v.valid(),
    ensures
        base_text(replacement(original, v.display())) == Some(v.display()),
        base_version(replacement(original, v.display())) == Some(v),
{
    let d = v.display();
    let r = replacement(original, d);
    lemma_display(v);
    law_parse_of_display(v);
    lemma_operator_digits(original);
    lemma_bound_read_back(op, blank, v);
    if let Some(pair) = range_pair(original) {
        let u = raised(pair.lower, pair.upper, v);
        lemma_range_pair(original);
        lemma_display(u);
        lemma_two_bounds(pair.op, d, pair.middle, u.display());
        assert(lower_bound(r) == pair.op + d);
    } else {
        lemma_single(operator(original), d);
        assert(lower_bound(r) == r);
    }
}

/// The text of a version is its own base.
pub proof fn law_version_is_its_base(v: VersionView)
    requires
        v.valid(),
    ensures
        base_text(v.display()) == Some(v.display()),
        base_version(v.display()) == Some(v),
{
    let d = v.display();
    lemma_display(v);
    law_parse_of_display(v);
    lemma_bound_read_back(Seq::empty(), Seq::empty(), v);
    assert(Seq::<char>::empty() + Seq::<char>::empty() + d == d);
    lemma_single(Seq::empty(), d);
    assert(Seq::<char>::empty() + d == d);
}

/// A constraint that cannot keep its operators becomes the bare version, which
/// is then its base.
pub proof fn law_complex_becomes_bare(original: Seq<char>, v: VersionView)
    requires
        is_complex(original),
        v.valid(),
    ensures
        replacement(original, v.display()) == v.display(),
        base_version(replacement(original, v.display())) == Some(v),
{
    law_version_is_its_base(v);
}

/// The same behind the `v` of a version pin.
pub proof fn law_pin_read_back(original: Seq<char>, v: VersionView)
    requires
        is_single(original),
        operator(original) == seq!['v'],
        v.valid(),
    ensures
        base_version(replacement(original, v.display())) == Some(v),
{
    let d = v.display();
    let op = operator(original);
    let r = op + d;
    lemma_display(v);
    law_parse_of_display(v);
    lemma_operator_digits(original);
    lemma_single(op, d);
    assert(range_pair(original) is None) by {
        if range_pair(original) is Some {
            reveal_strlit(">");
            reveal_strlit(">=");
            lemma_trim_keeps(op);
        }
    }
    assert(replacement(original, d) == r);
    assert(r.last() == d.last());
    lemma_trim_keeps(r);
    assert(Seq::<char>::empty() + r == r);
    lemma_operators_off(Seq::empty(), r);
    assert(without_operators(r) == r);
    assert(r.skip(1) == d);
    assert(has_v_prefix(r));
}

} // verus!
