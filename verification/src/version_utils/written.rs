//! Constraints, piece by piece: which version they are read as, how another
//! version is written in its place, and which requirement they stand for.
use vstd::prelude::*;
use super::{base_text, base_version, padded, replacement, without_v};
use super::laws::{
    is_operator, lemma_display, lemma_operator_texts, lemma_split_join, lemma_text_read_back,
    lemma_trim_blank,
};
use super::normalize::standard_form;
use super::normalize::deno::deno_form;
use super::normalize::python::python_form;
use super::normalize::ruby::{pessimistic_form, ruby_form};
use super::ranges::{
    breaks, comparison, is_break, is_complex, lemma_operator_of, lemma_single, lemma_two_bounds,
    lower_bound, no_breaks, no_digits,
};
use crate::semver_utils::{normalized, plain_base_version};
use crate::text::chars::{is_blank, is_digit, is_white_space};
use crate::text::laws::law_trim;
use crate::text::number::{decimal, lemma_decimal, number};
use crate::text::search::{
    after, begins, lemma_find_where, lemma_split_len, lemma_split_none, lemma_split_push, split,
};
use crate::text::trim::{
    lemma_trim_end_behind, lemma_trim_end_blank, lemma_trim_end_some, lemma_trim_keeps,
    lemma_trim_start_blank, strip_all, trim, trim_end, trim_start,
};
use crate::version::{law_parse_of_display, requirement_parses, version_of, VersionView};

verus! {

/// A release with three numbers and no tags.
pub open spec fn numbered(major: u64, minor: u64, patch: u64) -> VersionView {
    VersionView { major, minor, patch, pre: seq![], build: seq![] }
}

/// Two numbers with a dot between them.
pub open spec fn dotted(a: u64, b: u64) -> Seq<char> {
    decimal(a as nat).push('.') + decimal(b as nat)
}

/// The text of a version has three components or more.
pub proof fn lemma_three_parts(s: Seq<char>)
    requires
        version_of(s) is Some,
    ensures
        split(s, '.').len() >= 3,
{
    let v = version_of(s)->0;
    let major = decimal(v.major as nat);
    let minor = decimal(v.minor as nat);
    let tail = decimal(v.patch as nat) + crate::version::marked('-', v.pre)
        + crate::version::marked('+', v.build);
    assert(s == major.push('.') + (minor.push('.') + tail));
    lemma_split_join(major, '.', minor.push('.') + tail);
    lemma_split_join(minor, '.', tail);
    lemma_split_len(major, '.');
    lemma_split_len(minor, '.');
    lemma_split_len(tail, '.');
}

/// The parts of one, two and three numbers.
pub proof fn lemma_number_parts(a: u64, b: u64, c: u64)
    ensures
        split(decimal(a as nat), '.') == seq![decimal(a as nat)],
        split(dotted(a, b), '.') == seq![decimal(a as nat), decimal(b as nat)],
        split(dotted(a, b).push('.') + decimal(c as nat), '.') == seq![
            decimal(a as nat),
            decimal(b as nat),
            decimal(c as nat),
        ],
{
    lemma_decimal(a as nat);
    lemma_decimal(b as nat);
    lemma_decimal(c as nat);
    assert forall|i: int| 0 <= i < decimal(a as nat).len() implies #[trigger] decimal(a as nat)[i]
        != '.' by {
        assert(is_digit(decimal(a as nat)[i]));
    }
    assert forall|i: int| 0 <= i < decimal(b as nat).len() implies #[trigger] decimal(b as nat)[i]
        != '.' by {
        assert(is_digit(decimal(b as nat)[i]));
    }
    assert forall|i: int| 0 <= i < decimal(c as nat).len() implies #[trigger] decimal(c as nat)[i]
        != '.' by {
        assert(is_digit(decimal(c as nat)[i]));
    }
    lemma_split_none(decimal(a as nat), '.');
    lemma_split_push(decimal(a as nat), '.', decimal(b as nat));
    lemma_split_push(dotted(a, b), '.', decimal(c as nat));
}

/// The text of a release is its three numbers between dots.
pub proof fn lemma_numbered(a: u64, b: u64, c: u64)
    ensures
        numbered(a, b, c).valid(),
        numbered(a, b, c).display() == dotted(a, b).push('.') + decimal(c as nat),
        version_of(dotted(a, b).push('.') + decimal(c as nat)) == Some(numbered(a, b, c)),
{
    let v = numbered(a, b, c);
    assert(v.display() == dotted(a, b).push('.') + decimal(c as nat));
    law_parse_of_display(v);
}

/// One and two numbers are filled up with zeros.
pub proof fn lemma_filled(a: u64, b: u64)
    ensures
        decimal(a as nat) + ".0.0"@ == numbered(a, 0, 0).display(),
        dotted(a, b) + ".0"@ == numbered(a, b, 0).display(),
        padded(decimal(a as nat)) == numbered(a, 0, 0).display(),
        padded(dotted(a, b)) == numbered(a, b, 0).display(),
        version_of(decimal(a as nat)) is None,
        version_of(dotted(a, b)) is None,
{
    reveal_strlit(".0.0");
    reveal_strlit(".0");
    lemma_numbered(a, 0, 0);
    lemma_numbered(a, b, 0);
    lemma_number_parts(a, b, 0);
    assert(decimal(0) == seq!['0']) by {
        assert(crate::text::number::digit_char(0) == '0');
    }
    assert(decimal(a as nat) + ".0.0"@ == numbered(a, 0, 0).display());
    assert(dotted(a, b) + ".0"@ == numbered(a, b, 0).display());
    if version_of(decimal(a as nat)) is Some {
        lemma_three_parts(decimal(a as nat));
    }
    if version_of(dotted(a, b)) is Some {
        lemma_three_parts(dotted(a, b));
    }
}

/// Numbers and the dot between them hold no break.
proof fn lemma_no_breaks(a: u64, b: u64)
    ensures
        is_digit(decimal(a as nat)[0]),
        decimal(a as nat).len() > 0,
        no_breaks(decimal(a as nat)),
        is_digit(dotted(a, b)[0]),
        dotted(a, b).len() > 0,
        no_breaks(dotted(a, b)),
{
    let x = decimal(a as nat);
    let y = decimal(b as nat);
    let s = dotted(a, b);
    lemma_decimal(a as nat);
    lemma_decimal(b as nat);
    assert(s[0] == x[0]);
    assert forall|i: int| 0 <= i < x.len() implies !is_break(#[trigger] x[i]) by {
        assert(is_digit(x[i]));
    }
    assert forall|i: int| 0 <= i < s.len() implies !is_break(#[trigger] s[i]) by {
        if i < x.len() {
            assert(s[i] == x[i]);
        } else if i > x.len() {
            assert(s[i] == y[i - x.len() - 1]);
            assert(is_digit(y[i - x.len() - 1]));
        }
    }
}

/// The text before a version that is read as its operator.
proof fn lemma_no_digits(op: Seq<char>, blank: Seq<char>)
    requires
        is_operator(op) || op.len() == 0,
        is_blank(blank),
    ensures
        no_digits(op + blank),
{
    lemma_operator_texts();
    let r = op + blank;
    assert forall|i: int| 0 <= i < r.len() implies !is_digit(#[trigger] r[i]) by {
        if i >= op.len() {
            assert(r[i] == blank[i - op.len()]);
            assert(is_white_space(blank[i - op.len()]));
        }
    }
}

/// What the base of a constraint of one bound is read from.
proof fn lemma_base_text(op: Seq<char>, blank: Seq<char>, t: Seq<char>)
    requires
        is_operator(op) || op.len() == 0,
        is_blank(blank),
        t.len() > 0,
        is_digit(t[0]),
        no_breaks(t),
    ensures
        base_text(op + blank + t) == Some(padded(t)),
{
    lemma_no_digits(op, blank);
    lemma_single(op + blank, t);
    assert(!is_break(t[t.len() - 1]));
    lemma_text_read_back(op, blank, t);
    assert(without_v(t) == t);
}

/// Behind an operator, with or without white space, a constraint is based on the
/// version that is written there; numbers that are left out are zero.
pub proof fn law_base_is_the_version(
    op: Seq<char>,
    blank: Seq<char>,
    v: VersionView,
    major: u64,
    minor: u64,
)
    requires
        is_operator(op) || op.len() == 0,
        is_blank(blank),
        v.valid(),
    ensures
        base_version(op + blank + v.display()) == Some(v),
        base_version(op + blank + decimal(major as nat)) == Some(numbered(major, 0, 0)),
        base_version(op + blank + dotted(major, minor)) == Some(numbered(major, minor, 0)),
{
    lemma_display(v);
    law_parse_of_display(v);
    lemma_base_text(op, blank, v.display());
    lemma_no_breaks(major, minor);
    lemma_base_text(op, blank, decimal(major as nat));
    lemma_base_text(op, blank, dotted(major, minor));
    lemma_filled(major, minor);
    lemma_numbered(major, 0, 0);
    lemma_numbered(major, minor, 0);
}

/// A `v` before the version does not matter.
pub proof fn law_base_behind_v(op: Seq<char>, blank: Seq<char>, v: VersionView)
    requires
        is_operator(op) || op.len() == 0,
        is_blank(blank),
        v.valid(),
    ensures
        base_version(op + blank + seq!['v'] + v.display()) == Some(v),
{
    let d = v.display();
    let t = seq!['v'] + d;
    lemma_display(v);
    law_parse_of_display(v);
    lemma_no_digits(op, blank);
    let mark = op + blank + seq!['v'];
    assert forall|i: int| 0 <= i < mark.len() implies !is_digit(#[trigger] mark[i]) by {
        if i < (op + blank).len() {
            assert(mark[i] == (op + blank)[i]);
        }
    }
    lemma_single(mark, d);
    assert(t.last() == d.last());
    lemma_text_read_back(op, blank, t);
    assert(mark + d == op + blank + t);
    assert(t.skip(1) == d);
    assert(t[1] == d[0]);
}

/// Of several bounds the first counts, where its operator sets a lower bound.
pub proof fn law_base_of_first_bound(
    op: Seq<char>,
    blank: Seq<char>,
    v: VersionView,
    middle: Seq<char>,
    other: VersionView,
)
    requires
        is_operator(op) || op.len() == 0,
        op != "<"@,
        op != "<="@,
        op != "!="@,
        is_blank(blank),
        v.valid(),
        other.valid(),
        middle.len() > 0,
        is_white_space(middle[0]) || middle[0] == ',' || middle[0] == '|',
        no_digits(middle),
    ensures
        base_version(op + blank + v.display() + middle + other.display()) == Some(v),
{
    let d = v.display();
    let mark = op + blank;
    lemma_display(v);
    lemma_display(other);
    law_parse_of_display(v);
    lemma_no_digits(op, blank);
    lemma_two_bounds(mark, d, middle, other.display());
    lemma_trim_mark(op, blank);
    reveal_strlit("<");
    reveal_strlit("<=");
    reveal_strlit("!=");
    lemma_text_read_back(op, blank, d);
    assert(without_v(d) == d);
}

/// An operator with white space behind it is trimmed to itself.
proof fn lemma_trim_mark(op: Seq<char>, blank: Seq<char>)
    requires
        is_operator(op) || op.len() == 0,
        is_blank(blank),
    ensures
        trim(op + blank) == op,
{
    lemma_operator_texts();
    if op.len() == 0 {
        assert(op + blank == blank);
        lemma_blank_is_nothing(blank);
        assert(op == Seq::<char>::empty());
    } else {
        assert((op + blank)[0] == op[0]);
        assert(trim_start(op + blank) == op + blank);
        lemma_trim_end_blank(op, blank);
    }
}

/// Nothing is left of white space.
proof fn lemma_blank_is_nothing(s: Seq<char>)
    requires
        is_blank(s),
    ensures
        trim(s) == Seq::<char>::empty(),
    decreases s.len(),
{
    if s.len() > 0 {
        lemma_blank_is_nothing(s.skip(1));
    }
}

/// No character is a digit.
pub open spec fn is_mark(s: Seq<char>) -> bool {
    forall|i: int| 0 <= i < s.len() ==> !('0' <= #[trigger] s[i] && s[i] <= '9')
}

/// Behind whatever stands before it, a version gives way to the new one: with all
/// its tags, and with one or two numbers alone.
pub proof fn law_version_is_replaced(
    mark: Seq<char>,
    v: VersionView,
    major: u64,
    minor: u64,
    new_version: Seq<char>,
)
    requires
        is_mark(mark),
        v.valid(),
    ensures
        replacement(mark + v.display(), new_version) == mark + new_version,
        replacement(mark + decimal(major as nat), new_version) == mark + new_version,
        replacement(mark + dotted(major, minor), new_version) == mark + new_version,
{
    assert(no_digits(mark));
    lemma_display(v);
    lemma_single(mark, v.display());
    lemma_no_breaks(major, minor);
    lemma_single(mark, decimal(major as nat));
    lemma_single(mark, dotted(major, minor));
}

/// What stands between the two versions of a pair of bounds: a comma or none, and
/// a comparison that sets an upper bound, with white space around them.
pub open spec fn between(
    first: Seq<char>,
    comma: bool,
    second: Seq<char>,
    inclusive: bool,
    third: Seq<char>,
) -> Seq<char> {
    first + (if comma {
        seq![',']
    } else {
        seq![]
    }) + second + (if inclusive {
        seq!['<', '=']
    } else {
        seq!['<']
    }) + third
}

/// What is read between the two versions.
proof fn lemma_between(
    first: Seq<char>,
    comma: bool,
    second: Seq<char>,
    inclusive: bool,
    third: Seq<char>,
)
    requires
        is_blank(first),
        is_blank(second),
        is_blank(third),
    ensures
        ({
            let m = between(first, comma, second, inclusive, third);
            &&& m.len() > 0
            &&& is_break(m[0])
            &&& no_digits(m)
            &&& comparison(m) == "<"@ || comparison(m) == "<="@
        }),
{
    reveal_strlit("<");
    reveal_strlit("<=");
    reveal_strlit(",");
    let m = between(first, comma, second, inclusive, third);
    let sign: Seq<char> = if inclusive {
        seq!['<', '=']
    } else {
        seq!['<']
    };
    let c: Seq<char> = if comma {
        seq![',']
    } else {
        seq![]
    };
    assert forall|i: int| 0 <= i < m.len() implies !is_digit(#[trigger] m[i]) by {
        let a = first.len() as int;
        let b = a + c.len();
        let d = b + second.len();
        let e = d + sign.len();
        if i < a {
            assert(m[i] == first[i]);
            assert(is_white_space(first[i]));
        } else if i < b {
            assert(m[i] == c[i - a]);
        } else if i < d {
            assert(m[i] == second[i - b]);
            assert(is_white_space(second[i - b]));
        } else if i < e {
            assert(m[i] == sign[i - d]);
        } else {
            assert(m[i] == third[i - e]);
            assert(is_white_space(third[i - e]));
        }
    }
    if first.len() > 0 {
        assert(m[0] == first[0]);
        assert(is_white_space(first[0]));
    } else if comma {
        assert(m[0] == ',');
    } else if second.len() > 0 {
        assert(m[0] == second[0]);
        assert(is_white_space(second[0]));
    } else {
        assert(m[0] == '<');
    }
    if comma {
        let core = c + second + sign;
        let inner = second + sign;
        assert(m == first + (core + third));
        assert((core + third)[0] == ',');
        lemma_trim_start_blank(first, core + third);
        assert(core.last() == sign.last());
        lemma_trim_end_blank(core, third);
        assert(trim(m) == core);
        assert(core.take(1) == ","@);
        assert(core.skip(1) == inner);
        assert(inner.last() == sign.last());
        lemma_trim_blank(second, sign);
        lemma_trim_keeps(sign);
        assert(comparison(m) == sign);
    } else {
        let blank = first + second;
        assert(is_blank(blank));
        assert(m == blank + (sign + third));
        lemma_trim_start_blank(blank, sign + third);
        lemma_trim_end_blank(sign, third);
        assert(trim(m) == sign);
        assert(sign.take(1)[0] != ',');
        assert(comparison(m) == sign);
    }
    if inclusive {
        assert(sign == "<="@);
    } else {
        assert(sign == "<"@);
    }
}

/// Of a pair of bounds both move. The lower bound becomes the new version, and
/// the upper one stays as far above it in the first number in which the two
/// differed; what is behind that number becomes zero.
pub proof fn law_pair_is_moved(
    inclusive_lower: bool,
    blank: Seq<char>,
    lower: VersionView,
    first: Seq<char>,
    comma: bool,
    second: Seq<char>,
    inclusive_upper: bool,
    third: Seq<char>,
    upper: VersionView,
    v: VersionView,
)
    requires
        is_blank(blank),
        is_blank(first),
        is_blank(second),
        is_blank(third),
        lower.valid(),
        upper.valid(),
        v.valid(),
    ensures
        ({
            let mark: Seq<char> = (if inclusive_lower {
                seq!['>', '=']
            } else {
                seq!['>']
            }) + blank;
            let middle = between(first, comma, second, inclusive_upper, third);
            let r = replacement(
                mark + lower.display() + middle + upper.display(),
                v.display(),
            );
            let front = mark + v.display() + middle;
            &&& lower.major < upper.major && v.major + (upper.major - lower.major) <= u64::MAX
                ==> r == front + numbered(
                (v.major + (upper.major - lower.major)) as u64,
                0,
                0,
            ).display()
            &&& lower.major == upper.major && lower.minor < upper.minor && v.minor + (upper.minor
                - lower.minor) <= u64::MAX ==> r == front + numbered(
                v.major,
                (v.minor + (upper.minor - lower.minor)) as u64,
                0,
            ).display()
            &&& lower.major == upper.major && lower.minor == upper.minor && lower.patch
                < upper.patch && v.patch + (upper.patch - lower.patch) <= u64::MAX ==> r == front
                + numbered(
                v.major,
                v.minor,
                (v.patch + (upper.patch - lower.patch)) as u64,
            ).display()
        }),
{
    reveal_strlit(">");
    reveal_strlit(">=");
    let op: Seq<char> = if inclusive_lower {
        seq!['>', '=']
    } else {
        seq!['>']
    };
    assert(op == ">="@ || op == ">"@);
    let mark = op + blank;
    let middle = between(first, comma, second, inclusive_upper, third);
    let c = mark + lower.display() + middle + upper.display();
    lemma_between(first, comma, second, inclusive_upper, third);
    lemma_no_digits(op, blank);
    lemma_trim_mark(op, blank);
    lemma_display(lower);
    lemma_display(upper);
    law_parse_of_display(lower);
    law_parse_of_display(upper);
    law_parse_of_display(v);
    lemma_two_bounds(mark, lower.display(), middle, upper.display());
}

/// A text with white space around it is trimmed to itself, where it neither begins
/// nor ends with any.
proof fn lemma_trimmed(before: Seq<char>, t: Seq<char>, behind: Seq<char>)
    requires
        is_blank(before),
        is_blank(behind),
        is_solid(t),
    ensures
        trim(before + t + behind) == t,
        trim(before + t) == t,
        trim(t) == t,
{
    assert(before + t + behind == before + (t + behind));
    assert((t + behind)[0] == t[0]);
    lemma_trim_start_blank(before, t + behind);
    lemma_trim_end_blank(t, behind);
    lemma_trim_keeps(t);
    lemma_trim_blank(before, t);
}

/// A text that neither begins nor ends with white space.
pub open spec fn is_solid(t: Seq<char>) -> bool {
    t.len() > 0 && !is_white_space(t[0]) && !is_white_space(t.last())
}

/// The standard normaliser drops the white space around a constraint, puts a caret
/// in front of a bare version that is no requirement by itself, and passes
/// everything else through unchanged.
pub proof fn law_standard_form(before: Seq<char>, t: Seq<char>, behind: Seq<char>)
    requires
        is_blank(before),
        is_blank(behind),
        is_solid(t),
    ensures
        '0' <= t[0] && t[0] <= '9' && !requirement_parses(t) ==> standard_form(before + t + behind)
            == seq!['^'] + t,
        requirement_parses(t) ==> standard_form(before + t + behind) == t,
        t[0] < '0' || t[0] > '9' ==> standard_form(before + t + behind) == t,
{
    reveal_strlit("^");
    lemma_trimmed(before, t, behind);
    assert("^"@ == seq!['^']);
}

/// A text begins with two characters.
pub open spec fn opens_with(t: Seq<char>, a: char, b: char) -> bool {
    t.len() > 1 && t[0] == a && t[1] == b
}

/// The Python normaliser writes `==` as `=` and `~=` as `~`, and drops the white
/// space behind them; any other constraint it treats like the standard one.
pub proof fn law_python_form(
    before: Seq<char>,
    blank: Seq<char>,
    t: Seq<char>,
    behind: Seq<char>,
)
    requires
        is_blank(before),
        is_blank(blank),
        is_blank(behind),
        is_solid(t),
    ensures
        python_form(before + seq!['=', '='] + blank + t + behind) == seq!['='] + t,
        python_form(before + seq!['~', '='] + blank + t + behind) == seq!['~'] + t,
        !opens_with(t, '=', '=') && !opens_with(t, '~', '=') ==> python_form(before + t + behind)
            == standard_form(t),
{
    reveal_strlit("==");
    reveal_strlit("~=");
    reveal_strlit("=");
    reveal_strlit("~");
    lemma_marked(before, "=="@, blank, t, behind);
    lemma_marked(before, "~="@, blank, t, behind);
    assert("=="@ == seq!['=', '=']);
    assert("~="@ == seq!['~', '=']);
    assert("="@ == seq!['=']);
    assert("~"@ == seq!['~']);
    let second = "~="@ + blank + t;
    assert(second.take(2)[0] == '~');
    lemma_trimmed(before, t, behind);
    if !opens_with(t, '=', '=') && !opens_with(t, '~', '=') {
        if begins(t, "=="@) {
            assert(t.take(2)[0] == t[0] && t.take(2)[1] == t[1]);
        }
        if begins(t, "~="@) {
            assert(t.take(2)[0] == t[0] && t.take(2)[1] == t[1]);
        }
    }
}

/// What a constraint is behind a mark of two characters.
proof fn lemma_marked(
    before: Seq<char>,
    mark: Seq<char>,
    blank: Seq<char>,
    t: Seq<char>,
    behind: Seq<char>,
)
    requires
        is_blank(before),
        is_blank(blank),
        is_blank(behind),
        is_solid(t),
        mark.len() == 2,
        !is_white_space(mark[0]),
    ensures
        trim(before + mark + blank + t + behind) == mark + blank + t,
        trim(mark + blank + t) == mark + blank + t,
        begins(mark + blank + t, mark),
        after(mark + blank + t, mark) == blank + t,
        trim(blank + t) == t,
{
    let u = mark + blank + t;
    assert(u[0] == mark[0]);
    assert(u.last() == t.last());
    lemma_trimmed(before, u, behind);
    assert(before + u + behind == before + mark + blank + t + behind);
    assert(u.take(2) == mark);
    assert(u.skip(2) == blank + t);
    lemma_trim_blank(blank, t);
    lemma_trim_keeps(t);
}

/// The Ruby normaliser reads `~>` by the number of components behind it: the last
/// one given may grow, and of one component alone the minor number. Any other
/// constraint it treats like the standard one.
pub proof fn law_ruby_form(
    before: Seq<char>,
    blank: Seq<char>,
    major: u64,
    minor: u64,
    patch: u64,
    t: Seq<char>,
    behind: Seq<char>,
)
    requires
        is_blank(before),
        is_blank(blank),
        is_blank(behind),
        is_solid(t),
        major < u64::MAX,
    ensures
        ({
            let mark = before + seq!['~', '>'] + blank;
            let next = numbered((major + 1) as u64, 0, 0).display();
            &&& ruby_form(mark + decimal(major as nat) + behind) == ">="@ + numbered(
                major,
                0,
                0,
            ).display() + ", <"@ + next
            &&& ruby_form(mark + dotted(major, minor) + behind) == ">="@ + numbered(
                major,
                minor,
                0,
            ).display() + ", <"@ + next
            &&& ruby_form(mark + numbered(major, minor, patch).display() + behind) == "~"@
                + numbered(major, minor, patch).display()
        }),
        !opens_with(t, '~', '>') ==> ruby_form(before + t + behind) == standard_form(t),
{
    reveal_strlit("~>");
    assert("~>"@ == seq!['~', '>']);
    let one = decimal(major as nat);
    let two = dotted(major, minor);
    let three = numbered(major, minor, patch).display();
    lemma_solid_numbers(major, minor, patch);
    lemma_marked(before, "~>"@, blank, one, behind);
    lemma_marked(before, "~>"@, blank, two, behind);
    lemma_marked(before, "~>"@, blank, three, behind);
    lemma_pessimistic_one(major);
    lemma_pessimistic_two(major, minor);
    lemma_pessimistic_three(major, minor, patch);
    lemma_trimmed(before, t, behind);
    if !opens_with(t, '~', '>') && begins(t, "~>"@) {
        assert(t.take(2)[0] == t[0] && t.take(2)[1] == t[1]);
    }
}

/// Numbers neither begin nor end with white space.
proof fn lemma_solid_numbers(major: u64, minor: u64, patch: u64)
    ensures
        is_solid(decimal(major as nat)),
        is_solid(dotted(major, minor)),
        is_solid(numbered(major, minor, patch).display()),
{
    let one = decimal(major as nat);
    let two = dotted(major, minor);
    let three = numbered(major, minor, patch).display();
    lemma_no_breaks(major, minor);
    lemma_numbered(major, minor, patch);
    lemma_display(numbered(major, minor, patch));
    assert(!is_break(one[one.len() - 1]) && !is_break(two[two.len() - 1]));
    assert(!is_break(three[three.len() - 1]) && is_digit(three[0]));
}

/// What `~>` requires before one number.
proof fn lemma_pessimistic_one(major: u64)
    requires
        major < u64::MAX,
    ensures
        pessimistic_form(decimal(major as nat)) == ">="@ + numbered(major, 0, 0).display() + ", <"@
            + numbered((major + 1) as u64, 0, 0).display(),
{
    reveal_strlit(".0, <");
    reveal_strlit(", <");
    reveal_strlit(".0.0");
    reveal_strlit(".");
    reveal_strlit("0");
    let one = decimal(major as nat);
    let next = decimal((major + 1) as nat);
    lemma_number_parts(major, 0, 0);
    lemma_decimal_number(major);
    lemma_filled(major, 0);
    lemma_filled((major + 1) as u64, 0);
    assert(pessimistic_form(one) == ">="@ + one + "."@ + "0"@ + ".0, <"@ + next + ".0.0"@);
    assert(one + "."@ + "0"@ + ".0, <"@ == one + ".0.0"@ + ", <"@);
    assert(">="@ + one + "."@ + "0"@ + ".0, <"@ == ">="@ + (one + "."@ + "0"@ + ".0, <"@));
    assert(">="@ + one + "."@ + "0"@ + ".0, <"@ + next + ".0.0"@ == ">="@ + (one + ".0.0"@)
        + ", <"@ + (next + ".0.0"@));
}

/// What `~>` requires before two numbers.
proof fn lemma_pessimistic_two(major: u64, minor: u64)
    requires
        major < u64::MAX,
    ensures
        pessimistic_form(dotted(major, minor)) == ">="@ + numbered(major, minor, 0).display()
            + ", <"@ + numbered((major + 1) as u64, 0, 0).display(),
{
    reveal_strlit(".0, <");
    reveal_strlit(", <");
    reveal_strlit(".0");
    reveal_strlit(".");
    let x = decimal(major as nat);
    let y = decimal(minor as nat);
    let next = decimal((major + 1) as nat);
    lemma_number_parts(major, minor, 0);
    lemma_decimal_number(major);
    lemma_filled(major, minor);
    lemma_filled((major + 1) as u64, 0);
    assert(pessimistic_form(dotted(major, minor)) == ">="@ + x + "."@ + y + ".0, <"@ + next
        + ".0.0"@);
    assert(dotted(major, minor) == x + "."@ + y);
    assert(">="@ + x + "."@ + y + ".0, <"@ + next + ".0.0"@ == ">="@ + (dotted(major, minor)
        + ".0"@) + ", <"@ + (next + ".0.0"@));
}

/// What `~>` requires before three numbers.
proof fn lemma_pessimistic_three(major: u64, minor: u64, patch: u64)
    ensures
        pessimistic_form(numbered(major, minor, patch).display()) == "~"@ + numbered(
            major,
            minor,
            patch,
        ).display(),
{
    lemma_number_parts(major, minor, patch);
    lemma_numbered(major, minor, patch);
}

/// Zero in decimal.
pub proof fn lemma_zero()
    ensures
        decimal(0) == seq!['0'],
{
    assert(crate::text::number::digit_char(0) == '0');
}

/// A number in decimal is read as itself.
pub proof fn lemma_decimal_number(n: u64)
    ensures
        number(decimal(n as nat)) == Some(n),
{
    let d = decimal(n as nat);
    lemma_decimal(n as nat);
    assert(is_digit(d[0]));
    assert(crate::text::number::unsigned(d) == d);
}

/// The Deno normaliser drops the `v` of a version pin, and treats everything else
/// like the standard one.
pub proof fn law_deno_form(before: Seq<char>, t: Seq<char>, behind: Seq<char>)
    requires
        is_blank(before),
        is_blank(behind),
        is_solid(t),
    ensures
        '0' <= t[0] && t[0] <= '9' ==> deno_form(before + seq!['v'] + t + behind) == standard_form(
            t,
        ),
        t[0] != 'v' ==> deno_form(before + t + behind) == standard_form(t),
{
    lemma_trimmed(before, t, behind);
    let u = seq!['v'] + t;
    assert(u.last() == t.last());
    lemma_trimmed(before, u, behind);
    assert(before + u + behind == before + seq!['v'] + t + behind);
    assert(u.skip(1) == t);
}

/// The normaliser for all ecosystems writes `~>` and `~=` as `~` and `==` as `=`,
/// and treats any other constraint like the standard one.
pub proof fn law_common_form(
    before: Seq<char>,
    blank: Seq<char>,
    t: Seq<char>,
    behind: Seq<char>,
)
    requires
        is_blank(before),
        is_blank(blank),
        is_blank(behind),
        is_solid(t),
    ensures
        normalized(before + seq!['~', '>'] + blank + t + behind) == seq!['~'] + t,
        normalized(before + seq!['=', '='] + blank + t + behind) == seq!['='] + t,
        normalized(before + seq!['~', '='] + blank + t + behind) == seq!['~'] + t,
        !opens_with(t, '~', '>') && !opens_with(t, '=', '=') && !opens_with(t, '~', '=')
            ==> normalized(before + t + behind) == standard_form(t),
{
    reveal_strlit("~>");
    reveal_strlit("==");
    reveal_strlit("~=");
    reveal_strlit("=");
    reveal_strlit("~");
    lemma_marked(before, "~>"@, blank, t, behind);
    lemma_marked(before, "=="@, blank, t, behind);
    lemma_marked(before, "~="@, blank, t, behind);
    assert("~>"@ == seq!['~', '>']);
    assert("=="@ == seq!['=', '=']);
    assert("~="@ == seq!['~', '=']);
    assert("="@ == seq!['=']);
    assert("~"@ == seq!['~']);
    let second = "=="@ + blank + t;
    assert(second.take(2)[0] == '=');
    let third = "~="@ + blank + t;
    assert(third.take(2)[0] == '~' && third.take(2)[1] == '=');
    lemma_trimmed(before, t, behind);
    if begins(t, "~>"@) || begins(t, "=="@) || begins(t, "~="@) {
        assert(t.take(2)[0] == t[0] && t.take(2)[1] == t[1]);
    }
}

/// Behind an operator the base that is read without knowing the ecosystem is the
/// version that is written there.
pub proof fn law_plain_base_is_the_version(
    op: Seq<char>,
    blank: Seq<char>,
    v: VersionView,
    major: u64,
    minor: u64,
)
    requires
        is_operator(op) || op.len() == 0,
        is_blank(blank),
        v.valid(),
    ensures
        plain_base_version(op + blank + v.display()) == Some(v),
        plain_base_version(op + blank + decimal(major as nat)) == Some(numbered(major, 0, 0)),
        plain_base_version(op + blank + dotted(major, minor)) == Some(numbered(major, minor, 0)),
{
    law_base_is_the_version(op, blank, v, major, minor);
    lemma_display(v);
    lemma_no_breaks(major, minor);
    lemma_plain_base(op, blank, v.display());
    lemma_plain_base(op, blank, decimal(major as nat));
    lemma_plain_base(op, blank, dotted(major, minor));
}

/// Without a `v` both readers read the same.
proof fn lemma_plain_base(op: Seq<char>, blank: Seq<char>, t: Seq<char>)
    requires
        is_operator(op) || op.len() == 0,
        is_blank(blank),
        t.len() > 0,
        is_digit(t[0]),
        no_breaks(t),
    ensures
        plain_base_version(op + blank + t) == base_version(op + blank + t),
{
    lemma_no_digits(op, blank);
    lemma_single(op + blank, t);
    assert(!is_break(t[t.len() - 1]));
    lemma_text_read_back(op, blank, t);
    assert(without_v(t) == t);
}

/// Bounds with a bar between them are no pair: they give way to the bare version.
pub proof fn law_alternatives_become_bare(
    mark: Seq<char>,
    lower: VersionView,
    middle: Seq<char>,
    upper: VersionView,
    bar: int,
    new_version: Seq<char>,
)
    requires
        is_mark(mark),
        lower.valid(),
        upper.valid(),
        is_mark(middle),
        0 <= bar < middle.len(),
        middle[bar] == '|',
        middle[0] == '|' || is_white_space(middle[0]),
    ensures
        is_complex(mark + lower.display() + middle + upper.display()),
        replacement(mark + lower.display() + middle + upper.display(), new_version) == new_version,
{
    reveal_strlit("<");
    reveal_strlit("<=");
    reveal_strlit(",");
    lemma_display(lower);
    lemma_display(upper);
    assert(no_digits(mark) && no_digits(middle));
    lemma_two_bounds(mark, lower.display(), middle, upper.display());
    let (a, b) = law_trim(middle);
    let t = trim(middle);
    assert(middle == a + t + b);
    let k = bar - a.len();
    if bar < a.len() {
        assert(middle[bar] == a[bar]);
        assert(is_white_space(a[bar]));
    } else if k >= t.len() {
        assert(middle[bar] == b[k - t.len()]);
        assert(is_white_space(b[k - t.len()]));
    }
    assert(t[k as int] == '|');
    if begins(t, ","@) {
        assert(t.take(1)[0] == t[0]);
        let r = t.skip(1);
        let (c, d) = law_trim(r);
        let u = trim(r);
        assert(r == c + u + d);
        let m = k - 1 - c.len();
        assert(r[k - 1] == '|');
        if k - 1 < c.len() {
            assert(is_white_space(c[k - 1]));
        } else if m >= u.len() {
            assert(r[k - 1] == d[m - u.len()]);
            assert(is_white_space(d[m - u.len()]));
        }
        assert(u[m as int] == '|');
        assert(comparison(middle) == u);
    } else {
        assert(comparison(middle) == t);
    }
}

/// One bound, and a pair of bounds, keep their operators: neither is complex.
pub proof fn law_simple_constraints(mark: Seq<char>, v: VersionView)
    requires
        is_mark(mark),
        v.valid(),
    ensures
        !is_complex(mark + v.display()),
{
    assert(no_digits(mark));
    lemma_display(v);
    lemma_single(mark, v.display());
}

/// Of several bounds the first of which sets no lower one, no base is read.
pub proof fn law_no_base_without_lower_bound(
    op: Seq<char>,
    blank: Seq<char>,
    v: VersionView,
    middle: Seq<char>,
    other: VersionView,
)
    requires
        op == "<"@ || op == "<="@ || op == "!="@,
        is_blank(blank),
        v.valid(),
        other.valid(),
        middle.len() > 0,
        is_white_space(middle[0]) || middle[0] == ',' || middle[0] == '|',
        is_mark(middle),
    ensures
        base_version(op + blank + v.display() + middle + other.display()) is None,
{
    reveal_strlit(".0.0");
    reveal_strlit(".0");
    let d = v.display();
    let mark = op + blank;
    let t = d + middle + other.display();
    let c = mark + d + middle + other.display();
    lemma_display(v);
    lemma_display(other);
    lemma_no_digits(op, blank);
    assert(no_digits(middle));
    lemma_two_bounds(mark, d, middle, other.display());
    lemma_trim_mark(op, blank);
    assert(c == mark + t);
    assert(lower_bound(c) == c);
    assert(t[0] == d[0]);
    assert(t.last() == other.display().last());
    assert(!is_break(other.display()[other.display().len() - 1]));
    lemma_text_read_back(op, blank, t);
    assert(without_v(t) == t);
    let s = padded(t);
    let k = d.len() as int;
    assert(s[k] == middle[0]);
    if version_of(s) is Some {
        let w = version_of(s)->0;
        crate::version::law_display_of_parse(s);
        lemma_display(w);
        assert(!is_break(s[k]));
    }
}

/// A constraint without a number gives way to the bare version.
pub proof fn law_wildcard_is_replaced(constraint: Seq<char>, new_version: Seq<char>)
    requires
        is_mark(constraint),
    ensures
        replacement(constraint, new_version) == new_version,
        base_version(constraint) is None,
{
    let f = |c: char| is_digit(c);
    crate::text::search::lemma_find_where_none(constraint, f);
    assert(Seq::<char>::empty() + new_version == new_version);
    lemma_no_digit_no_base(constraint);
}

/// A text without a digit has no base.
proof fn lemma_no_digit_no_base(constraint: Seq<char>)
    requires
        is_mark(constraint),
    ensures
        base_version(constraint) is None,
{
    let f = |c: char| is_digit(c);
    crate::text::search::lemma_find_where_none(constraint, f);
    assert(lower_bound(constraint) == constraint);
    lemma_less_is_mark(constraint);
    let u = super::without_operators(constraint);
    let t = without_v(u);
    if t.len() > 0 {
        let s = padded(t);
        assert(s[0] == t[0]);
        if version_of(s) is Some {
            crate::version::law_display_of_parse(s);
            lemma_display(version_of(s)->0);
            if u == t {
                assert(!is_digit(u[0]));
            } else {
                assert(t[0] == u[1]);
            }
        }
    }
}

/// What is left of a text without digits has none.
proof fn lemma_less_is_mark(s: Seq<char>)
    requires
        is_mark(s),
    ensures
        is_mark(super::without_operators(s)),
{
    lemma_trim_is_mark(s);
    let s0 = trim(s);
    lemma_strip_is_mark(s0, "~>"@);
    let s1 = strip_all(s0, "~>"@);
    lemma_strip_is_mark(s1, ">="@);
    let s2 = strip_all(s1, ">="@);
    lemma_strip_is_mark(s2, "<="@);
    let s3 = strip_all(s2, "<="@);
    lemma_strip_is_mark(s3, "~="@);
    let s4 = strip_all(s3, "~="@);
    lemma_strip_is_mark(s4, "=="@);
    let s5 = strip_all(s4, "=="@);
    lemma_strip_is_mark(s5, "!="@);
    let s6 = strip_all(s5, "!="@);
    lemma_strip_is_mark(s6, "^"@);
    let s7 = strip_all(s6, "^"@);
    lemma_strip_is_mark(s7, "~"@);
    let s8 = strip_all(s7, "~"@);
    lemma_strip_is_mark(s8, ">"@);
    let s9 = strip_all(s8, ">"@);
    lemma_strip_is_mark(s9, "<"@);
    let s10 = strip_all(s9, "<"@);
    lemma_strip_is_mark(s10, "="@);
    lemma_trim_is_mark(strip_all(s10, "="@));
}

proof fn lemma_strip_is_mark(s: Seq<char>, mark: Seq<char>)
    requires
        is_mark(s),
    ensures
        is_mark(strip_all(s, mark)),
    decreases s.len(),
{
    if mark.len() > 0 && begins(s, mark) {
        let r = s.skip(mark.len() as int);
        assert forall|i: int| 0 <= i < r.len() implies !('0' <= #[trigger] r[i] && r[i] <= '9') by {
            assert(r[i] == s[i + mark.len()]);
        }
        lemma_strip_is_mark(r, mark);
    }
}

proof fn lemma_trim_is_mark(s: Seq<char>)
    requires
        is_mark(s),
    ensures
        is_mark(trim(s)),
{
    let (a, b) = law_trim(s);
    let t = trim(s);
    assert forall|i: int| 0 <= i < t.len() implies !('0' <= #[trigger] t[i] && t[i] <= '9') by {
        assert(s[a.len() + i] == t[i]);
    }
}

/// A comparison, a comma or a bar directly behind a version begins another bound: the
/// constraint gives way to the bare version, unless it begins like a pair of bounds.
pub proof fn law_second_bound_gives_way(
    mark: Seq<char>,
    v: VersionView,
    c: char,
    rest: Seq<char>,
    new_version: Seq<char>,
)
    requires
        is_mark(mark),
        v.valid(),
        c == ',' || c == '|' || c == '<' || c == '>' || c == '=' || c == '~' || c == '^' || c
            == '!',
        trim(mark) != ">"@ && trim(mark) != ">="@,
    ensures
        is_complex(mark + v.display() + seq![c] + rest),
        replacement(mark + v.display() + seq![c] + rest, new_version) == new_version,
{
    let d = v.display();
    let u = seq![c] + rest;
    let all = mark + d + seq![c] + rest;
    lemma_display(v);
    assert(no_digits(mark));
    assert(all == mark + (d + u));
    assert((d + u)[0] == d[0]);
    lemma_operator_of(mark, d + u);
    lemma_trim_end_some(u);
    lemma_trim_end_behind(d, u);
    let t = trim_end(d + u);
    assert(t[d.len() as int] == c);
    assert(is_break(c));
    lemma_find_where(t, breaks());
}

} // verus!
