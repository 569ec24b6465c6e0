//! Constraints of more than one bound: where the first bound ends, and how a
//! pair of bounds moves to another version.
use vstd::prelude::*;
use vstd::slice::slice_subrange;
use super::{operator, operator_end, pad, padded};
use crate::outline::copy_text;
use crate::text::chars::{is_digit, is_white_space, spells, string_of, white_space};
use crate::text::search::{
    after, after_prefix, begins, find_where, lemma_find_where, lemma_find_where_is,
    lemma_find_where_none, position_digit,
};
use crate::text::trim::{trim, trim_end, trimmed, trimmed_end};
use crate::version::{version_of, Version, VersionView};

verus! {

/// A character that no version has: it ends a bound.
pub open spec fn is_break(c: char) -> bool {
    ||| is_white_space(c)
    ||| c == ','
    ||| c == '|'
    ||| c == '<'
    ||| c == '>'
    ||| c == '='
    ||| c == '~'
    ||| c == '^'
    ||| c == '!'
}

/// The same as a function.
pub open spec fn breaks() -> spec_fn(char) -> bool {
    |c: char| is_break(c)
}

/// Some character is a digit.
pub open spec fn has_digit(s: Seq<char>) -> bool {
    find_where(s, |c: char| is_digit(c)) is Some
}

/// What follows the operator of a constraint.
pub open spec fn behind_operator(constraint: Seq<char>) -> Seq<char> {
    constraint.skip(operator(constraint).len() as int)
}

/// A constraint of one bound: an operator, and nothing but a version behind it.
pub open spec fn is_single(constraint: Seq<char>) -> bool {
    has_digit(constraint) ==> find_where(trim_end(behind_operator(constraint)), breaks()) is None
}

/// The version of the first bound.
pub open spec fn first_version(constraint: Seq<char>) -> Seq<char> {
    let rest = behind_operator(constraint);
    match find_where(rest, breaks()) {
        Some(k) => rest.take(k),
        None => rest,
    }
}

/// An operator that sets no lower bound.
pub open spec fn sets_no_lower(op: Seq<char>) -> bool {
    trim(op) == "<"@ || trim(op) == "<="@ || trim(op) == "!="@
}

/// The bound of a constraint from which its base version is read: the first,
/// where that is a lower one.
pub open spec fn lower_bound(constraint: Seq<char>) -> Seq<char> {
    if is_single(constraint) || sets_no_lower(operator(constraint)) {
        constraint
    } else {
        operator(constraint) + first_version(constraint)
    }
}

/// The smaller numbers, the major one first.
pub open spec fn numbers_less(a: VersionView, b: VersionView) -> bool {
    ||| a.major < b.major
    ||| a.major == b.major && a.minor < b.minor
    ||| a.major == b.major && a.minor == b.minor && a.patch < b.patch
}

/// A lower and an upper bound.
#[derive(Debug)]
pub struct RangePair {
    /// What stands before the lower version.
    pub op: Vec<char>,
    pub lower: Version,
    /// What stands between the versions.
    pub middle: Vec<char>,
    pub upper: Version,
}

/// A pair of bounds as a mathematical value.
#[verifier::ext_equal]
pub struct PairView {
    pub op: Seq<char>,
    pub lower: VersionView,
    pub middle: Seq<char>,
    pub upper: VersionView,
}

impl View for RangePair {
    type V = PairView;

    open spec fn view(&self) -> PairView {
        PairView {
            op: self.op@,
            lower: self.lower@,
            middle: self.middle@,
            upper: self.upper@,
        }
    }
}

/// The comparison between two bounds, which a comma may separate.
pub open spec fn comparison(middle: Seq<char>) -> Seq<char> {
    let t = trim(middle);
    if begins(t, ","@) {
        trim(after(t, ","@))
    } else {
        t
    }
}

/// The pair of bounds that a constraint is: a lower one, then a greater upper
/// one.
pub open spec fn range_pair(constraint: Seq<char>) -> Option<PairView> {
    let op = operator(constraint);
    let x = first_version(constraint);
    let tail = behind_operator(constraint).skip(x.len() as int);
    let middle = operator(tail);
    let y = trim_end(behind_operator(tail));
    let lower = version_of(padded(x));
    let upper = version_of(padded(y));
    if has_digit(constraint) && (trim(op) == ">="@ || trim(op) == ">"@) && (comparison(middle)
        == "<"@ || comparison(middle) == "<="@) && find_where(y, breaks()) is None && lower is Some
        && upper is Some && numbers_less(lower->0, upper->0) {
        Some(PairView { op, lower: lower->0, middle, upper: upper->0 })
    } else {
        None
    }
}

/// A constraint of several bounds that are no pair.
pub open spec fn is_complex(constraint: Seq<char>) -> bool {
    !is_single(constraint) && range_pair(constraint) is None
}

/// A sum that stays at the greatest number there is.
pub open spec fn capped(n: int) -> u64 {
    if n <= u64::MAX {
        n as u64
    } else {
        u64::MAX
    }
}

/// A release without tags.
pub open spec fn release(major: u64, minor: u64, patch: u64) -> VersionView {
    VersionView { major, minor, patch, pre: seq![], build: seq![] }
}

/// The upper bound above a new lower version: as far above it as the old upper
/// bound was above the old lower one, in the first number in which those two
/// differ.
pub open spec fn raised(lower: VersionView, upper: VersionView, v: VersionView) -> VersionView {
    if lower.major < upper.major {
        release(capped(v.major + (upper.major - lower.major)), 0, 0)
    } else if lower.minor < upper.minor {
        release(v.major, capped(v.minor + (upper.minor - lower.minor)), 0)
    } else {
        release(v.major, v.minor, capped(v.patch + (upper.patch - lower.patch)))
    }
}

/// The new upper bound is no greater than the numbers go.
pub open spec fn has_room(lower: VersionView, upper: VersionView, v: VersionView) -> bool {
    if lower.major < upper.major {
        v.major + (upper.major - lower.major) <= u64::MAX
    } else if lower.minor < upper.minor {
        v.minor + (upper.minor - lower.minor) <= u64::MAX
    } else {
        v.patch + (upper.patch - lower.patch) <= u64::MAX
    }
}

/// No character ends a bound.
pub open spec fn no_breaks(s: Seq<char>) -> bool {
    forall|i: int| 0 <= i < s.len() ==> !is_break(#[trigger] s[i])
}

/// No character is a digit.
pub open spec fn no_digits(s: Seq<char>) -> bool {
    forall|i: int| 0 <= i < s.len() ==> !is_digit(#[trigger] s[i])
}

/// A text that begins with a digit and holds no break.
pub open spec fn is_version_like(s: Seq<char>) -> bool {
    s.len() > 0 && is_digit(s[0]) && no_breaks(s)
}

/// What a text without digits before a digit is: an operator.
pub proof fn lemma_operator_of(op: Seq<char>, rest: Seq<char>)
    requires
        no_digits(op),
        rest.len() > 0,
        is_digit(rest[0]),
    ensures
        operator(op + rest) == op,
        behind_operator(op + rest) == rest,
        has_digit(op + rest),
{
    let f = |c: char| is_digit(c);
    let r = op + rest;
    assert(r[op.len() as int] == rest[0]);
    lemma_find_where_is(r, f, op.len() as int);
    assert(r.take(op.len() as int) == op);
    assert(r.skip(op.len() as int) == rest);
}

/// The operator of a constraint has no digit.
pub proof fn lemma_operator_digits(constraint: Seq<char>)
    ensures
        no_digits(operator(constraint)),
        operator(constraint).len() <= constraint.len(),
{
    lemma_find_where(constraint, |c: char| is_digit(c));
}

/// A version behind an operator is a constraint of one bound.
pub proof fn lemma_single(op: Seq<char>, version: Seq<char>)
    requires
        no_digits(op),
        is_version_like(version),
    ensures
        operator(op + version) == op,
        is_single(op + version),
        range_pair(op + version) is None,
        lower_bound(op + version) == op + version,
{
    reveal_strlit("<");
    reveal_strlit("<=");
    reveal_strlit(",");
    let c = op + version;
    lemma_operator_of(op, version);
    assert(trim_end(version) == version);
    lemma_find_where_none(version, breaks());
    let tail = behind_operator(c).skip(first_version(c).len() as int);
    assert(tail.len() == 0);
    let middle = operator(tail);
    lemma_operator_digits(tail);
    assert(middle.len() == 0);
    assert(trim(middle) == middle);
    assert(comparison(middle).len() == 0);
}

/// Two versions with a break between them are a constraint of two bounds.
pub proof fn lemma_two_bounds(
    op: Seq<char>,
    lower: Seq<char>,
    middle: Seq<char>,
    upper: Seq<char>,
)
    requires
        no_digits(op),
        is_version_like(lower),
        middle.len() > 0,
        is_break(middle[0]),
        no_digits(middle),
        is_version_like(upper),
    ensures
        ({
            let c = op + lower + middle + upper;
            let tail = middle + upper;
            &&& operator(c) == op
            &&& has_digit(c)
            &&& !is_single(c)
            &&& first_version(c) == lower
            &&& behind_operator(c).skip(lower.len() as int) == tail
            &&& operator(tail) == middle
            &&& trim_end(behind_operator(tail)) == upper
            &&& find_where(upper, breaks()) is None
        }),
{
    let c = op + lower + middle + upper;
    let tail = middle + upper;
    let rest = lower + tail;
    assert(c == op + rest);
    lemma_operator_of(op, rest);
    assert(rest[lower.len() as int] == middle[0]);
    lemma_find_where_is(rest, breaks(), lower.len() as int);
    assert(rest.take(lower.len() as int) == lower);
    assert(rest.skip(lower.len() as int) == tail);
    lemma_operator_of(middle, upper);
    assert(!is_break(upper[upper.len() - 1]));
    assert(trim_end(upper) == upper);
    lemma_find_where_none(upper, breaks());
    assert(rest.last() == upper.last());
    assert(trim_end(rest) == rest);
}

/// What a pair of bounds is made of.
pub proof fn lemma_range_pair(constraint: Seq<char>)
    requires
        range_pair(constraint) is Some,
    ensures
        ({
            let pair = range_pair(constraint)->0;
            &&& pair.op == operator(constraint)
            &&& no_digits(pair.op)
            &&& !sets_no_lower(pair.op)
            &&& pair.middle.len() > 0
            &&& is_break(pair.middle[0])
            &&& no_digits(pair.middle)
            &&& numbers_less(pair.lower, pair.upper)
        }),
{
    reveal_strlit("<");
    reveal_strlit("<=");
    reveal_strlit(">");
    reveal_strlit(">=");
    reveal_strlit("!=");
    reveal_strlit(",");
    let op = operator(constraint);
    assert(trim(op)[0] == '>');
    lemma_operator_digits(constraint);
    let rest = behind_operator(constraint);
    lemma_find_where(rest, breaks());
    let x = first_version(constraint);
    let tail = rest.skip(x.len() as int);
    lemma_operator_digits(tail);
    let middle = operator(tail);
    lemma_find_where(tail, |c: char| is_digit(c));
    if middle.len() == 0 {
        assert(trim(middle) == middle);
        assert(comparison(middle).len() == 0);
    } else {
        assert(middle[0] == tail[0]);
        assert(tail[0] == rest[x.len() as int]);
    }
}

/// An upper bound is raised as far again.
pub proof fn lemma_raised(
    lower: VersionView,
    upper: VersionView,
    v: VersionView,
    next: VersionView,
)
    requires
        numbers_less(lower, upper),
        has_room(lower, upper, v),
    ensures
        raised(lower, upper, v).valid(),
        numbers_less(v, raised(lower, upper, v)),
        raised(v, raised(lower, upper, v), next) == raised(lower, upper, next),
{
}

/// Whether a character ends a bound.
fn ends_bound(c: char) -> (r: bool)
    ensures
        r == is_break(c),
{
    white_space(c) || c == ',' || c == '|' || c == '<' || c == '>' || c == '=' || c == '~' || c
        == '^' || c == '!'
}

/// The index of the first character that ends a bound.
fn position_break(s: &[char]) -> (r: Option<usize>)
    ensures
        match r {
            Some(i) => find_where(s@, breaks()) == Some(i as int) && i < s@.len(),
            None => find_where(s@, breaks()) is None,
        },
{
    let ghost f = breaks();
    for i in 0..s.len()
        invariant
            f == breaks(),
            forall|j: int| 0 <= j < i ==> !f(s@[j]),
    {
        if ends_bound(s[i]) {
            proof {
                lemma_find_where_is(s@, f, i as int);
            }
            return Some(i);
        }
    }
    proof {
        lemma_find_where_none(s@, f);
    }
    None
}

/// What follows the operator of a constraint.
fn rest_of(constraint: &[char]) -> (r: &[char])
    ensures
        r@ == behind_operator(constraint@),
{
    let end: usize = operator_end(constraint);
    slice_subrange(constraint, end, constraint.len())
}

/// Whether a constraint has one bound.
pub fn single(constraint: &[char]) -> (r: bool)
    ensures
        r == is_single(constraint@),
{
    position_digit(constraint).is_none() || position_break(
        trimmed_end(rest_of(constraint)),
    ).is_none()
}

/// The version of the first bound.
fn first_version_of(constraint: &[char]) -> (r: &[char])
    ensures
        r@ == first_version(constraint@),
        r@.len() <= behind_operator(constraint@).len(),
{
    let rest = rest_of(constraint);
    match position_break(rest) {
        Some(k) => {
            assert(rest@.subrange(0, k as int) == rest@.take(k as int));
            slice_subrange(rest, 0, k)
        },
        None => rest,
    }
}

/// The bound of a constraint from which its base version is read.
pub fn lower_bound_of(constraint: &[char]) -> (r: Vec<char>)
    ensures
        r@ == lower_bound(constraint@),
{
    let end: usize = operator_end(constraint);
    let op = slice_subrange(constraint, 0, end);
    assert(op@ == operator(constraint@));
    let t = trimmed(op);
    if single(constraint) || spells(t, "<") || spells(t, "<=") || spells(t, "!=") {
        return copy_text(constraint);
    }
    let version = first_version_of(constraint);
    let size: usize = constraint.len();
    proof {
        lemma_find_where(behind_operator(constraint@), breaks());
        assert(constraint@.take(end + version@.len()) == op@ + version@);
    }
    copy_text(slice_subrange(constraint, 0, end + version.len()))
}

/// Whether what stands between two bounds compares to the upper one.
fn compares(middle: &[char]) -> (r: bool)
    ensures
        r == (comparison(middle@) == "<"@ || comparison(middle@) == "<="@),
{
    let t = trimmed(middle);
    let sign = match after_prefix(t, ",") {
        Some(rest) => trimmed(rest),
        None => t,
    };
    spells(sign, "<") || spells(sign, "<=")
}

/// Whether the numbers of a version are smaller than those of another.
fn less(a: &Version, b: &Version) -> (r: bool)
    ensures
        r == numbers_less(a@, b@),
{
    a.major < b.major || (a.major == b.major && (a.minor < b.minor || (a.minor == b.minor && a.patch
        < b.patch)))
}

/// Reads a pair of bounds.
pub fn read_pair(constraint: &[char]) -> (r: Option<RangePair>)
    ensures
        match r {
            Some(p) => range_pair(constraint@) == Some(p@),
            None => range_pair(constraint@) is None,
        },
{
    if position_digit(constraint).is_none() {
        return None;
    }
    let end: usize = operator_end(constraint);
    let op = slice_subrange(constraint, 0, end);
    assert(op@ == operator(constraint@));
    let t = trimmed(op);
    if !spells(t, ">=") && !spells(t, ">") {
        return None;
    }
    let rest = rest_of(constraint);
    let x = first_version_of(constraint);
    let tail = slice_subrange(rest, x.len(), rest.len());
    assert(tail@ == rest@.skip(x@.len() as int));
    let middle_end: usize = operator_end(tail);
    let middle = slice_subrange(tail, 0, middle_end);
    assert(middle@ == operator(tail@));
    if !compares(middle) {
        return None;
    }
    let y = trimmed_end(rest_of(tail));
    if position_break(y).is_some() {
        return None;
    }
    let lower_text = pad(x);
    let upper_text = pad(y);
    match (Version::parse(lower_text.as_str()), Version::parse(upper_text.as_str())) {
        (Some(lower), Some(upper)) => if less(&lower, &upper) {
            Some(RangePair { op: copy_text(op), lower, middle: copy_text(middle), upper })
        } else {
            None
        },
        _ => None,
    }
}

/// Whether a constraint has several bounds that are no pair.
pub fn complex(constraint: &[char]) -> (r: bool)
    ensures
        r == is_complex(constraint@),
{
    !single(constraint) && read_pair(constraint).is_none()
}

/// A sum that stays at the greatest number there is.
fn capped_sum(a: u64, b: u64) -> (r: u64)
    ensures
        r == capped(a + b),
{
    if b <= u64::MAX - a {
        a + b
    } else {
        u64::MAX
    }
}

/// The upper bound above a new lower version.
pub fn raise(lower: &Version, upper: &Version, v: &Version) -> (r: Version)
    requires
        numbers_less(lower@, upper@),
    ensures
        r@ == raised(lower@, upper@, v@),
{
    let mut major: u64 = v.major;
    let mut minor: u64 = 0;
    let mut patch: u64 = 0;
    if lower.major < upper.major {
        major = capped_sum(v.major, upper.major - lower.major);
    } else if lower.minor < upper.minor {
        minor = capped_sum(v.minor, upper.minor - lower.minor);
    } else {
        minor = v.minor;
        patch = capped_sum(v.patch, upper.patch - lower.patch);
    }
    let none: Vec<char> = Vec::new();
    Version {
        major,
        minor,
        patch,
        pre: string_of(none.as_slice()),
        build: string_of(none.as_slice()),
    }
}

} // verus!
