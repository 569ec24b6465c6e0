//! Constraints and candidates: what a version constraint is based on, which
//! known versions would update it, and how the updated constraint is written.
pub mod laws;
pub mod normalize;
pub mod numbers;
pub mod ranges;
pub mod written;

use vstd::prelude::*;
use vstd::slice::slice_subrange;
use self::ranges::{
    is_single, lower_bound, lower_bound_of, raise, raised, range_pair, read_pair, single,
};
use crate::text::chars::{
    chars_of, copied, digit, is_digit, push_chars, push_str, string_of, text_of, texts,
};
use crate::text::search::{find_where, lemma_find_where, position_digit, split, split_on};
use crate::text::trim::{strip_all, stripped_all, trim, trimmed};
use crate::version::{
    admits, is_requirement, law_display_of_parse, law_order_irreflexive, law_order_total,
    law_order_transitive, precedes, requirement_admits, requirement_parses, version_of, Version,
    VersionView,
};

verus! {

/// A constraint without the operators in front of its version.
pub open spec fn without_operators(constraint: Seq<char>) -> Seq<char> {
    let s = strip_all(trim(constraint), "~>"@);
    let s = strip_all(strip_all(strip_all(s, ">="@), "<="@), "~="@);
    let s = strip_all(strip_all(s, "=="@), "!="@);
    let s = strip_all(strip_all(strip_all(s, "^"@), "~"@), ">"@);
    trim(strip_all(strip_all(s, "<"@), "="@))
}

/// A `v` that stands directly before a digit.
pub open spec fn has_v_prefix(s: Seq<char>) -> bool {
    s.len() > 1 && s[0] == 'v' && is_digit(s[1])
}

/// `s` without such a `v`.
pub open spec fn without_v(s: Seq<char>) -> Seq<char> {
    if has_v_prefix(s) {
        s.skip(1)
    } else {
        s
    }
}

/// A version of one or two components, filled up with zeros to three.
pub open spec fn padded(s: Seq<char>) -> Seq<char> {
    let components = split(s, '.').len();
    if components == 1 {
        s + ".0.0"@
    } else if components == 2 {
        s + ".0"@
    } else {
        s
    }
}

/// The text of the version that a constraint is based on. Of several bounds the
/// first counts, where that is a lower one.
pub open spec fn base_text(constraint: Seq<char>) -> Option<Seq<char>> {
    let s = without_v(without_operators(lower_bound(constraint)));
    if s.len() == 0 {
        None
    } else {
        Some(padded(s))
    }
}

/// The version that a constraint is based on.
pub open spec fn base_version(constraint: Seq<char>) -> Option<VersionView> {
    match base_text(constraint) {
        Some(s) => version_of(s),
        None => None,
    }
}

/// What stands before the first digit of a constraint; nothing where it has
/// no digit.
pub open spec fn operator(constraint: Seq<char>) -> Seq<char> {
    match find_where(constraint, |c: char| is_digit(c)) {
        Some(i) => constraint.take(i),
        None => seq![],
    }
}

/// The constraint for a new version. Behind one operator the version is
/// replaced. Of a pair of bounds both move. Anything else gives way to the bare
/// version.
pub open spec fn replacement(original: Seq<char>, new_version: Seq<char>) -> Seq<char> {
    match range_pair(original) {
        Some(pair) => match version_of(new_version) {
            Some(v) => pair.op + new_version + pair.middle + raised(
                pair.lower,
                pair.upper,
                v,
            ).display(),
            None => new_version,
        },
        None => if is_single(original) {
            operator(original) + new_version
        } else {
            new_version
        },
    }
}

/// The text of a release.
pub open spec fn is_stable_text(s: Seq<char>) -> bool {
    version_of(s) is Some && version_of(s)->0.is_stable()
}

/// The version that a text is known to spell.
pub open spec fn ver(s: Seq<char>) -> VersionView {
    version_of(s)->0
}

/// Of the versions that are kept, the one at `i` is preceded or equalled by
/// all.
pub open spec fn is_top(versions: Seq<Seq<char>>, keep: Seq<bool>, i: int) -> bool {
    &&& 0 <= i < versions.len()
    &&& keep[i]
    &&& forall|j: int|
        0 <= j < versions.len() && keep[j] ==> !precedes(
            ver(versions[i]),
            ver(#[trigger] versions[j]),
        )
}

/// The greatest of the versions that are kept.
pub open spec fn top(versions: Seq<Seq<char>>, keep: Seq<bool>) -> Option<Seq<char>> {
    if exists|i: int| 0 <= i < versions.len() && keep[i] {
        Some(versions[choose|i: int| is_top(versions, keep, i)])
    } else {
        None
    }
}

/// The same major and minor number, and a greater patch number, or the release
/// of a prerelease.
pub open spec fn is_patch_of(base: VersionView, v: VersionView) -> bool {
    v.major == base.major && v.minor == base.minor && (v.patch > base.patch || (v.patch
        == base.patch && v.is_stable() && !base.is_stable()))
}

/// The same major number, and a greater minor number.
pub open spec fn is_minor_of(base: VersionView, v: VersionView) -> bool {
    v.major == base.major && v.minor > base.minor
}

/// A greater major number.
pub open spec fn is_major_of(base: VersionView, v: VersionView) -> bool {
    v.major > base.major
}

/// Which versions are releases.
pub open spec fn stable_ones(versions: Seq<Seq<char>>) -> Seq<bool> {
    versions.map_values(|s: Seq<char>| is_stable_text(s))
}

/// Which versions are releases that a requirement admits.
pub open spec fn admitted_ones(requirement: Seq<char>, versions: Seq<Seq<char>>) -> Seq<bool> {
    versions.map_values(
        |s: Seq<char>| is_stable_text(s) && requirement_admits(requirement, ver(s)),
    )
}

/// Which versions are releases that are marked as in range.
pub open spec fn in_range_ones(versions: Seq<Seq<char>>, in_range: Seq<bool>) -> Seq<bool> {
    Seq::new(versions.len(), |i: int| is_stable_text(versions[i]) && in_range[i])
}

/// Which versions are releases that update the patch number.
pub open spec fn patch_ones(base: VersionView, versions: Seq<Seq<char>>) -> Seq<bool> {
    versions.map_values(|s: Seq<char>| is_stable_text(s) && is_patch_of(base, ver(s)))
}

/// Which versions are releases that update the minor number.
pub open spec fn minor_ones(base: VersionView, versions: Seq<Seq<char>>) -> Seq<bool> {
    versions.map_values(|s: Seq<char>| is_stable_text(s) && is_minor_of(base, ver(s)))
}

/// Which versions are releases that update the major number.
pub open spec fn major_ones(base: VersionView, versions: Seq<Seq<char>>) -> Seq<bool> {
    versions.map_values(|s: Seq<char>| is_stable_text(s) && is_major_of(base, ver(s)))
}

/// All update candidates discovered for a version constraint.
#[derive(Debug)]
pub struct UpdateCandidates {
    /// Highest version that satisfies the current range.
    pub in_range: Option<String>,
    /// Best patch update: same major and minor number, newer patch, or the
    /// release of a prerelease.
    pub patch: Option<String>,
    /// Best minor update: same major number, newer minor.
    pub minor: Option<String>,
    /// Best major update: higher major number.
    pub major: Option<String>,
}

/// Update candidates as a mathematical value.
pub struct CandidatesView {
    pub in_range: Option<Seq<char>>,
    pub patch: Option<Seq<char>>,
    pub minor: Option<Seq<char>>,
    pub major: Option<Seq<char>>,
}

impl View for UpdateCandidates {
    type V = CandidatesView;

    open spec fn view(&self) -> CandidatesView {
        CandidatesView {
            in_range: text_of(self.in_range),
            patch: text_of(self.patch),
            minor: text_of(self.minor),
            major: text_of(self.major),
        }
    }
}

impl Clone for UpdateCandidates {
    fn clone(&self) -> (r: Self)
        ensures
            r == *self,
    {
        UpdateCandidates {
            in_range: copied(&self.in_range),
            patch: copied(&self.patch),
            minor: copied(&self.minor),
            major: copied(&self.major),
        }
    }
}

impl Default for UpdateCandidates {
    fn default() -> (r: Self)
        ensures
            r@ == (CandidatesView { in_range: None, patch: None, minor: None, major: None }),
    {
        UpdateCandidates { in_range: None, patch: None, minor: None, major: None }
    }
}

/// The candidates for a base version, where `in_range` tells which of the
/// versions the constraint admits.
pub open spec fn candidates(
    base: VersionView,
    versions: Seq<Seq<char>>,
    in_range: Seq<bool>,
) -> CandidatesView {
    CandidatesView {
        in_range: top(versions, in_range_ones(versions, in_range)),
        patch: top(versions, patch_ones(base, versions)),
        minor: top(versions, minor_ones(base, versions)),
        major: top(versions, major_ones(base, versions)),
    }
}

/// The candidates for a base version and a requirement. There are none to
/// speak of where either cannot be read.
pub open spec fn candidates_of(
    base: Option<VersionView>,
    requirement: Seq<char>,
    versions: Seq<Seq<char>>,
) -> Option<CandidatesView> {
    if requirement_parses(requirement) && base is Some {
        Some(candidates(base->0, versions, admitted_ones(requirement, versions)))
    } else {
        None
    }
}

/// The candidates for a constraint, given the requirement that it stands for.
pub open spec fn update_candidates(
    constraint: Seq<char>,
    requirement: Seq<char>,
    versions: Seq<Seq<char>>,
) -> Option<CandidatesView> {
    candidates_of(base_version(constraint), requirement, versions)
}

/// The view of a version that may be absent.
pub open spec fn version_view(v: Option<Version>) -> Option<VersionView> {
    match v {
        Some(u) => Some(u@),
        None => None,
    }
}

/// The view of candidates that may be absent.
pub open spec fn candidates_view(c: Option<UpdateCandidates>) -> Option<CandidatesView> {
    match c {
        Some(u) => Some(u@),
        None => None,
    }
}

/// Of the first `n` versions that are kept, the one at `i` is preceded or
/// equalled by all.
spec fn is_top_below(versions: Seq<Seq<char>>, keep: Seq<bool>, n: int, i: int) -> bool {
    &&& 0 <= i < n
    &&& keep[i]
    &&& forall|j: int|
        0 <= j < n && keep[j] ==> !precedes(ver(versions[i]), ver(#[trigger] versions[j]))
}

/// Where some version is kept, one of those kept is the greatest.
proof fn lemma_top_exists(versions: Seq<Seq<char>>, keep: Seq<bool>, n: int, some: int) -> (i: int)
    requires
        0 <= some < n <= versions.len(),
        keep[some],
    ensures
        is_top_below(versions, keep, n, i),
    decreases n,
{
    let last = n - 1;
    let v = ver(versions[last]);
    law_order_irreflexive(v);
    if exists|k: int| 0 <= k < last && keep[k] {
        let k = choose|k: int| 0 <= k < last && keep[k];
        let i = lemma_top_exists(versions, keep, last, k);
        if keep[last] && precedes(ver(versions[i]), v) {
            assert forall|j: int| 0 <= j < n && keep[j] implies !precedes(
                v,
                ver(#[trigger] versions[j]),
            ) by {
                if j < last && precedes(v, ver(versions[j])) {
                    law_order_transitive(ver(versions[i]), v, ver(versions[j]));
                }
            }
            last
        } else {
            i
        }
    } else {
        last
    }
}

/// What `top` gives.
pub proof fn lemma_top(versions: Seq<Seq<char>>, keep: Seq<bool>)
    ensures
        match top(versions, keep) {
            Some(s) => exists|i: int| is_top(versions, keep, i) && versions[i] == s,
            None => forall|i: int| 0 <= i < versions.len() ==> !keep[i],
        },
{
    if exists|i: int| 0 <= i < versions.len() && keep[i] {
        let some = choose|i: int| 0 <= i < versions.len() && keep[i];
        let k = lemma_top_exists(versions, keep, versions.len() as int, some);
        assert(is_top(versions, keep, k));
        let i = choose|i: int| is_top(versions, keep, i);
        assert(is_top(versions, keep, i));
    }
}

/// A greatest version is the one that `top` gives.
pub proof fn lemma_top_is(versions: Seq<Seq<char>>, keep: Seq<bool>, i: int)
    requires
        is_top(versions, keep, i),
        forall|j: int|
            0 <= j < versions.len() && keep[j] ==> version_of(#[trigger] versions[j]) is Some,
    ensures
        top(versions, keep) == Some(versions[i]),
{
    let k = choose|k: int| is_top(versions, keep, k);
    assert(keep[i] && keep[k]);
    assert(!precedes(ver(versions[i]), ver(versions[k])));
    assert(!precedes(ver(versions[k]), ver(versions[i])));
    law_order_total(ver(versions[i]), ver(versions[k]));
    law_display_of_parse(versions[i]);
    law_display_of_parse(versions[k]);
}

/// The greatest of the versions that are kept.
fn top_of(versions: &[String], keep: &Vec<bool>) -> (r: Option<String>)
    requires
        keep@.len() == versions@.len(),
        forall|j: int|
            0 <= j < versions@.len() && keep@[j] ==> version_of(#[trigger] versions@[j]@) is Some,
    ensures
        text_of(r) == top(texts(versions@), keep@),
{
    let ghost vs = texts(versions@);
    let mut best: Option<(usize, Version)> = None;
    for i in 0..versions.len()
        invariant
            vs == texts(versions@),
            keep@.len() == versions@.len(),
            forall|j: int|
                0 <= j < versions@.len() && keep@[j] ==> version_of(#[trigger] versions@[j]@)
                    is Some,
            match best {
                Some((k, v)) => {
                    &&& k < i
                    &&& keep@[k as int]
                    &&& v@.valid()
                    &&& version_of(vs[k as int]) == Some(v@)
                    &&& forall|j: int|
                        0 <= j < i && keep@[j] ==> !precedes(v@, ver(#[trigger] vs[j]))
                },
                None => forall|j: int| 0 <= j < i ==> !keep@[j],
            },
    {
        if keep[i] {
            assert(version_of(versions@[i as int]@) is Some);
            assert(vs[i as int] == versions@[i as int]@);
            if let Some(v) = Version::parse(versions[i].as_str()) {
                let better = match &best {
                    Some((k, b)) => b.precedes(&v),
                    None => true,
                };
                proof {
                    law_order_irreflexive(v@);
                    if better {
                        assert forall|j: int| 0 <= j < i + 1 && keep@[j] implies !precedes(
                            v@,
                            ver(#[trigger] vs[j]),
                        ) by {
                            if j < i && precedes(v@, ver(vs[j])) {
                                law_order_transitive((best->0).1@, v@, ver(vs[j]));
                            }
                        }
                    }
                }
                if better {
                    best = Some((i, v));
                }
            }
        }
    }
    match best {
        Some((k, v)) => {
            proof {
                assert(ver(vs[k as int]) == v@);
                assert(is_top(vs, keep@, k as int));
                assert forall|j: int| 0 <= j < vs.len() && keep@[j] implies version_of(
                    #[trigger] vs[j],
                ) is Some by {
                    assert(vs[j] == versions@[j]@);
                }
                lemma_top_is(vs, keep@, k as int);
            }
            Some(versions[k].clone())
        },
        None => None,
    }
}

/// The candidates among `versions` for a base version, where `in_range` tells
/// of each of them whether the constraint admits it.
pub fn select_candidates(base: &Version, versions: &[String], in_range: &Vec<bool>) -> (r:
    UpdateCandidates)
    requires
        in_range@.len() == versions@.len(),
    ensures
        r@ == candidates(base@, texts(versions@), in_range@),
{
    let ghost vs = texts(versions@);
    let mut range: Vec<bool> = Vec::new();
    let mut patch: Vec<bool> = Vec::new();
    let mut minor: Vec<bool> = Vec::new();
    let mut major: Vec<bool> = Vec::new();
    for i in 0..versions.len()
        invariant
            vs == texts(versions@),
            in_range@.len() == versions@.len(),
            range@ == in_range_ones(vs, in_range@).take(i as int),
            patch@ == patch_ones(base@, vs.take(i as int)),
            minor@ == minor_ones(base@, vs.take(i as int)),
            major@ == major_ones(base@, vs.take(i as int)),
    {
        let mut is_range = false;
        let mut is_patch = false;
        let mut is_minor = false;
        let mut is_major = false;
        if let Some(v) = Version::parse(versions[i].as_str()) {
            if v.is_stable() {
                is_range = in_range[i];
                is_major = v.major > base.major;
                is_minor = v.major == base.major && v.minor > base.minor;
                is_patch = v.major == base.major && v.minor == base.minor && (v.patch > base.patch
                    || (v.patch == base.patch && !base.is_stable()));
            }
        }
        range.push(is_range);
        patch.push(is_patch);
        minor.push(is_minor);
        major.push(is_major);
        proof {
            assert(vs[i as int] == versions@[i as int]@);
            assert(vs.take(i as int + 1) == vs.take(i as int).push(vs[i as int]));
            assert(range@ == in_range_ones(vs, in_range@).take(i as int + 1));
            assert(patch@ == patch_ones(base@, vs.take(i as int + 1)));
            assert(minor@ == minor_ones(base@, vs.take(i as int + 1)));
            assert(major@ == major_ones(base@, vs.take(i as int + 1)));
        }
    }
    proof {
        assert(vs.take(vs.len() as int) == vs);
        assert(range@ == in_range_ones(vs, in_range@));
        assert forall|j: int|
            0 <= j < versions@.len() && (range@[j] || patch@[j] || minor@[j]
                || major@[j]) implies version_of(#[trigger] versions@[j]@) is Some by {
            assert(vs[j] == versions@[j]@);
        }
    }
    UpdateCandidates {
        in_range: top_of(versions, &range),
        patch: top_of(versions, &patch),
        minor: top_of(versions, &minor),
        major: top_of(versions, &major),
    }
}

/// The candidates for a base version and a requirement.
pub fn candidates_with_base(base: Option<Version>, requirement: &str, versions: &[String]) -> (r:
    Option<UpdateCandidates>)
    ensures
        candidates_view(r) == candidates_of(
            version_view(base),
            requirement@,
            texts(versions@),
        ),
{
    if !is_requirement(requirement) {
        return None;
    }
    let base = match base {
        Some(base) => base,
        None => return None,
    };
    let ghost vs = texts(versions@);
    let mut in_range: Vec<bool> = Vec::new();
    for i in 0..versions.len()
        invariant
            vs == texts(versions@),
            in_range@ == admitted_ones(requirement@, vs.take(i as int)),
    {
        let admitted = match Version::parse(versions[i].as_str()) {
            Some(v) => v.is_stable() && admits(requirement, &v),
            None => false,
        };
        in_range.push(admitted);
        proof {
            assert(vs[i as int] == versions@[i as int]@);
            assert(vs.take(i as int + 1) == vs.take(i as int).push(vs[i as int]));
            assert(in_range@ == admitted_ones(requirement@, vs.take(i as int + 1)));
        }
    }
    proof {
        assert(vs.take(vs.len() as int) == vs);
        assert(in_range_ones(vs, in_range@) == in_range@);
    }
    Some(select_candidates(&base, versions, &in_range))
}

/// The candidates for a constraint, given the requirement that it stands for.
pub fn candidates_for(constraint: &str, requirement: &str, versions: &[String]) -> (r: Option<
    UpdateCandidates,
>)
    ensures
        candidates_view(r) == update_candidates(constraint@, requirement@, texts(versions@)),
{
    candidates_with_base(base_of(constraint), requirement, versions)
}

/// Given a version constraint, the known stable versions, and the normaliser
/// of the constraint's ecosystem, returns the highest version that satisfies
/// the range plus the best patch, minor and major candidates.
///
/// The normaliser turns the ecosystem's own constraint syntax into a version
/// requirement. Returns `None` if the constraint cannot be read.
pub fn find_update_candidates(
    constraint: &str,
    versions: &[String],
    normalize: impl Fn(&str) -> String,
) -> (r: Option<UpdateCandidates>)
    requires
        call_requires(normalize, (constraint,)),
    ensures
        exists|n: String| #[trigger]
            call_ensures(normalize, (constraint,), n) && candidates_view(r) == update_candidates(
                constraint@,
                n@,
                texts(versions@),
            ),
{
    let normalized = normalize(constraint);
    candidates_for(constraint, normalized.as_str(), versions)
}

/// Returns the highest stable version of a list, or `None` if it has none.
pub fn find_latest(versions: &[String]) -> (r: Option<String>)
    ensures
        text_of(r) == top(texts(versions@), stable_ones(texts(versions@))),
{
    let ghost vs = texts(versions@);
    let mut stable: Vec<bool> = Vec::new();
    for i in 0..versions.len()
        invariant
            vs == texts(versions@),
            stable@ == stable_ones(vs.take(i as int)),
    {
        let is_stable = match Version::parse(versions[i].as_str()) {
            Some(v) => v.is_stable(),
            None => false,
        };
        stable.push(is_stable);
        proof {
            assert(vs[i as int] == versions@[i as int]@);
            assert(vs.take(i as int + 1) == vs.take(i as int).push(vs[i as int]));
            assert(stable@ == stable_ones(vs.take(i as int + 1)));
        }
    }
    proof {
        assert(vs.take(vs.len() as int) == vs);
    }
    top_of(versions, &stable)
}

/// `s` without the operators in front of its version.
pub fn operators_removed(constraint: &[char]) -> (r: &[char])
    ensures
        r@ == without_operators(constraint@),
{
    let s = stripped_all(trimmed(constraint), "~>");
    let s = stripped_all(stripped_all(stripped_all(s, ">="), "<="), "~=");
    let s = stripped_all(stripped_all(s, "=="), "!=");
    let s = stripped_all(stripped_all(stripped_all(s, "^"), "~"), ">");
    trimmed(stripped_all(stripped_all(s, "<"), "="))
}

/// `s` without a `v` that stands directly before a digit.
pub fn v_removed(s: &[char]) -> (r: &[char])
    ensures
        r@ == without_v(s@),
{
    if s.len() > 1 && s[0] == 'v' && digit(s[1]) {
        slice_subrange(s, 1, s.len())
    } else {
        s
    }
}

/// A version of one or two components, filled up with zeros to three.
pub fn pad(s: &[char]) -> (r: String)
    ensures
        r@ == padded(s@),
{
    let parts = split_on(s, '.');
    let mut out: Vec<char> = Vec::new();
    push_chars(&mut out, s);
    assert(out@ == s@);
    assert(parts@.len() == split(s@, '.').len());
    if parts.len() == 1 {
        push_str(&mut out, ".0.0");
    } else if parts.len() == 2 {
        push_str(&mut out, ".0");
    }
    string_of(out.as_slice())
}

/// Extracts the base version from a constraint, stripping operators like `^`,
/// `~`, `>=` and `~>`.
pub fn extract_base_version(constraint: &str) -> (r: Option<String>)
    ensures
        text_of(r) == base_text(constraint@),
{
    let cs = chars_of(constraint);
    let bound = lower_bound_of(cs.as_slice());
    let version = v_removed(operators_removed(bound.as_slice()));
    if version.len() == 0 {
        return None;
    }
    Some(pad(version))
}

/// The version that a constraint is based on.
pub fn base_of(constraint: &str) -> (r: Option<Version>)
    ensures
        match r {
            Some(v) => base_version(constraint@) == Some(v@) && v@.valid(),
            None => base_version(constraint@) is None,
        },
{
    match extract_base_version(constraint) {
        Some(base) => Version::parse(base.as_str()),
        None => None,
    }
}

/// Checks whether a constraint is based on a prerelease, as `^1.0.0-alpha.1`
/// is.
pub fn is_prerelease_constraint(constraint: &str) -> (r: bool)
    ensures
        r == (base_version(constraint@) is Some && !base_version(constraint@)->0.is_stable()),
{
    match base_of(constraint) {
        Some(v) => !v.is_stable(),
        None => false,
    }
}

/// Returns true if `prerelease_version` is strictly greater than the base
/// version of `constraint`.
pub fn prerelease_newer_than_constraint(constraint: &str, prerelease_version: &str) -> (r: bool)
    ensures
        r == (version_of(prerelease_version@) is Some && base_version(constraint@) is Some
            && precedes(base_version(constraint@)->0, ver(prerelease_version@))),
{
    match Version::parse(prerelease_version) {
        Some(pre) => match base_of(constraint) {
            Some(base) => base.precedes(&pre),
            None => false,
        },
        None => false,
    }
}

/// The index at which the operator of a constraint ends.
pub fn operator_end(constraint: &[char]) -> (r: usize)
    ensures
        r <= constraint@.len(),
        operator(constraint@) == constraint@.subrange(0, r as int),
        r == operator(constraint@).len(),
{
    proof {
        lemma_find_where(constraint@, |c: char| is_digit(c));
    }
    match position_digit(constraint) {
        Some(i) => i,
        None => 0,
    }
}

/// Builds a replacement constraint that keeps the operators of the original.
///
/// Example: `"^1.2.0"` and `"2.0.0"` give `"^2.0.0"`. Works for any prefix,
/// including `v`, `~>` and `==`. Of a pair like `">=1.0.0 <2.0.0"` both bounds
/// move: `"2.0.0"` gives `">=2.0.0 <3.0.0"`. Constraints that are more than that
/// are replaced by the bare version.
pub fn build_replacement_text(original: &str, new_version: &str) -> (r: String)
    ensures
        r@ == replacement(original@, new_version@),
{
    let cs = chars_of(original);
    let mut out: Vec<char> = Vec::new();
    if let Some(pair) = read_pair(cs.as_slice()) {
        if let Some(v) = Version::parse(new_version) {
            let upper = raise(&pair.lower, &pair.upper, &v);
            let text = upper.to_string();
            push_chars(&mut out, pair.op.as_slice());
            push_str(&mut out, new_version);
            push_chars(&mut out, pair.middle.as_slice());
            push_str(&mut out, text.as_str());
            assert(out@ == replacement(original@, new_version@));
        } else {
            push_str(&mut out, new_version);
            assert(out@ == new_version@);
        }
    } else if single(cs.as_slice()) {
        let end: usize = operator_end(cs.as_slice());
        push_chars(&mut out, slice_subrange(cs.as_slice(), 0, end));
        assert(out@ == operator(original@));
        push_str(&mut out, new_version);
    } else {
        push_str(&mut out, new_version);
        assert(out@ == new_version@);
    }
    string_of(out.as_slice())
}

} // verus!
