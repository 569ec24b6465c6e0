//! Constraints in one syntax for all ecosystems, read without knowing which
//! one they come from.
pub use crate::version_utils::UpdateCandidates;

use vstd::prelude::*;
use crate::text::chars::{chars_of, push_chars, push_str, string_of, text_of, texts};
use crate::text::search::{after, after_prefix, begins};
use crate::text::trim::{trim, trimmed};
use crate::version::{precedes, version_of, Version, VersionView};
use crate::version_utils::{
    base_text, base_version, candidates_of, candidates_view, candidates_with_base, has_v_prefix,
    operators_removed, pad, padded, replacement, stable_ones, top, ver, without_operators,
};
use crate::version_utils::normalize::{standard, standard_form};
use crate::version_utils::ranges::{lower_bound, lower_bound_of};

verus! {

/// A constraint of any ecosystem as a requirement.
pub open spec fn normalized(constraint: Seq<char>) -> Seq<char> {
    let t = trim(constraint);
    if begins(t, "~>"@) {
        "~"@ + trim(after(t, "~>"@))
    } else if begins(t, "=="@) {
        "="@ + trim(after(t, "=="@))
    } else if begins(t, "~="@) {
        "~"@ + trim(after(t, "~="@))
    } else {
        standard_form(t)
    }
}

/// The text of the version that a constraint is based on. Of several bounds the
/// first counts, where that is a lower one.
pub open spec fn plain_base_text(constraint: Seq<char>) -> Option<Seq<char>> {
    let s = without_operators(lower_bound(constraint));
    if s.len() == 0 {
        None
    } else {
        Some(padded(s))
    }
}

/// The version that a constraint is based on.
pub open spec fn plain_base_version(constraint: Seq<char>) -> Option<VersionView> {
    match plain_base_text(constraint) {
        Some(s) => version_of(s),
        None => None,
    }
}

/// The base that is read without knowing the ecosystem is the base there, but for
/// a `v` before the version.
pub proof fn law_bases_agree(constraint: Seq<char>)
    requires
        !has_v_prefix(without_operators(lower_bound(constraint))),
    ensures
        plain_base_text(constraint) == base_text(constraint),
        plain_base_version(constraint) == base_version(constraint),
{
}

/// Normalises the constraint syntax of any ecosystem to a version requirement.
pub fn normalize_constraint(constraint: &str) -> (r: String)
    ensures
        r@ == normalized(constraint@),
{
    let cs = chars_of(constraint);
    let t = trimmed(cs.as_slice());
    let mut out: Vec<char> = Vec::new();
    if let Some(version) = after_prefix(t, "~>") {
        push_str(&mut out, "~");
        push_chars(&mut out, trimmed(version));
        assert(out@ == normalized(constraint@));
        return string_of(out.as_slice());
    }
    if let Some(version) = after_prefix(t, "==") {
        push_str(&mut out, "=");
        push_chars(&mut out, trimmed(version));
        assert(out@ == normalized(constraint@));
        return string_of(out.as_slice());
    }
    if let Some(version) = after_prefix(t, "~=") {
        push_str(&mut out, "~");
        push_chars(&mut out, trimmed(version));
        assert(out@ == normalized(constraint@));
        return string_of(out.as_slice());
    }
    let text = string_of(t);
    standard(text.as_str())
}

/// Extracts the base version from a constraint, stripping operators like `^`,
/// `~` and `>=`.
pub fn extract_base_version(constraint: &str) -> (r: Option<String>)
    ensures
        text_of(r) == plain_base_text(constraint@),
{
    let cs = chars_of(constraint);
    let bound = lower_bound_of(cs.as_slice());
    let version = operators_removed(bound.as_slice());
    if version.len() == 0 {
        return None;
    }
    Some(pad(version))
}

/// The version that a constraint is based on.
pub fn base_of(constraint: &str) -> (r: Option<Version>)
    ensures
        match r {
            Some(v) => plain_base_version(constraint@) == Some(v@) && v@.valid(),
            None => plain_base_version(constraint@) is None,
        },
{
    match extract_base_version(constraint) {
        Some(base) => Version::parse(base.as_str()),
        None => None,
    }
}

/// Checks whether a constraint is based on a prerelease.
pub fn is_prerelease_constraint(constraint: &str) -> (r: bool)
    ensures
        r == (plain_base_version(constraint@) is Some && !plain_base_version(
            constraint@,
        )->0.is_stable()),
{
    match base_of(constraint) {
        Some(v) => !v.is_stable(),
        None => false,
    }
}

/// Returns true if `prerelease_version` is strictly greater than the base
/// version of `constraint`.
pub fn prerelease_newer_than_constraint(constraint: &str, prerelease_version: &str) -> (r: bool)
    ensures
        r == (version_of(prerelease_version@) is Some && plain_base_version(constraint@) is Some
            && precedes(plain_base_version(constraint@)->0, ver(prerelease_version@))),
{
    match Version::parse(prerelease_version) {
        Some(pre) => match base_of(constraint) {
            Some(base) => base.precedes(&pre),
            None => false,
        },
        None => false,
    }
}

/// Builds a replacement constraint that keeps the operators of the original,
/// where it has no more than a pair of bounds.
pub fn build_replacement_text(original: &str, new_version: &str) -> (r: String)
    ensures
        r@ == replacement(original@, new_version@),
{
    crate::version_utils::build_replacement_text(original, new_version)
}

/// Given a version constraint and the known stable versions, returns the
/// highest version that satisfies the range plus the best patch, minor and
/// major candidates. Returns `None` if the constraint cannot be read.
pub fn find_update_candidates(constraint: &str, versions: &[String]) -> (r: Option<
    UpdateCandidates,
>)
    ensures
        candidates_view(r) == candidates_of(
            plain_base_version(constraint@),
            normalized(constraint@),
            texts(versions@),
        ),
{
    let requirement = normalize_constraint(constraint);
    candidates_with_base(base_of(constraint), requirement.as_str(), versions)
}

/// Returns the highest stable version of a list, or `None` if it has none.
pub fn find_latest(versions: &[String]) -> (r: Option<String>)
    ensures
        text_of(r) == top(texts(versions@), stable_ones(texts(versions@))),
{
    crate::version_utils::find_latest(versions)
}

} // verus!
