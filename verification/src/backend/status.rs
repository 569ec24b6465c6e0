//! How a dependency stands against what its registry lists.
use vstd::prelude::*;
use crate::cache::{ResultView, VersionResult};
use crate::order::lemma_empty_tag_first;
use crate::providers::{DependencyStatus, ParsedDependency, StatusView};
use crate::text::chars::is_blank;
use crate::text::trim::lemma_trim_keeps;
use crate::version::{is_newer, law_display_of_parse, precedes, requirement_admits};
use crate::version_utils::{
    admitted_ones, base_version, candidates, candidates_for, find_latest, is_major_of, is_minor_of,
    is_stable_text, lemma_top, major_ones, minor_ones, operator, replacement, stable_ones, top,
    update_candidates, ver,
};
use crate::version_utils::laws::{
    is_operator, law_candidate_iff_newer, law_candidates_best, law_complex_becomes_bare,
    law_in_range_best, law_latest, law_pin_read_back, law_replacement_read_back,
    lemma_newer_classes,
};
use crate::version_utils::ranges::{is_complex, range_pair};

verus! {

/// Some candidate is there.
pub open spec fn has_candidate(
    patch: Option<Seq<char>>,
    minor: Option<Seq<char>>,
    major: Option<Seq<char>>,
) -> bool {
    patch is Some || minor is Some || major is Some
}

/// The greatest release of a list, or else its first text.
pub open spec fn latest_of(versions: Seq<Seq<char>>) -> Seq<char> {
    match top(versions, stable_ones(versions)) {
        Some(s) => s,
        None => versions[0],
    }
}

/// The status of a constraint, given the requirement that it stands for and
/// what the registry lists.
pub open spec fn classify(
    constraint: Seq<char>,
    requirement: Seq<char>,
    result: ResultView,
) -> StatusView {
    let versions = result.stable_versions;
    if versions.len() == 0 {
        StatusView::NotFound
    } else {
        match update_candidates(constraint, requirement, versions) {
            Some(c) => match c.in_range {
                Some(version) => if has_candidate(c.patch, c.minor, c.major) {
                    StatusView::UpdateAvailable { patch: c.patch, minor: c.minor, major: c.major }
                } else {
                    StatusView::UpToDate { version }
                },
                None => StatusView::VersionNotFound {
                    latest: latest_of(versions),
                    patch: c.patch,
                    minor: c.minor,
                    major: c.major,
                },
            },
            None => StatusView::Unsupported,
        }
    }
}

/// The status of a constraint, given the requirement that it stands for and
/// what the registry lists.
pub fn status_for(constraint: &str, requirement: &str, result: &VersionResult) -> (r:
    DependencyStatus)
    ensures
        r@ == classify(constraint@, requirement@, result@),
{
    if result.stable_versions.len() == 0 {
        return DependencyStatus::NotFound;
    }
    let versions = result.stable_versions.as_slice();
    match candidates_for(constraint, requirement, versions) {
        Some(c) => match c.in_range {
            Some(version) => {
                if c.patch.is_none() && c.minor.is_none() && c.major.is_none() {
                    DependencyStatus::UpToDate { version }
                } else {
                    DependencyStatus::UpdateAvailable {
                        patch: c.patch,
                        minor: c.minor,
                        major: c.major,
                    }
                }
            },
            None => {
                let latest = match find_latest(versions) {
                    Some(latest) => latest,
                    None => result.stable_versions[0].clone(),
                };
                DependencyStatus::VersionNotFound {
                    latest,
                    patch: c.patch,
                    minor: c.minor,
                    major: c.major,
                }
            },
        },
        None => DependencyStatus::Unsupported,
    }
}

/// Classifies a dependency by its constraint and the versions that are known.
/// The normaliser turns the constraint into a version requirement.
pub fn classify_dependency(
    dep: &ParsedDependency,
    result: &VersionResult,
    normalize: impl Fn(&str) -> String,
) -> (r: DependencyStatus)
    requires
        forall|s: &str| s@ == dep.version_constraint@ ==> #[trigger] call_requires(normalize, (s,)),
    ensures
        exists|s: &str, n: String|
            s@ == dep.version_constraint@ && #[trigger] call_ensures(normalize, (s,), n) && r@
                == classify(dep.version_constraint@, n@, result@),
{
    let constraint = dep.version_constraint.as_str();
    let requirement = normalize(constraint);
    status_for(constraint, requirement.as_str(), result)
}

/// Where an update is available, there is a candidate.
pub proof fn law_update_has_candidate(
    constraint: Seq<char>,
    requirement: Seq<char>,
    result: ResultView,
)
    ensures
        classify(constraint, requirement, result) matches StatusView::UpdateAvailable {
            patch,
            minor,
            major,
        } ==> has_candidate(patch, minor, major),
{
}

/// Where a dependency is up to date, no listed release is newer than its base
/// version, and the version named is a listed release that the constraint
/// admits.
pub proof fn law_up_to_date(constraint: Seq<char>, requirement: Seq<char>, result: ResultView)
    requires
        classify(constraint, requirement, result) is UpToDate,
    ensures
        base_version(constraint) is Some,
        forall|i: int|
            0 <= i < result.stable_versions.len() && is_stable_text(
                #[trigger] result.stable_versions[i],
            ) ==> !is_newer(
                ver(result.stable_versions[i]),
                base_version(constraint)->0,
            ),
        ({
            let version = classify(constraint, requirement, result)->UpToDate_version;
            &&& result.stable_versions.contains(version)
            &&& is_stable_text(version)
            &&& requirement_admits(requirement, ver(version))
        }),
{
    let versions = result.stable_versions;
    let base = base_version(constraint)->0;
    let flags = admitted_ones(requirement, versions);
    law_candidate_iff_newer(base, versions, flags);
    law_in_range_best(base, versions, flags);
    let version = classify(constraint, requirement, result)->UpToDate_version;
    let c = candidates(base, versions, flags);
    assert(c.in_range == Some(version));
    let i = choose|i: int|
        0 <= i < versions.len() && versions[i] == version && flags[i] && is_stable_text(version)
            && forall|j: int|
            0 <= j < versions.len() && flags[j] && is_stable_text(#[trigger] versions[j])
                ==> !precedes(ver(version), ver(versions[j]));
    assert(flags[i]);
    assert(versions.contains(versions[i]));
}

/// Where a dependency is up to date, no listed release without a build tag comes
/// after its base version.
pub proof fn law_up_to_date_is_newest(
    constraint: Seq<char>,
    requirement: Seq<char>,
    result: ResultView,
)
    requires
        classify(constraint, requirement, result) is UpToDate,
    ensures
        forall|i: int|
            0 <= i < result.stable_versions.len() && is_stable_text(
                #[trigger] result.stable_versions[i],
            ) && ver(result.stable_versions[i]).build.len() == 0 ==> !precedes(
                base_version(constraint)->0,
                ver(result.stable_versions[i]),
            ),
{
    law_up_to_date(constraint, requirement, result);
    let base = base_version(constraint)->0;
    assert forall|i: int|
        0 <= i < result.stable_versions.len() && is_stable_text(
            #[trigger] result.stable_versions[i],
        ) && ver(result.stable_versions[i]).build.len() == 0 implies !precedes(
        base,
        ver(result.stable_versions[i]),
    ) by {
        let v = ver(result.stable_versions[i]);
        assert(!is_newer(v, base));
        lemma_newer_classes(v, base);
        if base.is_stable() {
            assert(base.pre == v.pre);
        }
        lemma_empty_tag_first(base.build, v.build);
    }
}

/// The most far-reaching candidate.
pub open spec fn furthest(
    patch: Option<Seq<char>>,
    minor: Option<Seq<char>>,
    major: Option<Seq<char>>,
) -> Option<Seq<char>> {
    match (major, minor) {
        (Some(v), _) => Some(v),
        (None, Some(v)) => Some(v),
        (None, None) => patch,
    }
}

/// A version pin is no pair of bounds.
proof fn lemma_no_pair_pinned(constraint: Seq<char>)
    requires
        operator(constraint) == seq!['v'],
    ensures
        range_pair(constraint) is None,
{
    reveal_strlit(">");
    reveal_strlit(">=");
    lemma_trim_keeps(seq!['v']);
}

/// Once the most far-reaching update is made, no update is available any more,
/// whatever the new constraint admits.
pub proof fn law_update_settles(
    constraint: Seq<char>,
    op: Seq<char>,
    blank: Seq<char>,
    requirement: Seq<char>,
    result: ResultView,
    version: Seq<char>,
    new_requirement: Seq<char>,
)
    requires
        is_complex(constraint) || operator(constraint) == op + blank,
        is_operator(op) || op.len() == 0 || (op == seq!['v'] && blank.len() == 0),
        is_blank(blank),
        classify(constraint, requirement, result) matches StatusView::UpdateAvailable {
            patch,
            minor,
            major,
        } && furthest(patch, minor, major) == Some(version),
    ensures
        base_version(replacement(constraint, version)) == Some(ver(version)),
        classify(replacement(constraint, version), new_requirement, result) !is UpdateAvailable,
{
    let versions = result.stable_versions;
    let base = base_version(constraint)->0;
    let flags = admitted_ones(requirement, versions);
    let v = ver(version);
    law_candidates_best(base, versions, flags);
    law_display_of_parse(version);
    if is_complex(constraint) {
        law_complex_becomes_bare(constraint, v);
    } else if op == seq!['v'] && blank.len() == 0 {
        assert(op + blank == op);
        lemma_no_pair_pinned(constraint);
        law_pin_read_back(constraint, v);
    } else {
        law_replacement_read_back(constraint, op, blank, v);
    }
    let new_flags = admitted_ones(new_requirement, versions);
    law_candidate_iff_newer(v, versions, new_flags);
    if exists|i: int|
        0 <= i < versions.len() && is_stable_text(#[trigger] versions[i]) && is_newer(
            ver(versions[i]),
            v,
        ) {
        let i = choose|i: int|
            0 <= i < versions.len() && is_stable_text(#[trigger] versions[i]) && is_newer(
                ver(versions[i]),
                v,
            );
        let w = ver(versions[i]);
        lemma_newer_classes(w, v);
        lemma_top(versions, major_ones(base, versions));
        lemma_top(versions, minor_ones(base, versions));
        assert(major_ones(base, versions)[i] == is_major_of(base, w));
        assert(minor_ones(base, versions)[i] == is_minor_of(base, w));
        assert(precedes(v, w));
    }
}

/// Every candidate that a status offers is a listed release newer than the
/// constraint's base version.
pub proof fn law_candidates_listed(
    constraint: Seq<char>,
    requirement: Seq<char>,
    result: ResultView,
    candidate: Seq<char>,
)
    requires
        match classify(constraint, requirement, result) {
            StatusView::UpdateAvailable { patch, minor, major } => patch == Some(candidate) || minor
                == Some(candidate) || major == Some(candidate),
            StatusView::VersionNotFound { latest, patch, minor, major } => patch == Some(candidate)
                || minor == Some(candidate) || major == Some(candidate),
            _ => false,
        },
    ensures
        base_version(constraint) is Some,
        result.stable_versions.contains(candidate),
        is_stable_text(candidate),
        precedes(base_version(constraint)->0, ver(candidate)),
{
    let versions = result.stable_versions;
    law_candidates_best(
        base_version(constraint)->0,
        versions,
        admitted_ones(requirement, versions),
    );
}

/// Where no version fits, the latest version named is the greatest release
/// that is listed, if any is.
pub proof fn law_latest_is_greatest(
    constraint: Seq<char>,
    requirement: Seq<char>,
    result: ResultView,
)
    requires
        classify(constraint, requirement, result) is VersionNotFound,
    ensures
        ({
            let latest = classify(constraint, requirement, result)->latest;
            &&& result.stable_versions.contains(latest)
            &&& forall|i: int|
                0 <= i < result.stable_versions.len() && is_stable_text(
                    #[trigger] result.stable_versions[i],
                ) ==> is_stable_text(latest) && !precedes(
                    ver(latest),
                    ver(result.stable_versions[i]),
                )
        }),
{
    law_latest(result.stable_versions);
}

} // verus!
