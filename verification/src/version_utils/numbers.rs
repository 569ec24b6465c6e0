//! What holds of candidates, stated on the numbers of the versions.
use vstd::prelude::*;
use super::{
    admitted_ones, base_version, candidates, candidates_of, in_range_ones, is_top, lemma_top,
    major_ones, minor_ones, patch_ones, stable_ones, top, update_candidates, ver, CandidatesView,
};
use crate::version::{requirement_admits, requirement_parses, version_of, VersionView};

verus! {

/// The text at `i` of a list is that of a release.
pub open spec fn lists_release(versions: Seq<Seq<char>>, i: int) -> bool {
    0 <= i < versions.len() && version_of(versions[i]) is Some && version_of(
        versions[i],
    )->0.pre.len() == 0
}

/// The version at `i` of a list.
pub open spec fn listed(versions: Seq<Seq<char>>, i: int) -> VersionView {
    version_of(versions[i])->0
}

/// The numbers of one version are those of another or greater, the major one
/// first.
pub open spec fn reaches(a: VersionView, b: VersionView) -> bool {
    ||| a.major > b.major
    ||| a.major == b.major && a.minor > b.minor
    ||| a.major == b.major && a.minor == b.minor && a.patch >= b.patch
}

/// The version at `i` is a listed release that counts, and no listed release
/// that counts has greater numbers.
pub open spec fn is_pick(
    versions: Seq<Seq<char>>,
    counts: spec_fn(VersionView) -> bool,
    i: int,
) -> bool {
    &&& lists_release(versions, i)
    &&& counts(listed(versions, i))
    &&& forall|j: int| #[trigger]
        lists_release(versions, j) && counts(listed(versions, j)) ==> reaches(
            listed(versions, i),
            listed(versions, j),
        )
}

/// What is picked from a list is the greatest listed release that counts;
/// nothing is picked exactly where no listed release counts.
pub open spec fn picks(
    found: Option<Seq<char>>,
    versions: Seq<Seq<char>>,
    counts: spec_fn(VersionView) -> bool,
) -> bool {
    match found {
        Some(s) => exists|i: int| #[trigger] is_pick(versions, counts, i) && versions[i] == s,
        None => forall|j: int| #[trigger]
            lists_release(versions, j) ==> !counts(listed(versions, j)),
    }
}

/// The greatest of the versions that are kept is picked, where those are kept
/// that are releases and count.
proof fn lemma_top_picks(
    versions: Seq<Seq<char>>,
    keep: Seq<bool>,
    counts: spec_fn(VersionView) -> bool,
)
    requires
        forall|i: int|
            0 <= i < versions.len() ==> #[trigger] keep[i] == (lists_release(versions, i) && counts(
                listed(versions, i),
            )),
    ensures
        picks(top(versions, keep), versions, counts),
{
    lemma_top(versions, keep);
    match top(versions, keep) {
        Some(s) => {
            let i = choose|i: int| is_top(versions, keep, i) && versions[i] == s;
            assert(keep[i]);
            assert forall|j: int| #[trigger]
                lists_release(versions, j) && counts(listed(versions, j)) implies reaches(
                listed(versions, i),
                listed(versions, j),
            ) by {
                assert(keep[j]);
                assert(ver(versions[i]) == listed(versions, i));
                assert(ver(versions[j]) == listed(versions, j));
            }
            assert(is_pick(versions, counts, i));
        },
        None => {
            assert forall|j: int| #[trigger] lists_release(versions, j) implies !counts(
                listed(versions, j),
            ) by {
                assert(!keep[j]);
            }
        },
    }
}

/// A release whose major number is greater.
pub open spec fn above_major(base: VersionView) -> spec_fn(VersionView) -> bool {
    |v: VersionView| v.major > base.major
}

/// A release with the same major number, and a greater minor number.
pub open spec fn above_minor(base: VersionView) -> spec_fn(VersionView) -> bool {
    |v: VersionView| v.major == base.major && v.minor > base.minor
}

/// A release with the same major and minor number, and a greater patch number;
/// above a prerelease also the same patch number.
pub open spec fn above_patch(base: VersionView) -> spec_fn(VersionView) -> bool {
    |v: VersionView|
        v.major == base.major && v.minor == base.minor && (v.patch > base.patch || (v.patch
            == base.patch && base.pre.len() > 0))
}

/// The three candidates by their numbers: the patch candidate is the greatest
/// listed release that differs from the base in the patch number alone, the minor
/// one has the base's major number and a greater minor number, and the major one
/// has a greater major number. Each is there exactly where such a release is
/// listed.
pub proof fn law_candidates_by_numbers(
    base: VersionView,
    versions: Seq<Seq<char>>,
    in_range: Seq<bool>,
)
    ensures
        picks(candidates(base, versions, in_range).patch, versions, above_patch(base)),
        picks(candidates(base, versions, in_range).minor, versions, above_minor(base)),
        picks(candidates(base, versions, in_range).major, versions, above_major(base)),
{
    lemma_top_picks(versions, patch_ones(base, versions), above_patch(base));
    lemma_top_picks(versions, minor_ones(base, versions), above_minor(base));
    lemma_top_picks(versions, major_ones(base, versions), above_major(base));
}

/// The version in range is a listed release that is marked as in range, and no
/// other such release has greater numbers; there is none exactly where no
/// listed release is marked.
pub proof fn law_in_range_by_numbers(
    base: VersionView,
    versions: Seq<Seq<char>>,
    in_range: Seq<bool>,
)
    requires
        in_range.len() == versions.len(),
    ensures
        match candidates(base, versions, in_range).in_range {
            Some(s) => exists|i: int| #[trigger]
                lists_release(versions, i) && versions[i] == s && in_range[i] && forall|j: int|
                    #[trigger] lists_release(versions, j) && in_range[j] ==> reaches(
                        listed(versions, i),
                        listed(versions, j),
                    ),
            None => forall|j: int| #[trigger] lists_release(versions, j) ==> !in_range[j],
        },
{
    let keep = in_range_ones(versions, in_range);
    lemma_top(versions, keep);
    match candidates(base, versions, in_range).in_range {
        Some(s) => {
            let i = choose|i: int| is_top(versions, keep, i) && versions[i] == s;
            assert(keep[i]);
            assert(lists_release(versions, i));
            assert forall|j: int| #[trigger]
                lists_release(versions, j) && in_range[j] implies reaches(
                listed(versions, i),
                listed(versions, j),
            ) by {
                assert(keep[j]);
                assert(ver(versions[i]) == listed(versions, i));
                assert(ver(versions[j]) == listed(versions, j));
            }
        },
        None => {
            assert forall|j: int| #[trigger] lists_release(versions, j) implies !in_range[j] by {
                assert(!keep[j]);
            }
        },
    }
}

/// What a requirement admits.
pub open spec fn admitted_by(requirement: Seq<char>) -> spec_fn(VersionView) -> bool {
    |v: VersionView| requirement_admits(requirement, v)
}

/// All that is said of the candidates for a base and a requirement.
pub open spec fn fits(
    c: CandidatesView,
    base: VersionView,
    requirement: Seq<char>,
    versions: Seq<Seq<char>>,
) -> bool {
    &&& picks(c.in_range, versions, admitted_by(requirement))
    &&& picks(c.patch, versions, above_patch(base))
    &&& picks(c.minor, versions, above_minor(base))
    &&& picks(c.major, versions, above_major(base))
}

/// There are candidates to speak of exactly where the base and the requirement
/// can be read. The version in range is then the greatest listed release that
/// the requirement admits, and the others are picked by their numbers, whatever
/// is admitted.
pub proof fn law_candidates_of_listing(
    base: Option<VersionView>,
    requirement: Seq<char>,
    versions: Seq<Seq<char>>,
)
    ensures
        match candidates_of(base, requirement, versions) {
            Some(c) => base is Some && requirement_parses(requirement) && fits(
                c,
                base->0,
                requirement,
                versions,
            ),
            None => base is None || !requirement_parses(requirement),
        },
{
    if base is Some && requirement_parses(requirement) {
        let flags = admitted_ones(requirement, versions);
        law_candidates_by_numbers(base->0, versions, flags);
        lemma_top_picks(versions, in_range_ones(versions, flags), admitted_by(requirement));
    }
}

/// The same for a constraint.
pub proof fn law_update_candidates_of_listing(
    constraint: Seq<char>,
    requirement: Seq<char>,
    versions: Seq<Seq<char>>,
)
    ensures
        match update_candidates(constraint, requirement, versions) {
            Some(c) => base_version(constraint) is Some && requirement_parses(requirement) && fits(
                c,
                base_version(constraint)->0,
                requirement,
                versions,
            ),
            None => base_version(constraint) is None || !requirement_parses(requirement),
        },
{
    law_candidates_of_listing(base_version(constraint), requirement, versions);
}

/// Every release.
pub open spec fn every() -> spec_fn(VersionView) -> bool {
    |v: VersionView| true
}

/// The latest version is the listed release with the greatest numbers; there is
/// none exactly where no release is listed.
pub proof fn law_latest_by_numbers(versions: Seq<Seq<char>>)
    ensures
        picks(top(versions, stable_ones(versions)), versions, every()),
{
    lemma_top_picks(versions, stable_ones(versions), every());
}

} // verus!
