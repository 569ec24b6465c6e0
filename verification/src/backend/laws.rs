//! What holds of statuses, labels, tooltips and edits, stated on what a registry
//! lists and on the candidates themselves.
use vstd::prelude::*;
use super::actions::{
    candidate_updates, line_updates, status_updates, update, updates, updates_at, ActionView,
};
use super::hints::{hint, label, status_text, tooltip};
use super::status::classify;
use crate::cache::ResultView;
use crate::listing::{join, lemma_joined};
use crate::providers::{DependencyView, ResolvedView, StatusView};
use crate::text::search::{begins, occurs, occurs_at};
use crate::version::{precedes, requirement_admits, requirement_parses, version_of, VersionView};
use crate::version_utils::{base_version, replacement};
use crate::version_utils::numbers::{
    above_major, above_minor, above_patch, admitted_by, every, is_pick, law_latest_by_numbers,
    law_update_candidates_of_listing, listed, lists_release, picks, reaches,
};
use crate::version_utils::ranges::is_complex;

verus! {

/// Some listed release is admitted by a requirement.
pub open spec fn lists_admitted(versions: Seq<Seq<char>>, requirement: Seq<char>) -> bool {
    exists|i: int| #[trigger]
        lists_release(versions, i) && requirement_admits(requirement, listed(versions, i))
}

/// A release comes after a base: one of its numbers is greater, the major one
/// first, or the base is a prerelease with the same numbers.
pub open spec fn is_above(v: VersionView, base: VersionView) -> bool {
    ||| v.major > base.major
    ||| v.major == base.major && v.minor > base.minor
    ||| v.major == base.major && v.minor == base.minor && v.patch > base.patch
    ||| v.major == base.major && v.minor == base.minor && v.patch == base.patch && base.pre.len()
        > 0
}

/// Some listed release comes after a base.
pub open spec fn lists_above(versions: Seq<Seq<char>>, base: VersionView) -> bool {
    exists|i: int| #[trigger] lists_release(versions, i) && is_above(listed(versions, i), base)
}

/// Where something is picked, some listed release counts.
proof fn lemma_picked(
    found: Option<Seq<char>>,
    versions: Seq<Seq<char>>,
    counts: spec_fn(VersionView) -> bool,
)
    requires
        picks(found, versions, counts),
    ensures
        found is Some <==> exists|i: int| #[trigger]
            lists_release(versions, i) && counts(listed(versions, i)),
{
    if found is Some {
        let i = choose|i: int| #[trigger] is_pick(versions, counts, i) && versions[i] == found->0;
        assert(lists_release(versions, i));
    }
}

/// A candidate is there exactly where some listed release comes after the base.
proof fn lemma_candidate_above(
    patch: Option<Seq<char>>,
    minor: Option<Seq<char>>,
    major: Option<Seq<char>>,
    base: VersionView,
    versions: Seq<Seq<char>>,
)
    requires
        picks(patch, versions, above_patch(base)),
        picks(minor, versions, above_minor(base)),
        picks(major, versions, above_major(base)),
    ensures
        (patch is Some || minor is Some || major is Some) <==> lists_above(versions, base),
{
    lemma_picked(patch, versions, above_patch(base));
    lemma_picked(minor, versions, above_minor(base));
    lemma_picked(major, versions, above_major(base));
    if lists_above(versions, base) {
        let i = choose|i: int| #[trigger]
            lists_release(versions, i) && is_above(listed(versions, i), base);
        let v = listed(versions, i);
        assert(above_patch(base)(v) || above_minor(base)(v) || above_major(base)(v));
    }
    if patch is Some {
        let i = choose|i: int| #[trigger]
            lists_release(versions, i) && above_patch(base)(listed(versions, i));
        assert(is_above(listed(versions, i), base));
    }
    if minor is Some {
        let i = choose|i: int| #[trigger]
            lists_release(versions, i) && above_minor(base)(listed(versions, i));
        assert(is_above(listed(versions, i), base));
    }
    if major is Some {
        let i = choose|i: int| #[trigger]
            lists_release(versions, i) && above_major(base)(listed(versions, i));
        assert(is_above(listed(versions, i), base));
    }
}

/// A package of which no version is listed is not found. A constraint that cannot
/// be read is unsupported. Otherwise no version is found exactly where the
/// requirement admits no listed release; an update is available where one is
/// admitted and some listed release comes after the base; and the dependency is
/// up to date where one is admitted and none comes after the base.
pub proof fn law_status_by_listing(
    constraint: Seq<char>,
    requirement: Seq<char>,
    result: ResultView,
)
    ensures
        ({
            let versions = result.stable_versions;
            let base = base_version(constraint);
            let status = classify(constraint, requirement, result);
            let readable = versions.len() > 0 && base is Some && requirement_parses(requirement);
            &&& status is NotFound <==> versions.len() == 0
            &&& status is Unsupported <==> versions.len() > 0 && (base is None
                || !requirement_parses(requirement))
            &&& status is VersionNotFound <==> readable && !lists_admitted(versions, requirement)
            &&& status is UpdateAvailable <==> readable && lists_admitted(versions, requirement)
                && lists_above(versions, base->0)
            &&& status is UpToDate <==> readable && lists_admitted(versions, requirement)
                && !lists_above(versions, base->0)
        }),
{
    let versions = result.stable_versions;
    let base = base_version(constraint);
    law_update_candidates_of_listing(constraint, requirement, versions);
    if base is Some && requirement_parses(requirement) {
        let c = crate::version_utils::update_candidates(constraint, requirement, versions)->0;
        lemma_picked(c.in_range, versions, admitted_by(requirement));
        lemma_candidate_above(c.patch, c.minor, c.major, base->0, versions);
        if c.in_range is Some {
            let i = choose|i: int| #[trigger]
                lists_release(versions, i) && admitted_by(requirement)(listed(versions, i));
            assert(requirement_admits(requirement, listed(versions, i)));
        }
        if lists_admitted(versions, requirement) {
            let i = choose|i: int| #[trigger]
                lists_release(versions, i) && requirement_admits(requirement, listed(versions, i));
            assert(admitted_by(requirement)(listed(versions, i)));
        }
    }
}

/// The candidates that a status carries are picked by their numbers, each the
/// greatest listed release of its kind; the version of an up-to-date dependency
/// is the greatest listed release that is admitted.
pub proof fn law_status_candidates(
    constraint: Seq<char>,
    requirement: Seq<char>,
    result: ResultView,
)
    ensures
        ({
            let versions = result.stable_versions;
            let base = base_version(constraint)->0;
            match classify(constraint, requirement, result) {
                StatusView::UpdateAvailable { patch, minor, major } => {
                    &&& picks(patch, versions, above_patch(base))
                    &&& picks(minor, versions, above_minor(base))
                    &&& picks(major, versions, above_major(base))
                },
                StatusView::VersionNotFound { latest, patch, minor, major } => {
                    &&& picks(patch, versions, above_patch(base))
                    &&& picks(minor, versions, above_minor(base))
                    &&& picks(major, versions, above_major(base))
                    &&& picks(Some(latest), versions, every()) || (latest == versions[0] && forall|
                        j: int,
                    | !#[trigger] lists_release(versions, j))
                },
                StatusView::UpToDate { version } => picks(
                    Some(version),
                    versions,
                    admitted_by(requirement),
                ),
                StatusView::Loading => false,
                _ => true,
            }
        }),
{
    let versions = result.stable_versions;
    law_update_candidates_of_listing(constraint, requirement, versions);
    law_latest_by_numbers(versions);
}

/// What a label ends with: a version and its kind.
pub open spec fn named(version: Seq<char>, kind: Seq<char>) -> Seq<char> {
    version + " ("@ + kind + ")"@
}

/// The label of an available update names the major candidate wherever there is
/// one, the minor one only where there is no major one, and the patch one only
/// where there is neither.
pub proof fn law_label_prefers_greater(
    patch: Option<Seq<char>>,
    minor: Option<Seq<char>>,
    version: Seq<char>,
)
    ensures
        label(StatusView::UpdateAvailable { patch, minor, major: Some(version) }) == "↑ "@ + named(
            version,
            "major"@,
        ),
        label(StatusView::UpdateAvailable { patch, minor: Some(version), major: None }) == "↑ "@
            + named(version, "minor"@),
        label(StatusView::UpdateAvailable { patch: Some(version), minor: None, major: None })
            == "↑ "@ + named(version, "patch"@),
{
    lemma_kinds();
    assert(version + " (major)"@ == named(version, "major"@));
    assert(version + " (minor)"@ == named(version, "minor"@));
    assert(version + " (patch)"@ == named(version, "patch"@));
}

/// The same where no version is found; without a candidate the label names the
/// latest version.
pub proof fn law_missing_label_prefers_greater(
    latest: Seq<char>,
    patch: Option<Seq<char>>,
    minor: Option<Seq<char>>,
    version: Seq<char>,
)
    ensures
        label(StatusView::VersionNotFound { latest, patch, minor, major: Some(version) })
            == "✘ not found, ↑ "@ + named(version, "major"@),
        label(StatusView::VersionNotFound { latest, patch, minor: Some(version), major: None })
            == "✘ not found, ↑ "@ + named(version, "minor"@),
        label(
            StatusView::VersionNotFound { latest, patch: Some(version), minor: None, major: None },
        ) == "✘ not found, ↑ "@ + named(version, "patch"@),
        label(StatusView::VersionNotFound { latest, patch: None, minor: None, major: None })
            == "✘ not found, ↑ "@ + named(latest, "latest"@),
{
    lemma_kinds();
    assert(version + " (major)"@ == named(version, "major"@));
    assert(version + " (minor)"@ == named(version, "minor"@));
    assert(version + " (patch)"@ == named(version, "patch"@));
    assert(latest + " (latest)"@ == named(latest, "latest"@));
}

/// What the kinds are made of.
proof fn lemma_kinds()
    ensures
        " (major)"@ == " ("@ + "major"@ + ")"@,
        " (minor)"@ == " ("@ + "minor"@ + ")"@,
        " (patch)"@ == " ("@ + "patch"@ + ")"@,
        " (latest)"@ == " ("@ + "latest"@ + ")"@,
{
    reveal_strlit(" (major)");
    reveal_strlit(" (minor)");
    reveal_strlit(" (patch)");
    reveal_strlit(" (latest)");
    reveal_strlit(" (");
    reveal_strlit(")");
    reveal_strlit("major");
    reveal_strlit("minor");
    reveal_strlit("patch");
    reveal_strlit("latest");
}

/// The first number in which a release differs from a base.
pub open spec fn kind_of(v: VersionView, base: VersionView) -> Seq<char> {
    if v.major != base.major {
        "major"@
    } else if v.minor != base.minor {
        "minor"@
    } else {
        "patch"@
    }
}

/// A label shows the listed release at `i`, behind some lead.
pub open spec fn shows(
    text: Seq<char>,
    lead: Seq<char>,
    versions: Seq<Seq<char>>,
    base: VersionView,
    i: int,
) -> bool {
    text == lead + named(versions[i], kind_of(listed(versions, i), base))
}

/// Where an update is available, the label shows the listed release with the
/// greatest numbers, and names the first number in which that differs from the
/// base. The same holds where no version is found but a newer one is listed.
pub proof fn law_label_shows_greatest(
    constraint: Seq<char>,
    requirement: Seq<char>,
    result: ResultView,
)
    requires
        ({
            let status = classify(constraint, requirement, result);
            status is UpdateAvailable || (status is VersionNotFound && lists_above(
                result.stable_versions,
                base_version(constraint)->0,
            ))
        }),
    ensures
        ({
            let versions = result.stable_versions;
            let base = base_version(constraint)->0;
            let status = classify(constraint, requirement, result);
            let lead = if status is UpdateAvailable {
                "↑ "@
            } else {
                "✘ not found, ↑ "@
            };
            exists|i: int| #[trigger]
                lists_release(versions, i) && shows(label(status), lead, versions, base, i)
                    && is_above(listed(versions, i), base) && forall|j: int| #[trigger]
                    lists_release(versions, j) ==> reaches(listed(versions, i), listed(versions, j))
        }),
{
    let versions = result.stable_versions;
    let base = base_version(constraint)->0;
    let status = classify(constraint, requirement, result);
    law_status_candidates(constraint, requirement, result);
    law_status_by_listing(constraint, requirement, result);
    let (patch, minor, major) = match status {
        StatusView::UpdateAvailable { patch, minor, major } => (patch, minor, major),
        StatusView::VersionNotFound { latest, patch, minor, major } => (patch, minor, major),
        _ => (None, None, None),
    };
    lemma_candidate_above(patch, minor, major, base, versions);
    let (s, counts) = if major is Some {
        (major->0, above_major(base))
    } else if minor is Some {
        (minor->0, above_minor(base))
    } else {
        (patch->0, above_patch(base))
    };
    law_label_prefers_greater(patch, minor, s);
    law_missing_label_prefers_greater(
        if status is VersionNotFound {
            status->latest
        } else {
            s
        },
        patch,
        minor,
        s,
    );
    let i = choose|i: int| #[trigger] is_pick(versions, counts, i) && versions[i] == s;
    assert(lists_release(versions, i));
    assert(counts(listed(versions, i)));
    assert forall|j: int| #[trigger] lists_release(versions, j) implies reaches(
        listed(versions, i),
        listed(versions, j),
    ) by {
        let w = listed(versions, j);
        if counts(w) {
            assert(reaches(listed(versions, i), w));
        } else if major is Some {
            assert(!above_major(base)(w));
        } else if minor is Some {
            assert(!above_major(base)(w));
            assert(!above_minor(base)(w));
        } else {
            assert(!above_major(base)(w));
            assert(!above_minor(base)(w));
            assert(!above_patch(base)(w));
        }
    }
}

/// A status carries a version as a candidate of a kind; a patch, and the latest
/// version where there is no candidate, are preferred.
pub open spec fn carries(
    status: StatusView,
    version: Seq<char>,
    kind: Seq<char>,
    preferred: bool,
) -> bool {
    match status {
        StatusView::UpdateAvailable { patch, minor, major } => {
            ||| patch == Some(version) && kind == "patch"@ && preferred
            ||| minor == Some(version) && kind == "minor"@ && !preferred
            ||| major == Some(version) && kind == "major"@ && !preferred
        },
        StatusView::VersionNotFound { latest, patch, minor, major } => {
            ||| patch == Some(version) && kind == "patch"@ && preferred
            ||| minor == Some(version) && kind == "minor"@ && !preferred
            ||| major == Some(version) && kind == "major"@ && !preferred
            ||| patch is None && minor is None && major is None && latest == version && kind
                == "latest"@ && preferred
        },
        _ => false,
    }
}

/// An edit writes the replacement of a dependency's constraint by a version at the
/// range of that constraint, under a title that names the package, the version
/// and its kind.
pub open spec fn writes(
    action: ActionView,
    dep: DependencyView,
    version: Seq<char>,
    kind: Seq<char>,
    preferred: bool,
) -> bool {
    &&& action.range == dep.range
    &&& action.new_text == replacement(dep.constraint, version)
    &&& action.title == "Update "@ + dep.name + " to "@ + version + " ("@ + kind + ")"@
    &&& action.is_preferred == preferred
}

/// The edits for the candidates, one by one.
proof fn lemma_candidate_edits(
    dep: DependencyView,
    patch: Option<Seq<char>>,
    minor: Option<Seq<char>>,
    major: Option<Seq<char>>,
)
    ensures
        ({
            let edits = candidate_updates(dep, patch, minor, major);
            let p: int = if patch is Some {
                1
            } else {
                0
            };
            let m: int = if minor is Some {
                1
            } else {
                0
            };
            let j: int = if major is Some {
                1
            } else {
                0
            };
            &&& edits.len() == p + m + j
            &&& patch is Some ==> writes(edits[0], dep, patch->0, "patch"@, true)
            &&& minor is Some ==> writes(edits[p], dep, minor->0, "minor"@, false)
            &&& major is Some ==> writes(edits[p + m], dep, major->0, "major"@, false)
        }),
{
}

/// The edit for a version that a status carries.
proof fn lemma_carried_is_written(
    dep: ResolvedView,
    hide_prereleases: bool,
    version: Seq<char>,
    kind: Seq<char>,
    preferred: bool,
) -> (j: int)
    requires
        carries(dep.status, version, kind, preferred),
    ensures
        0 <= j < updates(dep, hide_prereleases).len(),
        writes(updates(dep, hide_prereleases)[j], dep.parsed, version, kind, preferred),
{
    let first = status_updates(dep.parsed, dep.status);
    let all = updates(dep, hide_prereleases);
    assert forall|k: int| 0 <= k < first.len() implies all[k] == first[k] by {}
    let (patch, minor, major) = match dep.status {
        StatusView::UpdateAvailable { patch, minor, major } => (patch, minor, major),
        StatusView::VersionNotFound { latest, patch, minor, major } => (patch, minor, major),
        _ => (None, None, None),
    };
    lemma_candidate_edits(dep.parsed, patch, minor, major);
    let p: int = if patch is Some {
        1
    } else {
        0
    };
    let m: int = if minor is Some {
        1
    } else {
        0
    };
    if patch == Some(version) && kind == "patch"@ && preferred {
        assert(all[0] == first[0]);
        0
    } else if minor == Some(version) && kind == "minor"@ && !preferred {
        assert(all[p] == first[p]);
        p
    } else if major == Some(version) && kind == "major"@ && !preferred {
        assert(all[p + m] == first[p + m]);
        p + m
    } else {
        assert(first == seq![update(dep.parsed, version, "latest"@, true)]);
        assert(all[0] == first[0]);
        0
    }
}

/// No candidate is left out: for every one that the status of a dependency on the
/// line carries, the list of edits holds the edit that writes it. Where no version
/// is found and none is newer, that is the latest version.
pub proof fn law_every_candidate_is_offered(
    deps: Seq<ResolvedView>,
    hide_prereleases: bool,
    line: u32,
    i: int,
    version: Seq<char>,
    kind: Seq<char>,
    preferred: bool,
)
    requires
        0 <= i < deps.len(),
        deps[i].parsed.range.start.line == line,
        carries(deps[i].status, version, kind, preferred),
    ensures
        exists|k: int|
            0 <= k < line_updates(deps, hide_prereleases, line).len() && #[trigger] writes(
                line_updates(deps, hide_prereleases, line)[k],
                deps[i].parsed,
                version,
                kind,
                preferred,
            ),
{
    let at = updates_at(deps, hide_prereleases, line);
    let all = line_updates(deps, hide_prereleases, line);
    let j = lemma_carried_is_written(deps[i], hide_prereleases, version, kind, preferred);
    assert(at(i) == updates(deps[i], hide_prereleases));
    lemma_joined(deps.len() as int, at, i, j);
    let k = choose|k: int| 0 <= k < all.len() && #[trigger] all[k] == at(i)[j];
    assert(writes(all[k], deps[i].parsed, version, kind, preferred));
}

/// A prerelease is to be offered: it is newer than the base of the constraint, and
/// prereleases are not hidden or the base is one itself.
pub open spec fn is_due(constraint: Seq<char>, prerelease: Seq<char>, hidden: bool) -> bool {
    match (base_version(constraint), version_of(prerelease)) {
        (Some(base), Some(v)) => precedes(base, v) && (!hidden || base.pre.len() > 0),
        _ => false,
    }
}

/// Among the edits for the dependencies on a line is the one for the prerelease of
/// each to which it is due.
pub proof fn law_due_prerelease_is_offered(
    deps: Seq<ResolvedView>,
    hide_prereleases: bool,
    line: u32,
    i: int,
    version: Seq<char>,
)
    requires
        0 <= i < deps.len(),
        deps[i].parsed.range.start.line == line,
        deps[i].prerelease == Some(version),
        is_due(deps[i].parsed.constraint, version, hide_prereleases),
    ensures
        exists|k: int|
            0 <= k < line_updates(deps, hide_prereleases, line).len() && #[trigger] writes(
                line_updates(deps, hide_prereleases, line)[k],
                deps[i].parsed,
                version,
                "prerelease"@,
                false,
            ),
{
    let at = updates_at(deps, hide_prereleases, line);
    let all = line_updates(deps, hide_prereleases, line);
    let own = updates(deps[i], hide_prereleases);
    let j = own.len() - 1;
    assert(at(i) == own);
    assert(own[j] == update(deps[i].parsed, version, "prerelease"@, false));
    lemma_joined(deps.len() as int, at, i, j);
    let k = choose|k: int| 0 <= k < all.len() && #[trigger] all[k] == at(i)[j];
    assert(writes(all[k], deps[i].parsed, version, "prerelease"@, false));
}

/// One where a version is there.
pub open spec fn one_for(version: Option<Seq<char>>) -> int {
    if version is Some {
        1
    } else {
        0
    }
}

/// No edit is made up: a dependency gets as many as its status carries candidates,
/// one for the latest version where no version is found and none is newer, and
/// one for its prerelease where that is due.
pub proof fn law_number_of_edits(dep: ResolvedView, hide_prereleases: bool)
    ensures
        ({
            let by_status: int = match dep.status {
                StatusView::UpdateAvailable { patch, minor, major } => one_for(patch) + one_for(
                    minor,
                ) + one_for(major),
                StatusView::VersionNotFound { latest, patch, minor, major } => if patch is None
                    && minor is None && major is None {
                    1
                } else {
                    one_for(patch) + one_for(minor) + one_for(major)
                },
                _ => 0,
            };
            let by_prerelease: int = match dep.prerelease {
                Some(v) => if is_due(dep.parsed.constraint, v, hide_prereleases) {
                    1
                } else {
                    0
                },
                None => 0,
            };
            updates(dep, hide_prereleases).len() == by_status + by_prerelease
        }),
{
    match dep.status {
        StatusView::UpdateAvailable { patch, minor, major } => {
            lemma_candidate_edits(dep.parsed, patch, minor, major);
        },
        StatusView::VersionNotFound { latest, patch, minor, major } => {
            lemma_candidate_edits(dep.parsed, patch, minor, major);
        },
        _ => {},
    }
}

/// The line has no edits for a dependency on another line: with no dependency on
/// it there are none.
pub proof fn law_no_edits_elsewhere(deps: Seq<ResolvedView>, hide_prereleases: bool, line: u32)
    requires
        forall|i: int|
            0 <= i < deps.len() ==> (#[trigger] deps[i]).parsed.range.start.line != line,
    ensures
        line_updates(deps, hide_prereleases, line).len() == 0,
{
    lemma_no_parts(deps, hide_prereleases, line, deps.len() as int);
}

proof fn lemma_no_parts(deps: Seq<ResolvedView>, hide_prereleases: bool, line: u32, n: int)
    requires
        0 <= n <= deps.len(),
        forall|i: int|
            0 <= i < deps.len() ==> (#[trigger] deps[i]).parsed.range.start.line != line,
    ensures
        join(n, updates_at(deps, hide_prereleases, line)).len() == 0,
    decreases n,
{
    if n > 0 {
        lemma_no_parts(deps, hide_prereleases, line, n - 1);
        assert(deps[n - 1].parsed.range.start.line != line);
    }
}

/// A tooltip names every candidate that the status carries, on a line of its own.
pub proof fn law_tooltip_names_candidates(dep: ResolvedView)
    ensures
        match dep.status {
            StatusView::UpdateAvailable { patch, minor, major } => {
                &&& begins(tooltip(dep), "Current: "@ + dep.parsed.constraint)
                &&& patch is Some ==> occurs(tooltip(dep), "\nPatch: ↑ "@ + patch->0)
                &&& minor is Some ==> occurs(tooltip(dep), "\nMinor: ↑ "@ + minor->0)
                &&& major is Some ==> occurs(tooltip(dep), "\nMajor: ↑ "@ + major->0)
            },
            StatusView::VersionNotFound { latest, patch, minor, major } => {
                &&& begins(
                    tooltip(dep),
                    "Version '"@ + dep.parsed.constraint + "' not found in registry"@,
                )
                &&& patch is Some ==> occurs(tooltip(dep), "\nPatch: ↑ "@ + patch->0)
                &&& minor is Some ==> occurs(tooltip(dep), "\nMinor: ↑ "@ + minor->0)
                &&& major is Some ==> occurs(tooltip(dep), "\nMajor: ↑ "@ + major->0)
                &&& patch is None && minor is None && major is None ==> occurs(
                    tooltip(dep),
                    "\nLatest: "@ + latest,
                )
            },
            StatusView::UpToDate { version } => begins(
                tooltip(dep),
                "✔ Up to date ("@ + version + ")"@,
            ),
            StatusView::NotFound => begins(
                tooltip(dep),
                "Package '"@ + dep.parsed.name + "' not found in registry"@,
            ),
            StatusView::Unsupported => begins(
                tooltip(dep),
                "Version constraint '"@ + dep.parsed.constraint + "' is not supported"@,
            ),
            StatusView::Loading => true,
        },
{
    let t = tooltip(dep);
    let s = status_text(dep);
    let rest = t.skip(s.len() as int);
    assert(t == s + rest);
    match dep.status {
        StatusView::UpdateAvailable { patch, minor, major } => {
            let head = "Current: "@ + dep.parsed.constraint;
            let lines = line_for("\nMajor: ↑ "@, major) + line_for("\nMinor: ↑ "@, minor) + line_for(
                "\nPatch: ↑ "@,
                patch,
            );
            assert(t.take((head + lines).len() as int) == head + lines);
            lemma_lines_named(head, patch, minor, major, t);
        },
        StatusView::VersionNotFound { latest, patch, minor, major } => {
            let head = "Version '"@ + dep.parsed.constraint + "' not found in registry"@;
            if patch is None && minor is None && major is None {
                let last = "\nLatest: "@ + latest;
                assert(t.subrange(head.len() as int, head.len() as int + last.len()) == last);
                assert(occurs_at(t, last, head.len() as int));
                assert(t.take(head.len() as int) == head);
            } else {
                let lines = line_for("\nMajor: ↑ "@, major) + line_for("\nMinor: ↑ "@, minor)
                    + line_for("\nPatch: ↑ "@, patch);
                assert(t.take((head + lines).len() as int) == head + lines);
                lemma_lines_named(head, patch, minor, major, t);
            }
        },
        StatusView::UpToDate { version } => {
            assert(t.take(s.len() as int) == s);
        },
        StatusView::NotFound => {
            assert(t.take(s.len() as int) == s);
        },
        StatusView::Unsupported => {
            assert(t.take(s.len() as int) == s);
        },
        StatusView::Loading => {},
    }
}

/// The line for a version that may be absent.
spec fn line_for(head: Seq<char>, version: Option<Seq<char>>) -> Seq<char> {
    match version {
        Some(v) => head + v,
        None => seq![],
    }
}

/// The lines of the candidates stand behind a head.
proof fn lemma_lines_named(
    head: Seq<char>,
    patch: Option<Seq<char>>,
    minor: Option<Seq<char>>,
    major: Option<Seq<char>>,
    t: Seq<char>,
)
    requires
        begins(
            t,
            head + (line_for("\nMajor: ↑ "@, major) + line_for("\nMinor: ↑ "@, minor) + line_for(
                "\nPatch: ↑ "@,
                patch,
            )),
        ),
    ensures
        begins(t, head),
        patch is Some ==> occurs(t, "\nPatch: ↑ "@ + patch->0),
        minor is Some ==> occurs(t, "\nMinor: ↑ "@ + minor->0),
        major is Some ==> occurs(t, "\nMajor: ↑ "@ + major->0),
{
    let a = line_for("\nMajor: ↑ "@, major);
    let b = line_for("\nMinor: ↑ "@, minor);
    let c = line_for("\nPatch: ↑ "@, patch);
    let whole = head + (a + b + c);
    let h = head.len() as int;
    assert(t.take(whole.len() as int) == whole);
    assert(t.take(h) == whole.take(h));
    assert(whole.take(h) == head);
    if major is Some {
        assert(t.subrange(h, h + a.len()) == whole.subrange(h, h + a.len()));
        assert(whole.subrange(h, h + a.len()) == a);
        assert(occurs_at(t, a, h));
    }
    if minor is Some {
        let k = h + a.len();
        assert(t.subrange(k, k + b.len()) == whole.subrange(k, k + b.len()));
        assert(whole.subrange(k, k + b.len()) == b);
        assert(occurs_at(t, b, k));
    }
    if patch is Some {
        let k = h + a.len() + b.len();
        assert(t.subrange(k, k + c.len()) == whole.subrange(k, k + c.len()));
        assert(whole.subrange(k, k + c.len()) == c);
        assert(occurs_at(t, c, k));
    }
}

/// A candidate adds its line to the tooltip, and nothing else.
pub proof fn law_candidate_adds_a_line(
    dep: ResolvedView,
    version: Seq<char>,
    patch: Option<Seq<char>>,
    minor: Option<Seq<char>>,
    major: Option<Seq<char>>,
)
    ensures
        ({
            let with = StatusView::UpdateAvailable { patch: Some(version), minor, major };
            let without = StatusView::UpdateAvailable { patch: None, minor, major };
            tooltip(ResolvedView { status: with, ..dep }).len() == tooltip(
                ResolvedView { status: without, ..dep },
            ).len() + "\nPatch: ↑ "@.len() + version.len()
        }),
        ({
            let with = StatusView::UpdateAvailable { patch, minor: Some(version), major };
            let without = StatusView::UpdateAvailable { patch, minor: None, major };
            tooltip(ResolvedView { status: with, ..dep }).len() == tooltip(
                ResolvedView { status: without, ..dep },
            ).len() + "\nMinor: ↑ "@.len() + version.len()
        }),
        ({
            let with = StatusView::UpdateAvailable { patch, minor, major: Some(version) };
            let without = StatusView::UpdateAvailable { patch, minor, major: None };
            tooltip(ResolvedView { status: with, ..dep }).len() == tooltip(
                ResolvedView { status: without, ..dep },
            ).len() + "\nMajor: ↑ "@.len() + version.len()
        }),
{
}

/// The length of a line for a version that may be absent.
pub open spec fn line_size(head: Seq<char>, version: Option<Seq<char>>) -> int {
    match version {
        Some(v) => head.len() as int + v.len(),
        None => 0,
    }
}

/// The tooltip of a dependency whose constraint keeps its operators, with no prerelease
/// to speak of, holds its constraint and its candidates, and nothing else.
pub proof fn law_tooltip_holds_nothing_else(dep: ResolvedView)
    requires
        dep.prerelease is None,
        !is_complex(dep.parsed.constraint),
    ensures
        ({
            match dep.status {
                StatusView::UpdateAvailable { patch, minor, major } => tooltip(dep).len()
                    == "Current: "@.len() + dep.parsed.constraint.len() + line_size(
                    "\nMajor: ↑ "@,
                    major,
                ) + line_size("\nMinor: ↑ "@, minor) + line_size("\nPatch: ↑ "@, patch),
                StatusView::UpToDate { version } => tooltip(dep) == "✔ Up to date ("@ + version
                    + ")"@,
                StatusView::NotFound => tooltip(dep) == "Package '"@ + dep.parsed.name
                    + "' not found in registry"@,
                StatusView::Unsupported => tooltip(dep) == "Version constraint '"@
                    + dep.parsed.constraint + "' is not supported"@,
                _ => true,
            }
        }),
{
    let none = Seq::<char>::empty();
    assert(tooltip(dep) == status_text(dep) + none + none);
    assert(tooltip(dep) == status_text(dep));
}

/// Where nothing newer is offered, the tooltip says what the status is, and nothing
/// else, whatever operators the constraint has.
pub proof fn law_tooltip_without_update(dep: ResolvedView)
    requires
        !(dep.status is UpdateAvailable) && !(dep.status is VersionNotFound),
        ({
            let base = base_version(dep.parsed.constraint);
            ||| dep.prerelease is None
            ||| base is None
            ||| base->0.pre.len() == 0 && !is_due(
                dep.parsed.constraint,
                dep.prerelease->0,
                false,
            )
        }),
    ensures
        match dep.status {
            StatusView::Loading => tooltip(dep) == "Fetching version information…"@,
            StatusView::UpToDate { version } => tooltip(dep) == "✔ Up to date ("@ + version
                + ")"@,
            StatusView::NotFound => tooltip(dep) == "Package '"@ + dep.parsed.name
                + "' not found in registry"@,
            StatusView::Unsupported => tooltip(dep) == "Version constraint '"@
                + dep.parsed.constraint + "' is not supported"@,
            _ => true,
        },
{
    let none = Seq::<char>::empty();
    assert(tooltip(dep) == status_text(dep) + none + none);
    assert(tooltip(dep) == status_text(dep));
}

/// The tooltip of a dependency whose constraint keeps its operators and of which no
/// version is found, with no prerelease to speak of, holds its constraint and its
/// candidates, or the latest version where it has none, and nothing else.
pub proof fn law_missing_tooltip_holds_nothing_else(
    dep: ResolvedView,
    latest: Seq<char>,
    patch: Option<Seq<char>>,
    minor: Option<Seq<char>>,
    major: Option<Seq<char>>,
)
    requires
        dep.status == (StatusView::VersionNotFound { latest, patch, minor, major }),
        dep.prerelease is None,
        !is_complex(dep.parsed.constraint),
    ensures
        tooltip(dep).len() == "Version '"@.len() + dep.parsed.constraint.len()
            + "' not found in registry"@.len() + (if patch is None && minor is None && major
            is None {
            "\nLatest: "@.len() as int + latest.len()
        } else {
            line_size("\nMajor: ↑ "@, major) + line_size("\nMinor: ↑ "@, minor) + line_size(
                "\nPatch: ↑ "@,
                patch,
            )
        }),
{
}

/// A label tells the statuses without a version apart from each other and from those
/// with one.
pub proof fn law_labels_tell_statuses(status: StatusView)
    ensures
        label(status) == "… fetching"@ <==> status is Loading,
        label(status) == "✔ latest"@ <==> status is UpToDate,
        label(status) == "✘ not found"@ <==> status is NotFound,
        label(status) == "⊘ unsupported"@ <==> status is Unsupported,
        begins(label(status), "↑ "@) <==> status is UpdateAvailable,
        begins(label(status), "✘ not found, ↑ "@) <==> status is VersionNotFound,
{
    reveal_strlit("… fetching");
    reveal_strlit("✔ latest");
    reveal_strlit("✘ not found");
    reveal_strlit("⊘ unsupported");
    reveal_strlit("↑ ");
    reveal_strlit("✘ not found, ↑ ");
    let t = label(status);
    let found = "✘ not found, ↑ "@;
    let newer = "↑ "@;
    if begins(t, found) {
        assert(t.subrange(0, found.len() as int)[0] == t[0]);
        assert(t.len() >= found.len());
    }
    if begins(t, newer) {
        assert(t.subrange(0, newer.len() as int)[0] == t[0]);
    }
    match status {
        StatusView::UpdateAvailable { patch, minor, major } => {
            assert(t.take(newer.len() as int) == newer);
            assert(t[0] == newer[0]);
        },
        StatusView::VersionNotFound { latest, patch, minor, major } => {
            assert(t.take(found.len() as int) == found);
            assert(t[0] == found[0]);
        },
        _ => {},
    }
}

/// To a constraint that is based on a prerelease the tooltip names the latest
/// prerelease; to any other it does not.
pub proof fn law_tooltip_names_prerelease(dep: ResolvedView, version: Seq<char>)
    requires
        dep.prerelease == Some(version),
        dep.status is UpdateAvailable || dep.status is VersionNotFound,
    ensures
        ({
            let base = base_version(dep.parsed.constraint);
            let without = ResolvedView { prerelease: None, ..dep };
            if base is Some && base->0.pre.len() > 0 {
                &&& occurs(tooltip(dep), "\nPrerelease: "@ + version)
                &&& tooltip(dep).len() == tooltip(without).len() + "\nPrerelease: "@.len()
                    + version.len()
            } else {
                tooltip(dep) == tooltip(without)
            }
        }),
{
    let t = tooltip(dep);
    let k = status_text(dep).len() as int;
    let l = "\nPrerelease: "@ + version;
    let base = base_version(dep.parsed.constraint);
    if base is Some && base->0.pre.len() > 0 {
        assert(t.subrange(k, k + l.len()) == l);
        assert(occurs_at(t, l, k));
    }
}

/// A hint stands at the end of the line on which the constraint begins, as its
/// bytes are counted, and shows the label and the tooltip of the dependency.
pub proof fn law_hint_at_line_end(lines: Seq<Seq<char>>, dep: ResolvedView)
    requires
        dep.parsed.range.start.line < lines.len(),
    ensures
        hint(lines, dep).position.line == dep.parsed.range.start.line,
        hint(lines, dep).position.character == vstd::utf8::encode_utf8(
            lines[dep.parsed.range.start.line as int],
        ).len() as u32,
        hint(lines, dep).label == label(dep.status),
        hint(lines, dep).tooltip == tooltip(dep),
{
}

} // verus!
