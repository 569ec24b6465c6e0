//! Code actions: edits that update a constraint.
use vstd::prelude::*;
use super::hints::{has_newer_prerelease, is_on_prerelease, tooltip, warning};
use super::status::has_candidate;
use crate::listing::{join, lemma_join};
use crate::locate::Range;
use crate::providers::{
    DependencyStatus, DependencyView, ParsedDependency, ResolvedDependency, ResolvedView,
    StatusView,
};
use crate::text::chars::{push_str, string_of, text_of};
use crate::text::search::ends;
use crate::version::{precedes, version_of};
use crate::version_utils::{
    base_version, build_replacement_text, is_prerelease_constraint,
    prerelease_newer_than_constraint, replacement, ver,
};
use crate::version_utils::ranges::is_complex;

verus! {

/// An edit that replaces a constraint.
#[derive(Debug)]
pub struct Action {
    pub title: String,
    pub range: Range,
    pub new_text: String,
    pub is_preferred: bool,
}

/// An edit as a mathematical value.
pub struct ActionView {
    pub title: Seq<char>,
    pub range: Range,
    pub new_text: Seq<char>,
    pub is_preferred: bool,
}

impl View for Action {
    type V = ActionView;

    open spec fn view(&self) -> ActionView {
        ActionView {
            title: self.title@,
            range: self.range,
            new_text: self.new_text@,
            is_preferred: self.is_preferred,
        }
    }
}

/// Edits as mathematical values.
pub open spec fn actions_view(v: Seq<Action>) -> Seq<ActionView> {
    v.map_values(|a: Action| a@)
}

/// The edit that updates a dependency to a version.
pub open spec fn update(
    dep: DependencyView,
    version: Seq<char>,
    kind: Seq<char>,
    is_preferred: bool,
) -> ActionView {
    ActionView {
        title: "Update "@ + dep.name + " to "@ + version + " ("@ + kind + ")"@,
        range: dep.range,
        new_text: replacement(dep.constraint, version),
        is_preferred,
    }
}

/// The edit for a version that may be absent.
pub open spec fn update_to(
    dep: DependencyView,
    version: Option<Seq<char>>,
    kind: Seq<char>,
    is_preferred: bool,
) -> Seq<ActionView> {
    match version {
        Some(v) => seq![update(dep, v, kind, is_preferred)],
        None => seq![],
    }
}

/// The edits for the candidates: a patch is preferred.
pub open spec fn candidate_updates(
    dep: DependencyView,
    patch: Option<Seq<char>>,
    minor: Option<Seq<char>>,
    major: Option<Seq<char>>,
) -> Seq<ActionView> {
    update_to(dep, patch, "patch"@, true) + update_to(dep, minor, "minor"@, false) + update_to(
        dep,
        major,
        "major"@,
        false,
    )
}

/// The edits that a status offers. Where no version fits and none is newer,
/// the latest is offered.
pub open spec fn status_updates(dep: DependencyView, status: StatusView) -> Seq<ActionView> {
    match status {
        StatusView::UpdateAvailable { patch, minor, major } => candidate_updates(
            dep,
            patch,
            minor,
            major,
        ),
        StatusView::VersionNotFound { latest, patch, minor, major } => if has_candidate(
            patch,
            minor,
            major,
        ) {
            candidate_updates(dep, patch, minor, major)
        } else {
            seq![update(dep, latest, "latest"@, true)]
        },
        _ => seq![],
    }
}

/// A prerelease is offered where it is newer than the base of the constraint,
/// and prereleases are not hidden or the constraint is on one already.
pub open spec fn offers_prerelease(
    constraint: Seq<char>,
    prerelease: Seq<char>,
    hide_prereleases: bool,
) -> bool {
    &&& version_of(prerelease) is Some
    &&& base_version(constraint) is Some
    &&& precedes(base_version(constraint)->0, ver(prerelease))
    &&& !hide_prereleases || is_on_prerelease(constraint)
}

/// The edit for the prerelease.
pub open spec fn prerelease_updates(
    dep: DependencyView,
    prerelease: Option<Seq<char>>,
    hide_prereleases: bool,
) -> Seq<ActionView> {
    match prerelease {
        Some(v) => if offers_prerelease(dep.constraint, v, hide_prereleases) {
            seq![update(dep, v, "prerelease"@, false)]
        } else {
            seq![]
        },
        None => seq![],
    }
}

/// The edits for a dependency.
pub open spec fn updates(dep: ResolvedView, hide_prereleases: bool) -> Seq<ActionView> {
    status_updates(dep.parsed, dep.status) + prerelease_updates(
        dep.parsed,
        dep.prerelease,
        hide_prereleases,
    )
}

/// The edits for the dependencies on a line, by the number of the dependency.
pub open spec fn updates_at(
    deps: Seq<ResolvedView>,
    hide_prereleases: bool,
    line: u32,
) -> spec_fn(int) -> Seq<ActionView> {
    |i: int|
        if deps[i].parsed.range.start.line == line {
            updates(deps[i], hide_prereleases)
        } else {
            seq![]
        }
}

/// The edits for the dependencies on a line.
pub open spec fn line_updates(deps: Seq<ResolvedView>, hide_prereleases: bool, line: u32) -> Seq<
    ActionView,
> {
    join(deps.len() as int, updates_at(deps, hide_prereleases, line))
}

/// Resolved dependencies as mathematical values.
pub open spec fn resolved_view(v: Seq<ResolvedDependency>) -> Seq<ResolvedView> {
    v.map_values(|d: ResolvedDependency| d@)
}

/// Appends the edit that updates a dependency to a version.
fn push_update(
    out: &mut Vec<Action>,
    dep: &ParsedDependency,
    version: &str,
    kind: &str,
    is_preferred: bool,
)
    ensures
        actions_view(final(out)@) == actions_view(old(out)@) + seq![
            update(dep@, version@, kind@, is_preferred),
        ],
{
    let mut title: Vec<char> = Vec::new();
    push_str(&mut title, "Update ");
    push_str(&mut title, dep.name.as_str());
    push_str(&mut title, " to ");
    push_str(&mut title, version);
    push_str(&mut title, " (");
    push_str(&mut title, kind);
    push_str(&mut title, ")");
    let action = Action {
        title: string_of(title.as_slice()),
        range: dep.version_range,
        new_text: build_replacement_text(dep.version_constraint.as_str(), version),
        is_preferred,
    };
    proof {
        assert(title@ == update(dep@, version@, kind@, is_preferred).title);
        assert(action@ == update(dep@, version@, kind@, is_preferred));
        assert(actions_view(out@.push(action)) == actions_view(out@) + seq![
            update(dep@, version@, kind@, is_preferred),
        ]);
    }
    out.push(action);
}

/// Appends the edit for a version that may be absent.
fn push_update_to(
    out: &mut Vec<Action>,
    dep: &ParsedDependency,
    version: &Option<String>,
    kind: &str,
    is_preferred: bool,
)
    ensures
        actions_view(final(out)@) == actions_view(old(out)@) + update_to(
            dep@,
            text_of(*version),
            kind@,
            is_preferred,
        ),
{
    match version {
        Some(v) => push_update(out, dep, v.as_str(), kind, is_preferred),
        None => {
            assert(actions_view(out@) == actions_view(old(out)@) + Seq::<ActionView>::empty());
        },
    }
}

/// Appends the edits for the candidates.
fn push_candidates(
    out: &mut Vec<Action>,
    dep: &ParsedDependency,
    patch: &Option<String>,
    minor: &Option<String>,
    major: &Option<String>,
)
    ensures
        actions_view(final(out)@) == actions_view(old(out)@) + candidate_updates(
            dep@,
            text_of(*patch),
            text_of(*minor),
            text_of(*major),
        ),
{
    push_update_to(out, dep, patch, "patch", true);
    push_update_to(out, dep, minor, "minor", false);
    push_update_to(out, dep, major, "major", false);
    assert(actions_view(out@) == actions_view(old(out)@) + candidate_updates(
        dep@,
        text_of(*patch),
        text_of(*minor),
        text_of(*major),
    ));
}

/// Appends the edits for a dependency.
pub fn push_updates(out: &mut Vec<Action>, dep: &ResolvedDependency, hide_prereleases: bool)
    ensures
        actions_view(final(out)@) == actions_view(old(out)@) + updates(dep@, hide_prereleases),
{
    let ghost before = actions_view(out@);
    match &dep.status {
        DependencyStatus::UpdateAvailable { patch, minor, major } => {
            push_candidates(out, &dep.parsed, patch, minor, major);
        },
        DependencyStatus::VersionNotFound { latest, patch, minor, major } => {
            if patch.is_some() || minor.is_some() || major.is_some() {
                push_candidates(out, &dep.parsed, patch, minor, major);
            } else {
                push_update(out, &dep.parsed, latest.as_str(), "latest", true);
            }
        },
        _ => {},
    }
    let ghost middle = before + status_updates(dep@.parsed, dep@.status);
    assert(actions_view(out@) == middle);
    if let Some(pre) = &dep.prerelease {
        let constraint = dep.parsed.version_constraint.as_str();
        if prerelease_newer_than_constraint(constraint, pre.as_str()) && (!hide_prereleases
            || is_prerelease_constraint(constraint)) {
            push_update(out, &dep.parsed, pre.as_str(), "prerelease", false);
        }
    }
    assert(actions_view(out@) == middle + prerelease_updates(
        dep@.parsed,
        dep@.prerelease,
        hide_prereleases,
    ));
    assert(actions_view(out@) == before + updates(dep@, hide_prereleases));
}

/// The edits for the dependencies on a line.
pub fn actions_on(deps: &Vec<ResolvedDependency>, hide_prereleases: bool, line: u32) -> (r: Vec<
    Action,
>)
    ensures
        actions_view(r@) == line_updates(resolved_view(deps@), hide_prereleases, line),
{
    let ghost all = resolved_view(deps@);
    let ghost at = updates_at(all, hide_prereleases, line);
    let mut out: Vec<Action> = Vec::new();
    assert(actions_view(out@) == join(0, at));
    for i in 0..deps.len()
        invariant
            all == resolved_view(deps@),
            at == updates_at(all, hide_prereleases, line),
            actions_view(out@) == join(i as int, at),
    {
        assert(all[i as int] == deps@[i as int]@);
        if deps[i].parsed.version_range.start.line == line {
            push_updates(&mut out, &deps[i], hide_prereleases);
        } else {
            assert(at(i as int) == Seq::<ActionView>::empty());
            assert(join(i as int, at) + at(i as int) == join(i as int, at));
        }
    }
    out
}

/// A version that is offered for a dependency.
pub open spec fn offers(dep: ResolvedView, version: Seq<char>) -> bool {
    dep.prerelease == Some(version) || match dep.status {
        StatusView::UpdateAvailable { patch, minor, major } => patch == Some(version) || minor
            == Some(version) || major == Some(version),
        StatusView::VersionNotFound { latest, patch, minor, major } => latest == version || patch
            == Some(version) || minor == Some(version) || major == Some(version),
        _ => false,
    }
}

/// Every edit replaces the constraint of a dependency on the line, at its own
/// range, by the replacement for a version that is offered for it.
pub proof fn law_edits_replace_constraints(
    deps: Seq<ResolvedView>,
    hide_prereleases: bool,
    line: u32,
    k: int,
)
    requires
        0 <= k < line_updates(deps, hide_prereleases, line).len(),
    ensures
        exists|i: int, version: Seq<char>|
            0 <= i < deps.len() && (#[trigger] deps[i]).parsed.range.start.line == line && offers(
                deps[i],
                version,
            ) && line_updates(deps, hide_prereleases, line)[k].range == deps[i].parsed.range
                && line_updates(deps, hide_prereleases, line)[k].new_text == #[trigger] replacement(
                deps[i].parsed.constraint,
                version,
            ),
{
    let at = updates_at(deps, hide_prereleases, line);
    let all = line_updates(deps, hide_prereleases, line);
    lemma_join(deps.len() as int, at, k);
    let (i, j) = choose|i: int, j: int|
        0 <= i < deps.len() && 0 <= j < at(i).len() && #[trigger] at(i)[j] == all[k];
    let dep = deps[i];
    assert(dep.parsed.range.start.line == line);
    let version = lemma_updates_replace(dep, hide_prereleases, j);
    assert(all[k].new_text == replacement(deps[i].parsed.constraint, version));
}

/// Every edit for a dependency replaces its constraint by an offered version.
proof fn lemma_updates_replace(dep: ResolvedView, hide_prereleases: bool, j: int) -> (version: Seq<
    char,
>)
    requires
        0 <= j < updates(dep, hide_prereleases).len(),
    ensures
        updates(dep, hide_prereleases)[j].range == dep.parsed.range,
        updates(dep, hide_prereleases)[j].new_text == replacement(dep.parsed.constraint, version),
        offers(dep, version),
{
    let first = status_updates(dep.parsed, dep.status);
    if j >= first.len() {
        dep.prerelease->0
    } else {
        match dep.status {
            StatusView::UpdateAvailable { patch, minor, major } => {
                lemma_candidate_replace(dep.parsed, patch, minor, major, j)
            },
            StatusView::VersionNotFound { latest, patch, minor, major } => {
                if has_candidate(patch, minor, major) {
                    lemma_candidate_replace(dep.parsed, patch, minor, major, j)
                } else {
                    latest
                }
            },
            _ => seq![],
        }
    }
}

proof fn lemma_candidate_replace(
    dep: DependencyView,
    patch: Option<Seq<char>>,
    minor: Option<Seq<char>>,
    major: Option<Seq<char>>,
    j: int,
) -> (version: Seq<char>)
    requires
        0 <= j < candidate_updates(dep, patch, minor, major).len(),
    ensures
        candidate_updates(dep, patch, minor, major)[j].range == dep.range,
        candidate_updates(dep, patch, minor, major)[j].new_text == replacement(
            dep.constraint,
            version,
        ),
        patch == Some(version) || minor == Some(version) || major == Some(version),
{
    let a = update_to(dep, patch, "patch"@, true);
    let b = update_to(dep, minor, "minor"@, false);
    if j < a.len() {
        patch->0
    } else if j < a.len() + b.len() {
        minor->0
    } else {
        major->0
    }
}

/// A hidden prerelease is offered to no constraint that is not on one already.
pub proof fn law_hidden_prereleases(dep: ResolvedView)
    requires
        !is_on_prerelease(dep.parsed.constraint),
    ensures
        updates(dep, true) == status_updates(dep.parsed, dep.status),
{
    assert(updates(dep, true) == status_updates(dep.parsed, dep.status));
}

/// Where an update loses the operators of a constraint, the tooltip ends with a
/// warning.
pub proof fn law_lost_operator_is_warned(dep: ResolvedView, hide_prereleases: bool, j: int)
    requires
        is_complex(dep.parsed.constraint),
        0 <= j < updates(dep, hide_prereleases).len(),
    ensures
        exists|version: Seq<char>| updates(dep, hide_prereleases)[j].new_text == version && offers(
            dep,
            version,
        ),
        ends(tooltip(dep), "\nWarning: operator not preserved"@),
{
    let version = lemma_updates_replace(dep, hide_prereleases, j);
    assert(offers(dep, version));
    let mark = "\nWarning: operator not preserved"@;
    let t = tooltip(dep);
    assert(warning(dep) == mark);
    assert(t.skip(t.len() - mark.len()) == mark);
}

/// A prerelease that is not newer is never offered.
pub proof fn law_no_older_prerelease(dep: ResolvedView, hide_prereleases: bool)
    requires
        !has_newer_prerelease(dep),
    ensures
        updates(dep, hide_prereleases) == status_updates(dep.parsed, dep.status),
{
    assert(updates(dep, hide_prereleases) == status_updates(dep.parsed, dep.status));
}

/// A newer prerelease is offered whatever the status, unless prereleases are
/// hidden; to a constraint that is on a prerelease it is offered even then.
pub proof fn law_newer_prerelease_offered(dep: ResolvedView, hide_prereleases: bool)
    requires
        has_newer_prerelease(dep),
        !hide_prereleases || is_on_prerelease(dep.parsed.constraint),
    ensures
        updates(dep, hide_prereleases).len() > 0,
        updates(dep, hide_prereleases).last() == update(
            dep.parsed,
            dep.prerelease->0,
            "prerelease"@,
            false,
        ),
{
}

} // verus!
