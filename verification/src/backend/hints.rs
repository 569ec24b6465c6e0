//! Inlay hints: a label and a tooltip at the end of a dependency's line.
use vstd::prelude::*;
use super::status::has_candidate;
use crate::locate::Position;
use crate::providers::{DependencyStatus, ResolvedDependency, ResolvedView, StatusView};
use crate::text::chars::{chars_of, joined, owned, push_str, string_of, text_of};
use crate::text::search::parts_view;
use crate::text::utf8::{byte_len, bytes};
use crate::version::{precedes, version_of};
use crate::version_utils::{
    base_version, is_prerelease_constraint, prerelease_newer_than_constraint, ver,
};
use crate::version_utils::ranges::{complex, is_complex};

verus! {

/// The most far-reaching candidate and its kind; a fallback where there is
/// none.
pub open spec fn headline(
    patch: Option<Seq<char>>,
    minor: Option<Seq<char>>,
    major: Option<Seq<char>>,
    fallback: Seq<char>,
) -> Seq<char> {
    match (major, minor, patch) {
        (Some(v), _, _) => v + " (major)"@,
        (None, Some(v), _) => v + " (minor)"@,
        (None, None, Some(v)) => v + " (patch)"@,
        (None, None, None) => fallback,
    }
}

/// The label for a status.
pub open spec fn label(status: StatusView) -> Seq<char> {
    match status {
        StatusView::Loading => "… fetching"@,
        StatusView::UpToDate { version } => "✔ latest"@,
        StatusView::UpdateAvailable { patch, minor, major } => "↑ "@ + headline(
            patch,
            minor,
            major,
            seq![],
        ),
        StatusView::VersionNotFound { latest, patch, minor, major } => "✘ not found, ↑ "@
            + headline(patch, minor, major, latest + " (latest)"@),
        StatusView::NotFound => "✘ not found"@,
        StatusView::Unsupported => "⊘ unsupported"@,
    }
}

/// A line of a tooltip for a version that may be absent.
pub open spec fn version_line(head: Seq<char>, version: Option<Seq<char>>) -> Seq<char> {
    match version {
        Some(v) => head + v,
        None => seq![],
    }
}

/// The lines of a tooltip for the candidates.
pub open spec fn candidate_lines(
    patch: Option<Seq<char>>,
    minor: Option<Seq<char>>,
    major: Option<Seq<char>>,
) -> Seq<char> {
    version_line("\nMajor: ↑ "@, major) + version_line("\nMinor: ↑ "@, minor) + version_line(
        "\nPatch: ↑ "@,
        patch,
    )
}

/// What a tooltip says of the status.
pub open spec fn status_text(dep: ResolvedView) -> Seq<char> {
    match dep.status {
        StatusView::UpToDate { version } => "✔ Up to date ("@ + version + ")"@,
        StatusView::UpdateAvailable { patch, minor, major } => "Current: "@ + dep.parsed.constraint
            + candidate_lines(patch, minor, major),
        StatusView::VersionNotFound { latest, patch, minor, major } => "Version '"@
            + dep.parsed.constraint + "' not found in registry"@ + candidate_lines(
            patch,
            minor,
            major,
        ) + (if has_candidate(patch, minor, major) {
            seq![]
        } else {
            "\nLatest: "@ + latest
        }),
        StatusView::NotFound => "Package '"@ + dep.parsed.name + "' not found in registry"@,
        StatusView::Unsupported => "Version constraint '"@ + dep.parsed.constraint
            + "' is not supported"@,
        StatusView::Loading => "Fetching version information…"@,
    }
}

/// A constraint that is based on a prerelease.
pub open spec fn is_on_prerelease(constraint: Seq<char>) -> bool {
    base_version(constraint) is Some && !base_version(constraint)->0.is_stable()
}

/// A prerelease that is strictly newer than the base of a constraint.
pub open spec fn has_newer_prerelease(dep: ResolvedView) -> bool {
    &&& dep.prerelease is Some
    &&& version_of(dep.prerelease->0) is Some
    &&& base_version(dep.parsed.constraint) is Some
    &&& precedes(base_version(dep.parsed.constraint)->0, ver(dep.prerelease->0))
}

/// An update may be offered: a version of the status, or a newer prerelease.
pub open spec fn may_update(dep: ResolvedView) -> bool {
    dep.status is UpdateAvailable || dep.status is VersionNotFound || has_newer_prerelease(dep)
}

/// The line that warns of an update which loses the operators of a constraint.
pub open spec fn warning(dep: ResolvedView) -> Seq<char> {
    if is_complex(dep.parsed.constraint) && may_update(dep) {
        "\nWarning: operator not preserved"@
    } else {
        seq![]
    }
}

/// The tooltip for a dependency. To one that is on a prerelease it also names
/// the latest prerelease.
pub open spec fn tooltip(dep: ResolvedView) -> Seq<char> {
    status_text(dep) + (if is_on_prerelease(dep.parsed.constraint) {
        version_line("\nPrerelease: "@, dep.prerelease)
    } else {
        seq![]
    }) + warning(dep)
}

/// A hint.
#[derive(Debug)]
pub struct Hint {
    pub position: Position,
    pub label: String,
    pub tooltip: String,
}

/// A hint as a mathematical value.
pub struct HintView {
    pub position: Position,
    pub label: Seq<char>,
    pub tooltip: Seq<char>,
}

impl View for Hint {
    type V = HintView;

    open spec fn view(&self) -> HintView {
        HintView { position: self.position, label: self.label@, tooltip: self.tooltip@ }
    }
}

/// Hints as mathematical values.
pub open spec fn hints_view(v: Seq<Hint>) -> Seq<HintView> {
    v.map_values(|h: Hint| h@)
}

/// The number of bytes on a line; none on one that is not there.
pub open spec fn line_length(lines: Seq<Seq<char>>, line: int) -> u32 {
    if 0 <= line < lines.len() {
        bytes(lines[line]) as u32
    } else {
        0
    }
}

/// The hint for a dependency: at the end of the line on which its constraint
/// begins.
pub open spec fn hint(lines: Seq<Seq<char>>, dep: ResolvedView) -> HintView {
    let line = dep.parsed.range.start.line;
    HintView {
        position: Position { line, character: line_length(lines, line as int) },
        label: label(dep.status),
        tooltip: tooltip(dep),
    }
}

/// Some update is there where an update is said to be available.
pub open spec fn sound(status: StatusView) -> bool {
    status matches StatusView::UpdateAvailable { patch, minor, major } ==> has_candidate(
        patch,
        minor,
        major,
    )
}

/// The most far-reaching candidate and its kind.
fn headline_of(
    patch: &Option<String>,
    minor: &Option<String>,
    major: &Option<String>,
    lead: &str,
) -> (r: Option<String>)
    ensures
        has_candidate(text_of(*patch), text_of(*minor), text_of(*major)) <==> r is Some,
        r is Some ==> r->0@ == lead@ + headline(
            text_of(*patch),
            text_of(*minor),
            text_of(*major),
            seq![],
        ),
{
    if let Some(v) = major {
        let text = joined(lead, v.as_str(), " (major)");
        assert(text@ == lead@ + (v@ + " (major)"@));
        Some(text)
    } else if let Some(v) = minor {
        let text = joined(lead, v.as_str(), " (minor)");
        assert(text@ == lead@ + (v@ + " (minor)"@));
        Some(text)
    } else if let Some(v) = patch {
        let text = joined(lead, v.as_str(), " (patch)");
        assert(text@ == lead@ + (v@ + " (patch)"@));
        Some(text)
    } else {
        None
    }
}

/// Builds the label of a hint.
pub fn hint_label(status: &DependencyStatus) -> (r: String)
    requires
        sound(status@),
    ensures
        r@ == label(status@),
{
    match status {
        DependencyStatus::Loading => owned("… fetching"),
        DependencyStatus::UpToDate { version: _ } => owned("✔ latest"),
        DependencyStatus::UpdateAvailable { patch, minor, major } => {
            match headline_of(patch, minor, major, "↑ ") {
                Some(text) => text,
                None => owned("↑ "),
            }
        },
        DependencyStatus::VersionNotFound { latest, patch, minor, major } => {
            match headline_of(patch, minor, major, "✘ not found, ↑ ") {
                Some(text) => text,
                None => {
                    let text = joined("✘ not found, ↑ ", latest.as_str(), " (latest)");
                    assert(text@ == "✘ not found, ↑ "@ + (latest@ + " (latest)"@));
                    text
                },
            }
        },
        DependencyStatus::NotFound => owned("✘ not found"),
        DependencyStatus::Unsupported => owned("⊘ unsupported"),
    }
}

/// Appends a line for a version that may be absent.
fn push_line(out: &mut Vec<char>, head: &str, version: &Option<String>)
    ensures
        final(out)@ == old(out)@ + version_line(head@, text_of(*version)),
{
    if let Some(v) = version {
        push_str(out, head);
        push_str(out, v.as_str());
        assert(out@ == old(out)@ + (head@ + v@));
    } else {
        assert(out@ == old(out)@ + Seq::<char>::empty());
    }
}

/// Appends the lines for the candidates.
fn push_candidates(
    out: &mut Vec<char>,
    patch: &Option<String>,
    minor: &Option<String>,
    major: &Option<String>,
)
    ensures
        final(out)@ == old(out)@ + candidate_lines(
            text_of(*patch),
            text_of(*minor),
            text_of(*major),
        ),
{
    push_line(out, "\nMajor: ↑ ", major);
    push_line(out, "\nMinor: ↑ ", minor);
    push_line(out, "\nPatch: ↑ ", patch);
    assert(out@ == old(out)@ + candidate_lines(
        text_of(*patch),
        text_of(*minor),
        text_of(*major),
    ));
}

/// Whether the prerelease is newer than the base of the constraint.
fn newer_prerelease(dep: &ResolvedDependency) -> (r: bool)
    ensures
        r == has_newer_prerelease(dep@),
{
    match &dep.prerelease {
        Some(v) => prerelease_newer_than_constraint(
            dep.parsed.version_constraint.as_str(),
            v.as_str(),
        ),
        None => false,
    }
}

/// Builds the tooltip for a dependency.
pub fn hint_tooltip(dep: &ResolvedDependency) -> (r: String)
    ensures
        r@ == tooltip(dep@),
{
    let mut out: Vec<char> = Vec::new();
    let constraint = dep.parsed.version_constraint.as_str();
    match &dep.status {
        DependencyStatus::UpToDate { version } => {
            push_str(&mut out, "✔ Up to date (");
            push_str(&mut out, version.as_str());
            push_str(&mut out, ")");
            assert(out@ == status_text(dep@));
        },
        DependencyStatus::UpdateAvailable { patch, minor, major } => {
            push_str(&mut out, "Current: ");
            push_str(&mut out, constraint);
            push_candidates(&mut out, patch, minor, major);
            assert(out@ == status_text(dep@));
        },
        DependencyStatus::VersionNotFound { latest, patch, minor, major } => {
            push_str(&mut out, "Version '");
            push_str(&mut out, constraint);
            push_str(&mut out, "' not found in registry");
            push_candidates(&mut out, patch, minor, major);
            if patch.is_none() && minor.is_none() && major.is_none() {
                push_str(&mut out, "\nLatest: ");
                push_str(&mut out, latest.as_str());
            }
            assert(out@ == status_text(dep@));
        },
        DependencyStatus::NotFound => {
            push_str(&mut out, "Package '");
            push_str(&mut out, dep.parsed.name.as_str());
            push_str(&mut out, "' not found in registry");
            assert(out@ == status_text(dep@));
        },
        DependencyStatus::Unsupported => {
            push_str(&mut out, "Version constraint '");
            push_str(&mut out, constraint);
            push_str(&mut out, "' is not supported");
            assert(out@ == status_text(dep@));
        },
        DependencyStatus::Loading => {
            push_str(&mut out, "Fetching version information…");
            assert(out@ == status_text(dep@));
        },
    }
    if is_prerelease_constraint(constraint) {
        push_line(&mut out, "\nPrerelease: ", &dep.prerelease);
    }
    let may_update = match &dep.status {
        DependencyStatus::UpdateAvailable { .. } => true,
        DependencyStatus::VersionNotFound { .. } => true,
        _ => newer_prerelease(dep),
    };
    let cs = chars_of(constraint);
    if may_update && complex(cs.as_slice()) {
        push_str(&mut out, "\nWarning: operator not preserved");
    }
    assert(out@ == tooltip(dep@));
    string_of(out.as_slice())
}

/// Builds the hint for a dependency.
pub fn hint_for(lines: &Vec<Vec<char>>, dep: &ResolvedDependency) -> (r: Hint)
    requires
        sound(dep.status@),
    ensures
        r@ == hint(parts_view(lines@), dep@),
{
    let line: u32 = dep.parsed.version_range.start.line;
    let index: usize = line as usize;
    let length: u32 = if index < lines.len() {
        assert(parts_view(lines@)[index as int] == lines@[index as int]@);
        let size: usize = byte_len(lines[index].as_slice());
        #[verifier::truncate]
        (size as u32)
    } else {
        0
    };
    Hint {
        position: Position { line, character: length },
        label: hint_label(&dep.status),
        tooltip: hint_tooltip(dep),
    }
}

} // verus!
