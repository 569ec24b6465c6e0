//! What registries reply, and what becomes known by it.
use vstd::prelude::*;
use super::pypi;
use super::cargo::{crate_versions, kept, CrateVersion};
use super::composer::{composer_result, package_versions, packagist_versions, PackageVersions};
use super::deno::{deno_land_versions, unprefixed_all};
use super::pypi::{pypi_releases, pypi_result, PypiRelease};
use super::registry::{listed_result, result_for};
use super::request::Registry;
use super::rubygems::{gem_result, gem_versions, GemVersion};
use crate::cache::{nothing_known, ResultView, VersionResult};
use crate::listing::lemma_gather;
use crate::text::chars::texts;

verus! {

/// What a registry replied, in the form that it has there.
#[derive(Debug)]
pub enum Reply {
    /// The texts of the versions: npm and deno.land.
    Versions(Vec<String>),
    /// Versions that may be yanked: crates.io and jsr.io.
    Crates(Vec<CrateVersion>),
    /// Releases whose files may be yanked: pypi.org.
    Releases(Vec<PypiRelease>),
    /// Versions by package: Packagist.
    Packages(Vec<PackageVersions>),
    /// Versions marked as prereleases or not: rubygems.org.
    Gems(Vec<GemVersion>),
}

/// What becomes known by a reply. Without one, or with one in the form of
/// another registry, that is nothing.
pub open spec fn known_by(
    registry: Registry,
    package: Seq<char>,
    reply: Option<Reply>,
) -> ResultView {
    match (registry, reply) {
        (Registry::Npm, Some(Reply::Versions(list))) => listed_result(texts(list@)),
        (Registry::Jsr, Some(Reply::Crates(rows))) => listed_result(kept(rows@)),
        (Registry::PyPi, Some(Reply::Releases(rows))) => pypi_result(pypi::kept(rows@)),
        (Registry::DenoLand, Some(Reply::Versions(list))) => listed_result(
            unprefixed_all(texts(list@)),
        ),
        (Registry::CratesIo, Some(Reply::Crates(rows))) => listed_result(kept(rows@)),
        (Registry::Packagist, Some(Reply::Packages(packages))) => match package_versions(
            packages@,
            package,
        ) {
            Some(list) => composer_result(list),
            None => nothing_known(),
        },
        (Registry::RubyGems, Some(Reply::Gems(rows))) => gem_result(rows@),
        _ => nothing_known(),
    }
}

/// What becomes known by a reply.
pub fn read_reply(registry: Registry, package: &str, reply: Option<Reply>) -> (r: VersionResult)
    ensures
        r@ == known_by(registry, package@, reply),
{
    match (registry, reply) {
        (Registry::Npm, Some(Reply::Versions(list))) => result_for(list.as_slice()),
        (Registry::Jsr, Some(Reply::Crates(rows))) => crate_versions(&rows),
        (Registry::PyPi, Some(Reply::Releases(rows))) => pypi_releases(&rows),
        (Registry::DenoLand, Some(Reply::Versions(list))) => deno_land_versions(&list),
        (Registry::CratesIo, Some(Reply::Crates(rows))) => crate_versions(&rows),
        (Registry::Packagist, Some(Reply::Packages(packages))) => packagist_versions(
            &packages,
            package,
        ),
        (Registry::RubyGems, Some(Reply::Gems(rows))) => gem_versions(&rows),
        _ => VersionResult::default(),
    }
}

/// What counts of the releases on pypi.org was not yanked.
pub proof fn law_yanked_is_not_listed(rows: Seq<PypiRelease>, k: int)
    requires
        0 <= k < pypi::kept(rows).len(),
    ensures
        exists|i: int|
            0 <= i < rows.len() && (#[trigger] rows[i]).version@ == pypi::kept(rows)[k]
                && !pypi::is_yanked(rows[i].files_yanked@),
{
    let at = pypi::kept_at(rows);
    lemma_gather(rows.len() as int, at, k);
    let i = choose|i: int| 0 <= i < rows.len() && #[trigger] at(i) == Some(pypi::kept(rows)[k]);
    assert(rows[i].version@ == pypi::kept(rows)[k]);
}

/// A failed lookup makes nothing known.
pub proof fn law_failure_makes_nothing_known(registry: Registry, package: Seq<char>)
    ensures
        known_by(registry, package, None) == nothing_known(),
{
}

} // verus!
