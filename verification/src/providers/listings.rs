//! What becomes known by a listing, stated on the versions that it holds.
use vstd::prelude::*;
use super::pypi;
use super::cargo::{kept, kept_at, CrateVersion};
use super::composer::{
    composer_result, composer_stable_at, composer_unstable_at, composer_version, is_unstable,
    numbers_text, package_versions, PackageVersions,
};
use super::pypi::{
    is_pre_text, pypi_pre_at, pypi_prerelease, pypi_release, pypi_result, pypi_stable_at,
    PypiRelease,
};
use super::registry::{
    displays, law_newest, law_ranked, listed_result, prerelease_at, prereleases, release_at,
    releases, result_of,
};
use super::reply::{known_by, Reply};
use super::request::Registry;
use super::rubygems::{gem_at, gem_result, gem_version, GemVersion};
use crate::listing::{gather, least, lemma_gather, lemma_gathered, lemma_least};
use crate::ranking::{newest, ranked};
use crate::text::chars::texts;
use crate::text::search::begins;
use crate::version::{law_display_of_parse, precedes, version_of, VersionView};
use crate::version_utils::numbers::reaches;

verus! {

/// The texts of a listing are those of versions, newest first: none has smaller
/// numbers than one behind it, nor precedes one.
pub open spec fn newest_come_first(list: Seq<VersionView>) -> bool {
    forall|i: int, j: int|
        0 <= i < j < list.len() ==> !precedes(#[trigger] list[i], #[trigger] list[j])
}

/// Ranking keeps what is there.
proof fn lemma_ranked_contains(v: Seq<VersionView>, x: VersionView)
    ensures
        ranked(v).contains(x) <==> v.contains(x),
        ranked(v).len() == v.len(),
{
    law_ranked(v);
    v.to_multiset_ensures();
    ranked(v).to_multiset_ensures();
    assert(v.to_multiset().count(x) > 0 <==> v.contains(x));
    assert(ranked(v).to_multiset().count(x) > 0 <==> ranked(v).contains(x));
}

/// A result lists the texts of the stable versions, all of them and no other, those
/// with greater numbers first, and names the text of a prerelease that precedes
/// none of the prereleases.
pub proof fn law_result(stable: Seq<VersionView>, pre: Seq<VersionView>)
    ensures
        result_of(stable, pre).stable_versions.len() == stable.len(),
        forall|x: VersionView| #[trigger]
            stable.contains(x) ==> result_of(stable, pre).stable_versions.contains(x.display()),
        forall|s: Seq<char>| #[trigger]
            result_of(stable, pre).stable_versions.contains(s) ==> exists|x: VersionView|
                #[trigger] stable.contains(x) && x.display() == s,
        exists|order: Seq<VersionView>|
            order.to_multiset() == stable.to_multiset() && newest_come_first(order)
                && result_of(stable, pre).stable_versions == #[trigger] displays(order),
        match result_of(stable, pre).prerelease {
            Some(s) => exists|x: VersionView| #[trigger]
                pre.contains(x) && x.display() == s && forall|i: int|
                    0 <= i < pre.len() ==> !precedes(x, #[trigger] pre[i]),
            None => pre.len() == 0,
        },
{
    let order = ranked(stable);
    let result = result_of(stable, pre);
    law_ranked(stable);
    law_newest(pre);
    assert(newest_come_first(order));
    assert(result.stable_versions == displays(order));
    lemma_ranked_contains(stable, arbitrary());
    assert forall|x: VersionView| #[trigger] stable.contains(x) implies result
        .stable_versions.contains(x.display()) by {
        lemma_ranked_contains(stable, x);
        let k = choose|k: int| 0 <= k < order.len() && order[k] == x;
        assert(result.stable_versions[k] == x.display());
    }
    assert forall|s: Seq<char>| #[trigger] result.stable_versions.contains(s) implies exists|
        x: VersionView,
    | #[trigger] stable.contains(x) && x.display() == s by {
        let k = choose|k: int|
            0 <= k < result.stable_versions.len() && result.stable_versions[k] == s;
        lemma_ranked_contains(stable, order[k]);
        assert(order.contains(order[k]));
        assert(stable.contains(order[k]) && order[k].display() == s);
    }
}

/// What does not precede another release has numbers that reach it.
pub proof fn law_newest_first_by_numbers(list: Seq<VersionView>, i: int, j: int)
    requires
        newest_come_first(list),
        0 <= i < j < list.len(),
        list[i].pre.len() == 0,
        list[j].pre.len() == 0,
    ensures
        reaches(list[i], list[j]),
{
    assert(!precedes(list[i], list[j]));
}

/// What is gathered is in the list.
proof fn lemma_in_gathered<R>(n: int, f: spec_fn(int) -> Option<R>, x: R)
    ensures
        gather(n, f).contains(x) <==> exists|i: int| 0 <= i < n && #[trigger] f(i) == Some(x),
{
    if gather(n, f).contains(x) {
        let k = choose|k: int| 0 <= k < gather(n, f).len() && gather(n, f)[k] == x;
        lemma_gather(n, f, k);
    }
    if exists|i: int| 0 <= i < n && #[trigger] f(i) == Some(x) {
        let i = choose|i: int| 0 <= i < n && #[trigger] f(i) == Some(x);
        lemma_gathered(n, f, i);
        let k = choose|k: int| 0 <= k < gather(n, f).len() && #[trigger] gather(n, f)[k] == x;
        assert(gather(n, f).contains(x));
    }
}

/// The text of a release.
pub open spec fn is_release_text(s: Seq<char>) -> bool {
    version_of(s) is Some && version_of(s)->0.pre.len() == 0
}

/// The text of a prerelease.
pub open spec fn is_prerelease_text(s: Seq<char>) -> bool {
    version_of(s) is Some && version_of(s)->0.pre.len() > 0
}

/// A listing makes known exactly the releases among its texts, and of the
/// prereleases among them one that precedes no other.
pub proof fn law_listing(list: Seq<Seq<char>>)
    ensures
        forall|s: Seq<char>| #[trigger]
            listed_result(list).stable_versions.contains(s) <==> list.contains(s)
                && is_release_text(s),
        match listed_result(list).prerelease {
            Some(s) => list.contains(s) && is_prerelease_text(s) && forall|i: int|
                0 <= i < list.len() && is_prerelease_text(#[trigger] list[i]) ==> !precedes(
                    version_of(s)->0,
                    version_of(list[i])->0,
                ),
            None => forall|i: int| 0 <= i < list.len() ==> !is_prerelease_text(#[trigger] list[i]),
        },
{
    let n = list.len() as int;
    let stable = releases(list);
    let pre = prereleases(list);
    let f = release_at(list);
    let g = prerelease_at(list);
    law_result(stable, pre);
    assert forall|s: Seq<char>| #[trigger] listed_result(list).stable_versions.contains(s) <==> (
    list.contains(s) && is_release_text(s)) by {
        if listed_result(list).stable_versions.contains(s) {
            let x = choose|x: VersionView| #[trigger] stable.contains(x) && x.display() == s;
            lemma_in_gathered(n, f, x);
            let i = choose|i: int| 0 <= i < n && #[trigger] f(i) == Some(x);
            law_display_of_parse(list[i]);
            assert(list[i] == s);
        }
        if list.contains(s) && is_release_text(s) {
            let i = choose|i: int| 0 <= i < n && list[i] == s;
            let x = version_of(s)->0;
            assert(f(i) == Some(x));
            lemma_in_gathered(n, f, x);
            law_display_of_parse(s);
            assert(stable.contains(x));
        }
    }
    match listed_result(list).prerelease {
        Some(s) => {
            let x = choose|x: VersionView| #[trigger]
                pre.contains(x) && x.display() == s && forall|i: int|
                    0 <= i < pre.len() ==> !precedes(x, #[trigger] pre[i]);
            lemma_in_gathered(n, g, x);
            let k = choose|k: int| 0 <= k < n && #[trigger] g(k) == Some(x);
            law_display_of_parse(list[k]);
            assert(list[k] == s);
            assert(version_of(s) == Some(x));
            assert forall|i: int|
                0 <= i < list.len() && is_prerelease_text(#[trigger] list[i]) implies !precedes(
                version_of(s)->0,
                version_of(list[i])->0,
            ) by {
                let y = version_of(list[i])->0;
                assert(g(i) == Some(y));
                lemma_in_gathered(n, g, y);
                let m = choose|m: int| 0 <= m < pre.len() && pre[m] == y;
                assert(!precedes(x, pre[m]));
            }
        },
        None => {
            assert forall|i: int| 0 <= i < list.len() implies !is_prerelease_text(
                #[trigger] list[i],
            ) by {
                if is_prerelease_text(list[i]) {
                    let y = version_of(list[i])->0;
                    assert(g(i) == Some(y));
                    lemma_in_gathered(n, g, y);
                }
            }
        },
    }
}

/// Of what crates.io and jsr.io list exactly the versions count that were not yanked.
pub proof fn law_kept_versions(rows: Seq<CrateVersion>, s: Seq<char>)
    ensures
        kept(rows).contains(s) <==> exists|i: int|
            0 <= i < rows.len() && !(#[trigger] rows[i]).yanked && rows[i].num@ == s,
{
    let f = kept_at(rows);
    lemma_in_gathered(rows.len() as int, f, s);
    if kept(rows).contains(s) {
        let i = choose|i: int| 0 <= i < rows.len() && #[trigger] f(i) == Some(s);
        assert(!rows[i].yanked && rows[i].num@ == s);
    }
    if exists|i: int| 0 <= i < rows.len() && !(#[trigger] rows[i]).yanked && rows[i].num@ == s {
        let i = choose|i: int|
            0 <= i < rows.len() && !(#[trigger] rows[i]).yanked && rows[i].num@ == s;
        assert(f(i) == Some(s));
    }
}

/// Some file of a release was not yanked, or it has no file.
pub open spec fn is_available(row: PypiRelease) -> bool {
    row.files_yanked@.len() == 0 || exists|k: int|
        0 <= k < row.files_yanked@.len() && !#[trigger] row.files_yanked@[k]
}

/// Of what pypi.org lists exactly the releases count of which some file was not
/// yanked, or which have no file.
pub proof fn law_kept_releases(rows: Seq<PypiRelease>, s: Seq<char>)
    ensures
        pypi::kept(rows).contains(s) <==> exists|i: int|
            0 <= i < rows.len() && is_available(#[trigger] rows[i]) && rows[i].version@ == s,
{
    let f = pypi::kept_at(rows);
    lemma_in_gathered(rows.len() as int, f, s);
    if pypi::kept(rows).contains(s) {
        let i = choose|i: int| 0 <= i < rows.len() && #[trigger] f(i) == Some(s);
        assert(is_available(rows[i]) && rows[i].version@ == s);
    }
    if exists|i: int|
        0 <= i < rows.len() && is_available(#[trigger] rows[i]) && rows[i].version@ == s {
        let i = choose|i: int|
            0 <= i < rows.len() && is_available(#[trigger] rows[i]) && rows[i].version@ == s;
        assert(f(i) == Some(s));
    }
}

/// What a reply makes known is what the listing in it does, read in the form of the
/// registry that was asked.
pub proof fn law_reply_is_read(registry: Registry, package: Seq<char>, reply: Reply)
    ensures
        match (registry, reply) {
            (Registry::Npm, Reply::Versions(list)) => known_by(registry, package, Some(reply))
                == listed_result(texts(list@)),
            (Registry::CratesIo, Reply::Crates(rows)) => known_by(registry, package, Some(reply))
                == listed_result(kept(rows@)),
            (Registry::Jsr, Reply::Crates(rows)) => known_by(registry, package, Some(reply))
                == listed_result(kept(rows@)),
            (Registry::PyPi, Reply::Releases(rows)) => known_by(registry, package, Some(reply))
                == pypi_result(pypi::kept(rows@)),
            (Registry::RubyGems, Reply::Gems(rows)) => known_by(registry, package, Some(reply))
                == gem_result(rows@),
            (Registry::Packagist, Reply::Packages(packages)) => match package_versions(
                packages@,
                package,
            ) {
                Some(list) => known_by(registry, package, Some(reply)) == composer_result(list),
                None => known_by(registry, package, Some(reply)).stable_versions.len() == 0
                    && known_by(registry, package, Some(reply)).prerelease is None,
            },
            (Registry::DenoLand, Reply::Versions(list)) => forall|s: Seq<char>|
                #![trigger known_by(registry, package, Some(reply)).stable_versions.contains(s)]
                (s.len() > 0 && s[0] != 'v' && is_release_text(s) && (texts(list@).contains(s)
                    || texts(list@).contains(seq!['v'] + s))) ==> known_by(
                    registry,
                    package,
                    Some(reply),
                ).stable_versions.contains(s),
            _ => known_by(registry, package, Some(reply)).stable_versions.len() == 0 && known_by(
                registry,
                package,
                Some(reply),
            ).prerelease is None,
        },
{
    match (registry, reply) {
        (Registry::DenoLand, Reply::Versions(list)) => {
            reveal_strlit("v");
            let all = texts(list@);
            let bare = super::deno::unprefixed_all(all);
            law_listing(bare);
            assert forall|s: Seq<char>|
                #![trigger known_by(registry, package, Some(reply)).stable_versions.contains(s)]
                (s.len() > 0 && s[0] != 'v' && is_release_text(s) && (all.contains(s)
                    || all.contains(seq!['v'] + s))) implies known_by(
                registry,
                package,
                Some(reply),
            ).stable_versions.contains(s) by {
                if all.contains(s) {
                    let i = choose|i: int| 0 <= i < all.len() && all[i] == s;
                    assert(s.take(1)[0] == s[0]);
                    assert(bare[i] == s);
                } else {
                    let t = seq!['v'] + s;
                    let i = choose|i: int| 0 <= i < all.len() && all[i] == t;
                    assert(t.take(1) == "v"@);
                    assert(t.skip(1) == s);
                    assert(bare[i] == s);
                }
                assert(bare.contains(s));
            }
        },
        _ => {},
    }
}

/// A listing of gems makes known every version that is not marked as a prerelease,
/// and of those that are marked one that precedes no other.
pub proof fn law_gem_listing(rows: Seq<GemVersion>)
    ensures
        forall|i: int|
            0 <= i < rows.len() && !(#[trigger] rows[i]).prerelease && gem_version(
                rows[i].number@,
            ) is Some ==> gem_result(rows).stable_versions.contains(
                gem_version(rows[i].number@)->0.display(),
            ),
        forall|s: Seq<char>| #[trigger]
            gem_result(rows).stable_versions.contains(s) ==> exists|i: int|
                0 <= i < rows.len() && !(#[trigger] rows[i]).prerelease && gem_version(
                    rows[i].number@,
                ) is Some && gem_version(rows[i].number@)->0.display() == s,
        match gem_result(rows).prerelease {
            Some(s) => exists|i: int|
                0 <= i < rows.len() && (#[trigger] rows[i]).prerelease && gem_version(
                    rows[i].number@,
                ) is Some && gem_version(rows[i].number@)->0.display() == s && forall|j: int|
                    0 <= j < rows.len() && (#[trigger] rows[j]).prerelease && gem_version(
                        rows[j].number@,
                    ) is Some ==> !precedes(
                        gem_version(rows[i].number@)->0,
                        gem_version(rows[j].number@)->0,
                    ),
            None => forall|j: int|
                0 <= j < rows.len() && (#[trigger] rows[j]).prerelease ==> gem_version(
                    rows[j].number@,
                ) is None,
        },
{
    let n = rows.len() as int;
    let f = gem_at(rows, false);
    let g = gem_at(rows, true);
    let stable = gather(n, f);
    let pre = gather(n, g);
    law_result(stable, pre);
    assert forall|i: int|
        0 <= i < rows.len() && !(#[trigger] rows[i]).prerelease && gem_version(
            rows[i].number@,
        ) is Some implies gem_result(rows).stable_versions.contains(
        gem_version(rows[i].number@)->0.display(),
    ) by {
        let x = gem_version(rows[i].number@)->0;
        assert(f(i) == Some(x));
        lemma_in_gathered(n, f, x);
        assert(stable.contains(x));
    }
    assert forall|s: Seq<char>| #[trigger] gem_result(rows).stable_versions.contains(
        s,
    ) implies exists|i: int|
        0 <= i < rows.len() && !(#[trigger] rows[i]).prerelease && gem_version(
            rows[i].number@,
        ) is Some && gem_version(rows[i].number@)->0.display() == s by {
        let x = choose|x: VersionView| #[trigger] stable.contains(x) && x.display() == s;
        lemma_in_gathered(n, f, x);
        let i = choose|i: int| 0 <= i < n && #[trigger] f(i) == Some(x);
        assert(!rows[i].prerelease);
    }
    match gem_result(rows).prerelease {
        Some(s) => {
            let x = choose|x: VersionView| #[trigger]
                pre.contains(x) && x.display() == s && forall|i: int|
                    0 <= i < pre.len() ==> !precedes(x, #[trigger] pre[i]);
            lemma_in_gathered(n, g, x);
            let i = choose|i: int| 0 <= i < n && #[trigger] g(i) == Some(x);
            assert(rows[i].prerelease);
            assert forall|j: int|
                0 <= j < rows.len() && (#[trigger] rows[j]).prerelease && gem_version(
                    rows[j].number@,
                ) is Some implies !precedes(x, gem_version(rows[j].number@)->0) by {
                let y = gem_version(rows[j].number@)->0;
                assert(g(j) == Some(y));
                lemma_in_gathered(n, g, y);
                let m = choose|m: int| 0 <= m < pre.len() && pre[m] == y;
                assert(!precedes(x, pre[m]));
            }
        },
        None => {
            assert forall|j: int|
                0 <= j < rows.len() && (#[trigger] rows[j]).prerelease implies gem_version(
                rows[j].number@,
            ) is None by {
                if gem_version(rows[j].number@) is Some {
                    assert(g(j) == gem_version(rows[j].number@));
                    lemma_in_gathered(n, g, g(j)->0);
                }
            }
        },
    }
}

/// A listing of pypi.org makes known every stable text that stands for a release,
/// and of the texts that mark a prerelease one whose version precedes no other.
pub proof fn law_pypi_listing(list: Seq<Seq<char>>)
    ensures
        forall|i: int|
            0 <= i < list.len() && !is_pre_text(#[trigger] list[i]) && pypi_release(
                list[i],
            ) is Some ==> pypi_result(list).stable_versions.contains(
                pypi_release(list[i])->0.display(),
            ),
        forall|s: Seq<char>| #[trigger]
            pypi_result(list).stable_versions.contains(s) ==> exists|i: int|
                0 <= i < list.len() && !is_pre_text(#[trigger] list[i]) && pypi_release(
                    list[i],
                ) is Some && pypi_release(list[i])->0.display() == s,
        match pypi_result(list).prerelease {
            Some(s) => exists|i: int|
                0 <= i < list.len() && is_pre_text(#[trigger] list[i]) && pypi_prerelease(
                    list[i],
                ) is Some && pypi_prerelease(list[i])->0.display() == s && forall|j: int|
                    0 <= j < list.len() && is_pre_text(#[trigger] list[j]) && pypi_prerelease(
                        list[j],
                    ) is Some ==> !precedes(
                        pypi_prerelease(list[i])->0,
                        pypi_prerelease(list[j])->0,
                    ),
            None => forall|j: int|
                0 <= j < list.len() && is_pre_text(#[trigger] list[j]) ==> pypi_prerelease(
                    list[j],
                ) is None,
        },
{
    let n = list.len() as int;
    let f = pypi_stable_at(list);
    let g = pypi_pre_at(list);
    let stable = gather(n, f);
    let pre = gather(n, g);
    law_result(stable, pre);
    assert forall|i: int|
        0 <= i < list.len() && !is_pre_text(#[trigger] list[i]) && pypi_release(
            list[i],
        ) is Some implies pypi_result(list).stable_versions.contains(
        pypi_release(list[i])->0.display(),
    ) by {
        let x = pypi_release(list[i])->0;
        assert(f(i) == Some(x));
        lemma_in_gathered(n, f, x);
        assert(stable.contains(x));
    }
    assert forall|s: Seq<char>| #[trigger] pypi_result(list).stable_versions.contains(
        s,
    ) implies exists|i: int|
        0 <= i < list.len() && !is_pre_text(#[trigger] list[i]) && pypi_release(list[i]) is Some
            && pypi_release(list[i])->0.display() == s by {
        let x = choose|x: VersionView| #[trigger] stable.contains(x) && x.display() == s;
        lemma_in_gathered(n, f, x);
        let i = choose|i: int| 0 <= i < n && #[trigger] f(i) == Some(x);
        assert(!is_pre_text(list[i]));
    }
    match pypi_result(list).prerelease {
        Some(s) => {
            let x = choose|x: VersionView| #[trigger]
                pre.contains(x) && x.display() == s && forall|i: int|
                    0 <= i < pre.len() ==> !precedes(x, #[trigger] pre[i]);
            lemma_in_gathered(n, g, x);
            let i = choose|i: int| 0 <= i < n && #[trigger] g(i) == Some(x);
            assert(is_pre_text(list[i]));
            assert forall|j: int|
                0 <= j < list.len() && is_pre_text(#[trigger] list[j]) && pypi_prerelease(
                    list[j],
                ) is Some implies !precedes(x, pypi_prerelease(list[j])->0) by {
                let y = pypi_prerelease(list[j])->0;
                assert(g(j) == Some(y));
                lemma_in_gathered(n, g, y);
                let m = choose|m: int| 0 <= m < pre.len() && pre[m] == y;
                assert(!precedes(x, pre[m]));
            }
        },
        None => {
            assert forall|j: int|
                0 <= j < list.len() && is_pre_text(#[trigger] list[j]) implies pypi_prerelease(
                list[j],
            ) is None by {
                if pypi_prerelease(list[j]) is Some {
                    assert(g(j) == pypi_prerelease(list[j]));
                    lemma_in_gathered(n, g, g(j)->0);
                }
            }
        },
    }
}

/// A listing of Packagist makes known the three numbers of every text that is not
/// marked as unstable and stands for a release.
pub proof fn law_composer_listing(list: Seq<Seq<char>>)
    ensures
        forall|i: int|
            0 <= i < list.len() && !is_unstable(#[trigger] list[i]) && composer_version(
                list[i],
            ) is Some ==> composer_result(list).stable_versions.contains(
                numbers_text(composer_version(list[i])->0),
            ),
        forall|s: Seq<char>| #[trigger]
            composer_result(list).stable_versions.contains(s) ==> exists|i: int|
                0 <= i < list.len() && !is_unstable(#[trigger] list[i]) && composer_version(
                    list[i],
                ) is Some && numbers_text(composer_version(list[i])->0) == s,
{
    let n = list.len() as int;
    let f = composer_stable_at(list);
    let stable = gather(n, f);
    let order = ranked(stable);
    let found = composer_result(list).stable_versions;
    assert forall|i: int|
        0 <= i < list.len() && !is_unstable(#[trigger] list[i]) && composer_version(
            list[i],
        ) is Some implies found.contains(numbers_text(composer_version(list[i])->0)) by {
        let x = composer_version(list[i])->0;
        assert(f(i) == Some(x));
        lemma_in_gathered(n, f, x);
        lemma_ranked_contains(stable, x);
        let k = choose|k: int| 0 <= k < order.len() && order[k] == x;
        assert(found[k] == numbers_text(x));
    }
    assert forall|s: Seq<char>| #[trigger] found.contains(s) implies exists|i: int|
        0 <= i < list.len() && !is_unstable(#[trigger] list[i]) && composer_version(list[i]) is Some
            && numbers_text(composer_version(list[i])->0) == s by {
        let k = choose|k: int| 0 <= k < found.len() && found[k] == s;
        let x = order[k];
        assert(order.contains(x));
        lemma_ranked_contains(stable, x);
        lemma_in_gathered(n, f, x);
        let i = choose|i: int| 0 <= i < n && #[trigger] f(i) == Some(x);
        assert(!is_unstable(list[i]));
    }
}

/// Packagist's stable versions are listed newest first, and of the unstable ones that
/// stand for a release one is named that precedes no other.
pub proof fn law_composer_order(list: Seq<Seq<char>>)
    ensures
        exists|order: Seq<VersionView>| #[trigger]
            newest_come_first(order) && order.len() == composer_result(list).stable_versions.len()
                && forall|i: int|
                0 <= i < order.len() ==> #[trigger] composer_result(list).stable_versions[i]
                    == numbers_text(order[i]),
        match composer_result(list).prerelease {
            Some(s) => exists|i: int|
                0 <= i < list.len() && is_unstable(#[trigger] list[i]) && composer_version(
                    list[i],
                ) is Some && numbers_text(composer_version(list[i])->0) == s && forall|j: int|
                    0 <= j < list.len() && is_unstable(#[trigger] list[j]) && composer_version(
                        list[j],
                    ) is Some ==> !precedes(
                        composer_version(list[i])->0,
                        composer_version(list[j])->0,
                    ),
            None => forall|j: int|
                0 <= j < list.len() && is_unstable(#[trigger] list[j]) ==> composer_version(
                    list[j],
                ) is None,
        },
{
    let n = list.len() as int;
    let stable = gather(n, composer_stable_at(list));
    let g = composer_unstable_at(list);
    let pre = gather(n, g);
    let order = ranked(stable);
    law_ranked(stable);
    law_newest(pre);
    assert(newest_come_first(order));
    match newest(pre) {
        Some(x) => {
            lemma_in_gathered(n, g, x);
            let i = choose|i: int| 0 <= i < n && #[trigger] g(i) == Some(x);
            assert(is_unstable(list[i]));
            assert forall|j: int|
                0 <= j < list.len() && is_unstable(#[trigger] list[j]) && composer_version(
                    list[j],
                ) is Some implies !precedes(x, composer_version(list[j])->0) by {
                let y = composer_version(list[j])->0;
                assert(g(j) == Some(y));
                lemma_in_gathered(n, g, y);
                let m = choose|m: int| 0 <= m < pre.len() && pre[m] == y;
                assert(!precedes(x, pre[m]));
            }
        },
        None => {
            assert forall|j: int|
                0 <= j < list.len() && is_unstable(#[trigger] list[j]) implies composer_version(
                list[j],
            ) is None by {
                if composer_version(list[j]) is Some {
                    assert(g(j) == composer_version(list[j]));
                    lemma_in_gathered(n, g, g(j)->0);
                }
            }
        },
    }
}

/// Packagist's versions of a package are those under its name, of several the first;
/// where the name is not there, those of the first package.
pub proof fn law_packages(packages: Seq<PackageVersions>, name: Seq<char>)
    ensures
        match package_versions(packages, name) {
            Some(list) => exists|i: int|
                0 <= i < packages.len() && list == texts((#[trigger] packages[i]).versions@) && (
                forall|j: int|
                    0 <= j < i ==> (#[trigger] packages[j]).name@ != name) && (packages[i].name@
                    == name || (i == 0 && forall|j: int|
                    0 <= j < packages.len() ==> (#[trigger] packages[j]).name@ != name)),
            None => packages.len() == 0,
        },
{
    let f = super::composer::is_named(packages, name);
    lemma_least(packages.len() as int, f);
    match least(packages.len() as int, f) {
        Some(i) => {
            assert forall|j: int| 0 <= j < i implies (#[trigger] packages[j]).name@ != name by {
                assert(!f(j));
            }
            assert(f(i));
            assert(packages[i].name@ == name);
        },
        None => {
            assert forall|j: int| 0 <= j < packages.len() implies (#[trigger] packages[j]).name@
                != name by {
                assert(!f(j));
            }
            if packages.len() > 0 {
                assert(texts(packages[0].versions@) == package_versions(packages, name)->0);
            }
        },
    }
}

/// Of the texts that deno.land lists a `v` in front comes off, and nothing else
/// changes.
pub proof fn law_marks_come_off(list: Seq<Seq<char>>, i: int, t: Seq<char>)
    requires
        0 <= i < list.len(),
    ensures
        super::deno::unprefixed_all(list).len() == list.len(),
        list[i] == seq!['v'] + t ==> super::deno::unprefixed_all(list)[i] == t,
        list[i].len() == 0 || list[i][0] != 'v' ==> super::deno::unprefixed_all(list)[i]
            == list[i],
{
    reveal_strlit("v");
    if list[i] == seq!['v'] + t {
        assert(list[i].take(1) == "v"@);
        assert(list[i].skip(1) == t);
    } else if begins(list[i], "v"@) {
        assert(list[i].take(1)[0] == list[i][0]);
    }
}

} // verus!
