//! From the version texts that a registry lists to a lookup result.
use vstd::prelude::*;
use vstd::seq_lib::lemma_sorted_unique;
use crate::cache::{ResultView, VersionResult};
use crate::listing::gather;
use crate::ranking::{
    all_valid, law_newest_first_total, newest, newest_first, newest_of, rank, ranked, views,
};
use crate::text::chars::{lemma_texts_push, texts};
use crate::version::{law_order_irreflexive, precedes, version_of, Version, VersionView};

verus! {

/// The texts of versions.
pub open spec fn displays(v: Seq<VersionView>) -> Seq<Seq<char>> {
    v.map_values(|x: VersionView| x.display())
}

/// The text of a version that may be absent.
pub open spec fn display_of(v: Option<VersionView>) -> Option<Seq<char>> {
    match v {
        Some(x) => Some(x.display()),
        None => None,
    }
}

/// The result that lists stable versions newest first, and the newest of the
/// prereleases.
pub open spec fn result_of(stable: Seq<VersionView>, pre: Seq<VersionView>) -> ResultView {
    ResultView {
        stable_versions: displays(ranked(stable)),
        prerelease: display_of(newest(pre)),
    }
}

/// The release that a text spells.
pub open spec fn release_of(s: Seq<char>) -> Option<VersionView> {
    match version_of(s) {
        Some(v) => if v.is_stable() {
            Some(v)
        } else {
            None
        },
        None => None,
    }
}

/// The prerelease that a text spells.
pub open spec fn prerelease_of(s: Seq<char>) -> Option<VersionView> {
    match version_of(s) {
        Some(v) => if v.is_stable() {
            None
        } else {
            Some(v)
        },
        None => None,
    }
}

/// The releases by the number of their text.
pub open spec fn release_at(list: Seq<Seq<char>>) -> spec_fn(int) -> Option<VersionView> {
    |i: int| release_of(list[i])
}

/// The prereleases by the number of their text.
pub open spec fn prerelease_at(list: Seq<Seq<char>>) -> spec_fn(int) -> Option<VersionView> {
    |i: int| prerelease_of(list[i])
}

/// The releases among some texts.
pub open spec fn releases(list: Seq<Seq<char>>) -> Seq<VersionView> {
    gather(list.len() as int, release_at(list))
}

/// The prereleases among some texts.
pub open spec fn prereleases(list: Seq<Seq<char>>) -> Seq<VersionView> {
    gather(list.len() as int, prerelease_at(list))
}

/// The result for a list of version texts.
pub open spec fn listed_result(list: Seq<Seq<char>>) -> ResultView {
    result_of(releases(list), prereleases(list))
}

/// The list with one more version.
pub proof fn lemma_views_push(v: Seq<Version>, x: Version)
    ensures
        views(v.push(x)) == views(v).push(x@),
        all_valid(v) && x@.valid() ==> all_valid(v.push(x)),
{
    assert forall|i: int| all_valid(v) && x@.valid() && 0 <= i < v.push(x).len() implies (
    #[trigger] v.push(x)[i])@.valid() by {
        if i < v.len() {
            assert(v[i]@.valid());
        }
    }
}

/// Lists stable versions newest first, with the newest of the prereleases.
pub fn rank_result(stable: &Vec<Version>, pre: &Vec<Version>) -> (r: VersionResult)
    requires
        all_valid(stable@),
        all_valid(pre@),
    ensures
        r@ == result_of(views(stable@), views(pre@)),
{
    let sorted = rank(stable.as_slice());
    let ghost goal = displays(ranked(views(stable@)));
    let mut stable_versions: Vec<String> = Vec::new();
    for i in 0..sorted.len()
        invariant
            views(sorted@) == ranked(views(stable@)),
            goal == displays(ranked(views(stable@))),
            texts(stable_versions@) == goal.take(i as int),
    {
        assert(views(sorted@)[i as int] == sorted@[i as int]@);
        let text = sorted[i].to_string();
        proof {
            lemma_texts_push(stable_versions@, text);
            assert(text@ == goal[i as int]);
            assert(goal.take(i as int + 1) == goal.take(i as int).push(goal[i as int]));
        }
        stable_versions.push(text);
    }
    assert(goal.take(goal.len() as int) == goal);
    let prerelease = match newest_of(pre.as_slice()) {
        Some(v) => Some(v.to_string()),
        None => None,
    };
    VersionResult { stable_versions, prerelease }
}

/// The result for a list of version texts: those that are no versions are
/// passed over, and prereleases are told from releases by their tag.
pub fn result_for(list: &[String]) -> (r: VersionResult)
    ensures
        r@ == listed_result(texts(list@)),
{
    let ghost all = texts(list@);
    let ghost rel = release_at(all);
    let ghost pre = prerelease_at(all);
    let mut stable: Vec<Version> = Vec::new();
    let mut others: Vec<Version> = Vec::new();
    assert(views(stable@) == gather(0, rel));
    assert(views(others@) == gather(0, pre));
    for i in 0..list.len()
        invariant
            all == texts(list@),
            rel == release_at(all),
            pre == prerelease_at(all),
            all_valid(stable@),
            all_valid(others@),
            views(stable@) == gather(i as int, rel),
            views(others@) == gather(i as int, pre),
    {
        assert(all[i as int] == list@[i as int]@);
        if let Some(v) = Version::parse(list[i].as_str()) {
            proof {
                lemma_views_push(stable@, v);
                lemma_views_push(others@, v);
            }
            if v.is_stable() {
                assert(rel(i as int) == Some(v@) && pre(i as int) is None);
                stable.push(v);
            } else {
                assert(rel(i as int) is None && pre(i as int) == Some(v@));
                others.push(v);
            }
        } else {
            assert(rel(i as int) is None && pre(i as int) is None);
        }
    }
    rank_result(&stable, &others)
}

/// A ranked list holds the same versions, none before one that succeeds it.
pub proof fn law_ranked(v: Seq<VersionView>)
    ensures
        ranked(v).to_multiset() == v.to_multiset(),
        forall|i: int, j: int|
            0 <= i < j < ranked(v).len() ==> !precedes(#[trigger] ranked(v)[i], #[trigger] ranked(
                v,
            )[j]),
{
    law_newest_first_total();
    v.lemma_sort_by_ensures(newest_first());
    let r = ranked(v);
    let leq = newest_first();
    assert forall|i: int, j: int| 0 <= i < j < r.len() implies !precedes(
        #[trigger] r[i],
        #[trigger] r[j],
    ) by {
        assert(leq(r[i], r[j]));
    }
}

/// The order in which a registry lists its versions does not matter.
pub proof fn law_ranked_any_order(a: Seq<VersionView>, b: Seq<VersionView>)
    requires
        a.to_multiset() == b.to_multiset(),
    ensures
        ranked(a) == ranked(b),
        newest(a) == newest(b),
{
    law_newest_first_total();
    a.lemma_sort_by_ensures(newest_first());
    b.lemma_sort_by_ensures(newest_first());
    lemma_sorted_unique(ranked(a), ranked(b), newest_first());
    a.to_multiset_ensures();
    b.to_multiset_ensures();
}

/// The newest version of a list is in it, and none of the list succeeds it.
pub proof fn law_newest(v: Seq<VersionView>)
    ensures
        match newest(v) {
            Some(x) => v.contains(x) && forall|i: int|
                0 <= i < v.len() ==> !precedes(x, #[trigger] v[i]),
            None => v.len() == 0,
        },
{
    if v.len() > 0 {
        law_ranked(v);
        let r = ranked(v);
        v.to_multiset_ensures();
        r.to_multiset_ensures();
        assert(r.to_multiset().count(r[0]) > 0);
        assert(v.to_multiset().count(r[0]) > 0);
        assert forall|i: int| 0 <= i < v.len() implies !precedes(r[0], #[trigger] v[i]) by {
            assert(v.contains(v[i]));
            assert(r.to_multiset().count(v[i]) > 0);
            assert(r.contains(v[i]));
            let k = choose|k: int| 0 <= k < r.len() && r[k] == v[i];
            law_order_irreflexive(r[0]);
            if k > 0 {
                assert(!precedes(r[0], r[k]));
            }
        }
    }
}

} // verus!
