//! Ranking versions: newest first.
use vstd::prelude::*;
use vstd::relations::{sorted_by, total_ordering};
use vstd::seq_lib::{lemma_multiset_commutative, lemma_sorted_unique, to_multiset_build};
use vstd::slice::slice_subrange;
use crate::version::{
    law_order_irreflexive, law_order_total, law_order_transitive, precedes, Version, VersionView,
};

verus! {

/// The order in which versions are listed: none after one that succeeds it.
pub open spec fn newest_first() -> spec_fn(VersionView, VersionView) -> bool {
    |a: VersionView, b: VersionView| !precedes(a, b)
}

/// Versions as mathematical values.
pub open spec fn views(v: Seq<Version>) -> Seq<VersionView> {
    v.map_values(|x: Version| x@)
}

/// The versions of a list, newest first.
pub open spec fn ranked(v: Seq<VersionView>) -> Seq<VersionView> {
    v.sort_by(newest_first())
}

/// The newest version of a list.
pub open spec fn newest(v: Seq<VersionView>) -> Option<VersionView> {
    if v.len() == 0 {
        None
    } else {
        Some(ranked(v)[0])
    }
}

/// Every version is valid.
pub open spec fn all_valid(v: Seq<Version>) -> bool {
    forall|i: int| 0 <= i < v.len() ==> (#[trigger] v[i])@.valid()
}

/// Listing newest first is a total order.
pub proof fn law_newest_first_total()
    ensures
        total_ordering(newest_first()),
{
    let r = newest_first();
    assert forall|x: VersionView| #[trigger] r(x, x) by {
        law_order_irreflexive(x);
    }
    assert forall|x: VersionView, y: VersionView| #[trigger] r(x, y) && #[trigger] r(y, x) implies x
        == y by {
        law_order_total(x, y);
    }
    assert forall|x: VersionView, y: VersionView, z: VersionView| #[trigger]
        r(x, y) && #[trigger] r(y, z) implies r(x, z) by {
        if precedes(x, z) {
            if precedes(y, x) {
                law_order_transitive(y, x, z);
            } else {
                law_order_total(x, y);
            }
        }
    }
    assert forall|x: VersionView, y: VersionView| #[trigger] r(x, y) || #[trigger] r(y, x) by {
        if precedes(x, y) && precedes(y, x) {
            law_order_transitive(x, y, x);
            law_order_irreflexive(x);
        }
    }
}

/// Appending a version that none of a ranked list succeeds keeps it ranked.
proof fn lemma_push_ranked(
    out: Seq<VersionView>,
    x: VersionView,
    leq: spec_fn(VersionView, VersionView) -> bool,
)
    requires
        sorted_by(out, leq),
        forall|k: int| 0 <= k < out.len() ==> leq(#[trigger] out[k], x),
    ensures
        sorted_by(out.push(x), leq),
{
    let s = out.push(x);
    assert forall|i: int, j: int| 0 <= i < j < s.len() implies #[trigger] leq(s[i], s[j]) by {
        if j < out.len() {
            assert(leq(out[i], out[j]));
        } else {
            assert(leq(out[i], x));
        }
    }
}

/// All versions of `out` may be listed before those of `rest` from `from` on.
spec fn before_all(
    out: Seq<VersionView>,
    rest: Seq<VersionView>,
    from: int,
    leq: spec_fn(VersionView, VersionView) -> bool,
) -> bool {
    forall|k: int, m: int|
        0 <= k < out.len() && from <= m < rest.len() ==> leq(#[trigger] out[k], #[trigger] rest[m])
}

/// One step of merging: the next version of `a` is listed.
proof fn lemma_merge_step(
    out: Seq<VersionView>,
    a: Seq<VersionView>,
    i: int,
    b: Seq<VersionView>,
    j: int,
    leq: spec_fn(VersionView, VersionView) -> bool,
)
    requires
        total_ordering(leq),
        sorted_by(out, leq),
        sorted_by(a, leq),
        sorted_by(b, leq),
        0 <= i < a.len(),
        0 <= j <= b.len(),
        before_all(out, a, i, leq),
        before_all(out, b, j, leq),
        j < b.len() ==> leq(a[i], b[j]),
    ensures
        sorted_by(out.push(a[i]), leq),
        before_all(out.push(a[i]), a, i + 1, leq),
        before_all(out.push(a[i]), b, j, leq),
        out.push(a[i]).to_multiset() == out.to_multiset().insert(a[i]),
        a.take(i + 1).to_multiset() == a.take(i).to_multiset().insert(a[i]),
{
    let x = a[i];
    let s = out.push(x);
    lemma_push_ranked(out, x, leq);
    assert forall|k: int, m: int| 0 <= k < s.len() && i + 1 <= m < a.len() implies leq(
        #[trigger] s[k],
        #[trigger] a[m],
    ) by {
        if k < out.len() {
            assert(leq(out[k], a[m]));
        }
    }
    assert forall|k: int, m: int| 0 <= k < s.len() && j <= m < b.len() implies leq(
        #[trigger] s[k],
        #[trigger] b[m],
    ) by {
        if k < out.len() {
            assert(leq(out[k], b[m]));
        } else if m > j {
            assert(leq(x, b[j]) && leq(b[j], b[m]));
        }
    }
    to_multiset_build(out, x);
    to_multiset_build(a.take(i), x);
    assert(a.take(i + 1) == a.take(i).push(x));
}

/// Merges two ranked lists.
fn merge(a: &Vec<Version>, b: &Vec<Version>) -> (r: Vec<Version>)
    requires
        all_valid(a@),
        all_valid(b@),
        sorted_by(views(a@), newest_first()),
        sorted_by(views(b@), newest_first()),
    ensures
        all_valid(r@),
        sorted_by(views(r@), newest_first()),
        views(r@).to_multiset() == views(a@).to_multiset().add(views(b@).to_multiset()),
{
    let ghost leq = newest_first();
    let ghost va = views(a@);
    let ghost vb = views(b@);
    let mut out: Vec<Version> = Vec::new();
    let mut i: usize = 0;
    let mut j: usize = 0;
    proof {
        law_newest_first_total();
        assert(va.take(0) == Seq::<VersionView>::empty());
        assert(vb.take(0) == Seq::<VersionView>::empty());
        assert(views(out@) == Seq::<VersionView>::empty());
        Seq::<VersionView>::empty().to_multiset_ensures();
        assert(Seq::<VersionView>::empty().to_multiset().add(
            Seq::<VersionView>::empty().to_multiset(),
        ) =~= Seq::<VersionView>::empty().to_multiset());
    }
    while i < a.len() || j < b.len()
        invariant
            leq == newest_first(),
            total_ordering(leq),
            va == views(a@),
            vb == views(b@),
            all_valid(a@),
            all_valid(b@),
            all_valid(out@),
            sorted_by(va, leq),
            sorted_by(vb, leq),
            i <= a@.len(),
            j <= b@.len(),
            sorted_by(views(out@), leq),
            before_all(views(out@), va, i as int, leq),
            before_all(views(out@), vb, j as int, leq),
            views(out@).to_multiset() == va.take(i as int).to_multiset().add(
                vb.take(j as int).to_multiset(),
            ),
        decreases a@.len() - i + b@.len() - j,
    {
        let take_a = if j == b.len() {
            true
        } else if i == a.len() {
            false
        } else {
            assert(a@[i as int]@.valid() && b@[j as int]@.valid());
            !a[i].precedes(&b[j])
        };
        let ghost before = views(out@);
        if take_a {
            let x = a[i].clone();
            proof {
                assert(va[i as int] == x@);
                assert(a@[i as int]@.valid());
                if j < b@.len() {
                    assert(vb[j as int] == b@[j as int]@);
                }
                lemma_merge_step(before, va, i as int, vb, j as int, leq);
                assert(views(out@.push(x)) == before.push(x@));
                assert(before.to_multiset().insert(x@) =~= va.take(i as int + 1).to_multiset().add(
                    vb.take(j as int).to_multiset(),
                ));
            }
            out.push(x);
            i += 1;
        } else {
            let x = b[j].clone();
            proof {
                assert(vb[j as int] == x@);
                assert(b@[j as int]@.valid());
                if i < a@.len() {
                    assert(va[i as int] == a@[i as int]@);
                    law_order_irreflexive(x@);
                    if precedes(x@, va[i as int]) {
                        law_order_transitive(x@, va[i as int], x@);
                    }
                }
                lemma_merge_step(before, vb, j as int, va, i as int, leq);
                assert(views(out@.push(x)) == before.push(x@));
                assert(before.to_multiset().insert(x@) =~= va.take(i as int).to_multiset().add(
                    vb.take(j as int + 1).to_multiset(),
                ));
            }
            out.push(x);
            j += 1;
        }
    }
    proof {
        assert(va.take(va.len() as int) == va);
        assert(vb.take(vb.len() as int) == vb);
    }
    out
}

/// The versions of a list, newest first.
pub fn rank(v: &[Version]) -> (r: Vec<Version>)
    requires
        all_valid(v@),
    ensures
        all_valid(r@),
        views(r@) == ranked(views(v@)),
{
    let r = rank_parts(v);
    proof {
        law_newest_first_total();
        views(v@).lemma_sort_by_ensures(newest_first());
        lemma_sorted_unique(views(r@), ranked(views(v@)), newest_first());
    }
    r
}

/// Sorts by halves.
fn rank_parts(v: &[Version]) -> (r: Vec<Version>)
    requires
        all_valid(v@),
    ensures
        all_valid(r@),
        sorted_by(views(r@), newest_first()),
        views(r@).to_multiset() == views(v@).to_multiset(),
    decreases v@.len(),
{
    if v.len() < 2 {
        let mut out: Vec<Version> = Vec::new();
        if v.len() == 1 {
            out.push(v[0].clone());
        }
        assert(views(out@) == views(v@));
        assert(all_valid(out@)) by {
            if v@.len() == 1 {
                assert(v@[0]@.valid());
            }
        }
        return out;
    }
    let middle: usize = v.len() / 2;
    let left = slice_subrange(v, 0, middle);
    let right = slice_subrange(v, middle, v.len());
    assert(all_valid(left@)) by {
        assert forall|i: int| 0 <= i < left@.len() implies (#[trigger] left@[i])@.valid() by {
            assert(left@[i] == v@[i]);
        }
    }
    assert(all_valid(right@)) by {
        assert forall|i: int| 0 <= i < right@.len() implies (#[trigger] right@[i])@.valid() by {
            assert(right@[i] == v@[middle + i]);
        }
    }
    let a = rank_parts(left);
    let b = rank_parts(right);
    proof {
        assert(views(v@) == views(left@) + views(right@));
        lemma_multiset_commutative(views(left@), views(right@));
    }
    merge(&a, &b)
}

/// The newest version of a list.
pub fn newest_of(v: &[Version]) -> (r: Option<Version>)
    requires
        all_valid(v@),
    ensures
        match r {
            Some(x) => newest(views(v@)) == Some(x@) && x@.valid(),
            None => newest(views(v@)) is None,
        },
{
    if v.len() == 0 {
        return None;
    }
    let mut best: usize = 0;
    proof {
        law_order_irreflexive(v@[0]@);
    }
    for i in 1..v.len()
        invariant
            all_valid(v@),
            best < i,
            v@.len() > 0,
            forall|j: int| 0 <= j < i ==> !precedes(v@[best as int]@, (#[trigger] v@[j])@),
    {
        assert(v@[best as int]@.valid() && v@[i as int]@.valid());
        if v[best].precedes(&v[i]) {
            proof {
                let x = v@[i as int]@;
                assert forall|j: int| 0 <= j < i + 1 implies !precedes(x, (#[trigger] v@[j])@) by {
                    if j == i {
                        law_order_irreflexive(x);
                    } else if precedes(x, v@[j]@) {
                        law_order_transitive(v@[best as int]@, x, v@[j]@);
                    }
                }
            }
            best = i;
        }
    }
    let x = v[best].clone();
    proof {
        assert(v@[best as int]@.valid());
        let s = views(v@);
        let t = ranked(s);
        law_newest_first_total();
        s.lemma_sort_by_ensures(newest_first());
        s.to_multiset_ensures();
        t.to_multiset_ensures();
        assert(s[best as int] == x@);
        assert(s.contains(x@));
        assert(t.to_multiset().count(x@) > 0);
        assert(t.contains(x@));
        let k = choose|k: int| 0 <= k < t.len() && t[k] == x@;
        assert(s.to_multiset().count(t[0]) > 0);
        assert(s.contains(t[0]));
        let m = choose|m: int| 0 <= m < s.len() && s[m] == t[0];
        assert(v@[m]@ == t[0]);
        assert(!precedes(x@, t[0]));
        if k > 0 {
            let leq = newest_first();
            assert(leq(t[0], t[k]));
            law_order_total(x@, t[0]);
        }
    }
    Some(x)
}

} // verus!
