//! Lists built from numbered items: the first that fits, and all that fit.
use vstd::prelude::*;

verus! {

/// The smallest number below `n` that satisfies `f`.
pub open spec fn is_least(n: int, f: spec_fn(int) -> bool, i: int) -> bool {
    0 <= i < n && f(i) && forall|j: int| 0 <= j < i ==> !#[trigger] f(j)
}

/// The smallest number below `n` that satisfies `f`, if there is one.
pub open spec fn least(n: int, f: spec_fn(int) -> bool) -> Option<int> {
    if exists|i: int| 0 <= i < n && #[trigger] f(i) {
        Some(choose|i: int| is_least(n, f, i))
    } else {
        None
    }
}

/// What `f` gives for the numbers below `n`, in order, where it gives anything.
pub open spec fn gather<R>(n: int, f: spec_fn(int) -> Option<R>) -> Seq<R>
    decreases n,
{
    if n <= 0 {
        seq![]
    } else {
        match f(n - 1) {
            Some(r) => gather(n - 1, f).push(r),
            None => gather(n - 1, f),
        }
    }
}

/// The lists that `f` gives for the numbers below `n`, one after the other.
pub open spec fn join<R>(n: int, f: spec_fn(int) -> Seq<R>) -> Seq<R>
    decreases n,
{
    if n <= 0 {
        seq![]
    } else {
        join(n - 1, f) + f(n - 1)
    }
}

proof fn lemma_least_exists(n: int, f: spec_fn(int) -> bool, i: int) -> (k: int)
    requires
        0 <= i < n,
        f(i),
    ensures
        is_least(n, f, k),
    decreases i,
{
    if forall|j: int| 0 <= j < i ==> !#[trigger] f(j) {
        i
    } else {
        let j = choose|j: int| 0 <= j < i && #[trigger] f(j);
        lemma_least_exists(n, f, j)
    }
}

/// What `least` gives.
pub proof fn lemma_least(n: int, f: spec_fn(int) -> bool)
    ensures
        match least(n, f) {
            Some(i) => is_least(n, f, i),
            None => forall|i: int| 0 <= i < n ==> !#[trigger] f(i),
        },
{
    if exists|i: int| 0 <= i < n && #[trigger] f(i) {
        let i = choose|i: int| 0 <= i < n && #[trigger] f(i);
        let k = lemma_least_exists(n, f, i);
        assert(is_least(n, f, k));
    }
}

/// The least number is the one that `least` gives.
pub proof fn lemma_least_is(n: int, f: spec_fn(int) -> bool, i: int)
    requires
        is_least(n, f, i),
    ensures
        least(n, f) == Some(i),
{
    lemma_least(n, f);
    let k = least(n, f)->0;
    if i < k {
        assert(f(i));
    } else if k < i {
        assert(f(k));
    }
}

/// Every item of a gathered list was given for some number.
pub proof fn lemma_gather<R>(n: int, f: spec_fn(int) -> Option<R>, k: int)
    requires
        0 <= k < gather(n, f).len(),
    ensures
        exists|i: int| 0 <= i < n && #[trigger] f(i) == Some(gather(n, f)[k]),
    decreases n,
{
    let before = gather(n - 1, f);
    if f(n - 1) is Some && k == before.len() {
        assert(f(n - 1) == Some(gather(n, f)[k]));
    } else {
        lemma_gather(n - 1, f, k);
        let i = choose|i: int| 0 <= i < n - 1 && #[trigger] f(i) == Some(before[k]);
        assert(f(i) == Some(gather(n, f)[k]));
    }
}

/// What is given for a number is in the gathered list.
pub proof fn lemma_gathered<R>(n: int, f: spec_fn(int) -> Option<R>, i: int)
    requires
        0 <= i < n,
        f(i) is Some,
    ensures
        exists|k: int| 0 <= k < gather(n, f).len() && #[trigger] gather(n, f)[k] == f(i)->0,
    decreases n,
{
    let before = gather(n - 1, f);
    if i < n - 1 {
        lemma_gathered(n - 1, f, i);
        let k = choose|k: int| 0 <= k < before.len() && #[trigger] before[k] == f(i)->0;
        assert(gather(n, f)[k] == before[k]);
    } else {
        assert(gather(n, f)[before.len() as int] == f(i)->0);
    }
}

/// Every item of a joined list stands in one of its parts.
pub proof fn lemma_join<R>(n: int, f: spec_fn(int) -> Seq<R>, k: int)
    requires
        0 <= k < join(n, f).len(),
    ensures
        exists|i: int, j: int|
            0 <= i < n && 0 <= j < f(i).len() && #[trigger] f(i)[j] == join(n, f)[k],
    decreases n,
{
    let before = join(n - 1, f);
    if k < before.len() {
        lemma_join(n - 1, f, k);
        let (i, j) = choose|i: int, j: int|
            0 <= i < n - 1 && 0 <= j < f(i).len() && #[trigger] f(i)[j] == before[k];
        assert(f(i)[j] == join(n, f)[k]);
    } else {
        assert(f(n - 1)[k - before.len()] == join(n, f)[k]);
    }
}

/// Every item of a part stands in the joined list.
pub proof fn lemma_joined<R>(n: int, f: spec_fn(int) -> Seq<R>, i: int, j: int)
    requires
        0 <= i < n,
        0 <= j < f(i).len(),
    ensures
        exists|k: int| 0 <= k < join(n, f).len() && #[trigger] join(n, f)[k] == f(i)[j],
    decreases n,
{
    let before = join(n - 1, f);
    if i < n - 1 {
        lemma_joined(n - 1, f, i, j);
        let k = choose|k: int| 0 <= k < before.len() && #[trigger] before[k] == f(i)[j];
        assert(join(n, f)[k] == before[k]);
    } else {
        assert(join(n, f)[before.len() + j] == f(i)[j]);
    }
}

} // verus!
