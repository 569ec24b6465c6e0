//! What registries said, and for how long it is believed.
use vstd::prelude::*;
use crate::table::{
    distinct, lemma_map_of, lemma_map_pop, lemma_map_push, lemma_same_map, map_of, Table,
};
use crate::text::chars::{copied, copied_all, text_of, texts};

verus! {

/// Result of a version lookup from a registry.
#[derive(Debug)]
pub struct VersionResult {
    /// All stable versions that were not yanked, newest first.
    pub stable_versions: Vec<String>,
    /// The newest prerelease.
    pub prerelease: Option<String>,
}

/// A lookup result as a mathematical value.
pub struct ResultView {
    pub stable_versions: Seq<Seq<char>>,
    pub prerelease: Option<Seq<char>>,
}

impl View for VersionResult {
    type V = ResultView;

    open spec fn view(&self) -> ResultView {
        ResultView {
            stable_versions: texts(self.stable_versions@),
            prerelease: text_of(self.prerelease),
        }
    }
}

/// The result that knows no version.
pub open spec fn nothing_known() -> ResultView {
    ResultView { stable_versions: seq![], prerelease: None }
}

impl Clone for VersionResult {
    fn clone(&self) -> (r: Self)
        ensures
            r@ == self@,
    {
        VersionResult {
            stable_versions: copied_all(&self.stable_versions),
            prerelease: copied(&self.prerelease),
        }
    }
}

impl Default for VersionResult {
    fn default() -> (r: Self)
        ensures
            r@ == nothing_known(),
    {
        let r = VersionResult { stable_versions: Vec::new(), prerelease: None };
        assert(r@.stable_versions == nothing_known().stable_versions);
        r
    }
}

/// A lookup result and the time at which it came in, in nanoseconds.
#[derive(Debug)]
pub struct CacheEntry {
    pub result: VersionResult,
    pub inserted_at: u128,
}

/// The time that has passed since an earlier one; none where it is not earlier.
pub open spec fn elapsed(since: u128, now: u128) -> int {
    if since <= now {
        now - since
    } else {
        0
    }
}

/// Whether what came in at a time is still believed, for a lifetime in
/// milliseconds.
pub open spec fn is_fresh(inserted_at: u128, ttl_ms: u64, now: u128) -> bool {
    elapsed(inserted_at, now) < ttl_ms * 1_000_000
}

/// What a cache answers: the result under a key, while it is fresh.
pub open spec fn cached(
    store: Map<Seq<char>, CacheEntry>,
    ttl_ms: u64,
    key: Seq<char>,
    now: u128,
) -> Option<ResultView> {
    if store.contains_key(key) && is_fresh(store[key].inserted_at, ttl_ms, now) {
        Some(store[key].result@)
    } else {
        None
    }
}

/// The view of a result that may be absent.
pub open spec fn result_view(r: Option<VersionResult>) -> Option<ResultView> {
    match r {
        Some(v) => Some(v@),
        None => None,
    }
}

/// In-memory cache with a lifetime, and with a note of what is being fetched.
#[derive(Debug)]
pub struct VersionCache {
    /// What came in, by its key.
    pub store: Table<CacheEntry>,
    /// The keys whose results are being fetched.
    pub inflight: Table<()>,
    /// Lifetime in milliseconds.
    pub ttl_ms: u64,
}

/// What someone who needs a result is to do.
#[derive(Debug)]
pub enum ResolveStep {
    /// It is known.
    Return(VersionResult),
    /// Somebody else is fetching it.
    Wait,
    /// Fetch it.
    Fetch,
}

/// What someone who needs a result is to do, as a mathematical value.
pub enum StepView {
    Return(ResultView),
    Wait,
    Fetch,
}

impl View for ResolveStep {
    type V = StepView;

    open spec fn view(&self) -> StepView {
        match self {
            ResolveStep::Return(result) => StepView::Return(result@),
            ResolveStep::Wait => StepView::Wait,
            ResolveStep::Fetch => StepView::Fetch,
        }
    }
}

/// What is to be done about a key: return a cached result, wait for a fetch
/// that is under way, or fetch.
pub open spec fn step(
    store: Map<Seq<char>, CacheEntry>,
    inflight: Map<Seq<char>, ()>,
    ttl_ms: u64,
    key: Seq<char>,
    now: u128,
) -> StepView {
    match cached(store, ttl_ms, key, now) {
        Some(known) => StepView::Return(known),
        None => if inflight.contains_key(key) {
            StepView::Wait
        } else {
            StepView::Fetch
        },
    }
}

/// Whether what came in at a time is still believed.
pub fn fresh(inserted_at: u128, ttl_ms: u64, now: u128) -> (r: bool)
    ensures
        r == is_fresh(inserted_at, ttl_ms, now),
{
    let passed: u128 = if inserted_at <= now {
        now - inserted_at
    } else {
        0
    };
    passed < (ttl_ms as u128) * 1_000_000
}

impl VersionCache {
    /// The tables are tables.
    pub open spec fn wf(self) -> bool {
        self.store.wf() && self.inflight.wf()
    }

    /// What the cache answers.
    pub open spec fn answer(self, key: Seq<char>, now: u128) -> Option<ResultView> {
        cached(self.store@, self.ttl_ms, key, now)
    }

    /// An empty cache.
    pub fn new(ttl_ms: u64) -> (r: Self)
        ensures
            r.wf(),
            r.store@ == Map::<Seq<char>, CacheEntry>::empty(),
            r.inflight@ == Map::<Seq<char>, ()>::empty(),
            r.ttl_ms == ttl_ms,
    {
        VersionCache { store: Table::new(), inflight: Table::new(), ttl_ms }
    }

    /// Sets the lifetime for lookups from now on. Entries stay.
    pub fn update_ttl(&mut self, secs: u64)
        ensures
            final(self).store == old(self).store,
            final(self).inflight == old(self).inflight,
            final(self).ttl_ms == (if secs * 1_000 <= u64::MAX {
                secs * 1_000
            } else {
                u64::MAX as int
            }),
    {
        self.ttl_ms = if secs > u64::MAX / 1_000 {
            u64::MAX
        } else {
            secs * 1_000
        };
    }

    /// Gets a cached result if there is one that has not expired.
    pub fn get(&self, key: &str, now: u128) -> (r: Option<VersionResult>)
        requires
            self.wf(),
        ensures
            result_view(r) == self.answer(key@, now),
    {
        match self.store.get(key) {
            Some(entry) => if fresh(entry.inserted_at, self.ttl_ms, now) {
                Some(entry.result.clone())
            } else {
                None
            },
            None => None,
        }
    }

    /// Inserts or updates a cache entry.
    pub fn set(&mut self, key: &str, result: VersionResult, now: u128)
        requires
            old(self).wf(),
        ensures
            final(self).wf(),
            final(self).store@ == old(self).store@.insert(
                key@,
                (CacheEntry { result, inserted_at: now }),
            ),
            final(self).inflight == old(self).inflight,
            final(self).ttl_ms == old(self).ttl_ms,
    {
        self.store.insert(key, CacheEntry { result, inserted_at: now });
    }

    /// Whether the cache holds no entry, fresh or not.
    pub fn is_empty(&self) -> (r: bool)
        ensures
            r == (self.store@ == Map::<Seq<char>, CacheEntry>::empty()),
    {
        self.store.is_empty()
    }

    /// Removes all entries that have expired.
    pub fn purge_expired(&mut self, now: u128)
        requires
            old(self).wf(),
        ensures
            final(self).wf(),
            final(self).store@ == fresh_entries(old(self).store@, old(self).ttl_ms, now),
            final(self).inflight == old(self).inflight,
            final(self).ttl_ms == old(self).ttl_ms,
    {
        let ttl_ms: u64 = self.ttl_ms;
        let ghost all = self.store@;
        let mut kept: Table<CacheEntry> = Table::new();
        proof {
            lemma_same_map(kept@, fresh_entries(Map::empty(), ttl_ms, now));
        }
        let mut rest: Vec<(String, CacheEntry)> = Vec::new();
        std::mem::swap(&mut rest, &mut self.store.entries);
        let ghost mut taken = Map::<Seq<char>, CacheEntry>::empty();
        proof {
            lemma_map_of(rest@);
        }
        while rest.len() > 0
            invariant
                kept.wf(),
                distinct(rest@),
                kept@ == fresh_entries(taken, ttl_ms, now),
                forall|k: Seq<char>|
                    #![trigger taken.contains_key(k)]
                    #![trigger map_of(rest@).contains_key(k)]
                    !(taken.contains_key(k) && map_of(rest@).contains_key(k)),
                forall|k: Seq<char>| #[trigger]
                    all.contains_key(k) == (taken.contains_key(k) || map_of(rest@).contains_key(k)),
                forall|k: Seq<char>| #[trigger] taken.contains_key(k) ==> taken[k] == all[k],
                forall|k: Seq<char>| #[trigger]
                    map_of(rest@).contains_key(k) ==> map_of(rest@)[k] == all[k],
            decreases rest@.len(),
        {
            let ghost before = rest@;
            let ghost old_taken = taken;
            let ghost old_kept = kept@;
            let e = rest.pop().unwrap();
            proof {
                lemma_map_pop(before);
                assert(rest@ == before.drop_last());
                assert(e == before.last());
                assert(map_of(before).contains_key(e.0@));
                taken = old_taken.insert(e.0@, e.1);
                assert(!kept@.contains_key(e.0@));
                assert forall|k: Seq<char>| #[trigger]
                    map_of(rest@).contains_key(k) implies map_of(rest@)[k] == all[k] by {
                    assert(k != e.0@);
                    assert(map_of(before).contains_key(k));
                    assert(map_of(before)[k] == map_of(rest@)[k]);
                }
            }
            if fresh(e.1.inserted_at, ttl_ms, now) {
                proof {
                    lemma_map_push(kept.entries@, e);
                    lemma_same_map(
                        old_kept.insert(e.0@, e.1),
                        fresh_entries(taken, ttl_ms, now),
                    );
                }
                kept.entries.push(e);
            } else {
                proof {
                    lemma_same_map(old_kept, fresh_entries(taken, ttl_ms, now));
                }
            }
        }
        proof {
            assert forall|k: Seq<char>| !map_of(rest@).contains_key(k) by {}
            assert forall|k: Seq<char>|
                #![trigger taken.contains_key(k)]
                #![trigger all.contains_key(k)]
                taken.contains_key(k) == all.contains_key(k) && (taken.contains_key(k) ==> taken[k]
                    == all[k]) by {
                assert(!map_of(rest@).contains_key(k));
                assert(all.contains_key(k) == (taken.contains_key(k) || map_of(
                    rest@,
                ).contains_key(k)));
            }
            lemma_same_map(taken, all);
        }
        self.store = kept;
    }

    /// Starts to resolve a key: a cached result is returned, a fetch that is
    /// under way is waited for, and otherwise a fetch is noted and begun.
    pub fn start_resolve(&mut self, key: &str, now: u128) -> (r: ResolveStep)
        requires
            old(self).wf(),
        ensures
            final(self).wf(),
            final(self).store == old(self).store,
            final(self).ttl_ms == old(self).ttl_ms,
            r@ == step(old(self).store@, old(self).inflight@, old(self).ttl_ms, key@, now),
            final(self).inflight@ == (if r@ is Fetch {
                old(self).inflight@.insert(key@, ())
            } else {
                old(self).inflight@
            }),
    {
        if let Some(known) = self.get(key, now) {
            return ResolveStep::Return(known);
        }
        if self.inflight.contains(key) {
            return ResolveStep::Wait;
        }
        self.inflight.insert(key, ());
        ResolveStep::Fetch
    }

    /// Takes over a fetch that was waited for in vain.
    pub fn take_over(&mut self, key: &str)
        requires
            old(self).wf(),
        ensures
            final(self).wf(),
            final(self).store == old(self).store,
            final(self).ttl_ms == old(self).ttl_ms,
            final(self).inflight@ == old(self).inflight@.insert(key@, ()),
    {
        self.inflight.insert(key, ());
    }

    /// Ends a fetch: its result is cached, and it is no longer under way.
    pub fn finish_resolve(&mut self, key: &str, result: VersionResult, now: u128)
        requires
            old(self).wf(),
        ensures
            final(self).wf(),
            final(self).store@ == old(self).store@.insert(
                key@,
                (CacheEntry { result, inserted_at: now }),
            ),
            final(self).ttl_ms == old(self).ttl_ms,
            final(self).inflight@ == old(self).inflight@.remove(key@),
    {
        self.set(key, result, now);
        self.inflight.remove(key);
    }
}

/// The entries that have not expired.
pub open spec fn fresh_entries(
    store: Map<Seq<char>, CacheEntry>,
    ttl_ms: u64,
    now: u128,
) -> Map<Seq<char>, CacheEntry> {
    Map::new(
        |k: Seq<char>| store.contains_key(k) && is_fresh(store[k].inserted_at, ttl_ms, now),
        |k: Seq<char>| store[k],
    )
}

/// What was set is got back until its lifetime is over.
pub proof fn law_get_after_set(
    store: Map<Seq<char>, CacheEntry>,
    ttl_ms: u64,
    key: Seq<char>,
    entry: CacheEntry,
    now: u128,
)
    ensures
        cached(store.insert(key, entry), ttl_ms, key, now) == (if is_fresh(
            entry.inserted_at,
            ttl_ms,
            now,
        ) {
            Some(entry.result@)
        } else {
            None
        }),
{
}

/// Setting one key leaves the answers under the others alone.
pub proof fn law_set_leaves_others(
    store: Map<Seq<char>, CacheEntry>,
    ttl_ms: u64,
    key: Seq<char>,
    entry: CacheEntry,
    other: Seq<char>,
    now: u128,
)
    requires
        other != key,
    ensures
        cached(store.insert(key, entry), ttl_ms, other, now) == cached(store, ttl_ms, other, now),
{
}

/// With no lifetime nothing is ever answered.
pub proof fn law_no_lifetime(store: Map<Seq<char>, CacheEntry>, key: Seq<char>, now: u128)
    ensures
        cached(store, 0, key, now) is None,
{
}

/// Purging changes no answer, then or later.
pub proof fn law_purge_keeps_answers(
    store: Map<Seq<char>, CacheEntry>,
    ttl_ms: u64,
    purged_at: u128,
    key: Seq<char>,
    now: u128,
)
    requires
        purged_at <= now,
    ensures
        cached(fresh_entries(store, ttl_ms, purged_at), ttl_ms, key, now) == cached(
            store,
            ttl_ms,
            key,
            now,
        ),
{
}

/// What is cached is not fetched.
pub proof fn law_hit_never_fetches(
    store: Map<Seq<char>, CacheEntry>,
    inflight: Map<Seq<char>, ()>,
    ttl_ms: u64,
    key: Seq<char>,
    now: u128,
)
    requires
        cached(store, ttl_ms, key, now) is Some,
    ensures
        step(store, inflight, ttl_ms, key, now) == StepView::Return(
            cached(store, ttl_ms, key, now)->0,
        ),
{
}

/// While a fetch is under way, nobody else fetches the same.
pub proof fn law_single_fetch(
    store: Map<Seq<char>, CacheEntry>,
    inflight: Map<Seq<char>, ()>,
    ttl_ms: u64,
    key: Seq<char>,
    now: u128,
    later: u128,
)
    requires
        step(store, inflight, ttl_ms, key, now) is Fetch,
        now <= later,
    ensures
        step(store, inflight.insert(key, ()), ttl_ms, key, later) is Wait,
{
}

/// What was fetched is returned to whoever asks next, and the key is free to
/// be fetched again once it has expired.
pub proof fn law_fetched_is_returned(
    store: Map<Seq<char>, CacheEntry>,
    inflight: Map<Seq<char>, ()>,
    ttl_ms: u64,
    key: Seq<char>,
    entry: CacheEntry,
    now: u128,
)
    ensures
        step(store.insert(key, entry), inflight.remove(key), ttl_ms, key, now) == (if is_fresh(
            entry.inserted_at,
            ttl_ms,
            now,
        ) {
            StepView::Return(entry.result@)
        } else {
            StepView::Fetch
        }),
{
}

/// A longer lifetime loses no answer.
pub proof fn law_longer_lifetime(
    store: Map<Seq<char>, CacheEntry>,
    shorter: u64,
    longer: u64,
    key: Seq<char>,
    now: u128,
)
    requires
        shorter <= longer,
        cached(store, shorter, key, now) is Some,
    ensures
        cached(store, longer, key, now) == cached(store, shorter, key, now),
{
}

/// A cache answers exactly with what is stored under the key, for as many
/// milliseconds from the time at which it came in as its lifetime says. Times count
/// nanoseconds.
pub proof fn law_answer_by_time(
    store: Map<Seq<char>, CacheEntry>,
    ttl_ms: u64,
    key: Seq<char>,
    now: u128,
)
    ensures
        ({
            let alive = store.contains_key(key) && ttl_ms > 0 && now < store[key].inserted_at
                + ttl_ms * 1_000_000;
            &&& cached(store, ttl_ms, key, now) is Some <==> alive
            &&& alive ==> cached(store, ttl_ms, key, now) == Some(store[key].result@)
        }),
{
}

/// What is fetched, waited for or returned, by what is stored and what is under way.
pub proof fn law_step_by_time(
    store: Map<Seq<char>, CacheEntry>,
    inflight: Map<Seq<char>, ()>,
    ttl_ms: u64,
    key: Seq<char>,
    now: u128,
)
    ensures
        ({
            let alive = store.contains_key(key) && ttl_ms > 0 && now < store[key].inserted_at
                + ttl_ms * 1_000_000;
            let step = step(store, inflight, ttl_ms, key, now);
            &&& alive ==> step == StepView::Return(store[key].result@)
            &&& !alive && inflight.contains_key(key) ==> step is Wait
            &&& !alive && !inflight.contains_key(key) ==> step is Fetch
        }),
{
}

/// Purging keeps exactly the entries whose lifetime is not over, as they are.
pub proof fn law_purge_by_time(
    store: Map<Seq<char>, CacheEntry>,
    ttl_ms: u64,
    key: Seq<char>,
    now: u128,
)
    ensures
        fresh_entries(store, ttl_ms, now).contains_key(key) <==> store.contains_key(key) && ttl_ms
            > 0 && now < store[key].inserted_at + ttl_ms * 1_000_000,
        fresh_entries(store, ttl_ms, now).contains_key(key) ==> fresh_entries(
            store,
            ttl_ms,
            now,
        )[key] == store[key],
{
}

} // verus!
