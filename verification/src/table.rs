//! Tables with text keys.
use vstd::prelude::*;
use crate::text::chars::{owned, same_str};

verus! {

/// A table from texts to values. No key occurs twice.
#[derive(Debug)]
pub struct Table<V> {
    pub entries: Vec<(String, V)>,
}

/// Entry `i` has the key `k`.
pub open spec fn has_key<V>(entries: Seq<(String, V)>, k: Seq<char>, i: int) -> bool {
    0 <= i < entries.len() && entries[i].0@ == k
}

/// The map that some entries make up.
pub open spec fn map_of<V>(entries: Seq<(String, V)>) -> Map<Seq<char>, V> {
    Map::new(
        |k: Seq<char>| exists|i: int| has_key(entries, k, i),
        |k: Seq<char>| entries[choose|i: int| has_key(entries, k, i)].1,
    )
}

/// No key occurs twice.
pub open spec fn distinct<V>(entries: Seq<(String, V)>) -> bool {
    forall|i: int, j: int|
        0 <= i < j < entries.len() ==> (#[trigger] entries[i]).0@ != (#[trigger] entries[j]).0@
}

impl<V> View for Table<V> {
    type V = Map<Seq<char>, V>;

    open spec fn view(&self) -> Map<Seq<char>, V> {
        map_of(self.entries@)
    }
}

/// What a map of distinct entries holds.
pub proof fn lemma_map_of<V>(entries: Seq<(String, V)>)
    requires
        distinct(entries),
    ensures
        forall|i: int|
            0 <= i < entries.len() ==> map_of(entries).contains_key((#[trigger] entries[i]).0@)
                && map_of(entries)[entries[i].0@] == entries[i].1,
        forall|k: Seq<char>| #[trigger]
            map_of(entries).contains_key(k) ==> exists|i: int| has_key(entries, k, i),
{
    assert forall|i: int| 0 <= i < entries.len() implies map_of(entries).contains_key(
        (#[trigger] entries[i]).0@,
    ) && map_of(entries)[entries[i].0@] == entries[i].1 by {
        let k = entries[i].0@;
        assert(has_key(entries, k, i));
        let j = choose|j: int| has_key(entries, k, j);
        assert(i == j);
    }
}

/// Maps with the same keys and values are the same.
pub proof fn lemma_same_map<V>(a: Map<Seq<char>, V>, b: Map<Seq<char>, V>)
    requires
        forall|k: Seq<char>|
            #![trigger a.contains_key(k)]
            #![trigger b.contains_key(k)]
            a.contains_key(k) == b.contains_key(k) && (a.contains_key(k) ==> a[k] == b[k]),
    ensures
        a == b,
{
    assert(a.dom() =~= b.dom()) by {
        assert forall|k: Seq<char>| a.dom().contains(k) == b.dom().contains(k) by {
            assert(a.contains_key(k) == b.contains_key(k));
        }
    }
    assert forall|k: Seq<char>| #[trigger] a.dom().contains(k) implies a[k] == b[k] by {
        assert(a.contains_key(k));
    }
    assert(a =~= b);
}

/// Entries with one more, whose key is new.
pub proof fn lemma_map_push<V>(entries: Seq<(String, V)>, e: (String, V))
    requires
        distinct(entries),
        !map_of(entries).contains_key(e.0@),
    ensures
        distinct(entries.push(e)),
        map_of(entries.push(e)) == map_of(entries).insert(e.0@, e.1),
{
    let more = entries.push(e);
    assert forall|i: int, j: int| 0 <= i < j < more.len() implies (#[trigger] more[i]).0@ != (
    #[trigger] more[j]).0@ by {
        if j == entries.len() {
            assert(has_key(entries, more[i].0@, i));
        }
    }
    lemma_map_of(entries);
    lemma_map_of(more);
    let a = map_of(more);
    let b = map_of(entries).insert(e.0@, e.1);
    assert forall|k: Seq<char>|
        #![trigger a.contains_key(k)]
        #![trigger b.contains_key(k)]
        a.contains_key(k) == b.contains_key(k) && (a.contains_key(k) ==> a[k] == b[k]) by {
        if a.contains_key(k) {
            let i = choose|i: int| has_key(more, k, i);
            assert(a[more[i].0@] == more[i].1);
            if i < entries.len() {
                assert(entries[i] == more[i]);
                assert(has_key(entries, k, i));
            }
        }
        if b.contains_key(k) {
            if k == e.0@ {
                assert(has_key(more, k, entries.len() as int));
            } else {
                let i = choose|i: int| has_key(entries, k, i);
                assert(has_key(more, k, i));
            }
        }
    }
    lemma_same_map(a, b);
}

/// Entries without the last.
pub proof fn lemma_map_pop<V>(entries: Seq<(String, V)>)
    requires
        entries.len() > 0,
        distinct(entries),
    ensures
        distinct(entries.drop_last()),
        !map_of(entries.drop_last()).contains_key(entries.last().0@),
        map_of(entries) == map_of(entries.drop_last()).insert(entries.last().0@, entries.last().1),
{
    let rest = entries.drop_last();
    let e = entries.last();
    if map_of(rest).contains_key(e.0@) {
        let i = choose|i: int| has_key(rest, e.0@, i);
        assert(entries[i].0@ != entries[entries.len() - 1].0@);
    }
    assert(rest.push(e) == entries);
    lemma_map_push(rest, e);
}

impl<V> Table<V> {
    /// No key occurs twice.
    pub open spec fn wf(self) -> bool {
        distinct(self.entries@)
    }

    /// An empty table.
    pub fn new() -> (r: Self)
        ensures
            r.wf(),
            r@ == Map::<Seq<char>, V>::empty(),
    {
        let r = Table { entries: Vec::new() };
        assert(r@ =~= Map::<Seq<char>, V>::empty()) by {
            assert forall|k: Seq<char>| !r@.contains_key(k) by {}
        }
        r
    }

    /// The place of a key.
    fn position(&self, key: &str) -> (r: Option<usize>)
        requires
            self.wf(),
        ensures
            match r {
                Some(i) => i < self.entries@.len() && self.entries@[i as int].0@ == key@
                    && self@.contains_key(key@) && self@[key@] == self.entries@[i as int].1,
                None => !self@.contains_key(key@),
            },
    {
        proof {
            lemma_map_of(self.entries@);
        }
        for i in 0..self.entries.len()
            invariant
                self.wf(),
                forall|j: int| 0 <= j < i ==> (#[trigger] self.entries@[j]).0@ != key@,
        {
            if same_str(self.entries[i].0.as_str(), key) {
                proof {
                    lemma_map_of(self.entries@);
                }
                return Some(i);
            }
        }
        None
    }

    /// The value under a key.
    pub fn get(&self, key: &str) -> (r: Option<&V>)
        requires
            self.wf(),
        ensures
            match r {
                Some(v) => self@.contains_key(key@) && self@[key@] == *v,
                None => !self@.contains_key(key@),
            },
    {
        match self.position(key) {
            Some(i) => Some(&self.entries[i].1),
            None => None,
        }
    }

    /// Whether a key occurs.
    pub fn contains(&self, key: &str) -> (r: bool)
        requires
            self.wf(),
        ensures
            r == self@.contains_key(key@),
    {
        match self.position(key) {
            Some(i) => true,
            None => false,
        }
    }

    /// Removes a key, if it occurs.
    pub fn remove(&mut self, key: &str)
        requires
            old(self).wf(),
        ensures
            final(self).wf(),
            final(self)@ == old(self)@.remove(key@),
    {
        let ghost before = self.entries@;
        match self.position(key) {
            Some(i) => {
                let gone = self.entries.swap_remove(i);
                proof {
                    let now = self.entries@;
                    let n = before.len() - 1;
                    assert(now == before.update(i as int, before.last()).drop_last());
                    assert(distinct(now)) by {
                        assert forall|a: int, b: int| 0 <= a < b < now.len() implies (
                        #[trigger] now[a]).0@ != (#[trigger] now[b]).0@ by {
                            assert(before[a].0@ != before[b].0@);
                            if a == i {
                                assert(before[b].0@ != before[n].0@);
                            } else if b == i {
                                assert(before[a].0@ != before[n].0@);
                            }
                        }
                    }
                    lemma_map_of(before);
                    lemma_map_of(now);
                    let a = map_of(now);
                    let b = map_of(before).remove(key@);
                    assert forall|k: Seq<char>|
                        #![trigger a.contains_key(k)]
                        #![trigger b.contains_key(k)]
                        a.contains_key(k) == b.contains_key(k) && (a.contains_key(k) ==> a[k]
                            == b[k]) by {
                        if a.contains_key(k) {
                            let x = choose|x: int| has_key(now, k, x);
                            let y = if x == i {
                                n
                            } else {
                                x
                            };
                            assert(now[x] == before[y]);
                            assert(has_key(before, k, y));
                            assert(y != i);
                            assert(before[y].0@ != before[i as int].0@);
                        }
                        if b.contains_key(k) {
                            let y = choose|y: int| has_key(before, k, y);
                            let x = if y == n {
                                i as int
                            } else {
                                y
                            };
                            assert(now[x] == before[y]);
                            assert(has_key(now, k, x));
                        }
                    }
                    lemma_same_map(a, b);
                }
            },
            None => {
                assert(self@ =~= old(self)@.remove(key@));
            },
        }
    }

    /// Puts a value under a key, in place of the one there may be.
    pub fn insert(&mut self, key: &str, value: V)
        requires
            old(self).wf(),
        ensures
            final(self).wf(),
            final(self)@ == old(self)@.insert(key@, value),
    {
        self.remove(key);
        let ghost before = self.entries@;
        let e: (String, V) = (owned(key), value);
        proof {
            lemma_map_push(before, e);
        }
        self.entries.push(e);
        assert(self@ =~= old(self)@.insert(key@, value));
    }

    /// Whether the table holds nothing.
    pub fn is_empty(&self) -> (r: bool)
        ensures
            r == (self@ == Map::<Seq<char>, V>::empty()),
    {
        let r = self.entries.len() == 0;
        proof {
            if r {
                assert forall|k: Seq<char>| !self@.contains_key(k) by {}
                assert(self@ =~= Map::<Seq<char>, V>::empty());
            } else {
                assert(has_key(self.entries@, self.entries@[0].0@, 0));
                assert(self@.contains_key(self.entries@[0].0@));
            }
        }
        r
    }
}

} // verus!
