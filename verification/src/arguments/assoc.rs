//! A small map from names to values, kept as a list of distinct keys.

use vstd::prelude::*;

verus! {

/// A key that can be compared by its view.
pub trait SameKey: View + Sized {
    /// Whether `self` and `other` are the same key.
    fn same_key(&self, other: &Self) -> (same: bool)
        ensures
            same == (self@ == other@);
}

impl SameKey for String {
    fn same_key(&self, other: &Self) -> (same: bool) {
        *self == *other
    }
}

impl SameKey for (String, String) {
    fn same_key(&self, other: &Self) -> (same: bool) {
        self.0 == other.0 && self.1 == other.1
    }
}

/// A map from keys to values: each key occurs in at most one entry.
pub struct AssocList<K, V> {
    entries: Vec<(K, V)>,
}

impl<K: SameKey, V: View> AssocList<K, V> {
    /// No key occurs twice.
    pub closed spec fn wf(&self) -> bool {
        forall|i: int, j: int|
            0 <= i < self.entries@.len() && 0 <= j < self.entries@.len() && #[trigger] self.entries@[i].0@
                == #[trigger] self.entries@[j].0@ ==> i == j
    }

    /// Whether some entry has key `k`.
    pub closed spec fn has(&self, k: K::V) -> bool {
        exists|i: int| 0 <= i < self.entries@.len() && #[trigger] self.entries@[i].0@ == k
    }

    /// The value of key `k`.
    pub closed spec fn value_of(&self, k: K::V) -> V::V {
        self.entries@[choose|i: int| 0 <= i < self.entries@.len() && #[trigger] self.entries@[i].0@ == k].1@
    }

    /// The map the entries make.
    pub closed spec fn map(&self) -> Map<K::V, V::V> {
        Map::new(|k: K::V| self.has(k), |k: K::V| self.value_of(k))
    }

    /// The map gives each entry's key that entry's value.
    proof fn lemma_value_at(&self, i: int)
        requires
            self.wf(),
            0 <= i < self.entries@.len(),
        ensures
            self.map().dom().contains(self.entries@[i].0@),
            self.map()[self.entries@[i].0@] == self.entries@[i].1@,
    {
        let k = self.entries@[i].0@;
        assert(self.has(k));
        let c = choose|c: int| 0 <= c < self.entries@.len() && #[trigger] self.entries@[c].0@ == k;
        assert(self.entries@[c].0@ == k);
    }

    /// An empty map.
    pub fn new() -> (list: Self)
        ensures
            list.wf(),
            list.map() == Map::<K::V, V::V>::empty(),
    {
        let list = AssocList { entries: Vec::new() };
        assert(list.map() =~= Map::<K::V, V::V>::empty());
        list
    }

    /// The value of `key`, if it has one.
    #[verifier::loop_isolation(false)]
    pub fn get(&self, key: &K) -> (found: Option<&V>)
        requires
            self.wf(),
        ensures
            match found {
                Some(v) => self.map().dom().contains(key@) && self.map()[key@] == v@,
                None => !self.map().dom().contains(key@),
            },
    {
        let mut i: usize = 0;
        while i < self.entries.len()
            invariant
                i <= self.entries@.len(),
                forall|j: int| 0 <= j < i ==> #[trigger] self.entries@[j].0@ != key@,
            decreases self.entries@.len() - i,
        {
            if self.entries[i].0.same_key(key) {
                proof {
                    self.lemma_value_at(i as int);
                }
                return Some(&self.entries[i].1);
            }
            i = i + 1;
        }
        None
    }

    /// Give `key` the value `value`, replacing any it had.
    #[verifier::loop_isolation(false)]
    pub fn insert(&mut self, key: K, value: V)
        requires
            old(self).wf(),
        ensures
            final(self).wf(),
            final(self).map() == old(self).map().insert(key@, value@),
    {
        let ghost k = key@;
        let ghost v = value@;
        let mut i: usize = 0;
        while i < self.entries.len()
            invariant
                i <= self.entries@.len(),
                forall|j: int| 0 <= j < i ==> #[trigger] self.entries@[j].0@ != key@,
            decreases self.entries@.len() - i,
        {
            if self.entries[i].0.same_key(&key) {
                break;
            }
            i = i + 1;
        }
        let ghost before = *self;
        if i < self.entries.len() {
            self.entries.set(i, (key, value));
            proof {
                assert forall|a: int, b: int|
                    0 <= a < self.entries@.len() && 0 <= b < self.entries@.len()
                        && #[trigger] self.entries@[a].0@ == #[trigger] self.entries@[b].0@
                    implies a == b by {
                    if a != i as int {
                        assert(before.entries@[a] == self.entries@[a]);
                    }
                    if b != i as int {
                        assert(before.entries@[b] == self.entries@[b]);
                    }
                    assert(before.entries@[a].0@ == self.entries@[a].0@);
                    assert(before.entries@[b].0@ == self.entries@[b].0@);
                }
                self.lemma_same_map_after_set(before, i as int, k, v);
            }
        } else {
            self.entries.push((key, value));
            proof {
                self.lemma_same_map_after_push(before, k, v);
            }
        }
    }

    /// Replacing the value of an existing key changes the map at that key only.
    proof fn lemma_same_map_after_set(&self, before: Self, i: int, k: K::V, v: V::V)
        requires
            before.wf(),
            self.wf(),
            0 <= i < before.entries@.len(),
            before.entries@[i].0@ == k,
            self.entries@.len() == before.entries@.len(),
            self.entries@[i].0@ == k,
            self.entries@[i].1@ == v,
            forall|j: int| 0 <= j < before.entries@.len() && j != i ==> #[trigger] self.entries@[j] == before.entries@[j],
        ensures
            self.map() == before.map().insert(k, v),
    {
        assert forall|key: K::V| #[trigger] self.map().dom().contains(key) <==> before.map().insert(k, v).dom().contains(key) by {
            if self.has(key) {
                let c = choose|c: int| 0 <= c < self.entries@.len() && #[trigger] self.entries@[c].0@ == key;
                if c != i {
                    assert(before.entries@[c].0@ == key);
                }
            }
            if before.has(key) {
                let c = choose|c: int| 0 <= c < before.entries@.len() && #[trigger] before.entries@[c].0@ == key;
                if c != i {
                    assert(self.entries@[c].0@ == key);
                }
            }
            if key == k {
                assert(self.entries@[i].0@ == key);
            }
        }
        assert forall|key: K::V| #[trigger] self.map().dom().contains(key) implies self.map()[key] == before.map().insert(k, v)[key] by {
            let c = choose|c: int| 0 <= c < self.entries@.len() && #[trigger] self.entries@[c].0@ == key;
            assert(self.entries@[c].0@ == key);
            self.lemma_value_at(c);
            if c != i {
                assert(before.entries@[c] == self.entries@[c]);
                before.lemma_value_at(c);
            }
        }
        assert(self.map() =~= before.map().insert(k, v));
    }

    /// Appending an entry for a new key adds that key to the map.
    proof fn lemma_same_map_after_push(&self, before: Self, k: K::V, v: V::V)
        requires
            before.wf(),
            forall|j: int| 0 <= j < before.entries@.len() ==> #[trigger] before.entries@[j].0@ != k,
            self.entries@ == before.entries@.push(self.entries@.last()),
            self.entries@.last().0@ == k,
            self.entries@.last().1@ == v,
        ensures
            self.wf(),
            self.map() == before.map().insert(k, v),
    {
        let n = before.entries@.len() as int;
        assert forall|a: int, b: int|
            0 <= a < self.entries@.len() && 0 <= b < self.entries@.len()
                && #[trigger] self.entries@[a].0@ == #[trigger] self.entries@[b].0@
            implies a == b by {
            if a < n && b < n {
                assert(before.entries@[a] == self.entries@[a]);
                assert(before.entries@[b] == self.entries@[b]);
            } else if a < n {
                assert(before.entries@[a] == self.entries@[a]);
            } else if b < n {
                assert(before.entries@[b] == self.entries@[b]);
            }
        }
        assert forall|key: K::V| #[trigger] self.map().dom().contains(key) <==> before.map().insert(k, v).dom().contains(key) by {
            if self.has(key) {
                let c = choose|c: int| 0 <= c < self.entries@.len() && #[trigger] self.entries@[c].0@ == key;
                if c < n {
                    assert(before.entries@[c] == self.entries@[c]);
                }
            }
            if before.has(key) {
                let c = choose|c: int| 0 <= c < before.entries@.len() && #[trigger] before.entries@[c].0@ == key;
                assert(self.entries@[c] == before.entries@[c]);
            }
            if key == k {
                assert(self.entries@[n].0@ == key);
            }
        }
        assert forall|key: K::V| #[trigger] self.map().dom().contains(key) implies self.map()[key] == before.map().insert(k, v)[key] by {
            let c = choose|c: int| 0 <= c < self.entries@.len() && #[trigger] self.entries@[c].0@ == key;
            assert(self.entries@[c].0@ == key);
            self.lemma_value_at(c);
            if c < n {
                assert(before.entries@[c] == self.entries@[c]);
                before.lemma_value_at(c);
            }
        }
        assert(self.map() =~= before.map().insert(k, v));
    }
}

} // verus!
