//! Tables that hold at most one value for a key.

use crate::bytes::same;
use crate::types::IpAddr;
use vstd::prelude::*;

verus! {

/// What a table can be keyed by.
pub trait TableKey: Sized + Copy {
    /// Is it the same key?
    fn same_key(&self, other: &Self) -> (r: bool)
        ensures
            r == (*self == *other),
    ;
}

impl TableKey for u32 {
    fn same_key(&self, other: &Self) -> (r: bool) {
        *self == *other
    }
}

impl TableKey for IpAddr {
    fn same_key(&self, other: &Self) -> (r: bool) {
        self.is(other)
    }
}

impl TableKey for [u8; 32] {
    fn same_key(&self, other: &Self) -> (r: bool) {
        let r = same(self, other);
        assert(r ==> *self =~= *other);
        r
    }
}

/// A table with at most one value for a key. Its view is the map that it stands for.
pub struct Assoc<K: TableKey, V> {
    pub entries: Vec<(K, V)>,
}

impl<K: TableKey, V> Assoc<K, V> {
    /// Does the entry at `i` belong to `k`?
    pub open spec fn at(&self, i: int, k: K) -> bool {
        0 <= i < self.entries@.len() && self.entries@[i].0 == k
    }

    /// No key has two entries.
    pub open spec fn wf(&self) -> bool {
        forall|i: int, j: int|
            0 <= i < j < self.entries@.len() ==> self.entries@[i].0 != self.entries@[j].0
    }

    /// Where the entry of `k` stands.
    pub open spec fn index_of(&self, k: K) -> int {
        choose|i: int| self.at(i, k)
    }

    pub open spec fn view(&self) -> Map<K, V> {
        Map::new(
            |k: K| exists|i: int| self.at(i, k),
            |k: K| self.entries@[self.index_of(k)].1,
        )
    }

    /// What the map says of the key of an entry.
    pub proof fn lemma_at(&self, i: int)
        requires
            self.wf(),
            0 <= i < self.entries@.len(),
        ensures
            self@.contains_key(self.entries@[i].0),
            self@[self.entries@[i].0] == self.entries@[i].1,
            self.index_of(self.entries@[i].0) == i,
    {
        assert(self.at(i, self.entries@[i].0));
    }

    /// Where a key of the map stands.
    pub proof fn lemma_key(&self, k: K)
        requires
            self.wf(),
            self@.contains_key(k),
        ensures
            self.at(self.index_of(k), k),
            self@[k] == self.entries@[self.index_of(k)].1,
    {
    }

    /// Another value for an entry is another value for its key.
    pub proof fn lemma_update(&self, before: Self, i: int)
        requires
            before.wf(),
            0 <= i < before.entries@.len(),
            self.entries@.len() == before.entries@.len(),
            self.entries@[i].0 == before.entries@[i].0,
            forall|j: int|
                0 <= j < before.entries@.len() && j != i ==> self.entries@[j]
                    == before.entries@[j],
        ensures
            self.wf(),
            self@ == before@.insert(before.entries@[i].0, self.entries@[i].1),
    {
        let k0 = before.entries@[i].0;
        assert(forall|j: int| 0 <= j < before.entries@.len() ==> #[trigger] self.entries@[j].0
            == before.entries@[j].0);
        assert forall|k: K| self@.contains_key(k) <==> before@.insert(
            k0,
            self.entries@[i].1,
        ).contains_key(k) by {
            if self@.contains_key(k) {
                let j = self.index_of(k);
                assert(before.at(j, k));
            }
            if before@.contains_key(k) {
                let j = before.index_of(k);
                assert(self.at(j, k));
            }
            assert(self.at(i, k0));
        }
        assert forall|k: K| self@.contains_key(k) implies self@[k] == before@.insert(
            k0,
            self.entries@[i].1,
        )[k] by {
            let j = self.index_of(k);
            assert(self.at(j, k));
            before.lemma_at(j);
        }
        assert(self@ =~= before@.insert(k0, self.entries@[i].1));
    }

    /// The map has as many keys as the table has entries.
    pub proof fn lemma_len(&self)
        requires
            self.wf(),
        ensures
            self@.dom().finite(),
            self@.dom().len() == self.entries@.len(),
    {
        let keys = self.entries@.map_values(|e: (K, V)| e.0);
        assert(keys.no_duplicates());
        keys.unique_seq_to_set();
        assert forall|k: K| self@.dom().contains(k) <==> keys.to_set().contains(k) by {
            if self@.dom().contains(k) {
                let i = self.index_of(k);
                assert(self.at(i, k));
                assert(keys[i] == k);
            }
            if keys.to_set().contains(k) {
                let i = choose|i: int| 0 <= i < keys.len() && keys[i] == k;
                assert(self.at(i, k));
            }
        }
        assert(self@.dom() =~= keys.to_set());
    }

    pub fn new() -> (r: Self)
        ensures
            r.wf(),
            r@ == Map::<K, V>::empty(),
            r.entries@.len() == 0,
    {
        let r = Assoc { entries: Vec::new() };
        assert(r@ =~= Map::<K, V>::empty());
        r
    }

    /// Where the entry of `k` stands, if there is one.
    pub fn find(&self, k: &K) -> (r: Option<usize>)
        requires
            self.wf(),
        ensures
            match r {
                Some(i) => self.at(i as int, *k) && self@.contains_key(*k) && self@[*k]
                    == self.entries@[i as int].1 && self.index_of(*k) == i,
                None => !self@.contains_key(*k),
            },
    {
        let mut i: usize = 0;
        while i < self.entries.len()
            invariant
                self.wf(),
                i <= self.entries@.len(),
                forall|j: int| 0 <= j < i ==> self.entries@[j].0 != *k,
            decreases self.entries@.len() - i,
        {
            if self.entries[i].0.same_key(k) {
                proof {
                    self.lemma_at(i as int);
                }
                return Some(i);
            }
            i += 1;
        }
        None
    }

    /// Holds `v` for `k` from now on. Returns where the entry stands.
    pub fn insert(&mut self, k: K, v: V) -> (r: usize)
        requires
            old(self).wf(),
        ensures
            final(self).wf(),
            final(self)@ == old(self)@.insert(k, v),
            final(self).at(r as int, k),
            final(self).entries@[r as int].1 == v,
            final(self).entries@.len() == old(self).entries@.len() + (if old(self)@.contains_key(k) {
                0int
            } else {
                1int
            }),
    {
        let ghost before = *self;
        match self.find(&k) {
            Some(i) => {
                self.entries[i] = (k, v);
                proof {
                    self.lemma_update(before, i as int);
                }
                i
            },
            None => {
                let i = self.entries.len();
                self.entries.push((k, v));
                proof {
                    assert forall|j: int| 0 <= j < before.entries@.len() implies before.entries@[j].0
                        != k by {
                        before.lemma_at(j);
                    }
                    assert(self.wf());
                    assert(self.at(i as int, k));
                    assert forall|q: K| self@.contains_key(q) <==> before@.insert(
                        k,
                        v,
                    ).contains_key(q) by {
                        if self@.contains_key(q) {
                            let j = self.index_of(q);
                            if j < i {
                                assert(before.at(j, q));
                            }
                        }
                        if before@.contains_key(q) {
                            let j = before.index_of(q);
                            assert(self.at(j, q));
                        }
                    }
                    assert forall|q: K| self@.contains_key(q) implies self@[q] == before@.insert(
                        k,
                        v,
                    )[q] by {
                        let j = self.index_of(q);
                        if j < i {
                            before.lemma_at(j);
                        }
                    }
                    assert(self@ =~= before@.insert(k, v));
                }
                i
            },
        }
    }

    /// Drops the entry at `i`. The entries after it move up.
    pub fn remove_at(&mut self, i: usize) -> (r: V)
        requires
            old(self).wf(),
            i < old(self).entries@.len(),
        ensures
            final(self).wf(),
            final(self)@ == old(self)@.remove(old(self).entries@[i as int].0),
            final(self).entries@ == old(self).entries@.remove(i as int),
            r == old(self).entries@[i as int].1,
    {
        let ghost before = *self;
        let (_, v) = self.entries.remove(i);
        proof {
            let k0 = before.entries@[i as int].0;
            assert forall|q: K| self@.contains_key(q) <==> before@.remove(k0).contains_key(q) by {
                if self@.contains_key(q) {
                    let j = self.index_of(q);
                    let old_j = if j < i {
                        j
                    } else {
                        j + 1
                    };
                    assert(before.at(old_j, q));
                }
                if before@.remove(k0).contains_key(q) {
                    let j = before.index_of(q);
                    assert(before.at(j, q));
                    let new_j = if j < i {
                        j
                    } else {
                        j - 1
                    };
                    assert(self.at(new_j, q));
                }
            }
            assert forall|q: K| self@.contains_key(q) implies self@[q] == before@.remove(k0)[q] by {
                let j = self.index_of(q);
                let old_j = if j < i {
                    j
                } else {
                    j + 1
                };
                before.lemma_at(old_j);
            }
            assert(self@ =~= before@.remove(k0));
        }
        v
    }

    /// Drops the value of `k`.
    pub fn remove(&mut self, k: &K) -> (r: Option<V>)
        requires
            old(self).wf(),
        ensures
            final(self).wf(),
            final(self)@ == old(self)@.remove(*k),
            match r {
                Some(v) => old(self)@.contains_key(*k) && old(self)@[*k] == v,
                None => !old(self)@.contains_key(*k),
            },
    {
        match self.find(k) {
            Some(i) => Some(self.remove_at(i)),
            None => {
                assert(self@.remove(*k) =~= self@);
                None
            },
        }
    }
}

} // verus!
