// Copyright 2023 Memgraph Ltd.
//
// Use of this software is governed by the Business Source License
// included in the file licenses/BSL.txt; by using this file, you agree to be bound by the terms of the Business Source
// License, and you may not use this file except in compliance with the Business Source License.
//
// As of the Change Date specified in that file, in accordance with
// the Business Source License, use of this software will be governed
// by the Apache License, Version 2.0, included in the file
// licenses/APL.txt.

//! A small association list: a map from keys to values kept in a `Vec`, with
//! no key occurring twice. It stands where the protocol keeps per-peer
//! bookkeeping (vote tallies, replication indices, pending client requests).
use vstd::prelude::*;

verus! {

/// Keys that can be compared in executable code, with `eq_key` agreeing with
/// spec equality.
pub trait KeyEq: Copy {
    fn eq_key(&self, other: &Self) -> (b: bool)
        ensures
            b == (*self == *other),
    ;
}

impl KeyEq for usize {
    fn eq_key(&self, other: &Self) -> (b: bool) {
        *self == *other
    }
}

impl KeyEq for u64 {
    fn eq_key(&self, other: &Self) -> (b: bool) {
        *self == *other
    }
}

/// A map kept as a list of (key, value) entries in which no key occurs twice.
pub struct VecMap<K, V> {
    entries: Vec<(K, V)>,
}

/// The keys of a list of entries, in order.
pub open spec fn keys_of<K, V>(s: Seq<(K, V)>) -> Seq<K> {
    s.map_values(|e: (K, V)| e.0)
}

/// The map that a list of entries with distinct keys stands for.
pub open spec fn map_of<K, V>(s: Seq<(K, V)>) -> Map<K, V> {
    Map::new(|k: K| keys_of(s).contains(k), |k: K| s[keys_of(s).index_of(k)].1)
}

impl<K: KeyEq, V> VecMap<K, V> {
    /// The entries in the order in which they are kept.
    pub closed spec fn entries(&self) -> Seq<(K, V)> {
        self.entries@
    }

    pub open spec fn wf(&self) -> bool {
        keys_of(self.entries()).no_duplicates()
    }

    pub open spec fn view(&self) -> Map<K, V> {
        map_of(self.entries())
    }

    pub fn new() -> (m: Self)
        ensures
            m.wf(),
            m.entries() == Seq::<(K, V)>::empty(),
            m@ == Map::<K, V>::empty(),
    {
        let m = VecMap { entries: Vec::new() };
        assert(m@ =~= Map::<K, V>::empty());
        m
    }

    pub fn len(&self) -> (n: usize)
        requires
            self.wf(),
        ensures
            n == self.entries().len(),
            n == self@.dom().len(),
            self@.dom().finite(),
    {
        proof {
            lemma_map_of_len(self.entries());
        }
        self.entries.len()
    }

    pub fn key_at(&self, i: usize) -> (k: K)
        requires
            i < self.entries().len(),
        ensures
            k == self.entries()[i as int].0,
    {
        self.entries[i].0
    }

    fn find(&self, k: &K) -> (r: Option<usize>)
        requires
            self.wf(),
        ensures
            match r {
                Some(i) => i < self.entries().len() && self.entries()[i as int].0 == *k
                    && keys_of(self.entries()).contains(*k) && keys_of(self.entries()).index_of(
                    *k,
                ) == i,
                None => !keys_of(self.entries()).contains(*k),
            },
    {
        let mut i: usize = 0;
        while i < self.entries.len()
            invariant
                i <= self.entries@.len(),
                keys_of(self.entries@).no_duplicates(),
                forall|j: int| 0 <= j < i ==> self.entries@[j].0 != *k,
            decreases self.entries@.len() - i,
        {
            if self.entries[i].0.eq_key(k) {
                proof {
                    let ks = keys_of(self.entries());
                    assert(ks[i as int] == *k);
                    lemma_index_of_unique(ks, i as int);
                }
                return Some(i);
            }
            i = i + 1;
        }
        proof {
            let ks = keys_of(self.entries());
            if ks.contains(*k) {
                let j = choose|j: int| 0 <= j < ks.len() && ks[j] == *k;
                assert(self.entries@[j].0 == *k);
            }
        }
        None
    }

    pub fn contains_key(&self, k: &K) -> (b: bool)
        requires
            self.wf(),
        ensures
            b == self@.contains_key(*k),
    {
        self.find(k).is_some()
    }

    /// Inserts or replaces the value under `k`; returns the value it replaced.
    pub fn insert(&mut self, k: K, v: V) -> (r: Option<V>)
        requires
            old(self).wf(),
        ensures
            final(self).wf(),
            final(self)@ == old(self)@.insert(k, v),
            match r {
                Some(w) => old(self)@.contains_key(k) && old(self)@[k] == w,
                None => !old(self)@.contains_key(k),
            },
    {
        let ghost old_entries = self.entries@;
        match self.find(&k) {
            Some(i) => {
                let (_, w) = self.entries.remove(i);
                self.entries.insert(i, (k, v));
                proof {
                    assert(self.entries@ =~= old_entries.update(i as int, (k, v)));
                    let ks0 = keys_of(old_entries);
                    let ks1 = keys_of(self.entries@);
                    assert(ks1 =~= ks0);
                    assert(self@ =~= old(self)@.insert(k, v)) by {
                        assert forall|q: K| #[trigger] ks1.contains(q) implies map_of(
                            self.entries@,
                        )[q] == old(self)@.insert(k, v)[q] by {
                            if q != k {
                                let j = ks1.index_of(q);
                                assert(ks1[j] == q);
                                assert(j != i);
                            }
                        }
                    }
                }
                Some(w)
            },
            None => {
                self.entries.push((k, v));
                proof {
                    let ks0 = keys_of(old_entries);
                    let ks1 = keys_of(self.entries@);
                    assert(ks1 =~= ks0.push(k));
                    assert(ks1.no_duplicates()) by {
                        assert forall|a: int, b: int|
                            0 <= a < ks1.len() && 0 <= b < ks1.len() && a != b implies ks1[a]
                            != ks1[b] by {
                            if a < ks0.len() && b < ks0.len() {
                            } else if a == ks0.len() {
                                assert(ks0[b] == ks1[b]);
                                assert(ks0.contains(ks0[b]));
                            } else {
                                assert(ks0[a] == ks1[a]);
                                assert(ks0.contains(ks0[a]));
                            }
                        }
                    }
                    assert(self@ =~= old(self)@.insert(k, v)) by {
                        lemma_index_of_unique(ks1, ks0.len() as int);
                        assert forall|q: K| #[trigger] ks1.contains(q) implies map_of(
                            self.entries@,
                        )[q] == old(self)@.insert(k, v)[q] by {
                            if q != k {
                                let j = ks1.index_of(q);
                                assert(ks1[j] == q);
                                assert(j < ks0.len());
                                assert(ks0[j] == q);
                                lemma_index_of_unique(ks0, j);
                                lemma_index_of_unique(ks1, j);
                            }
                        }
                        assert forall|q: K| #[trigger] old(self)@.insert(k, v).contains_key(
                            q,
                        ) implies ks1.contains(q) by {
                            if q != k {
                                let j = ks0.index_of(q);
                                assert(ks0[j] == q);
                                assert(ks1[j] == q);
                            } else {
                                assert(ks1[ks0.len() as int] == k);
                            }
                        }
                    }
                }
                None
            },
        }
    }

    /// Removes the entry under `k`; returns its value if there was one.
    pub fn remove(&mut self, k: &K) -> (r: Option<V>)
        requires
            old(self).wf(),
        ensures
            final(self).wf(),
            final(self)@ == old(self)@.remove(*k),
            r is None ==> *final(self) == *old(self),
            old(self)@.contains_key(*k) ==> final(self).entries() == old(self).entries().remove(
                keys_of(old(self).entries()).index_of(*k),
            ),
            match r {
                Some(w) => old(self)@.contains_key(*k) && old(self)@[*k] == w,
                None => !old(self)@.contains_key(*k),
            },
    {
        let ghost old_entries = self.entries@;
        match self.find(k) {
            Some(i) => {
                let e = self.entries.remove(i);
                proof {
                    let ks0 = keys_of(old_entries);
                    let ks1 = keys_of(self.entries@);
                    assert(ks1 =~= ks0.remove(i as int));
                    assert forall|a: int, b: int|
                        0 <= a < ks1.len() && 0 <= b < ks1.len() && a != b implies ks1[a]
                        != ks1[b] by {
                        let a0 = if a < i { a } else { a + 1 };
                        let b0 = if b < i { b } else { b + 1 };
                        assert(ks1[a] == ks0[a0]);
                        assert(ks1[b] == ks0[b0]);
                    }
                    assert(self@ =~= old(self)@.remove(*k)) by {
                        assert forall|q: K| #[trigger] ks1.contains(q) implies q != *k
                            && ks0.contains(q) && map_of(self.entries@)[q] == old(self)@[q] by {
                            let j = ks1.index_of(q);
                            assert(ks1[j] == q);
                            let j0 = if j < i { j } else { j + 1 };
                            assert(ks0[j0] == q);
                            assert(j0 != i);
                            lemma_index_of_unique(ks0, j0);
                        }
                        assert forall|q: K|
                            #[trigger] ks0.contains(q) && q != *k implies ks1.contains(q) by {
                            let j0 = ks0.index_of(q);
                            assert(ks0[j0] == q);
                            assert(j0 != i);
                            let j = if j0 < i { j0 } else { j0 - 1 };
                            assert(ks1[j] == q);
                        }
                    }
                }
                Some(e.1)
            },
            None => {
                assert(self@ =~= old(self)@.remove(*k));
                None
            },
        }
    }

}

/// Entries whose values carry a deadline first.
impl<K: KeyEq, S> VecMap<K, (u64, S)> {
    /// Keeps only the entries whose deadline is later than `now`.
    pub fn retain_later_than(&mut self, now: u64)
        requires
            old(self).wf(),
        ensures
            final(self).wf(),
            final(self)@ == Map::new(
                |k: K| old(self)@.contains_key(k) && old(self)@[k].0 > now,
                |k: K| old(self)@[k],
            ),
    {
        let ghost m0 = self@;
        let mut i: usize = 0;
        while i < self.entries.len()
            invariant
                self.wf(),
                i <= self.entries@.len(),
                forall|j: int| 0 <= j < i ==> (#[trigger] self.entries@[j]).1.0 > now,
                forall|k: K| #[trigger]
                    self@.contains_key(k) ==> m0.contains_key(k) && self@[k] == m0[k],
                forall|k: K| #[trigger]
                    m0.contains_key(k) && m0[k].0 > now ==> self@.contains_key(k),
            decreases self.entries@.len() - i,
        {
            if self.entries[i].1.0 <= now {
                let k = self.entries[i].0;
                proof {
                    let ks = keys_of(self.entries@);
                    assert(ks[i as int] == k);
                    lemma_index_of_unique(ks, i as int);
                    assert(self@.contains_key(k));
                }
                let ghost before_entries = self.entries@;
                self.remove(&k);
                proof {
                    assert forall|j: int|
                        0 <= j < i implies (#[trigger] self.entries@[j]).1.0 > now by {
                        assert(self.entries@[j] == before_entries[j]);
                    }
                }
            } else {
                i = i + 1;
            }
        }
        proof {
            let ks = keys_of(self.entries@);
            assert forall|k: K| #[trigger] self@.contains_key(k) implies self@[k].0 > now by {
                let j = ks.index_of(k);
                assert(ks[j] == k);
            }
            assert(self@ =~= Map::new(
                |k: K| m0.contains_key(k) && m0[k].0 > now,
                |k: K| m0[k],
            ));
        }
    }
}

impl<K: KeyEq, V: Copy> VecMap<K, V> {
    pub fn value_at(&self, i: usize) -> (v: V)
        requires
            i < self.entries().len(),
        ensures
            v == self.entries()[i as int].1,
    {
        self.entries[i].1
    }

    pub fn get(&self, k: &K) -> (r: Option<V>)
        requires
            self.wf(),
        ensures
            match r {
                Some(v) => self@.contains_key(*k) && self@[*k] == v,
                None => !self@.contains_key(*k),
            },
    {
        match self.find(k) {
            Some(i) => Some(self.entries[i].1),
            None => None,
        }
    }

    /// A copy with the same entries in the same order.
    pub fn clone_map(&self) -> (m: Self)
        ensures
            m.entries() == self.entries(),
    {
        let mut entries: Vec<(K, V)> = Vec::new();
        let mut i: usize = 0;
        while i < self.entries.len()
            invariant
                i <= self.entries@.len(),
                entries@ == self.entries@.take(i as int),
            decreases self.entries@.len() - i,
        {
            entries.push(self.entries[i]);
            i = i + 1;
            proof {
                assert(entries@ =~= self.entries@.take(i as int));
            }
        }
        proof {
            assert(entries@ =~= self.entries@);
        }
        VecMap { entries }
    }

    /// Gives every entry the value `v`, keeping the keys and their order.
    pub fn set_all(&mut self, v: V)
        requires
            old(self).wf(),
        ensures
            final(self).wf(),
            keys_of(final(self).entries()) == keys_of(old(self).entries()),
            final(self)@.dom() == old(self)@.dom(),
            forall|k: K| #[trigger] final(self)@.contains_key(k) ==> final(self)@[k] == v,
    {
        let n = self.entries.len();
        let mut i: usize = 0;
        while i < n
            invariant
                n == self.entries@.len(),
                i <= n,
                keys_of(self.entries@) == keys_of(old(self).entries@),
                forall|j: int| 0 <= j < i ==> #[trigger] self.entries@[j].1 == v,
            decreases n - i,
        {
            let k = self.entries[i].0;
            self.entries.set(i, (k, v));
            proof {
                assert(keys_of(self.entries@) =~= keys_of(old(self).entries@));
            }
            i = i + 1;
        }
        proof {
            let ks = keys_of(self.entries@);
            assert forall|k: K| #[trigger] self@.contains_key(k) implies self@[k] == v by {
                let j = ks.index_of(k);
                assert(ks[j] == k);
            }
            assert(self@.dom() =~= old(self)@.dom());
        }
    }
}

/// In a list without duplicates, the index of the element at `i` is `i`.
pub proof fn lemma_index_of_unique<A>(s: Seq<A>, i: int)
    requires
        s.no_duplicates(),
        0 <= i < s.len(),
    ensures
        s.contains(s[i]),
        s.index_of(s[i]) == i,
{
    assert(s[i] == s[i]);
    let j = s.index_of(s[i]);
    assert(s[j] == s[i]);
}

/// A list of entries with distinct keys stands for a finite map with as many keys.
pub proof fn lemma_map_of_len<K, V>(s: Seq<(K, V)>)
    requires
        keys_of(s).no_duplicates(),
    ensures
        map_of(s).dom().finite(),
        map_of(s).dom().len() == s.len(),
{
    let ks = keys_of(s);
    assert(map_of(s).dom() =~= ks.to_set());
    ks.unique_seq_to_set();
}

} // verus!
