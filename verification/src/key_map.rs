//! A map keyed by public keys.
use vstd::prelude::*;

use crate::key::{key_order_is_total, key_order_is_transitive, KeyOrder, PublicKey};

verus! {

/// A map from public keys, held as a vector in ascending order of keys.
pub struct KeyMap<V> {
    entries: Vec<(PublicKey, V)>,
}

impl<V> View for KeyMap<V> {
    type V = Map<PublicKey, V>;

    closed spec fn view(&self) -> Map<PublicKey, V> {
        Map::new(|k: PublicKey| self.holds(k), |k: PublicKey| self.entries@[self.place(k)].1)
    }
}

impl<V> KeyMap<V> {
    /// Whether some entry has this key.
    spec fn holds(&self, k: PublicKey) -> bool {
        exists|i: int| 0 <= i < self.entries@.len() && (#[trigger] self.entries@[i]).0 == k
    }

    /// The place of the entry that has this key.
    spec fn place(&self, k: PublicKey) -> int {
        choose|i: int| 0 <= i < self.entries@.len() && (#[trigger] self.entries@[i]).0 == k
    }

    /// The keys ascend, so none occurs twice.
    pub closed spec fn wf(&self) -> bool {
        forall|i: int, j: int|
            0 <= i < j < self.entries@.len() ==> (#[trigger] self.entries@[i]).0.lt(
                (#[trigger] self.entries@[j]).0,
            )
    }

    /// The keys in ascending order.
    pub closed spec fn keys(&self) -> Seq<PublicKey> {
        self.entries@.map_values(|e: (PublicKey, V)| e.0)
    }

    /// Two entries with one key are the same entry.
    proof fn lemma_places(&self, i: int, j: int)
        requires
            self.wf(),
            0 <= i < self.entries@.len(),
            0 <= j < self.entries@.len(),
            self.entries@[i].0 == self.entries@[j].0,
        ensures
            i == j,
    {
        key_order_is_total(self.entries@[i].0, self.entries@[j].0);
    }

    /// What the map holds at the key of an entry.
    proof fn lemma_entry(&self, i: int)
        requires
            self.wf(),
            0 <= i < self.entries@.len(),
        ensures
            self@.contains_key(self.entries@[i].0),
            self@[self.entries@[i].0] == self.entries@[i].1,
    {
        let k = self.entries@[i].0;
        assert(self.holds(k));
        self.lemma_places(i, self.place(k));
    }

    /// Changing the value of one entry changes the map at its key.
    proof fn lemma_update(before: Self, after: Self, i: int, v: V)
        requires
            before.wf(),
            0 <= i < before.entries@.len(),
            after.entries@ == before.entries@.update(i, (before.entries@[i].0, v)),
        ensures
            after.wf(),
            after@ == before@.insert(before.entries@[i].0, v),
    {
        let k = before.entries@[i].0;
        assert forall|q: PublicKey| after.holds(q) == before.holds(q) by {
            if before.holds(q) {
                assert(after.entries@[before.place(q)].0 == q);
            }
            if after.holds(q) {
                assert(before.entries@[after.place(q)].0 == q);
            }
        }
        assert forall|q: PublicKey| before.holds(q) && q != k implies after@[q] == before@[q] by {
            after.lemma_entry(before.place(q));
        }
        after.lemma_entry(i);
        before.lemma_entry(i);
        assert(after@ =~= before@.insert(k, v));
    }

    /// An empty map.
    pub fn new() -> (m: KeyMap<V>)
        ensures
            m.wf(),
            m@ == Map::<PublicKey, V>::empty(),
    {
        let m = KeyMap { entries: Vec::new() };
        assert(m@ =~= Map::<PublicKey, V>::empty());
        m
    }

    /// Looks for a key: its place, or the place where it belongs.
    fn find(&self, k: &PublicKey) -> (r: Result<usize, usize>)
        requires
            self.wf(),
        ensures
            r matches Ok(i) ==> i < self.entries@.len() && self.entries@[i as int].0 == *k,
            r matches Err(i) ==> {
                &&& i <= self.entries@.len()
                &&& forall|j: int| 0 <= j < i ==> (#[trigger] self.entries@[j]).0.lt(*k)
                &&& forall|j: int|
                    i <= j < self.entries@.len() ==> k.lt((#[trigger] self.entries@[j]).0)
            },
    {
        let mut lo: usize = 0;
        let mut hi: usize = self.entries.len();
        while lo < hi
            invariant
                self.wf(),
                lo <= hi <= self.entries@.len(),
                forall|j: int| 0 <= j < lo ==> (#[trigger] self.entries@[j]).0.lt(*k),
                forall|j: int|
                    hi <= j < self.entries@.len() ==> k.lt((#[trigger] self.entries@[j]).0),
            decreases hi - lo,
        {
            let mid: usize = lo + (hi - lo) / 2;
            match self.entries[mid].0.order(k) {
                KeyOrder::Less => {
                    proof {
                        assert forall|j: int| 0 <= j < mid + 1 implies (
                        #[trigger] self.entries@[j]).0.lt(*k) by {
                            if j < mid {
                                key_order_is_transitive(
                                    self.entries@[j].0,
                                    self.entries@[mid as int].0,
                                    *k,
                                );
                            }
                        }
                    }
                    lo = mid + 1;
                },
                KeyOrder::Equal => {
                    return Ok(mid);
                },
                KeyOrder::Greater => {
                    proof {
                        assert forall|j: int| mid <= j < self.entries@.len() implies k.lt(
                            (#[trigger] self.entries@[j]).0,
                        ) by {
                            if mid < j {
                                key_order_is_transitive(
                                    *k,
                                    self.entries@[mid as int].0,
                                    self.entries@[j].0,
                                );
                            }
                        }
                    }
                    hi = mid;
                },
            }
        }
        Err(lo)
    }

    /// A key that belongs between two places is not in the map.
    proof fn lemma_absent(&self, k: PublicKey, i: int)
        requires
            0 <= i <= self.entries@.len(),
            forall|j: int| 0 <= j < i ==> (#[trigger] self.entries@[j]).0.lt(k),
            forall|j: int| i <= j < self.entries@.len() ==> k.lt((#[trigger] self.entries@[j]).0),
        ensures
            !self@.contains_key(k),
    {
        key_order_is_total(k, k);
    }

    /// The value at a key.
    pub fn get(&self, k: &PublicKey) -> (r: Option<&V>)
        requires
            self.wf(),
        ensures
            match r {
                Some(v) => self@.contains_key(*k) && *v == self@[*k],
                None => !self@.contains_key(*k),
            },
    {
        match self.find(k) {
            Ok(i) => {
                proof {
                    self.lemma_entry(i as int);
                }
                Some(&self.entries[i].1)
            },
            Err(i) => {
                proof {
                    self.lemma_absent(*k, i as int);
                }
                None
            },
        }
    }

    /// Whether the key is in the map.
    pub fn contains_key(&self, k: &PublicKey) -> (r: bool)
        requires
            self.wf(),
        ensures
            r == self@.contains_key(*k),
    {
        match self.get(k) {
            Some(_) => true,
            None => false,
        }
    }

    /// The value at a key, for changing.
    pub fn get_mut(&mut self, k: &PublicKey) -> (r: Option<&mut V>)
        requires
            old(self).wf(),
        ensures
            final(self).wf(),
            match r {
                Some(v) => {
                    &&& old(self)@.contains_key(*k)
                    &&& *v == old(self)@[*k]
                    &&& final(self)@ == old(self)@.insert(*k, *final(v))
                },
                None => !old(self)@.contains_key(*k) && final(self)@ == old(self)@,
            },
    {
        match self.find(k) {
            Ok(i) => {
                proof {
                    self.lemma_entry(i as int);
                }
                let ghost before = *self;
                let v = &mut self.entries[i].1;
                proof {
                    Self::lemma_update(before, *after_borrow(self), i as int, *final(v));
                }
                Some(v)
            },
            Err(i) => {
                proof {
                    self.lemma_absent(*k, i as int);
                }
                None
            },
        }
    }

    /// Puts a value at a key, in place of the one that was there.
    pub fn insert(&mut self, k: PublicKey, v: V)
        requires
            old(self).wf(),
        ensures
            final(self).wf(),
            final(self)@ == old(self)@.insert(k, v),
    {
        let ghost before = *self;
        match self.find(&k) {
            Ok(i) => {
                self.entries[i] = (k, v);
                proof {
                    Self::lemma_update(before, *self, i as int, v);
                }
            },
            Err(i) => {
                self.entries.insert(i, (k, v));
                proof {
                    let n = before.entries@.len() as int;
                    assert(self.entries@[i as int] == (k, v));
                    assert(forall|j: int|
                        0 <= j < i ==> #[trigger] self.entries@[j] == before.entries@[j]);
                    assert(forall|j: int|
                        i < j <= n ==> #[trigger] self.entries@[j] == before.entries@[j - 1]);
                    assert(self.wf());
                    self.lemma_entry(i as int);
                    assert forall|q: PublicKey| q != k implies self.holds(q) == before.holds(q) by {
                        if before.holds(q) {
                            let p = before.place(q);
                            assert(self.entries@[if p < i { p } else { p + 1 }].0 == q);
                        }
                        if self.holds(q) {
                            let p = self.place(q);
                            assert(before.entries@[if p < i { p } else { p - 1 }].0 == q);
                        }
                    }
                    assert forall|q: PublicKey| before.holds(q) && q != k implies self@[q]
                        == before@[q] by {
                        let p = before.place(q);
                        self.lemma_entry(if p < i { p } else { p + 1 });
                    }
                    assert(self@ =~= before@.insert(k, v));
                }
            },
        }
    }

    /// How many keys the map has.
    pub fn len(&self) -> (n: usize)
        ensures
            n == self.keys().len(),
    {
        self.entries.len()
    }

    /// The key at a place in the ascending order.
    pub fn key_at(&self, i: usize) -> (k: PublicKey)
        requires
            i < self.keys().len(),
        ensures
            k == self.keys()[i as int],
    {
        self.entries[i].0
    }

    /// The keys listed are those of the map, each once.
    pub proof fn keys_are_the_domain(&self)
        requires
            self.wf(),
        ensures
            self.keys().no_duplicates(),
            forall|k: PublicKey| self.keys().contains(k) <==> #[trigger] self@.contains_key(k),
    {
        assert forall|i: int, j: int|
            0 <= i < self.keys().len() && 0 <= j < self.keys().len() && i != j implies self.keys()[i]
            != self.keys()[j] by {
            if self.keys()[i] == self.keys()[j] {
                self.lemma_places(i, j);
            }
        }
        assert forall|k: PublicKey| self.keys().contains(k) <==> #[trigger] self@.contains_key(k) by {
            if self.keys().contains(k) {
                let i = choose|i: int| 0 <= i < self.keys().len() && self.keys()[i] == k;
                self.lemma_entry(i);
            }
            if self@.contains_key(k) {
                assert(self.keys()[self.place(k)] == k);
            }
        }
    }
}

} // verus!
