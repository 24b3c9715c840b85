//! A key-value table with the view of a finite map.
//!
//! Every persistent table of the authority is one of these. The table keeps
//! its entries in insertion order, which makes a walk over it deterministic.

use vstd::prelude::*;

verus! {

/// A key that can be compared for equality in executable code.
pub trait TableKey: Sized {
    /// Whether two keys are the same key.
    fn same(&self, other: &Self) -> (b: bool)
        ensures
            b == (*self == *other),
    ;
}

impl TableKey for u64 {
    fn same(&self, other: &Self) -> (b: bool) {
        *self == *other
    }
}

impl TableKey for (u64, u64) {
    fn same(&self, other: &Self) -> (b: bool) {
        self.0 == other.0 && self.1 == other.1
    }
}

impl TableKey for (u64, u64, u64) {
    fn same(&self, other: &Self) -> (b: bool) {
        self.0 == other.0 && self.1 == other.1 && self.2 == other.2
    }
}

/// A table from keys to values.
pub struct Table<K, V> {
    keys: Vec<K>,
    values: Vec<V>,
}

impl<K, V: View> View for Table<K, V> {
    type V = Map<K, V::V>;

    closed spec fn view(&self) -> Map<K, V::V> {
        Map::new(
            |k: K| self.keys@.contains(k),
            |k: K| self.values@[self.keys@.index_of(k)]@,
        )
    }
}

impl<K: TableKey, V: View> Table<K, V> {
    /// The table's invariant: one value per key, and no key twice.
    pub closed spec fn wf(&self) -> bool {
        &&& self.keys@.len() == self.values@.len()
        &&& self.keys@.no_duplicates()
    }

    /// The keys in the order in which they were first inserted.
    pub closed spec fn key_seq(&self) -> Seq<K> {
        self.keys@
    }

    /// The keys of the table are exactly the keys of its view, each once.
    pub proof fn lemma_keys(&self)
        requires
            self.wf(),
        ensures
            self.key_seq().no_duplicates(),
            forall|k: K| self.key_seq().contains(k) <==> self@.contains_key(k),
            self@.dom().finite(),
            self@.dom().len() == self.key_seq().len(),
    {
        assert(self@.dom() =~= self.keys@.to_set());
        self.keys@.unique_seq_to_set();
    }

    proof fn lemma_at(&self, i: int)
        requires
            self.wf(),
            0 <= i < self.keys@.len(),
        ensures
            self@.contains_key(self.keys@[i]),
            self@[self.keys@[i]] == self.values@[i]@,
    {
        let k = self.keys@[i];
        assert(self.keys@.contains(k));
        let j = self.keys@.index_of(k);
        assert(self.keys@[j] == k);
    }

    /// An empty table.
    pub fn new() -> (t: Self)
        ensures
            t.wf(),
            t@ == Map::<K, V::V>::empty(),
            t.key_seq() == Seq::<K>::empty(),
    {
        let t = Table { keys: Vec::new(), values: Vec::new() };
        assert(t@ =~= Map::<K, V::V>::empty());
        t
    }

    /// How many entries the table holds.
    pub fn len(&self) -> (n: usize)
        requires
            self.wf(),
        ensures
            n == self.key_seq().len(),
            n == self@.dom().len(),
    {
        proof {
            self.lemma_keys();
        }
        self.keys.len()
    }

    fn position(&self, key: &K) -> (r: Option<usize>)
        requires
            self.wf(),
        ensures
            match r {
                Some(i) => i < self.keys@.len() && self.keys@[i as int] == *key,
                None => !self.keys@.contains(*key),
            },
    {
        let mut i: usize = 0;
        while i < self.keys.len()
            invariant
                i <= self.keys@.len(),
                forall|j: int| 0 <= j < i ==> self.keys@[j] != *key,
            decreases self.keys@.len() - i,
        {
            if self.keys[i].same(key) {
                return Some(i);
            }
            i += 1;
        }
        None
    }

    /// Whether the table holds an entry for `key`.
    pub fn contains_key(&self, key: &K) -> (b: bool)
        requires
            self.wf(),
        ensures
            b == self@.contains_key(*key),
    {
        self.position(key).is_some()
    }

    /// The value stored for `key`, if there is one.
    pub fn get(&self, key: &K) -> (r: Option<&V>)
        requires
            self.wf(),
        ensures
            match r {
                Some(v) => self@.contains_key(*key) && v@ == self@[*key],
                None => !self@.contains_key(*key),
            },
    {
        match self.position(key) {
            Some(i) => {
                proof {
                    self.lemma_at(i as int);
                }
                Some(&self.values[i])
            },
            None => None,
        }
    }

    /// The key of the `i`-th entry in insertion order.
    pub fn key_at(&self, i: usize) -> (k: &K)
        requires
            self.wf(),
            i < self.key_seq().len(),
        ensures
            *k == self.key_seq()[i as int],
            self@.contains_key(*k),
    {
        proof {
            self.lemma_at(i as int);
        }
        &self.keys[i]
    }

    /// The value of the `i`-th entry in insertion order.
    pub fn value_at(&self, i: usize) -> (v: &V)
        requires
            self.wf(),
            i < self.key_seq().len(),
        ensures
            self@.contains_key(self.key_seq()[i as int]),
            v@ == self@[self.key_seq()[i as int]],
    {
        proof {
            self.lemma_at(i as int);
        }
        &self.values[i]
    }

    /// Stores `value` for `key`, replacing what was stored for it before.
    pub fn insert(&mut self, key: K, value: V)
        requires
            old(self).wf(),
        ensures
            final(self).wf(),
            final(self)@ == old(self)@.insert(key, value@),
            final(self).key_seq() == if old(self)@.contains_key(key) {
                old(self).key_seq()
            } else {
                old(self).key_seq().push(key)
            },
    {
        match self.position(&key) {
            Some(i) => {
                self.values[i] = value;
                proof {
                    assert forall|k: K| final(self)@.contains_key(k) implies #[trigger] final(self)@[k]
                        == old(self)@.insert(key, value@)[k] by {
                        let j = self.keys@.index_of(k);
                        assert(self.keys@[j] == k);
                    }
                    assert(self@ =~= old(self)@.insert(key, value@));
                }
            },
            None => {
                self.keys.push(key);
                self.values.push(value);
                proof {
                    let ghost_keys = self.keys@;
                    assert forall|k: K| ghost_keys.contains(k) <==> (k == key || old(self).keys@.contains(k)) by {
                        if ghost_keys.contains(k) {
                            let j = choose|j: int| 0 <= j < ghost_keys.len() && ghost_keys[j] == k;
                            if j < old(self).keys@.len() {
                                assert(old(self).keys@[j] == k);
                            }
                        }
                        if old(self).keys@.contains(k) {
                            let j = choose|j: int| 0 <= j < old(self).keys@.len() && old(self).keys@[j] == k;
                            assert(ghost_keys[j] == k);
                        }
                        if k == key {
                            assert(ghost_keys[ghost_keys.len() - 1] == k);
                        }
                    }
                    assert forall|k: K| #[trigger] self@.contains_key(k) implies self@[k] == old(self)@.insert(
                        key,
                        value@,
                    )[k] by {
                        let j = ghost_keys.index_of(k);
                        assert(ghost_keys[j] == k);
                        if k != key {
                            let j0 = old(self).keys@.index_of(k);
                            assert(old(self).keys@[j0] == k);
                            assert(ghost_keys[j0] == k);
                        }
                    }
                    assert(self@ =~= old(self)@.insert(key, value@));
                }
            },
        }
    }

    /// Removes the entry for `key`, if there is one.
    pub fn remove(&mut self, key: &K)
        requires
            old(self).wf(),
        ensures
            final(self).wf(),
            final(self)@ == old(self)@.remove(*key),
    {
        match self.position(key) {
            Some(i) => {
                self.keys.remove(i);
                self.values.remove(i);
                proof {
                    let ok = old(self).keys@;
                    let nk = self.keys@;
                    assert forall|k: K| nk.contains(k) <==> (k != *key && ok.contains(k)) by {
                        if nk.contains(k) {
                            let j = choose|j: int| 0 <= j < nk.len() && nk[j] == k;
                            if j < i {
                                assert(ok[j] == k);
                            } else {
                                assert(ok[j + 1] == k);
                            }
                        }
                        if k != *key && ok.contains(k) {
                            let j = choose|j: int| 0 <= j < ok.len() && ok[j] == k;
                            if j < i {
                                assert(nk[j] == k);
                            } else {
                                assert(nk[j - 1] == k);
                            }
                        }
                    }
                    assert forall|k: K| #[trigger] self@.contains_key(k) implies self@[k] == old(self)@[k] by {
                        let j = nk.index_of(k);
                        assert(nk[j] == k);
                        let j0 = ok.index_of(k);
                        assert(ok[j0] == k);
                        if j < i {
                            assert(ok[j] == k);
                        } else {
                            assert(ok[j + 1] == k);
                        }
                    }
                    assert(self@ =~= old(self)@.remove(*key));
                }
            },
            None => {
                assert(self@ =~= old(self)@.remove(*key));
            },
        }
    }
}

} // verus!
