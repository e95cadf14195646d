//! A map from `u64` ids to values kept as an association list: pairs in
//! insertion order, no id twice, viewed as a `Map`.

use vstd::prelude::*;

verus! {

/// Map from ids to values; ids are unique.
pub struct IdMap<V> {
    entries: Vec<(u64, V)>,
}

impl<V> IdMap<V> {
    /// Keys of the entries, in storage order.
    pub closed spec fn key_seq(self) -> Seq<u64> {
        self.entries@.map_values(|e: (u64, V)| e.0)
    }

    #[verifier::type_invariant]
    closed spec fn keys_unique(self) -> bool {
        self.key_seq().no_duplicates()
    }

    closed spec fn has_key(self, k: u64) -> bool {
        exists|i: int| 0 <= i < self.entries@.len() && #[trigger] self.entries@[i].0 == k
    }

    closed spec fn index_of(self, k: u64) -> int {
        choose|i: int| 0 <= i < self.entries@.len() && #[trigger] self.entries@[i].0 == k
    }

    /// The abstract contents of the map.
    pub closed spec fn spec_map(self) -> Map<u64, V> {
        Map::new(|k: u64| self.has_key(k), |k: u64| self.entries@[self.index_of(k)].1)
    }

    proof fn lemma_entry(self, i: int)
        requires
            self.keys_unique(),
            0 <= i < self.entries@.len(),
        ensures
            self.spec_map().contains_key(self.entries@[i].0),
            self.spec_map()[self.entries@[i].0] == self.entries@[i].1,
            self.index_of(self.entries@[i].0) == i,
    {
        let k = self.entries@[i].0;
        assert(self.has_key(k));
        let j = self.index_of(k);
        assert(self.key_seq()[i] == k);
        assert(self.key_seq()[j] == k);
    }

    proof fn lemma_dom(self)
        requires
            self.keys_unique(),
        ensures
            self.spec_map().dom() == self.key_seq().to_set(),
            self.spec_map().dom().finite(),
            self.spec_map().dom().len() == self.entries@.len(),
    {
        assert forall|k: u64| self.spec_map().dom().contains(k) implies self.key_seq().to_set().contains(k) by {
            let i = self.index_of(k);
            assert(self.key_seq()[i] == k);
        }
        assert forall|k: u64| self.key_seq().to_set().contains(k) implies self.spec_map().dom().contains(k) by {
            let i = choose|i: int| 0 <= i < self.key_seq().len() && self.key_seq()[i] == k;
            assert(self.entries@[i].0 == k);
        }
        assert(self.spec_map().dom() =~= self.key_seq().to_set());
        self.key_seq().unique_seq_to_set();
        vstd::seq_lib::seq_to_set_is_finite(self.key_seq());
    }

    /// Creates an empty map.
    pub fn new() -> (r: Self)
        ensures
            r.spec_map() == Map::<u64, V>::empty(),
    {
        let r = IdMap { entries: Vec::new() };
        assert(r.spec_map() =~= Map::<u64, V>::empty());
        r
    }

    /// Number of keys.
    pub fn len(&self) -> (n: usize)
        ensures
            self.spec_map().dom().finite(),
            n == self.spec_map().dom().len(),
    {
        proof {
            use_type_invariant(self);
            self.lemma_dom();
        }
        self.entries.len()
    }

    /// Position of `key` in storage order, if present.
    fn find(&self, key: u64) -> (r: Option<usize>)
        ensures
            match r {
                Some(i) => i < self.entries@.len() && self.entries@[i as int].0 == key,
                None => !self.spec_map().contains_key(key),
            },
    {
        let mut i: usize = 0;
        while i < self.entries.len()
            invariant
                i <= self.entries@.len(),
                forall|j: int| 0 <= j < i ==> self.entries@[j].0 != key,
            decreases self.entries@.len() - i,
        {
            if self.entries[i].0 == key {
                return Some(i);
            }
            i = i + 1;
        }
        None
    }

    /// Whether `key` is present.
    pub fn contains_key(&self, key: u64) -> (b: bool)
        ensures
            b == self.spec_map().contains_key(key),
    {
        proof {
            use_type_invariant(self);
        }
        match self.find(key) {
            Some(i) => {
                proof {
                    self.lemma_entry(i as int);
                }
                true
            },
            None => false,
        }
    }

    /// The value stored under `key`, if any.
    pub fn get(&self, key: u64) -> (r: Option<&V>)
        ensures
            match r {
                Some(v) => self.spec_map().contains_key(key) && *v == self.spec_map()[key],
                None => !self.spec_map().contains_key(key),
            },
    {
        proof {
            use_type_invariant(self);
        }
        match self.find(key) {
            Some(i) => {
                proof {
                    self.lemma_entry(i as int);
                }
                Some(&self.entries[i].1)
            },
            None => None,
        }
    }

    /// Stores `value` under `key`, replacing any earlier value.
    pub fn insert(&mut self, key: u64, value: V)
        ensures
            final(self).spec_map() == old(self).spec_map().insert(key, value),
    {
        proof {
            use_type_invariant(&*self);
        }
        let ghost old_self = *self;
        let ghost ins = old_self.spec_map().insert(key, value);
        match self.find(key) {
            Some(i) => {
                let ghost kv = key;
                let mut entries = Vec::new();
                std::mem::swap(&mut entries, &mut self.entries);
                entries.set(i, (key, value));
                let ghost ns = IdMap { entries };
                assert(ns.key_seq() =~= old_self.key_seq()) by {
                    assert forall|j: int| 0 <= j < ns.key_seq().len() implies ns.key_seq()[j] == old_self.key_seq()[j] by {}
                }
                self.entries = entries;
                proof {
                    assert forall|k: u64| #[trigger] ins.contains_key(k) implies self.spec_map().contains_key(k) && self.spec_map()[k] == ins[k] by {
                        if k == kv {
                            self.lemma_entry(i as int);
                        } else {
                            old_self.lemma_dom();
                            let j = old_self.index_of(k);
                            old_self.lemma_entry(j);
                            self.lemma_entry(j);
                        }
                    }
                    assert forall|k: u64| #[trigger] self.spec_map().contains_key(k) implies ins.contains_key(k) by {
                        let j = self.index_of(k);
                        if j != i {
                            old_self.lemma_entry(j);
                        }
                    }
                    assert(self.spec_map() =~= ins);
                }
            },
            None => {
                let ghost kv = key;
                let mut entries = Vec::new();
                std::mem::swap(&mut entries, &mut self.entries);
                entries.push((key, value));
                let ghost ns = IdMap { entries };
                assert(ns.key_seq() =~= old_self.key_seq().push(kv));
                assert(ns.keys_unique()) by {
                    assert forall|a: int, b: int| 0 <= a < b < ns.key_seq().len() implies ns.key_seq()[a] != ns.key_seq()[b] by {
                        if b == ns.key_seq().len() - 1 {
                            assert(old_self.entries@[a].0 == ns.key_seq()[a]);
                            if old_self.entries@[a].0 == kv {
                                old_self.lemma_entry(a);
                            }
                        }
                    }
                }
                self.entries = entries;
                proof {
                    let n = old_self.entries@.len() as int;
                    assert forall|k: u64| #[trigger] ins.contains_key(k) implies self.spec_map().contains_key(k) && self.spec_map()[k] == ins[k] by {
                        if k == kv {
                            self.lemma_entry(n);
                        } else {
                            let j = old_self.index_of(k);
                            old_self.lemma_entry(j);
                            self.lemma_entry(j);
                        }
                    }
                    assert forall|k: u64| #[trigger] self.spec_map().contains_key(k) implies ins.contains_key(k) by {
                        let j = self.index_of(k);
                        if j != n {
                            old_self.lemma_entry(j);
                        }
                    }
                    assert(self.spec_map() =~= ins);
                }
            },
        }
    }

    /// Removes `key`, returning its value if it was present.
    pub fn remove(&mut self, key: u64) -> (r: Option<V>)
        ensures
            final(self).spec_map() == old(self).spec_map().remove(key),
            match r {
                Some(v) => old(self).spec_map().contains_key(key) && v == old(self).spec_map()[key],
                None => !old(self).spec_map().contains_key(key),
            },
    {
        proof {
            use_type_invariant(&*self);
        }
        let ghost old_self = *self;
        match self.find(key) {
            Some(i) => {
                proof {
                    old_self.lemma_entry(i as int);
                }
                let mut entries = Vec::new();
                std::mem::swap(&mut entries, &mut self.entries);
                let (_k, v) = entries.remove(i);
                let ghost ns = IdMap { entries };
                assert(ns.key_seq() =~= old_self.key_seq().remove(i as int));
                assert(ns.keys_unique()) by {
                    assert forall|a: int, b: int| 0 <= a < b < ns.key_seq().len() implies ns.key_seq()[a] != ns.key_seq()[b] by {
                        let oa = if a < i { a } else { a + 1 };
                        let ob = if b < i { b } else { b + 1 };
                        assert(ns.key_seq()[a] == old_self.key_seq()[oa]);
                        assert(ns.key_seq()[b] == old_self.key_seq()[ob]);
                    }
                }
                self.entries = entries;
                proof {
                    let rem = old_self.spec_map().remove(key);
                    assert forall|k: u64| #[trigger] rem.contains_key(k) implies self.spec_map().contains_key(k) && self.spec_map()[k] == rem[k] by {
                        let j = old_self.index_of(k);
                        old_self.lemma_entry(j);
                        assert(j != i);
                        let nj = if j < i { j } else { j - 1 };
                        assert(self.entries@[nj] == old_self.entries@[j]);
                        self.lemma_entry(nj);
                    }
                    assert forall|k: u64| #[trigger] self.spec_map().contains_key(k) implies rem.contains_key(k) by {
                        let j = self.index_of(k);
                        let oj = if j < i { j } else { j + 1 };
                        assert(self.entries@[j] == old_self.entries@[oj]);
                        old_self.lemma_entry(oj);
                    }
                    assert(self.spec_map() =~= rem);
                }
                Some(v)
            },
            None => {
                assert(old_self.spec_map().remove(key) =~= old_self.spec_map());
                None
            },
        }
    }
}

impl<V> IdMap<V> {
    /// All ids, each once, in storage order.
    pub fn keys(&self) -> (r: Vec<u64>)
        ensures
            r@.no_duplicates(),
            r@.to_set() == self.spec_map().dom(),
            r@.len() == self.spec_map().dom().len(),
    {
        proof {
            use_type_invariant(self);
            self.lemma_dom();
        }
        let mut r: Vec<u64> = Vec::new();
        let mut i: usize = 0;
        while i < self.entries.len()
            invariant
                i <= self.entries@.len(),
                r@ == self.key_seq().take(i as int),
            decreases self.entries@.len() - i,
        {
            r.push(self.entries[i].0);
            i = i + 1;
            assert(r@ =~= self.key_seq().take(i as int));
        }
        assert(r@ =~= self.key_seq());
        r
    }
}

} // verus!
