//! Keyed stores: values held in a vector, found through a `hashbrown` index
//! from key to slot.
use vstd::prelude::*;

verus! {

/// A `hashbrown` map from string keys to slots.
#[verifier::external_body]
pub struct StrIndex {
    map: hashbrown::HashMap<String, usize>,
}

/// The key-to-slot pairs that a `StrIndex` holds.
pub uninterp spec fn str_index_contents(m: StrIndex) -> Map<Seq<char>, usize>;

impl StrIndex {
    /// `hashbrown::HashMap::new`: an empty map.
    #[verifier::external_body]
    pub(crate) fn new() -> (r: StrIndex)
        ensures
            str_index_contents(r).is_empty(),
    {
        StrIndex { map: hashbrown::HashMap::new() }
    }

    /// `hashbrown::HashMap::get`: the slot stored under `key`, if any. String
    /// keys are equal exactly when their characters are.
    #[verifier::external_body]
    pub(crate) fn get(&self, key: &str) -> (r: Option<usize>)
        ensures
            r == str_index_contents(*self).get(key@),
    {
        self.map.get(key).copied()
    }

    /// `hashbrown::HashMap::insert`: stores `slot` under `key`, replacing any
    /// slot stored there before.
    #[verifier::external_body]
    pub(crate) fn insert(&mut self, key: String, slot: usize)
        ensures
            str_index_contents(*final(self)) == str_index_contents(*old(self)).insert(key@, slot),
    {
        self.map.insert(key, slot);
    }

    /// `hashbrown::HashMap::remove`: drops the entry for `key`, if any.
    #[verifier::external_body]
    pub(crate) fn remove(&mut self, key: &str)
        ensures
            str_index_contents(*final(self)) == str_index_contents(*old(self)).remove(key@),
    {
        self.map.remove(key);
    }
}

/// A `hashbrown` map from 64-bit keys to slots.
#[verifier::external_body]
pub struct U64Index {
    map: hashbrown::HashMap<u64, usize>,
}

/// The key-to-slot pairs that a `U64Index` holds.
pub uninterp spec fn u64_index_contents(m: U64Index) -> Map<u64, usize>;

impl U64Index {
    /// `hashbrown::HashMap::new`: an empty map.
    #[verifier::external_body]
    pub(crate) fn new() -> (r: U64Index)
        ensures
            u64_index_contents(r).is_empty(),
    {
        U64Index { map: hashbrown::HashMap::new() }
    }

    /// `hashbrown::HashMap::get`: the slot stored under `key`, if any.
    #[verifier::external_body]
    pub(crate) fn get(&self, key: u64) -> (r: Option<usize>)
        ensures
            r == u64_index_contents(*self).get(key),
    {
        self.map.get(&key).copied()
    }

    /// `hashbrown::HashMap::insert`: stores `slot` under `key`, replacing any
    /// slot stored there before.
    #[verifier::external_body]
    pub(crate) fn insert(&mut self, key: u64, slot: usize)
        ensures
            u64_index_contents(*final(self)) == u64_index_contents(*old(self)).insert(key, slot),
    {
        self.map.insert(key, slot);
    }

    /// `hashbrown::HashMap::remove`: drops the entry for `key`, if any.
    #[verifier::external_body]
    pub(crate) fn remove(&mut self, key: u64)
        ensures
            u64_index_contents(*final(self)) == u64_index_contents(*old(self)).remove(key),
    {
        self.map.remove(&key);
    }
}

/// Values stored under string keys.
pub struct NamedStore<V> {
    index: StrIndex,
    names: Vec<String>,
    values: Vec<V>,
}

impl<V> NamedStore<V> {
    /// The index and the slots agree: every key names the slot whose name it
    /// is, and every slot is named by its key.
    pub closed spec fn wf(&self) -> bool {
        let m = str_index_contents(self.index);
        &&& self.names@.len() == self.values@.len()
        &&& forall|i: int| 0 <= i < self.names@.len() ==> #[trigger] m.contains_key(self.names@[i]@) && m[self.names@[i]@] == i
        &&& forall|k: Seq<char>| #[trigger] m.contains_key(k) ==> m[k] < self.names@.len() && self.names@[m[k] as int]@ == k
    }

    /// The keys, in slot order.
    pub closed spec fn key_seq(&self) -> Seq<Seq<char>> {
        self.names@.map_values(|s: String| s@)
    }

    /// The stored values, keyed.
    pub closed spec fn view(&self) -> Map<Seq<char>, V> {
        let m = str_index_contents(self.index);
        Map::new(|k: Seq<char>| m.contains_key(k), |k: Seq<char>| self.values@[m[k] as int])
    }

    /// An empty store.
    pub fn new() -> (r: Self)
        ensures
            r.wf(),
            r.view() == Map::<Seq<char>, V>::empty(),
            r.key_seq().len() == 0,
    {
        let r = NamedStore { index: StrIndex::new(), names: Vec::new(), values: Vec::new() };
        assert(r.view() =~= Map::<Seq<char>, V>::empty());
        r
    }

    /// Number of stored keys.
    pub fn len(&self) -> (r: usize)
        requires
            self.wf(),
        ensures
            r == self.key_seq().len(),
            r == self.view().dom().len(),
    {
        proof {
            self.lemma_dom_is_keys();
        }
        self.names.len()
    }

    /// The keys are those of the view, each once.
    pub proof fn lemma_keys(&self)
        requires
            self.wf(),
        ensures
            forall|i: int| 0 <= i < self.key_seq().len() ==> #[trigger] self.view().contains_key(self.key_seq()[i]),
            forall|k: Seq<char>| #[trigger] self.view().contains_key(k) ==> self.key_seq().contains(k),
            forall|i: int, j: int| 0 <= i < j < self.key_seq().len() ==> self.key_seq()[i] != self.key_seq()[j],
            self.view().dom().finite(),
    {
        let m = str_index_contents(self.index);
        assert forall|i: int| 0 <= i < self.key_seq().len() implies #[trigger] self.view().contains_key(self.key_seq()[i]) by {
            assert(self.key_seq()[i] == self.names@[i]@);
        }
        assert forall|k: Seq<char>| #[trigger] self.view().contains_key(k) implies self.key_seq().contains(k) by {
            assert(self.key_seq()[m[k] as int] == k);
        }
        assert forall|i: int, j: int| 0 <= i < j < self.key_seq().len() implies self.key_seq()[i] != self.key_seq()[j] by {
            assert(self.key_seq()[i] == self.names@[i]@);
            assert(self.key_seq()[j] == self.names@[j]@);
            assert(m.contains_key(self.names@[i]@));
            assert(m.contains_key(self.names@[j]@));
        }
        self.lemma_dom_is_keys();
    }

    proof fn lemma_dom_is_keys(&self)
        requires
            self.wf(),
        ensures
            self.view().dom() == self.key_seq().to_set(),
            self.view().dom().finite(),
            self.view().dom().len() == self.key_seq().len(),
    {
        let m = str_index_contents(self.index);
        assert forall|k: Seq<char>| self.view().dom().contains(k) <==> self.key_seq().to_set().contains(k) by {
            if self.view().dom().contains(k) {
                assert(self.key_seq()[m[k] as int] == k);
            }
            if self.key_seq().to_set().contains(k) {
                let i = choose|i: int| 0 <= i < self.key_seq().len() && self.key_seq()[i] == k;
                assert(self.key_seq()[i] == self.names@[i]@);
                assert(m.contains_key(self.names@[i]@));
            }
        }
        assert(self.view().dom() =~= self.key_seq().to_set());
        assert forall|i: int, j: int| 0 <= i < j < self.key_seq().len() implies self.key_seq()[i] != self.key_seq()[j] by {
            assert(self.key_seq()[i] == self.names@[i]@);
            assert(self.key_seq()[j] == self.names@[j]@);
            assert(m.contains_key(self.names@[i]@));
            assert(m.contains_key(self.names@[j]@));
        }
        self.key_seq().unique_seq_to_set();
    }

    /// The key of slot `i`, in slot order.
    pub fn key_at(&self, i: usize) -> (r: &String)
        requires
            self.wf(),
            i < self.key_seq().len(),
        ensures
            r@ == self.key_seq()[i as int],
    {
        &self.names[i]
    }

    /// The value of slot `i`, in slot order.
    pub fn value_at(&self, i: usize) -> (r: &V)
        requires
            self.wf(),
            i < self.key_seq().len(),
        ensures
            self.view().contains_key(self.key_seq()[i as int]),
            *r == self.view()[self.key_seq()[i as int]],
    {
        proof {
            assert(self.key_seq()[i as int] == self.names@[i as int]@);
        }
        &self.values[i]
    }

    /// The value stored under `key`, if any.
    pub fn get(&self, key: &str) -> (r: Option<&V>)
        requires
            self.wf(),
        ensures
            match r {
                Some(v) => self.view().contains_key(key@) && *v == self.view()[key@],
                None => !self.view().contains_key(key@),
            },
    {
        match self.index.get(key) {
            Some(slot) => Some(&self.values[slot]),
            None => None,
        }
    }

    /// Whether a value is stored under `key`.
    pub fn contains_key(&self, key: &str) -> (r: bool)
        requires
            self.wf(),
        ensures
            r == self.view().contains_key(key@),
    {
        self.index.get(key).is_some()
    }

    /// Stores `value` under `key`, replacing any value stored there before.
    pub fn insert(&mut self, key: String, value: V)
        requires
            old(self).wf(),
        ensures
            final(self).wf(),
            final(self).view() == old(self).view().insert(key@, value),
    {
        let ghost m0 = str_index_contents(self.index);
        match self.index.get(key.as_str()) {
            Some(slot) => {
                self.values.set(slot, value);
                proof {
                    assert(self.view() =~= old(self).view().insert(key@, value));
                }
            },
            None => {
                let slot = self.names.len();
                let k2 = key.clone();
                self.index.insert(key, slot);
                self.names.push(k2);
                self.values.push(value);
                proof {
                    let m = str_index_contents(self.index);
                    assert(m == m0.insert(key@, slot));
                    assert forall|i: int| 0 <= i < self.names@.len() implies #[trigger] m.contains_key(self.names@[i]@) && m[self.names@[i]@] == i by {
                        if i < slot {
                            assert(self.names@[i] == old(self).names@[i]);
                            assert(m0.contains_key(old(self).names@[i]@));
                            assert(old(self).names@[i]@ != key@);
                        }
                    }
                    assert forall|k: Seq<char>| #[trigger] m.contains_key(k) implies m[k] < self.names@.len() && self.names@[m[k] as int]@ == k by {
                        if k != key@ {
                            assert(m0.contains_key(k));
                        }
                    }
                    assert(self.view() =~= old(self).view().insert(key@, value));
                }
            },
        }
    }

    /// Drops the value stored under `key`, if any.
    pub fn remove(&mut self, key: &str)
        requires
            old(self).wf(),
        ensures
            final(self).wf(),
            final(self).view() == old(self).view().remove(key@),
    {
        let ghost m0 = str_index_contents(self.index);
        match self.index.get(key) {
            None => {
                assert(self.view() =~= old(self).view().remove(key@));
            },
            Some(slot) => {
                let last = self.names.len() - 1;
                self.index.remove(key);
                if slot != last {
                    let moved = self.names[last].clone();
                    let ghost mv = moved@;
                    assert(mv == old(self).names@[last as int]@);
                    self.index.insert(moved, slot);
                }
                self.names.swap_remove(slot);
                self.values.swap_remove(slot);
                proof {
                    let m = str_index_contents(self.index);
                    let n0 = old(self).names@;
                    assert(n0[slot as int]@ == key@);
                    if slot != last {
                        assert(m == m0.remove(key@).insert(n0[last as int]@, slot));
                        assert(n0[last as int]@ != key@);
                        assert forall|i: int| 0 <= i < self.names@.len() implies #[trigger] m.contains_key(self.names@[i]@) && m[self.names@[i]@] == i by {
                            if i == slot {
                                assert(self.names@[i] == n0[last as int]);
                            } else {
                                assert(self.names@[i] == n0[i]);
                                assert(m0.contains_key(n0[i]@));
                                assert(n0[i]@ != key@);
                                assert(m0[n0[i]@] == i);
                                assert(n0[i]@ != n0[last as int]@) by {
                                    assert(m0.contains_key(old(self).names@[last as int]@));
                                    assert(m0[n0[last as int]@] == last);
                                }
                            }
                        }
                        assert forall|k: Seq<char>| #[trigger] m.contains_key(k) implies m[k] < self.names@.len() && self.names@[m[k] as int]@ == k by {
                            if k != n0[last as int]@ {
                                assert(m0.contains_key(k) && k != key@);
                                assert(m0[k] != slot);
                                if m0[k] == last {
                                    assert(n0[last as int]@ == k);
                                }
                                assert(self.names@[m0[k] as int] == n0[m0[k] as int]);
                            }
                        }
                        assert forall|k: Seq<char>| self.view().contains_key(k) implies self.view()[k] == old(self).view().remove(key@)[k] by {
                            assert(m0.contains_key(old(self).names@[last as int]@));
                            if k == n0[last as int]@ {
                                assert(m0[k] == last);
                                assert(self.values@[slot as int] == old(self).values@[last as int]);
                            } else {
                                assert(m0.contains_key(k) && k != key@);
                                assert(m[k] == m0[k]);
                                assert(m0[k] != slot);
                                assert(m0[k] != last);
                                assert(self.values@[m[k] as int] == old(self).values@[m0[k] as int]);
                            }
                        }
                    } else {
                        assert(m == m0.remove(key@));
                        assert forall|i: int| 0 <= i < self.names@.len() implies #[trigger] m.contains_key(self.names@[i]@) && m[self.names@[i]@] == i by {
                            assert(self.names@[i] == n0[i]);
                            assert(m0.contains_key(n0[i]@));
                            assert(n0[i]@ != key@);
                        }
                        assert forall|k: Seq<char>| #[trigger] m.contains_key(k) implies m[k] < self.names@.len() && self.names@[m[k] as int]@ == k by {
                            assert(m0.contains_key(k) && k != key@);
                            assert(m0[k] != slot);
                            assert(self.names@[m0[k] as int] == n0[m0[k] as int]);
                        }
                        assert forall|k: Seq<char>| self.view().contains_key(k) implies self.view()[k] == old(self).view().remove(key@)[k] by {
                            assert(self.values@[m[k] as int] == old(self).values@[m0[k] as int]);
                        }
                    }
                    assert(self.view() =~= old(self).view().remove(key@));
                }
            },
        }
    }
}

/// Values stored under 64-bit keys.
pub struct U64Store<V> {
    index: U64Index,
    keys: Vec<u64>,
    values: Vec<V>,
}

impl<V> U64Store<V> {
    /// The index and the slots agree: every key names the slot whose name it
    /// is, and every slot is named by its key.
    pub closed spec fn wf(&self) -> bool {
        let m = u64_index_contents(self.index);
        &&& self.keys@.len() == self.values@.len()
        &&& forall|i: int| 0 <= i < self.keys@.len() ==> #[trigger] m.contains_key(self.keys@[i]) && m[self.keys@[i]] == i
        &&& forall|k: u64| #[trigger] m.contains_key(k) ==> m[k] < self.keys@.len() && self.keys@[m[k] as int] == k
    }

    /// The keys, in slot order.
    pub closed spec fn key_seq(&self) -> Seq<u64> {
        self.keys@
    }

    /// The stored values, keyed.
    pub closed spec fn view(&self) -> Map<u64, V> {
        let m = u64_index_contents(self.index);
        Map::new(|k: u64| m.contains_key(k), |k: u64| self.values@[m[k] as int])
    }

    /// An empty store.
    pub fn new() -> (r: Self)
        ensures
            r.wf(),
            r.view() == Map::<u64, V>::empty(),
            r.key_seq().len() == 0,
    {
        let r = U64Store { index: U64Index::new(), keys: Vec::new(), values: Vec::new() };
        assert(r.view() =~= Map::<u64, V>::empty());
        r
    }

    /// Number of stored keys.
    pub fn len(&self) -> (r: usize)
        requires
            self.wf(),
        ensures
            r == self.key_seq().len(),
            r == self.view().dom().len(),
    {
        proof {
            self.lemma_dom_is_keys();
        }
        self.keys.len()
    }

    /// The keys are those of the view, each once.
    pub proof fn lemma_keys(&self)
        requires
            self.wf(),
        ensures
            forall|i: int| 0 <= i < self.key_seq().len() ==> #[trigger] self.view().contains_key(self.key_seq()[i]),
            forall|k: u64| #[trigger] self.view().contains_key(k) ==> self.key_seq().contains(k),
            forall|i: int, j: int| 0 <= i < j < self.key_seq().len() ==> self.key_seq()[i] != self.key_seq()[j],
            self.view().dom().finite(),
    {
        let m = u64_index_contents(self.index);
        assert forall|i: int| 0 <= i < self.key_seq().len() implies #[trigger] self.view().contains_key(self.key_seq()[i]) by {
            assert(self.key_seq()[i] == self.keys@[i]);
        }
        assert forall|k: u64| #[trigger] self.view().contains_key(k) implies self.key_seq().contains(k) by {
            assert(self.key_seq()[m[k] as int] == k);
        }
        assert forall|i: int, j: int| 0 <= i < j < self.key_seq().len() implies self.key_seq()[i] != self.key_seq()[j] by {
            assert(self.key_seq()[i] == self.keys@[i]);
            assert(self.key_seq()[j] == self.keys@[j]@);
            assert(m.contains_key(self.keys@[i]));
            assert(m.contains_key(self.keys@[j]@));
        }
        self.lemma_dom_is_keys();
    }

    proof fn lemma_dom_is_keys(&self)
        requires
            self.wf(),
        ensures
            self.view().dom() == self.key_seq().to_set(),
            self.view().dom().finite(),
            self.view().dom().len() == self.key_seq().len(),
    {
        let m = u64_index_contents(self.index);
        assert forall|k: u64| self.view().dom().contains(k) <==> self.key_seq().to_set().contains(k) by {
            if self.view().dom().contains(k) {
                assert(self.key_seq()[m[k] as int] == k);
            }
            if self.key_seq().to_set().contains(k) {
                let i = choose|i: int| 0 <= i < self.key_seq().len() && self.key_seq()[i] == k;
                assert(self.key_seq()[i] == self.keys@[i]);
                assert(m.contains_key(self.keys@[i]));
            }
        }
        assert(self.view().dom() =~= self.key_seq().to_set());
        assert forall|i: int, j: int| 0 <= i < j < self.key_seq().len() implies self.key_seq()[i] != self.key_seq()[j] by {
            assert(self.key_seq()[i] == self.keys@[i]);
            assert(self.key_seq()[j] == self.keys@[j]@);
            assert(m.contains_key(self.keys@[i]));
            assert(m.contains_key(self.keys@[j]@));
        }
        self.key_seq().unique_seq_to_set();
    }

    /// The key of slot `i`, in slot order.
    pub fn key_at(&self, i: usize) -> (r: u64)
        requires
            self.wf(),
            i < self.key_seq().len(),
        ensures
            r == self.key_seq()[i as int],
    {
        self.keys[i]
    }

    /// The value of slot `i`, in slot order.
    pub fn value_at(&self, i: usize) -> (r: &V)
        requires
            self.wf(),
            i < self.key_seq().len(),
        ensures
            self.view().contains_key(self.key_seq()[i as int]),
            *r == self.view()[self.key_seq()[i as int]],
    {
        proof {
            assert(self.key_seq()[i as int] == self.keys@[i as int]@);
        }
        &self.values[i]
    }

    /// The value stored under `key`, if any.
    pub fn get(&self, key: u64) -> (r: Option<&V>)
        requires
            self.wf(),
        ensures
            match r {
                Some(v) => self.view().contains_key(key) && *v == self.view()[key],
                None => !self.view().contains_key(key),
            },
    {
        match self.index.get(key) {
            Some(slot) => Some(&self.values[slot]),
            None => None,
        }
    }

    /// Whether a value is stored under `key`.
    pub fn contains_key(&self, key: u64) -> (r: bool)
        requires
            self.wf(),
        ensures
            r == self.view().contains_key(key),
    {
        self.index.get(key).is_some()
    }

    /// Stores `value` under `key`, replacing any value stored there before.
    pub fn insert(&mut self, key: u64, value: V)
        requires
            old(self).wf(),
        ensures
            final(self).wf(),
            final(self).view() == old(self).view().insert(key, value),
    {
        let ghost m0 = u64_index_contents(self.index);
        match self.index.get(key) {
            Some(slot) => {
                self.values.set(slot, value);
                proof {
                    assert(self.view() =~= old(self).view().insert(key, value));
                }
            },
            None => {
                let slot = self.keys.len();
                self.index.insert(key, slot);
                self.keys.push(key);
                self.values.push(value);
                proof {
                    let m = u64_index_contents(self.index);
                    assert(m == m0.insert(key, slot));
                    assert forall|i: int| 0 <= i < self.keys@.len() implies #[trigger] m.contains_key(self.keys@[i]) && m[self.keys@[i]] == i by {
                        if i < slot {
                            assert(self.keys@[i] == old(self).keys@[i]);
                            assert(m0.contains_key(old(self).keys@[i]));
                            assert(old(self).keys@[i] != key);
                        }
                    }
                    assert forall|k: u64| #[trigger] m.contains_key(k) implies m[k] < self.keys@.len() && self.keys@[m[k] as int] == k by {
                        if k != key {
                            assert(m0.contains_key(k));
                        }
                    }
                    assert(self.view() =~= old(self).view().insert(key, value));
                }
            },
        }
    }

    /// Drops the value stored under `key`, if any.
    pub fn remove(&mut self, key: u64)
        requires
            old(self).wf(),
        ensures
            final(self).wf(),
            final(self).view() == old(self).view().remove(key),
    {
        let ghost m0 = u64_index_contents(self.index);
        match self.index.get(key) {
            None => {
                assert(self.view() =~= old(self).view().remove(key));
            },
            Some(slot) => {
                let last = self.keys.len() - 1;
                self.index.remove(key);
                if slot != last {
                    let moved = self.keys[last].clone();
                    let ghost mv = moved@;
                    assert(mv == old(self).keys@[last as int]);
                    self.index.insert(moved, slot);
                }
                self.keys.swap_remove(slot);
                self.values.swap_remove(slot);
                proof {
                    let m = u64_index_contents(self.index);
                    let n0 = old(self).keys@;
                    assert(n0[slot as int] == key);
                    if slot != last {
                        assert(m == m0.remove(key).insert(n0[last as int], slot));
                        assert(n0[last as int] != key);
                        assert forall|i: int| 0 <= i < self.keys@.len() implies #[trigger] m.contains_key(self.keys@[i]) && m[self.keys@[i]] == i by {
                            if i == slot {
                                assert(self.keys@[i] == n0[last as int]);
                            } else {
                                assert(self.keys@[i] == n0[i]);
                                assert(m0.contains_key(n0[i]));
                                assert(n0[i] != key);
                                assert(m0[n0[i]] == i);
                                assert(n0[i] != n0[last as int]) by {
                                    assert(m0.contains_key(old(self).keys@[last as int]));
                                    assert(m0[n0[last as int]] == last);
                                }
                            }
                        }
                        assert forall|k: u64| #[trigger] m.contains_key(k) implies m[k] < self.keys@.len() && self.keys@[m[k] as int] == k by {
                            if k != n0[last as int] {
                                assert(m0.contains_key(k) && k != key);
                                assert(m0[k] != slot);
                                if m0[k] == last {
                                    assert(n0[last as int] == k);
                                }
                                assert(self.keys@[m0[k] as int] == n0[m0[k] as int]);
                            }
                        }
                        assert forall|k: u64| self.view().contains_key(k) implies self.view()[k] == old(self).view().remove(key)[k] by {
                            assert(m0.contains_key(old(self).keys@[last as int]));
                            if k == n0[last as int] {
                                assert(m0[k] == last);
                                assert(self.values@[slot as int] == old(self).values@[last as int]);
                            } else {
                                assert(m0.contains_key(k) && k != key);
                                assert(m[k] == m0[k]);
                                assert(m0[k] != slot);
                                assert(m0[k] != last);
                                assert(self.values@[m[k] as int] == old(self).values@[m0[k] as int]);
                            }
                        }
                    } else {
                        assert(m == m0.remove(key));
                        assert forall|i: int| 0 <= i < self.keys@.len() implies #[trigger] m.contains_key(self.keys@[i]) && m[self.keys@[i]] == i by {
                            assert(self.keys@[i] == n0[i]);
                            assert(m0.contains_key(n0[i]));
                            assert(n0[i] != key);
                        }
                        assert forall|k: u64| #[trigger] m.contains_key(k) implies m[k] < self.keys@.len() && self.keys@[m[k] as int] == k by {
                            assert(m0.contains_key(k) && k != key);
                            assert(m0[k] != slot);
                            assert(self.keys@[m0[k] as int] == n0[m0[k] as int]);
                        }
                        assert forall|k: u64| self.view().contains_key(k) implies self.view()[k] == old(self).view().remove(key)[k] by {
                            assert(self.values@[m[k] as int] == old(self).values@[m0[k] as int]);
                        }
                    }
                    assert(self.view() =~= old(self).view().remove(key));
                }
            },
        }
    }
}


impl<T> U64Store<Vec<T>> {
    /// Appends `item` to the list stored under `key`, starting a list when
    /// there is none.
    pub fn push_to(&mut self, key: u64, item: T)
        requires
            old(self).wf(),
        ensures
            final(self).wf(),
            final(self).view().dom() == old(self).view().dom().insert(key),
            final(self).view()[key]@ == (if old(self).view().contains_key(key) {
                old(self).view()[key]@
            } else {
                Seq::<T>::empty()
            }).push(item),
            forall|k: u64| k != key && #[trigger] old(self).view().contains_key(k) ==> final(self).view()[k] == old(self).view()[k],
    {
        match self.index.get(key) {
            Some(slot) => {
                let mut cur: Vec<T> = Vec::new();
                std::mem::swap(&mut cur, &mut self.values[slot]);
                cur.push(item);
                let ghost pushed = cur@;
                self.values.set(slot, cur);
                proof {
                    assert(self.view().dom() =~= old(self).view().dom().insert(key));
                    assert(self.view()[key]@ == pushed);
                }
            },
            None => {
                let mut v: Vec<T> = Vec::new();
                v.push(item);
                self.insert(key, v);
                proof {
                    assert(final(self).view().dom() =~= old(self).view().dom().insert(key));
                }
            },
        }
    }
}

} // verus!
