//! A map keyed by strings that remembers the order in which its keys arrived.
//!
//! The routing tables of a broker are all keyed by a topic name or by an
//! address. They are small, and the order in which their entries are walked
//! must not depend on anything but the calls that filled them, so entries are
//! kept in a vector, in the order of first insertion, no key twice.

use vstd::prelude::*;

verus! {

/// An insertion-ordered map from strings to values of type `V`.
pub struct Table<V> {
    keys: Vec<String>,
    values: Vec<V>,
}

impl<V> View for Table<V> {
    type V = Map<Seq<char>, V>;

    /// The map from each key to its value.
    open spec fn view(&self) -> Map<Seq<char>, V> {
        Map::new(
            |key: Seq<char>| self.keys().contains(key),
            |key: Seq<char>| self.values()[self.keys().index_of(key)],
        )
    }
}

impl<V> Table<V> {
    /// The keys, in the order of their first insertion.
    pub closed spec fn keys(&self) -> Seq<Seq<char>> {
        self.keys.deep_view()
    }

    /// The values, each at the position of its key.
    pub closed spec fn values(&self) -> Seq<V> {
        self.values@
    }

    /// Every key has one value, and no key occurs twice.
    pub open spec fn wf(&self) -> bool {
        &&& self.keys().len() == self.values().len()
        &&& self.keys().no_duplicates()
    }

    /// In a well-formed table the key at position `i` maps to the value at
    /// position `i`.
    pub proof fn lemma_entry(&self, i: int)
        requires
            self.wf(),
            0 <= i < self.keys().len(),
        ensures
            self.keys().index_of(self.keys()[i]) == i,
            self@.contains_key(self.keys()[i]),
            self@[self.keys()[i]] == self.values()[i],
    {
        let keys = self.keys();
        assert(keys.contains(keys[i]));
        let j = keys.index_of(keys[i]);
        assert(0 <= j < keys.len() && keys[j] == keys[i]);
    }

    /// The number of entries is the number of keys of the map.
    pub proof fn lemma_len(&self)
        requires
            self.wf(),
        ensures
            self@.dom().finite(),
            self@.len() == self.keys().len(),
    {
        let keys = self.keys();
        assert(self@.dom() =~= keys.to_set());
        vstd::seq_lib::seq_to_set_is_finite(keys);
        keys.unique_seq_to_set();
    }

    /// An empty table.
    pub fn new() -> (table: Self)
        ensures
            table.wf(),
            table@ == Map::<Seq<char>, V>::empty(),
            table.keys() == Seq::<Seq<char>>::empty(),
    {
        let table = Table { keys: Vec::new(), values: Vec::new() };
        assert(table.keys() =~= Seq::<Seq<char>>::empty());
        assert(table@ =~= Map::<Seq<char>, V>::empty());
        table
    }

    /// The number of entries.
    pub fn len(&self) -> (count: usize)
        requires
            self.wf(),
        ensures
            count == self.keys().len(),
            count == self@.len(),
    {
        proof {
            self.lemma_len();
        }
        self.keys.len()
    }

    /// The position of `key` among the keys, if it is present.
    pub fn position(&self, key: &String) -> (found: Option<usize>)
        requires
            self.wf(),
        ensures
            found is Some <==> self@.contains_key(key@),
            found matches Some(i) ==> i < self.keys().len() && self.keys()[i as int] == key@
                && self.keys().index_of(key@) == i,
    {
        let mut i: usize = 0;
        while i < self.keys.len()
            invariant
                self.wf(),
                i <= self.keys.len(),
                forall|j: int| 0 <= j < i ==> self.keys()[j] != key@,
            decreases self.keys.len() - i,
        {
            if self.keys[i] == *key {
                proof {
                    self.lemma_entry(i as int);
                }
                return Some(i);
            }
            i = i + 1;
        }
        None
    }

    /// Whether `key` is present.
    pub fn contains_key(&self, key: &String) -> (present: bool)
        requires
            self.wf(),
        ensures
            present == self@.contains_key(key@),
    {
        self.position(key).is_some()
    }

    /// The value of `key`, if it is present.
    pub fn get(&self, key: &String) -> (value: Option<&V>)
        requires
            self.wf(),
        ensures
            value is Some <==> self@.contains_key(key@),
            value matches Some(v) ==> *v == self@[key@],
    {
        match self.position(key) {
            Some(i) => Some(&self.values[i]),
            None => None,
        }
    }

    /// The key at position `i`.
    pub fn key_at(&self, i: usize) -> (key: &String)
        requires
            self.wf(),
            i < self.keys().len(),
        ensures
            key@ == self.keys()[i as int],
    {
        &self.keys[i]
    }

    /// The value at position `i`.
    pub fn value_at(&self, i: usize) -> (value: &V)
        requires
            self.wf(),
            i < self.keys().len(),
        ensures
            *value == self.values()[i as int],
            *value == self@[self.keys()[i as int]],
    {
        proof {
            self.lemma_entry(i as int);
        }
        &self.values[i]
    }

    /// The value at position `i`, to be changed in place.
    pub fn value_at_mut(&mut self, i: usize) -> (value: &mut V)
        requires
            old(self).wf(),
            i < old(self).keys().len(),
        ensures
            *value == old(self)@[old(self).keys()[i as int]],
            final(self).wf(),
            final(self).keys() == old(self).keys(),
            final(self).values() == old(self).values().update(i as int, *final(value)),
            final(self)@ == old(self)@.insert(old(self).keys()[i as int], *final(value)),
    {
        proof {
            self.lemma_entry(i as int);
        }
        &mut self.values[i]
    }

    /// Sets the value of `key`, and returns the value it had before, if any.
    /// A new key goes behind all others; a present key keeps its position.
    pub fn insert(&mut self, key: String, value: V) -> (previous: Option<V>)
        requires
            old(self).wf(),
        ensures
            final(self).wf(),
            final(self)@ == old(self)@.insert(key@, value),
            previous == old(self)@.get(key@),
            final(self).keys() == if old(self)@.contains_key(key@) {
                old(self).keys()
            } else {
                old(self).keys().push(key@)
            },
    {
        match self.position(&key) {
            Some(i) => {
                let mut value = value;
                let ghost before = *self;
                proof {
                    self.lemma_entry(i as int);
                }
                core::mem::swap(&mut self.values[i], &mut value);
                assert(self.keys() == before.keys());
                assert(self@ =~= before@.insert(key@, self.values()[i as int]));
                Some(value)
            },
            None => {
                let ghost before = *self;
                self.keys.push(key);
                self.values.push(value);
                assert(self.keys() =~= before.keys().push(key@));
                assert(self.values() == before.values().push(value));
                let ghost target = before@.insert(key@, value);
                assert forall|k: Seq<char>| self@.contains_key(k) == target.contains_key(k) by {
                    if self.keys().contains(k) {
                        let j = self.keys().index_of(k);
                        if j < before.keys().len() {
                            assert(before.keys()[j] == k);
                        }
                    }
                    if before.keys().contains(k) {
                        let j = before.keys().index_of(k);
                        assert(self.keys()[j] == k);
                    }
                    if k == key@ {
                        assert(self.keys()[before.keys().len() as int] == k);
                    }
                }
                assert forall|k: Seq<char>| self@.contains_key(k) implies self@[k] == target[k] by {
                    let j = self.keys().index_of(k);
                    if j < before.keys().len() {
                        assert(before.keys()[j] == k);
                        assert(before.keys().index_of(k) == j) by {
                            let h = before.keys().index_of(k);
                            assert(before.keys()[h] == k);
                        }
                    } else {
                        assert(k == key@);
                    }
                }
                assert(self@ =~= before@.insert(key@, value));
                None
            },
        }
    }

    /// Removes `key`, and returns the value it had, if any. The other keys
    /// keep their order.
    pub fn remove(&mut self, key: &String) -> (previous: Option<V>)
        requires
            old(self).wf(),
        ensures
            final(self).wf(),
            final(self)@ == old(self)@.remove(key@),
            previous == old(self)@.get(key@),
            final(self).keys() == if old(self)@.contains_key(key@) {
                old(self).keys().remove(old(self).keys().index_of(key@))
            } else {
                old(self).keys()
            },
    {
        match self.position(key) {
            Some(i) => {
                let ghost before = *self;
                proof {
                    self.lemma_entry(i as int);
                }
                self.keys.remove(i);
                let value = self.values.remove(i);
                assert(self.keys() =~= before.keys().remove(i as int));
                assert(self.values() =~= before.values().remove(i as int));
                assert forall|k: Seq<char>| #[trigger]
                    before.keys().contains(k) && k != key@ implies self.keys().contains(k)
                    && self.values()[self.keys().index_of(k)] == before.values()[before.keys().index_of(
                    k,
                )] by {
                    let j = before.keys().index_of(k);
                    let moved = if j < i { j } else { j - 1 };
                    assert(self.keys()[moved] == k);
                    assert(self.keys().contains(k));
                    let found = self.keys().index_of(k);
                    let origin = if found < i { found } else { found + 1 };
                    assert(before.keys()[origin] == k);
                }
                assert forall|k: Seq<char>| #[trigger] self.keys().contains(k) implies before.keys().contains(k)
                    && k != key@ by {
                    let found = self.keys().index_of(k);
                    let origin = if found < i { found } else { found + 1 };
                    assert(before.keys()[origin] == k);
                }
                assert(self@ =~= before@.remove(key@));
                Some(value)
            },
            None => {
                assert(self@ =~= old(self)@.remove(key@));
                None
            },
        }
    }
}

} // verus!
