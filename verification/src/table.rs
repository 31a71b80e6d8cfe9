//! A map from text keys to values.

use vstd::prelude::*;

use crate::text::{is_sorted, lemma_same_elements, sort_texts, texts};

verus! {

/// The map that pairs each key with the value at the same place.
pub open spec fn pairing<K, V>(keys: Seq<K>, values: Seq<V>) -> Map<K, V> {
    Map::new(|k: K| keys.contains(k), |k: K| values[keys.index_of(k)])
}

/// Where no key occurs twice, the place of a key is the only one that holds it.
pub proof fn lemma_index_of<K>(keys: Seq<K>, i: int)
    requires
        keys.no_duplicates(),
        0 <= i < keys.len(),
    ensures
        keys.contains(keys[i]),
        keys.index_of(keys[i]) == i,
{
    let j = keys.index_of(keys[i]);
    assert(keys[j] == keys[i]);
}

/// Changing the value at one place changes the map at that key alone.
pub proof fn lemma_pairing_update<K, V>(keys: Seq<K>, values: Seq<V>, i: int, v: V)
    requires
        keys.no_duplicates(),
        keys.len() == values.len(),
        0 <= i < keys.len(),
    ensures
        pairing(keys, values.update(i, v)) == pairing(keys, values).insert(keys[i], v),
{
    let left = pairing(keys, values.update(i, v));
    let right = pairing(keys, values).insert(keys[i], v);
    lemma_index_of(keys, i);
    assert forall|k: K| #[trigger] left.contains_key(k) implies left[k] == right[k] by {
        if k != keys[i] {
            assert(keys[keys.index_of(k)] == k);
        }
    }
    assert(left =~= right);
}

/// Appending a new key adds one entry.
pub proof fn lemma_pairing_push<K, V>(keys: Seq<K>, values: Seq<V>, key: K, v: V)
    requires
        keys.no_duplicates(),
        keys.len() == values.len(),
        !keys.contains(key),
    ensures
        keys.push(key).no_duplicates(),
        pairing(keys.push(key), values.push(v)) == pairing(keys, values).insert(key, v),
{
    let names = keys.push(key);
    let left = pairing(names, values.push(v));
    let right = pairing(keys, values).insert(key, v);
    assert forall|k: K| #[trigger] left.contains_key(k) <==> right.contains_key(k) by {
        if keys.contains(k) {
            assert(names[keys.index_of(k)] == k);
        }
        if k == key {
            assert(names[keys.len() as int] == k);
        }
    }
    assert forall|k: K| #[trigger] left.contains_key(k) implies left[k] == right[k] by {
        if k == key {
            lemma_index_of(names, keys.len() as int);
        } else {
            let i = keys.index_of(k);
            assert(keys.contains(k));
            assert(names[i] == k);
            lemma_index_of(names, i);
        }
    }
    assert(left =~= right);
}

/// Removing one place removes the entry of its key.
pub proof fn lemma_pairing_remove<K, V>(keys: Seq<K>, values: Seq<V>, i: int)
    requires
        keys.no_duplicates(),
        keys.len() == values.len(),
        0 <= i < keys.len(),
    ensures
        keys.remove(i).no_duplicates(),
        pairing(keys.remove(i), values.remove(i)) == pairing(keys, values).remove(keys[i]),
{
    let rest = keys.remove(i);
    assert forall|a: int, b: int| 0 <= a < rest.len() && 0 <= b < rest.len() && a != b implies rest[a] != rest[b] by {
        let a2 = if a < i { a } else { a + 1 };
        let b2 = if b < i { b } else { b + 1 };
        assert(rest[a] == keys[a2] && rest[b] == keys[b2]);
    }
    let left = pairing(rest, values.remove(i));
    let right = pairing(keys, values).remove(keys[i]);
    assert forall|k: K| #[trigger] left.contains_key(k) <==> right.contains_key(k) by {
        if rest.contains(k) {
            let a = rest.index_of(k);
            let a2 = if a < i { a } else { a + 1 };
            assert(keys[a2] == k);
            assert(a2 != i);
        }
        if keys.contains(k) && k != keys[i] {
            let a2 = keys.index_of(k);
            let a = if a2 < i { a2 } else { a2 - 1 };
            assert(rest[a] == k);
        }
    }
    assert forall|k: K| #[trigger] left.contains_key(k) implies left[k] == right[k] by {
        let a = rest.index_of(k);
        assert(rest.contains(k));
        let a2 = if a < i { a } else { a + 1 };
        assert(keys[a2] == k);
        lemma_index_of(keys, a2);
    }
    assert(left =~= right);
}

/// Putting a new key at a place adds one entry.
pub proof fn lemma_pairing_insert<K, V>(keys: Seq<K>, values: Seq<V>, i: int, key: K, v: V)
    requires
        keys.no_duplicates(),
        keys.len() == values.len(),
        0 <= i <= keys.len(),
        !keys.contains(key),
    ensures
        keys.insert(i, key).no_duplicates(),
        pairing(keys.insert(i, key), values.insert(i, v)) == pairing(keys, values).insert(key, v),
{
    let names = keys.insert(i, key);
    let left = pairing(names, values.insert(i, v));
    let right = pairing(keys, values).insert(key, v);
    assert forall|a: int, b: int| 0 <= a < names.len() && 0 <= b < names.len() && a != b implies names[a] != names[b] by {
        let a2 = if a < i { a } else { a - 1 };
        let b2 = if b < i { b } else { b - 1 };
        if a != i {
            assert(names[a] == keys[a2]);
        }
        if b != i {
            assert(names[b] == keys[b2]);
        }
    }
    assert forall|k: K| #[trigger] left.contains_key(k) <==> right.contains_key(k) by {
        if keys.contains(k) {
            let a = keys.index_of(k);
            assert(names[if a < i { a } else { a + 1 }] == k);
        }
        if k == key {
            assert(names[i] == k);
        }
        if names.contains(k) && k != key {
            let a = names.index_of(k);
            assert(keys[if a < i { a } else { a - 1 }] == k);
        }
    }
    assert forall|k: K| #[trigger] left.contains_key(k) implies left[k] == right[k] by {
        if k == key {
            assert(names[i] == k);
            lemma_index_of(names, i);
        } else {
            assert(right.contains_key(k));
            let a = keys.index_of(k);
            assert(keys.contains(k));
            let b = if a < i { a } else { a + 1 };
            assert(names[b] == k);
            lemma_index_of(names, b);
        }
    }
    assert(left =~= right);
}

/// A map from text keys to values. No key occurs twice; the entries keep the
/// order in which their keys were inserted.
pub struct Table<V> {
    names: Vec<String>,
    cells: Vec<V>,
}

impl<V> Table<V> {
    /// The keys, oldest first.
    pub closed spec fn keys(&self) -> Seq<Seq<char>> {
        self.names@.map_values(|k: String| k@)
    }

    /// The values, in the order of their keys.
    pub closed spec fn values(&self) -> Seq<V> {
        self.cells@
    }

    /// The map from each key to its value.
    pub open spec fn view(&self) -> Map<Seq<char>, V> {
        pairing(self.keys(), self.values())
    }

    /// No key occurs twice, and every key has a value.
    pub open spec fn wf(&self) -> bool {
        &&& self.keys().no_duplicates()
        &&& self.keys().len() == self.values().len()
    }

    /// The empty table.
    pub fn new() -> (r: Self)
        ensures
            r.wf(),
            r@ == Map::<Seq<char>, V>::empty(),
            r.keys() == Seq::<Seq<char>>::empty(),
            r.values() == Seq::<V>::empty(),
    {
        let r = Table { names: Vec::new(), cells: Vec::new() };
        proof {
            assert(r.keys() =~= Seq::empty());
            assert(r.values() =~= Seq::empty());
            assert(r@ =~= Map::empty());
        }
        r
    }

    /// The number of entries.
    pub fn len(&self) -> (r: usize)
        ensures
            r == self.keys().len(),
    {
        self.names.len()
    }

    /// Whether there are no entries.
    pub fn is_empty(&self) -> (r: bool)
        ensures
            r == (self.keys().len() == 0),
    {
        self.names.len() == 0
    }

    /// The place of `key`, if it has an entry.
    pub fn position(&self, key: &str) -> (r: Option<usize>)
        requires
            self.wf(),
        ensures
            match r {
                Some(i) => {
                    &&& i < self.keys().len()
                    &&& self.keys()[i as int] == key@
                    &&& self.keys().index_of(key@) == i
                    &&& self@.contains_key(key@)
                    &&& self@[key@] == self.values()[i as int]
                },
                None => !self@.contains_key(key@) && !self.keys().contains(key@),
            },
    {
        let wanted = key.to_owned();
        let mut i: usize = 0;
        while i < self.names.len()
            invariant
                i <= self.names.len(),
                wanted@ == key@,
                self.wf(),
                forall|j: int| 0 <= j < i ==> self.keys()[j] != key@,
            decreases self.names.len() - i,
        {
            if self.names[i] == wanted {
                proof {
                    assert(self.keys()[i as int] == key@);
                    lemma_index_of(self.keys(), i as int);
                }
                return Some(i);
            }
            i = i + 1;
        }
        None
    }

    /// Whether `key` has an entry.
    pub fn contains(&self, key: &str) -> (r: bool)
        requires
            self.wf(),
        ensures
            r == self@.contains_key(key@),
    {
        self.position(key).is_some()
    }

    /// The value of `key`.
    pub fn get(&self, key: &str) -> (r: Option<&V>)
        requires
            self.wf(),
        ensures
            match r {
                Some(v) => self@.contains_key(key@) && *v == self@[key@],
                None => !self@.contains_key(key@),
            },
    {
        match self.position(key) {
            Some(i) => Some(&self.cells[i]),
            None => None,
        }
    }

    /// The value of `key`, to be changed in place.
    pub fn get_mut(&mut self, key: &str) -> (r: Option<&mut V>)
        requires
            old(self).wf(),
        ensures
            match r {
                Some(v) => {
                    &&& old(self)@.contains_key(key@)
                    &&& *v == old(self)@[key@]
                    &&& final(self).wf()
                    &&& final(self).keys() == old(self).keys()
                    &&& final(self).values() == old(self).values().update(
                        old(self).keys().index_of(key@),
                        *final(v),
                    )
                    &&& final(self)@ == old(self)@.insert(key@, *final(v))
                },
                None => !old(self)@.contains_key(key@) && *final(self) == *old(self),
            },
    {
        match self.position(key) {
            Some(i) => {
                proof {
                    assert forall|v: V| #[trigger] pairing(self.keys(), self.values().update(i as int, v))
                        == self@.insert(key@, v) by {
                        lemma_pairing_update(self.keys(), self.values(), i as int, v);
                    }
                }
                Some(&mut self.cells[i])
            },
            None => None,
        }
    }

    /// The key at a place.
    pub fn key_at(&self, i: usize) -> (r: &str)
        requires
            i < self.keys().len(),
        ensures
            r@ == self.keys()[i as int],
    {
        self.names[i].as_str()
    }

    /// The value at a place.
    pub fn value_at(&self, i: usize) -> (r: &V)
        requires
            self.wf(),
            i < self.keys().len(),
        ensures
            *r == self.values()[i as int],
            self@.contains_key(self.keys()[i as int]),
            self@[self.keys()[i as int]] == *r,
    {
        proof {
            lemma_index_of(self.keys(), i as int);
        }
        &self.cells[i]
    }

    /// The value at a place, to be changed in place.
    pub fn value_at_mut(&mut self, i: usize) -> (r: &mut V)
        requires
            old(self).wf(),
            i < old(self).keys().len(),
        ensures
            *r == old(self).values()[i as int],
            final(self).wf(),
            final(self).keys() == old(self).keys(),
            final(self).values() == old(self).values().update(i as int, *final(r)),
            final(self)@ == old(self)@.insert(old(self).keys()[i as int], *final(r)),
    {
        proof {
            assert forall|v: V| #[trigger] pairing(self.keys(), self.values().update(i as int, v))
                == self@.insert(self.keys()[i as int], v) by {
                lemma_pairing_update(self.keys(), self.values(), i as int, v);
            }
        }
        &mut self.cells[i]
    }

    /// Gives `key` the value `value` and returns the value it had. A key that
    /// is already there keeps its place; a new one comes last.
    pub fn insert(&mut self, key: String, value: V) -> (r: Option<V>)
        requires
            old(self).wf(),
        ensures
            final(self).wf(),
            final(self)@ == old(self)@.insert(key@, value),
            match r {
                Some(v) => {
                    &&& old(self)@.contains_key(key@)
                    &&& v == old(self)@[key@]
                    &&& final(self).keys() == old(self).keys()
                    &&& final(self).values() == old(self).values().update(
                        old(self).keys().index_of(key@),
                        value,
                    )
                },
                None => {
                    &&& !old(self)@.contains_key(key@)
                    &&& final(self).keys() == old(self).keys().push(key@)
                    &&& final(self).values() == old(self).values().push(value)
                },
            },
    {
        match self.position(key.as_str()) {
            Some(i) => {
                proof {
                    lemma_pairing_update(self.keys(), self.values(), i as int, value);
                }
                let mut last = value;
                std::mem::swap(&mut self.cells[i], &mut last);
                Some(last)
            },
            None => {
                proof {
                    lemma_pairing_push(self.keys(), self.values(), key@, value);
                }
                let ghost keys = self.keys().push(key@);
                self.names.push(key);
                self.cells.push(value);
                assert(self.keys() =~= keys);
                None
            },
        }
    }

    /// Removes the entry of `key` and returns its value.
    pub fn remove(&mut self, key: &str) -> (r: Option<V>)
        requires
            old(self).wf(),
        ensures
            final(self).wf(),
            final(self)@ == old(self)@.remove(key@),
            match r {
                Some(v) => {
                    &&& old(self)@.contains_key(key@)
                    &&& v == old(self)@[key@]
                    &&& final(self).keys() == old(self).keys().remove(old(self).keys().index_of(key@))
                    &&& final(self).values() == old(self).values().remove(
                        old(self).keys().index_of(key@),
                    )
                },
                None => !old(self)@.contains_key(key@) && *final(self) == *old(self),
            },
    {
        match self.position(key) {
            Some(i) => {
                proof {
                    lemma_pairing_remove(self.keys(), self.values(), i as int);
                }
                let ghost keys = self.keys().remove(i as int);
                let _name = self.names.remove(i);
                let value = self.cells.remove(i);
                assert(self.keys() =~= keys);
                Some(value)
            },
            None => {
                assert(self@.remove(key@) =~= self@);
                None
            },
        }
    }

    /// The keys, in their order as texts.
    pub fn sorted_keys(&self) -> (r: Vec<String>)
        requires
            self.wf(),
        ensures
            is_sorted(texts(r@)),
            texts(r@).no_duplicates(),
            texts(r@).to_set() == self@.dom(),
            r.len() == self.keys().len(),
    {
        let r = sort_texts(&self.names);
        proof {
            assert(texts(self.names@) =~= self.keys());
            lemma_same_elements(texts(r@), self.keys());
            assert(self.keys().to_set() =~= self@.dom());
        }
        r
    }

    /// Removes every entry.
    pub fn clear(&mut self)
        ensures
            final(self).wf(),
            final(self)@ == Map::<Seq<char>, V>::empty(),
            final(self).keys() == Seq::<Seq<char>>::empty(),
            final(self).values() == Seq::<V>::empty(),
    {
        self.names.clear();
        self.cells.clear();
        assert(self.keys() =~= Seq::empty());
        assert(self.values() =~= Seq::empty());
        assert(self@ =~= Map::empty());
    }
}

} // verus!
