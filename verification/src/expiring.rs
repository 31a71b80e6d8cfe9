//! Cache entries that expire.

use vstd::prelude::*;

use crate::table::{lemma_index_of, Table};
use crate::text::texts;

verus! {

/// A cached value. Times are nanoseconds of a steady clock.
pub struct Entry<T> {
    pub value: T,
    pub inserted_at: u128,
    pub ttl: u128,
    pub last_accessed: u128,
}

/// A new entry.
pub open spec fn fresh_entry<T>(value: T, ttl: u128, now: u128) -> Entry<T> {
    Entry { value, inserted_at: now, ttl, last_accessed: now }
}

impl<T> Entry<T> {
    /// The entry has not outlived its time.
    pub open spec fn live(&self, now: u128) -> bool {
        (if now >= self.inserted_at {
            now - self.inserted_at
        } else {
            0
        }) < self.ttl
    }

    /// The entry after an access.
    pub open spec fn accessed(self, now: u128) -> Entry<T> {
        Entry { last_accessed: now, ..self }
    }

    /// A new entry.
    pub fn new(value: T, ttl: u128, now: u128) -> (r: Self)
        ensures
            r == fresh_entry(value, ttl, now),
    {
        Entry { value, inserted_at: now, ttl, last_accessed: now }
    }

    /// Whether the entry has outlived its time.
    pub fn is_expired(&self, now: u128) -> (r: bool)
        ensures
            r == !self.live(now),
    {
        let age: u128 = if now >= self.inserted_at {
            now - self.inserted_at
        } else {
            0
        };
        age >= self.ttl
    }
}

/// The live value of a key.
pub open spec fn live_value<T>(m: Map<Seq<char>, Entry<T>>, key: Seq<char>, now: u128) -> Option<
    T,
> {
    if m.contains_key(key) && m[key].live(now) {
        Some(m[key].value)
    } else {
        None
    }
}

/// The keys of the live entries.
pub open spec fn live_keys<T>(m: Map<Seq<char>, Entry<T>>, now: u128) -> Set<Seq<char>> {
    m.dom().filter(|k: Seq<char>| m[k].live(now))
}

/// The entries after a lookup of a key: a live entry is accessed, an expired
/// one dropped.
pub open spec fn looked_up<T>(m: Map<Seq<char>, Entry<T>>, key: Seq<char>, now: u128) -> Map<
    Seq<char>,
    Entry<T>,
> {
    if !m.contains_key(key) {
        m
    } else if m[key].live(now) {
        m.insert(key, m[key].accessed(now))
    } else {
        m.remove(key)
    }
}

/// Looks up a key; says whether it has a live entry.
pub(crate) fn look_up<T>(table: &mut Table<Entry<T>>, key: &str, now: u128) -> (r: bool)
    requires
        old(table).wf(),
    ensures
        final(table).wf(),
        final(table)@ == looked_up(old(table)@, key@, now),
        r == live_value(old(table)@, key@, now) is Some,
{
    let expired = match table.get_mut(key) {
        Some(entry) => {
            if !entry.is_expired(now) {
                entry.last_accessed = now;
                return true;
            }
            true
        },
        None => false,
    };
    if expired {
        table.remove(key);
    }
    false
}

/// The live value of a key.
pub(crate) fn peek<'a, T>(table: &'a Table<Entry<T>>, key: &str, now: u128) -> (r: Option<&'a T>)
    requires
        table.wf(),
    ensures
        match r {
            Some(v) => live_value(table@, key@, now) == Some(*v),
            None => live_value(table@, key@, now) is None,
        },
{
    match table.get(key) {
        Some(entry) => {
            if entry.is_expired(now) {
                None
            } else {
                Some(&entry.value)
            }
        },
        None => None,
    }
}

/// The keys of the live entries, as a list.
pub(crate) fn list_live_keys<T>(table: &Table<Entry<T>>, now: u128) -> (r: Vec<String>)
    requires
        table.wf(),
    ensures
        texts(r@).no_duplicates(),
        texts(r@).to_set() == live_keys(table@, now),
        live_keys(table@, now).finite(),
        live_keys(table@, now).len() == r@.len(),
        r@.len() <= table.keys().len(),
{
    let mut out: Vec<String> = Vec::new();
    let mut i: usize = 0;
    while i < table.len()
        invariant
            i <= table.keys().len(),
            table.wf(),
            out@.len() <= i,
            texts(out@).no_duplicates(),
            forall|k: Seq<char>|
                texts(out@).contains(k) <==> exists|j: int|
                    0 <= j < i && #[trigger] table.keys()[j] == k && table.values()[j].live(now),
        decreases table.keys().len() - i,
    {
        let key = table.key_at(i);
        let ghost k0 = key@;
        let ghost earlier = texts(out@);
        if !table.value_at(i).is_expired(now) {
            proof {
                if earlier.contains(k0) {
                    let j = choose|j: int|
                        0 <= j < i && #[trigger] table.keys()[j] == k0 && table.values()[j].live(
                            now,
                        );
                    assert(table.keys()[j] == table.keys()[i as int]);
                }
            }
            out.push(key.to_owned());
            assert(texts(out@) =~= earlier.push(k0));
            assert forall|k: Seq<char>| texts(out@).contains(k) <==> exists|j: int|
                0 <= j < i + 1 && #[trigger] table.keys()[j] == k && table.values()[j].live(
                    now,
                ) by {
                if texts(out@).contains(k) {
                    if k == k0 {
                        assert(table.keys()[i as int] == k);
                    } else {
                        let p = texts(out@).index_of(k);
                        assert(earlier[p] == k);
                        assert(earlier.contains(k));
                    }
                }
                if exists|j: int|
                    0 <= j < i + 1 && #[trigger] table.keys()[j] == k && table.values()[j].live(
                        now,
                    ) {
                    let j = choose|j: int|
                        0 <= j < i + 1 && #[trigger] table.keys()[j] == k
                            && table.values()[j].live(now);
                    if j < i {
                        assert(earlier.contains(k));
                        let p = earlier.index_of(k);
                        assert(texts(out@)[p] == k);
                    } else {
                        assert(texts(out@)[earlier.len() as int] == k);
                    }
                }
            }
        }
        i = i + 1;
    }
    proof {
        let all = texts(out@);
        assert forall|k: Seq<char>| all.to_set().contains(k) <==> live_keys(table@, now).contains(
            k,
        ) by {
            if all.contains(k) {
                let j = choose|j: int|
                    0 <= j < i && #[trigger] table.keys()[j] == k && table.values()[j].live(now);
                lemma_index_of(table.keys(), j);
            }
            if live_keys(table@, now).contains(k) {
                let j = table.keys().index_of(k);
                assert(table.keys().contains(k));
                assert(table.keys()[j] == k);
            }
        }
        assert(all.to_set() =~= live_keys(table@, now));
        all.unique_seq_to_set();
    }
    out
}

/// The key is one whose entry was accessed least recently.
pub open spec fn least_recent<T>(m: Map<Seq<char>, Entry<T>>, key: Seq<char>) -> bool {
    &&& m.contains_key(key)
    &&& forall|other: Seq<char>| #[trigger]
        m.contains_key(other) ==> m[key].last_accessed <= m[other].last_accessed
}

/// A key whose entry was accessed least recently: the first such one.
pub(crate) fn least_recent_key<T>(table: &Table<Entry<T>>) -> (r: String)
    requires
        table.wf(),
        table.keys().len() > 0,
    ensures
        least_recent(table@, r@),
{
    let mut oldest: usize = 0;
    let mut i: usize = 1;
    while i < table.len()
        invariant
            i <= table.keys().len(),
            table.wf(),
            oldest < table.keys().len(),
            forall|j: int|
                0 <= j < i ==> table.values()[oldest as int].last_accessed <= (
                #[trigger] table.values()[j]).last_accessed,
        decreases table.keys().len() - i,
    {
        if table.value_at(i).last_accessed < table.value_at(oldest).last_accessed {
            oldest = i;
        }
        i = i + 1;
    }
    let key = table.key_at(oldest).to_owned();
    proof {
        let keys = table.keys();
        lemma_index_of(keys, oldest as int);
        assert forall|other: Seq<char>| #[trigger]
            table@.contains_key(other) implies table@[key@].last_accessed
            <= table@[other].last_accessed by {
            let j = keys.index_of(other);
            assert(keys.contains(other));
            assert(keys[j] == other);
        }
    }
    key
}

/// A table has as many entries as keys.
pub proof fn lemma_table_len<T>(table: &Table<Entry<T>>)
    requires
        table.wf(),
    ensures
        table@.dom().finite(),
        table@.len() == table.keys().len(),
{
    table.keys().unique_seq_to_set();
    assert(table@.dom() =~= table.keys().to_set());
}

/// A lookup adds no entry.
pub proof fn lemma_lookup_len<T>(m: Map<Seq<char>, Entry<T>>, key: Seq<char>, now: u128)
    requires
        m.dom().finite(),
    ensures
        looked_up(m, key, now).len() <= m.len(),
{
    if m.contains_key(key) {
        assert(m.insert(key, m[key].accessed(now)).dom() =~= m.dom());
    }
}

/// An entry lives for its time, counted from when it was stored; accessing it does not
/// lengthen its life.
pub proof fn entries_live_for_their_time<T>(value: T, ttl: u128, at: u128, access: u128, now: u128)
    requires
        at <= now,
    ensures
        fresh_entry(value, ttl, at).live(now) <==> now - at < ttl,
        fresh_entry(value, ttl, at).accessed(access).live(now) <==> now - at < ttl,
        fresh_entry(value, ttl, at).accessed(access).value == value,
        fresh_entry(value, ttl, at).accessed(access).last_accessed == access,
{
}

/// A lookup changes what is found under no key, neither its own nor another.
pub proof fn lookups_change_no_values<T>(
    m: Map<Seq<char>, Entry<T>>,
    key: Seq<char>,
    now: u128,
    other: Seq<char>,
)
    ensures
        live_value(looked_up(m, key, now), other, now) == live_value(m, other, now),
        live_value(m, key, now) is Some ==> looked_up(m, key, now)[key].last_accessed == now,
        live_value(m, key, now) is None ==> !looked_up(m, key, now).contains_key(key),
        other != key ==> (looked_up(m, key, now).contains_key(other) <==> m.contains_key(other)),
{
}

} // verus!
