//! Lazily loaded vault metadata.
//!
//! Metadata is kept in a store of its own and read only when it is asked for.
//! What was read is cached for a while; a write or a deletion drops the cached
//! copy, so that the next read goes to the store.

use vstd::prelude::*;

use crate::clock::{monotonic_now, nanos_since, steady_clock_shows, Time};
use crate::expiring::{
    fresh_entry, least_recent, least_recent_key, lemma_lookup_len, lemma_table_len, live_value,
    look_up, looked_up, peek, Entry,
};
use crate::json::{JsonModel, JsonValue};
use crate::table::Table;

verus! {

/// Free-form metadata of a vault.
pub struct VaultMetadata {
    pub vault_id: String,
    pub fields: JsonValue,
    pub updated_at: Time,
}

/// What metadata says.
pub struct MetadataModel {
    pub vault_id: Seq<char>,
    pub fields: JsonModel,
    pub updated_at: Time,
}

impl VaultMetadata {
    pub open spec fn view(&self) -> MetadataModel {
        MetadataModel {
            vault_id: self.vault_id@,
            fields: self.fields@,
            updated_at: self.updated_at,
        }
    }

    /// A copy.
    pub fn copy(&self) -> (r: Self)
        ensures
            r@ == self@,
    {
        VaultMetadata {
            vault_id: self.vault_id.clone(),
            fields: self.fields.copy(),
            updated_at: self.updated_at,
        }
    }
}

/// The optional metadata say the same.
pub open spec fn says(m: Option<VaultMetadata>, expected: Option<VaultMetadata>) -> bool {
    match (m, expected) {
        (Some(a), Some(b)) => a@ == b@,
        (None, None) => true,
        _ => false,
    }
}

/// How long metadata is cached, in nanoseconds, and how many entries there
/// are at most.
#[derive(Debug, Clone, Copy, PartialEq, Eq, Structural)]
pub struct MetadataCacheConfig {
    pub ttl: u128,
    pub max_entries: usize,
}

impl Default for MetadataCacheConfig {
    fn default() -> (r: Self)
        ensures
            r.ttl == 300_000_000_000,
            r.max_entries == 1_000,
    {
        MetadataCacheConfig { ttl: 300_000_000_000, max_entries: 1_000 }
    }
}

/// A cache of metadata.
pub struct MetadataCache {
    entries: Table<Entry<VaultMetadata>>,
    config: MetadataCacheConfig,
    hits: u64,
    misses: u64,
    origin: std::time::Instant,
}

/// What the cache holds.
pub struct MetadataCacheModel {
    pub entries: Map<Seq<char>, Entry<VaultMetadata>>,
    pub config: MetadataCacheConfig,
    pub hits: u64,
    pub misses: u64,
}

/// The cache after a lookup. The counters wrap around.
pub open spec fn cache_got(
    before: MetadataCacheModel,
    id: Seq<char>,
    now: u128,
) -> MetadataCacheModel {
    let hit = live_value(before.entries, id, now) is Some;
    MetadataCacheModel {
        entries: looked_up(before.entries, id, now),
        hits: if hit {
            before.hits.wrapping_add(1)
        } else {
            before.hits
        },
        misses: if hit {
            before.misses
        } else {
            before.misses.wrapping_add(1)
        },
        ..before
    }
}

/// The entries after making room for a key.
pub open spec fn room_made_for(
    before: Map<Seq<char>, Entry<VaultMetadata>>,
    id: Seq<char>,
    max_entries: usize,
    after: Map<Seq<char>, Entry<VaultMetadata>>,
) -> bool {
    if before.len() >= max_entries && !before.contains_key(id) && before.len() > 0 {
        exists|victim: Seq<char>| #[trigger]
            least_recent(before, victim) && after == before.remove(victim)
    } else {
        after == before
    }
}

/// The cache after metadata was put.
pub open spec fn cache_put(
    before: MetadataCacheModel,
    metadata: MetadataModel,
    now: u128,
    after: MetadataCacheModel,
) -> bool {
    &&& after.config == before.config
    &&& after.hits == before.hits
    &&& after.misses == before.misses
    &&& exists|rest: Map<Seq<char>, Entry<VaultMetadata>>, value: VaultMetadata|
        #![trigger fresh_entry(value, before.config.ttl, now), room_made_for(
            before.entries,
            metadata.vault_id,
            before.config.max_entries,
            rest,
        )]
        room_made_for(before.entries, metadata.vault_id, before.config.max_entries, rest)
            && value@ == metadata && after.entries == rest.insert(
            metadata.vault_id,
            fresh_entry(value, before.config.ttl, now),
        )
}

impl MetadataCache {
    /// The reading of the clock from which times are counted.
    pub closed spec fn made_at(&self) -> std::time::Instant {
        self.origin
    }

    /// The clock was read, and `now` is what may have passed since the reading from
    /// which times are counted.
    pub open spec fn clock_shows(&self, now: u128) -> bool {
        steady_clock_shows(self.made_at(), now)
    }

    pub closed spec fn view(&self) -> MetadataCacheModel {
        MetadataCacheModel {
            entries: self.entries@,
            config: self.config,
            hits: self.hits,
            misses: self.misses,
        }
    }

    /// The cache holds no more entries than it may.
    pub closed spec fn wf(&self) -> bool {
        &&& self.entries.wf()
        &&& self.entries.keys().len() <= self.config.max_entries || self.entries.keys().len() <= 1
    }

    /// The cache holds no more entries than it may, one at least.
    pub proof fn stays_within_capacity(&self)
        requires
            self.wf(),
        ensures
            self@.entries.len() <= self@.config.max_entries || self@.entries.len() <= 1,
    {
        lemma_table_len(&self.entries);
    }

    /// An empty cache.
    pub fn new(config: MetadataCacheConfig) -> (r: Self)
        ensures
            r.wf(),
            r@ == (MetadataCacheModel { entries: Map::empty(), config, hits: 0, misses: 0 }),
    {
        MetadataCache {
            entries: Table::new(),
            config,
            hits: 0,
            misses: 0,
            origin: monotonic_now(),
        }
    }

    /// The nanoseconds since the cache was made.
    pub fn now(&self) -> (r: u128)
        ensures
            self.clock_shows(r),
    {
        nanos_since(&self.origin)
    }

    /// The cached metadata of a vault, at a moment.
    pub fn get_at(&mut self, vault_id: &str, now: u128) -> (r: Option<VaultMetadata>)
        requires
            old(self).wf(),
        ensures
            final(self).wf(),
            final(self).made_at() == old(self).made_at(),
            says(r, live_value(old(self)@.entries, vault_id@, now)),
            final(self)@ == cache_got(old(self)@, vault_id@, now),
    {
        proof {
            lemma_table_len(&self.entries);
            lemma_lookup_len(self.entries@, vault_id@, now);
        }
        let r = match peek(&self.entries, vault_id, now) {
            Some(m) => Some(m.copy()),
            None => None,
        };
        if look_up(&mut self.entries, vault_id, now) {
            self.hits = self.hits.wrapping_add(1);
        } else {
            self.misses = self.misses.wrapping_add(1);
        }
        proof {
            lemma_table_len(&self.entries);
        }
        r
    }

    /// The cached metadata of a vault.
    pub fn get(&mut self, vault_id: &str) -> (r: Option<VaultMetadata>)
        requires
            old(self).wf(),
        ensures
            final(self).wf(),
            final(self).made_at() == old(self).made_at(),
            exists|now: u128|
                old(self).clock_shows(now) && final(self)@ == #[trigger] cache_got(old(self)@, vault_id@, now) && says(
                    r,
                    live_value(old(self)@.entries, vault_id@, now),
                ),
    {
        let now = self.now();
        self.get_at(vault_id, now)
    }

    /// Caches metadata, at a moment. Where the cache is full, the entry that
    /// was accessed least recently goes.
    pub fn insert_at(&mut self, metadata: VaultMetadata, now: u128)
        requires
            old(self).wf(),
        ensures
            final(self).wf(),
            final(self).made_at() == old(self).made_at(),
            cache_put(old(self)@, metadata@, now, final(self)@),
    {
        proof {
            lemma_table_len(&self.entries);
        }
        let ghost before = self@;
        let id = metadata.vault_id.clone();
        if self.entries.len() >= self.config.max_entries && !self.entries.contains(id.as_str())
            && !self.entries.is_empty() {
            let key = least_recent_key(&self.entries);
            self.entries.remove(key.as_str());
        }
        let ghost rest = self.entries@;
        let ttl = self.config.ttl;
        self.entries.insert(id, Entry::new(metadata, ttl, now));
        assert(room_made_for(
            before.entries,
            metadata@.vault_id,
            before.config.max_entries,
            rest,
        ));
        assert(self.entries@ == rest.insert(
            metadata@.vault_id,
            fresh_entry(metadata, before.config.ttl, now),
        ));
        proof {
            lemma_table_len(&self.entries);
        }
    }

    /// Caches metadata.
    pub fn insert(&mut self, metadata: VaultMetadata)
        requires
            old(self).wf(),
        ensures
            final(self).wf(),
            final(self).made_at() == old(self).made_at(),
            exists|now: u128|
                old(self).clock_shows(now)
                    && #[trigger] cache_put(old(self)@, metadata@, now, final(self)@),
    {
        let now = self.now();
        self.insert_at(metadata, now);
    }

    /// Drops the metadata of a vault.
    pub fn invalidate(&mut self, vault_id: &str)
        requires
            old(self).wf(),
        ensures
            final(self).wf(),
            final(self).made_at() == old(self).made_at(),
            final(self)@ == (MetadataCacheModel {
                entries: old(self)@.entries.remove(vault_id@),
                ..old(self)@
            }),
    {
        self.entries.remove(vault_id);
    }

    /// Drops everything.
    pub fn clear(&mut self)
        requires
            old(self).wf(),
        ensures
            final(self).wf(),
            final(self).made_at() == old(self).made_at(),
            final(self)@ == (MetadataCacheModel { entries: Map::empty(), ..old(self)@ }),
    {
        self.entries.clear();
    }

    /// The number of hits and of misses.
    pub fn stats(&self) -> (r: (u64, u64))
        ensures
            r.0 == self@.hits,
            r.1 == self@.misses,
    {
        (self.hits, self.misses)
    }

    /// The number of entries, expired ones among them.
    pub fn len(&self) -> (r: usize)
        requires
            self.wf(),
        ensures
            r == self@.entries.len(),
    {
        proof {
            lemma_table_len(&self.entries);
        }
        self.entries.len()
    }

    /// Whether there are no entries.
    pub fn is_empty(&self) -> (r: bool)
        requires
            self.wf(),
        ensures
            r == (self@.entries.len() == 0),
    {
        self.len() == 0
    }
}

/// A lookup through the cache: what is cached at `asked` is returned; otherwise
/// the store is asked, and its answer is returned and cached as of `answered`.
pub open spec fn loaded<F: Fn(&str) -> Option<VaultMetadata>>(
    before: MetadataCacheModel,
    vault_id: &str,
    load: F,
    asked: u128,
    answered: u128,
    r: Option<VaultMetadata>,
    after: MetadataCacheModel,
) -> bool {
    let cached = live_value(before.entries, vault_id@, asked);
    let looked = cache_got(before, vault_id@, asked);
    if cached is Some {
        says(r, cached) && after == looked
    } else {
        exists|answer: Option<VaultMetadata>| #[trigger]
            load.ensures((vault_id,), answer) && says(r, answer) && match answer {
                Some(m) => cache_put(looked, m@, answered, after),
                None => after == looked,
            }
    }
}

/// Reads metadata through a cache. The store is reached by the functions that
/// the caller hands over.
pub struct LazyMetadataLoader {
    cache: MetadataCache,
}

impl LazyMetadataLoader {
    pub closed spec fn view(&self) -> MetadataCacheModel {
        self.cache@
    }

    pub closed spec fn wf(&self) -> bool {
        self.cache.wf()
    }

    /// The reading of the clock from which the cache counts.
    pub closed spec fn made_at(&self) -> std::time::Instant {
        self.cache.made_at()
    }

    /// The clock was read, and `now` is what may have passed since the reading from
    /// which times are counted.
    pub open spec fn clock_shows(&self, now: u128) -> bool {
        steady_clock_shows(self.made_at(), now)
    }

    /// A loader with the usual cache.
    pub fn new() -> (r: Self)
        ensures
            r.wf(),
            r@.entries == Map::<Seq<char>, Entry<VaultMetadata>>::empty(),
            r@.config.ttl == 300_000_000_000,
            r@.config.max_entries == 1_000,
            r@.hits == 0,
            r@.misses == 0,
    {
        Self::with_config(MetadataCacheConfig::default())
    }

    /// A loader with the given cache.
    pub fn with_config(config: MetadataCacheConfig) -> (r: Self)
        ensures
            r.wf(),
            r@ == (MetadataCacheModel { entries: Map::empty(), config, hits: 0, misses: 0 }),
    {
        LazyMetadataLoader { cache: MetadataCache::new(config) }
    }

    /// The metadata of a vault: from the cache, or else from the store. What the
    /// store gave is cached as of the moment when it came.
    pub fn get<F: Fn(&str) -> Option<VaultMetadata>>(&mut self, vault_id: &str, load: F) -> (r:
        Option<VaultMetadata>)
        requires
            old(self).wf(),
            load.requires((vault_id,)),
        ensures
            final(self).wf(),
            final(self).made_at() == old(self).made_at(),
            exists|asked: u128, answered: u128|
                old(self).clock_shows(asked) && old(self).clock_shows(answered)
                    && #[trigger] loaded(
                    old(self)@,
                    vault_id,
                    load,
                    asked,
                    answered,
                    r,
                    final(self)@,
                ),
    {
        let asked = self.cache.now();
        match self.cache.get_at(vault_id, asked) {
            Some(m) => {
                assert(loaded(old(self)@, vault_id, load, asked, asked, Some(m), self@));
                Some(m)
            },
            None => {
                let answer = load(vault_id);
                let answered = self.cache.now();
                let r = match &answer {
                    Some(m) => {
                        self.cache.insert_at(m.copy(), answered);
                        Some(m.copy())
                    },
                    None => None,
                };
                assert(load.ensures((vault_id,), answer) && says(r, answer));
                assert(loaded(old(self)@, vault_id, load, asked, answered, r, self@));
                r
            },
        }
    }

    /// Writes metadata to the store and drops the cached copy. Where the store
    /// refuses, the cache stays as it is.
    pub fn set<E, F: FnOnce(&VaultMetadata) -> Result<(), E>>(
        &mut self,
        metadata: VaultMetadata,
        upsert: F,
    ) -> (r: Result<(), E>)
        requires
            old(self).wf(),
            upsert.requires((&metadata,)),
        ensures
            final(self).wf(),
            final(self).made_at() == old(self).made_at(),
            upsert.ensures((&metadata,), r),
            final(self)@ == if r is Ok {
                MetadataCacheModel {
                    entries: old(self)@.entries.remove(metadata.vault_id@),
                    ..old(self)@
                }
            } else {
                old(self)@
            },
    {
        let r = upsert(&metadata);
        if r.is_ok() {
            self.cache.invalidate(metadata.vault_id.as_str());
        }
        r
    }

    /// Deletes the metadata of a vault from the store and drops the cached
    /// copy. Where the store refuses, the cache stays as it is.
    pub fn delete<E, F: FnOnce(&str) -> Result<(), E>>(&mut self, vault_id: &str, delete: F) -> (r:
        Result<(), E>)
        requires
            old(self).wf(),
            delete.requires((vault_id,)),
        ensures
            final(self).wf(),
            final(self).made_at() == old(self).made_at(),
            delete.ensures((vault_id,), r),
            final(self)@ == if r is Ok {
                MetadataCacheModel {
                    entries: old(self)@.entries.remove(vault_id@),
                    ..old(self)@
                }
            } else {
                old(self)@
            },
    {
        let r = delete(vault_id);
        if r.is_ok() {
            self.cache.invalidate(vault_id);
        }
        r
    }

    /// The cache.
    pub fn cache(&self) -> (r: &MetadataCache)
        requires
            self.wf(),
        ensures
            r@ == self@,
            r.wf(),
            r.made_at() == self.made_at(),
    {
        &self.cache
    }
}

/// Metadata that was cached is found until it expires.
pub proof fn metadata_is_read_back(
    before: MetadataCacheModel,
    metadata: MetadataModel,
    at: u128,
    after: MetadataCacheModel,
    now: u128,
)
    requires
        cache_put(before, metadata, at, after),
        at <= now,
    ensures
        live_value(after.entries, metadata.vault_id, now) is Some <==> now - at
            < before.config.ttl,
        live_value(after.entries, metadata.vault_id, now) matches Some(m) ==> m@ == metadata,
{
}

/// After a write or a deletion the next read asks the store.
pub proof fn writes_are_seen<F: Fn(&str) -> Option<VaultMetadata>>(
    before: MetadataCacheModel,
    vault_id: &str,
    load: F,
    asked: u128,
    answered: u128,
    r: Option<VaultMetadata>,
    after: MetadataCacheModel,
)
    requires
        loaded(
            MetadataCacheModel { entries: before.entries.remove(vault_id@), ..before },
            vault_id,
            load,
            asked,
            answered,
            r,
            after,
        ),
    ensures
        exists|answer: Option<VaultMetadata>| #[trigger]
            load.ensures((vault_id,), answer) && says(r, answer),
{
}

/// A second read is answered from the cache while the entry lives, without
/// asking the store. The entry lives from the moment when the store answered.
pub proof fn second_reads_are_hits<F: Fn(&str) -> Option<VaultMetadata>>(
    before: MetadataCacheModel,
    vault_id: &str,
    load: F,
    asked: u128,
    answered: u128,
    m: VaultMetadata,
    after: MetadataCacheModel,
    now: u128,
)
    requires
        loaded(before, vault_id, load, asked, answered, Some(m), after),
        live_value(before.entries, vault_id@, asked) is None,
        m.vault_id@ == vault_id@,
        answered <= now,
        now - answered < before.config.ttl,
    ensures
        live_value(after.entries, vault_id@, now) is Some,
        live_value(after.entries, vault_id@, now)->0@ == m@,
        cache_got(after, vault_id@, now).hits == after.hits.wrapping_add(1),
{
}

/// A lookup counts one hit or one miss: a hit exactly where there is an entry that has not
/// outlived its time.
pub proof fn lookups_are_counted(before: MetadataCacheModel, id: Seq<char>, now: u128)
    requires
        before.hits < u64::MAX,
        before.misses < u64::MAX,
    ensures
        ({
            let after = cache_got(before, id, now);
            let hit = before.entries.contains_key(id) && (now < before.entries[id].inserted_at
                || now - before.entries[id].inserted_at < before.entries[id].ttl)
                && before.entries[id].ttl > 0;
            &&& hit ==> after.hits == before.hits + 1 && after.misses == before.misses
            &&& !hit ==> after.misses == before.misses + 1 && after.hits == before.hits
            &&& after.config == before.config
        }),
{
}

/// Caching one vault's metadata keeps that of every other vault, unless the cache is full
/// and the vault is new to it: the one that goes was accessed no later than any other.
pub proof fn full_caches_drop_the_least_recent(
    before: MetadataCacheModel,
    metadata: MetadataModel,
    now: u128,
    after: MetadataCacheModel,
    other: Seq<char>,
    third: Seq<char>,
)
    requires
        cache_put(before, metadata, now, after),
        before.entries.contains_key(other),
        before.entries.contains_key(third),
        other != metadata.vault_id,
    ensures
        before.entries.len() < before.config.max_entries || before.entries.contains_key(
            metadata.vault_id,
        ) ==> after.entries.contains_key(other) && after.entries[other] == before.entries[other],
        !after.entries.contains_key(other) ==> before.entries[other].last_accessed
            <= before.entries[third].last_accessed,
        after.entries.contains_key(other) ==> after.entries[other] == before.entries[other],
        after.entries.contains_key(metadata.vault_id),
        after.entries[metadata.vault_id].value@ == metadata,
        after.entries[metadata.vault_id].inserted_at == now,
        after.entries[metadata.vault_id].ttl == before.config.ttl,
{
}

} // verus!
