//! A two-level cache of vaults.
//!
//! The first level is small and short-lived, the second one large and
//! long-lived. A write goes to both levels; a read that misses the first level
//! and hits the second one promotes the entry. A verification run compares the
//! levels and heals the entries on which they disagree from a source of truth.

use vstd::prelude::*;

use crate::clock::{
    monotonic_now, nanos_since, steady_clock_shows, utc_now, wall_clock_shows, Time,
};
use crate::expiring::{
    fresh_entry, least_recent, least_recent_key, lemma_lookup_len, lemma_table_len,
    list_live_keys, live_keys, live_value, look_up, looked_up, peek, Entry,
};
use crate::table::Table;
use crate::text::{list_contains, same, signed_decimal, signed_decimal_text, texts};

verus! {

/// Seconds for which an entry of the first level lives.
pub const L1_TTL_SECS: u64 = 60;

/// Seconds for which an entry of the second level lives.
pub const L2_TTL_SECS: u64 = 1800;

/// The number of vaults that the first level holds at most.
pub const L1_MAX_ENTRIES: usize = 500;

/// The state of a vault.
#[derive(Debug, Clone, Copy, PartialEq, Eq, Structural)]
pub enum VaultStatus {
    Active,
    Released,
    Expired,
}

/// A vault.
#[derive(Debug)]
pub struct Vault {
    pub id: String,
    pub owner: String,
    pub beneficiary: String,
    pub balance: i128,
    pub check_in_interval: u64,
    pub last_check_in: Time,
    pub created_at: Time,
    pub status: VaultStatus,
    pub ttl_remaining: Option<u64>,
}

/// What a vault says.
pub struct VaultModel {
    pub id: Seq<char>,
    pub owner: Seq<char>,
    pub beneficiary: Seq<char>,
    pub balance: int,
    pub check_in_interval: u64,
    pub last_check_in: Time,
    pub created_at: Time,
    pub status: VaultStatus,
    pub ttl_remaining: Option<u64>,
}

impl Vault {
    pub open spec fn view(&self) -> VaultModel {
        VaultModel {
            id: self.id@,
            owner: self.owner@,
            beneficiary: self.beneficiary@,
            balance: self.balance as int,
            check_in_interval: self.check_in_interval,
            last_check_in: self.last_check_in,
            created_at: self.created_at,
            status: self.status,
            ttl_remaining: self.ttl_remaining,
        }
    }

    /// Whether two vaults say the same.
    pub fn agrees_with(&self, other: &Vault) -> (r: bool)
        ensures
            r == (self@ == other@),
    {
        let same_term = match (self.ttl_remaining, other.ttl_remaining) {
            (Some(a), Some(b)) => a == b,
            (None, None) => true,
            _ => false,
        };
        same(self.id.as_str(), other.id.as_str()) && same(
            self.owner.as_str(),
            other.owner.as_str(),
        ) && same(self.beneficiary.as_str(), other.beneficiary.as_str()) && self.balance
            == other.balance && self.check_in_interval == other.check_in_interval
            && self.last_check_in == other.last_check_in && self.created_at == other.created_at
            && self.status == other.status && same_term
    }
}

impl Clone for Vault {
    fn clone(&self) -> (r: Self)
        ensures
            r == *self,
    {
        Vault {
            id: self.id.clone(),
            owner: self.owner.clone(),
            beneficiary: self.beneficiary.clone(),
            balance: self.balance,
            check_in_interval: self.check_in_interval,
            last_check_in: self.last_check_in,
            created_at: self.created_at,
            status: self.status,
            ttl_remaining: self.ttl_remaining,
        }
    }
}

/// The summary of a vault.
#[derive(Debug)]
pub struct VaultSummary {
    pub vault_id: String,
    pub owner: String,
    pub status: VaultStatus,
    pub ttl_remaining: Option<u64>,
    pub balance: i128,
}

impl Clone for VaultSummary {
    fn clone(&self) -> (r: Self)
        ensures
            r == *self,
    {
        VaultSummary {
            vault_id: self.vault_id.clone(),
            owner: self.owner.clone(),
            status: self.status,
            ttl_remaining: self.ttl_remaining,
            balance: self.balance,
        }
    }
}

/// What a cache level holds.
pub struct LevelModel {
    pub vaults: Map<Seq<char>, Entry<Vault>>,
    pub ttl_remaining: Map<Seq<char>, Entry<Option<u64>>>,
    pub summaries: Map<Seq<char>, Entry<VaultSummary>>,
}

/// A level that holds nothing.
pub open spec fn empty_level() -> LevelModel {
    LevelModel {
        vaults: Map::empty(),
        ttl_remaining: Map::empty(),
        summaries: Map::empty(),
    }
}

impl LevelModel {
    /// The level without anything about a vault.
    pub open spec fn without(self, id: Seq<char>) -> LevelModel {
        LevelModel {
            vaults: self.vaults.remove(id),
            ttl_remaining: self.ttl_remaining.remove(id),
            summaries: self.summaries.remove(id),
        }
    }

    /// The number of live entries of the kind that has most.
    pub open spec fn live_count(self, now: u128) -> nat {
        let a = live_keys(self.vaults, now).len();
        let b = live_keys(self.ttl_remaining, now).len();
        let c = live_keys(self.summaries, now).len();
        if a >= b && a >= c {
            a
        } else if b >= c {
            b
        } else {
            c
        }
    }
}

/// The entries of a cache level.
pub struct Level {
    vaults: Table<Entry<Vault>>,
    ttl_remaining: Table<Entry<Option<u64>>>,
    summaries: Table<Entry<VaultSummary>>,
}

impl Level {
    pub closed spec fn view(&self) -> LevelModel {
        LevelModel {
            vaults: self.vaults@,
            ttl_remaining: self.ttl_remaining@,
            summaries: self.summaries@,
        }
    }

    pub closed spec fn wf(&self) -> bool {
        self.vaults.wf() && self.ttl_remaining.wf() && self.summaries.wf()
    }

    /// A level that holds nothing.
    pub fn new() -> (r: Self)
        ensures
            r.wf(),
            r@ == empty_level(),
    {
        Level { vaults: Table::new(), ttl_remaining: Table::new(), summaries: Table::new() }
    }

    /// Looks up vault data; says whether there is live data.
    fn look_up_vault(&mut self, vault_id: &str, now: u128) -> (r: bool)
        requires
            old(self).wf(),
        ensures
            final(self).wf(),
            final(self)@ == (LevelModel {
                vaults: looked_up(old(self)@.vaults, vault_id@, now),
                ..old(self)@
            }),
            r == live_value(old(self)@.vaults, vault_id@, now) is Some,
    {
        look_up(&mut self.vaults, vault_id, now)
    }

    /// The live vault data of a vault.
    pub fn peek_vault(&self, vault_id: &str, now: u128) -> (r: Option<Vault>)
        requires
            self.wf(),
        ensures
            r == live_value(self@.vaults, vault_id@, now),
    {
        match peek(&self.vaults, vault_id, now) {
            Some(v) => Some(v.clone()),
            None => None,
        }
    }

    /// Puts vault data.
    fn put_vault(&mut self, vault_id: &str, vault: Vault, ttl: u128, now: u128)
        requires
            old(self).wf(),
        ensures
            final(self).wf(),
            final(self)@ == (LevelModel {
                vaults: old(self)@.vaults.insert(vault_id@, fresh_entry(vault, ttl, now)),
                ..old(self)@
            }),
    {
        self.vaults.insert(vault_id.to_owned(), Entry::new(vault, ttl, now));
    }

    /// Looks up ttl_remaining data; says whether there is live data.
    fn look_up_ttl_remaining(&mut self, vault_id: &str, now: u128) -> (r: bool)
        requires
            old(self).wf(),
        ensures
            final(self).wf(),
            final(self)@ == (LevelModel {
                ttl_remaining: looked_up(old(self)@.ttl_remaining, vault_id@, now),
                ..old(self)@
            }),
            r == live_value(old(self)@.ttl_remaining, vault_id@, now) is Some,
    {
        look_up(&mut self.ttl_remaining, vault_id, now)
    }

    /// The live ttl_remaining data of a vault.
    pub fn peek_ttl_remaining(&self, vault_id: &str, now: u128) -> (r: Option<Option<u64>>)
        requires
            self.wf(),
        ensures
            r == live_value(self@.ttl_remaining, vault_id@, now),
    {
        match peek(&self.ttl_remaining, vault_id, now) {
            Some(v) => Some(*v),
            None => None,
        }
    }

    /// Puts ttl_remaining data.
    fn put_ttl_remaining(&mut self, vault_id: &str, value: Option<u64>, ttl: u128, now: u128)
        requires
            old(self).wf(),
        ensures
            final(self).wf(),
            final(self)@ == (LevelModel {
                ttl_remaining: old(self)@.ttl_remaining.insert(vault_id@, fresh_entry(value, ttl, now)),
                ..old(self)@
            }),
    {
        self.ttl_remaining.insert(vault_id.to_owned(), Entry::new(value, ttl, now));
    }

    /// Looks up summary data; says whether there is live data.
    fn look_up_summary(&mut self, vault_id: &str, now: u128) -> (r: bool)
        requires
            old(self).wf(),
        ensures
            final(self).wf(),
            final(self)@ == (LevelModel {
                summaries: looked_up(old(self)@.summaries, vault_id@, now),
                ..old(self)@
            }),
            r == live_value(old(self)@.summaries, vault_id@, now) is Some,
    {
        look_up(&mut self.summaries, vault_id, now)
    }

    /// The live summary data of a vault.
    pub fn peek_summary(&self, vault_id: &str, now: u128) -> (r: Option<VaultSummary>)
        requires
            self.wf(),
        ensures
            r == live_value(self@.summaries, vault_id@, now),
    {
        match peek(&self.summaries, vault_id, now) {
            Some(v) => Some(v.clone()),
            None => None,
        }
    }

    /// Puts summary data.
    fn put_summary(&mut self, vault_id: &str, summary: VaultSummary, ttl: u128, now: u128)
        requires
            old(self).wf(),
        ensures
            final(self).wf(),
            final(self)@ == (LevelModel {
                summaries: old(self)@.summaries.insert(vault_id@, fresh_entry(summary, ttl, now)),
                ..old(self)@
            }),
    {
        self.summaries.insert(vault_id.to_owned(), Entry::new(summary, ttl, now));
    }

    /// Drops everything about a vault.
    fn invalidate(&mut self, vault_id: &str)
        requires
            old(self).wf(),
        ensures
            final(self).wf(),
            final(self)@ == old(self)@.without(vault_id@),
    {
        self.vaults.remove(vault_id);
        self.ttl_remaining.remove(vault_id);
        self.summaries.remove(vault_id);
    }

    /// Drops everything.
    fn invalidate_all(&mut self)
        requires
            old(self).wf(),
        ensures
            final(self).wf(),
            final(self)@ == empty_level(),
    {
        self.vaults.clear();
        self.ttl_remaining.clear();
        self.summaries.clear();
    }

    /// The number of live entries of the kind that has most.
    pub fn live_entry_count(&self, now: u128) -> (r: usize)
        requires
            self.wf(),
        ensures
            r == self@.live_count(now),
    {
        let a = list_live_keys(&self.vaults, now).len();
        let b = list_live_keys(&self.ttl_remaining, now).len();
        let c = list_live_keys(&self.summaries, now).len();
        if a >= b && a >= c {
            a
        } else if b >= c {
            b
        } else {
            c
        }
    }

    /// The identifiers of the vaults with live data.
    pub fn all_vault_keys(&self, now: u128) -> (r: Vec<String>)
        requires
            self.wf(),
        ensures
            texts(r@).no_duplicates(),
            texts(r@).to_set() == live_keys(self@.vaults, now),
            live_keys(self@.vaults, now).len() == r@.len(),
            r@.len() <= self@.vaults.len(),
    {
        proof {
            lemma_table_len(&self.vaults);
        }
        list_live_keys(&self.vaults, now)
    }
}

/// The entries after making room for one more.
pub open spec fn room_made(
    before: Map<Seq<char>, Entry<Vault>>,
    max_entries: usize,
    after: Map<Seq<char>, Entry<Vault>>,
) -> bool {
    if before.len() >= max_entries && before.len() > 0 {
        exists|victim: Seq<char>| #[trigger]
            least_recent(before, victim) && after == before.remove(victim)
    } else {
        after == before
    }
}

/// The counters of the first level.
#[derive(Debug, Clone, Copy, PartialEq, Eq, Structural)]
pub struct L1Stats {
    pub hits: u64,
    pub misses: u64,
    pub evictions: u64,
    pub insertions: u64,
}

impl Default for L1Stats {
    fn default() -> (r: Self)
        ensures
            r == (L1Stats { hits: 0, misses: 0, evictions: 0, insertions: 0 }),
    {
        L1Stats { hits: 0, misses: 0, evictions: 0, insertions: 0 }
    }
}

impl L1Stats {
    /// The counters can count `n` more of everything.
    pub open spec fn has_room(&self, n: int) -> bool {
        &&& self.hits + n <= u64::MAX
        &&& self.misses + n <= u64::MAX
        &&& self.evictions + n <= u64::MAX
        &&& self.insertions + n <= u64::MAX
    }

    /// The counters after a lookup.
    pub open spec fn after_lookup(self, hit: bool) -> L1Stats {
        if hit {
            L1Stats { hits: (self.hits + 1) as u64, ..self }
        } else {
            L1Stats { misses: (self.misses + 1) as u64, ..self }
        }
    }

    /// The counters after an insertion.
    pub open spec fn after_insertion(self, evicts: bool) -> L1Stats {
        L1Stats {
            insertions: (self.insertions + 1) as u64,
            evictions: if evicts {
                (self.evictions + 1) as u64
            } else {
                self.evictions
            },
            ..self
        }
    }
}

/// What the first level holds.
pub struct L1Model {
    pub level: LevelModel,
    pub max_entries: usize,
    pub stats: L1Stats,
}

impl L1Model {
    /// Inserting a vault drops another entry.
    pub open spec fn is_full(self) -> bool {
        self.level.vaults.len() >= self.max_entries && self.level.vaults.len() > 0
    }
}

/// The first level after a vault was put.
pub open spec fn l1_vault_put(
    before: L1Model,
    id: Seq<char>,
    vault: Vault,
    ttl: u128,
    now: u128,
    after: L1Model,
) -> bool {
    &&& after.max_entries == before.max_entries
    &&& after.stats == before.stats.after_insertion(before.is_full())
    &&& after.level.ttl_remaining == before.level.ttl_remaining
    &&& after.level.summaries == before.level.summaries
    &&& exists|rest: Map<Seq<char>, Entry<Vault>>| #[trigger]
        room_made(before.level.vaults, before.max_entries, rest) && after.level.vaults
            == rest.insert(id, fresh_entry(vault, ttl, now))
}

/// The first level of the cache.
pub struct L1Cache {
    level: Level,
    max_entries: usize,
    stats: L1Stats,
}

impl L1Cache {
    pub closed spec fn view(&self) -> L1Model {
        L1Model { level: self.level@, max_entries: self.max_entries, stats: self.stats }
    }

    /// The level holds no more vaults than it may.
    pub closed spec fn wf(&self) -> bool {
        &&& self.level.wf()
        &&& self.level.vaults.keys().len() <= self.max_entries || self.level.vaults.keys().len()
            <= 1
    }

    proof fn lemma_finite(&self)
        requires
            self.wf(),
        ensures
            self@.level.vaults.dom().finite(),
    {
        lemma_table_len(&self.level.vaults);
    }

    /// The level holds no more vaults than it may, one at least.
    pub proof fn stays_within_capacity(&self)
        requires
            self.wf(),
        ensures
            self@.level.vaults.len() <= self@.max_entries || self@.level.vaults.len() <= 1,
    {
        lemma_table_len(&self.level.vaults);
    }

    /// A level that holds nothing.
    pub fn new(max_entries: usize) -> (r: Self)
        ensures
            r.wf(),
            r@.level == empty_level(),
            r@.max_entries == max_entries,
            r@.stats == (L1Stats { hits: 0, misses: 0, evictions: 0, insertions: 0 }),
    {
        let r = L1Cache { level: Level::new(), max_entries, stats: L1Stats::default() };
        proof {
            lemma_table_len(&r.level.vaults);
        }
        r
    }

    /// Makes room for one more vault: where the level is full, the entry that
    /// was accessed least recently goes.
    fn maybe_evict(&mut self)
        requires
            old(self).wf(),
            old(self)@.stats.evictions < u64::MAX,
        ensures
            final(self).level.wf(),
            room_made(
                old(self)@.level.vaults,
                old(self).max_entries,
                final(self)@.level.vaults,
            ),
            final(self)@.level.vaults.len() < final(self).max_entries
                || final(self)@.level.vaults.len() == 0,
            final(self).max_entries == old(self).max_entries,
            final(self)@.level == (LevelModel {
                vaults: final(self)@.level.vaults,
                ..old(self)@.level
            }),
            final(self).stats == (L1Stats {
                evictions: if old(self)@.is_full() {
                    (old(self)@.stats.evictions + 1) as u64
                } else {
                    old(self)@.stats.evictions
                },
                ..old(self)@.stats
            }),
    {
        proof {
            lemma_table_len(&self.level.vaults);
        }
        let count = self.level.vaults.len();
        if count >= self.max_entries && count > 0 {
            let key = least_recent_key(&self.level.vaults);
            self.level.vaults.remove(key.as_str());
            self.stats.evictions = self.stats.evictions + 1;
            proof {
                lemma_table_len(&self.level.vaults);
            }
        }
    }

    /// The live vault data of a vault, accessed.
    pub fn get_vault(&mut self, vault_id: &str, now: u128) -> (r: Option<Vault>)
        requires
            old(self).wf(),
            old(self)@.stats.hits < u64::MAX,
            old(self)@.stats.misses < u64::MAX,
        ensures
            final(self).wf(),
            r == live_value(old(self)@.level.vaults, vault_id@, now),
            final(self)@ == (L1Model {
                level: LevelModel {
                    vaults: looked_up(old(self)@.level.vaults, vault_id@, now),
                    ..old(self)@.level
                },
                stats: old(self)@.stats.after_lookup(r is Some),
                ..old(self)@
            }),
    {
        proof {
            lemma_table_len(&self.level.vaults);
            lemma_lookup_len(self.level.vaults@, vault_id@, now);
        }
        let r = self.level.peek_vault(vault_id, now);
        if self.level.look_up_vault(vault_id, now) {
            self.stats.hits = self.stats.hits + 1;
        } else {
            self.stats.misses = self.stats.misses + 1;
        }
        proof {
            lemma_table_len(&self.level.vaults);
        }
        r
    }

    /// The live vault data of a vault.
    pub fn peek_vault(&self, vault_id: &str, now: u128) -> (r: Option<Vault>)
        requires
            self.wf(),
        ensures
            r == live_value(self@.level.vaults, vault_id@, now),
    {
        self.level.peek_vault(vault_id, now)
    }

    /// Puts a vault, after making room for it.
    pub fn set_vault(&mut self, vault_id: &str, vault: Vault, ttl: u128, now: u128)
        requires
            old(self).wf(),
            old(self)@.stats.insertions < u64::MAX,
            old(self)@.stats.evictions < u64::MAX,
        ensures
            final(self).wf(),
            l1_vault_put(old(self)@, vault_id@, vault, ttl, now, final(self)@),
    {
        self.maybe_evict();
        let ghost rest = self@.level.vaults;
        proof {
            lemma_table_len(&self.level.vaults);
        }
        self.level.put_vault(vault_id, vault, ttl, now);
        self.stats.insertions = self.stats.insertions + 1;
        proof {
            lemma_table_len(&self.level.vaults);
            assert(room_made(old(self)@.level.vaults, old(self)@.max_entries, rest));
        }
    }

    /// The live ttl_remaining data of a vault, accessed.
    pub fn get_ttl_remaining(&mut self, vault_id: &str, now: u128) -> (r: Option<Option<u64>>)
        requires
            old(self).wf(),
            old(self)@.stats.hits < u64::MAX,
            old(self)@.stats.misses < u64::MAX,
        ensures
            final(self).wf(),
            r == live_value(old(self)@.level.ttl_remaining, vault_id@, now),
            final(self)@ == (L1Model {
                level: LevelModel {
                    ttl_remaining: looked_up(old(self)@.level.ttl_remaining, vault_id@, now),
                    ..old(self)@.level
                },
                stats: old(self)@.stats.after_lookup(r is Some),
                ..old(self)@
            }),
    {
        proof {
            lemma_table_len(&self.level.vaults);
            lemma_lookup_len(self.level.vaults@, vault_id@, now);
        }
        let r = self.level.peek_ttl_remaining(vault_id, now);
        if self.level.look_up_ttl_remaining(vault_id, now) {
            self.stats.hits = self.stats.hits + 1;
        } else {
            self.stats.misses = self.stats.misses + 1;
        }
        proof {
            lemma_table_len(&self.level.vaults);
        }
        r
    }

    /// The live ttl_remaining data of a vault.
    pub fn peek_ttl_remaining(&self, vault_id: &str, now: u128) -> (r: Option<Option<u64>>)
        requires
            self.wf(),
        ensures
            r == live_value(self@.level.ttl_remaining, vault_id@, now),
    {
        self.level.peek_ttl_remaining(vault_id, now)
    }

    /// Puts ttl_remaining data.
    pub fn set_ttl_remaining(&mut self, vault_id: &str, value: Option<u64>, ttl: u128, now: u128)
        requires
            old(self).wf(),
            old(self)@.stats.insertions < u64::MAX,
        ensures
            final(self).wf(),
            final(self)@ == (L1Model {
                level: LevelModel {
                    ttl_remaining: old(self)@.level.ttl_remaining.insert(
                        vault_id@,
                        fresh_entry(value, ttl, now),
                    ),
                    ..old(self)@.level
                },
                stats: old(self)@.stats.after_insertion(false),
                ..old(self)@
            }),
    {
        proof {
            lemma_table_len(&self.level.vaults);
        }
        self.level.put_ttl_remaining(vault_id, value, ttl, now);
        self.stats.insertions = self.stats.insertions + 1;
        proof {
            lemma_table_len(&self.level.vaults);
        }
    }

    /// The live summary data of a vault, accessed.
    pub fn get_summary(&mut self, vault_id: &str, now: u128) -> (r: Option<VaultSummary>)
        requires
            old(self).wf(),
            old(self)@.stats.hits < u64::MAX,
            old(self)@.stats.misses < u64::MAX,
        ensures
            final(self).wf(),
            r == live_value(old(self)@.level.summaries, vault_id@, now),
            final(self)@ == (L1Model {
                level: LevelModel {
                    summaries: looked_up(old(self)@.level.summaries, vault_id@, now),
                    ..old(self)@.level
                },
                stats: old(self)@.stats.after_lookup(r is Some),
                ..old(self)@
            }),
    {
        proof {
            lemma_table_len(&self.level.vaults);
            lemma_lookup_len(self.level.vaults@, vault_id@, now);
        }
        let r = self.level.peek_summary(vault_id, now);
        if self.level.look_up_summary(vault_id, now) {
            self.stats.hits = self.stats.hits + 1;
        } else {
            self.stats.misses = self.stats.misses + 1;
        }
        proof {
            lemma_table_len(&self.level.vaults);
        }
        r
    }

    /// The live summary data of a vault.
    pub fn peek_summary(&self, vault_id: &str, now: u128) -> (r: Option<VaultSummary>)
        requires
            self.wf(),
        ensures
            r == live_value(self@.level.summaries, vault_id@, now),
    {
        self.level.peek_summary(vault_id, now)
    }

    /// Puts summary data.
    pub fn set_summary(&mut self, vault_id: &str, summary: VaultSummary, ttl: u128, now: u128)
        requires
            old(self).wf(),
            old(self)@.stats.insertions < u64::MAX,
        ensures
            final(self).wf(),
            final(self)@ == (L1Model {
                level: LevelModel {
                    summaries: old(self)@.level.summaries.insert(
                        vault_id@,
                        fresh_entry(summary, ttl, now),
                    ),
                    ..old(self)@.level
                },
                stats: old(self)@.stats.after_insertion(false),
                ..old(self)@
            }),
    {
        proof {
            lemma_table_len(&self.level.vaults);
        }
        self.level.put_summary(vault_id, summary, ttl, now);
        self.stats.insertions = self.stats.insertions + 1;
        proof {
            lemma_table_len(&self.level.vaults);
        }
    }

    /// Drops everything about a vault.
    pub fn invalidate(&mut self, vault_id: &str)
        requires
            old(self).wf(),
        ensures
            final(self).wf(),
            final(self)@ == (L1Model { level: old(self)@.level.without(vault_id@), ..old(self)@ }),
    {
        proof {
            lemma_table_len(&self.level.vaults);
        }
        self.level.invalidate(vault_id);
        proof {
            lemma_table_len(&self.level.vaults);
        }
    }

    /// Drops everything.
    pub fn invalidate_all(&mut self)
        requires
            old(self).wf(),
        ensures
            final(self).wf(),
            final(self)@ == (L1Model { level: empty_level(), ..old(self)@ }),
    {
        self.level.invalidate_all();
        proof {
            lemma_table_len(&self.level.vaults);
        }
    }

    /// The number of live entries of the kind that has most.
    pub fn live_entry_count(&self, now: u128) -> (r: usize)
        requires
            self.wf(),
        ensures
            r == self@.level.live_count(now),
    {
        self.level.live_entry_count(now)
    }

    /// The identifiers of the vaults with live data.
    pub fn all_vault_keys(&self, now: u128) -> (r: Vec<String>)
        requires
            self.wf(),
        ensures
            texts(r@).no_duplicates(),
            texts(r@).to_set() == live_keys(self@.level.vaults, now),
            live_keys(self@.level.vaults, now).len() == r@.len(),
            r@.len() <= self@.level.vaults.len(),
    {
        self.level.all_vault_keys(now)
    }
}

/// The counters of the second level.
#[derive(Debug, Clone, Copy, PartialEq, Eq, Structural)]
pub struct L2Stats {
    pub hits: u64,
    pub misses: u64,
    /// Entries copied to the first level.
    pub promotions: u64,
    pub insertions: u64,
}

impl Default for L2Stats {
    fn default() -> (r: Self)
        ensures
            r == (L2Stats { hits: 0, misses: 0, promotions: 0, insertions: 0 }),
    {
        L2Stats { hits: 0, misses: 0, promotions: 0, insertions: 0 }
    }
}

impl L2Stats {
    /// The counters can count `n` more of everything.
    pub open spec fn has_room(&self, n: int) -> bool {
        &&& self.hits + n <= u64::MAX
        &&& self.misses + n <= u64::MAX
        &&& self.promotions + n <= u64::MAX
        &&& self.insertions + n <= u64::MAX
    }

    /// The counters after a lookup.
    pub open spec fn after_lookup(self, hit: bool) -> L2Stats {
        if hit {
            L2Stats { hits: (self.hits + 1) as u64, ..self }
        } else {
            L2Stats { misses: (self.misses + 1) as u64, ..self }
        }
    }

    /// The counters after an insertion.
    pub open spec fn after_insertion(self) -> L2Stats {
        L2Stats { insertions: (self.insertions + 1) as u64, ..self }
    }

    /// The counters after a promotion.
    pub open spec fn after_promotion(self) -> L2Stats {
        L2Stats { promotions: (self.promotions + 1) as u64, ..self }
    }
}

/// What the second level holds.
pub struct L2Model {
    pub level: LevelModel,
    pub stats: L2Stats,
}

/// The second level of the cache.
pub struct L2Cache {
    level: Level,
    stats: L2Stats,
}

impl L2Cache {
    pub closed spec fn view(&self) -> L2Model {
        L2Model { level: self.level@, stats: self.stats }
    }

    pub closed spec fn wf(&self) -> bool {
        self.level.wf()
    }

    proof fn lemma_finite(&self)
        requires
            self.wf(),
        ensures
            self@.level.vaults.dom().finite(),
    {
        lemma_table_len(&self.level.vaults);
    }

    /// A level that holds nothing.
    pub fn new() -> (r: Self)
        ensures
            r.wf(),
            r@.level == empty_level(),
            r@.stats == (L2Stats { hits: 0, misses: 0, promotions: 0, insertions: 0 }),
    {
        L2Cache { level: Level::new(), stats: L2Stats::default() }
    }

    /// Counts a promotion.
    fn count_promotion(&mut self)
        requires
            old(self).wf(),
            old(self)@.stats.promotions < u64::MAX,
        ensures
            final(self).wf(),
            final(self)@ == (L2Model { stats: old(self)@.stats.after_promotion(), ..old(self)@ }),
    {
        self.stats.promotions = self.stats.promotions + 1;
    }

    /// The live vault data of a vault, accessed.
    pub fn get_vault(&mut self, vault_id: &str, now: u128) -> (r: Option<Vault>)
        requires
            old(self).wf(),
            old(self)@.stats.hits < u64::MAX,
            old(self)@.stats.misses < u64::MAX,
        ensures
            final(self).wf(),
            r == live_value(old(self)@.level.vaults, vault_id@, now),
            final(self)@ == (L2Model {
                level: LevelModel {
                    vaults: looked_up(old(self)@.level.vaults, vault_id@, now),
                    ..old(self)@.level
                },
                stats: old(self)@.stats.after_lookup(r is Some),
            }),
    {
        let r = self.level.peek_vault(vault_id, now);
        if self.level.look_up_vault(vault_id, now) {
            self.stats.hits = self.stats.hits + 1;
        } else {
            self.stats.misses = self.stats.misses + 1;
        }
        r
    }

    /// The live vault data of a vault.
    pub fn peek_vault(&self, vault_id: &str, now: u128) -> (r: Option<Vault>)
        requires
            self.wf(),
        ensures
            r == live_value(self@.level.vaults, vault_id@, now),
    {
        self.level.peek_vault(vault_id, now)
    }

    /// Puts vault data.
    pub fn set_vault(&mut self, vault_id: &str, vault: Vault, ttl: u128, now: u128)
        requires
            old(self).wf(),
            old(self)@.stats.insertions < u64::MAX,
        ensures
            final(self).wf(),
            final(self)@ == (L2Model {
                level: LevelModel {
                    vaults: old(self)@.level.vaults.insert(
                        vault_id@,
                        fresh_entry(vault, ttl, now),
                    ),
                    ..old(self)@.level
                },
                stats: old(self)@.stats.after_insertion(),
            }),
    {
        self.level.put_vault(vault_id, vault, ttl, now);
        self.stats.insertions = self.stats.insertions + 1;
    }

    /// The live ttl_remaining data of a vault, accessed.
    pub fn get_ttl_remaining(&mut self, vault_id: &str, now: u128) -> (r: Option<Option<u64>>)
        requires
            old(self).wf(),
            old(self)@.stats.hits < u64::MAX,
            old(self)@.stats.misses < u64::MAX,
        ensures
            final(self).wf(),
            r == live_value(old(self)@.level.ttl_remaining, vault_id@, now),
            final(self)@ == (L2Model {
                level: LevelModel {
                    ttl_remaining: looked_up(old(self)@.level.ttl_remaining, vault_id@, now),
                    ..old(self)@.level
                },
                stats: old(self)@.stats.after_lookup(r is Some),
            }),
    {
        let r = self.level.peek_ttl_remaining(vault_id, now);
        if self.level.look_up_ttl_remaining(vault_id, now) {
            self.stats.hits = self.stats.hits + 1;
        } else {
            self.stats.misses = self.stats.misses + 1;
        }
        r
    }

    /// The live ttl_remaining data of a vault.
    pub fn peek_ttl_remaining(&self, vault_id: &str, now: u128) -> (r: Option<Option<u64>>)
        requires
            self.wf(),
        ensures
            r == live_value(self@.level.ttl_remaining, vault_id@, now),
    {
        self.level.peek_ttl_remaining(vault_id, now)
    }

    /// Puts ttl_remaining data.
    pub fn set_ttl_remaining(&mut self, vault_id: &str, value: Option<u64>, ttl: u128, now: u128)
        requires
            old(self).wf(),
            old(self)@.stats.insertions < u64::MAX,
        ensures
            final(self).wf(),
            final(self)@ == (L2Model {
                level: LevelModel {
                    ttl_remaining: old(self)@.level.ttl_remaining.insert(
                        vault_id@,
                        fresh_entry(value, ttl, now),
                    ),
                    ..old(self)@.level
                },
                stats: old(self)@.stats.after_insertion(),
            }),
    {
        self.level.put_ttl_remaining(vault_id, value, ttl, now);
        self.stats.insertions = self.stats.insertions + 1;
    }

    /// The live summary data of a vault, accessed.
    pub fn get_summary(&mut self, vault_id: &str, now: u128) -> (r: Option<VaultSummary>)
        requires
            old(self).wf(),
            old(self)@.stats.hits < u64::MAX,
            old(self)@.stats.misses < u64::MAX,
        ensures
            final(self).wf(),
            r == live_value(old(self)@.level.summaries, vault_id@, now),
            final(self)@ == (L2Model {
                level: LevelModel {
                    summaries: looked_up(old(self)@.level.summaries, vault_id@, now),
                    ..old(self)@.level
                },
                stats: old(self)@.stats.after_lookup(r is Some),
            }),
    {
        let r = self.level.peek_summary(vault_id, now);
        if self.level.look_up_summary(vault_id, now) {
            self.stats.hits = self.stats.hits + 1;
        } else {
            self.stats.misses = self.stats.misses + 1;
        }
        r
    }

    /// The live summary data of a vault.
    pub fn peek_summary(&self, vault_id: &str, now: u128) -> (r: Option<VaultSummary>)
        requires
            self.wf(),
        ensures
            r == live_value(self@.level.summaries, vault_id@, now),
    {
        self.level.peek_summary(vault_id, now)
    }

    /// Puts summary data.
    pub fn set_summary(&mut self, vault_id: &str, summary: VaultSummary, ttl: u128, now: u128)
        requires
            old(self).wf(),
            old(self)@.stats.insertions < u64::MAX,
        ensures
            final(self).wf(),
            final(self)@ == (L2Model {
                level: LevelModel {
                    summaries: old(self)@.level.summaries.insert(
                        vault_id@,
                        fresh_entry(summary, ttl, now),
                    ),
                    ..old(self)@.level
                },
                stats: old(self)@.stats.after_insertion(),
            }),
    {
        self.level.put_summary(vault_id, summary, ttl, now);
        self.stats.insertions = self.stats.insertions + 1;
    }

    /// Drops everything about a vault.
    pub fn invalidate(&mut self, vault_id: &str)
        requires
            old(self).wf(),
        ensures
            final(self).wf(),
            final(self)@ == (L2Model { level: old(self)@.level.without(vault_id@), ..old(self)@ }),
    {
        self.level.invalidate(vault_id);
    }

    /// Drops everything.
    pub fn invalidate_all(&mut self)
        requires
            old(self).wf(),
        ensures
            final(self).wf(),
            final(self)@ == (L2Model { level: empty_level(), ..old(self)@ }),
    {
        self.level.invalidate_all();
    }

    /// The number of live entries of the kind that has most.
    pub fn live_entry_count(&self, now: u128) -> (r: usize)
        requires
            self.wf(),
        ensures
            r == self@.level.live_count(now),
    {
        self.level.live_entry_count(now)
    }

    /// The identifiers of the vaults with live data.
    pub fn all_vault_keys(&self, now: u128) -> (r: Vec<String>)
        requires
            self.wf(),
        ensures
            texts(r@).no_duplicates(),
            texts(r@).to_set() == live_keys(self@.level.vaults, now),
            live_keys(self@.level.vaults, now).len() == r@.len(),
            r@.len() <= self@.level.vaults.len(),
    {
        self.level.all_vault_keys(now)
    }
}

/// How the levels disagree on a vault.
#[derive(Debug, Clone, Copy, PartialEq, Eq, Structural)]
pub enum DriftKind {
    /// The first level has live data, the second one has not.
    L1Only,
    /// The second level has live data, the first one has not.
    L2Only,
    /// Both levels have live data, and they differ.
    ValueMismatch,
}

/// A vault on which the levels disagree.
pub struct CacheDriftDetail {
    pub key: String,
    pub kind: DriftKind,
    pub description: String,
    pub healed: bool,
}

/// What a detail of a report says.
pub struct DetailModel {
    pub key: Seq<char>,
    pub kind: DriftKind,
    pub description: Seq<char>,
    pub healed: bool,
}

impl CacheDriftDetail {
    pub open spec fn view(&self) -> DetailModel {
        DetailModel {
            key: self.key@,
            kind: self.kind,
            description: self.description@,
            healed: self.healed,
        }
    }
}

/// What the details of a report say.
pub open spec fn details_view(list: Seq<CacheDriftDetail>) -> Seq<DetailModel> {
    list.map_values(|d: CacheDriftDetail| d@)
}

/// The outcome of a verification of the levels against each other.
pub struct CacheDriftReport {
    pub checked_at: Time,
    pub checked_keys_count: usize,
    pub drift_count: usize,
    pub healed_count: usize,
    pub details: Vec<CacheDriftDetail>,
}

/// The totals of all verifications.
#[derive(Debug, Clone, Copy)]
pub struct DriftMetrics {
    pub total_verifications: u64,
    pub total_drifts_detected: u64,
    pub total_drifts_healed: u64,
    pub last_verification_at: Option<Time>,
}

/// The totals before any verification.
pub open spec fn no_drift() -> DriftMetrics {
    DriftMetrics {
        total_verifications: 0,
        total_drifts_detected: 0,
        total_drifts_healed: 0,
        last_verification_at: None,
    }
}

impl Default for DriftMetrics {
    fn default() -> (r: Self)
        ensures
            r == no_drift(),
    {
        DriftMetrics {
            total_verifications: 0,
            total_drifts_detected: 0,
            total_drifts_healed: 0,
            last_verification_at: None,
        }
    }
}

impl DriftMetrics {
    /// The totals can count one more verification with `n` drifts.
    pub open spec fn has_room(&self, n: int) -> bool {
        &&& self.total_verifications < u64::MAX
        &&& self.total_drifts_detected + n <= u64::MAX
        &&& self.total_drifts_healed + n <= u64::MAX
    }

    /// The totals after a verification.
    pub open spec fn after(self, detected: int, healed: int, at: Time) -> DriftMetrics {
        DriftMetrics {
            total_verifications: (self.total_verifications + 1) as u64,
            total_drifts_detected: (self.total_drifts_detected + detected) as u64,
            total_drifts_healed: (self.total_drifts_healed + healed) as u64,
            last_verification_at: Some(at),
        }
    }
}

/// The counters of both levels and the totals of the verifications.
#[derive(Debug, Clone, Copy)]
pub struct CacheStats {
    pub l1: L1Stats,
    pub l2: L2Stats,
    pub l1_live_entries: usize,
    pub l2_live_entries: usize,
    pub drift: DriftMetrics,
}

/// What the cache holds.
pub struct CacheModel {
    pub l1: L1Model,
    pub l2: L2Model,
    pub l1_ttl: u128,
    pub l2_ttl: u128,
    pub drift: DriftMetrics,
}

/// The live value of a key: that of the first level, or else of the second.
pub open spec fn found<T>(
    l1: Map<Seq<char>, Entry<T>>,
    l2: Map<Seq<char>, Entry<T>>,
    key: Seq<char>,
    now: u128,
) -> Option<T> {
    match live_value(l1, key, now) {
        Some(v) => Some(v),
        None => live_value(l2, key, now),
    }
}

impl CacheModel {
    /// The cached vault.
    pub open spec fn vault(self, id: Seq<char>, now: u128) -> Option<Vault> {
        found(self.l1.level.vaults, self.l2.level.vaults, id, now)
    }

    /// The cached remaining time of a vault.
    pub open spec fn ttl_remaining(self, id: Seq<char>, now: u128) -> Option<Option<u64>> {
        found(self.l1.level.ttl_remaining, self.l2.level.ttl_remaining, id, now)
    }

    /// The cached summary of a vault.
    pub open spec fn summary(self, id: Seq<char>, now: u128) -> Option<VaultSummary> {
        found(self.l1.level.summaries, self.l2.level.summaries, id, now)
    }

    /// The number of vaults that the levels hold, live or not.
    pub open spec fn size(self) -> nat {
        self.l1.level.vaults.len() + self.l2.level.vaults.len()
    }

    /// A level has an entry for the vault, live or not.
    pub open spec fn mentions(self, id: Seq<char>) -> bool {
        self.l1.level.vaults.contains_key(id) || self.l2.level.vaults.contains_key(id)
    }

    /// The counters of the levels can count `n` more of everything.
    pub open spec fn has_room(self, n: int) -> bool {
        self.l1.stats.has_room(n) && self.l2.stats.has_room(n)
    }

    /// The cache without anything about a vault.
    pub open spec fn without(self, id: Seq<char>) -> CacheModel {
        CacheModel {
            l1: L1Model { level: self.l1.level.without(id), ..self.l1 },
            l2: L2Model { level: self.l2.level.without(id), ..self.l2 },
            ..self
        }
    }
}

/// The cache after a vault was put in both levels.
pub open spec fn vault_put(
    before: CacheModel,
    id: Seq<char>,
    vault: Vault,
    now: u128,
    after: CacheModel,
) -> bool {
    &&& l1_vault_put(before.l1, id, vault, before.l1_ttl, now, after.l1)
    &&& after.l2 == (L2Model {
        level: LevelModel {
            vaults: before.l2.level.vaults.insert(id, fresh_entry(vault, before.l2_ttl, now)),
            ..before.l2.level
        },
        stats: before.l2.stats.after_insertion(),
    })
    &&& after.l1_ttl == before.l1_ttl
    &&& after.l2_ttl == before.l2_ttl
    &&& after.drift == before.drift
}

/// The cache after a vault was looked up: a hit in the second level is
/// promoted to the first one.
pub open spec fn vault_got(before: CacheModel, id: Seq<char>, now: u128, after: CacheModel) -> bool {
    let in_l1 = live_value(before.l1.level.vaults, id, now) is Some;
    let in_l2 = live_value(before.l2.level.vaults, id, now) is Some;
    let l1 = L1Model {
        level: LevelModel {
            vaults: looked_up(before.l1.level.vaults, id, now),
            ..before.l1.level
        },
        stats: before.l1.stats.after_lookup(in_l1),
        ..before.l1
    };
    let l2 = L2Model {
        level: LevelModel {
            vaults: looked_up(before.l2.level.vaults, id, now),
            ..before.l2.level
        },
        stats: before.l2.stats.after_lookup(in_l2),
    };
    &&& after.l1_ttl == before.l1_ttl
    &&& after.l2_ttl == before.l2_ttl
    &&& after.drift == before.drift
    &&& if in_l1 {
        after.l1 == l1 && after.l2 == before.l2
    } else if in_l2 {
        &&& after.l2 == (L2Model { stats: l2.stats.after_promotion(), ..l2 })
        &&& l1_vault_put(
            l1,
            id,
            before.l2.level.vaults[id].value,
            before.l1_ttl,
            now,
            after.l1,
        )
    } else {
        after.l1 == l1 && after.l2 == l2
    }
}

/// The cache after the remaining time of a vault was put in both levels.
pub open spec fn ttl_remaining_put(before: CacheModel, id: Seq<char>, value: Option<u64>, now: u128) -> CacheModel {
    CacheModel {
        l1: L1Model {
            level: LevelModel {
                ttl_remaining: before.l1.level.ttl_remaining.insert(
                    id,
                    fresh_entry(value, before.l1_ttl, now),
                ),
                ..before.l1.level
            },
            stats: before.l1.stats.after_insertion(false),
            ..before.l1
        },
        l2: L2Model {
            level: LevelModel {
                ttl_remaining: before.l2.level.ttl_remaining.insert(
                    id,
                    fresh_entry(value, before.l2_ttl, now),
                ),
                ..before.l2.level
            },
            stats: before.l2.stats.after_insertion(),
        },
        ..before
    }
}

/// The cache after the remaining time of a vault was looked up: a hit in the
/// second level is copied to the first one.
pub open spec fn ttl_remaining_got(before: CacheModel, id: Seq<char>, now: u128) -> CacheModel {
    let in_l1 = live_value(before.l1.level.ttl_remaining, id, now) is Some;
    let in_l2 = live_value(before.l2.level.ttl_remaining, id, now) is Some;
    let first = looked_up(before.l1.level.ttl_remaining, id, now);
    let second = looked_up(before.l2.level.ttl_remaining, id, now);
    let l1 = L1Model {
        level: LevelModel { ttl_remaining: first, ..before.l1.level },
        stats: before.l1.stats.after_lookup(in_l1),
        ..before.l1
    };
    let l2 = L2Model {
        level: LevelModel { ttl_remaining: second, ..before.l2.level },
        stats: before.l2.stats.after_lookup(in_l2),
    };
    if in_l1 {
        CacheModel { l1, ..before }
    } else if in_l2 {
        CacheModel {
            l1: L1Model {
                level: LevelModel {
                    ttl_remaining: first.insert(
                        id,
                        fresh_entry(before.l2.level.ttl_remaining[id].value, before.l1_ttl, now),
                    ),
                    ..l1.level
                },
                stats: l1.stats.after_insertion(false),
                ..l1
            },
            l2,
            ..before
        }
    } else {
        CacheModel { l1, l2, ..before }
    }
}

/// The cache after the summary of a vault was put in both levels.
pub open spec fn summary_put(before: CacheModel, id: Seq<char>, summary: VaultSummary, now: u128) -> CacheModel {
    CacheModel {
        l1: L1Model {
            level: LevelModel {
                summaries: before.l1.level.summaries.insert(
                    id,
                    fresh_entry(summary, before.l1_ttl, now),
                ),
                ..before.l1.level
            },
            stats: before.l1.stats.after_insertion(false),
            ..before.l1
        },
        l2: L2Model {
            level: LevelModel {
                summaries: before.l2.level.summaries.insert(
                    id,
                    fresh_entry(summary, before.l2_ttl, now),
                ),
                ..before.l2.level
            },
            stats: before.l2.stats.after_insertion(),
        },
        ..before
    }
}

/// The cache after the summary of a vault was looked up: a hit in the
/// second level is copied to the first one.
pub open spec fn summary_got(before: CacheModel, id: Seq<char>, now: u128) -> CacheModel {
    let in_l1 = live_value(before.l1.level.summaries, id, now) is Some;
    let in_l2 = live_value(before.l2.level.summaries, id, now) is Some;
    let first = looked_up(before.l1.level.summaries, id, now);
    let second = looked_up(before.l2.level.summaries, id, now);
    let l1 = L1Model {
        level: LevelModel { summaries: first, ..before.l1.level },
        stats: before.l1.stats.after_lookup(in_l1),
        ..before.l1
    };
    let l2 = L2Model {
        level: LevelModel { summaries: second, ..before.l2.level },
        stats: before.l2.stats.after_lookup(in_l2),
    };
    if in_l1 {
        CacheModel { l1, ..before }
    } else if in_l2 {
        CacheModel {
            l1: L1Model {
                level: LevelModel {
                    summaries: first.insert(
                        id,
                        fresh_entry(before.l2.level.summaries[id].value, before.l1_ttl, now),
                    ),
                    ..l1.level
                },
                stats: l1.stats.after_insertion(false),
                ..l1
            },
            l2,
            ..before
        }
    } else {
        CacheModel { l1, l2, ..before }
    }
}

/// The cache holds nothing and has counted nothing.
pub open spec fn is_empty_cache(c: CacheModel) -> bool {
    &&& c.l1.level == empty_level()
    &&& c.l1.max_entries == L1_MAX_ENTRIES
    &&& c.l1.stats == (L1Stats { hits: 0, misses: 0, evictions: 0, insertions: 0 })
    &&& c.l2.level == empty_level()
    &&& c.l2.stats == (L2Stats { hits: 0, misses: 0, promotions: 0, insertions: 0 })
    &&& c.drift == no_drift()
}

/// The report names the drifts between the levels.
pub open spec fn verified(c: CacheModel, now: u128, at: Time, report: CacheDriftReport) -> bool {
    &&& report.checked_at == at
    &&& report.checked_keys_count == cached_keys(c, now).len()
    &&& report.drift_count == report.details@.len()
    &&& report.healed_count == 0
    &&& exists|keys: Seq<Seq<char>>| #[trigger]
        lists_cached_keys(c, now, keys) && details_view(report.details@) == drifts_of(c, keys, now)
}

/// How the levels disagree on a vault, if they do.
pub open spec fn drift_at(c: CacheModel, key: Seq<char>, now: u128) -> Option<DriftKind> {
    match (live_value(c.l1.level.vaults, key, now), live_value(c.l2.level.vaults, key, now)) {
        (Some(_), None) => Some(DriftKind::L1Only),
        (None, Some(_)) => Some(DriftKind::L2Only),
        (Some(a), Some(b)) => if a@ != b@ {
            Some(DriftKind::ValueMismatch)
        } else {
            None
        },
        (None, None) => None,
    }
}

/// The vaults with live data in a level.
pub open spec fn cached_keys(c: CacheModel, now: u128) -> Set<Seq<char>> {
    live_keys(c.l1.level.vaults, now).union(live_keys(c.l2.level.vaults, now))
}

/// The list holds each vault with live data once.
pub open spec fn lists_cached_keys(c: CacheModel, now: u128, keys: Seq<Seq<char>>) -> bool {
    keys.no_duplicates() && keys.to_set() == cached_keys(c, now)
}

/// A drift in words.
pub open spec fn drift_text(kind: DriftKind, key: Seq<char>) -> Seq<char> {
    match kind {
        DriftKind::L1Only => "Key '"@ + key + "' exists in L1 but is missing from L2"@,
        DriftKind::L2Only => "Key '"@ + key + "' exists in L2 but is missing from L1"@,
        DriftKind::ValueMismatch => "Values for '"@ + key + "' differ between L1 and L2"@,
    }
}

/// A drift in words, with the balances where the values differ.
pub open spec fn drift_text_with_balances(
    c: CacheModel,
    kind: DriftKind,
    key: Seq<char>,
) -> Seq<char> {
    if kind is ValueMismatch {
        drift_text(kind, key) + " (balance: "@ + signed_decimal(
            c.l1.level.vaults[key].value.balance as int,
        ) + " vs "@ + signed_decimal(c.l2.level.vaults[key].value.balance as int) + ")"@
    } else {
        drift_text(kind, key)
    }
}

/// The drifts of the given vaults, in their order.
pub open spec fn drifts_of(c: CacheModel, keys: Seq<Seq<char>>, now: u128) -> Seq<DetailModel>
    decreases keys.len(),
{
    if keys.len() == 0 {
        Seq::empty()
    } else {
        let head = drifts_of(c, keys.drop_last(), now);
        match drift_at(c, keys.last(), now) {
            Some(kind) => head.push(
                DetailModel {
                    key: keys.last(),
                    kind,
                    description: drift_text(kind, keys.last()),
                    healed: false,
                },
            ),
            None => head,
        }
    }
}

/// One step of healing: where the levels disagree on a vault, it is put anew
/// from the source of truth, or dropped where that has none.
pub open spec fn heal_step(
    before: CacheModel,
    key: Seq<char>,
    truth: Option<Vault>,
    now: u128,
    after: CacheModel,
) -> bool {
    if drift_at(before, key, now) is Some {
        match truth {
            Some(vault) => vault_put(before, key, vault, now, after),
            None => after == before.without(key),
        }
    } else {
        after == before
    }
}

/// A run of healing: the vaults in the order in which they are checked, the
/// answer of the source of truth for each that drifted, and the cache before
/// and after each step.
pub struct Healing {
    pub keys: Seq<Seq<char>>,
    pub truths: Seq<Option<Vault>>,
    pub states: Seq<CacheModel>,
}

impl Healing {
    /// The steps lead from each state to the next one.
    pub open spec fn starts_at(self, c: CacheModel, now: u128) -> bool {
        &&& self.states.len() == self.keys.len() + 1
        &&& self.truths.len() == self.keys.len()
        &&& self.states[0] == c
        &&& forall|i: int|
            #![trigger self.keys[i]]
            0 <= i < self.keys.len() ==> heal_step(
                self.states[i],
                self.keys[i],
                self.truths[i],
                now,
                self.states[i + 1],
            )
    }

    /// The drifts met in the first `n` steps.
    pub open spec fn details(self, n: int, now: u128) -> Seq<DetailModel>
        decreases n,
    {
        if n <= 0 {
            Seq::empty()
        } else {
            let head = self.details(n - 1, now);
            match drift_at(self.states[n - 1], self.keys[n - 1], now) {
                Some(kind) => head.push(
                    DetailModel {
                        key: self.keys[n - 1],
                        kind,
                        description: drift_text_with_balances(
                            self.states[n - 1],
                            kind,
                            self.keys[n - 1],
                        ),
                        healed: true,
                    },
                ),
                None => head,
            }
        }
    }

    /// The answers for the vaults that drifted are those of the source.
    pub open spec fn asks<F: Fn(&str) -> Option<Vault>>(self, source: F, now: u128) -> bool {
        forall|i: int|
            0 <= i < self.keys.len() && drift_at(self.states[i], #[trigger] self.keys[i], now)
                is Some ==> answers(source, self.keys[i], self.truths[i])
    }
}

/// The source of truth may answer so for a key.
pub open spec fn answers<F: Fn(&str) -> Option<Vault>>(
    source: F,
    key: Seq<char>,
    truth: Option<Vault>,
) -> bool {
    exists|k: &str| k@ == key && #[trigger] source.ensures((k,), truth)
}

/// The cache was healed from the source of truth, as the report says.
pub open spec fn healed<F: Fn(&str) -> Option<Vault>>(
    source: F,
    run: Healing,
    before: CacheModel,
    now: u128,
    at: Time,
    report: CacheDriftReport,
    after: CacheModel,
) -> bool {
    &&& run.starts_at(before, now)
    &&& run.asks(source, now)
    &&& lists_cached_keys(before, now, run.keys)
    &&& report.checked_at == at
    &&& report.checked_keys_count == cached_keys(before, now).len()
    &&& report.drift_count == report.details@.len()
    &&& report.healed_count == report.details@.len()
    &&& details_view(report.details@) == run.details(run.keys.len() as int, now)
    &&& after == (CacheModel {
        drift: before.drift.after(report.drift_count as int, report.healed_count as int, at),
        ..run.states.last()
    })
}

/// A drift in words, with the balances where the values differ.
fn describe_with_balances(
    kind: DriftKind,
    key: &str,
    first: &Option<Vault>,
    second: &Option<Vault>,
) -> (r: String)
    requires
        kind is ValueMismatch ==> *first is Some && *second is Some,
    ensures
        r@ == if kind is ValueMismatch {
            drift_text(kind, key@) + " (balance: "@ + signed_decimal(first->0.balance as int)
                + " vs "@ + signed_decimal(second->0.balance as int) + ")"@
        } else {
            drift_text(kind, key@)
        },
{
    let mut out = describe(kind, key);
    match (kind, first, second) {
        (DriftKind::ValueMismatch, Some(a), Some(b)) => {
            out.append(" (balance: ");
            out.append(signed_decimal_text(a.balance).as_str());
            out.append(" vs ");
            out.append(signed_decimal_text(b.balance).as_str());
            out.append(")");
        },
        _ => {},
    }
    out
}

/// A drift in words.
fn describe(kind: DriftKind, key: &str) -> (r: String)
    ensures
        r@ == drift_text(kind, key@),
{
    let mut out = match kind {
        DriftKind::ValueMismatch => "Values for '".to_owned(),
        _ => "Key '".to_owned(),
    };
    out.append(key);
    match kind {
        DriftKind::L1Only => out.append("' exists in L1 but is missing from L2"),
        DriftKind::L2Only => out.append("' exists in L2 but is missing from L1"),
        DriftKind::ValueMismatch => out.append("' differ between L1 and L2"),
    }
    out
}

/// How two values disagree, if they do.
fn judge(first: &Option<Vault>, second: &Option<Vault>) -> (r: Option<DriftKind>)
    ensures
        r == match (*first, *second) {
            (Some(_), None) => Some(DriftKind::L1Only),
            (None, Some(_)) => Some(DriftKind::L2Only),
            (Some(a), Some(b)) => if a@ != b@ {
                Some(DriftKind::ValueMismatch)
            } else {
                None
            },
            (None, None) => None,
        },
{
    match (first, second) {
        (Some(_), None) => Some(DriftKind::L1Only),
        (None, Some(_)) => Some(DriftKind::L2Only),
        (Some(a), Some(b)) => {
            if !a.agrees_with(b) {
                Some(DriftKind::ValueMismatch)
            } else {
                None
            }
        },
        (None, None) => None,
    }
}

/// A two-level cache of vaults, their remaining times and their summaries.
pub struct MultiLevelCache {
    pub l1: L1Cache,
    pub l2: L2Cache,
    l1_ttl: u128,
    l2_ttl: u128,
    drift_metrics: DriftMetrics,
    origin: std::time::Instant,
}

impl Default for MultiLevelCache {
    /// The empty cache, with the usual times to live.
    fn default() -> (r: Self)
        ensures
            r.wf(),
            is_empty_cache(r@),
            r@.l1_ttl == L1_TTL_SECS * 1_000_000_000,
            r@.l2_ttl == L2_TTL_SECS * 1_000_000_000,
    {
        Self::new()
    }
}

impl MultiLevelCache {
    /// The reading of the clock from which times are counted.
    pub closed spec fn made_at(&self) -> std::time::Instant {
        self.origin
    }

    /// The clock was read, and `now` is what may have passed since the reading from
    /// which times are counted.
    pub open spec fn clock_shows(&self, now: u128) -> bool {
        steady_clock_shows(self.made_at(), now)
    }

    pub closed spec fn view(&self) -> CacheModel {
        CacheModel {
            l1: self.l1@,
            l2: self.l2@,
            l1_ttl: self.l1_ttl,
            l2_ttl: self.l2_ttl,
            drift: self.drift_metrics,
        }
    }

    pub closed spec fn wf(&self) -> bool {
        self.l1.wf() && self.l2.wf()
    }

    /// The levels hold finitely many vaults, the first one no more than it may, one
    /// at least.
    pub proof fn levels_are_finite(&self)
        requires
            self.wf(),
        ensures
            self@.l1.level.vaults.dom().finite(),
            self@.l2.level.vaults.dom().finite(),
            self@.l1.level.vaults.len() <= self@.l1.max_entries || self@.l1.level.vaults.len()
                <= 1,
    {
        self.l1.stays_within_capacity();
        self.l1.lemma_finite();
        self.l2.lemma_finite();
    }

    /// The empty cache, with the usual times to live.
    pub fn new() -> (r: Self)
        ensures
            r.wf(),
            is_empty_cache(r@),
            r@.l1_ttl == L1_TTL_SECS * 1_000_000_000,
            r@.l2_ttl == L2_TTL_SECS * 1_000_000_000,
    {
        Self::with_ttls(L1_TTL_SECS as u128 * 1_000_000_000, L2_TTL_SECS as u128 * 1_000_000_000)
    }

    /// The empty cache, with the given times to live, in nanoseconds.
    pub fn with_ttls(l1_ttl: u128, l2_ttl: u128) -> (r: Self)
        ensures
            r.wf(),
            is_empty_cache(r@),
            r@.l1_ttl == l1_ttl,
            r@.l2_ttl == l2_ttl,
    {
        MultiLevelCache {
            l1: L1Cache::new(L1_MAX_ENTRIES),
            l2: L2Cache::new(),
            l1_ttl,
            l2_ttl,
            drift_metrics: DriftMetrics::default(),
            origin: monotonic_now(),
        }
    }

    /// The nanoseconds since the cache was made.
    pub fn now(&self) -> (r: u128)
        ensures
            self.clock_shows(r),
    {
        nanos_since(&self.origin)
    }

    /// The cached vault, at a moment.
    pub fn get_vault_at(&mut self, vault_id: &str, now: u128) -> (r: Option<Vault>)
        requires
            old(self).wf(),
            old(self)@.has_room(1),
        ensures
            final(self).wf(),
            final(self).made_at() == old(self).made_at(),
            r == old(self)@.vault(vault_id@, now),
            vault_got(old(self)@, vault_id@, now, final(self)@),
    {
        match self.l1.get_vault(vault_id, now) {
            Some(v) => Some(v),
            None => match self.l2.get_vault(vault_id, now) {
                Some(v) => {
                    self.l2.count_promotion();
                    self.l1.set_vault(vault_id, v.clone(), self.l1_ttl, now);
                    Some(v)
                },
                None => None,
            },
        }
    }

    /// The cached vault.
    pub fn get_vault(&mut self, vault_id: &str) -> (r: Option<Vault>)
        requires
            old(self).wf(),
            old(self)@.has_room(1),
        ensures
            final(self).wf(),
            final(self).made_at() == old(self).made_at(),
            exists|now: u128|
                old(self).clock_shows(now)
                    && #[trigger] vault_got(old(self)@, vault_id@, now, final(self)@) && r == old(self)@.vault(
                    vault_id@,
                    now,
                ),
    {
        let now = self.now();
        self.get_vault_at(vault_id, now)
    }

    /// Puts a vault in both levels, at a moment.
    pub fn set_vault_at(&mut self, vault_id: &str, vault: Vault, now: u128)
        requires
            old(self).wf(),
            old(self)@.has_room(1),
        ensures
            final(self).wf(),
            final(self).made_at() == old(self).made_at(),
            vault_put(old(self)@, vault_id@, vault, now, final(self)@),
    {
        self.l1.set_vault(vault_id, vault.clone(), self.l1_ttl, now);
        self.l2.set_vault(vault_id, vault, self.l2_ttl, now);
    }

    /// Puts a vault in both levels.
    pub fn set_vault(&mut self, vault_id: &str, vault: Vault)
        requires
            old(self).wf(),
            old(self)@.has_room(1),
        ensures
            final(self).wf(),
            final(self).made_at() == old(self).made_at(),
            exists|now: u128|
                old(self).clock_shows(now)
                    && #[trigger] vault_put(old(self)@, vault_id@, vault, now, final(self)@),
    {
        let now = self.now();
        self.set_vault_at(vault_id, vault, now);
    }

    /// The cached remaining time of a vault, at a moment.
    pub fn get_ttl_remaining_at(&mut self, vault_id: &str, now: u128) -> (r: Option<Option<u64>>)
        requires
            old(self).wf(),
            old(self)@.has_room(1),
        ensures
            final(self).wf(),
            final(self).made_at() == old(self).made_at(),
            r == old(self)@.ttl_remaining(vault_id@, now),
            final(self)@ == ttl_remaining_got(old(self)@, vault_id@, now),
    {
        match self.l1.get_ttl_remaining(vault_id, now) {
            Some(v) => Some(v),
            None => match self.l2.get_ttl_remaining(vault_id, now) {
                Some(v) => {
                    self.l1.set_ttl_remaining(vault_id, v, self.l1_ttl, now);
                    Some(v)
                },
                None => None,
            },
        }
    }

    /// The cached remaining time of a vault.
    pub fn get_ttl_remaining(&mut self, vault_id: &str) -> (r: Option<Option<u64>>)
        requires
            old(self).wf(),
            old(self)@.has_room(1),
        ensures
            final(self).wf(),
            final(self).made_at() == old(self).made_at(),
            exists|now: u128|
                old(self).clock_shows(now) && final(self)@ == #[trigger] ttl_remaining_got(old(self)@, vault_id@, now) && r == old(
                    self,
                )@.ttl_remaining(vault_id@, now),
    {
        let now = self.now();
        self.get_ttl_remaining_at(vault_id, now)
    }

    /// Puts the remaining time of a vault in both levels, at a moment.
    pub fn set_ttl_remaining_at(&mut self, vault_id: &str, value: Option<u64>, now: u128)
        requires
            old(self).wf(),
            old(self)@.has_room(1),
        ensures
            final(self).wf(),
            final(self).made_at() == old(self).made_at(),
            final(self)@ == ttl_remaining_put(old(self)@, vault_id@, value, now),
    {
        self.l1.set_ttl_remaining(vault_id, value, self.l1_ttl, now);
        self.l2.set_ttl_remaining(vault_id, value, self.l2_ttl, now);
    }

    /// Puts the remaining time of a vault in both levels.
    pub fn set_ttl_remaining(&mut self, vault_id: &str, value: Option<u64>)
        requires
            old(self).wf(),
            old(self)@.has_room(1),
        ensures
            final(self).wf(),
            final(self).made_at() == old(self).made_at(),
            exists|now: u128|
                old(self).clock_shows(now) && final(self)@ == #[trigger] ttl_remaining_put(old(self)@, vault_id@, value, now),
    {
        let now = self.now();
        self.set_ttl_remaining_at(vault_id, value, now);
    }

    /// The cached summary of a vault, at a moment.
    pub fn get_summary_at(&mut self, vault_id: &str, now: u128) -> (r: Option<VaultSummary>)
        requires
            old(self).wf(),
            old(self)@.has_room(1),
        ensures
            final(self).wf(),
            final(self).made_at() == old(self).made_at(),
            r == old(self)@.summary(vault_id@, now),
            final(self)@ == summary_got(old(self)@, vault_id@, now),
    {
        match self.l1.get_summary(vault_id, now) {
            Some(v) => Some(v),
            None => match self.l2.get_summary(vault_id, now) {
                Some(v) => {
                    self.l1.set_summary(vault_id, v.clone(), self.l1_ttl, now);
                    Some(v)
                },
                None => None,
            },
        }
    }

    /// The cached summary of a vault.
    pub fn get_summary(&mut self, vault_id: &str) -> (r: Option<VaultSummary>)
        requires
            old(self).wf(),
            old(self)@.has_room(1),
        ensures
            final(self).wf(),
            final(self).made_at() == old(self).made_at(),
            exists|now: u128|
                old(self).clock_shows(now) && final(self)@ == #[trigger] summary_got(old(self)@, vault_id@, now) && r == old(
                    self,
                )@.summary(vault_id@, now),
    {
        let now = self.now();
        self.get_summary_at(vault_id, now)
    }

    /// Puts the summary of a vault in both levels, at a moment.
    pub fn set_summary_at(&mut self, vault_id: &str, summary: VaultSummary, now: u128)
        requires
            old(self).wf(),
            old(self)@.has_room(1),
        ensures
            final(self).wf(),
            final(self).made_at() == old(self).made_at(),
            final(self)@ == summary_put(old(self)@, vault_id@, summary, now),
    {
        self.l1.set_summary(vault_id, summary.clone(), self.l1_ttl, now);
        self.l2.set_summary(vault_id, summary, self.l2_ttl, now);
    }

    /// Puts the summary of a vault in both levels.
    pub fn set_summary(&mut self, vault_id: &str, summary: VaultSummary)
        requires
            old(self).wf(),
            old(self)@.has_room(1),
        ensures
            final(self).wf(),
            final(self).made_at() == old(self).made_at(),
            exists|now: u128|
                old(self).clock_shows(now) && final(self)@ == #[trigger] summary_put(old(self)@, vault_id@, summary, now),
    {
        let now = self.now();
        self.set_summary_at(vault_id, summary, now);
    }

    /// Drops everything about a vault.
    pub fn invalidate(&mut self, vault_id: &str)
        requires
            old(self).wf(),
        ensures
            final(self).wf(),
            final(self).made_at() == old(self).made_at(),
            final(self)@ == old(self)@.without(vault_id@),
    {
        self.l1.invalidate(vault_id);
        self.l2.invalidate(vault_id);
    }

    /// Drops everything.
    pub fn invalidate_all(&mut self)
        requires
            old(self).wf(),
        ensures
            final(self).wf(),
            final(self).made_at() == old(self).made_at(),
            final(self)@ == (CacheModel {
                l1: L1Model { level: empty_level(), ..old(self)@.l1 },
                l2: L2Model { level: empty_level(), ..old(self)@.l2 },
                ..old(self)@
            }),
    {
        self.l1.invalidate_all();
        self.l2.invalidate_all();
    }

    /// The totals of all verifications.
    pub fn drift_metrics(&self) -> (r: DriftMetrics)
        ensures
            r == self@.drift,
    {
        self.drift_metrics
    }

    /// Sets the totals of the verifications back.
    pub fn reset_drift_metrics(&mut self)
        requires
            old(self).wf(),
        ensures
            final(self).wf(),
            final(self).made_at() == old(self).made_at(),
            final(self)@ == (CacheModel { drift: no_drift(), ..old(self)@ }),
    {
        self.drift_metrics = DriftMetrics::default();
    }

    /// The counters of the levels and the number of live entries at a moment.
    pub fn get_stats_at(&self, now: u128) -> (r: CacheStats)
        requires
            self.wf(),
        ensures
            r.l1 == self@.l1.stats,
            r.l2 == self@.l2.stats,
            r.l1_live_entries == self@.l1.level.live_count(now),
            r.l2_live_entries == self@.l2.level.live_count(now),
            r.drift == self@.drift,
    {
        CacheStats {
            l1: self.l1.stats,
            l2: self.l2.stats,
            l1_live_entries: self.l1.live_entry_count(now),
            l2_live_entries: self.l2.live_entry_count(now),
            drift: self.drift_metrics,
        }
    }

    /// The counters of the levels and the number of live entries.
    pub fn get_stats(&self) -> (r: CacheStats)
        requires
            self.wf(),
        ensures
            r.l1 == self@.l1.stats,
            r.l2 == self@.l2.stats,
            exists|now: u128|
                self.clock_shows(now)
                    && #[trigger] self@.l1.level.live_count(now) == r.l1_live_entries && self@.l2.level.live_count(
                    now,
                ) == r.l2_live_entries,
            r.drift == self@.drift,
    {
        let now = self.now();
        self.get_stats_at(now)
    }

    /// The vaults with live data in a level, each once.
    fn keys_to_check(&self, now: u128) -> (r: Vec<String>)
        requires
            self.wf(),
        ensures
            lists_cached_keys(self@, now, texts(r@)),
            cached_keys(self@, now).len() == r@.len(),
            r@.len() <= self@.size(),
    {
        let mut out = self.l1.all_vault_keys(now);
        let second = self.l2.all_vault_keys(now);
        let ghost first = texts(out@);
        let ghost others = texts(second@);
        let mut i: usize = 0;
        while i < second.len()
            invariant
                i <= second.len(),
                others == texts(second@),
                others.no_duplicates(),
                first.no_duplicates(),
                texts(out@).no_duplicates(),
                out@.len() <= first.len() + i,
                forall|k: Seq<char>| #[trigger]
                    texts(out@).contains(k) <==> first.contains(k) || others.take(
                        i as int,
                    ).contains(k),
            decreases second.len() - i,
        {
            let ghost earlier = texts(out@);
            let ghost k0 = others[i as int];
            let ghost seen = others.take(i as int);
            let key = second[i].clone();
            assert(key@ == k0);
            if !list_contains(&out, key.as_str()) {
                out.push(key);
                assert(texts(out@) =~= earlier.push(k0));
            }
            i = i + 1;
            assert(others.take(i as int) =~= seen.push(k0));
            assert forall|k: Seq<char>| #[trigger] texts(out@).contains(k) <==> first.contains(k)
                || others.take(i as int).contains(k) by {
                lemma_push_contains(earlier, k0, k);
                lemma_push_contains(seen, k0, k);
                assert(earlier.contains(k) <==> first.contains(k) || seen.contains(k));
            }
        }
        proof {
            assert(others.take(i as int) =~= others);
            assert(texts(out@).to_set() =~= cached_keys(self@, now)) by {
                assert forall|k: Seq<char>| texts(out@).to_set().contains(k) <==> cached_keys(
                    self@,
                    now,
                ).contains(k) by {
                    assert(first.to_set().contains(k) <==> first.contains(k));
                    assert(others.to_set().contains(k) <==> others.contains(k));
                }
            }
            texts(out@).unique_seq_to_set();
        }
        out
    }

    /// Compares the levels at a moment, without changing what they hold.
    pub fn verify_consistency_at(&mut self, now: u128, checked_at: Time) -> (r: CacheDriftReport)
        requires
            old(self).wf(),
            old(self)@.drift.has_room(old(self)@.size() as int),
        ensures
            final(self).wf(),
            final(self).made_at() == old(self).made_at(),
            verified(old(self)@, now, checked_at, r),
            final(self)@ == (CacheModel {
                drift: old(self)@.drift.after(r.drift_count as int, 0, checked_at),
                ..old(self)@
            }),
    {
        let keys = self.keys_to_check(now);
        let ghost all = texts(keys@);
        let mut details: Vec<CacheDriftDetail> = Vec::new();
        let mut i: usize = 0;
        assert(details_view(details@) =~= drifts_of(self@, all.take(0), now));
        while i < keys.len()
            invariant
                i <= keys.len(),
                self.wf(),
                *self == *old(self),
                all == texts(keys@),
                details@.len() <= i,
                details_view(details@) == drifts_of(self@, all.take(i as int), now),
            decreases keys.len() - i,
        {
            let key = keys[i].as_str();
            let first = self.l1.peek_vault(key, now);
            let second = self.l2.peek_vault(key, now);
            let ghost earlier = details_view(details@);
            assert(all.take(i + 1).drop_last() =~= all.take(i as int));
            match judge(&first, &second) {
                Some(kind) => {
                    let detail = CacheDriftDetail {
                        key: key.to_owned(),
                        kind,
                        description: describe(kind, key),
                        healed: false,
                    };
                    details.push(detail);
                    assert(details_view(details@) =~= earlier.push(detail@));
                },
                None => {},
            }
            i = i + 1;
        }
        assert(all.take(i as int) =~= all);
        let drift_count = details.len();
        self.drift_metrics.total_verifications = self.drift_metrics.total_verifications + 1;
        self.drift_metrics.total_drifts_detected = self.drift_metrics.total_drifts_detected
            + drift_count as u64;
        self.drift_metrics.last_verification_at = Some(checked_at);
        CacheDriftReport {
            checked_at,
            checked_keys_count: keys.len(),
            drift_count,
            healed_count: 0,
            details,
        }
    }

    /// Compares the levels, without changing what they hold.
    pub fn verify_consistency(&mut self) -> (r: CacheDriftReport)
        requires
            old(self).wf(),
            old(self)@.drift.has_room(old(self)@.size() as int),
        ensures
            final(self).wf(),
            final(self).made_at() == old(self).made_at(),
            wall_clock_shows(r.checked_at),
            exists|now: u128|
                old(self).clock_shows(now) && #[trigger] verified(
                    old(self)@,
                    now,
                    r.checked_at,
                    r,
                ),
            final(self)@ == (CacheModel {
                drift: old(self)@.drift.after(r.drift_count as int, 0, r.checked_at),
                ..old(self)@
            }),
    {
        let checked_at = utc_now();
        let now = self.now();
        self.verify_consistency_at(now, checked_at)
    }
}

impl MultiLevelCache {
    /// Compares the levels at a moment, and heals the vaults on which they
    /// disagree: each is put anew from the source of truth, or dropped where
    /// that has none.
    pub fn verify_and_heal_consistency_at<F: Fn(&str) -> Option<Vault>>(
        &mut self,
        source_of_truth: F,
        now: u128,
        checked_at: Time,
    ) -> (r: CacheDriftReport)
        requires
            old(self).wf(),
            old(self)@.drift.has_room(old(self)@.size() as int),
            old(self)@.has_room(old(self)@.size() as int),
            forall|k: &str|
                cached_keys(old(self)@, now).contains(k@)
                    ==> #[trigger] source_of_truth.requires((k,)),
        ensures
            final(self).wf(),
            final(self).made_at() == old(self).made_at(),
            exists|run: Healing| #[trigger]
                healed(source_of_truth, run, old(self)@, now, checked_at, r, final(self)@),
    {
        let keys = self.keys_to_check(now);
        let ghost all = texts(keys@);
        let ghost mut truths: Seq<Option<Vault>> = Seq::empty();
        let ghost mut states: Seq<CacheModel> = seq![self@];
        let ghost start = self@;
        let mut details: Vec<CacheDriftDetail> = Vec::new();
        let mut i: usize = 0;
        assert(details_view(details@) =~= Seq::empty());
        while i < keys.len()
            invariant
                i <= keys.len(),
                keys@.len() <= start.size(),
                self.wf(),
                self.made_at() == old(self).made_at(),
                start == old(self)@,
                lists_cached_keys(start, now, all),
                all == texts(keys@),
                truths.len() == i,
                states.len() == i + 1,
                states[0] == start,
                states[i as int] == self@,
                self@.drift == start.drift,
                self@.has_room(start.size() - i),
                start.drift.has_room(start.size() as int),
                forall|k: &str|
                    cached_keys(start, now).contains(k@)
                        ==> #[trigger] source_of_truth.requires((k,)),
                details@.len() <= i,
                forall|j: int|
                    #![trigger all[j]]
                    0 <= j < i ==> heal_step(states[j], all[j], truths[j], now, states[j + 1]),
                forall|j: int|
                    0 <= j < i && drift_at(states[j], #[trigger] all[j], now) is Some ==> answers(
                        source_of_truth,
                        all[j],
                        truths[j],
                    ),
                details_view(details@) == (Healing { keys: all, truths, states }).details(
                    i as int,
                    now,
                ),
            decreases keys.len() - i,
        {
            let key = keys[i].as_str();
            assert(key@ == all[i as int]);
            let first = self.l1.peek_vault(key, now);
            let second = self.l2.peek_vault(key, now);
            let ghost earlier = details_view(details@);
            let ghost was = Healing { keys: all, truths, states };
            let ghost here = self@;
            match judge(&first, &second) {
                Some(kind) => {
                    let detail = CacheDriftDetail {
                        key: key.to_owned(),
                        kind,
                        description: describe_with_balances(kind, key, &first, &second),
                        healed: true,
                    };
                    assert(all.to_set().contains(all[i as int]));
                    let truth = source_of_truth(key);
                    assert(answers(source_of_truth, key@, truth));
                    proof {
                        truths = truths.push(truth);
                    }
                    match truth {
                        Some(vault) => {
                            self.set_vault_at(key, vault, now);
                        },
                        None => {
                            self.invalidate(key);
                        },
                    }
                    details.push(detail);
                    assert(details_view(details@) =~= earlier.push(detail@));
                },
                None => {
                    proof {
                        truths = truths.push(None);
                    }
                },
            }
            proof {
                states = states.push(self@);
                let run = Healing { keys: all, truths, states };
                lemma_same_details(was, run, i as int, now);
                assert(states[i as int] == here);
                assert(heal_step(here, all[i as int], truths[i as int], now, self@));
            }
            i = i + 1;
        }
        let drift_count = details.len();
        self.drift_metrics.total_verifications = self.drift_metrics.total_verifications + 1;
        self.drift_metrics.total_drifts_detected = self.drift_metrics.total_drifts_detected
            + drift_count as u64;
        self.drift_metrics.total_drifts_healed = self.drift_metrics.total_drifts_healed
            + drift_count as u64;
        self.drift_metrics.last_verification_at = Some(checked_at);
        let report = CacheDriftReport {
            checked_at,
            checked_keys_count: keys.len(),
            drift_count,
            healed_count: drift_count,
            details,
        };
        proof {
            let run = Healing { keys: all, truths, states };
            assert(healed(source_of_truth, run, start, now, checked_at, report, self@));
        }
        report
    }

    /// Compares the levels and heals the vaults on which they disagree.
    pub fn verify_and_heal_consistency<F: Fn(&str) -> Option<Vault>>(
        &mut self,
        source_of_truth: F,
    ) -> (r: CacheDriftReport)
        requires
            old(self).wf(),
            old(self)@.drift.has_room(old(self)@.size() as int),
            old(self)@.has_room(old(self)@.size() as int),
            forall|k: &str|
                old(self)@.mentions(k@) ==> #[trigger] source_of_truth.requires((k,)),
        ensures
            final(self).wf(),
            final(self).made_at() == old(self).made_at(),
            wall_clock_shows(r.checked_at),
            exists|run: Healing, now: u128|
                old(self).clock_shows(now) && #[trigger] healed(
                    source_of_truth,
                    run,
                    old(self)@,
                    now,
                    r.checked_at,
                    r,
                    final(self)@,
                ),
    {
        let checked_at = utc_now();
        let now = self.now();
        self.verify_and_heal_consistency_at(source_of_truth, now, checked_at)
    }
}

/// The drifts met in the first steps do not depend on the later ones.
proof fn lemma_same_details(a: Healing, b: Healing, n: int, now: u128)
    requires
        0 <= n <= a.keys.len(),
        a.keys == b.keys,
        n <= a.states.len(),
        n <= b.states.len(),
        forall|j: int| 0 <= j < n ==> #[trigger] a.states[j] == b.states[j],
    ensures
        a.details(n, now) == b.details(n, now),
    decreases n,
{
    if n > 0 {
        lemma_same_details(a, b, n - 1, now);
        assert(a.states[n - 1] == b.states[n - 1]);
    }
}

/// The place of an element of a longer list.
proof fn lemma_push_contains(s: Seq<Seq<char>>, x: Seq<char>, k: Seq<char>)
    ensures
        s.push(x).contains(k) <==> s.contains(k) || k == x,
{
    if s.contains(k) {
        assert(s.push(x)[s.index_of(k)] == k);
    }
    if k == x {
        assert(s.push(x)[s.len() as int] == k);
    }
    if s.push(x).contains(k) && k != x {
        assert(s[s.push(x).index_of(k)] == k);
    }
}

/// A vault that was put is found as long as one of the levels keeps it.
pub proof fn vaults_are_read_back(
    before: CacheModel,
    id: Seq<char>,
    vault: Vault,
    at: u128,
    after: CacheModel,
    now: u128,
)
    requires
        vault_put(before, id, vault, at, after),
        at <= now,
        now - at < before.l1_ttl || now - at < before.l2_ttl,
    ensures
        after.vault(id, now) == Some(vault),
{
}

/// A vault that was put is no longer found when both levels have let it
/// expire.
pub proof fn vaults_expire(
    before: CacheModel,
    id: Seq<char>,
    vault: Vault,
    at: u128,
    after: CacheModel,
    now: u128,
)
    requires
        vault_put(before, id, vault, at, after),
        at <= now,
        now - at >= before.l1_ttl,
        now - at >= before.l2_ttl,
    ensures
        after.vault(id, now) is None,
{
}

/// A remaining time that was put is found as long as one of the levels keeps
/// it, and a summary likewise.
pub proof fn details_are_read_back(
    c: CacheModel,
    id: Seq<char>,
    value: Option<u64>,
    summary: VaultSummary,
    at: u128,
    now: u128,
)
    requires
        at <= now,
        now - at < c.l1_ttl || now - at < c.l2_ttl,
    ensures
        ttl_remaining_put(c, id, value, at).ttl_remaining(id, now) == Some(value),
        summary_put(c, id, summary, at).summary(id, now) == Some(summary),
{
}

/// Looking up a vault does not change what a further lookup at that moment
/// finds.
pub proof fn lookups_are_repeatable(
    before: CacheModel,
    id: Seq<char>,
    now: u128,
    after: CacheModel,
)
    requires
        vault_got(before, id, now, after),
    ensures
        after.vault(id, now) == before.vault(id, now),
{
}

/// A vault found in the second level alone is in the first level afterwards.
pub proof fn second_level_hits_are_promoted(
    before: CacheModel,
    id: Seq<char>,
    now: u128,
    after: CacheModel,
)
    requires
        vault_got(before, id, now, after),
        live_value(before.l1.level.vaults, id, now) is None,
        before.l1_ttl > 0,
    ensures
        live_value(after.l1.level.vaults, id, now) == live_value(before.l2.level.vaults, id, now),
{
}

/// Nothing is found of a vault that was dropped, and other vaults are as
/// before.
pub proof fn dropped_vaults_are_gone(c: CacheModel, id: Seq<char>, other: Seq<char>, now: u128)
    requires
        other != id,
    ensures
        c.without(id).vault(id, now) is None,
        c.without(id).ttl_remaining(id, now) is None,
        c.without(id).summary(id, now) is None,
        c.without(id).vault(other, now) == c.vault(other, now),
        c.without(id).ttl_remaining(other, now) == c.ttl_remaining(other, now),
        c.without(id).summary(other, now) == c.summary(other, now),
{
}

/// Putting a vault leaves the other ones as they are, as long as the first
/// level has room.
pub proof fn putting_keeps_other_vaults(
    before: CacheModel,
    id: Seq<char>,
    vault: Vault,
    at: u128,
    after: CacheModel,
    other: Seq<char>,
    now: u128,
)
    requires
        vault_put(before, id, vault, at, after),
        !before.l1.is_full(),
        other != id,
    ensures
        after.vault(other, now) == before.vault(other, now),
{
}

/// Where the first level is full, putting a vault costs it one entry, which
/// was accessed least recently; the second level loses none.
pub proof fn full_levels_evict_the_least_recent(
    before: CacheModel,
    id: Seq<char>,
    vault: Vault,
    at: u128,
    after: CacheModel,
) -> (victim: Seq<char>)
    requires
        vault_put(before, id, vault, at, after),
        before.l1.is_full(),
    ensures
        least_recent(before.l1.level.vaults, victim),
        after.l1.level.vaults == before.l1.level.vaults.remove(victim).insert(
            id,
            fresh_entry(vault, before.l1_ttl, at),
        ),
        after.l2.level.vaults == before.l2.level.vaults.insert(
            id,
            fresh_entry(vault, before.l2_ttl, at),
        ),
{
    let rest = choose|rest: Map<Seq<char>, Entry<Vault>>| #[trigger]
        room_made(before.l1.level.vaults, before.l1.max_entries, rest)
            && after.l1.level.vaults == rest.insert(id, fresh_entry(vault, before.l1_ttl, at));
    choose|victim: Seq<char>| #[trigger]
        least_recent(before.l1.level.vaults, victim) && rest
            == before.l1.level.vaults.remove(victim)
}

/// A report names exactly the vaults on which the levels disagree, each once.
pub proof fn reports_name_every_drift(
    c: CacheModel,
    now: u128,
    keys: Seq<Seq<char>>,
    key: Seq<char>,
)
    requires
        lists_cached_keys(c, now, keys),
    ensures
        drift_at(c, key, now) is Some <==> exists|i: int|
            0 <= i < drifts_of(c, keys, now).len() && (#[trigger] drifts_of(c, keys, now)[i]).key
                == key,
        forall|i: int|
            0 <= i < drifts_of(c, keys, now).len() ==> drift_at(
                c,
                (#[trigger] drifts_of(c, keys, now)[i]).key,
                now,
            ) == Some(drifts_of(c, keys, now)[i].kind),
        forall|i: int, j: int|
            0 <= i < j < drifts_of(c, keys, now).len() ==> (#[trigger] drifts_of(
                c,
                keys,
                now,
            )[i]).key != (#[trigger] drifts_of(c, keys, now)[j]).key,
{
    lemma_drifts(c, keys, now);
    if drift_at(c, key, now) is Some {
        assert(cached_keys(c, now).contains(key));
        assert(keys.to_set().contains(key));
        assert(keys.contains(key));
        assert(names(drifts_of(c, keys, now), key));
    }
}

/// The list names a vault.
spec fn names(list: Seq<DetailModel>, key: Seq<char>) -> bool {
    exists|i: int| 0 <= i < list.len() && (#[trigger] list[i]).key == key
}

proof fn lemma_drifts(c: CacheModel, keys: Seq<Seq<char>>, now: u128)
    requires
        keys.no_duplicates(),
    ensures
        forall|i: int|
            0 <= i < drifts_of(c, keys, now).len() ==> keys.contains(
                (#[trigger] drifts_of(c, keys, now)[i]).key,
            ) && drift_at(c, drifts_of(c, keys, now)[i].key, now) == Some(
                drifts_of(c, keys, now)[i].kind,
            ),
        forall|i: int, j: int|
            0 <= i < j < drifts_of(c, keys, now).len() ==> (#[trigger] drifts_of(
                c,
                keys,
                now,
            )[i]).key != (#[trigger] drifts_of(c, keys, now)[j]).key,
        forall|key: Seq<char>|
            keys.contains(key) && drift_at(c, key, now) is Some ==> #[trigger] names(
                drifts_of(c, keys, now),
                key,
            ),
    decreases keys.len(),
{
    if keys.len() > 0 {
        let rest = keys.drop_last();
        let head = drifts_of(c, rest, now);
        let all = drifts_of(c, keys, now);
        lemma_drifts(c, rest, now);
        assert forall|i: int| 0 <= i < all.len() implies keys.contains((#[trigger] all[i]).key)
            && drift_at(c, all[i].key, now) == Some(all[i].kind) by {
            if i < head.len() {
                assert(all[i] == head[i]);
                let p = rest.index_of(head[i].key);
                assert(rest.contains(head[i].key));
                assert(keys[p] == head[i].key);
            } else {
                assert(keys[keys.len() - 1] == all[i].key);
            }
        }
        assert forall|i: int, j: int| 0 <= i < j < all.len() implies (#[trigger] all[i]).key != (
        #[trigger] all[j]).key by {
            assert(all[i] == head[i]);
            if j < head.len() {
                assert(all[j] == head[j]);
            } else {
                assert(rest.contains(head[i].key));
                let p = rest.index_of(head[i].key);
                assert(keys[p] == head[i].key);
            }
        }
        assert forall|key: Seq<char>|
            keys.contains(key) && drift_at(c, key, now) is Some implies #[trigger] names(
            all,
            key,
        ) by {
            if key == keys.last() {
                assert(all[all.len() - 1].key == key);
            } else {
                let p = keys.index_of(key);
                assert(rest[p] == key);
                assert(names(head, key));
                let q = choose|q: int| 0 <= q < head.len() && (#[trigger] head[q]).key == key;
                assert(all[q].key == key);
            }
        }
    }
}

/// The vaults that healing may add to the first level: those with live data in
/// the second level and no entry in the first.
pub open spec fn addable(c: CacheModel, now: u128) -> Set<Seq<char>> {
    live_keys(c.l2.level.vaults, now).difference(c.l1.level.vaults.dom())
}

/// The levels disagree on a vault that has an entry in the first level.
pub open spec fn replaces(c: CacheModel, now: u128) -> bool {
    exists|key: Seq<char>|
        c.l1.level.vaults.contains_key(key) && #[trigger] drift_at(c, key, now) is Some
}

/// The first level has room for healing: no vault that is put drives another one
/// out.
pub open spec fn has_room_to_heal(c: CacheModel, now: u128) -> bool {
    let most = c.l1.level.vaults.len() + addable(c, now).len();
    &&& replaces(c, now) ==> most < c.l1.max_entries
    &&& addable(c, now).len() > 0 ==> most <= c.l1.max_entries
}

/// After healing the levels agree on every vault. They hold what the source of
/// truth says of each that drifted, and what they held of each other vault.
/// Entries must live, and the first level must have room.
pub proof fn healing_reconciles(run: Healing, start: CacheModel, now: u128)
    requires
        run.starts_at(start, now),
        lists_cached_keys(start, now, run.keys),
        start.l1_ttl > 0,
        start.l2_ttl > 0,
        start.l1.level.vaults.dom().finite(),
        has_room_to_heal(start, now),
    ensures
        forall|key: Seq<char>| #[trigger] drift_at(run.states.last(), key, now) is None,
        forall|i: int|
            0 <= i < run.keys.len() && drift_at(start, #[trigger] run.keys[i], now) is Some
                ==> live_value(run.states.last().l1.level.vaults, run.keys[i], now)
                == run.truths[i] && live_value(
                run.states.last().l2.level.vaults,
                run.keys[i],
                now,
            ) == run.truths[i],
        forall|key: Seq<char>|
            drift_at(start, key, now) is None ==> live_value(
                run.states.last().l1.level.vaults,
                key,
                now,
            ) == live_value(start.l1.level.vaults, key, now) && #[trigger] live_value(
                run.states.last().l2.level.vaults,
                key,
                now,
            ) == live_value(start.l2.level.vaults, key, now),
{
    lemma_healing(run, start, now, run.keys.len() as int);
    assert forall|key: Seq<char>| #[trigger] drift_at(run.states.last(), key, now) is None by {
        if run.keys.contains(key) {
            let i = run.keys.index_of(key);
            assert(run.keys[i] == key);
        } else {
            assert(!cached_keys(start, now).contains(key)) by {
                assert(!run.keys.to_set().contains(key));
            }
            assert(untouched(start, run.states.last(), key, now));
        }
    }
    assert forall|key: Seq<char>| drift_at(start, key, now) is None implies live_value(
        run.states.last().l1.level.vaults,
        key,
        now,
    ) == live_value(start.l1.level.vaults, key, now) && #[trigger] live_value(
        run.states.last().l2.level.vaults,
        key,
        now,
    ) == live_value(start.l2.level.vaults, key, now) by {
        assert(untouched(start, run.states.last(), key, now));
    }
}

/// Two caches hold the same live data on a vault.
spec fn untouched(a: CacheModel, b: CacheModel, key: Seq<char>, now: u128) -> bool {
    &&& live_value(a.l1.level.vaults, key, now) == live_value(b.l1.level.vaults, key, now)
    &&& live_value(a.l2.level.vaults, key, now) == live_value(b.l2.level.vaults, key, now)
}

/// The vaults that the first steps may have added to the first level.
spec fn added(run: Healing, start: CacheModel, now: u128, n: int) -> Set<Seq<char>> {
    addable(start, now).intersect(run.keys.take(n).to_set())
}

proof fn lemma_addable_is_finite(run: Healing, start: CacheModel, now: u128)
    requires
        lists_cached_keys(start, now, run.keys),
    ensures
        addable(start, now).finite(),
{
    run.keys.unique_seq_to_set();
    assert(addable(start, now).subset_of(run.keys.to_set()));
    vstd::set_lib::lemma_len_subset(addable(start, now), run.keys.to_set());
}

/// In every step that puts a vault the first level is not full.
proof fn lemma_room(run: Healing, start: CacheModel, now: u128, n: int, before: CacheModel)
    requires
        lists_cached_keys(start, now, run.keys),
        start.l1.level.vaults.dom().finite(),
        has_room_to_heal(start, now),
        0 <= n < run.keys.len(),
        before.l1.max_entries == start.l1.max_entries,
        before.l1.level.vaults.dom().subset_of(
            start.l1.level.vaults.dom().union(added(run, start, now, n)),
        ),
        untouched(start, before, run.keys[n], now),
        drift_at(before, run.keys[n], now) is Some,
    ensures
        before.l1.level.vaults.dom().finite(),
        before.l1.level.vaults.len() < start.l1.max_entries,
        added(run, start, now, n + 1).finite(),
        start.l1.level.vaults.contains_key(run.keys[n]) || added(run, start, now, n + 1).contains(
            run.keys[n],
        ),
{
    let key = run.keys[n];
    let dom = start.l1.level.vaults.dom();
    let more = addable(start, now);
    let so_far = added(run, start, now, n);
    lemma_addable_is_finite(run, start, now);
    vstd::set_lib::lemma_len_subset(so_far, more);
    vstd::set_lib::lemma_len_subset(added(run, start, now, n + 1), more);
    vstd::set_lib::lemma_set_disjoint_lens(dom, so_far);
    vstd::set_lib::lemma_len_subset(before.l1.level.vaults.dom(), dom.union(so_far));
    assert(drift_at(start, key, now) is Some);
    if dom.contains(key) {
        assert(replaces(start, now));
    } else {
        assert(more.contains(key));
        assert(run.keys.take(n + 1)[n] == key);
        assert(run.keys.take(n + 1).contains(key));
        if so_far.contains(key) {
            let j = run.keys.take(n).index_of(key);
            assert(run.keys.take(n).contains(key));
            assert(run.keys[j] == key);
        }
        assert(so_far.subset_of(more.remove(key)));
        vstd::set_lib::lemma_len_subset(so_far, more.remove(key));
    }
}

proof fn lemma_healing(run: Healing, start: CacheModel, now: u128, n: int)
    requires
        run.starts_at(start, now),
        lists_cached_keys(start, now, run.keys),
        start.l1_ttl > 0,
        start.l2_ttl > 0,
        start.l1.level.vaults.dom().finite(),
        has_room_to_heal(start, now),
        0 <= n <= run.keys.len(),
    ensures
        run.states[n].l1_ttl == start.l1_ttl,
        run.states[n].l2_ttl == start.l2_ttl,
        run.states[n].l1.max_entries == start.l1.max_entries,
        run.states[n].l1.level.vaults.dom().subset_of(
            start.l1.level.vaults.dom().union(added(run, start, now, n)),
        ),
        forall|key: Seq<char>|
            (forall|j: int| 0 <= j < n ==> #[trigger] run.keys[j] != key)
                ==> #[trigger] untouched(start, run.states[n], key, now),
        forall|key: Seq<char>|
            drift_at(start, key, now) is None ==> #[trigger] untouched(
                start,
                run.states[n],
                key,
                now,
            ),
        forall|j: int|
            0 <= j < n ==> drift_at(run.states[n], #[trigger] run.keys[j], now) is None,
        forall|j: int|
            0 <= j < n && drift_at(start, #[trigger] run.keys[j], now) is Some ==> live_value(
                run.states[n].l1.level.vaults,
                run.keys[j],
                now,
            ) == run.truths[j] && live_value(run.states[n].l2.level.vaults, run.keys[j], now)
                == run.truths[j],
    decreases n,
{
    if n > 0 {
        lemma_healing(run, start, now, n - 1);
        let before = run.states[n - 1];
        let after = run.states[n];
        let key = run.keys[n - 1];
        assert(heal_step(before, key, run.truths[n - 1], now, after));
        assert forall|j: int| 0 <= j < n - 1 implies #[trigger] run.keys[j] != key by {}
        assert(untouched(start, before, key, now));
        assert(added(run, start, now, n - 1).subset_of(added(run, start, now, n))) by {
            assert forall|k: Seq<char>| run.keys.take(n - 1).contains(k) implies #[trigger] run.keys.take(
                n,
            ).contains(k) by {
                let j = run.keys.take(n - 1).index_of(k);
                assert(run.keys.take(n)[j] == k);
            }
        }
        if drift_at(before, key, now) is Some {
            lemma_room(run, start, now, n - 1, before);
        }
        assert(after.l1.level.vaults.dom().subset_of(
            start.l1.level.vaults.dom().union(added(run, start, now, n)),
        ));
        assert forall|other: Seq<char>| other != key implies #[trigger] untouched(
            before,
            after,
            other,
            now,
        ) by {}
        assert forall|other: Seq<char>|
            (forall|j: int| 0 <= j < n ==> #[trigger] run.keys[j] != other)
                implies #[trigger] untouched(start, after, other, now) by {
            assert(run.keys[n - 1] != other);
            assert(untouched(start, before, other, now));
            assert(untouched(before, after, other, now));
        }
        assert forall|other: Seq<char>|
            drift_at(start, other, now) is None implies #[trigger] untouched(
            start,
            after,
            other,
            now,
        ) by {
            assert(untouched(start, before, other, now));
            if other != key {
                assert(untouched(before, after, other, now));
            }
        }
        assert forall|j: int| 0 <= j < n implies drift_at(after, #[trigger] run.keys[j], now)
            is None by {
            if j < n - 1 {
                assert(drift_at(before, run.keys[j], now) is None);
                assert(untouched(before, after, run.keys[j], now));
            }
        }
        assert forall|j: int|
            0 <= j < n && drift_at(start, #[trigger] run.keys[j], now) is Some implies live_value(
            after.l1.level.vaults,
            run.keys[j],
            now,
        ) == run.truths[j] && live_value(after.l2.level.vaults, run.keys[j], now)
            == run.truths[j] by {
            if j < n - 1 {
                assert(untouched(before, after, run.keys[j], now));
            }
        }
    }
}

/// The details of a run name the vaults that drifted, once each.
proof fn lemma_run_details(run: Healing, start: CacheModel, now: u128, n: int)
    requires
        run.starts_at(start, now),
        lists_cached_keys(start, now, run.keys),
        start.l1_ttl > 0,
        start.l2_ttl > 0,
        start.l1.level.vaults.dom().finite(),
        has_room_to_heal(start, now),
        0 <= n <= run.keys.len(),
    ensures
        forall|i: int|
            0 <= i < run.details(n, now).len() ==> {
                let d = #[trigger] run.details(n, now)[i];
                &&& run.keys.take(n).contains(d.key)
                &&& drift_at(start, d.key, now) == Some(d.kind)
                &&& d.healed
            },
        forall|i: int, j: int|
            0 <= i < j < run.details(n, now).len() ==> (#[trigger] run.details(n, now)[i]).key != (
            #[trigger] run.details(n, now)[j]).key,
        forall|key: Seq<char>|
            run.keys.take(n).contains(key) && drift_at(start, key, now) is Some
                ==> #[trigger] names(run.details(n, now), key),
    decreases n,
{
    if n > 0 {
        lemma_run_details(run, start, now, n - 1);
        lemma_healing(run, start, now, n - 1);
        let key = run.keys[n - 1];
        let rest = run.keys.take(n - 1);
        let keys = run.keys.take(n);
        let head = run.details(n - 1, now);
        let all = run.details(n, now);
        assert forall|j: int| 0 <= j < n - 1 implies #[trigger] run.keys[j] != key by {}
        assert(untouched(start, run.states[n - 1], key, now));
        assert(keys[n - 1] == key);
        assert forall|k: Seq<char>| rest.contains(k) implies #[trigger] keys.contains(k) && k != key by {
            let j = rest.index_of(k);
            assert(keys[j] == k && run.keys[j] == k);
        }
        assert forall|i: int| 0 <= i < all.len() implies {
            let d = #[trigger] all[i];
            &&& keys.contains(d.key)
            &&& drift_at(start, d.key, now) == Some(d.kind)
            &&& d.healed
        } by {
            if i < head.len() {
                assert(all[i] == head[i]);
                assert(rest.contains(head[i].key));
            }
        }
        assert forall|i: int, j: int| 0 <= i < j < all.len() implies (#[trigger] all[i]).key != (
        #[trigger] all[j]).key by {
            assert(all[i] == head[i]);
            assert(rest.contains(head[i].key));
            if j < head.len() {
                assert(all[j] == head[j]);
            }
        }
        assert forall|k: Seq<char>|
            keys.contains(k) && drift_at(start, k, now) is Some implies #[trigger] names(all, k) by {
            if k == key {
                assert(all[all.len() - 1].key == k);
            } else {
                let p = keys.index_of(k);
                assert(rest[p] == k);
                assert(names(head, k));
                let q = choose|q: int| 0 <= q < head.len() && (#[trigger] head[q]).key == k;
                assert(all[q].key == k);
            }
        }
    }
}

/// The report names each vault that drifted once, with how the levels disagreed
/// on it, and says that it was healed; it names no other.
pub open spec fn names_each_drift(report: CacheDriftReport, c: CacheModel, now: u128) -> bool {
    let details = details_view(report.details@);
    &&& report.checked_keys_count == cached_keys(c, now).len()
    &&& report.drift_count == details.len()
    &&& report.healed_count == details.len()
    &&& forall|i: int|
        0 <= i < details.len() ==> drift_at(c, (#[trigger] details[i]).key, now) == Some(
            details[i].kind,
        ) && details[i].healed
    &&& forall|i: int, j: int|
        0 <= i < j < details.len() ==> (#[trigger] details[i]).key != (#[trigger] details[j]).key
    &&& forall|key: Seq<char>| #[trigger]
        drift_at(c, key, now) is Some ==> exists|i: int|
            0 <= i < details.len() && (#[trigger] details[i]).key == key
}

/// Healing names every drift once. Afterwards both levels hold, of each vault
/// that drifted, an answer of the source of truth, and of each other vault what
/// they held; and a check right after it finds no drift.
pub proof fn healing_leaves_no_drift<F: Fn(&str) -> Option<Vault>>(
    source: F,
    run: Healing,
    before: CacheModel,
    now: u128,
    at: Time,
    report: CacheDriftReport,
    after: CacheModel,
    later: Time,
    check: CacheDriftReport,
)
    requires
        healed(source, run, before, now, at, report, after),
        verified(after, now, later, check),
        before.l1_ttl > 0,
        before.l2_ttl > 0,
        before.l1.level.vaults.dom().finite(),
        has_room_to_heal(before, now),
    ensures
        names_each_drift(report, before, now),
        forall|key: Seq<char>| #[trigger]
            drift_at(before, key, now) is Some ==> exists|truth: Option<Vault>| #[trigger]
                answers(source, key, truth) && live_value(after.l1.level.vaults, key, now) == truth
                    && live_value(after.l2.level.vaults, key, now) == truth,
        forall|key: Seq<char>|
            drift_at(before, key, now) is None ==> live_value(after.l1.level.vaults, key, now)
                == live_value(before.l1.level.vaults, key, now) && #[trigger] live_value(
                after.l2.level.vaults,
                key,
                now,
            ) == live_value(before.l2.level.vaults, key, now),
        check.drift_count == 0,
        check.details@.len() == 0,
{
    healing_reconciles(run, before, now);
    lemma_run_details(run, before, now, run.keys.len() as int);
    assert(run.keys.take(run.keys.len() as int) =~= run.keys);
    let details = details_view(report.details@);
    assert forall|key: Seq<char>| #[trigger] drift_at(before, key, now) is Some implies exists|
        i: int,
    | 0 <= i < details.len() && (#[trigger] details[i]).key == key by {
        assert(cached_keys(before, now).contains(key));
        assert(run.keys.to_set().contains(key));
        assert(names(details, key));
    }
    assert forall|key: Seq<char>| #[trigger] drift_at(before, key, now) is Some implies exists|
        truth: Option<Vault>,
    | #[trigger]
        answers(source, key, truth) && live_value(after.l1.level.vaults, key, now) == truth
            && live_value(after.l2.level.vaults, key, now) == truth by {
        assert(cached_keys(before, now).contains(key));
        assert(run.keys.to_set().contains(key));
        let i = run.keys.index_of(key);
        assert(run.keys[i] == key);
        lemma_healing(run, before, now, i);
        assert forall|j: int| 0 <= j < i implies #[trigger] run.keys[j] != key by {}
        assert(untouched(before, run.states[i], key, now));
        assert(answers(source, key, run.truths[i]));
    }
    let keys = choose|keys: Seq<Seq<char>>| #[trigger]
        lists_cached_keys(after, now, keys) && details_view(check.details@) == drifts_of(
            after,
            keys,
            now,
        );
    lemma_drifts(after, keys, now);
    if check.details@.len() > 0 {
        let d = drifts_of(after, keys, now)[0];
        assert(drift_at(after, d.key, now) == Some(d.kind));
        assert(drift_at(run.states.last(), d.key, now) is None);
    }
}

/// A key has drifted exactly where only one of the levels holds it alive, or where they
/// hold different vaults; the kind of the drift tells which.
pub proof fn drifts_tell_the_levels_apart(c: CacheModel, key: Seq<char>, now: u128)
    ensures
        ({
            let first = live_value(c.l1.level.vaults, key, now);
            let second = live_value(c.l2.level.vaults, key, now);
            let drift = drift_at(c, key, now);
            &&& drift == Some(DriftKind::L1Only) <==> first is Some && second is None
            &&& drift == Some(DriftKind::L2Only) <==> first is None && second is Some
            &&& drift == Some(DriftKind::ValueMismatch) <==> first is Some && second is Some
                && first->0@ != second->0@
            &&& drift is None <==> (first is None && second is None) || (first is Some
                && second is Some && first->0@ == second->0@)
        }),
{
}

/// What is found is what the first level holds alive, and otherwise what the second does.
pub proof fn the_first_level_comes_first(c: CacheModel, id: Seq<char>, now: u128)
    ensures
        c.l1.level.vaults.contains_key(id) && c.l1.level.vaults[id].live(now) ==> c.vault(id, now)
            == Some(c.l1.level.vaults[id].value),
        !(c.l1.level.vaults.contains_key(id) && c.l1.level.vaults[id].live(now))
            && c.l2.level.vaults.contains_key(id) && c.l2.level.vaults[id].live(now) ==> c.vault(
            id,
            now,
        ) == Some(c.l2.level.vaults[id].value),
        c.vault(id, now) is None <==> !(c.l1.level.vaults.contains_key(id)
            && c.l1.level.vaults[id].live(now)) && !(c.l2.level.vaults.contains_key(id)
            && c.l2.level.vaults[id].live(now)),
{
}

/// A lookup counts one hit or one miss in the first level. The second level is asked only
/// where the first has nothing, and what it has is promoted.
pub proof fn lookups_count_hits_and_misses(
    before: CacheModel,
    id: Seq<char>,
    now: u128,
    after: CacheModel,
)
    requires
        vault_got(before, id, now, after),
        before.has_room(2),
    ensures
        ({
            let first = live_value(before.l1.level.vaults, id, now) is Some;
            let second = live_value(before.l2.level.vaults, id, now) is Some;
            &&& first ==> after.l1.stats.hits == before.l1.stats.hits + 1 && after.l1.stats.misses
                == before.l1.stats.misses && after.l2.stats == before.l2.stats
            &&& !first ==> after.l1.stats.misses == before.l1.stats.misses + 1
                && after.l1.stats.hits == before.l1.stats.hits
            &&& !first && second ==> after.l2.stats.hits == before.l2.stats.hits + 1
                && after.l2.stats.promotions == before.l2.stats.promotions + 1
                && after.l2.stats.misses == before.l2.stats.misses
            &&& !first && !second ==> after.l2.stats.misses == before.l2.stats.misses + 1
                && after.l2.stats.hits == before.l2.stats.hits && after.l2.stats.promotions
                == before.l2.stats.promotions
        }),
{
}

/// Each level keeps what was put by its own time to live: the first for `l1_ttl` and the
/// second for `l2_ttl`, whether it is a vault, a remaining time or a summary.
pub proof fn each_level_keeps_by_its_own_time(
    before: CacheModel,
    id: Seq<char>,
    vault: Vault,
    after: CacheModel,
    value: Option<u64>,
    summary: VaultSummary,
    at: u128,
    now: u128,
)
    requires
        vault_put(before, id, vault, at, after),
        at <= now,
    ensures
        live_value(after.l1.level.vaults, id, now) is Some <==> now - at < before.l1_ttl,
        live_value(after.l2.level.vaults, id, now) is Some <==> now - at < before.l2_ttl,
        live_value(ttl_remaining_put(before, id, value, at).l1.level.ttl_remaining, id, now) is Some
            <==> now - at < before.l1_ttl,
        live_value(ttl_remaining_put(before, id, value, at).l2.level.ttl_remaining, id, now) is Some
            <==> now - at < before.l2_ttl,
        live_value(summary_put(before, id, summary, at).l1.level.summaries, id, now) is Some
            <==> now - at < before.l1_ttl,
        live_value(summary_put(before, id, summary, at).l2.level.summaries, id, now) is Some
            <==> now - at < before.l2_ttl,
{
}

/// Looking up a remaining time or a summary does not change what is found, of that vault or
/// of another.
pub proof fn detail_lookups_are_repeatable(
    c: CacheModel,
    id: Seq<char>,
    other: Seq<char>,
    now: u128,
)
    ensures
        ttl_remaining_got(c, id, now).ttl_remaining(other, now) == c.ttl_remaining(other, now),
        summary_got(c, id, now).summary(other, now) == c.summary(other, now),
        ttl_remaining_got(c, id, now).vault(other, now) == c.vault(other, now),
        summary_got(c, id, now).vault(other, now) == c.vault(other, now),
{
}

/// What is put with the usual times to live is found for half an hour, for the first minute
/// in the first level, which holds up to 500 vaults.
pub proof fn usual_times_to_live(
    before: CacheModel,
    id: Seq<char>,
    vault: Vault,
    at: u128,
    after: CacheModel,
    now: u128,
)
    requires
        vault_put(before, id, vault, at, after),
        before.l1_ttl == L1_TTL_SECS * 1_000_000_000,
        before.l2_ttl == L2_TTL_SECS * 1_000_000_000,
        at <= now,
    ensures
        after.vault(id, now) is Some <==> now - at < 1_800_000_000_000,
        live_value(after.l1.level.vaults, id, now) is Some <==> now - at < 60_000_000_000,
        L1_MAX_ENTRIES == 500,
{
}

} // verus!
