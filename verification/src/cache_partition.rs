//! Cache partitioning for multi-tenant isolation, with consistent hashing and
//! partition rebalancing.
//!
//! Each tenant has its own partition of the cache, so that keys of one tenant
//! cannot collide with or leak into another tenant's data. Routed operations
//! assign a key to a partition by consistent hashing, and per-partition load
//! tracking detects hot partitions.

use vstd::prelude::*;

use crate::clock::{monotonic_now, nanos_since, steady_clock_shows};
use crate::hash_ring::{
    adding_moves_keys_only_to_the_new_partition, assigned, empty_ring,
    keys_are_assigned_to_members, lemma_assigned, lemma_grown_ring, lemma_owner_is_assigned,
    removed_partitions_get_no_keys, removing_keeps_the_keys_of_other_partitions, text_hash,
    ConsistentHashRing, RingModel, DEFAULT_VNODES_PER_PARTITION,
};
use crate::ratio::Ratio;
use crate::table::{lemma_index_of, Table};
use crate::text::{chars_of, is_sorted, same, text_option, texts};

verus! {

/// Separator between tenant and cache key.
pub const KEY_SEP: char = ':';

/// The default time to live: five minutes, in nanoseconds.
pub const DEFAULT_TTL_NANOS: u128 = 300_000_000_000;

/// The namespaced form of a tenant's key.
pub open spec fn namespaced(tenant: Seq<char>, key: Seq<char>) -> Seq<char> {
    tenant + seq![KEY_SEP] + key
}

/// `s` is the namespaced form of `key` for `tenant`, cut at its first separator.
pub open spec fn cut_at_separator(s: Seq<char>, tenant: Seq<char>, key: Seq<char>) -> bool {
    s == namespaced(tenant, key) && !tenant.contains(KEY_SEP)
}

/// The namespaced cache key for a tenant and a logical key.
pub fn namespaced_key(tenant_id: &str, key: &str) -> (r: String)
    ensures
        r@ == namespaced(tenant_id@, key@),
{
    let mut out = tenant_id.to_owned();
    out.push(KEY_SEP);
    out.append(key);
    assert(out@ =~= namespaced(tenant_id@, key@));
    out
}

/// The tenant and the logical key of a namespaced key; `None` if it has no
/// separator.
pub fn parse_namespaced_key(namespaced: &str) -> (r: Option<(&str, &str)>)
    ensures
        match r {
            Some((tenant, key)) => cut_at_separator(namespaced@, tenant@, key@),
            None => !namespaced@.contains(KEY_SEP),
        },
{
    let chars = chars_of(namespaced);
    let mut i: usize = 0;
    while i < chars.len() && chars[i] != KEY_SEP
        invariant
            i <= chars.len(),
            chars@ == namespaced@,
            forall|j: int| 0 <= j < i ==> chars[j] != KEY_SEP,
        decreases chars.len() - i,
    {
        i = i + 1;
    }
    if i == chars.len() {
        return None;
    }
    let tenant = namespaced.substring_char(0, i);
    let key = namespaced.substring_char(i + 1, chars.len());
    assert(namespaced@ =~= crate::cache_partition::namespaced(tenant@, key@));
    Some((tenant, key))
}

/// A namespaced key is read back as the tenant and the key that it was made
/// of, for every tenant without a separator.
pub proof fn parsing_inverts_namespacing(
    tenant: Seq<char>,
    key: Seq<char>,
    read_tenant: Seq<char>,
    read_key: Seq<char>,
)
    requires
        !tenant.contains(KEY_SEP),
        cut_at_separator(namespaced(tenant, key), read_tenant, read_key),
    ensures
        read_tenant == tenant,
        read_key == key,
{
    let s = namespaced(tenant, key);
    assert(s[tenant.len() as int] == KEY_SEP);
    assert(s[read_tenant.len() as int] == KEY_SEP) by {
        assert(s == namespaced(read_tenant, read_key));
    }
    if tenant.len() < read_tenant.len() {
        assert(read_tenant[tenant.len() as int] == s[tenant.len() as int]);
    }
    if read_tenant.len() < tenant.len() {
        assert(tenant[read_tenant.len() as int] == s[read_tenant.len() as int]);
    }
    assert(read_tenant =~= tenant) by {
        assert forall|i: int| 0 <= i < tenant.len() implies tenant[i] == read_tenant[i] by {
            assert(tenant[i] == s[i]);
        }
    }
    assert(read_key =~= key) by {
        assert(s.len() == tenant.len() + 1 + key.len());
        assert(namespaced(read_tenant, read_key).len() == tenant.len() + 1 + read_key.len());
        assert forall|i: int| 0 <= i < key.len() implies key[i] == read_key[i] by {
            assert(key[i] == s[tenant.len() + 1 + i]);
            assert(read_key[i] == namespaced(read_tenant, read_key)[tenant.len() + 1 + i]);
        }
    }
}

/// Keys of two tenants without separators never share a namespaced form.
pub proof fn namespaces_do_not_collide(
    tenant_a: Seq<char>,
    key_a: Seq<char>,
    tenant_b: Seq<char>,
    key_b: Seq<char>,
)
    requires
        !tenant_a.contains(KEY_SEP),
        !tenant_b.contains(KEY_SEP),
        tenant_a != tenant_b,
    ensures
        namespaced(tenant_a, key_a) != namespaced(tenant_b, key_b),
{
    if namespaced(tenant_a, key_a) == namespaced(tenant_b, key_b) {
        parsing_inverts_namespacing(tenant_a, key_a, tenant_b, key_b);
    }
}

/// A cached value, when it was stored and how long it lives, in nanoseconds of
/// the cache's clock.
pub struct EntryModel {
    pub value: Seq<char>,
    pub inserted_at: nat,
    pub ttl: nat,
}

impl EntryModel {
    /// Its age at `now` has reached its time to live.
    pub open spec fn expired(self, now: nat) -> bool {
        (if now >= self.inserted_at {
            now - self.inserted_at
        } else {
            0
        }) >= self.ttl
    }
}

/// A partition: its entries and its counters.
pub struct PartitionModel {
    pub data: Map<Seq<char>, EntryModel>,
    pub hits: nat,
    pub misses: nat,
    pub evictions: nat,
    pub sets: nat,
}

impl PartitionModel {
    pub open spec fn empty() -> PartitionModel {
        PartitionModel { data: Map::empty(), hits: 0, misses: 0, evictions: 0, sets: 0 }
    }

    /// Reads and writes counted so far.
    pub open spec fn operations(self) -> nat {
        self.hits + self.misses + self.sets
    }

    /// The keys of the entries that have not expired.
    pub open spec fn live(self, now: nat) -> Set<Seq<char>> {
        self.data.dom().filter(|k: Seq<char>| !self.data[k].expired(now))
    }

    /// The partition after an entry was stored.
    pub open spec fn put(self, key: Seq<char>, entry: EntryModel) -> PartitionModel {
        PartitionModel { data: self.data.insert(key, entry), sets: self.sets + 1, ..self }
    }

    /// Whether a read of `key` finds a value.
    pub open spec fn hit(self, key: Seq<char>, now: nat) -> bool {
        self.data.contains_key(key) && !self.data[key].expired(now)
    }

    /// What a read of `key` returns.
    pub open spec fn read(self, key: Seq<char>, now: nat) -> Option<Seq<char>> {
        if self.hit(key, now) {
            Some(self.data[key].value)
        } else {
            None
        }
    }

    /// The partition after a read: a hit is counted; an expired entry is
    /// evicted and counted as an eviction and a miss; an absent one is a miss.
    pub open spec fn after_read(self, key: Seq<char>, now: nat) -> PartitionModel {
        if self.hit(key, now) {
            PartitionModel { hits: self.hits + 1, ..self }
        } else if self.data.contains_key(key) {
            PartitionModel {
                data: self.data.remove(key),
                misses: self.misses + 1,
                evictions: self.evictions + 1,
                ..self
            }
        } else {
            PartitionModel { misses: self.misses + 1, ..self }
        }
    }
}

/// The operations of the partitions listed in `order`.
pub open spec fn sum_operations(
    order: Seq<Seq<char>>,
    partitions: Map<Seq<char>, PartitionModel>,
) -> nat
    decreases order.len(),
{
    if order.len() == 0 {
        0
    } else {
        sum_operations(order.drop_last(), partitions) + partitions[order.last()].operations()
    }
}

/// A partitioned cache: its partitions, in the order of their creation, and
/// its hash ring.
pub struct CacheModel {
    pub order: Seq<Seq<char>>,
    pub partitions: Map<Seq<char>, PartitionModel>,
    pub ring: RingModel,
    pub default_ttl: nat,
}

impl CacheModel {
    /// Reads and writes counted so far in all partitions.
    pub open spec fn operations(self) -> nat {
        sum_operations(self.order, self.partitions)
    }

    /// The partition of a tenant; an empty one if it has none.
    pub open spec fn partition(self, tenant: Seq<char>) -> PartitionModel {
        if self.partitions.contains_key(tenant) {
            self.partitions[tenant]
        } else {
            PartitionModel::empty()
        }
    }

    /// The cache with the partition of a tenant replaced, or created.
    pub open spec fn with_partition(self, tenant: Seq<char>, p: PartitionModel) -> CacheModel {
        CacheModel {
            order: if self.partitions.contains_key(tenant) {
                self.order
            } else {
                self.order.push(tenant)
            },
            partitions: self.partitions.insert(tenant, p),
            ..self
        }
    }

    /// The cache after a value was stored for a tenant.
    pub open spec fn set(
        self,
        tenant: Seq<char>,
        key: Seq<char>,
        value: Seq<char>,
        ttl: nat,
        now: nat,
    ) -> CacheModel {
        self.with_partition(
            tenant,
            self.partition(tenant).put(key, EntryModel { value, inserted_at: now, ttl }),
        )
    }

    /// What a read for a tenant returns.
    pub open spec fn read(self, tenant: Seq<char>, key: Seq<char>, now: nat) -> Option<Seq<char>> {
        if self.partitions.contains_key(tenant) {
            self.partitions[tenant].read(key, now)
        } else {
            None
        }
    }

    /// The cache after a read for a tenant. A tenant without a partition gets none.
    pub open spec fn after_read(self, tenant: Seq<char>, key: Seq<char>, now: nat) -> CacheModel {
        if self.partitions.contains_key(tenant) {
            self.with_partition(tenant, self.partitions[tenant].after_read(key, now))
        } else {
            self
        }
    }

    /// The cache after a read from the partition that the key is assigned to,
    /// and what the read returns; without partitions nothing is read.
    pub open spec fn routed_read(self, key: Seq<char>, now: nat) -> (CacheModel, Option<Seq<char>>) {
        match assigned(self.ring.points, key) {
            Some(p) => (self.after_read(p, key, now), self.read(p, key, now)),
            None => (self, None),
        }
    }

    /// The cache after a key of a tenant was removed.
    pub open spec fn remove(self, tenant: Seq<char>, key: Seq<char>) -> CacheModel {
        if self.partitions.contains_key(tenant) {
            let p = self.partitions[tenant];
            self.with_partition(tenant, PartitionModel { data: p.data.remove(key), ..p })
        } else {
            self
        }
    }

    /// The cache after all entries of a tenant were removed.
    pub open spec fn clear_tenant(self, tenant: Seq<char>) -> CacheModel {
        if self.partitions.contains_key(tenant) {
            self.with_partition(
                tenant,
                PartitionModel { data: Map::empty(), ..self.partitions[tenant] },
            )
        } else {
            self
        }
    }

    /// The cache with a partition added to the ring and given storage.
    pub open spec fn add_partition(self, name: Seq<char>) -> CacheModel {
        let ringed = CacheModel { ring: self.ring.add(name), ..self };
        if self.partitions.contains_key(name) {
            ringed
        } else {
            ringed.with_partition(name, PartitionModel::empty())
        }
    }

    /// The cache with a partition removed from the ring; its storage stays.
    pub open spec fn remove_partition(self, name: Seq<char>) -> CacheModel {
        CacheModel { ring: self.ring.remove(name), ..self }
    }

    /// The cache with partitions added one after another.
    pub open spec fn add_all(self, names: Seq<Seq<char>>) -> CacheModel
        decreases names.len(),
    {
        if names.len() == 0 {
            self
        } else {
            self.add_all(names.drop_last()).add_partition(names.last())
        }
    }
}

/// The empty cache.
pub open spec fn empty_cache(default_ttl: nat) -> CacheModel {
    CacheModel {
        order: Seq::empty(),
        partitions: Map::empty(),
        ring: empty_ring(DEFAULT_VNODES_PER_PARTITION as nat),
        default_ttl,
    }
}

/// A value that was stored is read back until its time to live has passed.
pub proof fn read_after_set(
    cache: CacheModel,
    tenant: Seq<char>,
    key: Seq<char>,
    value: Seq<char>,
    ttl: nat,
    stored: nat,
    now: nat,
)
    requires
        now >= stored,
    ensures
        cache.set(tenant, key, value, ttl, stored).read(tenant, key, now) == (if now - stored < ttl {
            Some(value)
        } else {
            None
        }),
{
}

/// Storing a value for one tenant changes nothing that another tenant reads.
pub proof fn set_is_isolated(
    cache: CacheModel,
    tenant: Seq<char>,
    key: Seq<char>,
    value: Seq<char>,
    ttl: nat,
    stored: nat,
    other: Seq<char>,
    other_key: Seq<char>,
    now: nat,
)
    requires
        other != tenant,
    ensures
        cache.set(tenant, key, value, ttl, stored).read(other, other_key, now) == cache.read(
            other,
            other_key,
            now,
        ),
{
}

/// Reads, removals and clears for one tenant leave another tenant's partition
/// as it was.
pub proof fn tenants_are_isolated(
    cache: CacheModel,
    tenant: Seq<char>,
    key: Seq<char>,
    now: nat,
    other: Seq<char>,
)
    requires
        other != tenant,
    ensures
        cache.after_read(tenant, key, now).partition(other) == cache.partition(other),
        cache.remove(tenant, key).partition(other) == cache.partition(other),
        cache.clear_tenant(tenant).partition(other) == cache.partition(other),
{
}

/// A key that was removed, or whose tenant was cleared, is not read back.
pub proof fn removed_keys_are_gone(
    cache: CacheModel,
    tenant: Seq<char>,
    key: Seq<char>,
    now: nat,
)
    ensures
        cache.remove(tenant, key).read(tenant, key, now) is None,
        cache.clear_tenant(tenant).read(tenant, key, now) is None,
{
}

/// A read returns what the read before it returned, if no entry expires in
/// between.
pub proof fn reads_are_repeatable(
    cache: CacheModel,
    tenant: Seq<char>,
    key: Seq<char>,
    now: nat,
)
    ensures
        cache.after_read(tenant, key, now).read(tenant, key, now) == cache.read(tenant, key, now),
{
}

proof fn lemma_sum_same(
    order: Seq<Seq<char>>,
    a: Map<Seq<char>, PartitionModel>,
    b: Map<Seq<char>, PartitionModel>,
)
    requires
        forall|i: int|
            0 <= i < order.len() ==> a[#[trigger] order[i]].operations()
                == b[order[i]].operations(),
    ensures
        sum_operations(order, a) == sum_operations(order, b),
    decreases order.len(),
{
    if order.len() > 0 {
        assert forall|i: int| 0 <= i < order.drop_last().len() implies a[#[trigger] order.drop_last()[i]].operations()
            == b[order.drop_last()[i]].operations() by {
            assert(order.drop_last()[i] == order[i]);
        }
        lemma_sum_same(order.drop_last(), a, b);
        assert(order[order.len() - 1] == order.last());
    }
}

/// Replacing one partition changes the sum by the difference.
proof fn lemma_sum_update(
    order: Seq<Seq<char>>,
    partitions: Map<Seq<char>, PartitionModel>,
    at: int,
    p: PartitionModel,
)
    requires
        order.no_duplicates(),
        0 <= at < order.len(),
    ensures
        sum_operations(order, partitions.insert(order[at], p)) == sum_operations(order, partitions)
            - partitions[order[at]].operations() + p.operations(),
        sum_operations(order, partitions) >= partitions[order[at]].operations(),
    decreases order.len(),
{
    let changed = partitions.insert(order[at], p);
    if at == order.len() - 1 {
        assert forall|i: int| 0 <= i < order.drop_last().len() implies changed[#[trigger] order.drop_last()[i]].operations()
            == partitions[order.drop_last()[i]].operations() by {
            assert(order.drop_last()[i] == order[i]);
        }
        lemma_sum_same(order.drop_last(), changed, partitions);
    } else {
        assert(order.drop_last()[at] == order[at]);
        assert(order.drop_last().no_duplicates());
        lemma_sum_update(order.drop_last(), partitions, at, p);
        assert(order.last() != order[at]);
    }
}

/// Adding a partition adds its operations.
proof fn lemma_sum_push(
    order: Seq<Seq<char>>,
    partitions: Map<Seq<char>, PartitionModel>,
    name: Seq<char>,
    p: PartitionModel,
)
    requires
        !order.contains(name),
    ensures
        sum_operations(order.push(name), partitions.insert(name, p)) == sum_operations(
            order,
            partitions,
        ) + p.operations(),
{
    let changed = partitions.insert(name, p);
    assert(order.push(name).drop_last() =~= order);
    lemma_sum_same(order, changed, partitions);
}

struct PartitionEntry {
    value: String,
    inserted_at: u128,
    ttl: u128,
}

impl PartitionEntry {
    spec fn view(&self) -> EntryModel {
        EntryModel {
            value: self.value@,
            inserted_at: self.inserted_at as nat,
            ttl: self.ttl as nat,
        }
    }

    fn is_expired(&self, now: u128) -> (r: bool)
        ensures
            r == self@.expired(now as nat),
    {
        let age: u128 = if now >= self.inserted_at { now - self.inserted_at } else { 0 };
        age >= self.ttl
    }
}

/// Statistics for a single tenant partition.
#[derive(Debug, Clone, Copy, PartialEq, Eq)]
pub struct PartitionStats {
    /// Number of keys currently alive (non-expired) in this partition.
    pub live_keys: usize,
    /// Cumulative cache hits for this partition since creation.
    pub hits: u64,
    /// Cumulative cache misses for this partition since creation.
    pub misses: u64,
    /// Cumulative evictions (expired entries removed on read) for this partition.
    pub evictions: u64,
}

impl Default for PartitionStats {
    fn default() -> (r: Self)
        ensures
            r == (PartitionStats { live_keys: 0, hits: 0, misses: 0, evictions: 0 }),
    {
        PartitionStats { live_keys: 0, hits: 0, misses: 0, evictions: 0 }
    }
}

impl PartitionStats {
    /// These are the statistics of the partition `p` at `now`.
    pub open spec fn describes(self, p: PartitionModel, now: nat) -> bool {
        &&& p.live(now).finite()
        &&& self.live_keys == p.live(now).len()
        &&& self.hits == p.hits
        &&& self.misses == p.misses
        &&& self.evictions == p.evictions
    }

    /// The ratio is the share of reads that were hits.
    pub open spec fn has_ratio(self, r: Option<Ratio>) -> bool {
        match r {
            Some(ratio) => self.hits + self.misses > 0 && ratio.numerator == self.hits
                && ratio.denominator == self.hits + self.misses,
            None => self.hits + self.misses == 0,
        }
    }

    /// The share of reads that were hits; `None` when nothing was read yet.
    pub fn hit_ratio(&self) -> (r: Option<Ratio>)
        requires
            self.hits + self.misses <= u64::MAX,
        ensures
            self.has_ratio(r),
    {
        let total: u64 = self.hits + self.misses;
        if total == 0 {
            None
        } else {
            Some(Ratio { numerator: self.hits as u128, denominator: total })
        }
    }
}

struct TenantPartition {
    data: Table<PartitionEntry>,
    hits: u64,
    misses: u64,
    evictions: u64,
    sets: u64,
}

impl TenantPartition {
    spec fn view(&self) -> PartitionModel {
        PartitionModel {
            data: self.data@.map_values(|e: PartitionEntry| e@),
            hits: self.hits as nat,
            misses: self.misses as nat,
            evictions: self.evictions as nat,
            sets: self.sets as nat,
        }
    }

    spec fn wf(&self) -> bool {
        &&& self.data.wf()
        &&& self.evictions <= self.misses
    }

    fn new() -> (r: Self)
        ensures
            r.wf(),
            r@ == PartitionModel::empty(),
    {
        let r = TenantPartition { data: Table::new(), hits: 0, misses: 0, evictions: 0, sets: 0 };
        assert(r@.data =~= Map::empty());
        r
    }

    fn put(&mut self, key: &str, entry: PartitionEntry)
        requires
            old(self).wf(),
            old(self).sets < u64::MAX,
        ensures
            final(self).wf(),
            final(self)@ == old(self)@.put(key@, entry@),
    {
        let ghost before = *self;
        self.sets = self.sets + 1;
        let _previous = self.data.insert(key.to_owned(), entry);
        assert(self@.data =~= before@.data.insert(key@, entry@));
    }

    fn get(&mut self, key: &str, now: u128) -> (r: Option<String>)
        requires
            old(self).wf(),
            old(self).hits < u64::MAX,
            old(self).misses < u64::MAX,
        ensures
            final(self).wf(),
            final(self)@ == old(self)@.after_read(key@, now as nat),
            match r {
                Some(value) => old(self)@.read(key@, now as nat) == Some(value@),
                None => old(self)@.read(key@, now as nat) is None,
            },
    {
        let ghost before = *self;
        match self.data.get(key) {
            Some(entry) => {
                if !entry.is_expired(now) {
                    let value = entry.value.clone();
                    self.hits = self.hits + 1;
                    Some(value)
                } else {
                    self.evictions = self.evictions + 1;
                    self.misses = self.misses + 1;
                    let _expired = self.data.remove(key);
                    assert(self@.data =~= before@.data.remove(key@));
                    None
                }
            },
            None => {
                self.misses = self.misses + 1;
                None
            },
        }
    }

    fn remove(&mut self, key: &str)
        requires
            old(self).wf(),
        ensures
            final(self).wf(),
            final(self)@ == (PartitionModel { data: old(self)@.data.remove(key@), ..old(self)@ }),
    {
        let ghost before = *self;
        let _entry = self.data.remove(key);
        assert(self@.data =~= before@.data.remove(key@));
    }

    fn clear(&mut self)
        requires
            old(self).wf(),
        ensures
            final(self).wf(),
            final(self)@ == (PartitionModel { data: Map::empty(), ..old(self)@ }),
    {
        self.data.clear();
        assert(self@.data =~= Map::empty());
    }

    /// The number of keys that have not expired.
    fn live_key_count(&self, now: u128) -> (r: usize)
        requires
            self.wf(),
        ensures
            self@.live(now as nat).finite(),
            r == self@.live(now as nat).len(),
    {
        let ghost mut seen: Set<Seq<char>> = Set::empty();
        let mut count: usize = 0;
        let mut i: usize = 0;
        let n = self.data.len();
        while i < n
            invariant
                self.wf(),
                i <= n,
                n == self.data.keys().len(),
                count <= i,
                seen.finite(),
                seen.len() == count,
                forall|k: Seq<char>| #[trigger]
                    seen.contains(k) <==> exists|j: int|
                        0 <= j < i && self.data.keys()[j] == k && !self@.data[k].expired(now as nat),
            decreases n - i,
        {
            let entry = self.data.value_at(i);
            let ghost key = self.data.keys()[i as int];
            let ghost before = seen;
            if !entry.is_expired(now) {
                count = count + 1;
                proof {
                    assert(!seen.contains(key));
                    seen = seen.insert(key);
                }
            }
            proof {
                assert forall|k: Seq<char>| #[trigger] seen.contains(k) <==> exists|j: int|
                    0 <= j < i + 1 && self.data.keys()[j] == k && !self@.data[k].expired(now as nat) by {
                    if before.contains(k) {
                        let j = choose|j: int|
                            0 <= j < i && self.data.keys()[j] == k && !self@.data[k].expired(
                                now as nat,
                            );
                        assert(0 <= j < i + 1 && self.data.keys()[j] == k);
                    }
                    if k == key && !self@.data[k].expired(now as nat) {
                        assert(self.data.keys()[i as int] == k);
                        assert(seen.contains(k));
                    }
                }
            }
            i = i + 1;
        }
        proof {
            assert(seen =~= self@.live(now as nat)) by {
                assert forall|k: Seq<char>| #[trigger] seen.contains(k) <==> self@.live(now as nat).contains(k) by {
                    if self@.live(now as nat).contains(k) {
                        let j = self.data.keys().index_of(k);
                        assert(self.data.keys().contains(k));
                        assert(self.data.keys()[j] == k);
                    }
                }
            }
        }
        count
    }

    fn total_operations(&self) -> (r: u64)
        requires
            self@.operations() <= u64::MAX,
        ensures
            r == self@.operations(),
    {
        self.hits + self.misses + self.sets
    }

    fn stats(&self, now: u128) -> (r: PartitionStats)
        requires
            self.wf(),
        ensures
            r.describes(self@, now as nat),
    {
        PartitionStats {
            live_keys: self.live_key_count(now),
            hits: self.hits,
            misses: self.misses,
            evictions: self.evictions,
        }
    }
}

/// The key `k` of the partition `name` is alive and assigned to another partition.
pub open spec fn leaves(
    points: Map<u64, Seq<char>>,
    name: Seq<char>,
    p: PartitionModel,
    k: Seq<char>,
    now: nat,
) -> bool {
    p.hit(k, now) && assigned(points, k) is Some && assigned(points, k) != Some(name)
}

/// A key on its way from one partition to another.
pub struct MoveModel {
    pub key: Seq<char>,
    pub entry: EntryModel,
    pub from: Seq<char>,
    pub to: Seq<char>,
}

/// What stays in a partition when the keys assigned elsewhere have left.
pub open spec fn stays(
    points: Map<u64, Seq<char>>,
    name: Seq<char>,
    p: PartitionModel,
    now: nat,
) -> PartitionModel {
    PartitionModel {
        data: Map::new(
            |k: Seq<char>| p.data.contains_key(k) && !leaves(points, name, p, k, now),
            |k: Seq<char>| p.data[k],
        ),
        ..p
    }
}

/// The partition `name` after the moves that lead to it; each is a write.
pub open spec fn receives(name: Seq<char>, p: PartitionModel, moves: Seq<MoveModel>) -> PartitionModel
    decreases moves.len(),
{
    if moves.len() == 0 {
        p
    } else {
        let earlier = receives(name, p, moves.drop_last());
        if moves.last().to == name {
            earlier.put(moves.last().key, moves.last().entry)
        } else {
            earlier
        }
    }
}

impl CacheModel {
    /// The key `k` has to leave the partition `name`.
    pub open spec fn must_move(self, name: Seq<char>, k: Seq<char>, now: nat) -> bool {
        self.partitions.contains_key(name) && leaves(
            self.ring.points,
            name,
            self.partitions[name],
            k,
            now,
        )
    }

    /// `m` takes a key that has to move to the partition it is assigned to.
    pub open spec fn is_due(self, m: MoveModel, now: nat) -> bool {
        &&& self.must_move(m.from, m.key, now)
        &&& m.entry == self.partitions[m.from].data[m.key]
        &&& assigned(self.ring.points, m.key) == Some(m.to)
    }

    /// The moves take every key that has to move, once, and no other. Their
    /// order is open.
    pub open spec fn is_plan(self, moves: Seq<MoveModel>, now: nat) -> bool {
        &&& forall|i: int| 0 <= i < moves.len() ==> self.is_due(#[trigger] moves[i], now)
        &&& forall|i: int, j: int|
            0 <= i < j < moves.len() ==> (#[trigger] moves[i]).from != (#[trigger] moves[j]).from
                || moves[i].key != moves[j].key
        &&& forall|name: Seq<char>, k: Seq<char>| #[trigger]
            self.must_move(name, k, now) ==> exists|i: int|
                0 <= i < moves.len() && (#[trigger] moves[i]).from == name && moves[i].key == k
    }

    /// The cache after the moves: each key has left its partition, and then
    /// each is stored in the partition it is assigned to.
    pub open spec fn moved(self, moves: Seq<MoveModel>, now: nat) -> CacheModel {
        CacheModel {
            partitions: Map::new(
                |name: Seq<char>| self.partitions.contains_key(name),
                |name: Seq<char>|
                    receives(
                        name,
                        stays(self.ring.points, name, self.partitions[name], now),
                        moves,
                    ),
            ),
            ..self
        }
    }

    /// The ring is sound, its finitely many partitions have storage, and the order
    /// lists the partitions.
    pub open spec fn sound(self) -> bool {
        &&& self.ring.sound()
        &&& self.ring.members.finite()
        &&& self.order.to_set() == self.partitions.dom()
        &&& forall|name: Seq<char>| #[trigger]
            self.ring.members.contains(name) ==> self.partitions.contains_key(name)
    }

    /// The partition holds the key, alive.
    pub open spec fn holds(self, name: Seq<char>, key: Seq<char>, now: nat) -> bool {
        self.partitions.contains_key(name) && self.partitions[name].hit(key, now)
    }

    /// No key is alive in two partitions.
    pub open spec fn keys_are_unique(self, now: nat) -> bool {
        forall|a: Seq<char>, b: Seq<char>, key: Seq<char>| #[trigger]
            self.holds(a, key, now) && #[trigger] self.holds(b, key, now) ==> a == b
    }

    /// Every live key is in the partition that it is assigned to, and nowhere
    /// else.
    pub open spec fn at_home(self, now: nat) -> bool {
        forall|name: Seq<char>, key: Seq<char>| #[trigger]
            self.holds(name, key, now) ==> assigned(self.ring.points, key) == Some(name)
    }

    /// Where a live key of a partition belongs: where it is assigned to, or where
    /// it is, as long as nothing is assigned.
    pub open spec fn home(self, name: Seq<char>, key: Seq<char>) -> Seq<char> {
        match assigned(self.ring.points, key) {
            Some(p) => p,
            None => name,
        }
    }

    /// The cache with every partition emptied; the counters stay.
    pub open spec fn clear_all(self) -> CacheModel {
        CacheModel {
            partitions: self.partitions.map_values(
                |p: PartitionModel| PartitionModel { data: Map::empty(), ..p },
            ),
            ..self
        }
    }

    /// The number of entries that have not expired, over all partitions.
    pub open spec fn live_keys(self, now: nat) -> nat {
        sum_live(self.order, self.partitions, now)
    }

    /// The number of entries, over all partitions.
    pub open spec fn entries(self) -> nat {
        sum_entries(self.order, self.partitions)
    }
}

/// The live entries of the partitions listed in `order`.
pub open spec fn sum_live(
    order: Seq<Seq<char>>,
    partitions: Map<Seq<char>, PartitionModel>,
    now: nat,
) -> nat
    decreases order.len(),
{
    if order.len() == 0 {
        0
    } else {
        sum_live(order.drop_last(), partitions, now) + partitions[order.last()].live(now).len()
    }
}

/// The entries of the partitions listed in `order`.
pub open spec fn sum_entries(
    order: Seq<Seq<char>>,
    partitions: Map<Seq<char>, PartitionModel>,
) -> nat
    decreases order.len(),
{
    if order.len() == 0 {
        0
    } else {
        sum_entries(order.drop_last(), partitions) + partitions[order.last()].data.dom().len()
    }
}

/// The live entries of the first partitions are no more than all entries.
proof fn lemma_live_bound(
    order: Seq<Seq<char>>,
    partitions: Map<Seq<char>, PartitionModel>,
    now: nat,
    n: int,
)
    requires
        0 <= n <= order.len(),
        forall|i: int| 0 <= i < order.len() ==> partitions[#[trigger] order[i]].data.dom().finite(),
    ensures
        sum_live(order.take(n), partitions, now) <= sum_entries(order, partitions),
    decreases order.len(),
{
    if order.len() > 0 {
        let rest = order.drop_last();
        assert forall|i: int| 0 <= i < rest.len() implies partitions[#[trigger] rest[i]].data.dom().finite() by {
            assert(rest[i] == order[i]);
        }
        if n == order.len() {
            lemma_live_bound(rest, partitions, now, n - 1);
            assert(order.take(n).drop_last() =~= rest.take(n - 1));
            assert(order.take(n).last() == order.last());
            let p = partitions[order.last()];
            assert(order[order.len() - 1] == order.last());
            assert(p.live(now).subset_of(p.data.dom()));
            vstd::set_lib::lemma_len_subset(p.live(now), p.data.dom());
        } else {
            lemma_live_bound(rest, partitions, now, n);
            assert(rest.take(n) =~= order.take(n));
        }
    } else {
        assert(order.take(n) =~= order);
    }
}

/// The last move of a key to a partition decides what the partition holds of it.
proof fn lemma_receives(name: Seq<char>, p: PartitionModel, moves: Seq<MoveModel>, key: Seq<char>)
    ensures
        ({
            let data = receives(name, p, moves).data;
            ||| data.contains_key(key) && exists|i: int|
                0 <= i < moves.len() && (#[trigger] moves[i]).to == name && moves[i].key == key
                    && data[key] == moves[i].entry
            ||| {
                &&& forall|i: int|
                    0 <= i < moves.len() ==> (#[trigger] moves[i]).to != name || moves[i].key != key
                &&& data.contains_key(key) == p.data.contains_key(key)
                &&& data.contains_key(key) ==> data[key] == p.data[key]
            }
        }),
    decreases moves.len(),
{
    if moves.len() > 0 {
        let rest = moves.drop_last();
        lemma_receives(name, p, rest, key);
        let last = moves.last();
        let before = receives(name, p, rest).data;
        let data = receives(name, p, moves).data;
        if last.to == name && last.key == key {
            assert(moves[moves.len() - 1] == last);
            assert(data.contains_key(key) && data[key] == moves[moves.len() - 1].entry);
        } else {
            assert(data.contains_key(key) == before.contains_key(key));
            assert(data.contains_key(key) ==> data[key] == before[key]);
            if exists|i: int|
                0 <= i < rest.len() && (#[trigger] rest[i]).to == name && rest[i].key == key
                    && before.contains_key(key) && before[key] == rest[i].entry {
                let i = choose|i: int|
                    0 <= i < rest.len() && (#[trigger] rest[i]).to == name && rest[i].key == key
                        && before.contains_key(key) && before[key] == rest[i].entry;
                assert(moves[i] == rest[i]);
            } else {
                assert forall|i: int| 0 <= i < moves.len() implies (#[trigger] moves[i]).to != name
                    || moves[i].key != key by {
                    if i < rest.len() {
                        assert(moves[i] == rest[i]);
                    }
                }
            }
        }
    }
}

/// Rebalancing loses no live key: wherever it was, the partition that the key
/// is assigned to holds it afterwards, with an entry that was alive before.
pub proof fn rebalancing_keeps_live_keys(
    cache: CacheModel,
    moves: Seq<MoveModel>,
    now: nat,
    name: Seq<char>,
    key: Seq<char>,
    home: Seq<char>,
)
    requires
        cache.is_plan(moves, now),
        cache.partitions.contains_key(name),
        cache.partitions[name].hit(key, now),
        assigned(cache.ring.points, key) == Some(home),
        cache.partitions.contains_key(home),
    ensures
        ({
            let after = cache.moved(moves, now);
            &&& after.partitions[home].hit(key, now)
            &&& exists|origin: Seq<char>| #[trigger] cache.partitions.contains_key(origin)
                && cache.partitions[origin].hit(key, now) && cache.partitions[origin].data[key]
                == after.partitions[home].data[key]
        }),
{
    let points = cache.ring.points;
    let kept = stays(points, home, cache.partitions[home], now);
    let after = cache.moved(moves, now);
    lemma_receives(home, kept, moves, key);
    if cache.must_move(name, key, now) {
        let i = choose|i: int|
            0 <= i < moves.len() && (#[trigger] moves[i]).from == name && moves[i].key == key;
        assert(cache.is_due(moves[i], now));
        let data = after.partitions[home].data;
        let j = choose|j: int|
            0 <= j < moves.len() && (#[trigger] moves[j]).to == home && moves[j].key == key && data[key]
                == moves[j].entry;
        assert(cache.is_due(moves[j], now));
        assert(cache.partitions.contains_key(moves[j].from));
    } else {
        assert(name == home);
        let data = after.partitions[home].data;
        if exists|j: int|
            0 <= j < moves.len() && (#[trigger] moves[j]).to == home && moves[j].key == key && data[key]
                == moves[j].entry {
            let j = choose|j: int|
                0 <= j < moves.len() && (#[trigger] moves[j]).to == home && moves[j].key == key
                    && data[key] == moves[j].entry;
            assert(cache.is_due(moves[j], now));
            assert(cache.partitions.contains_key(moves[j].from));
        } else {
            assert(cache.partitions.contains_key(home));
        }
    }
}

/// A live key that only one partition holds keeps its entry when the cache is
/// rebalanced, in the partition that it is assigned to.
pub proof fn rebalancing_preserves_a_unique_key(
    cache: CacheModel,
    moves: Seq<MoveModel>,
    now: nat,
    name: Seq<char>,
    key: Seq<char>,
    home: Seq<char>,
)
    requires
        cache.is_plan(moves, now),
        cache.partitions.contains_key(name),
        cache.partitions[name].hit(key, now),
        forall|other: Seq<char>| #[trigger]
            cache.partitions.contains_key(other) && cache.partitions[other].hit(key, now)
                ==> other == name,
        assigned(cache.ring.points, key) == Some(home),
        cache.partitions.contains_key(home),
    ensures
        cache.moved(moves, now).read(home, key, now) == cache.read(name, key, now),
{
    rebalancing_keeps_live_keys(cache, moves, now, name, key, home);
}

/// Only keys that are assigned to another partition move: a live key that is
/// where it belongs stays there, and no move takes it away.
pub proof fn rebalancing_moves_only_misplaced_keys(
    cache: CacheModel,
    moves: Seq<MoveModel>,
    now: nat,
    name: Seq<char>,
    key: Seq<char>,
)
    requires
        cache.is_plan(moves, now),
        cache.partitions.contains_key(name),
        cache.partitions[name].hit(key, now),
        assigned(cache.ring.points, key) == Some(name),
    ensures
        forall|i: int|
            0 <= i < moves.len() ==> (#[trigger] moves[i]).from != name || moves[i].key != key,
        cache.moved(moves, now).partitions[name].hit(key, now),
{
    assert forall|i: int| 0 <= i < moves.len() implies (#[trigger] moves[i]).from != name
        || moves[i].key != key by {
        assert(cache.is_due(moves[i], now));
    }
    rebalancing_keeps_live_keys(cache, moves, now, name, key, name);
}

/// Once a cache has been rebalanced there is nothing left to move.
pub proof fn rebalancing_is_complete(
    cache: CacheModel,
    moves: Seq<MoveModel>,
    now: nat,
    name: Seq<char>,
    key: Seq<char>,
)
    requires
        cache.is_plan(moves, now),
    ensures
        !cache.moved(moves, now).must_move(name, key, now),
{
    let after = cache.moved(moves, now);
    if after.must_move(name, key, now) {
        let kept = stays(cache.ring.points, name, cache.partitions[name], now);
        lemma_receives(name, kept, moves, key);
        let data = after.partitions[name].data;
        if exists|i: int|
            0 <= i < moves.len() && (#[trigger] moves[i]).to == name && moves[i].key == key && data[key]
                == moves[i].entry {
            let i = choose|i: int|
                0 <= i < moves.len() && (#[trigger] moves[i]).to == name && moves[i].key == key
                    && data[key] == moves[i].entry;
            assert(cache.is_due(moves[i], now));
        }
    }
}

/// A live key that a partition holds after rebalancing was held before, with the
/// same entry, by a partition from where it belongs there.
proof fn lemma_held_before(
    cache: CacheModel,
    moves: Seq<MoveModel>,
    now: nat,
    name: Seq<char>,
    key: Seq<char>,
)
    requires
        cache.is_plan(moves, now),
        cache.moved(moves, now).holds(name, key, now),
    ensures
        exists|origin: Seq<char>| #[trigger]
            cache.holds(origin, key, now) && cache.home(origin, key) == name
                && cache.partitions[origin].data[key] == cache.moved(
                moves,
                now,
            ).partitions[name].data[key],
{
    let kept = stays(cache.ring.points, name, cache.partitions[name], now);
    let data = cache.moved(moves, now).partitions[name].data;
    lemma_receives(name, kept, moves, key);
    if exists|i: int|
        0 <= i < moves.len() && (#[trigger] moves[i]).to == name && moves[i].key == key && data[key]
            == moves[i].entry {
        let i = choose|i: int|
            0 <= i < moves.len() && (#[trigger] moves[i]).to == name && moves[i].key == key && data[key]
                == moves[i].entry;
        assert(cache.is_due(moves[i], now));
        assert(cache.holds(moves[i].from, key, now));
    } else {
        assert(cache.holds(name, key, now));
    }
}

/// A live key that only one partition holds is where it belongs after
/// rebalancing, with its entry, and nowhere else.
proof fn lemma_key_comes_home(
    cache: CacheModel,
    moves: Seq<MoveModel>,
    now: nat,
    name: Seq<char>,
    key: Seq<char>,
)
    requires
        cache.sound(),
        cache.is_plan(moves, now),
        cache.holds(name, key, now),
        forall|other: Seq<char>| #[trigger] cache.holds(other, key, now) ==> other == name,
    ensures
        ({
            let after = cache.moved(moves, now);
            let home = cache.home(name, key);
            &&& after.holds(home, key, now)
            &&& after.partitions[home].data[key] == cache.partitions[name].data[key]
            &&& forall|other: Seq<char>| #[trigger] after.holds(other, key, now) ==> other == home
        }),
{
    let after = cache.moved(moves, now);
    let home = cache.home(name, key);
    keys_are_assigned_to_members(cache.ring, key);
    if assigned(cache.ring.points, key) is Some {
        rebalancing_keeps_live_keys(cache, moves, now, name, key, home);
    } else {
        let kept = stays(cache.ring.points, name, cache.partitions[name], now);
        lemma_receives(name, kept, moves, key);
        if exists|i: int|
            0 <= i < moves.len() && (#[trigger] moves[i]).to == name && moves[i].key == key {
            let i = choose|i: int|
                0 <= i < moves.len() && (#[trigger] moves[i]).to == name && moves[i].key == key;
            assert(cache.is_due(moves[i], now));
        }
    }
    assert(after.holds(home, key, now));
    assert forall|other: Seq<char>| #[trigger] after.holds(other, key, now) implies other == home by {
        lemma_held_before(cache, moves, now, other, key);
    }
    lemma_held_before(cache, moves, now, home, key);
}

/// The report lists exactly the live keys that are assigned to another partition,
/// once each, with where they came from and where they went.
pub open spec fn lists_misplaced_keys(r: RebalanceResult, cache: CacheModel, now: nat) -> bool {
    &&& r.migrated_keys == r.migrations.len()
    &&& forall|i: int|
        0 <= i < r.migrations.len() ==> {
            let m = #[trigger] r.migrations[i];
            &&& cache.must_move(m.from_partition@, m.key@, now)
            &&& assigned(cache.ring.points, m.key@) == Some(m.to_partition@)
        }
    &&& forall|i: int, j: int|
        0 <= i < j < r.migrations.len() ==> (#[trigger] r.migrations[i]).from_partition@ != (
        #[trigger] r.migrations[j]).from_partition@ || r.migrations[i].key@ != r.migrations[j].key@
    &&& forall|name: Seq<char>, key: Seq<char>| #[trigger]
        cache.must_move(name, key, now) ==> lists_move(r, name, key)
}

/// The report lists the move of a key out of a partition.
pub open spec fn lists_move(r: RebalanceResult, name: Seq<char>, key: Seq<char>) -> bool {
    exists|i: int|
        0 <= i < r.migrations.len() && (#[trigger] r.migrations[i]).from_partition@ == name
            && r.migrations[i].key@ == key
}

proof fn lemma_report(cache: CacheModel, moves: Seq<MoveModel>, r: RebalanceResult, now: nat)
    requires
        cache.is_plan(moves, now),
        r.reports(moves),
    ensures
        lists_misplaced_keys(r, cache, now),
{
    assert forall|i: int| 0 <= i < r.migrations.len() implies {
        let m = #[trigger] r.migrations[i];
        &&& cache.must_move(m.from_partition@, m.key@, now)
        &&& assigned(cache.ring.points, m.key@) == Some(m.to_partition@)
    } by {
        assert(r.migrations[i].reports(moves[i]));
        assert(cache.is_due(moves[i], now));
    }
    assert forall|i: int, j: int| 0 <= i < j < r.migrations.len() implies (
    #[trigger] r.migrations[i]).from_partition@ != (#[trigger] r.migrations[j]).from_partition@
        || r.migrations[i].key@ != r.migrations[j].key@ by {
        assert(r.migrations[i].reports(moves[i]));
        assert(r.migrations[j].reports(moves[j]));
    }
    assert forall|name: Seq<char>, key: Seq<char>| #[trigger] cache.must_move(name, key, now) implies lists_move(
        r,
        name,
        key,
    ) by {
        let i = choose|i: int|
            0 <= i < moves.len() && (#[trigger] moves[i]).from == name && moves[i].key == key;
        assert(r.migrations[i].reports(moves[i]));
    }
}

/// Rebalancing a cache in which no key is alive twice inspects every live key and
/// lists exactly those that are assigned to another partition. Afterwards each
/// live key is where it belongs and nowhere else, with its entry; nothing else is
/// alive; and rebalancing again moves nothing.
pub proof fn rebalancing_brings_every_key_home(
    cache: CacheModel,
    after: CacheModel,
    r: RebalanceResult,
    now: nat,
)
    requires
        cache.sound(),
        cache.ring.members.len() > 0,
        cache.keys_are_unique(now),
        rebalanced(cache, after, r, now),
    ensures
        r.total_keys == cache.live_keys(now),
        lists_misplaced_keys(r, cache, now),
        forall|name: Seq<char>, key: Seq<char>| #[trigger]
            cache.holds(name, key, now) ==> {
                let home = cache.home(name, key);
                &&& after.holds(home, key, now)
                &&& after.partitions[home].data[key] == cache.partitions[name].data[key]
            },
        forall|name: Seq<char>, key: Seq<char>| #[trigger]
            after.holds(name, key, now) ==> exists|origin: Seq<char>| #[trigger]
                cache.holds(origin, key, now) && cache.home(origin, key) == name,
        after.keys_are_unique(now),
        after.sound(),
        forall|again: CacheModel, s: RebalanceResult| #[trigger]
            rebalanced(after, again, s, now) ==> s.migrated_keys == 0 && s.migrations.len() == 0,
{
    let moves = choose|moves: Seq<MoveModel>| #[trigger]
        cache.is_plan(moves, now) && after == cache.moved(moves, now) && r.reports(moves);
    assert(after.partitions.dom() =~= cache.partitions.dom());
    lemma_report(cache, moves, r, now);
    assert forall|name: Seq<char>, key: Seq<char>| #[trigger] cache.holds(name, key, now) implies {
        let home = cache.home(name, key);
        &&& after.holds(home, key, now)
        &&& after.partitions[home].data[key] == cache.partitions[name].data[key]
    } by {
        lemma_key_comes_home(cache, moves, now, name, key);
    }
    assert forall|name: Seq<char>, key: Seq<char>| #[trigger] after.holds(name, key, now) implies exists|
        origin: Seq<char>,
    | #[trigger]
        cache.holds(origin, key, now) && cache.home(origin, key) == name by {
        lemma_held_before(cache, moves, now, name, key);
    }
    assert forall|a: Seq<char>, b: Seq<char>, key: Seq<char>| #[trigger] after.holds(a, key, now)
        && #[trigger] after.holds(b, key, now) implies a == b by {
        lemma_held_before(cache, moves, now, a, key);
        lemma_held_before(cache, moves, now, b, key);
        let x = choose|x: Seq<char>| #[trigger] cache.holds(x, key, now) && cache.home(x, key) == a;
        let y = choose|y: Seq<char>| #[trigger] cache.holds(y, key, now) && cache.home(y, key) == b;
        assert(x == y);
    }
    assert forall|again: CacheModel, s: RebalanceResult| #[trigger]
        rebalanced(after, again, s, now) implies s.migrated_keys == 0 && s.migrations.len() == 0 by {
        let more = choose|more: Seq<MoveModel>| #[trigger]
            after.is_plan(more, now) && again == after.moved(more, now) && s.reports(more);
        if more.len() > 0 {
            assert(after.is_due(more[0], now));
            rebalancing_is_complete(cache, moves, now, more[0].from, more[0].key);
        }
    }
}

/// An entry that is alive at some moment was alive before.
proof fn lemma_alive_before(entry: EntryModel, now: nat, later: nat)
    requires
        now <= later,
    ensures
        entry.expired(now) ==> entry.expired(later),
{
}

/// Where every live key was at home before a change of the ring and is at home
/// after rebalancing, with its entry, routed reads find what they found before.
proof fn lemma_reads_are_kept(
    cache: CacheModel,
    changed: CacheModel,
    after: CacheModel,
    now: nat,
    later: nat,
    key: Seq<char>,
)
    requires
        cache.sound(),
        changed.sound(),
        cache.at_home(now),
        now <= later,
        after.ring == changed.ring,
        forall|name: Seq<char>| #[trigger]
            changed.partitions.contains_key(name) <==> after.partitions.contains_key(name),
        forall|name: Seq<char>| #[trigger]
            cache.holds(name, key, now) ==> {
                &&& assigned(changed.ring.points, key) is Some
                &&& after.holds(assigned(changed.ring.points, key)->0, key, now)
                &&& after.partitions[assigned(changed.ring.points, key)->0].data[key]
                    == cache.partitions[name].data[key]
            },
        forall|name: Seq<char>| #[trigger]
            after.holds(name, key, now) ==> exists|origin: Seq<char>| #[trigger]
                cache.holds(origin, key, now),
    ensures
        after.routed_read(key, later).1 == cache.routed_read(key, later).1,
{
    keys_are_assigned_to_members(cache.ring, key);
    keys_are_assigned_to_members(changed.ring, key);
    if exists|name: Seq<char>| #[trigger] cache.holds(name, key, now) {
        let name = choose|name: Seq<char>| #[trigger] cache.holds(name, key, now);
        assert(assigned(cache.ring.points, key) == Some(name));
    } else {
        if let Some(p) = assigned(cache.ring.points, key) {
            assert(!cache.holds(p, key, now));
            if cache.partitions[p].data.contains_key(key) {
                lemma_alive_before(cache.partitions[p].data[key], now, later);
            }
        }
        if let Some(p) = assigned(changed.ring.points, key) {
            assert(!after.holds(p, key, now));
            if after.partitions[p].data.contains_key(key) {
                lemma_alive_before(after.partitions[p].data[key], now, later);
            }
        }
    }
}

/// A new partition without entries adds no live keys.
proof fn lemma_live_push(
    order: Seq<Seq<char>>,
    partitions: Map<Seq<char>, PartitionModel>,
    name: Seq<char>,
    now: nat,
)
    requires
        !order.contains(name),
    ensures
        sum_live(order.push(name), partitions.insert(name, PartitionModel::empty()), now)
            == sum_live(order, partitions, now),
{
    let grown = partitions.insert(name, PartitionModel::empty());
    assert(order.push(name).drop_last() =~= order);
    assert(PartitionModel::empty().live(now) =~= Set::<Seq<char>>::empty());
    lemma_live_same(order, grown, partitions, now);
}

proof fn lemma_live_same(
    order: Seq<Seq<char>>,
    a: Map<Seq<char>, PartitionModel>,
    b: Map<Seq<char>, PartitionModel>,
    now: nat,
)
    requires
        forall|i: int| 0 <= i < order.len() ==> a[#[trigger] order[i]] == b[order[i]],
    ensures
        sum_live(order, a, now) == sum_live(order, b, now),
    decreases order.len(),
{
    if order.len() > 0 {
        let rest = order.drop_last();
        assert forall|i: int| 0 <= i < rest.len() implies a[#[trigger] rest[i]] == b[rest[i]] by {
            assert(rest[i] == order[i]);
        }
        lemma_live_same(rest, a, b, now);
        assert(order[order.len() - 1] == order.last());
    }
}

/// Where every live key is at home, adding a partition and rebalancing moves keys
/// to the new partition only. Every live key is inspected and is at home
/// afterwards, and routed reads find what they found before.
pub proof fn adding_a_partition_moves_keys_only_to_it(
    cache: CacheModel,
    name: Seq<char>,
    after: CacheModel,
    r: RebalanceResult,
    now: nat,
    later: nat,
    key: Seq<char>,
)
    requires
        cache.sound(),
        cache.at_home(now),
        !cache.ring.members.contains(name),
        rebalanced(cache.add_partition(name), after, r, now),
        now <= later,
    ensures
        forall|i: int|
            0 <= i < r.migrations.len() ==> (#[trigger] r.migrations[i]).to_partition@ == name
                && r.migrations[i].from_partition@ != name,
        r.total_keys == cache.live_keys(now),
        lists_misplaced_keys(r, cache.add_partition(name), now),
        after.at_home(now),
        after.routed_read(key, later).1 == cache.routed_read(key, later).1,
{
    let changed = cache.add_partition(name);
    lemma_grown(cache, name, now);
    rebalancing_brings_every_key_home(changed, after, r, now);
    assert forall|i: int| 0 <= i < r.migrations.len() implies (
    #[trigger] r.migrations[i]).to_partition@ == name && r.migrations[i].from_partition@ != name by {
        let m = r.migrations[i];
        assert(changed.must_move(m.from_partition@, m.key@, now));
        assert(changed.holds(m.from_partition@, m.key@, now));
        lemma_grown_home(cache, name, now, m.from_partition@, m.key@);
    }
    assert forall|n: Seq<char>, k: Seq<char>| #[trigger] after.holds(n, k, now) implies assigned(
        after.ring.points,
        k,
    ) == Some(n) by {
        let origin = choose|origin: Seq<char>| #[trigger]
            changed.holds(origin, k, now) && changed.home(origin, k) == n;
        lemma_grown_home(cache, name, now, origin, k);
    }
    assert forall|n: Seq<char>| #[trigger] cache.holds(n, key, now) implies {
        &&& assigned(changed.ring.points, key) is Some
        &&& after.holds(assigned(changed.ring.points, key)->0, key, now)
        &&& after.partitions[assigned(changed.ring.points, key)->0].data[key]
            == cache.partitions[n].data[key]
    } by {
        assert(changed.holds(n, key, now));
        lemma_grown_home(cache, name, now, n, key);
    }
    assert forall|n: Seq<char>| #[trigger] after.holds(n, key, now) implies exists|
        origin: Seq<char>,
    | #[trigger]
        cache.holds(origin, key, now) by {
        let origin = choose|origin: Seq<char>| #[trigger]
            changed.holds(origin, key, now) && changed.home(origin, key) == n;
        assert(cache.holds(origin, key, now));
    }
    lemma_reads_are_kept(cache, changed, after, now, later, key);
    if !cache.partitions.contains_key(name) {
        lemma_live_push(cache.order, cache.partitions, name, now);
    }
}

/// A cache with a partition more is sound and holds the same live keys.
proof fn lemma_grown(cache: CacheModel, name: Seq<char>, now: nat)
    requires
        cache.sound(),
        cache.at_home(now),
        !cache.ring.members.contains(name),
    ensures
        ({
            let changed = cache.add_partition(name);
            &&& changed.sound()
            &&& changed.ring.members.len() > 0
            &&& changed.keys_are_unique(now)
            &&& forall|n: Seq<char>, k: Seq<char>| #[trigger]
                changed.holds(n, k, now) <==> cache.holds(n, k, now)
            &&& !cache.partitions.contains_key(name) ==> !cache.order.contains(name)
        }),
{
    let changed = cache.add_partition(name);
    lemma_grown_ring(cache.ring, name);
    assert forall|n: Seq<char>, k: Seq<char>| #[trigger] changed.holds(n, k, now)
        <==> cache.holds(n, k, now) by {}
    assert forall|a: Seq<char>, b: Seq<char>, k: Seq<char>| #[trigger] changed.holds(a, k, now)
        && #[trigger] changed.holds(b, k, now) implies a == b by {
        assert(cache.holds(a, k, now) && cache.holds(b, k, now));
    }
    if cache.order.contains(name) {
        assert(cache.order.to_set().contains(name));
    }
    if !cache.partitions.contains_key(name) {
        let order = cache.order;
        assert forall|n: Seq<char>| #[trigger] order.push(name).contains(n) <==> order.contains(n)
            || n == name by {
            if order.contains(n) {
                assert(order.push(name)[order.index_of(n)] == n);
            }
            if n == name {
                assert(order.push(name)[order.len() as int] == n);
            }
        }
        assert forall|n: Seq<char>| #[trigger] changed.order.to_set().contains(n)
            <==> changed.partitions.dom().contains(n) by {
            assert(order.to_set().contains(n) <==> cache.partitions.dom().contains(n));
        }
        assert(changed.order.to_set() =~= changed.partitions.dom());
    }
}

/// A live key of a cache is at home or has the new partition as its home.
proof fn lemma_grown_home(
    cache: CacheModel,
    name: Seq<char>,
    now: nat,
    place: Seq<char>,
    key: Seq<char>,
)
    requires
        cache.sound(),
        cache.at_home(now),
        !cache.ring.members.contains(name),
        cache.holds(place, key, now),
    ensures
        place != name,
        assigned(cache.add_partition(name).ring.points, key) is Some,
        assigned(cache.add_partition(name).ring.points, key) == Some(place) || assigned(
            cache.add_partition(name).ring.points,
            key,
        ) == Some(name),
{
    let grown = cache.ring.add(name);
    keys_are_assigned_to_members(cache.ring, key);
    lemma_assigned(cache.ring.points, key);
    lemma_assigned(grown.points, key);
    lemma_grown_ring(cache.ring, name);
    let x = choose|x: u64| cache.ring.points.contains_key(x);
    assert(cache.ring.points.contains_key(x)) by {
        if forall|y: u64| !cache.ring.points.contains_key(y) {
            assert(cache.ring.points =~= Map::<u64, Seq<char>>::empty());
        }
    }
    assert(grown.points.contains_key(x));
    adding_moves_keys_only_to_the_new_partition(
        cache.ring,
        name,
        text_hash(key),
        place,
        assigned(grown.points, key)->0,
    );
}

/// Where every live key is at home, removing a partition and rebalancing moves
/// exactly the live keys of that partition, to others. Every live key is
/// inspected and is at home afterwards, nothing is alive in the removed partition,
/// and routed reads find what they found before. There must be points left on the
/// ring, as there are where another partition is on an intact ring.
pub proof fn removing_a_partition_moves_exactly_its_keys(
    cache: CacheModel,
    name: Seq<char>,
    after: CacheModel,
    r: RebalanceResult,
    now: nat,
    later: nat,
    key: Seq<char>,
)
    requires
        cache.sound(),
        cache.at_home(now),
        cache.ring.members.contains(name),
        !(cache.ring.remove(name).points =~= Map::<u64, Seq<char>>::empty()),
        rebalanced(cache.remove_partition(name), after, r, now),
        now <= later,
    ensures
        forall|i: int|
            0 <= i < r.migrations.len() ==> (#[trigger] r.migrations[i]).from_partition@ == name
                && r.migrations[i].to_partition@ != name && cache.holds(
                name,
                r.migrations[i].key@,
                now,
            ),
        forall|k: Seq<char>| #[trigger] cache.holds(name, k, now) ==> lists_move(r, name, k),
        r.total_keys == cache.live_keys(now),
        lists_misplaced_keys(r, cache.remove_partition(name), now),
        after.partitions[name].live(now) == Set::<Seq<char>>::empty(),
        after.at_home(now),
        after.routed_read(key, later).1 == cache.routed_read(key, later).1,
{
    let changed = cache.remove_partition(name);
    removed_partitions_get_no_keys(cache.ring, name, key);
    let x = choose|x: u64| changed.ring.points.contains_key(x);
    assert(changed.ring.points.contains_key(x)) by {
        if forall|y: u64| !changed.ring.points.contains_key(y) {
            assert(changed.ring.points =~= Map::<u64, Seq<char>>::empty());
        }
    }
    assert(changed.ring.members.contains(changed.ring.points[x]));
    assert(changed.ring.members.len() > 0);
    assert forall|a: Seq<char>, b: Seq<char>, k: Seq<char>| #[trigger] changed.holds(a, k, now)
        && #[trigger] changed.holds(b, k, now) implies a == b by {
        assert(cache.holds(a, k, now) && cache.holds(b, k, now));
    }
    rebalancing_brings_every_key_home(changed, after, r, now);
    assert forall|i: int| 0 <= i < r.migrations.len() implies (
    #[trigger] r.migrations[i]).from_partition@ == name && r.migrations[i].to_partition@ != name
        && cache.holds(name, r.migrations[i].key@, now) by {
        let m = r.migrations[i];
        assert(changed.must_move(m.from_partition@, m.key@, now));
        assert(cache.holds(m.from_partition@, m.key@, now));
        lemma_shrunk_home(cache, name, now, m.from_partition@, m.key@);
    }
    assert forall|k: Seq<char>| #[trigger] cache.holds(name, k, now) implies lists_move(r, name, k) by {
        lemma_shrunk_home(cache, name, now, name, k);
        assert(changed.must_move(name, k, now));
    }
    assert forall|n: Seq<char>, k: Seq<char>| #[trigger] after.holds(n, k, now) implies assigned(
        after.ring.points,
        k,
    ) == Some(n) by {
        let origin = choose|origin: Seq<char>| #[trigger]
            changed.holds(origin, k, now) && changed.home(origin, k) == n;
        assert(cache.holds(origin, k, now));
        lemma_shrunk_home(cache, name, now, origin, k);
    }
    assert forall|k: Seq<char>| !#[trigger] after.partitions[name].live(now).contains(k) by {
        removed_partitions_get_no_keys(cache.ring, name, k);
        assert(!after.holds(name, k, now));
    }
    assert(after.partitions[name].live(now) =~= Set::<Seq<char>>::empty());
    assert forall|n: Seq<char>| #[trigger] cache.holds(n, key, now) implies {
        &&& assigned(changed.ring.points, key) is Some
        &&& after.holds(assigned(changed.ring.points, key)->0, key, now)
        &&& after.partitions[assigned(changed.ring.points, key)->0].data[key]
            == cache.partitions[n].data[key]
    } by {
        assert(changed.holds(n, key, now));
        lemma_shrunk_home(cache, name, now, n, key);
    }
    assert forall|n: Seq<char>| #[trigger] after.holds(n, key, now) implies exists|
        origin: Seq<char>,
    | #[trigger]
        cache.holds(origin, key, now) by {
        let origin = choose|origin: Seq<char>| #[trigger]
            changed.holds(origin, key, now) && changed.home(origin, key) == n;
        assert(cache.holds(origin, key, now));
    }
    lemma_reads_are_kept(cache, changed, after, now, later, key);
}

/// A live key of a cache is at home after a partition was removed from the ring,
/// unless it was in that partition.
proof fn lemma_shrunk_home(
    cache: CacheModel,
    name: Seq<char>,
    now: nat,
    place: Seq<char>,
    key: Seq<char>,
)
    requires
        cache.sound(),
        cache.at_home(now),
        !(cache.ring.remove(name).points =~= Map::<u64, Seq<char>>::empty()),
        cache.holds(place, key, now),
    ensures
        assigned(cache.ring.remove(name).points, key) is Some,
        assigned(cache.ring.remove(name).points, key) != Some(name),
        place != name ==> assigned(cache.ring.remove(name).points, key) == Some(place),
{
    let rest = cache.ring.remove(name);
    lemma_assigned(cache.ring.points, key);
    lemma_assigned(rest.points, key);
    removed_partitions_get_no_keys(cache.ring, name, key);
    if place != name {
        removing_keeps_the_keys_of_other_partitions(cache.ring, name, text_hash(key), place);
        lemma_owner_is_assigned(rest.points, key, place);
    }
}

/// Removing a partition from the ring changes the ring alone: the partition is
/// assigned no key, and every stored entry is read as before.
pub proof fn removing_a_partition_keeps_its_entries(
    cache: CacheModel,
    name: Seq<char>,
    tenant: Seq<char>,
    key: Seq<char>,
    now: nat,
)
    requires
        cache.sound(),
    ensures
        assigned(cache.remove_partition(name).ring.points, key) != Some(name),
        cache.remove_partition(name).partitions == cache.partitions,
        cache.remove_partition(name).order == cache.order,
        cache.remove_partition(name).read(tenant, key, now) == cache.read(tenant, key, now),
{
    removed_partitions_get_no_keys(cache.ring, name, key);
}

/// The partition of each tenant under the name of the tenant.
spec fn models(partitions: Map<Seq<char>, TenantPartition>) -> Map<Seq<char>, PartitionModel> {
    partitions.map_values(|p: TenantPartition| p@)
}

/// A tenant has a name, without the separator.
pub open spec fn valid_tenant(tenant: Seq<char>) -> bool {
    tenant.len() > 0 && !tenant.contains(KEY_SEP)
}

/// What is wrong with the name of a tenant that is not valid.
pub open spec fn tenant_fault(tenant: Seq<char>) -> Seq<char> {
    if tenant.len() == 0 {
        "tenant_id must not be empty"@
    } else {
        "tenant_id must not contain the separator character ':'"@
    }
}

/// A value was stored for a valid tenant; any other tenant was refused.
pub open spec fn safely_set(
    before: CacheModel,
    tenant: Seq<char>,
    key: Seq<char>,
    value: Seq<char>,
    now: nat,
    r: Result<(), String>,
    after: CacheModel,
) -> bool {
    match r {
        Ok(()) => valid_tenant(tenant) && after == before.set(
            tenant,
            key,
            value,
            before.default_ttl,
            now,
        ),
        Err(message) => !valid_tenant(tenant) && message@ == tenant_fault(tenant) && after
            == before,
    }
}

/// A key was read for a valid tenant; any other tenant was refused, and nothing was
/// counted.
pub open spec fn safely_read(
    before: CacheModel,
    tenant: Seq<char>,
    key: Seq<char>,
    now: nat,
    r: Result<Option<String>, String>,
    after: CacheModel,
) -> bool {
    match r {
        Ok(found) => {
            &&& valid_tenant(tenant)
            &&& after == before.after_read(tenant, key, now)
            &&& text_option(found) == before.read(tenant, key, now)
        },
        Err(message) => !valid_tenant(tenant) && message@ == tenant_fault(tenant) && after
            == before,
    }
}

/// A partitioned cache supporting multi-tenant isolation and consistent
/// hashing with rebalancing.
///
/// Entries are stored under a tenant and a key, or routed across partitions by
/// consistent hashing.
pub struct PartitionedCache {
    partitions: Table<TenantPartition>,
    ring: ConsistentHashRing,
    default_ttl: u128,
    origin: std::time::Instant,
}

impl PartitionedCache {
    /// The reading of the clock from which times are counted.
    pub closed spec fn made_at(&self) -> std::time::Instant {
        self.origin
    }

    /// The clock was read, and `now` is what may have passed since the reading from
    /// which times are counted.
    pub open spec fn clock_shows(&self, now: nat) -> bool {
        now <= u128::MAX && steady_clock_shows(self.made_at(), now as u128)
    }

    pub closed spec fn view(&self) -> CacheModel {
        CacheModel {
            order: self.partitions.keys(),
            partitions: models(self.partitions@),
            ring: self.ring@,
            default_ttl: self.default_ttl as nat,
        }
    }

    /// The partitions and the ring are well formed, every partition of the
    /// ring has storage, and the operations counted so far fit a `u64`.
    pub closed spec fn wf(&self) -> bool {
        &&& self.partitions.wf()
        &&& forall|k: Seq<char>| #[trigger]
            self.partitions@.contains_key(k) ==> self.partitions@[k].wf()
        &&& self.ring.wf()
        &&& forall|k: Seq<char>| #[trigger]
            self.ring@.members.contains(k) ==> self.partitions@.contains_key(k)
        &&& self@.operations() <= u64::MAX
    }

    /// The contents of a cache are sound.
    pub proof fn caches_are_sound(&self)
        requires
            self.wf(),
        ensures
            self@.sound(),
    {
        self.ring.lemma_points_belong();
        self.ring.lemma_members_are_finite();
        assert forall|name: Seq<char>| #[trigger] self@.order.to_set().contains(name)
            <==> self@.partitions.dom().contains(name) by {}
        assert(self@.order.to_set() =~= self@.partitions.dom());
    }

    /// Another read or write can be counted.
    pub open spec fn has_room(&self) -> bool {
        self@.operations() < u64::MAX
    }

    /// An empty cache with the given default time to live, in nanoseconds.
    pub fn new(default_ttl: u128) -> (r: Self)
        ensures
            r.wf(),
            r@ == empty_cache(default_ttl as nat),
    {
        let r = PartitionedCache {
            partitions: Table::new(),
            ring: ConsistentHashRing::new(DEFAULT_VNODES_PER_PARTITION),
            default_ttl,
            origin: monotonic_now(),
        };
        assert(r@.partitions =~= Map::empty());
        r
    }

    /// An empty cache with the default time to live of five minutes.
    pub fn with_default_ttl() -> (r: Self)
        ensures
            r.wf(),
            r@ == empty_cache(DEFAULT_TTL_NANOS as nat),
            r@.default_ttl == 300_000_000_000,
    {
        PartitionedCache::new(DEFAULT_TTL_NANOS)
    }

    /// A cache with the given partitions on its hash ring.
    pub fn with_consistent_partitions(partitions: &[&str], default_ttl: u128) -> (r: Self)
        ensures
            r.wf(),
            r@ == empty_cache(default_ttl as nat).add_all(partitions@.map_values(|p: &str| p@)),
    {
        let mut cache = PartitionedCache::new(default_ttl);
        let ghost names = partitions@.map_values(|p: &str| p@);
        let mut i: usize = 0;
        assert(names.take(0) =~= Seq::empty());
        while i < partitions.len()
            invariant
                i <= partitions.len(),
                names == partitions@.map_values(|p: &str| p@),
                cache.wf(),
                cache@ == empty_cache(default_ttl as nat).add_all(names.take(i as int)),
            decreases partitions.len() - i,
        {
            cache.add_partition(partitions[i]);
            proof {
                assert(names.take(i + 1).drop_last() =~= names.take(i as int));
                assert(names.take(i + 1).last() == partitions[i as int]@);
            }
            i = i + 1;
        }
        assert(names.take(i as int) =~= names);
        cache
    }

    /// Nanoseconds since the cache was made.
    fn now(&self) -> (r: u128)
        ensures
            self.clock_shows(r as nat),
    {
        nanos_since(&self.origin)
    }

    /// Adds a partition to the hash ring and gives it storage.
    pub fn add_partition(&mut self, partition_id: &str)
        requires
            old(self).wf(),
        ensures
            final(self).wf(),
            final(self).made_at() == old(self).made_at(),
            final(self)@ == old(self)@.add_partition(partition_id@),
    {
        let ghost before = *self;
        self.ring.add_partition(partition_id);
        if !self.partitions.contains(partition_id) {
            let _none = self.partitions.insert(partition_id.to_owned(), TenantPartition::new());
            proof {
                assert(self@.partitions =~= before@.partitions.insert(
                    partition_id@,
                    PartitionModel::empty(),
                ));
                lemma_sum_push(
                    before@.order,
                    before@.partitions,
                    partition_id@,
                    PartitionModel::empty(),
                );
            }
        }
        assert(self@ == before@.add_partition(partition_id@));
    }

    /// Removes a partition from the hash ring; its storage stays.
    pub fn remove_partition(&mut self, partition_id: &str)
        requires
            old(self).wf(),
        ensures
            final(self).wf(),
            final(self).made_at() == old(self).made_at(),
            final(self)@ == old(self)@.remove_partition(partition_id@),
            forall|key: Seq<char>| #[trigger]
                assigned(final(self)@.ring.points, key) != Some(partition_id@),
    {
        proof {
            self.ring.lemma_points_belong();
            assert forall|key: Seq<char>| #[trigger]
                assigned(self@.remove_partition(partition_id@).ring.points, key) != Some(
                    partition_id@,
                ) by {
                removed_partitions_get_no_keys(self@.ring, partition_id@, key);
            }
        }
        self.ring.remove_partition(partition_id);
    }

    /// The partition that a key is assigned to by the hash ring.
    pub fn partition_for_key(&self, key: &str) -> (r: Option<String>)
        requires
            self.wf(),
        ensures
            match r {
                Some(p) => {
                    &&& assigned(self@.ring.points, key@) == Some(p@)
                    &&& self@.ring.members.contains(p@)
                    &&& self@.partitions.contains_key(p@)
                },
                None => assigned(self@.ring.points, key@) is None,
            },
            self@.ring.intact() ==> (r is None <==> self@.ring.members =~= Set::<
                Seq<char>,
            >::empty()),
    {
        match self.ring.get_partition(key) {
            Some(p) => Some(p.to_owned()),
            None => None,
        }
    }

    /// The partition of a tenant was replaced.
    proof fn lemma_replaced(before: Self, after: Self, tenant: Seq<char>, p: TenantPartition)
        requires
            before.wf(),
            before.partitions@.contains_key(tenant),
            after.partitions.wf(),
            after.partitions@ == before.partitions@.insert(tenant, p),
            after.partitions.keys() == before.partitions.keys(),
            after.ring == before.ring,
            after.default_ttl == before.default_ttl,
            p.wf(),
            before@.operations() - before@.partitions[tenant].operations() + p@.operations()
                <= u64::MAX,
        ensures
            after.wf(),
            after@ == before@.with_partition(tenant, p@),
            after@.operations() == before@.operations() - before@.partitions[tenant].operations()
                + p@.operations(),
            before@.partitions[tenant].operations() <= before@.operations(),
    {
        assert(after@.partitions =~= before@.partitions.insert(tenant, p@));
        let at = before@.order.index_of(tenant);
        assert(before@.order.contains(tenant));
        lemma_sum_update(before@.order, before@.partitions, at, p@);
    }

    /// A partition counts no more operations than the cache does.
    proof fn lemma_part_of_sum(&self, tenant: Seq<char>)
        requires
            self.wf(),
            self@.partitions.contains_key(tenant),
        ensures
            self@.partitions[tenant].operations() <= self@.operations(),
    {
        let at = self@.order.index_of(tenant);
        assert(self@.order.contains(tenant));
        lemma_sum_update(self@.order, self@.partitions, at, self@.partitions[tenant]);
    }

    /// Stores a value for a tenant at the time `now`.
    pub fn set_with_ttl_at(
        &mut self,
        tenant_id: &str,
        key: &str,
        value: String,
        ttl: u128,
        now: u128,
    )
        requires
            old(self).wf(),
            old(self).has_room(),
        ensures
            final(self).wf(),
            final(self).made_at() == old(self).made_at(),
            final(self)@ == old(self)@.set(tenant_id@, key@, value@, ttl as nat, now as nat),
    {
        let ghost before = *self;
        if !self.partitions.contains(tenant_id) {
            let _none = self.partitions.insert(tenant_id.to_owned(), TenantPartition::new());
            proof {
                assert(self@.partitions =~= before@.partitions.insert(
                    tenant_id@,
                    PartitionModel::empty(),
                ));
                lemma_sum_push(before@.order, before@.partitions, tenant_id@, PartitionModel::empty());
            }
        }
        let ghost middle = *self;
        proof {
            assert(middle.wf());
            assert(middle@.operations() == before@.operations());
            middle.lemma_part_of_sum(tenant_id@);
        }
        if let Some(partition) = self.partitions.get_mut(tenant_id) {
            partition.put(key, PartitionEntry { value, inserted_at: now, ttl });
        }
        proof {
            let p = self.partitions@[tenant_id@];
            assert(p@ == middle@.partitions[tenant_id@].put(
                key@,
                EntryModel { value: value@, inserted_at: now as nat, ttl: ttl as nat },
            ));
            Self::lemma_replaced(middle, *self, tenant_id@, p);
            assert(self@.partitions =~= before@.set(
                tenant_id@,
                key@,
                value@,
                ttl as nat,
                now as nat,
            ).partitions);
        }
    }

    /// Stores a value for a tenant with a time to live of its own.
    pub fn set_with_ttl(&mut self, tenant_id: &str, key: &str, value: String, ttl: u128)
        requires
            old(self).wf(),
            old(self).has_room(),
        ensures
            final(self).wf(),
            final(self).made_at() == old(self).made_at(),
            exists|now: nat|
                old(self).clock_shows(now) && final(self)@ == #[trigger] old(self)@.set(
                    tenant_id@,
                    key@,
                    value@,
                    ttl as nat,
                    now,
                ),
    {
        let now = self.now();
        self.set_with_ttl_at(tenant_id, key, value, ttl, now);
    }

    /// Stores a value for a tenant with the default time to live.
    pub fn set(&mut self, tenant_id: &str, key: &str, value: String)
        requires
            old(self).wf(),
            old(self).has_room(),
        ensures
            final(self).wf(),
            final(self).made_at() == old(self).made_at(),
            exists|now: nat|
                old(self).clock_shows(now) && final(self)@ == #[trigger] old(self)@.set(
                    tenant_id@,
                    key@,
                    value@,
                    old(self)@.default_ttl,
                    now,
                ),
    {
        let ttl = self.default_ttl;
        self.set_with_ttl(tenant_id, key, value, ttl);
    }

    /// The value of a tenant's key at the time `now`; `None` on a miss or if
    /// the entry has expired.
    pub fn get_at(&mut self, tenant_id: &str, key: &str, now: u128) -> (r: Option<String>)
        requires
            old(self).wf(),
            old(self).has_room(),
        ensures
            final(self).wf(),
            final(self).made_at() == old(self).made_at(),
            final(self)@ == old(self)@.after_read(tenant_id@, key@, now as nat),
            match r {
                Some(value) => old(self)@.read(tenant_id@, key@, now as nat) == Some(value@),
                None => old(self)@.read(tenant_id@, key@, now as nat) is None,
            },
    {
        let ghost before = *self;
        proof {
            if before@.partitions.contains_key(tenant_id@) {
                before.lemma_part_of_sum(tenant_id@);
            }
        }
        match self.partitions.get_mut(tenant_id) {
            Some(partition) => {
                let r = partition.get(key, now);
                proof {
                    Self::lemma_replaced(before, *self, tenant_id@, self.partitions@[tenant_id@]);
                }
                r
            },
            None => None,
        }
    }

    /// The value of a tenant's key; `None` on a miss or if the entry has expired.
    pub fn get(&mut self, tenant_id: &str, key: &str) -> (r: Option<String>)
        requires
            old(self).wf(),
            old(self).has_room(),
        ensures
            final(self).wf(),
            final(self).made_at() == old(self).made_at(),
            exists|now: nat|
                {
                    &&& old(self).clock_shows(now)
                    &&& final(self)@ == #[trigger] old(self)@.after_read(tenant_id@, key@, now)
                    &&& match r {
                        Some(value) => old(self)@.read(tenant_id@, key@, now) == Some(value@),
                        None => old(self)@.read(tenant_id@, key@, now) is None,
                    }
                },
    {
        let now = self.now();
        self.get_at(tenant_id, key, now)
    }

    /// Removes a key of a tenant.
    pub fn remove(&mut self, tenant_id: &str, key: &str)
        requires
            old(self).wf(),
        ensures
            final(self).wf(),
            final(self).made_at() == old(self).made_at(),
            final(self)@ == old(self)@.remove(tenant_id@, key@),
    {
        let ghost before = *self;
        match self.partitions.get_mut(tenant_id) {
            Some(partition) => {
                partition.remove(key);
                proof {
                    Self::lemma_replaced(before, *self, tenant_id@, self.partitions@[tenant_id@]);
                }
            },
            None => {},
        }
    }

    /// Removes all entries of a tenant.
    pub fn clear_tenant(&mut self, tenant_id: &str)
        requires
            old(self).wf(),
        ensures
            final(self).wf(),
            final(self).made_at() == old(self).made_at(),
            final(self)@ == old(self)@.clear_tenant(tenant_id@),
    {
        let ghost before = *self;
        match self.partitions.get_mut(tenant_id) {
            Some(partition) => {
                partition.clear();
                proof {
                    Self::lemma_replaced(before, *self, tenant_id@, self.partitions@[tenant_id@]);
                }
            },
            None => {},
        }
    }

    /// The number of tenant partitions, empty ones included.
    pub fn tenant_count(&self) -> (r: usize)
        requires
            self.wf(),
        ensures
            r == self@.order.len(),
            self@.order.no_duplicates(),
            self@.order.to_set() == self@.partitions.dom(),
    {
        assert(self@.order.to_set() =~= self@.partitions.dom());
        self.partitions.len()
    }

    /// A tenant must have a name without the separator, which could be used to
    /// make a key that crosses tenant boundaries.
    pub fn validate_tenant_id(tenant_id: &str) -> (r: Result<(), String>)
        ensures
            match r {
                Ok(()) => valid_tenant(tenant_id@),
                Err(message) => !valid_tenant(tenant_id@) && message@ == tenant_fault(tenant_id@),
            },
    {
        if tenant_id.is_empty() {
            return Err("tenant_id must not be empty".to_owned());
        }
        match parse_namespaced_key(tenant_id) {
            Some((before, after)) => {
                assert(tenant_id@[before@.len() as int] == KEY_SEP);
                Err("tenant_id must not contain the separator character ':'".to_owned())
            },
            None => Ok(()),
        }
    }
}

/// A key that was moved during rebalancing.
#[derive(Debug, Clone, PartialEq, Eq)]
pub struct KeyMigration {
    pub key: String,
    pub from_partition: String,
    pub to_partition: String,
}

impl KeyMigration {
    /// This reports the move `m`.
    pub open spec fn reports(&self, m: MoveModel) -> bool {
        self.key@ == m.key && self.from_partition@ == m.from && self.to_partition@ == m.to
    }
}

/// Outcome of rebalancing.
#[derive(Debug, Clone, PartialEq, Eq)]
pub struct RebalanceResult {
    /// Number of keys moved to other partitions.
    pub migrated_keys: usize,
    /// Number of live keys inspected across all partitions.
    pub total_keys: usize,
    /// The keys that were moved.
    pub migrations: Vec<KeyMigration>,
}

impl RebalanceResult {
    /// This reports the given moves, in their order.
    pub open spec fn reports(&self, moves: Seq<MoveModel>) -> bool {
        &&& self.migrated_keys == moves.len()
        &&& self.migrations.len() == moves.len()
        &&& forall|i: int|
            0 <= i < moves.len() ==> (#[trigger] self.migrations[i]).reports(moves[i])
    }
}

impl Default for RebalanceResult {
    fn default() -> (r: Self)
        ensures
            r.migrated_keys == 0,
            r.total_keys == 0,
            r.migrations@ == Seq::<KeyMigration>::empty(),
    {
        RebalanceResult { migrated_keys: 0, total_keys: 0, migrations: Vec::new() }
    }
}

/// A key on its way from one partition to another.
struct Move {
    key: String,
    entry: PartitionEntry,
    from: String,
    to: String,
}

impl Move {
    spec fn view(&self) -> MoveModel {
        MoveModel { key: self.key@, entry: self.entry@, from: self.from@, to: self.to@ }
    }
}

spec fn move_models(moves: Seq<Move>) -> Seq<MoveModel> {
    moves.map_values(|m: Move| m@)
}

/// `m` takes a key out of the partition `p` to the partition it is assigned to.
spec fn departs(
    points: Map<u64, Seq<char>>,
    name: Seq<char>,
    p: PartitionModel,
    now: nat,
    m: MoveModel,
) -> bool {
    &&& m.from == name
    &&& leaves(points, name, p, m.key, now)
    &&& m.entry == p.data[m.key]
    &&& assigned(points, m.key) == Some(m.to)
}

impl TenantPartition {
    /// Takes out the keys that are assigned to other partitions.
    fn depart(&mut self, ring: &ConsistentHashRing, name: &str, now: u128) -> (r: Vec<Move>)
        requires
            old(self).wf(),
            ring.wf(),
        ensures
            final(self).wf(),
            final(self)@ == stays(ring@.points, name@, old(self)@, now as nat),
            forall|i: int|
                0 <= i < r.len() ==> departs(
                    ring@.points,
                    name@,
                    old(self)@,
                    now as nat,
                    #[trigger] move_models(r@)[i],
                ) && ring@.members.contains(move_models(r@)[i].to),
            forall|i: int, j: int|
                0 <= i < j < r.len() ==> (#[trigger] move_models(r@)[i]).key
                    != (#[trigger] move_models(r@)[j]).key,
            forall|k: Seq<char>| #[trigger]
                leaves(ring@.points, name@, old(self)@, k, now as nat) ==> exists|i: int|
                    0 <= i < r.len() && (#[trigger] move_models(r@)[i]).key == k,
            r.len() <= old(self)@.live(now as nat).len(),
    {
        let ghost before = *self;
        let ghost points = ring@.points;
        let mut moves: Vec<Move> = Vec::new();
        let mut i: usize = 0;
        while i < self.data.len()
            invariant
                before.wf(),
                ring.wf(),
                points == ring@.points,
                self.data.wf(),
                self.hits == before.hits,
                self.misses == before.misses,
                self.evictions == before.evictions,
                self.sets == before.sets,
                i <= self.data.keys().len(),
                forall|k: Seq<char>| #[trigger]
                    self.data@.contains_key(k) ==> before.data@.contains_key(k) && self.data@[k]
                        == before.data@[k],
                forall|k: Seq<char>| #[trigger]
                    before.data@.contains_key(k) ==> self.data@.contains_key(k) || leaves(
                        points,
                        name@,
                        before@,
                        k,
                        now as nat,
                    ) && exists|j: int|
                        0 <= j < moves.len() && (#[trigger] move_models(moves@)[j]).key == k,
                forall|j: int|
                    0 <= j < i ==> !leaves(
                        points,
                        name@,
                        before@,
                        #[trigger] self.data.keys()[j],
                        now as nat,
                    ),
                forall|j: int|
                    0 <= j < moves.len() ==> departs(
                        points,
                        name@,
                        before@,
                        now as nat,
                        #[trigger] move_models(moves@)[j],
                    ) && ring@.members.contains(move_models(moves@)[j].to) && !self.data@.contains_key(
                        move_models(moves@)[j].key,
                    ),
                forall|a: int, b: int|
                    0 <= a < b < moves.len() ==> (#[trigger] move_models(moves@)[a]).key
                        != (#[trigger] move_models(moves@)[b]).key,
            decreases self.data.keys().len() - i,
        {
            let key = self.data.key_at(i).to_owned();
            let expired = self.data.value_at(i).is_expired(now);
            let mut target: Option<String> = None;
            if !expired {
                if let Some(p) = ring.get_partition(key.as_str()) {
                    if !same(p, name) {
                        target = Some(p.to_owned());
                    }
                }
            }
            assert(before@.data.contains_key(key@));
            assert(target is Some <==> leaves(points, name@, before@, key@, now as nat));
            match target {
                Some(to) => {
                    let ghost earlier = *self;
                    let ghost earlier_moves = move_models(moves@);
                    if let Some(entry) = self.data.remove(key.as_str()) {
                        moves.push(Move { key: key.clone(), entry, from: name.to_owned(), to });
                    }
                    proof {
                        let m = move_models(moves@).last();
                        assert(move_models(moves@) =~= earlier_moves.push(m));
                        assert(m.key == key@);
                        assert(before@.data[key@] == before.data@[key@]@);
                        assert(departs(points, name@, before@, now as nat, m));
                        lemma_index_of(earlier.data.keys(), i as int);
                        assert(self.data.keys() == earlier.data.keys().remove(i as int));
                        assert forall|j: int| 0 <= j < i implies !leaves(
                            points,
                            name@,
                            before@,
                            #[trigger] self.data.keys()[j],
                            now as nat,
                        ) by {
                            assert(self.data.keys()[j] == earlier.data.keys()[j]);
                        }
                        assert forall|k: Seq<char>| #[trigger] before.data@.contains_key(k) implies self.data@.contains_key(
                            k,
                        ) || leaves(points, name@, before@, k, now as nat) && exists|j: int|
                            0 <= j < moves.len() && (#[trigger] move_models(moves@)[j]).key == k by {
                            if k == key@ {
                                assert(move_models(moves@)[moves.len() - 1].key == k);
                            } else if !earlier.data@.contains_key(k) {
                                let j = choose|j: int|
                                    0 <= j < earlier_moves.len() && (#[trigger] earlier_moves[j]).key
                                        == k;
                                assert(move_models(moves@)[j].key == k);
                            }
                        }
                        assert forall|j: int| 0 <= j < moves.len() implies departs(
                            points,
                            name@,
                            before@,
                            now as nat,
                            #[trigger] move_models(moves@)[j],
                        ) && ring@.members.contains(move_models(moves@)[j].to)
                            && !self.data@.contains_key(move_models(moves@)[j].key) by {
                            if j < earlier_moves.len() {
                                assert(move_models(moves@)[j] == earlier_moves[j]);
                            }
                        }
                        assert forall|a: int, b: int| 0 <= a < b < moves.len() implies (
                        #[trigger] move_models(moves@)[a]).key != (#[trigger] move_models(
                            moves@,
                        )[b]).key by {
                            assert(move_models(moves@)[a] == earlier_moves[a]);
                            if b < earlier_moves.len() {
                                assert(move_models(moves@)[b] == earlier_moves[b]);
                            }
                        }
                    }
                },
                None => {
                    i = i + 1;
                },
            }
        }
        proof {
            let left = self@.data;
            let right = stays(points, name@, before@, now as nat).data;
            assert forall|k: Seq<char>| #[trigger] left.contains_key(k) <==> right.contains_key(k) by {
                if left.contains_key(k) {
                    let j = self.data.keys().index_of(k);
                    assert(self.data.keys().contains(k));
                    assert(self.data.keys()[j] == k);
                }
                if right.contains_key(k) {
                    assert(before.data@.contains_key(k));
                }
            }
            assert(left =~= right);
            let keys = Seq::new(moves.len() as nat, |j: int| move_models(moves@)[j].key);
            let live = before@.live(now as nat);
            assert(keys.no_duplicates());
            keys.unique_seq_to_set();
            assert(keys.to_set().subset_of(live)) by {
                assert forall|k: Seq<char>| keys.to_set().contains(k) implies live.contains(k) by {
                    let j = keys.index_of(k);
                    assert(keys.contains(k));
                    assert(departs(points, name@, before@, now as nat, move_models(moves@)[j]));
                }
            }
            before.lemma_finite(now as nat);
            vstd::set_lib::lemma_len_subset(keys.to_set(), live);
        }
        moves
    }

    /// A partition holds finitely many entries.
    proof fn lemma_finite(&self, now: nat)
        requires
            self.wf(),
        ensures
            self@.data.dom().finite(),
            self@.live(now).finite(),
    {
        assert(self@.data.dom() =~= self.data.keys().to_set());
    }
}

impl PartitionedCache {
    /// Moves every live key that is assigned to another partition there, at
    /// the time `now`. Without partitions on the ring nothing is inspected.
    pub fn rebalance_at(&mut self, now: u128) -> (r: RebalanceResult)
        requires
            old(self).wf(),
            old(self)@.entries() <= usize::MAX,
            old(self)@.operations() + old(self)@.entries() <= u64::MAX,
        ensures
            final(self).wf(),
            final(self).made_at() == old(self).made_at(),
            rebalanced(old(self)@, final(self)@, r, now as nat),
    {
        let ghost before = *self;
        let ghost c0 = self@;
        if self.ring.partition_count() == 0 {
            return RebalanceResult::default();
        }
        let ghost order = c0.order;
        let ghost points = c0.ring.points;
        let mut moves: Vec<Move> = Vec::new();
        let mut total_keys: usize = 0;
        let mut i: usize = 0;
        let n = self.partitions.len();
        assert(order.take(0) =~= Seq::empty());
        proof {
            assert forall|j: int| 0 <= j < order.len() implies c0.partitions[#[trigger] order[j]].data.dom().finite() by {
                lemma_index_of(order, j);
                assert(before.partitions@.contains_key(order[j]));
                before.partitions@[order[j]].lemma_finite(now as nat);
            }
            assert forall|j: int| 0 <= j < n implies {
                &&& (#[trigger] self.partitions.values()[j]).wf()
                &&& self.partitions.values()[j]@ == c0.partitions[order[j]]
            } by {
                lemma_index_of(order, j);
                assert(self.partitions@.contains_key(order[j]));
            }
        }
        while i < n
            invariant
                i <= n,
                n == order.len(),
                before.wf(),
                before@ == c0,
                order == c0.order,
                points == c0.ring.points,
                order.no_duplicates(),
                forall|j: int|
                    0 <= j < order.len() ==> c0.partitions[#[trigger] order[j]].data.dom().finite(),
                c0.entries() <= usize::MAX,
                self.ring == before.ring,
                self.default_ttl == before.default_ttl,
                self.origin == before.origin,
                self.partitions.wf(),
                self.partitions.keys() == order,
                forall|j: int|
                    0 <= j < n ==> {
                        &&& (#[trigger] self.partitions.values()[j]).wf()
                        &&& self.partitions.values()[j]@ == if j < i {
                            stays(points, order[j], c0.partitions[order[j]], now as nat)
                        } else {
                            c0.partitions[order[j]]
                        }
                    },
                total_keys == sum_live(order.take(i as int), c0.partitions, now as nat),
                moves.len() <= total_keys,
                forall|a: int|
                    0 <= a < moves.len() ==> {
                        let m = #[trigger] move_models(moves@)[a];
                        &&& c0.is_due(m, now as nat)
                        &&& order.take(i as int).contains(m.from)
                        &&& before.ring@.members.contains(m.to)
                    },
                forall|a: int, b: int|
                    0 <= a < b < moves.len() ==> (#[trigger] move_models(moves@)[a]).from != (
                    #[trigger] move_models(moves@)[b]).from || move_models(moves@)[a].key
                        != move_models(moves@)[b].key,
                forall|j: int, k: Seq<char>|
                    0 <= j < i && #[trigger] c0.must_move(order[j], k, now as nat) ==> exists|a: int|
                        0 <= a < moves.len() && (#[trigger] move_models(moves@)[a]).from == order[j]
                            && move_models(moves@)[a].key == k,
            decreases n - i,
        {
            let name = self.partitions.key_at(i).to_owned();
            let live = self.partitions.value_at(i).live_key_count(now);
            let ghost earlier = *self;
            let ghost earlier_moves = move_models(moves@);
            proof {
                lemma_index_of(order, i as int);
                lemma_live_bound(order, c0.partitions, now as nat, i + 1);
                assert(order.take(i + 1).drop_last() =~= order.take(i as int));
                assert(order.take(i + 1).last() == order[i as int]);
            }
            total_keys = total_keys + live;
            let mut leaving = self.partitions.value_at_mut(i).depart(&self.ring, name.as_str(), now);
            let ghost new_moves = move_models(leaving@);
            moves.append(&mut leaving);
            proof {
                let all = move_models(moves@);
                assert(all =~= earlier_moves + new_moves);
                let p = c0.partitions[order[i as int]];
                assert(earlier.partitions.values()[i as int]@ == p);
                assert forall|a: int| 0 <= a < moves.len() implies {
                    let m = #[trigger] move_models(moves@)[a];
                    &&& c0.is_due(m, now as nat)
                    &&& order.take(i + 1).contains(m.from)
                    &&& before.ring@.members.contains(m.to)
                } by {
                    let m = all[a];
                    if a < earlier_moves.len() {
                        assert(m == earlier_moves[a]);
                        let x = order.take(i as int).index_of(m.from);
                        assert(order.take(i + 1)[x] == m.from);
                    } else {
                        assert(m == new_moves[a - earlier_moves.len()]);
                        assert(departs(points, name@, p, now as nat, m));
                        assert(c0.partitions.contains_key(order[i as int]));
                        assert(order.take(i + 1)[i as int] == m.from);
                    }
                }
                assert forall|a: int, b: int| 0 <= a < b < moves.len() implies (#[trigger] all[a]).from
                    != (#[trigger] all[b]).from || all[a].key != all[b].key by {
                    if b < earlier_moves.len() {
                        assert(all[a] == earlier_moves[a] && all[b] == earlier_moves[b]);
                    } else if a < earlier_moves.len() {
                        assert(all[a] == earlier_moves[a]);
                        assert(all[b] == new_moves[b - earlier_moves.len()]);
                        let x = order.take(i as int).index_of(all[a].from);
                        assert(order.take(i as int)[x] == order[x]);
                        assert(order[x] != order[i as int]);
                    } else {
                        assert(all[a] == new_moves[a - earlier_moves.len()]);
                        assert(all[b] == new_moves[b - earlier_moves.len()]);
                    }
                }
                assert forall|j: int, k: Seq<char>| 0 <= j < i + 1 && #[trigger] c0.must_move(
                    order[j],
                    k,
                    now as nat,
                ) implies exists|a: int|
                    0 <= a < moves.len() && (#[trigger] move_models(moves@)[a]).from == order[j]
                        && move_models(moves@)[a].key == k by {
                    if j < i {
                        let a = choose|a: int|
                            0 <= a < earlier_moves.len() && (#[trigger] earlier_moves[a]).from
                                == order[j] && earlier_moves[a].key == k;
                        assert(all[a] == earlier_moves[a]);
                    } else {
                        assert(leaves(points, name@, p, k, now as nat));
                        let a = choose|a: int|
                            0 <= a < new_moves.len() && (#[trigger] new_moves[a]).key == k;
                        assert(departs(points, name@, p, now as nat, new_moves[a]));
                        assert(all[earlier_moves.len() + a] == new_moves[a]);
                    }
                }
            }
            i = i + 1;
        }
        assert(order.take(n as int) =~= order);
        let ghost plan = move_models(moves@);
        let ghost middle = self@;
        proof {
            lemma_live_bound(order, c0.partitions, now as nat, n as int);
            assert(c0.is_plan(plan, now as nat)) by {
                assert forall|name: Seq<char>, k: Seq<char>| #[trigger] c0.must_move(name, k, now as nat) implies exists|a: int|
                    0 <= a < plan.len() && (#[trigger] plan[a]).from == name && plan[a].key == k by {
                    let j = order.index_of(name);
                    assert(order.contains(name));
                    assert(order[j] == name);
                    assert(c0.must_move(order[j], k, now as nat));
                }
            }
            assert forall|name: Seq<char>| #[trigger] self@.partitions.contains_key(name) implies self@.partitions[name]
                == stays(points, name, c0.partitions[name], now as nat) by {
                let j = order.index_of(name);
                assert(order.contains(name));
                assert(order[j] == name);
                lemma_index_of(order, j);
                assert(self.partitions.values()[j].wf());
            }
            assert forall|j: int| 0 <= j < order.len() implies self@.partitions[#[trigger] order[j]].operations()
                == c0.partitions[order[j]].operations() by {
                lemma_index_of(order, j);
                assert(self@.partitions.contains_key(order[j]));
            }
            lemma_sum_same(order, self@.partitions, c0.partitions);
        }
        let mut migrations: Vec<KeyMigration> = Vec::new();
        let mut a: usize = 0;
        assert(plan.take(0) =~= Seq::empty());
        assert(self@.partitions =~= c0.moved(plan.take(0), now as nat).partitions);
        while a < moves.len()
            invariant
                self.origin == before.origin,
                a <= moves.len(),
                plan == move_models(moves@),
                before.wf(),
                before@ == c0,
                before.ring == self.ring,
                self.wf(),
                self@ == c0.moved(plan.take(a as int), now as nat),
                self@.operations() == c0.operations() + a,
                c0.operations() + moves.len() <= u64::MAX,
                forall|x: int|
                    0 <= x < moves.len() ==> before.ring@.members.contains(
                        (#[trigger] plan[x]).to,
                    ),
                migrations.len() == a,
                forall|x: int|
                    0 <= x < a ==> (#[trigger] migrations[x]).reports(plan[x]),
            decreases moves.len() - a,
        {
            let ghost earlier = *self;
            let ghost m = plan[a as int];
            proof {
                assert(m == moves[a as int]@);
                assert(before.ring@.members.contains(plan[a as int].to));
                assert(self@.partitions.contains_key(m.to));
                earlier.lemma_part_of_sum(m.to);
                assert(plan.take(a + 1).drop_last() =~= plan.take(a as int));
                assert(plan.take(a + 1).last() == m);
            }
            let moving = &moves[a];
            let entry = PartitionEntry {
                value: moving.entry.value.clone(),
                inserted_at: moving.entry.inserted_at,
                ttl: moving.entry.ttl,
            };
            if let Some(partition) = self.partitions.get_mut(moving.to.as_str()) {
                partition.put(moving.key.as_str(), entry);
            }
            proof {
                let p = self.partitions@[m.to];
                assert(p@ == earlier@.partitions[m.to].put(m.key, m.entry));
                Self::lemma_replaced(earlier, *self, m.to, p);
                assert(self@.partitions =~= c0.moved(plan.take(a + 1), now as nat).partitions);
            }
            migrations.push(
                KeyMigration {
                    key: moving.key.clone(),
                    from_partition: moving.from.clone(),
                    to_partition: moving.to.clone(),
                },
            );
            a = a + 1;
        }
        assert(plan.take(a as int) =~= plan);
        RebalanceResult { migrated_keys: moves.len(), total_keys, migrations }
    }
}

/// `after` and `r` are what rebalancing `before` at the time `now` leads to.
pub open spec fn rebalanced(
    before: CacheModel,
    after: CacheModel,
    r: RebalanceResult,
    now: nat,
) -> bool {
    if before.ring.members.len() == 0 {
        after == before && r.migrated_keys == 0 && r.total_keys == 0 && r.migrations.len() == 0
    } else {
        &&& r.total_keys == before.live_keys(now)
        &&& exists|moves: Seq<MoveModel>| #[trigger]
            before.is_plan(moves, now) && after == before.moved(moves, now) && r.reports(moves)
    }
}

/// The operations of the first partitions are no more than those of all.
proof fn lemma_sum_prefix(
    order: Seq<Seq<char>>,
    partitions: Map<Seq<char>, PartitionModel>,
    n: int,
)
    requires
        0 <= n <= order.len(),
    ensures
        sum_operations(order.take(n), partitions) <= sum_operations(order, partitions),
    decreases order.len(),
{
    if n == order.len() {
        assert(order.take(n) =~= order);
    } else {
        lemma_sum_prefix(order.drop_last(), partitions, n);
        assert(order.drop_last().take(n) =~= order.take(n));
    }
}

/// A new, empty partition adds no entries.
proof fn lemma_entries_push(
    order: Seq<Seq<char>>,
    partitions: Map<Seq<char>, PartitionModel>,
    name: Seq<char>,
    n: int,
)
    requires
        !order.contains(name),
        0 <= n <= order.len(),
    ensures
        sum_entries(order.take(n), partitions.insert(name, PartitionModel::empty())) == sum_entries(
            order.take(n),
            partitions,
        ),
    decreases n,
{
    if n > 0 {
        lemma_entries_push(order, partitions, name, n - 1);
        assert(order.take(n).drop_last() =~= order.take(n - 1));
        assert(order.take(n).last() == order[n - 1]);
    }
}

/// Load metrics for a partition.
#[derive(Debug, Clone, PartialEq, Eq)]
pub struct PartitionLoad {
    pub partition_id: String,
    pub live_keys: usize,
    pub total_operations: u64,
    pub hits: u64,
    pub misses: u64,
    pub evictions: u64,
    /// Operations on this partition relative to the average partition.
    pub load_factor: Ratio,
    /// Whether the load factor exceeds one and a half.
    pub is_hot: bool,
}

impl CacheModel {
    /// The operations on a partition relative to the average partition; zero
    /// if there were no operations at all.
    pub open spec fn has_load_factor(self, name: Seq<char>, factor: Ratio) -> bool {
        if self.operations() > 0 {
            &&& factor.numerator == self.partitions[name].operations() * self.order.len()
            &&& factor.denominator == self.operations()
        } else {
            factor.numerator == 0 && factor.denominator == 1
        }
    }
}

impl PartitionLoad {
    /// This is the load of the partition of its name.
    pub open spec fn describes(&self, cache: CacheModel, now: nat) -> bool {
        let p = cache.partitions[self.partition_id@];
        &&& cache.partitions.contains_key(self.partition_id@)
        &&& self.live_keys == p.live(now).len()
        &&& self.total_operations == p.operations()
        &&& self.hits == p.hits
        &&& self.misses == p.misses
        &&& self.evictions == p.evictions
        &&& cache.has_load_factor(self.partition_id@, self.load_factor)
        &&& self.is_hot == (2 * self.load_factor.numerator > 3 * self.load_factor.denominator)
    }

    /// The load factor exceeds the threshold, and there were operations.
    pub open spec fn exceeds(&self, threshold: Ratio) -> bool {
        self.load_factor.gt_spec(threshold) && self.total_operations > 0
    }
}

/// Each load describes the partition of its name.
pub open spec fn all_describe(loads: Seq<PartitionLoad>, cache: CacheModel, now: nat) -> bool {
    forall|i: int| 0 <= i < loads.len() ==> (#[trigger] loads[i]).describes(cache, now)
}

/// The loads are those of the partitions that had operations and whose load
/// factor exceeds the threshold.
pub open spec fn are_hot(
    loads: Seq<PartitionLoad>,
    cache: CacheModel,
    threshold: Ratio,
    now: nat,
) -> bool {
    &&& all_describe(loads, cache, now)
    &&& forall|i: int| 0 <= i < loads.len() ==> (#[trigger] loads[i]).exceeds(threshold)
    &&& forall|load: PartitionLoad| #[trigger]
        load.describes(cache, now) && load.exceeds(threshold) ==> ids(loads).contains(
            load.partition_id@,
        )
}

/// A partition is marked as hot where its load factor exceeds one and a half,
/// so the hot partitions by that threshold are the marked ones.
pub proof fn marked_partitions_are_hot(load: PartitionLoad, cache: CacheModel, now: nat)
    requires
        load.describes(cache, now),
    ensures
        load.is_hot <==> load.exceeds(Ratio { numerator: 3, denominator: 2 }),
{
    if load.is_hot && load.total_operations == 0 {
        assert(0 * cache.order.len() == 0);
    }
}

/// There are statistics for every partition.
pub open spec fn all_stats(
    stats: Map<Seq<char>, PartitionStats>,
    cache: CacheModel,
    now: nat,
) -> bool {
    &&& stats.dom() == cache.partitions.dom()
    &&& forall|k: Seq<char>| #[trigger]
        stats.contains_key(k) ==> stats[k].describes(cache.partitions[k], now)
}

/// The partitions that loads speak of.
pub open spec fn ids(loads: Seq<PartitionLoad>) -> Seq<Seq<char>> {
    loads.map_values(|l: PartitionLoad| l.partition_id@)
}

impl PartitionedCache {
    /// Moves every live key that is assigned to another partition there.
    pub fn rebalance(&mut self) -> (r: RebalanceResult)
        requires
            old(self).wf(),
            old(self)@.entries() <= usize::MAX,
            old(self)@.operations() + old(self)@.entries() <= u64::MAX,
        ensures
            final(self).wf(),
            final(self).made_at() == old(self).made_at(),
            exists|now: nat|
                old(self).clock_shows(now)
                    && #[trigger] rebalanced(old(self)@, final(self)@, r, now),
    {
        let now = self.now();
        self.rebalance_at(now)
    }

    /// Adds a partition and rebalances.
    pub fn add_partition_and_rebalance(&mut self, partition_id: &str) -> (r: RebalanceResult)
        requires
            old(self).wf(),
            old(self)@.entries() <= usize::MAX,
            old(self)@.operations() + old(self)@.entries() <= u64::MAX,
        ensures
            final(self).wf(),
            final(self).made_at() == old(self).made_at(),
            exists|now: nat|
                old(self).clock_shows(now)
                    && #[trigger] rebalanced(old(self)@.add_partition(partition_id@), final(self)@, r, now),
    {
        let ghost before = self@;
        proof {
            if !before.partitions.contains_key(partition_id@) {
                let order = before.order;
                lemma_sum_push(order, before.partitions, partition_id@, PartitionModel::empty());
                lemma_entries_push(order, before.partitions, partition_id@, order.len() as int);
                assert(order.take(order.len() as int) =~= order);
                assert(order.push(partition_id@).drop_last() =~= order);
            }
        }
        self.add_partition(partition_id);
        self.rebalance()
    }

    /// Removes a partition from the ring and moves its keys to the others.
    pub fn remove_partition_and_rebalance(&mut self, partition_id: &str) -> (r: RebalanceResult)
        requires
            old(self).wf(),
            old(self)@.entries() <= usize::MAX,
            old(self)@.operations() + old(self)@.entries() <= u64::MAX,
        ensures
            final(self).wf(),
            final(self).made_at() == old(self).made_at(),
            exists|now: nat|
                old(self).clock_shows(now)
                    && #[trigger] rebalanced(old(self)@.remove_partition(partition_id@), final(self)@, r, now),
    {
        self.remove_partition(partition_id);
        self.rebalance()
    }

    /// Stores a value in the partition that its key is assigned to, and
    /// returns that partition; `None` if there are no partitions.
    pub fn set_routed(&mut self, key: &str, value: String) -> (r: Option<String>)
        requires
            old(self).wf(),
            old(self).has_room(),
        ensures
            final(self).wf(),
            final(self).made_at() == old(self).made_at(),
            match r {
                Some(p) => {
                    &&& assigned(old(self)@.ring.points, key@) == Some(p@)
                    &&& exists|now: nat|
                        old(self).clock_shows(now) && final(self)@ == #[trigger] old(self)@.set(
                            p@,
                            key@,
                            value@,
                            old(self)@.default_ttl,
                            now,
                        )
                },
                None => assigned(old(self)@.ring.points, key@) is None && final(self)@ == old(self)@,
            },
    {
        match self.partition_for_key(key) {
            Some(p) => {
                self.set(p.as_str(), key, value);
                Some(p)
            },
            None => None,
        }
    }

    /// The value of a key in the partition that it is assigned to.
    pub fn get_routed(&mut self, key: &str) -> (r: Option<String>)
        requires
            old(self).wf(),
            old(self).has_room(),
        ensures
            final(self).wf(),
            final(self).made_at() == old(self).made_at(),
            if assigned(old(self)@.ring.points, key@) is Some {
                exists|now: nat|
                    old(self).clock_shows(now) && (
                        final(self)@,
                        text_option(r),
                    ) == #[trigger] old(self)@.routed_read(key@, now)
            } else {
                final(self)@ == old(self)@ && r is None
            },
    {
        match self.partition_for_key(key) {
            Some(p) => {
                let ghost before = self@;
                let r = self.get(p.as_str(), key);
                proof {
                    let now = choose|now: nat|
                        {
                            &&& old(self).clock_shows(now)
                            &&& self@ == #[trigger] before.after_read(p@, key@, now)
                            &&& match r {
                                Some(value) => before.read(p@, key@, now) == Some(value@),
                                None => before.read(p@, key@, now) is None,
                            }
                        };
                    assert((self@, text_option(r)) == before.routed_read(key@, now));
                }
                r
            },
            None => None,
        }
    }

    /// Removes a key from the partition that it is assigned to, and returns
    /// that partition.
    pub fn remove_routed(&mut self, key: &str) -> (r: Option<String>)
        requires
            old(self).wf(),
        ensures
            final(self).wf(),
            final(self).made_at() == old(self).made_at(),
            match r {
                Some(p) => assigned(old(self)@.ring.points, key@) == Some(p@) && final(self)@
                    == old(self)@.remove(p@, key@),
                None => assigned(old(self)@.ring.points, key@) is None && final(self)@ == old(self)@,
            },
    {
        match self.partition_for_key(key) {
            Some(p) => {
                self.remove(p.as_str(), key);
                Some(p)
            },
            None => None,
        }
    }

    /// The operations counted so far in all partitions.
    fn sum_operations(&self) -> (r: u64)
        requires
            self.wf(),
        ensures
            r == self@.operations(),
    {
        let ghost order = self@.order;
        let mut sum: u64 = 0;
        let mut i: usize = 0;
        let n = self.partitions.len();
        assert(order.take(0) =~= Seq::empty());
        while i < n
            invariant
                i <= n,
                n == order.len(),
                self.wf(),
                order == self@.order,
                sum == sum_operations(order.take(i as int), self@.partitions),
            decreases n - i,
        {
            proof {
                lemma_sum_prefix(order, self@.partitions, i + 1);
                assert(order.take(i + 1).drop_last() =~= order.take(i as int));
                assert(order.take(i + 1).last() == order[i as int]);
            }
            let p = self.partitions.value_at(i);
            sum = sum + p.total_operations();
            i = i + 1;
        }
        assert(order.take(n as int) =~= order);
        sum
    }

    /// The load of a partition at the time `now`.
    pub fn partition_load_at(&self, partition_id: &str, now: u128) -> (r: Option<PartitionLoad>)
        requires
            self.wf(),
        ensures
            match r {
                Some(load) => load.partition_id@ == partition_id@ && load.describes(
                    self@,
                    now as nat,
                ),
                None => !self@.partitions.contains_key(partition_id@),
            },
    {
        match self.partitions.get(partition_id) {
            None => None,
            Some(p) => {
                let sum = self.sum_operations();
                proof {
                    self.lemma_part_of_sum(partition_id@);
                }
                let operations = p.total_operations();
                let count = self.partitions.len();
                let factor = if sum > 0 {
                    proof {
                        vstd::arithmetic::mul::lemma_mul_upper_bound(
                            operations as int,
                            u64::MAX as int,
                            count as int,
                            u64::MAX as int,
                        );
                    }
                    Ratio { numerator: operations as u128 * count as u128, denominator: sum }
                } else {
                    Ratio { numerator: 0, denominator: 1 }
                };
                let half_again: u128 = factor.denominator as u128 + factor.denominator as u128 / 2;
                Some(
                    PartitionLoad {
                        partition_id: partition_id.to_owned(),
                        live_keys: p.live_key_count(now),
                        total_operations: operations,
                        hits: p.hits,
                        misses: p.misses,
                        evictions: p.evictions,
                        load_factor: factor,
                        is_hot: factor.numerator > half_again,
                    },
                )
            },
        }
    }

    /// The load of a partition.
    pub fn partition_load(&self, partition_id: &str) -> (r: Option<PartitionLoad>)
        requires
            self.wf(),
        ensures
            match r {
                Some(load) => load.partition_id@ == partition_id@ && exists|now: nat|
                    self.clock_shows(now) && #[trigger] load.describes(self@, now),
                None => !self@.partitions.contains_key(partition_id@),
            },
    {
        let now = self.now();
        self.partition_load_at(partition_id, now)
    }

    /// The names of the partitions, in order.
    fn sorted_names(&self) -> (r: Vec<String>)
        requires
            self.wf(),
        ensures
            is_sorted(texts(r@)),
            texts(r@).no_duplicates(),
            texts(r@).to_set() == self@.partitions.dom(),
    {
        self.partitions.sorted_keys()
    }

    /// The loads of all partitions at the time `now`, in order of their names.
    pub fn all_partition_loads_at(&self, now: u128) -> (r: Vec<PartitionLoad>)
        requires
            self.wf(),
        ensures
            is_sorted(ids(r@)),
            ids(r@).no_duplicates(),
            ids(r@).to_set() == self@.partitions.dom(),
            all_describe(r@, self@, now as nat),
    {
        let names = self.sorted_names();
        let mut loads: Vec<PartitionLoad> = Vec::new();
        let mut i: usize = 0;
        while i < names.len()
            invariant
                i <= names.len(),
                self.wf(),
                texts(names@).to_set() == self@.partitions.dom(),
                ids(loads@) == texts(names@).take(i as int),
                forall|j: int|
                    0 <= j < loads.len() ==> (#[trigger] loads[j]).describes(self@, now as nat),
            decreases names.len() - i,
        {
            proof {
                let name = texts(names@)[i as int];
                assert(texts(names@).contains(name));
                assert(texts(names@).to_set().contains(name));
            }
            let ghost earlier = ids(loads@);
            if let Some(load) = self.partition_load_at(names[i].as_str(), now) {
                loads.push(load);
            }
            assert(ids(loads@) =~= earlier.push(texts(names@)[i as int]));
            i = i + 1;
            assert(ids(loads@) =~= texts(names@).take(i as int));
        }
        assert(ids(loads@) =~= texts(names@));
        loads
    }

    /// The loads of all partitions, in order of their names.
    pub fn all_partition_loads(&self) -> (r: Vec<PartitionLoad>)
        requires
            self.wf(),
        ensures
            is_sorted(ids(r@)),
            ids(r@).no_duplicates(),
            ids(r@).to_set() == self@.partitions.dom(),
            exists|now: nat| self.clock_shows(now) && #[trigger] all_describe(r@, self@, now),
    {
        let now = self.now();
        self.all_partition_loads_at(now)
    }

    /// The loads, at the time `now`, of the partitions that had operations and
    /// whose load factor exceeds the threshold, in order of their names.
    pub fn hot_partitions_at(&self, threshold_factor: Ratio, now: u128) -> (r: Vec<PartitionLoad>)
        requires
            self.wf(),
            threshold_factor.denominator > 0,
        ensures
            is_sorted(ids(r@)),
            ids(r@).no_duplicates(),
            are_hot(r@, self@, threshold_factor, now as nat),
    {
        let loads = self.all_partition_loads_at(now);
        let mut hot: Vec<PartitionLoad> = Vec::new();
        let mut i: usize = 0;
        let ghost names = ids(loads@);
        while i < loads.len()
            invariant
                i <= loads.len(),
                threshold_factor.denominator > 0,
                names == ids(loads@),
                is_sorted(names),
                names.no_duplicates(),
                names.to_set() == self@.partitions.dom(),
                forall|j: int|
                    0 <= j < loads.len() ==> (#[trigger] loads[j]).describes(self@, now as nat),
                is_sorted(ids(hot@)),
                ids(hot@).no_duplicates(),
                forall|j: int|
                    0 <= j < hot.len() ==> (#[trigger] hot[j]).describes(self@, now as nat)
                        && hot[j].exceeds(threshold_factor),
                forall|j: int|
                    0 <= j < hot.len() ==> names.take(i as int).contains(#[trigger] ids(hot@)[j]),
                forall|j: int|
                    0 <= j < i && (#[trigger] loads[j]).exceeds(threshold_factor) ==> ids(
                        hot@,
                    ).contains(names[j]),
            decreases loads.len() - i,
        {
            let load = &loads[i];
            let ghost earlier = ids(hot@);
            assert(load.describes(self@, now as nat));
            if !threshold_factor.at_least(&load.load_factor) && load.total_operations > 0 {
                hot.push(
                    PartitionLoad {
                        partition_id: load.partition_id.clone(),
                        live_keys: load.live_keys,
                        total_operations: load.total_operations,
                        hits: load.hits,
                        misses: load.misses,
                        evictions: load.evictions,
                        load_factor: load.load_factor,
                        is_hot: load.is_hot,
                    },
                );
            }
            proof {
                let now_hot = ids(hot@);
                if load.exceeds(threshold_factor) {
                    assert(now_hot =~= earlier.push(names[i as int]));
                    assert forall|j: int| 0 <= j < earlier.len() implies in_place(
                        names,
                        i as int,
                        #[trigger] earlier[j],
                    ) by {
                        let x = names.take(i as int).index_of(earlier[j]);
                        assert(names.take(i as int).contains(earlier[j]));
                        assert(names[x] == earlier[j]);
                    }
                    assert(is_sorted(now_hot));
                    assert(now_hot.no_duplicates());
                }
                assert forall|j: int| 0 <= j < hot.len() implies names.take(i + 1).contains(
                    #[trigger] ids(hot@)[j],
                ) by {
                    if j < earlier.len() {
                        let x = names.take(i as int).index_of(earlier[j]);
                        assert(now_hot[j] == earlier[j]);
                        assert(names.take(i + 1)[x] == earlier[j]);
                    } else {
                        assert(names.take(i + 1)[i as int] == now_hot[j]);
                    }
                }
                assert forall|j: int|
                    0 <= j < i + 1 && (#[trigger] loads[j]).exceeds(threshold_factor) implies ids(
                    hot@,
                ).contains(names[j]) by {
                    if j < i {
                        assert(earlier.contains(names[j]));
                        assert(now_hot[earlier.index_of(names[j])] == names[j]);
                    } else {
                        assert(now_hot[now_hot.len() - 1] == names[j]);
                    }
                }
            }
            i = i + 1;
        }
        proof {
            assert forall|load: PartitionLoad| #[trigger] load.describes(self@, now as nat)
                && load.exceeds(threshold_factor) implies ids(hot@).contains(load.partition_id@) by {
                let name = load.partition_id@;
                assert(names.to_set().contains(name));
                let j = names.index_of(name);
                assert(names[j] == name);
                assert(loads[j].describes(self@, now as nat));
                assert(loads[j].load_factor == load.load_factor);
                assert(loads[j].exceeds(threshold_factor));
            }
        }
        hot
    }

    /// The loads of the partitions that had operations and whose load factor
    /// exceeds the threshold, in order of their names.
    pub fn hot_partitions(&self, threshold_factor: Ratio) -> (r: Vec<PartitionLoad>)
        requires
            self.wf(),
            threshold_factor.denominator > 0,
        ensures
            is_sorted(ids(r@)),
            ids(r@).no_duplicates(),
            exists|now: nat|
                self.clock_shows(now) && #[trigger] are_hot(r@, self@, threshold_factor, now),
    {
        let now = self.now();
        self.hot_partitions_at(threshold_factor, now)
    }

    /// Removes all entries of all tenants.
    pub fn clear_all(&mut self)
        requires
            old(self).wf(),
        ensures
            final(self).wf(),
            final(self).made_at() == old(self).made_at(),
            final(self)@ == old(self)@.clear_all(),
    {
        let ghost before = *self;
        let ghost order = self@.order;
        let mut i: usize = 0;
        let n = self.partitions.len();
        while i < n
            invariant
                i <= n,
                n == order.len(),
                before.wf(),
                order == before@.order,
                self.ring == before.ring,
                self.default_ttl == before.default_ttl,
                self.origin == before.origin,
                self.wf(),
                self.partitions.keys() == order,
                self@.partitions.dom() == before@.partitions.dom(),
                forall|j: int|
                    0 <= j < n ==> self@.partitions[#[trigger] order[j]] == if j < i {
                        PartitionModel { data: Map::empty(), ..before@.partitions[order[j]] }
                    } else {
                        before@.partitions[order[j]]
                    },
            decreases n - i,
        {
            let ghost earlier = *self;
            proof {
                lemma_index_of(order, i as int);
                assert(self.partitions@.contains_key(order[i as int]));
            }
            self.partitions.value_at_mut(i).clear();
            proof {
                let p = self.partitions.values()[i as int];
                Self::lemma_replaced(earlier, *self, order[i as int], p);
                assert(self@.partitions.dom() =~= before@.partitions.dom());
                assert forall|j: int| 0 <= j < n implies self@.partitions[#[trigger] order[j]] == if j
                    < i + 1 {
                    PartitionModel { data: Map::empty(), ..before@.partitions[order[j]] }
                } else {
                    before@.partitions[order[j]]
                } by {
                    if j != i {
                        assert(order[j] != order[i as int]);
                    }
                }
            }
            i = i + 1;
        }
        proof {
            let right = before@.clear_all().partitions;
            assert forall|k: Seq<char>| #[trigger] self@.partitions.contains_key(k) implies self@.partitions[k]
                == right[k] by {
                let j = order.index_of(k);
                assert(order.contains(k));
                assert(order[j] == k);
            }
            assert(self@.partitions =~= right);
        }
    }

    /// Like `set`, for a valid tenant only.
    pub fn set_safe(&mut self, tenant_id: &str, key: &str, value: String) -> (r: Result<(), String>)
        requires
            old(self).wf(),
            old(self).has_room(),
        ensures
            final(self).wf(),
            final(self).made_at() == old(self).made_at(),
            exists|now: nat|
                (r is Ok ==> old(self).clock_shows(now)) && #[trigger] safely_set(
                    old(self)@,
                    tenant_id@,
                    key@,
                    value@,
                    now,
                    r,
                    final(self)@,
                ),
    {
        match Self::validate_tenant_id(tenant_id) {
            Ok(()) => {
                let ghost before = self@;
                let ghost text = value@;
                self.set(tenant_id, key, value);
                proof {
                    let now = choose|now: nat|
                        old(self).clock_shows(now) && self@ == #[trigger] before.set(
                            tenant_id@,
                            key@,
                            text,
                            before.default_ttl,
                            now,
                        );
                    assert(safely_set(before, tenant_id@, key@, text, now, Ok(()), self@));
                }
                Ok(())
            },
            Err(message) => {
                let r = Err(message);
                assert(safely_set(self@, tenant_id@, key@, value@, 0, r, self@));
                r
            },
        }
    }

    /// Like `get`, for a valid tenant only.
    pub fn get_safe(&mut self, tenant_id: &str, key: &str) -> (r: Result<Option<String>, String>)
        requires
            old(self).wf(),
            old(self).has_room(),
        ensures
            final(self).wf(),
            final(self).made_at() == old(self).made_at(),
            exists|now: nat|
                (r is Ok ==> old(self).clock_shows(now)) && #[trigger] safely_read(
                    old(self)@,
                    tenant_id@,
                    key@,
                    now,
                    r,
                    final(self)@,
                ),
    {
        match Self::validate_tenant_id(tenant_id) {
            Ok(()) => {
                let ghost before = self@;
                let found = self.get(tenant_id, key);
                proof {
                    let now = choose|now: nat|
                        {
                            &&& old(self).clock_shows(now)
                            &&& self@ == #[trigger] before.after_read(tenant_id@, key@, now)
                            &&& match found {
                                Some(value) => before.read(tenant_id@, key@, now) == Some(value@),
                                None => before.read(tenant_id@, key@, now) is None,
                            }
                        };
                    assert(safely_read(before, tenant_id@, key@, now, Ok(found), self@));
                }
                Ok(found)
            },
            Err(message) => {
                let r = Err(message);
                assert(safely_read(self@, tenant_id@, key@, 0, r, self@));
                r
            },
        }
    }

    /// The statistics of a tenant's partition at the time `now`.
    pub fn partition_stats_at(&self, tenant_id: &str, now: u128) -> (r: Option<PartitionStats>)
        requires
            self.wf(),
        ensures
            match r {
                Some(stats) => self@.partitions.contains_key(tenant_id@) && stats.describes(
                    self@.partitions[tenant_id@],
                    now as nat,
                ),
                None => !self@.partitions.contains_key(tenant_id@),
            },
    {
        match self.partitions.get(tenant_id) {
            Some(p) => Some(p.stats(now)),
            None => None,
        }
    }

    /// The statistics of a tenant's partition; `None` if the tenant never
    /// stored anything.
    pub fn partition_stats(&self, tenant_id: &str) -> (r: Option<PartitionStats>)
        requires
            self.wf(),
        ensures
            match r {
                Some(stats) => self@.partitions.contains_key(tenant_id@) && exists|now: nat|
                    self.clock_shows(now)
                        && #[trigger] stats.describes(self@.partitions[tenant_id@], now),
                None => !self@.partitions.contains_key(tenant_id@),
            },
    {
        let now = self.now();
        self.partition_stats_at(tenant_id, now)
    }

    /// The statistics of all tenant partitions at the time `now`.
    pub fn all_partition_stats_at(&self, now: u128) -> (r: Table<PartitionStats>)
        requires
            self.wf(),
        ensures
            r.wf(),
            all_stats(r@, self@, now as nat),
    {
        let mut all: Table<PartitionStats> = Table::new();
        let ghost order = self.partitions.keys();
        let mut i: usize = 0;
        let n = self.partitions.len();
        while i < n
            invariant
                i <= n,
                n == order.len(),
                self.wf(),
                order == self.partitions.keys(),
                all.wf(),
                forall|k: Seq<char>| #[trigger]
                    all@.contains_key(k) <==> order.take(i as int).contains(k),
                forall|k: Seq<char>| #[trigger]
                    all@.contains_key(k) ==> all@[k].describes(self@.partitions[k], now as nat),
            decreases n - i,
        {
            let name = self.partitions.key_at(i).to_owned();
            let stats = self.partitions.value_at(i).stats(now);
            let _none = all.insert(name, stats);
            proof {
                let next = order.take(i + 1);
                assert forall|k: Seq<char>| #[trigger] all@.contains_key(k) <==> next.contains(k) by {
                    if order.take(i as int).contains(k) {
                        assert(next[order.take(i as int).index_of(k)] == k);
                    }
                    if k == name@ {
                        assert(next[i as int] == k);
                    }
                    if next.contains(k) && k != name@ {
                        let x = next.index_of(k);
                        assert(order.take(i as int)[x] == k);
                    }
                }
            }
            i = i + 1;
        }
        assert(order.take(n as int) =~= order);
        assert(all@.dom() =~= self@.partitions.dom());
        all
    }

    /// The statistics of all tenant partitions.
    pub fn all_partition_stats(&self) -> (r: Table<PartitionStats>)
        requires
            self.wf(),
        ensures
            r.wf(),
            exists|now: nat| self.clock_shows(now) && #[trigger] all_stats(r@, self@, now),
    {
        let now = self.now();
        self.all_partition_stats_at(now)
    }
}

impl Default for PartitionedCache {
    fn default() -> (r: Self)
        ensures
            r.wf(),
            r@ == empty_cache(DEFAULT_TTL_NANOS as nat),
            r@.default_ttl == 300_000_000_000,
    {
        PartitionedCache::with_default_ttl()
    }
}

/// An element of a sorted list is in order with the ones after it.
spec fn in_place(names: Seq<Seq<char>>, i: int, name: Seq<char>) -> bool {
    name != names[i] && crate::text::in_order(name, names[i])
}

/// A read counts one hit or one miss, a hit exactly where a value is found; an expired entry
/// counts as an eviction too. A write counts as neither.
pub proof fn reads_and_writes_are_counted(
    p: PartitionModel,
    key: Seq<char>,
    entry: EntryModel,
    now: nat,
)
    ensures
        ({
            let after = p.after_read(key, now);
            let found = p.read(key, now) is Some;
            &&& after.hits == p.hits + (if found {
                1int
            } else {
                0
            })
            &&& after.misses == p.misses + (if found {
                0int
            } else {
                1
            })
            &&& after.evictions == p.evictions + (if p.data.contains_key(key) && !found {
                1int
            } else {
                0
            })
            &&& after.sets == p.sets
            &&& p.put(key, entry).sets == p.sets + 1
            &&& p.put(key, entry).hits == p.hits && p.put(key, entry).misses == p.misses
            &&& p.put(key, entry).operations() == p.operations() + 1
            &&& after.operations() == p.operations() + 1
        }),
{
}

/// An entry is alive for its time to live from when it was stored, and is then gone.
pub proof fn entries_expire_at_their_time(entry: EntryModel, now: nat)
    requires
        now >= entry.inserted_at,
    ensures
        entry.expired(now) <==> now - entry.inserted_at >= entry.ttl,
{
}

/// A hot partition has had operations, and more than its share of them by the threshold: its
/// operations times the number of partitions exceed the threshold times all operations.
pub proof fn hot_partitions_bear_more_than_their_share(
    loads: Seq<PartitionLoad>,
    cache: CacheModel,
    threshold: Ratio,
    now: nat,
    i: int,
)
    requires
        are_hot(loads, cache, threshold, now),
        cache.operations() > 0,
        0 <= i < loads.len(),
    ensures
        ({
            let p = cache.partitions[loads[i].partition_id@];
            &&& cache.partitions.contains_key(loads[i].partition_id@)
            &&& p.operations() > 0
            &&& p.operations() * cache.order.len() * threshold.denominator > threshold.numerator
                * cache.operations()
            &&& loads[i].total_operations == p.operations()
            &&& loads[i].hits == p.hits
            &&& loads[i].misses == p.misses
            &&& loads[i].is_hot <==> 2 * (p.operations() * cache.order.len()) > 3
                * cache.operations()
        }),
{
    assert(loads[i].describes(cache, now));
    assert(loads[i].exceeds(threshold));
}

/// An empty cache has no partitions and puts a hundred points on the ring for each that is
/// added.
pub proof fn empty_caches_have_no_partitions(default_ttl: nat, tenant: Seq<char>, key: Seq<char>)
    ensures
        empty_cache(default_ttl).ring.vnodes == 100,
        empty_cache(default_ttl).partitions.len() == 0,
        empty_cache(default_ttl).default_ttl == default_ttl,
        assigned(empty_cache(default_ttl).ring.points, key) is None,
        !empty_cache(default_ttl).partitions.contains_key(tenant),
{
}

/// A tenant is valid exactly where it has a name without a colon; the namespaced form of its
/// keys is the name, a colon and the key.
pub proof fn tenants_have_no_colon(tenant: Seq<char>, key: Seq<char>)
    ensures
        valid_tenant(tenant) <==> tenant.len() > 0 && !tenant.contains(':'),
        namespaced(tenant, key) == tenant + seq![':'] + key,
{
}

/// The hit ratio is one where every read was a hit and zero where none was, lies between, and
/// exists once something was read.
pub proof fn hit_ratios_are_shares(stats: PartitionStats, r: Option<Ratio>)
    requires
        stats.has_ratio(r),
    ensures
        r is None <==> stats.hits == 0 && stats.misses == 0,
        r matches Some(ratio) ==> {
            &&& ratio.numerator <= ratio.denominator
            &&& stats.misses == 0 <==> ratio.numerator == ratio.denominator
            &&& stats.hits == 0 <==> ratio.numerator == 0
        },
{
}

} // verus!
