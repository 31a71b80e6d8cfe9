//! What a partitioned cache gives back after any number of calls.

use vstd::prelude::*;

use crate::cache_partition::{safely_read, safely_set, valid_tenant, CacheModel};
use crate::hash_ring::assigned;
use crate::text::text_option;

verus! {

/// A call on a partitioned cache, with the time that the cache's clock showed.
/// A routed call is one for the partition that its key is assigned to.
pub enum CacheCall {
    Store { tenant: Seq<char>, key: Seq<char>, value: Seq<char>, ttl: nat, at: nat },
    Read { tenant: Seq<char>, key: Seq<char>, at: nat },
    Remove { tenant: Seq<char>, key: Seq<char> },
    ClearTenant { tenant: Seq<char> },
    ClearAll,
    AddPartition { name: Seq<char> },
    RemovePartition { name: Seq<char> },
}

impl CacheCall {
    /// The cache after the call.
    pub open spec fn apply(self, cache: CacheModel) -> CacheModel {
        match self {
            CacheCall::Store { tenant, key, value, ttl, at } => cache.set(tenant, key, value, ttl, at),
            CacheCall::Read { tenant, key, at } => cache.after_read(tenant, key, at),
            CacheCall::Remove { tenant, key } => cache.remove(tenant, key),
            CacheCall::ClearTenant { tenant } => cache.clear_tenant(tenant),
            CacheCall::ClearAll => cache.clear_all(),
            CacheCall::AddPartition { name } => cache.add_partition(name),
            CacheCall::RemovePartition { name } => cache.remove_partition(name),
        }
    }

    /// The call was made no later than `now`.
    pub open spec fn made_by(self, now: nat) -> bool {
        match self {
            CacheCall::Store { at, .. } => at <= now,
            CacheCall::Read { at, .. } => at <= now,
            _ => true,
        }
    }

    /// The call writes a key of a tenant, or takes it away.
    pub open spec fn writes(self, tenant: Seq<char>, key: Seq<char>) -> bool {
        match self {
            CacheCall::Store { tenant: t, key: k, .. } => t == tenant && k == key,
            CacheCall::Remove { tenant: t, key: k } => t == tenant && k == key,
            CacheCall::ClearTenant { tenant: t } => t == tenant,
            CacheCall::ClearAll => true,
            _ => false,
        }
    }

    /// What can be read at `now` of the key that the call wrote: the value that it
    /// stored, while that lives.
    pub open spec fn leaves(self, now: nat) -> Option<Seq<char>> {
        match self {
            CacheCall::Store { value, ttl, at, .. } => if now - at < ttl {
                Some(value)
            } else {
                None
            },
            _ => None,
        }
    }
}

/// The cache after a sequence of calls.
pub open spec fn after_calls(cache: CacheModel, calls: Seq<CacheCall>) -> CacheModel
    decreases calls.len(),
{
    if calls.len() == 0 {
        cache
    } else {
        calls.last().apply(after_calls(cache, calls.drop_last()))
    }
}

/// The last of the calls that writes a key of a tenant.
pub open spec fn last_write(calls: Seq<CacheCall>, tenant: Seq<char>, key: Seq<char>) -> Option<
    CacheCall,
>
    decreases calls.len(),
{
    if calls.len() == 0 {
        None
    } else if calls.last().writes(tenant, key) {
        Some(calls.last())
    } else {
        last_write(calls.drop_last(), tenant, key)
    }
}

/// A call that does not write a key of a tenant changes nothing that is read of it
/// afterwards. One that writes it leaves what it stored, while that lives.
pub proof fn one_call_decides(
    cache: CacheModel,
    call: CacheCall,
    tenant: Seq<char>,
    key: Seq<char>,
    now: nat,
)
    requires
        call.made_by(now),
    ensures
        call.apply(cache).read(tenant, key, now) == if call.writes(tenant, key) {
            call.leaves(now)
        } else {
            cache.read(tenant, key, now)
        },
{
}

/// After any calls but rebalancing, a key of a tenant reads as the last call that
/// wrote it left it: a value that was stored is read until its own time to live has
/// passed, and nothing is read after a removal or a clear. Where no call wrote the
/// key, it reads as before. Calls for another tenant or for another key never
/// matter, nor do reads or changes of the ring.
pub proof fn the_last_write_decides(
    cache: CacheModel,
    calls: Seq<CacheCall>,
    tenant: Seq<char>,
    key: Seq<char>,
    now: nat,
)
    requires
        forall|i: int| 0 <= i < calls.len() ==> (#[trigger] calls[i]).made_by(now),
    ensures
        after_calls(cache, calls).read(tenant, key, now) == match last_write(calls, tenant, key) {
            Some(call) => call.leaves(now),
            None => cache.read(tenant, key, now),
        },
    decreases calls.len(),
{
    if calls.len() > 0 {
        let earlier = calls.drop_last();
        assert forall|i: int| 0 <= i < earlier.len() implies (#[trigger] earlier[i]).made_by(now) by {
            assert(earlier[i] == calls[i]);
        }
        the_last_write_decides(cache, earlier, tenant, key, now);
        assert(calls.last() == calls[calls.len() - 1]);
        one_call_decides(after_calls(cache, earlier), calls.last(), tenant, key, now);
    }
}

/// A value lives for the time given with it, whatever the default is and whatever
/// was stored before under its key. With no time at all it is never read.
pub proof fn values_live_for_their_own_time(
    cache: CacheModel,
    tenant: Seq<char>,
    key: Seq<char>,
    value: Seq<char>,
    ttl: nat,
    at: nat,
    calls: Seq<CacheCall>,
    now: nat,
)
    requires
        at <= now,
        forall|i: int|
            0 <= i < calls.len() ==> (#[trigger] calls[i]).made_by(now) && !calls[i].writes(
                tenant,
                key,
            ),
    ensures
        after_calls(cache.set(tenant, key, value, ttl, at), calls).read(tenant, key, now) == if now
            - at < ttl {
            Some(value)
        } else {
            None
        },
        ttl == 0 ==> after_calls(cache.set(tenant, key, value, ttl, at), calls).read(
            tenant,
            key,
            now,
        ) is None,
{
    lemma_no_write(calls, tenant, key);
    the_last_write_decides(cache.set(tenant, key, value, ttl, at), calls, tenant, key, now);
}

proof fn lemma_no_write(calls: Seq<CacheCall>, tenant: Seq<char>, key: Seq<char>)
    requires
        forall|i: int| 0 <= i < calls.len() ==> !(#[trigger] calls[i]).writes(tenant, key),
    ensures
        last_write(calls, tenant, key) is None,
    decreases calls.len(),
{
    if calls.len() > 0 {
        assert(calls.last() == calls[calls.len() - 1]);
        assert forall|i: int| 0 <= i < calls.drop_last().len() implies !(
        #[trigger] calls.drop_last()[i]).writes(tenant, key) by {
            assert(calls.drop_last()[i] == calls[i]);
        }
        lemma_no_write(calls.drop_last(), tenant, key);
    }
}

/// A value that was routed to a partition is read from that partition, and by a
/// routed read, until the default time to live has passed.
pub proof fn routed_values_are_read_back(
    cache: CacheModel,
    key: Seq<char>,
    value: Seq<char>,
    partition: Seq<char>,
    at: nat,
    now: nat,
)
    requires
        assigned(cache.ring.points, key) == Some(partition),
        at <= now,
    ensures
        ({
            let after = cache.set(partition, key, value, cache.default_ttl, at);
            let expected = if now - at < cache.default_ttl {
                Some(value)
            } else {
                None
            };
            &&& after.read(partition, key, now) == expected
            &&& after.routed_read(key, now).1 == expected
        }),
{
}

/// A tenant is served if and only if its name is valid. What a valid tenant stored is
/// read back until the default time to live has passed, a miss being no error; calls
/// for any other tenant are refused and leave the cache as it was.
pub proof fn safe_calls_serve_valid_tenants(
    before: CacheModel,
    tenant: Seq<char>,
    key: Seq<char>,
    value: Seq<char>,
    at: nat,
    stored: Result<(), String>,
    middle: CacheModel,
    now: nat,
    found: Result<Option<String>, String>,
    after: CacheModel,
)
    requires
        safely_set(before, tenant, key, value, at, stored, middle),
        safely_read(middle, tenant, key, now, found, after),
        at <= now,
    ensures
        stored is Ok <==> valid_tenant(tenant),
        found is Ok <==> valid_tenant(tenant),
        valid_tenant(tenant) ==> text_option(found->Ok_0) == if now - at < before.default_ttl {
            Some(value)
        } else {
            None
        },
        !valid_tenant(tenant) ==> middle == before && after == before,
{
}

} // verus!
