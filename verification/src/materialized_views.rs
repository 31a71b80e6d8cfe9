//! Precomputed views over the vaults.
//!
//! The summary view holds the number of vaults by state, the total balance and
//! the average check-in interval; the owner view holds the number of vaults of
//! each owner. Both are recomputed from the rows when their refresh is due. A
//! change of one vault adjusts the counters of the summary without reading the
//! rows again.

use vstd::prelude::*;

use crate::clock::{
    monotonic_now, nanos_since, steady_clock_shows, utc_now, wall_clock_shows, Time,
};
use crate::ordering::{is_stable_order, lemma_covers, stable_order};
use crate::ratio::Ratio;
use crate::table::Table;
use crate::text::{name_option, same};

verus! {

/// The name of the summary view.
pub const SUMMARY_VIEW: &'static str = "vault_summary_view";

/// The name of the owner view.
pub const OWNER_VIEW: &'static str = "vault_owner_counts_view";

/// The usual time between two refreshes, in nanoseconds.
pub const DEFAULT_INTERVAL: u128 = 300_000_000_000;

/// The longest time between two refreshes, in nanoseconds.
pub const MAX_INTERVAL: u128 = 18_446_744_073_709_551_616_000_000_000;

/// A row of the table of vaults.
#[derive(Debug)]
pub struct VaultRow {
    pub owner: String,
    pub balance: i128,
    pub check_in_interval: u64,
    pub status: String,
}

/// What a row says.
pub struct RowModel {
    pub owner: Seq<char>,
    pub balance: int,
    pub check_in_interval: nat,
    pub status: Seq<char>,
}

impl VaultRow {
    pub open spec fn view(&self) -> RowModel {
        RowModel {
            owner: self.owner@,
            balance: self.balance as int,
            check_in_interval: self.check_in_interval as nat,
            status: self.status@,
        }
    }
}

/// What the rows say.
pub open spec fn rows_view(rows: Seq<VaultRow>) -> Seq<RowModel> {
    rows.map_values(|row: VaultRow| row@)
}

/// The number of rows with a status.
pub open spec fn count_status(rows: Seq<RowModel>, status: Seq<char>) -> nat
    decreases rows.len(),
{
    if rows.len() == 0 {
        0
    } else {
        count_status(rows.drop_last(), status) + if rows.last().status == status {
            1nat
        } else {
            0nat
        }
    }
}

/// The sum of the balances.
pub open spec fn balance_sum(rows: Seq<RowModel>) -> int
    decreases rows.len(),
{
    if rows.len() == 0 {
        0
    } else {
        balance_sum(rows.drop_last()) + rows.last().balance
    }
}

/// The sum of the check-in intervals.
pub open spec fn interval_sum(rows: Seq<RowModel>) -> nat
    decreases rows.len(),
{
    if rows.len() == 0 {
        0
    } else {
        interval_sum(rows.drop_last()) + rows.last().check_in_interval
    }
}

/// Adding up the balances row by row leaves the range of amounts.
pub open spec fn balance_overflows(rows: Seq<RowModel>) -> bool {
    exists|n: int|
        0 <= n <= rows.len() && !(i128::MIN <= #[trigger] balance_sum(rows.take(n)) <= i128::MAX)
}

/// The counters of the summary.
pub struct Counts {
    pub total: int,
    pub active: int,
    pub released: int,
    pub expired: int,
}

/// The counters of the given rows.
pub open spec fn counts_of(rows: Seq<RowModel>) -> Counts {
    Counts {
        total: rows.len() as int,
        active: count_status(rows, "active"@) as int,
        released: count_status(rows, "released"@) as int,
        expired: count_status(rows, "expired"@) as int,
    }
}

/// The summary of all vaults.
#[derive(Debug, Clone, Copy)]
pub struct VaultSummaryView {
    pub total_vaults: i64,
    pub active_vaults: i64,
    pub released_vaults: i64,
    pub expired_vaults: i64,
    pub total_balance: i128,
    /// The sum of the intervals over their number; 0 over 1 where there is no
    /// vault.
    pub avg_check_in_interval: Ratio,
    /// When the view was last fully refreshed.
    pub last_refreshed_at: Time,
}

impl VaultSummaryView {
    /// The counters.
    pub open spec fn counts(&self) -> Counts {
        Counts {
            total: self.total_vaults as int,
            active: self.active_vaults as int,
            released: self.released_vaults as int,
            expired: self.expired_vaults as int,
        }
    }
}

/// The summary is that of the rows.
pub open spec fn summarizes(view: VaultSummaryView, rows: Seq<RowModel>, at: Time) -> bool {
    &&& view.counts() == counts_of(rows)
    &&& view.total_balance == balance_sum(rows)
    &&& view.avg_check_in_interval.numerator == interval_sum(rows)
    &&& view.avg_check_in_interval.denominator == if rows.len() == 0 {
        1
    } else {
        rows.len() as int
    }
    &&& view.last_refreshed_at == at
}

proof fn lemma_counts_bounded(rows: Seq<RowModel>, status: Seq<char>)
    ensures
        count_status(rows, status) <= rows.len(),
    decreases rows.len(),
{
    if rows.len() > 0 {
        lemma_counts_bounded(rows.drop_last(), status);
    }
}

/// The summary of the rows, unless their balances add up to more than an
/// amount can be.
pub fn summarize(rows: &Vec<VaultRow>, at: Time) -> (r: Option<VaultSummaryView>)
    requires
        rows@.len() <= i64::MAX,
    ensures
        match r {
            Some(view) => !balance_overflows(rows_view(rows@)) && summarizes(
                view,
                rows_view(rows@),
                at,
            ),
            None => balance_overflows(rows_view(rows@)),
        },
{
    let ghost all = rows_view(rows@);
    let mut active: i64 = 0;
    let mut released: i64 = 0;
    let mut expired: i64 = 0;
    let mut balance: i128 = 0;
    let mut intervals: u128 = 0;
    let mut i: usize = 0;
    while i < rows.len()
        invariant
            i <= rows.len() <= i64::MAX,
            all == rows_view(rows@),
            active == count_status(all.take(i as int), "active"@),
            released == count_status(all.take(i as int), "released"@),
            expired == count_status(all.take(i as int), "expired"@),
            active <= i,
            released <= i,
            expired <= i,
            balance == balance_sum(all.take(i as int)),
            intervals == interval_sum(all.take(i as int)),
            intervals <= i * 0xFFFF_FFFF_FFFF_FFFF,
            forall|n: int|
                0 <= n <= i ==> i128::MIN <= #[trigger] balance_sum(all.take(n)) <= i128::MAX,
        decreases rows.len() - i,
    {
        let row = &rows[i];
        assert(all.take(i + 1).drop_last() =~= all.take(i as int));
        assert(all.take(i + 1).last() == row@);
        if same(row.status.as_str(), "active") {
            active = active + 1;
        }
        if same(row.status.as_str(), "released") {
            released = released + 1;
        }
        if same(row.status.as_str(), "expired") {
            expired = expired + 1;
        }
        proof {
            assert(i * 0xFFFF_FFFF_FFFF_FFFF + 0xFFFF_FFFF_FFFF_FFFF <= 0x7FFF_FFFF_FFFF_FFFF
                * 0xFFFF_FFFF_FFFF_FFFF) by (nonlinear_arith)
                requires
                    i < 0x7FFF_FFFF_FFFF_FFFF,
            ;
        }
        intervals = intervals + row.check_in_interval as u128;
        match balance.checked_add(row.balance) {
            Some(sum) => {
                balance = sum;
            },
            None => {
                assert(balance_sum(all.take(i + 1)) == balance + row.balance);
                return None;
            },
        }
        i = i + 1;
    }
    assert(all.take(i as int) =~= all);
    Some(
        VaultSummaryView {
            total_vaults: rows.len() as i64,
            active_vaults: active,
            released_vaults: released,
            expired_vaults: expired,
            total_balance: balance,
            avg_check_in_interval: Ratio {
                numerator: intervals,
                denominator: if rows.len() == 0 {
                    1
                } else {
                    rows.len() as u64
                },
            },
            last_refreshed_at: at,
        },
    )
}

/// The change of the counter of a status when a vault's status changes.
pub open spec fn delta(status: Seq<char>, old: Option<Seq<char>>, new: Option<Seq<char>>) -> int {
    (if new == Some(status) {
        1int
    } else {
        0
    }) - (if old == Some(status) {
        1int
    } else {
        0
    })
}

/// The change of the number of vaults.
pub open spec fn total_delta(old: Option<Seq<char>>, new: Option<Seq<char>>) -> int {
    (if new is Some {
        1int
    } else {
        0
    }) - (if old is Some {
        1int
    } else {
        0
    })
}

/// Whether an optional status is the given one.
fn is_status(s: Option<&str>, status: &str) -> (r: bool)
    ensures
        r == (name_option(s) == Some(status@)),
{
    match s {
        Some(text) => same(text, status),
        None => false,
    }
}

/// The change of the counter of a status when a vault's status changes. There
/// is no old status for a new vault, and no new one for a deleted vault.
pub fn status_delta(status: &str, old: Option<&str>, new: Option<&str>) -> (r: i64)
    ensures
        r == delta(status@, name_option(old), name_option(new)),
{
    let was = is_status(old, status);
    let holds = is_status(new, status);
    if !was && holds {
        1
    } else if was && !holds {
        -1
    } else {
        0
    }
}

/// A counter after a change: never below zero.
pub open spec fn floored(n: int) -> int {
    if n < 0 {
        0
    } else {
        n
    }
}

/// The counters after a vault's status changed.
pub open spec fn adjusted(c: Counts, old: Option<Seq<char>>, new: Option<Seq<char>>) -> Counts {
    Counts {
        total: floored(c.total + total_delta(old, new)),
        active: floored(c.active + delta("active"@, old, new)),
        released: floored(c.released + delta("released"@, old, new)),
        expired: floored(c.expired + delta("expired"@, old, new)),
    }
}

/// The counters can still grow.
pub open spec fn can_grow(c: Counts) -> bool {
    &&& c.total < i64::MAX
    &&& c.active < i64::MAX
    &&& c.released < i64::MAX
    &&& c.expired < i64::MAX
}

/// A counter after a change.
fn floor_add(n: i64, change: i64) -> (r: i64)
    requires
        n < i64::MAX,
        -1 <= change <= 1,
    ensures
        r == floored(n + change),
{
    if n < 0 {
        let sum: i64 = if change < 0 && n == i64::MIN {
            n
        } else {
            n + change
        };
        if sum < 0 {
            0
        } else {
            sum
        }
    } else {
        let sum: i64 = n + change;
        if sum < 0 {
            0
        } else {
            sum
        }
    }
}

impl VaultSummaryView {
    /// Adjusts the counters to the change of one vault's status.
    pub fn apply(&mut self, old_status: Option<&str>, new_status: Option<&str>)
        requires
            can_grow(old(self).counts()),
        ensures
            final(self).counts() == adjusted(
                old(self).counts(),
                name_option(old_status),
                name_option(new_status),
            ),
            final(self).total_balance == old(self).total_balance,
            final(self).avg_check_in_interval == old(self).avg_check_in_interval,
            final(self).last_refreshed_at == old(self).last_refreshed_at,
    {
        let total: i64 = match (old_status, new_status) {
            (None, Some(_)) => 1,
            (Some(_), None) => -1,
            _ => 0,
        };
        self.total_vaults = floor_add(self.total_vaults, total);
        self.active_vaults = floor_add(
            self.active_vaults,
            status_delta("active", old_status, new_status),
        );
        self.released_vaults = floor_add(
            self.released_vaults,
            status_delta("released", old_status, new_status),
        );
        self.expired_vaults = floor_add(
            self.expired_vaults,
            status_delta("expired", old_status, new_status),
        );
    }
}

proof fn lemma_count_update(rows: Seq<RowModel>, i: int, row: RowModel, status: Seq<char>)
    requires
        0 <= i < rows.len(),
    ensures
        count_status(rows.update(i, row), status) == count_status(rows, status) + delta(
            status,
            Some(rows[i].status),
            Some(row.status),
        ),
    decreases rows.len(),
{
    let after = rows.update(i, row);
    if i == rows.len() - 1 {
        assert(after.drop_last() =~= rows.drop_last());
    } else {
        lemma_count_update(rows.drop_last(), i, row, status);
        assert(after.drop_last() =~= rows.drop_last().update(i, row));
    }
}

proof fn lemma_count_remove(rows: Seq<RowModel>, i: int, status: Seq<char>)
    requires
        0 <= i < rows.len(),
    ensures
        count_status(rows.remove(i), status) == count_status(rows, status) + delta(
            status,
            Some(rows[i].status),
            None,
        ),
    decreases rows.len(),
{
    let after = rows.remove(i);
    if i == rows.len() - 1 {
        assert(after =~= rows.drop_last());
    } else {
        lemma_count_remove(rows.drop_last(), i, status);
        assert(after.drop_last() =~= rows.drop_last().remove(i));
        assert(after.last() == rows.last());
    }
}

/// Adjusting the counters of the rows to a change of a vault's status gives
/// the counters of the changed rows: no refresh is needed.
pub proof fn adjusting_agrees_with_refreshing(rows: Seq<RowModel>, i: int, row: RowModel)
    requires
        0 <= i < rows.len(),
    ensures
        adjusted(counts_of(rows), Some(rows[i].status), Some(row.status)) == counts_of(
            rows.update(i, row),
        ),
{
    lemma_count_update(rows, i, row, "active"@);
    lemma_count_update(rows, i, row, "released"@);
    lemma_count_update(rows, i, row, "expired"@);
}

/// Adjusting the counters of the rows to a new vault gives the counters of the
/// rows with that vault.
pub proof fn adjusting_agrees_with_inserting(rows: Seq<RowModel>, row: RowModel)
    ensures
        adjusted(counts_of(rows), None, Some(row.status)) == counts_of(rows.push(row)),
{
    assert(rows.push(row).drop_last() =~= rows);
}

/// Adjusting the counters of the rows to the deletion of a vault gives the
/// counters of the rows without it.
pub proof fn adjusting_agrees_with_deleting(rows: Seq<RowModel>, i: int)
    requires
        0 <= i < rows.len(),
    ensures
        adjusted(counts_of(rows), Some(rows[i].status), None) == counts_of(rows.remove(i)),
{
    lemma_count_remove(rows, i, "active"@);
    lemma_count_remove(rows, i, "released"@);
    lemma_count_remove(rows, i, "expired"@);
}

/// No counter falls below zero, whatever changes are reported.
pub proof fn counters_stay_nonnegative(c: Counts, old: Option<Seq<char>>, new: Option<Seq<char>>)
    ensures
        adjusted(c, old, new).total >= 0,
        adjusted(c, old, new).active >= 0,
        adjusted(c, old, new).released >= 0,
        adjusted(c, old, new).expired >= 0,
{
}

/// The number of rows of an owner.
pub open spec fn count_owner(rows: Seq<RowModel>, owner: Seq<char>) -> nat
    decreases rows.len(),
{
    if rows.len() == 0 {
        0
    } else {
        count_owner(rows.drop_last(), owner) + if rows.last().owner == owner {
            1nat
        } else {
            0nat
        }
    }
}

/// The number of active rows of an owner.
pub open spec fn count_owner_active(rows: Seq<RowModel>, owner: Seq<char>) -> nat
    decreases rows.len(),
{
    if rows.len() == 0 {
        0
    } else {
        count_owner_active(rows.drop_last(), owner) + if rows.last().owner == owner
            && rows.last().status == "active"@ {
            1nat
        } else {
            0nat
        }
    }
}

/// The vaults of an owner.
#[derive(Debug)]
pub struct VaultOwnerCount {
    pub owner: String,
    pub vault_count: i64,
    pub active_count: i64,
}

impl Clone for VaultOwnerCount {
    fn clone(&self) -> (r: Self)
        ensures
            r == *self,
    {
        VaultOwnerCount {
            owner: self.owner.clone(),
            vault_count: self.vault_count,
            active_count: self.active_count,
        }
    }
}

/// The list counts the vaults of every owner of the rows once, the owners with
/// most vaults first.
pub open spec fn counts_owners(list: Seq<VaultOwnerCount>, rows: Seq<RowModel>) -> bool {
    &&& forall|i: int|
        0 <= i < list.len() ==> {
            &&& (#[trigger] list[i]).vault_count == count_owner(rows, list[i].owner@)
            &&& list[i].active_count == count_owner_active(rows, list[i].owner@)
            &&& list[i].vault_count > 0
        }
    &&& forall|i: int, j: int|
        0 <= i < j < list.len() ==> (#[trigger] list[i]).owner@ != (#[trigger] list[j]).owner@
            && list[i].vault_count >= list[j].vault_count
    &&& forall|k: int| 0 <= k < rows.len() ==> lists_owner(list, (#[trigger] rows[k]).owner)
}

/// The list has an entry for the owner.
pub open spec fn lists_owner(list: Seq<VaultOwnerCount>, owner: Seq<char>) -> bool {
    exists|i: int| 0 <= i < list.len() && (#[trigger] list[i]).owner@ == owner
}

/// The vaults of an owner, while they are counted.
struct Tally {
    vaults: i64,
    active: i64,
}

proof fn lemma_owner_counts(rows: Seq<RowModel>, owner: Seq<char>)
    ensures
        count_owner_active(rows, owner) <= count_owner(rows, owner) <= rows.len(),
        count_owner(rows, owner) > 0 <==> exists|k: int|
            0 <= k < rows.len() && (#[trigger] rows[k]).owner == owner,
    decreases rows.len(),
{
    if rows.len() > 0 {
        let rest = rows.drop_last();
        lemma_owner_counts(rest, owner);
        if count_owner(rows, owner) > 0 {
            if rows.last().owner == owner {
                assert(rows[rows.len() - 1].owner == owner);
            } else {
                let k = choose|k: int| 0 <= k < rest.len() && (#[trigger] rest[k]).owner == owner;
                assert(rows[k].owner == owner);
            }
        }
        if exists|k: int| 0 <= k < rows.len() && (#[trigger] rows[k]).owner == owner {
            let k = choose|k: int| 0 <= k < rows.len() && (#[trigger] rows[k]).owner == owner;
            if k < rest.len() {
                assert(rest[k].owner == owner);
            }
        }
    }
}

/// The number of vaults of each owner, the owners with most vaults first.
pub fn count_by_owner(rows: &Vec<VaultRow>) -> (r: Vec<VaultOwnerCount>)
    requires
        rows@.len() <= i64::MAX,
    ensures
        counts_owners(r@, rows_view(rows@)),
{
    let ghost all = rows_view(rows@);
    let mut tallies: Table<Tally> = Table::new();
    let mut i: usize = 0;
    while i < rows.len()
        invariant
            i <= rows.len() <= i64::MAX,
            all == rows_view(rows@),
            tallies.wf(),
            forall|o: Seq<char>| #[trigger]
                tallies@.contains_key(o) <==> count_owner(all.take(i as int), o) > 0,
            forall|o: Seq<char>| #[trigger]
                tallies@.contains_key(o) ==> tallies@[o].vaults == count_owner(
                    all.take(i as int),
                    o,
                ) && tallies@[o].active == count_owner_active(all.take(i as int), o),
        decreases rows.len() - i,
    {
        let row = &rows[i];
        let ghost before = all.take(i as int);
        assert(all.take(i + 1).drop_last() =~= before);
        assert(all.take(i + 1).last() == row@);
        proof {
            lemma_owner_counts(before, row.owner@);
        }
        let (vaults, active_so_far): (i64, i64) = match tallies.get(row.owner.as_str()) {
            Some(tally) => (tally.vaults, tally.active),
            None => (0, 0),
        };
        let active: i64 = if same(row.status.as_str(), "active") {
            active_so_far + 1
        } else {
            active_so_far
        };
        tallies.insert(row.owner.clone(), Tally { vaults: vaults + 1, active });
        i = i + 1;
        assert forall|o: Seq<char>| #[trigger] tallies@.contains_key(o) <==> count_owner(
            all.take(i as int),
            o,
        ) > 0 by {}
    }
    assert(all.take(i as int) =~= all);
    let mut keys: Vec<i128> = Vec::new();
    let mut j: usize = 0;
    while j < tallies.len()
        invariant
            j <= tallies.keys().len(),
            tallies.wf(),
            keys@.len() == j,
            forall|k: int| 0 <= k < j ==> (#[trigger] keys@[k]) == tallies.values()[k].vaults,
        decreases tallies.keys().len() - j,
    {
        keys.push(tallies.value_at(j).vaults as i128);
        j = j + 1;
    }
    let order = stable_order(&keys, true);
    proof {
        lemma_covers(order@, keys@.len());
    }
    let mut out: Vec<VaultOwnerCount> = Vec::new();
    let mut k: usize = 0;
    while k < order.len()
        invariant
            k <= order.len(),
            order.len() == keys.len() == tallies.keys().len(),
            tallies.wf(),
            is_stable_order(keys@, true, order@),
            out@.len() == k,
            forall|p: int|
                0 <= p < k ==> (#[trigger] out@[p]).owner@ == tallies.keys()[order@[p] as int]
                    && out@[p].vault_count == tallies.values()[order@[p] as int].vaults
                    && out@[p].active_count == tallies.values()[order@[p] as int].active,
        decreases order.len() - k,
    {
        let place = order[k];
        let tally = tallies.value_at(place);
        out.push(
            VaultOwnerCount {
                owner: tallies.key_at(place).to_owned(),
                vault_count: tally.vaults,
                active_count: tally.active,
            },
        );
        k = k + 1;
    }
    proof {
        assert forall|p: int| 0 <= p < out@.len() implies {
            &&& (#[trigger] out@[p]).vault_count == count_owner(all, out@[p].owner@)
            &&& out@[p].active_count == count_owner_active(all, out@[p].owner@)
            &&& out@[p].vault_count > 0
        } by {
            let place = order@[p] as int;
            crate::table::lemma_index_of(tallies.keys(), place);
            assert(tallies@.contains_key(tallies.keys()[place]));
        }
        assert forall|a: int, b: int| 0 <= a < b < out@.len() implies (#[trigger] out@[a]).owner@
            != (#[trigger] out@[b]).owner@ && out@[a].vault_count >= out@[b].vault_count by {
            assert(order@[a] != order@[b]);
            assert(crate::ordering::precedes(keys@, true, order@[a], order@[b]));
            assert(keys@[order@[a] as int] == tallies.values()[order@[a] as int].vaults);
            assert(keys@[order@[b] as int] == tallies.values()[order@[b] as int].vaults);
        }
        assert forall|m: int| 0 <= m < all.len() implies lists_owner(
            out@,
            (#[trigger] all[m]).owner,
        ) by {
            let o = all[m].owner;
            lemma_owner_counts(all, o);
            assert(tallies@.contains_key(o));
            let place = tallies.keys().index_of(o);
            assert(tallies.keys().contains(o));
            assert(order@.contains(place as usize));
            let p = order@.index_of(place as usize);
            assert(out@[p].owner@ == o);
        }
    }
    out
}

/// When a view is refreshed. Times are nanoseconds of a steady clock.
#[derive(Debug, Clone, Copy, PartialEq, Eq, Structural)]
pub struct ViewRefreshSchedule {
    pub interval: u128,
    pub next_refresh_at: u128,
}

/// The views and the schedule of their refreshes.
pub struct MaterializedViewManager {
    summary: Option<VaultSummaryView>,
    owners: Vec<VaultOwnerCount>,
    schedules: Table<ViewRefreshSchedule>,
    origin: std::time::Instant,
}

/// What the manager holds.
pub struct ManagerModel {
    pub summary: Option<VaultSummaryView>,
    pub owners: Seq<VaultOwnerCount>,
    pub schedules: Map<Seq<char>, ViewRefreshSchedule>,
}

/// The schedules after a refresh of a view.
pub open spec fn rescheduled(
    schedules: Map<Seq<char>, ViewRefreshSchedule>,
    view: Seq<char>,
    now: u128,
) -> Map<Seq<char>, ViewRefreshSchedule> {
    if schedules.contains_key(view) {
        schedules.insert(
            view,
            ViewRefreshSchedule {
                next_refresh_at: (now + schedules[view].interval) as u128,
                ..schedules[view]
            },
        )
    } else {
        schedules
    }
}

/// The view is due.
pub open spec fn due(
    schedules: Map<Seq<char>, ViewRefreshSchedule>,
    view: Seq<char>,
    now: u128,
) -> bool {
    schedules.contains_key(view) && now >= schedules[view].next_refresh_at
}

/// The manager after a refresh of the summary.
pub open spec fn summary_refreshed(
    before: ManagerModel,
    rows: Seq<RowModel>,
    now: u128,
    at: Time,
    after: ManagerModel,
) -> bool {
    &&& after.summary is Some
    &&& summarizes(after.summary->0, rows, at)
    &&& after.owners == before.owners
    &&& after.schedules == rescheduled(before.schedules, SUMMARY_VIEW@, now)
}

/// The manager after a refresh of the owner view.
pub open spec fn owners_refreshed(
    before: ManagerModel,
    rows: Seq<RowModel>,
    now: u128,
    after: ManagerModel,
) -> bool {
    &&& after.summary == before.summary
    &&& counts_owners(after.owners, rows)
    &&& after.schedules == rescheduled(before.schedules, OWNER_VIEW@, now)
}

/// The balances add up to more than an amount can be.
#[derive(Debug, Clone, Copy, PartialEq, Eq, Structural)]
pub struct BalanceOverflow;

impl MaterializedViewManager {
    /// The reading of the clock from which times are counted.
    pub closed spec fn made_at(&self) -> std::time::Instant {
        self.origin
    }

    /// The clock was read, and `now` is what may have passed since the reading from
    /// which times are counted.
    pub open spec fn clock_shows(&self, now: u128) -> bool {
        steady_clock_shows(self.made_at(), now)
    }

    pub closed spec fn view(&self) -> ManagerModel {
        ManagerModel {
            summary: self.summary,
            owners: self.owners@,
            schedules: self.schedules@,
        }
    }

    pub closed spec fn wf(&self) -> bool {
        &&& self.schedules.wf()
        &&& forall|v: Seq<char>| #[trigger]
            self.schedules@.contains_key(v) ==> self.schedules@[v].interval <= MAX_INTERVAL
    }

    /// The manager of views that have not been computed yet and are due.
    pub fn new() -> (r: Self)
        ensures
            r.wf(),
            r@.summary is None,
            r@.owners.len() == 0,
            exists|now: u128| r.clock_shows(now) && #[trigger] first_schedules(now) == r@.schedules,
    {
        let origin = monotonic_now();
        let now = nanos_since(&origin);
        let mut schedules: Table<ViewRefreshSchedule> = Table::new();
        schedules.insert(
            SUMMARY_VIEW.to_owned(),
            ViewRefreshSchedule { interval: DEFAULT_INTERVAL, next_refresh_at: now },
        );
        schedules.insert(
            OWNER_VIEW.to_owned(),
            ViewRefreshSchedule { interval: DEFAULT_INTERVAL, next_refresh_at: now },
        );
        assert(schedules@ =~= first_schedules(now));
        MaterializedViewManager { summary: None, owners: Vec::new(), schedules, origin }
    }

    /// The nanoseconds since the manager was made.
    fn now(&self) -> (r: u128)
        ensures
            r <= MAX_INTERVAL,
            self.clock_shows(r),
    {
        nanos_since(&self.origin)
    }

    /// Sets the next refresh of a view.
    fn reschedule(&mut self, view: &str, now: u128)
        requires
            old(self).wf(),
            now <= MAX_INTERVAL,
        ensures
            final(self).wf(),
            final(self).made_at() == old(self).made_at(),
            final(self)@ == (ManagerModel {
                schedules: rescheduled(old(self)@.schedules, view@, now),
                ..old(self)@
            }),
    {
        match self.schedules.get_mut(view) {
            Some(schedule) => {
                schedule.next_refresh_at = now + schedule.interval;
            },
            None => {},
        }
    }

    /// Recomputes the summary at a moment.
    pub fn refresh_vault_summary_at(&mut self, rows: &Vec<VaultRow>, now: u128, at: Time) -> (r:
        Result<(), BalanceOverflow>)
        requires
            old(self).wf(),
            rows@.len() <= i64::MAX,
            now <= MAX_INTERVAL,
        ensures
            final(self).wf(),
            final(self).made_at() == old(self).made_at(),
            match r {
                Ok(_) => !balance_overflows(rows_view(rows@)) && summary_refreshed(
                    old(self)@,
                    rows_view(rows@),
                    now,
                    at,
                    final(self)@,
                ),
                Err(_) => balance_overflows(rows_view(rows@)) && *final(self) == *old(self),
            },
    {
        match summarize(rows, at) {
            Some(view) => {
                self.summary = Some(view);
                self.reschedule(SUMMARY_VIEW, now);
                Ok(())
            },
            None => Err(BalanceOverflow),
        }
    }

    /// Recomputes the summary.
    pub fn refresh_vault_summary(&mut self, rows: &Vec<VaultRow>) -> (r: Result<
        (),
        BalanceOverflow,
    >)
        requires
            old(self).wf(),
            rows@.len() <= i64::MAX,
        ensures
            final(self).wf(),
            final(self).made_at() == old(self).made_at(),
            match r {
                Ok(_) => !balance_overflows(rows_view(rows@)) && exists|now: u128, at: Time|
                    old(self).clock_shows(now) && wall_clock_shows(at) && #[trigger]
                    summary_refreshed(old(self)@, rows_view(rows@), now, at, final(self)@),
                Err(_) => balance_overflows(rows_view(rows@)) && *final(self) == *old(self),
            },
    {
        let now = self.now();
        let at = utc_now();
        self.refresh_vault_summary_at(rows, now, at)
    }

    /// Recomputes the owner view at a moment.
    pub fn refresh_owner_counts_at(&mut self, rows: &Vec<VaultRow>, now: u128)
        requires
            old(self).wf(),
            rows@.len() <= i64::MAX,
            now <= MAX_INTERVAL,
        ensures
            final(self).wf(),
            final(self).made_at() == old(self).made_at(),
            owners_refreshed(old(self)@, rows_view(rows@), now, final(self)@),
    {
        self.owners = count_by_owner(rows);
        self.reschedule(OWNER_VIEW, now);
    }

    /// Recomputes the owner view.
    pub fn refresh_owner_counts(&mut self, rows: &Vec<VaultRow>)
        requires
            old(self).wf(),
            rows@.len() <= i64::MAX,
        ensures
            final(self).wf(),
            final(self).made_at() == old(self).made_at(),
            exists|now: u128|
                old(self).clock_shows(now)
                    && #[trigger] owners_refreshed(old(self)@, rows_view(rows@), now, final(self)@),
    {
        let now = self.now();
        self.refresh_owner_counts_at(rows, now);
    }

    /// Recomputes both views. Where the summary cannot be computed, nothing
    /// changes.
    pub fn refresh_all(&mut self, rows: &Vec<VaultRow>) -> (r: Result<(), BalanceOverflow>)
        requires
            old(self).wf(),
            rows@.len() <= i64::MAX,
        ensures
            final(self).wf(),
            final(self).made_at() == old(self).made_at(),
            match r {
                Ok(_) => !balance_overflows(rows_view(rows@)) && exists|
                    middle: ManagerModel,
                    now: u128,
                    at: Time,
                    later: u128,
                |
                    old(self).clock_shows(now) && old(self).clock_shows(later) && wall_clock_shows(at)
                        && #[trigger] summary_refreshed(old(self)@, rows_view(rows@), now, at, middle)
                        && #[trigger] owners_refreshed(
                        middle,
                        rows_view(rows@),
                        later,
                        final(self)@,
                    ),
                Err(_) => balance_overflows(rows_view(rows@)) && *final(self) == *old(self),
            },
    {
        match self.refresh_vault_summary(rows) {
            Ok(_) => {
                self.refresh_owner_counts(rows);
                Ok(())
            },
            Err(e) => Err(e),
        }
    }

    /// Adjusts the summary to the change of one vault's status. There is no old
    /// status for a new vault, and no new one for a deleted vault. The time of the
    /// last full refresh stays.
    pub fn apply_incremental_vault_update(
        &mut self,
        old_status: Option<&str>,
        new_status: Option<&str>,
    )
        requires
            old(self).wf(),
            old(self)@.summary is Some ==> can_grow(old(self)@.summary->0.counts()),
        ensures
            final(self).wf(),
            final(self).made_at() == old(self).made_at(),
            final(self)@.owners == old(self)@.owners,
            final(self)@.schedules == old(self)@.schedules,
            match old(self)@.summary {
                Some(before) => {
                    &&& final(self)@.summary is Some
                    &&& adjustment(
                        before,
                        name_option(old_status),
                        name_option(new_status),
                        final(self)@.summary->0,
                    )
                },
                None => final(self)@.summary is None,
            },
    {
        match &mut self.summary {
            Some(view) => {
                view.apply(old_status, new_status);
            },
            None => {},
        }
    }

    /// The summary, if it has been computed.
    pub fn get_vault_summary(&self) -> (r: Option<VaultSummaryView>)
        ensures
            r == self@.summary,
    {
        self.summary
    }

    /// The vaults of each owner, the owners with most vaults first.
    pub fn get_owner_counts(&self) -> (r: Vec<VaultOwnerCount>)
        ensures
            r@ == self@.owners,
    {
        let r = self.owners.clone();
        assert(r@ =~= self.owners@);
        r
    }

    /// Sets the time between two refreshes of a view. The next refresh stays
    /// as it is.
    pub fn set_refresh_interval(&mut self, view: &str, interval: u128)
        requires
            old(self).wf(),
            interval <= MAX_INTERVAL,
        ensures
            final(self).wf(),
            final(self).made_at() == old(self).made_at(),
            final(self)@ == (ManagerModel {
                schedules: if old(self)@.schedules.contains_key(view@) {
                    old(self)@.schedules.insert(
                        view@,
                        ViewRefreshSchedule { interval, ..old(self)@.schedules[view@] },
                    )
                } else {
                    old(self)@.schedules
                },
                ..old(self)@
            }),
    {
        match self.schedules.get_mut(view) {
            Some(schedule) => {
                schedule.interval = interval;
            },
            None => {},
        }
    }

    /// Whether a view is due at a moment.
    pub fn is_due_at(&self, view: &str, now: u128) -> (r: bool)
        requires
            self.wf(),
        ensures
            r == due(self@.schedules, view@, now),
    {
        match self.schedules.get(view) {
            Some(schedule) => now >= schedule.next_refresh_at,
            None => false,
        }
    }

    /// Whether a view is due.
    pub fn is_due(&self, view: &str) -> (r: bool)
        requires
            self.wf(),
        ensures
            exists|now: u128| self.clock_shows(now) && r == #[trigger] due(self@.schedules, view@, now),
    {
        let now = self.now();
        self.is_due_at(view, now)
    }

    /// Recomputes the views that are due at a moment.
    pub fn refresh_due_views_at(&mut self, rows: &Vec<VaultRow>, now: u128, at: Time) -> (r:
        Result<(), BalanceOverflow>)
        requires
            old(self).wf(),
            rows@.len() <= i64::MAX,
            now <= MAX_INTERVAL,
        ensures
            final(self).wf(),
            final(self).made_at() == old(self).made_at(),
            due_views_refreshed(old(self)@, rows_view(rows@), now, at, r is Ok, final(self)@),
    {
        let owner_due = self.is_due_at(OWNER_VIEW, now);
        proof {
            lemma_view_names();
        }
        let ghost start = self@;
        let ghost mut middle = self@;
        if self.is_due_at(SUMMARY_VIEW, now) {
            match self.refresh_vault_summary_at(rows, now, at) {
                Ok(_) => {},
                Err(e) => {
                    return Err(e);
                },
            }
        }
        proof {
            middle = self@;
            assert(summary_if_due(start, rows_view(rows@), now, at, middle));
        }
        if owner_due {
            self.refresh_owner_counts_at(rows, now);
        }
        Ok(())
    }

    /// Recomputes the views that are due.
    pub fn refresh_due_views(&mut self, rows: &Vec<VaultRow>) -> (r: Result<(), BalanceOverflow>)
        requires
            old(self).wf(),
            rows@.len() <= i64::MAX,
        ensures
            final(self).wf(),
            final(self).made_at() == old(self).made_at(),
            exists|now: u128, at: Time|
                old(self).clock_shows(now) && wall_clock_shows(at)
                    && #[trigger] due_views_refreshed(old(self)@, rows_view(rows@), now, at, r is Ok, final(self)@),
    {
        let now = self.now();
        let at = utc_now();
        self.refresh_due_views_at(rows, now, at)
    }
}

/// The schedules at first: both views are due.
pub open spec fn first_schedules(now: u128) -> Map<Seq<char>, ViewRefreshSchedule> {
    let first = ViewRefreshSchedule { interval: DEFAULT_INTERVAL, next_refresh_at: now };
    Map::<Seq<char>, ViewRefreshSchedule>::empty().insert(SUMMARY_VIEW@, first).insert(
        OWNER_VIEW@,
        first,
    )
}

/// The summary after the change of one vault's status.
pub open spec fn adjustment(
    before: VaultSummaryView,
    old_status: Option<Seq<char>>,
    new_status: Option<Seq<char>>,
    after: VaultSummaryView,
) -> bool {
    &&& after.counts() == adjusted(before.counts(), old_status, new_status)
    &&& after.total_balance == before.total_balance
    &&& after.avg_check_in_interval == before.avg_check_in_interval
    &&& after.last_refreshed_at == before.last_refreshed_at
}

/// The manager after a refresh of the summary, if it was due.
pub open spec fn summary_if_due(
    before: ManagerModel,
    rows: Seq<RowModel>,
    now: u128,
    at: Time,
    after: ManagerModel,
) -> bool {
    if due(before.schedules, SUMMARY_VIEW@, now) {
        summary_refreshed(before, rows, now, at, after)
    } else {
        after == before
    }
}

/// The manager after a refresh of the views that were due. Where the summary
/// is due and cannot be computed, nothing changes.
pub open spec fn due_views_refreshed(
    before: ManagerModel,
    rows: Seq<RowModel>,
    now: u128,
    at: Time,
    ok: bool,
    after: ManagerModel,
) -> bool {
    if due(before.schedules, SUMMARY_VIEW@, now) && balance_overflows(rows) {
        !ok && after == before
    } else {
        &&& ok
        &&& exists|middle: ManagerModel| #[trigger]
            summary_if_due(before, rows, now, at, middle) && if due(
                before.schedules,
                OWNER_VIEW@,
                now,
            ) {
                owners_refreshed(middle, rows, now, after)
            } else {
                after == middle
            }
    }
}

proof fn lemma_view_names()
    ensures
        SUMMARY_VIEW@ != OWNER_VIEW@,
{
    reveal_strlit("vault_summary_view");
    reveal_strlit("vault_owner_counts_view");
    assert(SUMMARY_VIEW@.len() != OWNER_VIEW@.len());
}

/// After a refresh a view is not due until its interval has passed.
pub proof fn refreshed_views_are_not_due(
    schedules: Map<Seq<char>, ViewRefreshSchedule>,
    view: Seq<char>,
    at: u128,
    now: u128,
)
    requires
        schedules.contains_key(view),
        at + schedules[view].interval <= u128::MAX,
    ensures
        due(rescheduled(schedules, view, at), view, now) <==> now >= at
            + schedules[view].interval,
{
}

/// Refreshing from the same rows twice gives the same counters.
pub proof fn refreshing_is_idempotent(
    a: VaultSummaryView,
    b: VaultSummaryView,
    rows: Seq<RowModel>,
    first: Time,
    second: Time,
)
    requires
        summarizes(a, rows, first),
        summarizes(b, rows, second),
    ensures
        a.counts() == b.counts(),
        a.total_balance == b.total_balance,
        a.avg_check_in_interval == b.avg_check_in_interval,
{
}

/// The list has an entry with the same owner and the same counts.
pub open spec fn lists_count(list: Seq<VaultOwnerCount>, count: VaultOwnerCount) -> bool {
    exists|j: int|
        0 <= j < list.len() && (#[trigger] list[j]).owner@ == count.owner@ && list[j].vault_count
            == count.vault_count && list[j].active_count == count.active_count
}

/// Counting the owners of the same rows twice gives the same owners with the
/// same counts.
pub proof fn counting_owners_is_idempotent(
    a: Seq<VaultOwnerCount>,
    b: Seq<VaultOwnerCount>,
    rows: Seq<RowModel>,
)
    requires
        counts_owners(a, rows),
        counts_owners(b, rows),
    ensures
        forall|i: int| 0 <= i < a.len() ==> lists_count(b, #[trigger] a[i]),
        forall|i: int| 0 <= i < b.len() ==> lists_count(a, #[trigger] b[i]),
{
    lemma_counts_are_listed(a, b, rows);
    lemma_counts_are_listed(b, a, rows);
}

proof fn lemma_counts_are_listed(
    a: Seq<VaultOwnerCount>,
    b: Seq<VaultOwnerCount>,
    rows: Seq<RowModel>,
)
    requires
        counts_owners(a, rows),
        counts_owners(b, rows),
    ensures
        forall|i: int| 0 <= i < a.len() ==> lists_count(b, #[trigger] a[i]),
{
    assert forall|i: int| 0 <= i < a.len() implies lists_count(b, #[trigger] a[i]) by {
        let owner = a[i].owner@;
        lemma_owner_counts(rows, owner);
        let k = choose|k: int| 0 <= k < rows.len() && (#[trigger] rows[k]).owner == owner;
        assert(lists_owner(b, rows[k].owner));
        let j = choose|j: int| 0 <= j < b.len() && (#[trigger] b[j]).owner@ == owner;
        assert(b[j].vault_count == count_owner(rows, owner));
    }
}

/// The vaults that a list counts, altogether.
pub open spec fn counted_vaults(list: Seq<VaultOwnerCount>) -> int
    decreases list.len(),
{
    if list.len() == 0 {
        0
    } else {
        counted_vaults(list.drop_last()) + list.last().vault_count
    }
}

/// The active vaults that a list counts, altogether.
pub open spec fn counted_active(list: Seq<VaultOwnerCount>) -> int
    decreases list.len(),
{
    if list.len() == 0 {
        0
    } else {
        counted_active(list.drop_last()) + list.last().active_count
    }
}

/// The rows that belong to one of the owners of a list.
spec fn rows_of(list: Seq<VaultOwnerCount>, rows: Seq<RowModel>) -> Seq<RowModel>
    decreases rows.len(),
{
    if rows.len() == 0 {
        Seq::empty()
    } else {
        let rest = rows_of(list, rows.drop_last());
        if lists_owner(list, rows.last().owner) {
            rest.push(rows.last())
        } else {
            rest
        }
    }
}

/// A further owner of a list adds that owner's rows.
proof fn lemma_rows_of_push(
    list: Seq<VaultOwnerCount>,
    count: VaultOwnerCount,
    rows: Seq<RowModel>,
)
    requires
        !lists_owner(list, count.owner@),
    ensures
        rows_of(list.push(count), rows).len() == rows_of(list, rows).len() + count_owner(
            rows,
            count.owner@,
        ),
        count_status(rows_of(list.push(count), rows), "active"@) == count_status(
            rows_of(list, rows),
            "active"@,
        ) + count_owner_active(rows, count.owner@),
    decreases rows.len(),
{
    if rows.len() > 0 {
        let rest = rows.drop_last();
        let last = rows.last();
        let longer = list.push(count);
        lemma_rows_of_push(list, count, rest);
        if lists_owner(list, last.owner) {
            let i = choose|i: int| 0 <= i < list.len() && (#[trigger] list[i]).owner@ == last.owner;
            assert(longer[i].owner@ == last.owner);
        }
        if last.owner == count.owner@ {
            assert(longer[list.len() as int].owner@ == last.owner);
        }
        if lists_owner(longer, last.owner) && last.owner != count.owner@ {
            let i = choose|i: int|
                0 <= i < longer.len() && (#[trigger] longer[i]).owner@ == last.owner;
            assert(list[i].owner@ == last.owner);
        }
        assert(rows_of(list, rest).push(last).drop_last() =~= rows_of(list, rest));
        assert(rows_of(longer, rest).push(last).drop_last() =~= rows_of(longer, rest));
    }
}

proof fn lemma_counted(list: Seq<VaultOwnerCount>, rows: Seq<RowModel>)
    requires
        forall|i: int|
            0 <= i < list.len() ==> (#[trigger] list[i]).vault_count == count_owner(
                rows,
                list[i].owner@,
            ) && list[i].active_count == count_owner_active(rows, list[i].owner@),
        forall|i: int, j: int|
            0 <= i < j < list.len() ==> (#[trigger] list[i]).owner@ != (#[trigger] list[j]).owner@,
    ensures
        counted_vaults(list) == rows_of(list, rows).len(),
        counted_active(list) == count_status(rows_of(list, rows), "active"@),
    decreases list.len(),
{
    if list.len() > 0 {
        let head = list.drop_last();
        assert forall|i: int| 0 <= i < head.len() implies (#[trigger] head[i]).vault_count
            == count_owner(rows, head[i].owner@) && head[i].active_count == count_owner_active(
            rows,
            head[i].owner@,
        ) by {
            assert(head[i] == list[i]);
        }
        lemma_counted(head, rows);
        if lists_owner(head, list.last().owner@) {
            let i = choose|i: int|
                0 <= i < head.len() && (#[trigger] head[i]).owner@ == list.last().owner@;
            assert(list[i].owner@ != list[list.len() - 1].owner@);
        }
        lemma_rows_of_push(head, list.last(), rows);
        assert(head.push(list.last()) =~= list);
    } else {
        lemma_no_rows(list, rows);
    }
}

proof fn lemma_no_rows(list: Seq<VaultOwnerCount>, rows: Seq<RowModel>)
    requires
        list.len() == 0,
    ensures
        rows_of(list, rows) == Seq::<RowModel>::empty(),
    decreases rows.len(),
{
    if rows.len() > 0 {
        lemma_no_rows(list, rows.drop_last());
    }
}

proof fn lemma_all_rows(list: Seq<VaultOwnerCount>, rows: Seq<RowModel>)
    requires
        forall|k: int| 0 <= k < rows.len() ==> lists_owner(list, (#[trigger] rows[k]).owner),
    ensures
        rows_of(list, rows) == rows,
    decreases rows.len(),
{
    if rows.len() > 0 {
        assert forall|k: int| 0 <= k < rows.drop_last().len() implies lists_owner(
            list,
            (#[trigger] rows.drop_last()[k]).owner,
        ) by {
            assert(rows.drop_last()[k] == rows[k]);
        }
        lemma_all_rows(list, rows.drop_last());
        assert(lists_owner(list, rows[rows.len() - 1].owner));
        assert(rows.drop_last().push(rows.last()) =~= rows);
    } else {
        assert(rows_of(list, rows) =~= rows);
    }
}

/// The vaults of the owners add up to all vaults, and their active vaults to all
/// active vaults.
pub proof fn owner_counts_add_up(list: Seq<VaultOwnerCount>, rows: Seq<RowModel>)
    requires
        counts_owners(list, rows),
    ensures
        counted_vaults(list) == counts_of(rows).total,
        counted_active(list) == counts_of(rows).active,
{
    lemma_counted(list, rows);
    lemma_all_rows(list, rows);
}

proof fn lemma_counts_filter(rows: Seq<RowModel>, status: Seq<char>, owner: Seq<char>)
    ensures
        count_status(rows, status) == rows.filter(|r: RowModel| r.status == status).len(),
        count_owner(rows, owner) == rows.filter(|r: RowModel| r.owner == owner).len(),
        count_owner_active(rows, owner) == rows.filter(
            |r: RowModel| r.owner == owner && r.status == "active"@,
        ).len(),
    decreases rows.len(),
{
    reveal(Seq::filter);
    if rows.len() > 0 {
        lemma_counts_filter(rows.drop_last(), status, owner);
    }
}

/// A summary counts all vaults and those of each status, adds up their balances one by
/// one, and averages their intervals over their number.
pub proof fn summaries_count_every_vault(
    view: VaultSummaryView,
    rows: Seq<RowModel>,
    at: Time,
    row: RowModel,
)
    requires
        summarizes(view, rows, at),
    ensures
        view.total_vaults == rows.len(),
        view.active_vaults == rows.filter(|r: RowModel| r.status == "active"@).len(),
        view.released_vaults == rows.filter(|r: RowModel| r.status == "released"@).len(),
        view.expired_vaults == rows.filter(|r: RowModel| r.status == "expired"@).len(),
        view.last_refreshed_at == at,
        rows.len() > 0 ==> view.avg_check_in_interval.denominator == rows.len(),
        balance_sum(rows.push(row)) == balance_sum(rows) + row.balance,
        interval_sum(rows.push(row)) == interval_sum(rows) + row.check_in_interval,
        balance_sum(Seq::<RowModel>::empty()) == 0,
        interval_sum(Seq::<RowModel>::empty()) == 0,
        view.total_balance == balance_sum(rows),
        view.avg_check_in_interval.numerator == interval_sum(rows),
{
    lemma_counts_filter(rows, "active"@, "active"@);
    lemma_counts_filter(rows, "released"@, "active"@);
    lemma_counts_filter(rows, "expired"@, "active"@);
    assert(rows.push(row).drop_last() =~= rows);
}

/// The owner view counts the vaults of each owner, and the active ones among them; every
/// owner of a vault is listed once, and none comes before one with more vaults.
pub proof fn owners_are_counted(list: Seq<VaultOwnerCount>, rows: Seq<RowModel>, i: int, k: int)
    requires
        counts_owners(list, rows),
        0 <= i < list.len(),
        0 <= k < rows.len(),
    ensures
        list[i].vault_count == rows.filter(|r: RowModel| r.owner == list[i].owner@).len(),
        list[i].active_count == rows.filter(
            |r: RowModel| r.owner == list[i].owner@ && r.status == "active"@,
        ).len(),
        exists|j: int| 0 <= j < list.len() && (#[trigger] list[j]).owner@ == rows[k].owner,
        i > 0 ==> list[i - 1].vault_count >= list[i].vault_count && list[i - 1].owner@
            != list[i].owner@,
{
    let owner = list[i].owner@;
    lemma_counts_filter(rows, owner, owner);
    assert(lists_owner(list, rows[k].owner));
}

/// At first both views are due at once, and they are refreshed every five minutes. A view
/// that is not known is never due.
pub proof fn new_views_are_due_every_five_minutes(at: u128, now: u128, view: Seq<char>)
    ensures
        due(first_schedules(at), "vault_summary_view"@, now) <==> now >= at,
        due(first_schedules(at), "vault_owner_counts_view"@, now) <==> now >= at,
        first_schedules(at)["vault_summary_view"@].interval == 300_000_000_000,
        first_schedules(at)["vault_owner_counts_view"@].interval == 300_000_000_000,
        view != "vault_summary_view"@ && view != "vault_owner_counts_view"@ ==> !due(
            first_schedules(at),
            view,
            now,
        ),
{
    lemma_view_names();
}

/// Refreshing one view leaves the schedule of the other and sets the next refresh of its
/// own by its interval.
pub proof fn refreshes_concern_one_view(
    schedules: Map<Seq<char>, ViewRefreshSchedule>,
    view: Seq<char>,
    other: Seq<char>,
    at: u128,
    now: u128,
)
    requires
        other != view,
    ensures
        due(rescheduled(schedules, view, at), other, now) == due(schedules, other, now),
        schedules.contains_key(view) ==> rescheduled(schedules, view, at)[view].interval
            == schedules[view].interval,
{
}

/// Refreshing the views that are due recomputes exactly those, from the rows, and leaves
/// the others; where the summary is due and cannot be computed nothing changes.
pub proof fn due_views_are_refreshed(
    before: ManagerModel,
    rows: Seq<RowModel>,
    now: u128,
    at: Time,
    ok: bool,
    after: ManagerModel,
)
    requires
        due_views_refreshed(before, rows, now, at, ok, after),
    ensures
        ({
            let summary_due = before.schedules.contains_key("vault_summary_view"@) && now
                >= before.schedules["vault_summary_view"@].next_refresh_at;
            let owners_due = before.schedules.contains_key("vault_owner_counts_view"@) && now
                >= before.schedules["vault_owner_counts_view"@].next_refresh_at;
            &&& !ok <==> summary_due && balance_overflows(rows)
            &&& !ok ==> after == before
            &&& ok && summary_due ==> after.summary is Some && after.summary->0.total_vaults
                == rows.len() && after.summary->0.last_refreshed_at == at
            &&& ok && !summary_due ==> after.summary == before.summary
            &&& ok && owners_due ==> counts_owners(after.owners, rows)
            &&& ok && !owners_due ==> after.owners == before.owners
        }),
{
    lemma_view_names();
}

/// The summary cannot be computed exactly where adding up the balances, row by row, leaves
/// the range of amounts at some row.
pub proof fn balances_overflow_at_a_row(rows: Seq<RowModel>, n: int)
    requires
        0 <= n <= rows.len(),
    ensures
        !(-0x8000_0000_0000_0000_0000_0000_0000_0000 <= balance_sum(rows.take(n))
            <= 0x7FFF_FFFF_FFFF_FFFF_FFFF_FFFF_FFFF_FFFF) ==> balance_overflows(rows),
        !balance_overflows(rows) ==> -0x8000_0000_0000_0000_0000_0000_0000_0000 <= balance_sum(
            rows,
        ) <= 0x7FFF_FFFF_FFFF_FFFF_FFFF_FFFF_FFFF_FFFF,
{
    assert(rows.take(rows.len() as int) =~= rows);
    assert(!balance_overflows(rows) ==> i128::MIN <= balance_sum(rows.take(rows.len() as int))
        <= i128::MAX);
}

} // verus!
