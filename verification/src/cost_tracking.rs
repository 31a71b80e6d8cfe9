//! Operational cost tracking and attribution.
//!
//! Cost entries carry tags (team, vault, region and the like); gas entries
//! record the fees of on-chain operations. Reports gather the amounts to be
//! added up per operation and per tag, budgets are checked against their
//! limits, and operations that dominate the cost are pointed out.
//!
//! Amounts are measured values. A total of amounts is given by the amounts to
//! be added, oldest first; the sums themselves come from the caller, as the
//! rules below need them.

use vstd::prelude::*;

use crate::clock::{utc_now, wall_clock_shows, Time};
use crate::ids::{is_new_id, new_id};
use crate::incidents::{CreateIncidentRequest, IncidentSeverity};
use crate::measure::Measure;
use crate::oncall::TriggerEscalationRequest;
use crate::ordering::{is_stable_order, stable_order};
use crate::table::{Table};
use crate::text::{is_blank, list_contains, push_decimal, quote, quoted, same, text_option, texts, trimmed, decimal};

verus! {

/// A recorded cost, such as that of a database query.
pub struct CostEntry {
    pub id: String,
    pub operation: String,
    /// Attribution tags, such as team and region.
    pub tags: Table<String>,
    /// Cost amount, in units of the currency.
    pub amount: Measure,
    pub currency: String,
    pub recorded_at: Time,
}

/// A request to record a cost.
pub struct RecordCostRequest {
    pub operation: String,
    pub tags: Table<String>,
    pub amount: Measure,
    pub currency: String,
}

/// The currency that applies where none is given.
pub fn default_currency() -> (r: String)
    ensures
        r@ == "USD"@,
{
    "USD".to_owned()
}

/// What a budget measures: the entries of an operation, or those that carry a
/// tag value.
#[derive(Debug, PartialEq, Eq)]
pub enum BudgetScope {
    Operation(String),
    Tag { key: String, value: String },
}

impl Clone for BudgetScope {
    fn clone(&self) -> (r: Self)
        ensures
            r == *self,
    {
        match self {
            BudgetScope::Operation(operation) => BudgetScope::Operation(operation.clone()),
            BudgetScope::Tag { key, value } => BudgetScope::Tag {
                key: key.clone(),
                value: value.clone(),
            },
        }
    }
}

/// The contents of a scope.
pub enum ScopeModel {
    Operation(Seq<char>),
    Tag(Seq<char>, Seq<char>),
}

impl ScopeModel {
    /// The entry belongs to the scope.
    pub open spec fn covers(self, entry: CostEntry) -> bool {
        match self {
            ScopeModel::Operation(operation) => entry.operation@ == operation,
            ScopeModel::Tag(key, value) => entry.tags@.contains_key(key) && entry.tags@[key]@
                == value,
        }
    }
}

impl BudgetScope {
    pub open spec fn view(&self) -> ScopeModel {
        match self {
            BudgetScope::Operation(operation) => ScopeModel::Operation(operation@),
            BudgetScope::Tag { key, value } => ScopeModel::Tag(key@, value@),
        }
    }

    /// The scope in words.
    pub open spec fn text_spec(&self) -> Seq<char> {
        match self {
            BudgetScope::Operation(operation) => "Operation("@ + quoted(operation@) + ")"@,
            BudgetScope::Tag { key, value } => "Tag { key: "@ + quoted(key@) + ", value: "@ + quoted(
                value@,
            ) + " }"@,
        }
    }

    /// The scope in words.
    pub fn text(&self) -> (r: String)
        ensures
            r@ == self.text_spec(),
    {
        match self {
            BudgetScope::Operation(operation) => {
                let mut out = "Operation(".to_owned();
                let name = quote(operation.as_str());
                out.append(name.as_str());
                out.append(")");
                out
            },
            BudgetScope::Tag { key, value } => {
                let mut out = "Tag { key: ".to_owned();
                let key_text = quote(key.as_str());
                out.append(key_text.as_str());
                out.append(", value: ");
                let value_text = quote(value.as_str());
                out.append(value_text.as_str());
                out.append(" }");
                out
            },
        }
    }

    /// Whether an entry belongs to the scope.
    pub fn matches(&self, entry: &CostEntry) -> (r: bool)
        requires
            entry.tags.wf(),
        ensures
            r == self@.covers(*entry),
    {
        match self {
            BudgetScope::Operation(operation) => same(entry.operation.as_str(), operation.as_str()),
            BudgetScope::Tag { key, value } => match entry.tags.get(key.as_str()) {
                Some(v) => same(v.as_str(), value.as_str()),
                None => false,
            },
        }
    }
}

/// The amounts of the entries of a scope, oldest first.
pub open spec fn amounts(entries: Seq<CostEntry>, scope: ScopeModel) -> Seq<Measure>
    decreases entries.len(),
{
    if entries.len() == 0 {
        Seq::empty()
    } else if scope.covers(entries.last()) {
        amounts(entries.drop_last(), scope).push(entries.last().amount)
    } else {
        amounts(entries.drop_last(), scope)
    }
}

/// A cap on a category of cost, reached when the cost in its scope reaches the
/// limit.
#[derive(Debug)]
pub struct BudgetThreshold {
    /// Human-readable name of the category.
    pub category: String,
    pub scope: BudgetScope,
    pub limit: Measure,
}

impl Clone for BudgetThreshold {
    fn clone(&self) -> (r: Self)
        ensures
            r == *self,
    {
        BudgetThreshold {
            category: self.category.clone(),
            scope: self.scope.clone(),
            limit: self.limit,
        }
    }
}

/// A threshold whose limit has been reached.
#[derive(Debug)]
pub struct BudgetBreach {
    pub category: String,
    pub scope: BudgetScope,
    pub limit: Measure,
    pub current_total: Measure,
}

impl BudgetBreach {
    /// This reports that `total` reached the limit of `threshold`.
    pub open spec fn reports(&self, threshold: BudgetThreshold, total: Measure) -> bool {
        &&& self.category == threshold.category
        &&& self.scope == threshold.scope
        &&& self.limit == threshold.limit
        &&& self.current_total == total
    }
}

/// The fee of an on-chain operation.
pub struct GasCostEntry {
    pub id: String,
    /// Logical operation name.
    pub operation: String,
    /// Transaction hash (hex-encoded).
    pub tx_hash: String,
    /// Fee paid, in stroops (ten millionths of an XLM).
    pub fee_stroops: u64,
    /// Ledger sequence number when the transaction was applied.
    pub ledger_sequence: u64,
    pub tags: Table<String>,
    pub recorded_at: Time,
}

/// A request to record a fee.
pub struct RecordGasCostRequest {
    pub operation: String,
    pub tx_hash: String,
    pub fee_stroops: u64,
    pub ledger_sequence: u64,
    pub tags: Table<String>,
}

/// Fee statistics of an operation.
#[derive(Debug, PartialEq, Eq)]
pub struct GasOperationStats {
    pub operation: String,
    pub tx_count: usize,
    pub total_fee_stroops: u64,
    pub avg_fee_stroops: u64,
    pub max_fee_stroops: u64,
    pub min_fee_stroops: u64,
}

impl Clone for GasOperationStats {
    fn clone(&self) -> (r: Self)
        ensures
            r == *self,
    {
        GasOperationStats {
            operation: self.operation.clone(),
            tx_count: self.tx_count,
            total_fee_stroops: self.total_fee_stroops,
            avg_fee_stroops: self.avg_fee_stroops,
            max_fee_stroops: self.max_fee_stroops,
            min_fee_stroops: self.min_fee_stroops,
        }
    }
}

/// The fees of an operation, oldest first.
pub open spec fn fees(entries: Seq<GasCostEntry>, operation: Seq<char>) -> Seq<u64>
    decreases entries.len(),
{
    if entries.len() == 0 {
        Seq::empty()
    } else if entries.last().operation@ == operation {
        fees(entries.drop_last(), operation).push(entries.last().fee_stroops)
    } else {
        fees(entries.drop_last(), operation)
    }
}

/// The sum of fees.
pub open spec fn sum(fees: Seq<u64>) -> nat
    decreases fees.len(),
{
    if fees.len() == 0 {
        0
    } else {
        sum(fees.drop_last()) + fees.last() as nat
    }
}

/// The fees of all entries.
pub open spec fn all_fees(entries: Seq<GasCostEntry>) -> Seq<u64> {
    entries.map_values(|e: GasCostEntry| e.fee_stroops)
}

impl GasOperationStats {
    /// These are the statistics of the fees of its operation.
    pub open spec fn describes(&self, entries: Seq<GasCostEntry>) -> bool {
        let mine = fees(entries, self.operation@);
        &&& mine.len() > 0
        &&& self.tx_count == mine.len()
        &&& self.total_fee_stroops == sum(mine)
        &&& self.avg_fee_stroops == sum(mine) / mine.len()
        &&& mine.contains(self.max_fee_stroops)
        &&& mine.contains(self.min_fee_stroops)
        &&& forall|i: int|
            0 <= i < mine.len() ==> self.min_fee_stroops <= #[trigger] mine[i]
                <= self.max_fee_stroops
    }
}

/// The fees by operation, the most expensive operation first.
#[derive(Debug)]
pub struct GasCostReport {
    pub total_fee_stroops: u64,
    pub tx_count: usize,
    pub by_operation: Vec<GasOperationStats>,
}

/// The names of the operations of statistics.
pub open spec fn stat_names(stats: Seq<GasOperationStats>) -> Seq<Seq<char>> {
    stats.map_values(|s: GasOperationStats| s.operation@)
}

/// The report is that of the entries: the total (capped at the largest `u64`),
/// and one line per operation, by descending total.
pub open spec fn is_gas_report(report: GasCostReport, entries: Seq<GasCostEntry>) -> bool {
    let total = sum(all_fees(entries));
    &&& report.total_fee_stroops == if total > u64::MAX {
        u64::MAX as nat
    } else {
        total
    }
    &&& report.tx_count == entries.len()
    &&& stat_names(report.by_operation@).no_duplicates()
    &&& forall|operation: Seq<char>| #[trigger]
        stat_names(report.by_operation@).contains(operation) <==> exists|i: int|
            0 <= i < entries.len() && (#[trigger] entries[i]).operation@ == operation
    &&& forall|i: int|
        0 <= i < report.by_operation.len() ==> (#[trigger] report.by_operation[i]).describes(entries)
    &&& forall|i: int, j: int|
        0 <= i < j < report.by_operation.len() ==> (#[trigger] report.by_operation[i]).total_fee_stroops
            >= (#[trigger] report.by_operation[j]).total_fee_stroops
}

proof fn lemma_fees_bound(entries: Seq<GasCostEntry>, operation: Seq<char>)
    ensures
        fees(entries, operation).len() <= entries.len(),
        fees(entries, operation).len() > 0 <==> exists|i: int|
            0 <= i < entries.len() && (#[trigger] entries[i]).operation@ == operation,
    decreases entries.len(),
{
    if entries.len() > 0 {
        let rest = entries.drop_last();
        lemma_fees_bound(rest, operation);
        assert(entries[entries.len() - 1] == entries.last());
        if exists|i: int| 0 <= i < rest.len() && (#[trigger] rest[i]).operation@ == operation {
            let i = choose|i: int| 0 <= i < rest.len() && (#[trigger] rest[i]).operation@ == operation;
            assert(entries[i] == rest[i]);
        }
        if exists|i: int| 0 <= i < entries.len() && (#[trigger] entries[i]).operation@ == operation {
            let i = choose|i: int|
                0 <= i < entries.len() && (#[trigger] entries[i]).operation@ == operation;
            if i < rest.len() {
                assert(rest[i] == entries[i]);
            }
        }
    }
}

/// The cost entries, budgets and gas entries.
pub struct CostState {
    pub entries: Vec<CostEntry>,
    pub thresholds: Vec<BudgetThreshold>,
    pub gas_entries: Vec<GasCostEntry>,
}

/// The categories of budgets.
pub open spec fn categories(thresholds: Seq<BudgetThreshold>) -> Seq<Seq<char>> {
    thresholds.map_values(|t: BudgetThreshold| t.category@)
}

impl CostState {
    /// The tags of every entry are well formed, and no two budgets have the
    /// same category.
    pub open spec fn wf(&self) -> bool {
        &&& forall|i: int| 0 <= i < self.entries.len() ==> (#[trigger] self.entries[i]).tags.wf()
        &&& categories(self.thresholds@).no_duplicates()
    }

    pub fn new() -> (r: Self)
        ensures
            r.wf(),
            r.entries@ == Seq::<CostEntry>::empty(),
            r.thresholds@ == Seq::<BudgetThreshold>::empty(),
            r.gas_entries@ == Seq::<GasCostEntry>::empty(),
    {
        CostState { entries: Vec::new(), thresholds: Vec::new(), gas_entries: Vec::new() }
    }

    /// Records a cost.
    pub fn record(&mut self, entry: CostEntry)
        requires
            old(self).wf(),
            entry.tags.wf(),
        ensures
            final(self).wf(),
            final(self).entries@ == old(self).entries@.push(entry),
            final(self).thresholds == old(self).thresholds,
            final(self).gas_entries == old(self).gas_entries,
    {
        self.entries.push(entry);
    }

    /// All recorded costs.
    pub fn snapshot(&self) -> (r: &Vec<CostEntry>)
        ensures
            *r == self.entries,
    {
        &self.entries
    }

    /// Records a fee.
    pub fn record_gas(&mut self, entry: GasCostEntry)
        requires
            old(self).wf(),
        ensures
            final(self).wf(),
            final(self).entries == old(self).entries,
            final(self).thresholds == old(self).thresholds,
            final(self).gas_entries@ == old(self).gas_entries@.push(entry),
    {
        self.gas_entries.push(entry);
    }

    /// All recorded fees.
    pub fn gas_snapshot(&self) -> (r: &Vec<GasCostEntry>)
        ensures
            *r == self.gas_entries,
    {
        &self.gas_entries
    }

    /// The fee statistics of an operation.
    fn operation_stats(&self, operation: &str) -> (r: GasOperationStats)
        requires
            fees(self.gas_entries@, operation@).len() > 0,
            sum(fees(self.gas_entries@, operation@)) <= u64::MAX,
        ensures
            r.operation@ == operation@,
            r.describes(self.gas_entries@),
    {
        let ghost entries = self.gas_entries@;
        let mut count: usize = 0;
        let mut total: u64 = 0;
        let mut max: u64 = 0;
        let mut min: u64 = 0;
        let mut i: usize = 0;
        assert(entries.take(0) =~= Seq::empty());
        while i < self.gas_entries.len()
            invariant
                i <= self.gas_entries.len(),
                entries == self.gas_entries@,
                sum(fees(entries, operation@)) <= u64::MAX,
                ({
                    let mine = fees(entries.take(i as int), operation@);
                    &&& count == mine.len()
                    &&& count <= i
                    &&& total == sum(mine)
                    &&& mine.len() > 0 ==> mine.contains(max) && mine.contains(min)
                    &&& forall|j: int| 0 <= j < mine.len() ==> min <= #[trigger] mine[j] <= max
                }),
            decreases self.gas_entries.len() - i,
        {
            let entry = &self.gas_entries[i];
            let ghost before = fees(entries.take(i as int), operation@);
            proof {
                assert(entries.take(i + 1).drop_last() =~= entries.take(i as int));
                assert(entries.take(i + 1).last() == entry);
                lemma_sum_prefix(entries, operation@, i + 1);
            }
            if same(entry.operation.as_str(), operation) {
                let fee = entry.fee_stroops;
                if count == 0 || fee > max {
                    max = fee;
                }
                if count == 0 || fee < min {
                    min = fee;
                }
                count = count + 1;
                assert(before.push(fee).drop_last() =~= before);
                total = total + fee;
                proof {
                    let after = before.push(fee);
                    assert(after[before.len() as int] == fee);
                    assert forall|x: u64| before.contains(x) implies after.contains(x) by {
                        assert(after[before.index_of(x)] == x);
                    }
                }
            }
            i = i + 1;
        }
        assert(entries.take(i as int) =~= entries);
        GasOperationStats {
            operation: operation.to_owned(),
            tx_count: count,
            total_fee_stroops: total,
            avg_fee_stroops: (total as u128 / count as u128) as u64,
            max_fee_stroops: max,
            min_fee_stroops: min,
        }
    }

    /// The fees by operation, the most expensive operation first.
    pub fn gas_report(&self) -> (r: GasCostReport)
        requires
            forall|operation: Seq<char>| #[trigger]
                sum(fees(self.gas_entries@, operation)) <= u64::MAX,
        ensures
            is_gas_report(r, self.gas_entries@),
    {
        let ghost entries = self.gas_entries@;
        let mut total: u64 = 0;
        let mut names: Vec<String> = Vec::new();
        let mut stats: Vec<GasOperationStats> = Vec::new();
        let mut totals: Vec<i128> = Vec::new();
        let mut i: usize = 0;
        assert(all_fees(entries).take(0) =~= Seq::empty());
        while i < self.gas_entries.len()
            invariant
                i <= self.gas_entries.len(),
                entries == self.gas_entries@,
                forall|operation: Seq<char>| #[trigger] sum(fees(entries, operation)) <= u64::MAX,
                total == if sum(all_fees(entries).take(i as int)) > u64::MAX {
                    u64::MAX as nat
                } else {
                    sum(all_fees(entries).take(i as int))
                },
                texts(names@) == stat_names(stats@),
                names.len() == stats.len(),
                totals.len() == stats.len(),
                texts(names@).no_duplicates(),
                forall|j: int|
                    0 <= j < stats.len() ==> (#[trigger] stats[j]).describes(entries) && totals[j]
                        == stats[j].total_fee_stroops,
                forall|operation: Seq<char>| #[trigger]
                    texts(names@).contains(operation) <==> exists|j: int|
                        0 <= j < i && (#[trigger] entries[j]).operation@ == operation,
            decreases self.gas_entries.len() - i,
        {
            let entry = &self.gas_entries[i];
            let ghost earlier = texts(names@);
            proof {
                let whole = all_fees(entries);
                assert(whole.take(i + 1).drop_last() =~= whole.take(i as int));
                assert(whole.take(i + 1).last() == entry.fee_stroops);
                lemma_fees_bound(entries, entry.operation@);
                assert(entries[i as int].operation@ == entry.operation@);
            }
            total = total.saturating_add(entry.fee_stroops);
            if !list_contains(&names, entry.operation.as_str()) {
                let stat = self.operation_stats(entry.operation.as_str());
                totals.push(stat.total_fee_stroops as i128);
                stats.push(stat);
                names.push(entry.operation.clone());
                assert(texts(names@) =~= earlier.push(entry.operation@));
                assert(stat_names(stats@) =~= earlier.push(entry.operation@));
            }
            proof {
                assert forall|operation: Seq<char>| #[trigger] texts(names@).contains(operation)
                    <==> exists|j: int|
                    0 <= j < i + 1 && (#[trigger] entries[j]).operation@ == operation by {
                    if earlier.contains(operation) {
                        let x = earlier.index_of(operation);
                        assert(texts(names@)[x] == operation);
                        let j = choose|j: int|
                            0 <= j < i && (#[trigger] entries[j]).operation@ == operation;
                        assert(entries[j].operation@ == operation);
                    }
                    if operation == entry.operation@ {
                        if !earlier.contains(operation) {
                            assert(texts(names@)[earlier.len() as int] == operation);
                        }
                    }
                    if texts(names@).contains(operation) && !earlier.contains(operation) {
                        let x = texts(names@).index_of(operation);
                        assert(x == earlier.len());
                    }
                    if exists|j: int|
                        0 <= j < i + 1 && (#[trigger] entries[j]).operation@ == operation {
                        let j = choose|j: int|
                            0 <= j < i + 1 && (#[trigger] entries[j]).operation@ == operation;
                        if j < i {
                            assert(earlier.contains(operation));
                        }
                    }
                }
            }
            i = i + 1;
        }
        assert(all_fees(entries).take(i as int) =~= all_fees(entries));
        let order = stable_order(&totals, true);
        let mut by_operation: Vec<GasOperationStats> = Vec::new();
        let mut k: usize = 0;
        while k < order.len()
            invariant
                k <= order.len(),
                order.len() == stats.len(),
                totals.len() == stats.len(),
                is_stable_order(totals@, true, order@),
                by_operation.len() == k,
                forall|j: int| 0 <= j < k ==> (#[trigger] by_operation[j]) == stats[order[j] as int],
            decreases order.len() - k,
        {
            by_operation.push(stats[order[k]].clone());
            k = k + 1;
        }
        proof {
            let sorted = stat_names(by_operation@);
            let plain = stat_names(stats@);
            assert forall|a: int, b: int| 0 <= a < b < sorted.len() implies sorted[a] != sorted[b] by {
                assert(sorted[a] == plain[order[a] as int]);
                assert(sorted[b] == plain[order[b] as int]);
                assert(order@.no_duplicates());
                assert(order[a] != order[b]);
            }
            crate::ordering::lemma_covers(order@, stats@.len());
            assert forall|operation: Seq<char>| #[trigger] sorted.contains(operation)
                <==> plain.contains(operation) by {
                if sorted.contains(operation) {
                    let a = sorted.index_of(operation);
                    assert(plain[order[a] as int] == operation);
                }
                if plain.contains(operation) {
                    let x = plain.index_of(operation);
                    assert(order@.contains(x as usize));
                    let a = order@.index_of(x as usize);
                    assert(sorted[a] == operation);
                }
            }
            assert forall|a: int, b: int| 0 <= a < b < by_operation.len() implies (
            #[trigger] by_operation[a]).total_fee_stroops >= (
            #[trigger] by_operation[b]).total_fee_stroops by {
                assert(crate::ordering::precedes(totals@, true, order[a], order[b]));
                assert(stats[order[a] as int].describes(entries));
                assert(stats[order[b] as int].describes(entries));
            }
            assert forall|a: int| 0 <= a < by_operation.len() implies (#[trigger] by_operation[a]).describes(
                entries,
            ) by {
                assert(stats[order[a] as int].describes(entries));
            }
        }
        GasCostReport { total_fee_stroops: total, tx_count: self.gas_entries.len(), by_operation }
    }
}

/// The fees of an operation among the first entries add up to no more than
/// all of them.
proof fn lemma_sum_prefix(entries: Seq<GasCostEntry>, operation: Seq<char>, n: int)
    requires
        0 <= n <= entries.len(),
    ensures
        sum(fees(entries.take(n), operation)) <= sum(fees(entries, operation)),
        fees(entries.take(n), operation).len() <= fees(entries, operation).len(),
    decreases entries.len() - n,
{
    if n == entries.len() {
        assert(entries.take(n) =~= entries);
    } else {
        lemma_sum_prefix(entries, operation, n + 1);
        assert(entries.take(n + 1).drop_last() =~= entries.take(n));
        let before = fees(entries.take(n), operation);
        let next = entries.take(n + 1).last();
        if next.operation@ == operation {
            assert(before.push(next.fee_stroops).drop_last() =~= before);
        }
    }
}

/// The amounts of all entries.
pub open spec fn all_amounts(entries: Seq<CostEntry>) -> Seq<Measure> {
    entries.map_values(|e: CostEntry| e.amount)
}

/// An entry has the operation `operation`.
pub open spec fn has_operation(entries: Seq<CostEntry>, operation: Seq<char>) -> bool {
    exists|i: int| 0 <= i < entries.len() && (#[trigger] entries[i]).operation@ == operation
}

/// An entry carries the tag `key`.
pub open spec fn has_tag(entries: Seq<CostEntry>, key: Seq<char>) -> bool {
    exists|i: int| 0 <= i < entries.len() && (#[trigger] entries[i]).tags@.contains_key(key)
}

/// An entry carries the tag `key` with the value `value`.
pub open spec fn has_tag_value(entries: Seq<CostEntry>, key: Seq<char>, value: Seq<char>) -> bool {
    exists|i: int|
        0 <= i < entries.len() && ScopeModel::Tag(key, value).covers(#[trigger] entries[i])
}

/// The amounts to be added up, for all entries, per operation, and per tag and
/// value.
pub struct CostReport {
    pub total_amount: Vec<Measure>,
    pub currency: String,
    pub entry_count: usize,
    pub by_operation: Table<Vec<Measure>>,
    pub by_tag: Table<Table<Vec<Measure>>>,
}

/// Each operation of the entries with its amounts.
pub open spec fn grouped_by_operation(
    table: Table<Vec<Measure>>,
    entries: Seq<CostEntry>,
) -> bool {
    &&& table.wf()
    &&& forall|k: Seq<char>| #[trigger] table@.contains_key(k) <==> has_operation(entries, k)
    &&& forall|k: Seq<char>| #[trigger]
        table@.contains_key(k) ==> table@[k]@ == amounts(entries, ScopeModel::Operation(k))
}

/// Each value of a tag with the amounts of the entries that carry it.
pub open spec fn grouped_by_value(
    table: Table<Vec<Measure>>,
    entries: Seq<CostEntry>,
    key: Seq<char>,
) -> bool {
    &&& table.wf()
    &&& forall|v: Seq<char>| #[trigger] table@.contains_key(v) <==> has_tag_value(entries, key, v)
    &&& forall|v: Seq<char>| #[trigger]
        table@.contains_key(v) ==> table@[v]@ == amounts(entries, ScopeModel::Tag(key, v))
}

/// Each tag of the entries with its values and their amounts.
pub open spec fn grouped_by_tag(
    table: Table<Table<Vec<Measure>>>,
    entries: Seq<CostEntry>,
) -> bool {
    &&& table.wf()
    &&& forall|k: Seq<char>| #[trigger] table@.contains_key(k) <==> has_tag(entries, k)
    &&& forall|k: Seq<char>| #[trigger]
        table@.contains_key(k) ==> grouped_by_value(table@[k], entries, k)
}

/// The shares by which a cost is allocated: for each value of a tag the
/// amounts recorded under it.
pub struct CostAllocation {
    pub tag_key: String,
    pub shares: Table<Vec<Measure>>,
}

impl CostState {
    /// The amounts of the entries of a scope, oldest first.
    pub fn amounts_of(&self, scope: &BudgetScope) -> (r: Vec<Measure>)
        requires
            self.wf(),
        ensures
            r@ == amounts(self.entries@, scope@),
    {
        let mut out: Vec<Measure> = Vec::new();
        let mut i: usize = 0;
        assert(self.entries@.take(0) =~= Seq::empty());
        while i < self.entries.len()
            invariant
                i <= self.entries.len(),
                self.wf(),
                out@ == amounts(self.entries@.take(i as int), scope@),
            decreases self.entries.len() - i,
        {
            proof {
                assert(self.entries@.take(i + 1).drop_last() =~= self.entries@.take(i as int));
                assert(self.entries@.take(i + 1).last() == self.entries[i as int]);
            }
            if scope.matches(&self.entries[i]) {
                out.push(self.entries[i].amount);
            }
            i = i + 1;
        }
        assert(self.entries@.take(i as int) =~= self.entries@);
        out
    }

    fn group_by_operation(&self) -> (r: Table<Vec<Measure>>)
        requires
            self.wf(),
        ensures
            grouped_by_operation(r, self.entries@),
    {
        let mut table: Table<Vec<Measure>> = Table::new();
        let ghost entries = self.entries@;
        let mut i: usize = 0;
        while i < self.entries.len()
            invariant
                i <= self.entries.len(),
                self.wf(),
                entries == self.entries@,
                table.wf(),
                forall|k: Seq<char>| #[trigger]
                    table@.contains_key(k) <==> exists|j: int|
                        0 <= j < i && (#[trigger] entries[j]).operation@ == k,
                forall|k: Seq<char>| #[trigger]
                    table@.contains_key(k) ==> table@[k]@ == amounts(
                        entries,
                        ScopeModel::Operation(k),
                    ),
            decreases self.entries.len() - i,
        {
            let operation = self.entries[i].operation.clone();
            let ghost before = table@;
            if !table.contains(operation.as_str()) {
                let list = self.amounts_of(&BudgetScope::Operation(operation.clone()));
                let _none = table.insert(operation, list);
            }
            proof {
                assert forall|k: Seq<char>| #[trigger] table@.contains_key(k) <==> exists|j: int|
                    0 <= j < i + 1 && (#[trigger] entries[j]).operation@ == k by {
                    assert(entries[i as int].operation@ == operation@);
                    if before.contains_key(k) {
                        let j = choose|j: int| 0 <= j < i && (#[trigger] entries[j]).operation@ == k;
                        assert(entries[j].operation@ == k);
                    }
                    if exists|j: int| 0 <= j < i + 1 && (#[trigger] entries[j]).operation@ == k {
                        let j = choose|j: int|
                            0 <= j < i + 1 && (#[trigger] entries[j]).operation@ == k;
                        if j < i {
                            assert(before.contains_key(k));
                        }
                    }
                }
            }
            i = i + 1;
        }
        table
    }

    /// Each value of a tag with the amounts of the entries that carry it.
    fn group_by_value(&self, key: &str) -> (r: Table<Vec<Measure>>)
        requires
            self.wf(),
        ensures
            grouped_by_value(r, self.entries@, key@),
    {
        let mut table: Table<Vec<Measure>> = Table::new();
        let ghost entries = self.entries@;
        let mut i: usize = 0;
        while i < self.entries.len()
            invariant
                i <= self.entries.len(),
                self.wf(),
                entries == self.entries@,
                table.wf(),
                forall|v: Seq<char>| #[trigger]
                    table@.contains_key(v) <==> exists|j: int|
                        0 <= j < i && ScopeModel::Tag(key@, v).covers(#[trigger] entries[j]),
                forall|v: Seq<char>| #[trigger]
                    table@.contains_key(v) ==> table@[v]@ == amounts(
                        entries,
                        ScopeModel::Tag(key@, v),
                    ),
            decreases self.entries.len() - i,
        {
            let ghost before = table@;
            if let Some(value) = self.entries[i].tags.get(key) {
                if !table.contains(value.as_str()) {
                    let scope = BudgetScope::Tag { key: key.to_owned(), value: value.clone() };
                    let list = self.amounts_of(&scope);
                    let _none = table.insert(value.clone(), list);
                }
            }
            proof {
                let entry = entries[i as int];
                assert forall|v: Seq<char>| #[trigger] table@.contains_key(v) <==> exists|j: int|
                    0 <= j < i + 1 && ScopeModel::Tag(key@, v).covers(#[trigger] entries[j]) by {
                    if before.contains_key(v) {
                        let j = choose|j: int|
                            0 <= j < i && ScopeModel::Tag(key@, v).covers(#[trigger] entries[j]);
                        assert(ScopeModel::Tag(key@, v).covers(entries[j]));
                    }
                    if entry.tags@.contains_key(key@) && entry.tags@[key@]@ == v {
                        assert(ScopeModel::Tag(key@, v).covers(entries[i as int]));
                    }
                    if exists|j: int|
                        0 <= j < i + 1 && ScopeModel::Tag(key@, v).covers(#[trigger] entries[j]) {
                        let j = choose|j: int|
                            0 <= j < i + 1 && ScopeModel::Tag(key@, v).covers(#[trigger] entries[j]);
                        if j < i {
                            assert(before.contains_key(v));
                        }
                    }
                }
            }
            i = i + 1;
        }
        table
    }

    fn group_by_tag(&self) -> (r: Table<Table<Vec<Measure>>>)
        requires
            self.wf(),
        ensures
            grouped_by_tag(r, self.entries@),
    {
        let mut table: Table<Table<Vec<Measure>>> = Table::new();
        let ghost entries = self.entries@;
        let mut i: usize = 0;
        while i < self.entries.len()
            invariant
                i <= self.entries.len(),
                self.wf(),
                entries == self.entries@,
                table.wf(),
                forall|k: Seq<char>| #[trigger]
                    table@.contains_key(k) <==> exists|j: int|
                        0 <= j < i && (#[trigger] entries[j]).tags@.contains_key(k),
                forall|k: Seq<char>| #[trigger]
                    table@.contains_key(k) ==> grouped_by_value(table@[k], entries, k),
            decreases self.entries.len() - i,
        {
            let ghost before = table@;
            let ghost tags = entries[i as int].tags;
            let n = self.entries[i].tags.len();
            let mut t: usize = 0;
            while t < n
                invariant
                    i < self.entries.len(),
                    self.wf(),
                    entries == self.entries@,
                    tags == entries[i as int].tags,
                    tags.wf(),
                    t <= n,
                    n == tags.keys().len(),
                    table.wf(),
                    forall|k: Seq<char>| #[trigger]
                        table@.contains_key(k) <==> before.contains_key(k) || tags.keys().take(
                            t as int,
                        ).contains(k),
                    forall|k: Seq<char>| #[trigger]
                        table@.contains_key(k) ==> grouped_by_value(table@[k], entries, k),
                decreases n - t,
            {
                let key = self.entries[i].tags.key_at(t).to_owned();
                let ghost earlier = table@;
                if !table.contains(key.as_str()) {
                    let group = self.group_by_value(key.as_str());
                    let _none = table.insert(key, group);
                }
                proof {
                    let seen = tags.keys().take(t as int);
                    let next = tags.keys().take(t + 1);
                    assert forall|k: Seq<char>| #[trigger] table@.contains_key(k)
                        <==> before.contains_key(k) || next.contains(k) by {
                        if seen.contains(k) {
                            assert(next[seen.index_of(k)] == k);
                        }
                        if k == key@ {
                            assert(next[t as int] == k);
                        }
                        if next.contains(k) && k != key@ {
                            let x = next.index_of(k);
                            assert(seen[x] == k);
                        }
                    }
                }
                t = t + 1;
            }
            proof {
                assert(tags.keys().take(n as int) =~= tags.keys());
                assert forall|k: Seq<char>| #[trigger] table@.contains_key(k) <==> exists|j: int|
                    0 <= j < i + 1 && (#[trigger] entries[j]).tags@.contains_key(k) by {
                    if before.contains_key(k) {
                        let j = choose|j: int|
                            0 <= j < i && (#[trigger] entries[j]).tags@.contains_key(k);
                        assert(entries[j].tags@.contains_key(k));
                    }
                    if tags.keys().contains(k) {
                        assert(entries[i as int].tags@.contains_key(k));
                    }
                    if exists|j: int|
                        0 <= j < i + 1 && (#[trigger] entries[j]).tags@.contains_key(k) {
                        let j = choose|j: int|
                            0 <= j < i + 1 && (#[trigger] entries[j]).tags@.contains_key(k);
                        if j < i {
                            assert(before.contains_key(k));
                        }
                    }
                }
            }
            i = i + 1;
        }
        table
    }

    /// The amounts to be added up, for all entries, per operation, and per tag
    /// and value, in the currency of the first entry.
    pub fn report(&self) -> (r: CostReport)
        requires
            self.wf(),
        ensures
            r.total_amount@ == all_amounts(self.entries@),
            r.currency@ == if self.entries.len() > 0 {
                self.entries[0].currency@
            } else {
                "USD"@
            },
            r.entry_count == self.entries.len(),
            grouped_by_operation(r.by_operation, self.entries@),
            grouped_by_tag(r.by_tag, self.entries@),
    {
        let mut total_amount: Vec<Measure> = Vec::new();
        let mut i: usize = 0;
        while i < self.entries.len()
            invariant
                i <= self.entries.len(),
                total_amount@ == all_amounts(self.entries@).take(i as int),
            decreases self.entries.len() - i,
        {
            total_amount.push(self.entries[i].amount);
            i = i + 1;
            assert(total_amount@ =~= all_amounts(self.entries@).take(i as int));
        }
        assert(total_amount@ =~= all_amounts(self.entries@));
        CostReport {
            total_amount,
            currency: if self.entries.len() > 0 {
                self.entries[0].currency.clone()
            } else {
                default_currency()
            },
            entry_count: self.entries.len(),
            by_operation: self.group_by_operation(),
            by_tag: self.group_by_tag(),
        }
    }

    /// The shares by which a cost is allocated across the values of a tag:
    /// proportional to the amounts recorded under each value. Without such
    /// entries there are none.
    pub fn allocate(&self, tag_key: &str) -> (r: CostAllocation)
        requires
            self.wf(),
        ensures
            r.tag_key@ == tag_key@,
            grouped_by_value(r.shares, self.entries@, tag_key@),
    {
        CostAllocation { tag_key: tag_key.to_owned(), shares: self.group_by_value(tag_key) }
    }

    /// Configures a budget; one of the same category is replaced.
    pub fn set_budget_threshold(&mut self, threshold: BudgetThreshold)
        requires
            old(self).wf(),
        ensures
            final(self).wf(),
            final(self).entries == old(self).entries,
            final(self).gas_entries == old(self).gas_entries,
            final(self).thresholds@ == other_categories(
                old(self).thresholds@,
                threshold.category@,
            ).push(threshold),
    {
        let ghost before = self.thresholds@;
        let mut kept: Vec<BudgetThreshold> = Vec::new();
        let mut i: usize = 0;
        assert(before.take(0) =~= Seq::empty());
        while i < self.thresholds.len()
            invariant
                i <= self.thresholds.len(),
                before == self.thresholds@,
                kept@ == other_categories(before.take(i as int), threshold.category@),
            decreases self.thresholds.len() - i,
        {
            proof {
                assert(before.take(i + 1).drop_last() =~= before.take(i as int));
                assert(before.take(i + 1).last() == before[i as int]);
            }
            if !same(self.thresholds[i].category.as_str(), threshold.category.as_str()) {
                kept.push(self.thresholds[i].clone());
            }
            i = i + 1;
        }
        proof {
            assert(before.take(i as int) =~= before);
            lemma_other_categories(before, threshold.category@);
            let names = categories(kept@);
            assert(categories(kept@.push(threshold)) =~= names.push(threshold.category@));
        }
        kept.push(threshold);
        self.thresholds = kept;
    }

    /// The configured budgets.
    pub fn budget_thresholds(&self) -> (r: &Vec<BudgetThreshold>)
        ensures
            *r == self.thresholds,
    {
        &self.thresholds
    }

    /// For each budget the amounts to be added up and held against its limit.
    pub fn budget_amounts(&self) -> (r: Vec<Vec<Measure>>)
        requires
            self.wf(),
        ensures
            r.len() == self.thresholds.len(),
            forall|i: int|
                0 <= i < r.len() ==> (#[trigger] r[i])@ == amounts(
                    self.entries@,
                    self.thresholds[i].scope@,
                ),
    {
        let mut out: Vec<Vec<Measure>> = Vec::new();
        let mut i: usize = 0;
        while i < self.thresholds.len()
            invariant
                i <= self.thresholds.len(),
                self.wf(),
                out.len() == i,
                forall|j: int|
                    0 <= j < i ==> (#[trigger] out[j])@ == amounts(
                        self.entries@,
                        self.thresholds[j].scope@,
                    ),
            decreases self.thresholds.len() - i,
        {
            let list = self.amounts_of(&self.thresholds[i].scope);
            out.push(list);
            i = i + 1;
        }
        out
    }

    /// The budgets whose total, given in their order, reaches their limit.
    pub fn check_budget_breaches(&self, totals: &Vec<Measure>) -> (r: Vec<BudgetBreach>)
        requires
            totals.len() == self.thresholds.len(),
        ensures
            are_breaches(r@, self.thresholds@, totals@),
    {
        let mut out: Vec<BudgetBreach> = Vec::new();
        let mut i: usize = 0;
        while i < self.thresholds.len()
            invariant
                i <= self.thresholds.len(),
                totals.len() == self.thresholds.len(),
                out.len() == breached(self.thresholds@, totals@, i as int).len(),
                forall|j: int|
                    0 <= j < out.len() ==> {
                        let at = breached(self.thresholds@, totals@, i as int)[j];
                        (#[trigger] out[j]).reports(self.thresholds[at], totals[at])
                    },
            decreases self.thresholds.len() - i,
        {
            let threshold = &self.thresholds[i];
            let ghost earlier = breached(self.thresholds@, totals@, i as int);
            let ghost listed = out@;
            if totals[i].ge(&threshold.limit) {
                out.push(
                    BudgetBreach {
                        category: threshold.category.clone(),
                        scope: threshold.scope.clone(),
                        limit: threshold.limit,
                        current_total: totals[i],
                    },
                );
            }
            proof {
                let now = breached(self.thresholds@, totals@, i + 1);
                assert forall|j: int| 0 <= j < out.len() implies (#[trigger] out[j]).reports(
                    self.thresholds[now[j]],
                    totals[now[j]],
                ) by {
                    if j < listed.len() {
                        assert(out[j] == listed[j]);
                        assert(now[j] == earlier[j]);
                    }
                }
            }
            i = i + 1;
        }
        out
    }
}

/// The budgets of other categories, in their order.
pub open spec fn other_categories(thresholds: Seq<BudgetThreshold>, category: Seq<char>) -> Seq<
    BudgetThreshold,
>
    decreases thresholds.len(),
{
    if thresholds.len() == 0 {
        Seq::empty()
    } else if thresholds.last().category@ != category {
        other_categories(thresholds.drop_last(), category).push(thresholds.last())
    } else {
        other_categories(thresholds.drop_last(), category)
    }
}

proof fn lemma_other_categories(thresholds: Seq<BudgetThreshold>, category: Seq<char>)
    requires
        categories(thresholds).no_duplicates(),
    ensures
        categories(other_categories(thresholds, category)).no_duplicates(),
        !categories(other_categories(thresholds, category)).contains(category),
        forall|k: Seq<char>| #[trigger]
            categories(other_categories(thresholds, category)).contains(k) ==> categories(
                thresholds,
            ).contains(k),
    decreases thresholds.len(),
{
    if thresholds.len() > 0 {
        let rest = thresholds.drop_last();
        let names = categories(thresholds);
        assert(categories(rest) =~= names.drop_last());
        assert(categories(rest).no_duplicates());
        lemma_other_categories(rest, category);
        let kept = other_categories(rest, category);
        let now = other_categories(thresholds, category);
        let last = thresholds.last().category@;
        assert forall|k: Seq<char>| #[trigger] categories(rest).contains(k) implies names.contains(k) by {
            assert(names[categories(rest).index_of(k)] == k);
        }
        assert(names[names.len() - 1] == last);
        if last != category {
            assert(categories(now) =~= categories(kept).push(last));
            assert(!categories(kept).contains(last)) by {
                if categories(kept).contains(last) {
                    assert(categories(rest).contains(last));
                    let x = categories(rest).index_of(last);
                    assert(names[x] == last);
                }
            }
            assert forall|k: Seq<char>| #[trigger] categories(now).contains(k) implies names.contains(k)
                && k != category by {
                if k != last {
                    let x = categories(now).index_of(k);
                    assert(categories(kept)[x] == k);
                    assert(categories(kept).contains(k));
                }
            }
        }
    }
}

/// The places, among the first `n` budgets, of those whose total reaches their
/// limit.
pub open spec fn breached(thresholds: Seq<BudgetThreshold>, totals: Seq<Measure>, n: int) -> Seq<int>
    decreases n,
{
    if n <= 0 {
        Seq::empty()
    } else if totals[n - 1].ge_spec(thresholds[n - 1].limit) {
        breached(thresholds, totals, n - 1).push(n - 1)
    } else {
        breached(thresholds, totals, n - 1)
    }
}

/// The breaches are those of the budgets whose total reaches their limit, in
/// the order of the budgets.
pub open spec fn are_breaches(
    breaches: Seq<BudgetBreach>,
    thresholds: Seq<BudgetThreshold>,
    totals: Seq<Measure>,
) -> bool {
    let places = breached(thresholds, totals, thresholds.len() as int);
    &&& breaches.len() == places.len()
    &&& forall|j: int|
        0 <= j < breaches.len() ==> (#[trigger] breaches[j]).reports(
            thresholds[places[j]],
            totals[places[j]],
        )
}

impl Default for CostState {
    fn default() -> (r: Self)
        ensures
            r.wf(),
            r.entries@ == Seq::<CostEntry>::empty(),
            r.thresholds@ == Seq::<BudgetThreshold>::empty(),
            r.gas_entries@ == Seq::<GasCostEntry>::empty(),
    {
        CostState::new()
    }
}

/// Zero, as IEEE-754 bits.
pub const ZERO: u64 = 0;

/// One half, as IEEE-754 bits.
pub const ONE_HALF: u64 = 0x3FE0_0000_0000_0000;

/// One fifth, as IEEE-754 bits.
pub const ONE_FIFTH: u64 = 0x3FC9_9999_9999_999A;

/// The total of an operation and its fraction of the total of all.
#[derive(Debug)]
pub struct OperationShare {
    pub operation: String,
    pub total: Measure,
    pub fraction: Measure,
}

/// The sums of a report: the total of all entries, and each operation's share.
#[derive(Debug)]
pub struct FiatTotals {
    pub total_amount: Measure,
    pub operations: Vec<OperationShare>,
}

/// Severity of an optimization suggestion.
#[derive(Debug, Clone, Copy, PartialEq, Eq, Structural)]
pub enum OptimizationSeverity {
    /// Potential saving of more than 30% of the total cost.
    High,
    /// Potential saving of 10 to 30%.
    Medium,
    /// Potential saving of less than 10%, or informational.
    Low,
}

/// What was found in the recorded costs and fees.
#[derive(Debug)]
pub enum Finding {
    /// An operation makes up more than half of the cost.
    DominatesCost { operation: String, fraction: Measure, operation_total: Measure, total: Measure },
    /// An operation makes up more than half of the fees.
    DominatesGas { operation: String, operation_total: u64, total: u64 },
    /// A budget has been reached.
    BudgetReached { category: String, current_total: Measure, limit: Measure },
    /// An operation makes up more than a fifth of the cost and has no fees recorded.
    NoGasData { operation: String, fraction: Measure },
}

/// The contents of a finding.
pub enum FindingModel {
    DominatesCost {
        operation: Seq<char>,
        fraction: Measure,
        operation_total: Measure,
        total: Measure,
    },
    DominatesGas { operation: Seq<char>, operation_total: u64, total: u64 },
    BudgetReached { category: Seq<char>, current_total: Measure, limit: Measure },
    NoGasData { operation: Seq<char>, fraction: Measure },
}

impl FindingModel {
    pub open spec fn severity(self) -> OptimizationSeverity {
        match self {
            FindingModel::DominatesCost { .. } => OptimizationSeverity::High,
            FindingModel::DominatesGas { .. } => OptimizationSeverity::High,
            FindingModel::BudgetReached { .. } => OptimizationSeverity::Medium,
            FindingModel::NoGasData { .. } => OptimizationSeverity::Low,
        }
    }

    /// The operation or category that the finding is about.
    pub open spec fn subject(self) -> Seq<char> {
        match self {
            FindingModel::DominatesCost { operation, .. } => operation,
            FindingModel::DominatesGas { operation, .. } => operation,
            FindingModel::BudgetReached { category, .. } => category,
            FindingModel::NoGasData { operation, .. } => operation,
        }
    }

    pub open spec fn title(self) -> Seq<char> {
        match self {
            FindingModel::DominatesCost { operation, .. } => "Operation '"@ + operation
                + "' dominates fiat costs"@,
            FindingModel::DominatesGas { operation, .. } => "Operation '"@ + operation
                + "' dominates gas fees"@,
            FindingModel::BudgetReached { category, .. } => "Budget threshold '"@ + category
                + "' breached"@,
            FindingModel::NoGasData { operation, .. } => "No gas data for high-cost operation '"@
                + operation + "'"@,
        }
    }

    /// The finding in words. Its measured figures come rendered: the share in
    /// percent, and the two amounts.
    pub open spec fn description(
        self,
        percent: Seq<char>,
        amount: Seq<char>,
        whole: Seq<char>,
    ) -> Seq<char> {
        match self {
            FindingModel::DominatesCost { operation, .. } => "Operation '"@ + operation
                + "' accounts for "@ + percent + "% of total tracked cost ("@ + amount + " / "@
                + whole
                + " USD). Review whether this operation can be batched, cached, or replaced with a cheaper alternative."@,
            FindingModel::DominatesGas { operation, operation_total, total } => "Operation '"@
                + operation + "' accounts for "@ + percent + "% of total gas fees ("@ + decimal(
                operation_total as nat,
            ) + " / "@ + decimal(total as nat)
                + " stroops). Optimize contract logic, batch related calls, or increase TTL bump sizes to reduce restore frequency."@,
            FindingModel::BudgetReached { category, .. } => "Category '"@ + category
                + "' has reached "@ + amount + " against the configured limit of "@ + whole
                + ". Investigate recent activity and consider raising the limit or reducing the cost driver."@,
            FindingModel::NoGasData { operation, .. } => "Operation '"@ + operation
                + "' accounts for "@ + percent
                + "% of fiat costs but has no associated gas entries. Add gas instrumentation to this call site for a full cost picture."@,
        }
    }
}

impl Finding {
    pub open spec fn view(&self) -> FindingModel {
        match self {
            Finding::DominatesCost { operation, fraction, operation_total, total } => FindingModel::DominatesCost {
                operation: operation@,
                fraction: *fraction,
                operation_total: *operation_total,
                total: *total,
            },
            Finding::DominatesGas { operation, operation_total, total } => FindingModel::DominatesGas {
                operation: operation@,
                operation_total: *operation_total,
                total: *total,
            },
            Finding::BudgetReached { category, current_total, limit } => FindingModel::BudgetReached {
                category: category@,
                current_total: *current_total,
                limit: *limit,
            },
            Finding::NoGasData { operation, fraction } => FindingModel::NoGasData {
                operation: operation@,
                fraction: *fraction,
            },
        }
    }

    pub fn severity(&self) -> (r: OptimizationSeverity)
        ensures
            r == self@.severity(),
    {
        match self {
            Finding::DominatesCost { operation: _, fraction: _, operation_total: _, total: _ } => OptimizationSeverity::High,
            Finding::DominatesGas { operation: _, operation_total: _, total: _ } => OptimizationSeverity::High,
            Finding::BudgetReached { category: _, current_total: _, limit: _ } => OptimizationSeverity::Medium,
            Finding::NoGasData { operation: _, fraction: _ } => OptimizationSeverity::Low,
        }
    }

    /// The operation or category that the finding is about.
    pub fn subject(&self) -> (r: String)
        ensures
            r@ == self@.subject(),
    {
        match self {
            Finding::DominatesCost { operation, fraction: _, operation_total: _, total: _ } => operation.clone(),
            Finding::DominatesGas { operation, operation_total: _, total: _ } => operation.clone(),
            Finding::BudgetReached { category, current_total: _, limit: _ } => category.clone(),
            Finding::NoGasData { operation, fraction: _ } => operation.clone(),
        }
    }

    /// A short title.
    pub fn title(&self) -> (r: String)
        ensures
            r@ == self@.title(),
    {
        let subject = self.subject();
        match self {
            Finding::DominatesCost { operation: _, fraction: _, operation_total: _, total: _ } => {
                let mut out = "Operation '".to_owned();
                out.append(subject.as_str());
                out.append("' dominates fiat costs");
                out
            },
            Finding::DominatesGas { operation: _, operation_total: _, total: _ } => {
                let mut out = "Operation '".to_owned();
                out.append(subject.as_str());
                out.append("' dominates gas fees");
                out
            },
            Finding::BudgetReached { category: _, current_total: _, limit: _ } => {
                let mut out = "Budget threshold '".to_owned();
                out.append(subject.as_str());
                out.append("' breached");
                out
            },
            Finding::NoGasData { operation: _, fraction: _ } => {
                let mut out = "No gas data for high-cost operation '".to_owned();
                out.append(subject.as_str());
                out.append("'");
                out
            },
        }
    }

    /// The finding in words, with its measured figures as given.
    pub fn description(&self, percent: &str, amount: &str, whole: &str) -> (r: String)
        ensures
            r@ == self@.description(percent@, amount@, whole@),
    {
        let subject = self.subject();
        match self {
            Finding::DominatesCost { operation: _, fraction: _, operation_total: _, total: _ } => {
                let mut out = "Operation '".to_owned();
                out.append(subject.as_str());
                out.append("' accounts for ");
                out.append(percent);
                out.append("% of total tracked cost (");
                out.append(amount);
                out.append(" / ");
                out.append(whole);
                out.append(
                    " USD). Review whether this operation can be batched, cached, or replaced with a cheaper alternative.",
                );
                out
            },
            Finding::DominatesGas { operation: _, operation_total, total } => {
                let mut out = "Operation '".to_owned();
                out.append(subject.as_str());
                out.append("' accounts for ");
                out.append(percent);
                out.append("% of total gas fees (");
                push_decimal(&mut out, *operation_total as u128);
                out.append(" / ");
                push_decimal(&mut out, *total as u128);
                out.append(
                    " stroops). Optimize contract logic, batch related calls, or increase TTL bump sizes to reduce restore frequency.",
                );
                out
            },
            Finding::BudgetReached { category: _, current_total: _, limit: _ } => {
                let mut out = "Category '".to_owned();
                out.append(subject.as_str());
                out.append("' has reached ");
                out.append(amount);
                out.append(" against the configured limit of ");
                out.append(whole);
                out.append(
                    ". Investigate recent activity and consider raising the limit or reducing the cost driver.",
                );
                out
            },
            Finding::NoGasData { operation: _, fraction: _ } => {
                let mut out = "Operation '".to_owned();
                out.append(subject.as_str());
                out.append("' accounts for ");
                out.append(percent);
                out.append(
                    "% of fiat costs but has no associated gas entries. Add gas instrumentation to this call site for a full cost picture.",
                );
                out
            },
        }
    }
}

/// The operations, among the first `n`, that make up more than half of the cost.
pub open spec fn dominating_cost(fiat: FiatTotals, n: int) -> Seq<FindingModel>
    decreases n,
{
    if n <= 0 {
        Seq::empty()
    } else {
        let share = fiat.operations[n - 1];
        let rest = dominating_cost(fiat, n - 1);
        if share.fraction.gt_spec(Measure { bits: ONE_HALF }) {
            rest.push(
                FindingModel::DominatesCost {
                    operation: share.operation@,
                    fraction: share.fraction,
                    operation_total: share.total,
                    total: fiat.total_amount,
                },
            )
        } else {
            rest
        }
    }
}

/// The operations, among the first `n`, that make up more than half of the fees.
pub open spec fn dominating_gas(stats: Seq<GasOperationStats>, total: u64, n: int) -> Seq<FindingModel>
    decreases n,
{
    if n <= 0 {
        Seq::empty()
    } else {
        let stat = stats[n - 1];
        let rest = dominating_gas(stats, total, n - 1);
        if 2 * stat.total_fee_stroops > total {
            rest.push(
                FindingModel::DominatesGas {
                    operation: stat.operation@,
                    operation_total: stat.total_fee_stroops,
                    total,
                },
            )
        } else {
            rest
        }
    }
}

/// The budgets that have been reached.
pub open spec fn budget_findings(breaches: Seq<BudgetBreach>) -> Seq<FindingModel> {
    breaches.map_values(
        |b: BudgetBreach|
            FindingModel::BudgetReached {
                category: b.category@,
                current_total: b.current_total,
                limit: b.limit,
            },
    )
}

/// The operations, among the first `n`, that make up more than a fifth of the
/// cost and have no fees recorded.
pub open spec fn missing_gas(fiat: FiatTotals, with_gas: Seq<Seq<char>>, n: int) -> Seq<FindingModel>
    decreases n,
{
    if n <= 0 {
        Seq::empty()
    } else {
        let share = fiat.operations[n - 1];
        let rest = missing_gas(fiat, with_gas, n - 1);
        if share.fraction.gt_spec(Measure { bits: ONE_FIFTH }) && !with_gas.contains(
            share.operation@,
        ) {
            rest.push(
                FindingModel::NoGasData { operation: share.operation@, fraction: share.fraction },
            )
        } else {
            rest
        }
    }
}

/// All findings: operations that dominate the cost, operations that dominate
/// the fees, budgets that were reached, and costly operations without fees.
pub open spec fn all_findings(
    fiat: FiatTotals,
    gas: GasCostReport,
    breaches: Seq<BudgetBreach>,
) -> Seq<FindingModel> {
    let n = fiat.operations.len() as int;
    let costly = fiat.total_amount.gt_spec(Measure { bits: ZERO });
    let stats = gas.by_operation@;
    (if costly {
        dominating_cost(fiat, n)
    } else {
        Seq::empty()
    }) + (if gas.total_fee_stroops > 0 {
        dominating_gas(stats, gas.total_fee_stroops, stats.len() as int)
    } else {
        Seq::empty()
    }) + budget_findings(breaches) + (if costly {
        missing_gas(fiat, stat_names(stats), n)
    } else {
        Seq::empty()
    })
}

/// The contents of findings.
pub open spec fn finding_models(findings: Seq<Finding>) -> Seq<FindingModel> {
    findings.map_values(|f: Finding| f@)
}

fn find_dominating_cost(fiat: &FiatTotals, out: &mut Vec<Finding>)
    ensures
        finding_models(final(out)@) == finding_models(old(out)@) + dominating_cost(
            *fiat,
            fiat.operations.len() as int,
        ),
{
    let ghost before = finding_models(out@);
    let half = Measure { bits: ONE_HALF };
    let mut i: usize = 0;
    assert(before =~= before + dominating_cost(*fiat, 0));
    while i < fiat.operations.len()
        invariant
            i <= fiat.operations.len(),
            half.bits == ONE_HALF,
            finding_models(out@) == before + dominating_cost(*fiat, i as int),
        decreases fiat.operations.len() - i,
    {
        let share = &fiat.operations[i];
        let ghost earlier = finding_models(out@);
        if share.fraction.gt(&half) {
            let finding = Finding::DominatesCost {
                operation: share.operation.clone(),
                fraction: share.fraction,
                operation_total: share.total,
                total: fiat.total_amount,
            };
            out.push(finding);
            assert(finding_models(out@) =~= earlier.push(finding@));
        }
        assert(finding_models(out@) =~= before + dominating_cost(*fiat, i + 1));
        i = i + 1;
    }
}

fn find_dominating_gas(gas: &GasCostReport, out: &mut Vec<Finding>)
    ensures
        finding_models(final(out)@) == finding_models(old(out)@) + dominating_gas(
            gas.by_operation@,
            gas.total_fee_stroops,
            gas.by_operation.len() as int,
        ),
{
    let ghost before = finding_models(out@);
    let total = gas.total_fee_stroops;
    let mut i: usize = 0;
    assert(before =~= before + dominating_gas(gas.by_operation@, total, 0));
    while i < gas.by_operation.len()
        invariant
            i <= gas.by_operation.len(),
            total == gas.total_fee_stroops,
            finding_models(out@) == before + dominating_gas(gas.by_operation@, total, i as int),
        decreases gas.by_operation.len() - i,
    {
        let stat = &gas.by_operation[i];
        let ghost earlier = finding_models(out@);
        if stat.total_fee_stroops as u128 * 2 > total as u128 {
            let finding = Finding::DominatesGas {
                operation: stat.operation.clone(),
                operation_total: stat.total_fee_stroops,
                total,
            };
            out.push(finding);
            assert(finding_models(out@) =~= earlier.push(finding@));
        }
        assert(finding_models(out@) =~= before + dominating_gas(gas.by_operation@, total, i + 1));
        i = i + 1;
    }
}

fn find_breaches(breaches: &Vec<BudgetBreach>, out: &mut Vec<Finding>)
    ensures
        finding_models(final(out)@) == finding_models(old(out)@) + budget_findings(breaches@),
{
    let ghost before = finding_models(out@);
    let ghost all = budget_findings(breaches@);
    let mut i: usize = 0;
    assert(before =~= before + all.take(0));
    while i < breaches.len()
        invariant
            i <= breaches.len(),
            all == budget_findings(breaches@),
            finding_models(out@) == before + all.take(i as int),
        decreases breaches.len() - i,
    {
        let breach = &breaches[i];
        let ghost earlier = finding_models(out@);
        let finding = Finding::BudgetReached {
            category: breach.category.clone(),
            current_total: breach.current_total,
            limit: breach.limit,
        };
        out.push(finding);
        assert(finding_models(out@) =~= earlier.push(finding@));
        assert(finding_models(out@) =~= before + all.take(i + 1));
        i = i + 1;
    }
    assert(all.take(i as int) =~= all);
}

fn find_missing_gas(fiat: &FiatTotals, with_gas: &Vec<String>, out: &mut Vec<Finding>)
    ensures
        finding_models(final(out)@) == finding_models(old(out)@) + missing_gas(
            *fiat,
            texts(with_gas@),
            fiat.operations.len() as int,
        ),
{
    let ghost before = finding_models(out@);
    let fifth = Measure { bits: ONE_FIFTH };
    let mut i: usize = 0;
    assert(before =~= before + missing_gas(*fiat, texts(with_gas@), 0));
    while i < fiat.operations.len()
        invariant
            i <= fiat.operations.len(),
            fifth.bits == ONE_FIFTH,
            finding_models(out@) == before + missing_gas(*fiat, texts(with_gas@), i as int),
        decreases fiat.operations.len() - i,
    {
        let share = &fiat.operations[i];
        let ghost earlier = finding_models(out@);
        if share.fraction.gt(&fifth) && !list_contains(with_gas, share.operation.as_str()) {
            let finding = Finding::NoGasData {
                operation: share.operation.clone(),
                fraction: share.fraction,
            };
            out.push(finding);
            assert(finding_models(out@) =~= earlier.push(finding@));
        }
        assert(finding_models(out@) =~= before + missing_gas(*fiat, texts(with_gas@), i + 1));
        i = i + 1;
    }
}

/// All findings on the given sums, fees and breaches.
pub fn findings(fiat: &FiatTotals, gas: &GasCostReport, breaches: &Vec<BudgetBreach>) -> (r: Vec<
    Finding,
>)
    ensures
        finding_models(r@) == all_findings(*fiat, *gas, breaches@),
{
    let mut out: Vec<Finding> = Vec::new();
    let costly = fiat.total_amount.gt(&Measure { bits: ZERO });
    assert(finding_models(out@) =~= Seq::empty());
    if costly {
        find_dominating_cost(fiat, &mut out);
    }
    if gas.total_fee_stroops > 0 {
        find_dominating_gas(gas, &mut out);
    }
    find_breaches(breaches, &mut out);
    if costly {
        let mut with_gas: Vec<String> = Vec::new();
        let mut i: usize = 0;
        while i < gas.by_operation.len()
            invariant
                i <= gas.by_operation.len(),
                texts(with_gas@) == stat_names(gas.by_operation@).take(i as int),
            decreases gas.by_operation.len() - i,
        {
            let ghost earlier = texts(with_gas@);
            with_gas.push(gas.by_operation[i].operation.clone());
            assert(texts(with_gas@) =~= earlier.push(gas.by_operation[i as int].operation@));
            i = i + 1;
            assert(texts(with_gas@) =~= stat_names(gas.by_operation@).take(i as int));
        }
        assert(texts(with_gas@) =~= stat_names(gas.by_operation@));
        find_missing_gas(fiat, &with_gas, &mut out);
    }
    assert(finding_models(out@) =~= all_findings(*fiat, *gas, breaches@));
    out
}

/// An optimization opportunity found in the recorded costs and fees.
#[derive(Debug)]
pub struct OptimizationSuggestion {
    pub id: String,
    pub severity: OptimizationSeverity,
    /// What was found, with its title and description.
    pub finding: Finding,
    /// The operation or category this suggestion applies to, if narrowed.
    pub applies_to: Option<String>,
}

impl OptimizationSuggestion {
    /// This suggestion is about the finding `f`.
    pub open spec fn is_about(&self, f: FindingModel) -> bool {
        &&& is_new_id(self.id@)
        &&& self.severity == f.severity()
        &&& self.finding@ == f
        &&& text_option(self.applies_to) == Some(f.subject())
    }
}

/// There is a suggestion for each finding.
pub open spec fn are_suggestions(
    suggestions: Seq<OptimizationSuggestion>,
    found: Seq<FindingModel>,
) -> bool {
    &&& suggestions.len() == found.len()
    &&& forall|i: int| 0 <= i < found.len() ==> (#[trigger] suggestions[i]).is_about(found[i])
}

/// A suggestion for each finding.
fn suggest(mut found: Vec<Finding>) -> (r: Vec<OptimizationSuggestion>)
    ensures
        are_suggestions(r@, finding_models(found@)),
{
    let ghost all = found@;
    let mut reversed: Vec<Finding> = Vec::new();
    while found.len() > 0
        invariant
            found.len() + reversed.len() == all.len(),
            forall|i: int| 0 <= i < found.len() ==> found[i] == all[i],
            forall|i: int|
                0 <= i < reversed.len() ==> #[trigger] reversed[i] == all[all.len() - 1 - i],
        decreases found.len(),
    {
        if let Some(finding) = found.pop() {
            reversed.push(finding);
        }
    }
    let mut out: Vec<OptimizationSuggestion> = Vec::new();
    while reversed.len() > 0
        invariant
            out.len() + reversed.len() == all.len(),
            forall|i: int|
                0 <= i < reversed.len() ==> #[trigger] reversed[i] == all[all.len() - 1 - i],
            forall|i: int|
                0 <= i < out.len() ==> (#[trigger] out[i]).is_about(finding_models(all)[i]),
        decreases reversed.len(),
    {
        if let Some(finding) = reversed.pop() {
            let applies_to = Some(finding.subject());
            out.push(
                OptimizationSuggestion {
                    id: new_id(),
                    severity: finding.severity(),
                    finding,
                    applies_to,
                },
            );
        }
    }
    out
}

/// An operation and its cost.
#[derive(Debug)]
pub struct OperationCostItem {
    pub operation: String,
    pub total: Measure,
}

/// An operation and its fees.
#[derive(Debug)]
pub struct OperationGasItem {
    pub operation: String,
    pub total: u64,
}

#[derive(Debug)]
pub struct CostDashboardSummary {
    pub total_amount: Measure,
    pub currency: String,
    pub entry_count: usize,
}

#[derive(Debug)]
pub struct GasDashboardSummary {
    pub total_fee_stroops: u64,
    pub tx_count: usize,
}

/// A view of costs and fees together.
#[derive(Debug)]
pub struct CostDashboard {
    pub fiat_summary: CostDashboardSummary,
    pub gas_summary: GasDashboardSummary,
    /// Number of budgets.
    pub active_thresholds: usize,
    /// Number of budgets that have been reached.
    pub breached_thresholds: usize,
    /// The five operations with the highest cost.
    pub top_fiat_operations: Vec<OperationCostItem>,
    /// The five operations with the highest fees.
    pub top_gas_operations: Vec<OperationGasItem>,
    pub generated_at: Time,
}

/// How many operations a dashboard lists.
pub const TOP_OPERATIONS: usize = 5;

/// The places of the totals in the order of all numbers.
pub open spec fn ranks(operations: Seq<OperationShare>) -> Seq<i128> {
    operations.map_values(|s: OperationShare| s.total.rank() as i128)
}

/// How many of `n` operations are listed.
pub open spec fn top_count(n: int) -> int {
    if n < TOP_OPERATIONS {
        n
    } else {
        TOP_OPERATIONS as int
    }
}

/// The totals are numbers.
pub open spec fn totals_are_numbers(operations: Seq<OperationShare>) -> bool {
    forall|i: int| 0 <= i < operations.len() ==> !(#[trigger] operations[i]).total.is_nan_spec()
}

/// The items are the operations at the given places, in their order; no place is
/// taken twice.
pub open spec fn are_operations_at(
    items: Seq<OperationCostItem>,
    operations: Seq<OperationShare>,
    places: Seq<usize>,
) -> bool {
    &&& places.len() == operations.len()
    &&& places.no_duplicates()
    &&& forall|i: int| 0 <= i < places.len() ==> (#[trigger] places[i]) < operations.len()
    &&& forall|i: int|
        0 <= i < items.len() ==> (#[trigger] items[i]).operation
            == operations[places[i] as int].operation && items[i].total
            == operations[places[i] as int].total
}

/// The items are the operations with the highest totals, the highest first.
/// Where a total is no number, they are operations in some order.
pub open spec fn are_top_costs(items: Seq<OperationCostItem>, operations: Seq<OperationShare>) -> bool {
    &&& items.len() == top_count(operations.len() as int)
    &&& exists|places: Seq<usize>| #[trigger]
        are_operations_at(items, operations, places) && (totals_are_numbers(operations)
            ==> is_stable_order(ranks(operations), true, places))
}

/// The items are the operations with the highest fees, the highest first.
pub open spec fn are_top_fees(items: Seq<OperationGasItem>, stats: Seq<GasOperationStats>) -> bool {
    &&& items.len() == top_count(stats.len() as int)
    &&& forall|i: int|
        0 <= i < items.len() ==> (#[trigger] items[i]).operation == stats[i].operation
            && items[i].total == stats[i].total_fee_stroops
}

fn top_costs(operations: &Vec<OperationShare>) -> (r: Vec<OperationCostItem>)
    ensures
        are_top_costs(r@, operations@),
{
    let mut keys: Vec<i128> = Vec::new();
    let mut i: usize = 0;
    while i < operations.len()
        invariant
            i <= operations.len(),
            keys@ == ranks(operations@).take(i as int),
        decreases operations.len() - i,
    {
        keys.push(operations[i].total.signed_rank());
        i = i + 1;
        assert(keys@ =~= ranks(operations@).take(i as int));
    }
    assert(keys@ =~= ranks(operations@));
    let order = stable_order(&keys, true);
    let mut items: Vec<OperationCostItem> = Vec::new();
    let mut k: usize = 0;
    while k < order.len() && k < TOP_OPERATIONS
        invariant
            k <= order.len(),
            k <= TOP_OPERATIONS,
            order.len() == operations.len(),
            is_stable_order(ranks(operations@), true, order@),
            order@.no_duplicates(),
            items.len() == k,
            forall|j: int|
                0 <= j < k ==> (#[trigger] items[j]).operation
                    == operations[order[j] as int].operation && items[j].total
                    == operations[order[j] as int].total,
        decreases order.len() - k,
    {
        let share = &operations[order[k]];
        items.push(OperationCostItem { operation: share.operation.clone(), total: share.total });
        k = k + 1;
    }
    assert(are_operations_at(items@, operations@, order@));
    items
}

fn top_fees(stats: &Vec<GasOperationStats>) -> (r: Vec<OperationGasItem>)
    ensures
        are_top_fees(r@, stats@),
{
    let mut items: Vec<OperationGasItem> = Vec::new();
    let mut k: usize = 0;
    while k < stats.len() && k < TOP_OPERATIONS
        invariant
            k <= stats.len(),
            k <= TOP_OPERATIONS,
            items.len() == k,
            forall|j: int|
                0 <= j < k ==> (#[trigger] items[j]).operation == stats[j].operation
                    && items[j].total == stats[j].total_fee_stroops,
        decreases stats.len() - k,
    {
        items.push(
            OperationGasItem {
                operation: stats[k].operation.clone(),
                total: stats[k].total_fee_stroops,
            },
        );
        k = k + 1;
    }
    items
}

impl CostState {
    /// Suggestions on the given sums and breaches and on the recorded fees.
    pub fn optimization_suggestions(&self, fiat: &FiatTotals, breaches: &Vec<BudgetBreach>) -> (r: Vec<
        OptimizationSuggestion,
    >)
        requires
            forall|operation: Seq<char>| #[trigger]
                sum(fees(self.gas_entries@, operation)) <= u64::MAX,
        ensures
            exists|gas: GasCostReport| #[trigger]
                is_gas_report(gas, self.gas_entries@) && are_suggestions(
                    r@,
                    all_findings(*fiat, gas, breaches@),
                ),
    {
        let gas = self.gas_report();
        let found = findings(fiat, &gas, breaches);
        suggest(found)
    }

    /// The dashboard at the time `now`, for the given sums and breaches.
    pub fn dashboard_at(&self, fiat: &FiatTotals, breaches: &Vec<BudgetBreach>, now: Time) -> (r:
        CostDashboard)
        requires
            forall|operation: Seq<char>| #[trigger]
                sum(fees(self.gas_entries@, operation)) <= u64::MAX,
        ensures
            is_dashboard(r, *self, *fiat, breaches@, now),
    {
        let gas = self.gas_report();
        CostDashboard {
            fiat_summary: CostDashboardSummary {
                total_amount: fiat.total_amount,
                currency: if self.entries.len() > 0 {
                    self.entries[0].currency.clone()
                } else {
                    default_currency()
                },
                entry_count: self.entries.len(),
            },
            gas_summary: GasDashboardSummary {
                total_fee_stroops: gas.total_fee_stroops,
                tx_count: gas.tx_count,
            },
            active_thresholds: self.thresholds.len(),
            breached_thresholds: breaches.len(),
            top_fiat_operations: top_costs(&fiat.operations),
            top_gas_operations: top_fees(&gas.by_operation),
            generated_at: now,
        }
    }

    /// The dashboard for the given sums and breaches.
    pub fn dashboard(&self, fiat: &FiatTotals, breaches: &Vec<BudgetBreach>) -> (r: CostDashboard)
        requires
            forall|operation: Seq<char>| #[trigger]
                sum(fees(self.gas_entries@, operation)) <= u64::MAX,
        ensures
            exists|now: Time|
                wall_clock_shows(now) && #[trigger] is_dashboard(r, *self, *fiat, breaches@, now),
    {
        let now = utc_now();
        self.dashboard_at(fiat, breaches, now)
    }
}

/// The dashboard shows the given sums and breaches and the recorded fees.
pub open spec fn is_dashboard(
    r: CostDashboard,
    state: CostState,
    fiat: FiatTotals,
    breaches: Seq<BudgetBreach>,
    now: Time,
) -> bool {
    &&& r.fiat_summary.total_amount == fiat.total_amount
    &&& r.fiat_summary.currency@ == if state.entries.len() > 0 {
        state.entries[0].currency@
    } else {
        "USD"@
    }
    &&& r.fiat_summary.entry_count == state.entries.len()
    &&& exists|gas: GasCostReport| #[trigger]
        is_gas_report(gas, state.gas_entries@) && r.gas_summary.total_fee_stroops
            == gas.total_fee_stroops && r.gas_summary.tx_count == gas.tx_count && are_top_fees(
            r.top_gas_operations@,
            gas.by_operation@,
        )
    &&& r.active_thresholds == state.thresholds.len()
    &&& r.breached_thresholds == breaches.len()
    &&& are_top_costs(r.top_fiat_operations@, fiat.operations@)
    &&& r.generated_at == now
}

/// The request for an incident on a breach. The two amounts come rendered.
pub fn breach_to_incident_request(breach: &BudgetBreach, total: &str, limit: &str) -> (r:
    CreateIncidentRequest)
    ensures
        r.title@ == "Budget threshold breached: "@ + breach.category@,
        r.description@ == "Category '"@ + breach.category@ + "' ("@ + breach.scope.text_spec()
            + ") reached "@ + total@ + " against a configured limit of "@ + limit@ + "."@,
        r.severity == IncidentSeverity::Sev3,
        r.assigned_to is None,
{
    let mut title = "Budget threshold breached: ".to_owned();
    title.append(breach.category.as_str());
    let mut description = "Category '".to_owned();
    description.append(breach.category.as_str());
    description.append("' (");
    let scope = breach.scope.text();
    description.append(scope.as_str());
    description.append(") reached ");
    description.append(total);
    description.append(" against a configured limit of ");
    description.append(limit);
    description.append(".");
    CreateIncidentRequest {
        title,
        description,
        severity: IncidentSeverity::Sev3,
        assigned_to: None,
    }
}

/// The request to page whoever is on call for a breach. The two amounts come
/// rendered.
pub fn breach_to_escalation_request(breach: &BudgetBreach, total: &str, limit: &str) -> (r:
    TriggerEscalationRequest)
    ensures
        r.reason@ == "budget threshold '"@ + breach.category@ + "' breached: "@ + total@ + " >= "@
            + limit@,
        r.current_level == 0,
{
    let mut reason = "budget threshold '".to_owned();
    reason.append(breach.category.as_str());
    reason.append("' breached: ");
    reason.append(total);
    reason.append(" >= ");
    reason.append(limit);
    TriggerEscalationRequest { reason, current_level: 0 }
}

/// Why a request is refused.
#[derive(Debug, Clone, Copy, PartialEq, Eq, Structural)]
pub enum CostError {
    EmptyOperation,
    NegativeAmount,
    EmptyTagKey,
    EmptyCategory,
    NegativeLimit,
    EmptyTxHash,
}

impl CostError {
    pub open spec fn message_spec(self) -> Seq<char> {
        match self {
            CostError::EmptyOperation => "operation must not be empty"@,
            CostError::NegativeAmount => "amount must be non-negative"@,
            CostError::EmptyTagKey => "tag_key must not be empty"@,
            CostError::EmptyCategory => "category must not be empty"@,
            CostError::NegativeLimit => "limit must be non-negative"@,
            CostError::EmptyTxHash => "tx_hash must not be empty"@,
        }
    }

    /// The error in words.
    pub fn message(&self) -> (r: String)
        ensures
            r@ == self.message_spec(),
    {
        match self {
            CostError::EmptyOperation => "operation must not be empty".to_owned(),
            CostError::NegativeAmount => "amount must be non-negative".to_owned(),
            CostError::EmptyTagKey => "tag_key must not be empty".to_owned(),
            CostError::EmptyCategory => "category must not be empty".to_owned(),
            CostError::NegativeLimit => "limit must be non-negative".to_owned(),
            CostError::EmptyTxHash => "tx_hash must not be empty".to_owned(),
        }
    }
}

/// What is wrong with a request to record a cost, if anything.
pub open spec fn cost_fault(body: RecordCostRequest) -> Option<CostError> {
    if trimmed(body.operation@).len() == 0 {
        Some(CostError::EmptyOperation)
    } else if (Measure { bits: ZERO }).gt_spec(body.amount) {
        Some(CostError::NegativeAmount)
    } else {
        None
    }
}

/// Records the cost that a request asks for, with the given id, at the time
/// `now`.
pub fn record_cost_entry_with(
    state: &mut CostState,
    body: RecordCostRequest,
    id: String,
    now: Time,
) -> (r: Result<(), CostError>)
    requires
        old(state).wf(),
        body.tags.wf(),
    ensures
        final(state).wf(),
        match r {
            Ok(()) => {
                &&& cost_fault(body) is None
                &&& final(state).entries@ == old(state).entries@.push(
                    CostEntry {
                        id,
                        operation: body.operation,
                        tags: body.tags,
                        amount: body.amount,
                        currency: body.currency,
                        recorded_at: now,
                    },
                )
                &&& final(state).thresholds == old(state).thresholds
                &&& final(state).gas_entries == old(state).gas_entries
            },
            Err(e) => cost_fault(body) == Some(e) && *final(state) == *old(state),
        },
{
    if is_blank(body.operation.as_str()) {
        return Err(CostError::EmptyOperation);
    }
    if (Measure { bits: ZERO }).gt(&body.amount) {
        return Err(CostError::NegativeAmount);
    }
    state.record(
        CostEntry {
            id,
            operation: body.operation,
            tags: body.tags,
            amount: body.amount,
            currency: body.currency,
            recorded_at: now,
        },
    );
    Ok(())
}

/// Records the cost that a request asks for.
pub fn record_cost_entry(state: &mut CostState, body: RecordCostRequest) -> (r: Result<(), CostError>)
    requires
        old(state).wf(),
        body.tags.wf(),
    ensures
        final(state).wf(),
        match r {
            Ok(()) => {
                &&& cost_fault(body) is None
                &&& exists|id: String, now: Time|
                    wall_clock_shows(now) && is_new_id(id@) && final(state).entries@ == #[trigger] old(state).entries@.push(
                        CostEntry {
                            id,
                            operation: body.operation,
                            tags: body.tags,
                            amount: body.amount,
                            currency: body.currency,
                            recorded_at: now,
                        },
                    )
                &&& final(state).thresholds == old(state).thresholds
                &&& final(state).gas_entries == old(state).gas_entries
            },
            Err(e) => cost_fault(body) == Some(e) && *final(state) == *old(state),
        },
{
    let id = new_id();
    let now = utc_now();
    record_cost_entry_with(state, body, id, now)
}

/// The shares by which a cost is allocated across the values of a tag, which
/// must have a name.
pub fn allocate_cost(state: &CostState, tag_key: &str) -> (r: Result<CostAllocation, CostError>)
    requires
        state.wf(),
    ensures
        match r {
            Ok(allocation) => trimmed(tag_key@).len() > 0 && allocation.tag_key@ == tag_key@
                && grouped_by_value(allocation.shares, state.entries@, tag_key@),
            Err(e) => trimmed(tag_key@).len() == 0 && e == CostError::EmptyTagKey,
        },
{
    if is_blank(tag_key) {
        return Err(CostError::EmptyTagKey);
    }
    Ok(state.allocate(tag_key))
}

/// What is wrong with a request for a budget, if anything.
pub open spec fn budget_fault(threshold: BudgetThreshold) -> Option<CostError> {
    if trimmed(threshold.category@).len() == 0 {
        Some(CostError::EmptyCategory)
    } else if (Measure { bits: ZERO }).gt_spec(threshold.limit) {
        Some(CostError::NegativeLimit)
    } else {
        None
    }
}

/// Configures the budget that a request asks for.
pub fn set_budget_threshold(state: &mut CostState, threshold: BudgetThreshold) -> (r: Result<
    (),
    CostError,
>)
    requires
        old(state).wf(),
    ensures
        final(state).wf(),
        match r {
            Ok(()) => {
                &&& budget_fault(threshold) is None
                &&& final(state).entries == old(state).entries
                &&& final(state).gas_entries == old(state).gas_entries
                &&& final(state).thresholds@ == other_categories(
                    old(state).thresholds@,
                    threshold.category@,
                ).push(threshold)
            },
            Err(e) => budget_fault(threshold) == Some(e) && *final(state) == *old(state),
        },
{
    if is_blank(threshold.category.as_str()) {
        return Err(CostError::EmptyCategory);
    }
    if (Measure { bits: ZERO }).gt(&threshold.limit) {
        return Err(CostError::NegativeLimit);
    }
    state.set_budget_threshold(threshold);
    Ok(())
}

/// What is wrong with a request to record a fee, if anything.
pub open spec fn gas_fault(body: RecordGasCostRequest) -> Option<CostError> {
    if trimmed(body.operation@).len() == 0 {
        Some(CostError::EmptyOperation)
    } else if trimmed(body.tx_hash@).len() == 0 {
        Some(CostError::EmptyTxHash)
    } else {
        None
    }
}

/// Records the fee that a request asks for, with the given id, at the time
/// `now`.
pub fn record_gas_cost_with(
    state: &mut CostState,
    body: RecordGasCostRequest,
    id: String,
    now: Time,
) -> (r: Result<(), CostError>)
    requires
        old(state).wf(),
    ensures
        final(state).wf(),
        match r {
            Ok(()) => {
                &&& gas_fault(body) is None
                &&& final(state).gas_entries@ == old(state).gas_entries@.push(
                    GasCostEntry {
                        id,
                        operation: body.operation,
                        tx_hash: body.tx_hash,
                        fee_stroops: body.fee_stroops,
                        ledger_sequence: body.ledger_sequence,
                        tags: body.tags,
                        recorded_at: now,
                    },
                )
                &&& final(state).entries == old(state).entries
                &&& final(state).thresholds == old(state).thresholds
            },
            Err(e) => gas_fault(body) == Some(e) && *final(state) == *old(state),
        },
{
    if is_blank(body.operation.as_str()) {
        return Err(CostError::EmptyOperation);
    }
    if is_blank(body.tx_hash.as_str()) {
        return Err(CostError::EmptyTxHash);
    }
    state.record_gas(
        GasCostEntry {
            id,
            operation: body.operation,
            tx_hash: body.tx_hash,
            fee_stroops: body.fee_stroops,
            ledger_sequence: body.ledger_sequence,
            tags: body.tags,
            recorded_at: now,
        },
    );
    Ok(())
}

/// Records the fee that a request asks for.
pub fn record_gas_cost(state: &mut CostState, body: RecordGasCostRequest) -> (r: Result<
    (),
    CostError,
>)
    requires
        old(state).wf(),
    ensures
        final(state).wf(),
        match r {
            Ok(()) => {
                &&& gas_fault(body) is None
                &&& exists|id: String, now: Time|
                    wall_clock_shows(now) && is_new_id(id@) && final(state).gas_entries@
                        == #[trigger] old(state).gas_entries@.push(
                        GasCostEntry {
                            id,
                            operation: body.operation,
                            tx_hash: body.tx_hash,
                            fee_stroops: body.fee_stroops,
                            ledger_sequence: body.ledger_sequence,
                            tags: body.tags,
                            recorded_at: now,
                        },
                    )
                &&& final(state).entries == old(state).entries
                &&& final(state).thresholds == old(state).thresholds
            },
            Err(e) => gas_fault(body) == Some(e) && *final(state) == *old(state),
        },
{
    let id = new_id();
    let now = utc_now();
    record_gas_cost_with(state, body, id, now)
}

/// The fees of several operations, added up operation by operation.
pub open spec fn sum_by_operation(entries: Seq<GasCostEntry>, operations: Seq<Seq<char>>) -> nat
    decreases operations.len(),
{
    if operations.len() == 0 {
        0
    } else {
        sum_by_operation(entries, operations.drop_last()) + sum(fees(entries, operations.last()))
    }
}

proof fn lemma_one_more_fee(entries: Seq<GasCostEntry>, operations: Seq<Seq<char>>)
    requires
        entries.len() > 0,
        operations.no_duplicates(),
    ensures
        sum_by_operation(entries, operations) == sum_by_operation(entries.drop_last(), operations)
            + if operations.contains(entries.last().operation@) {
            entries.last().fee_stroops as nat
        } else {
            0
        },
    decreases operations.len(),
{
    if operations.len() > 0 {
        let rest = operations.drop_last();
        let operation = entries.last().operation@;
        lemma_one_more_fee(entries, rest);
        let earlier = fees(entries.drop_last(), operations.last());
        if operation == operations.last() {
            assert(earlier.push(entries.last().fee_stroops).drop_last() =~= earlier);
            assert(operations[operations.len() - 1] == operation);
            if rest.contains(operation) {
                assert(operations[rest.index_of(operation)] == operation);
            }
        } else {
            if rest.contains(operation) {
                assert(operations[rest.index_of(operation)] == operation);
            }
            if operations.contains(operation) {
                assert(rest[operations.index_of(operation)] == operation);
            }
        }
    }
}

proof fn lemma_sum_by_operation(entries: Seq<GasCostEntry>, operations: Seq<Seq<char>>)
    requires
        operations.no_duplicates(),
        forall|i: int|
            0 <= i < entries.len() ==> operations.contains((#[trigger] entries[i]).operation@),
    ensures
        sum_by_operation(entries, operations) == sum(all_fees(entries)),
    decreases entries.len(),
{
    if entries.len() == 0 {
        lemma_no_fees(entries, operations);
    } else {
        let rest = entries.drop_last();
        assert forall|i: int| 0 <= i < rest.len() implies operations.contains(
            (#[trigger] rest[i]).operation@,
        ) by {
            assert(rest[i] == entries[i]);
        }
        lemma_sum_by_operation(rest, operations);
        lemma_one_more_fee(entries, operations);
        assert(operations.contains(entries[entries.len() - 1].operation@));
        assert(all_fees(entries).drop_last() =~= all_fees(rest));
    }
}

proof fn lemma_no_fees(entries: Seq<GasCostEntry>, operations: Seq<Seq<char>>)
    requires
        entries.len() == 0,
    ensures
        sum_by_operation(entries, operations) == 0,
    decreases operations.len(),
{
    if operations.len() > 0 {
        lemma_no_fees(entries, operations.drop_last());
    }
}

/// The fees of the operations that a report lists add up to all fees.
pub proof fn gas_totals_add_up(report: GasCostReport, entries: Seq<GasCostEntry>)
    requires
        is_gas_report(report, entries),
    ensures
        sum_by_operation(entries, stat_names(report.by_operation@)) == sum(all_fees(entries)),
{
    lemma_sum_by_operation(entries, stat_names(report.by_operation@));
}

proof fn lemma_breached_places(thresholds: Seq<BudgetThreshold>, totals: Seq<Measure>, n: int)
    requires
        0 <= n <= thresholds.len(),
        totals.len() == thresholds.len(),
    ensures
        forall|k: int|
            0 <= k < breached(thresholds, totals, n).len() ==> {
                let p = #[trigger] breached(thresholds, totals, n)[k];
                0 <= p < n && totals[p].ge_spec(thresholds[p].limit)
            },
        forall|i: int|
            0 <= i < n && (#[trigger] totals[i]).ge_spec(thresholds[i].limit) ==> breached(
                thresholds,
                totals,
                n,
            ).contains(i),
    decreases n,
{
    if n > 0 {
        let earlier = breached(thresholds, totals, n - 1);
        let places = breached(thresholds, totals, n);
        lemma_breached_places(thresholds, totals, n - 1);
        assert forall|k: int| 0 <= k < places.len() implies ({
            let p = #[trigger] places[k];
            0 <= p < n && totals[p].ge_spec(thresholds[p].limit)
        }) by {
            if k < earlier.len() {
                assert(places[k] == earlier[k]);
            }
        }
        assert forall|i: int|
            0 <= i < n && (#[trigger] totals[i]).ge_spec(thresholds[i].limit) implies places.contains(
            i,
        ) by {
            if i < n - 1 {
                assert(places[earlier.index_of(i)] == i);
            } else {
                assert(places[places.len() - 1] == i);
            }
        }
    }
}

/// A budget is breached exactly where its total reaches its limit. Each such budget is
/// reported with its category, its limit and its total, and no other is.
pub proof fn budgets_are_breached_at_their_limit(
    breaches: Seq<BudgetBreach>,
    thresholds: Seq<BudgetThreshold>,
    totals: Seq<Measure>,
    i: int,
)
    requires
        are_breaches(breaches, thresholds, totals),
        totals.len() == thresholds.len(),
        0 <= i < thresholds.len(),
    ensures
        totals[i].ge_spec(thresholds[i].limit) ==> exists|j: int|
            {
                &&& 0 <= j < breaches.len()
                &&& (#[trigger] breaches[j]).category == thresholds[i].category
                &&& breaches[j].scope == thresholds[i].scope
                &&& breaches[j].limit == thresholds[i].limit
                &&& breaches[j].current_total == totals[i]
            },
        forall|j: int|
            0 <= j < breaches.len() ==> (#[trigger] breaches[j]).current_total.ge_spec(
                breaches[j].limit,
            ),
        breaches.len() <= thresholds.len(),
{
    let n = thresholds.len() as int;
    let places = breached(thresholds, totals, n);
    lemma_breached_places(thresholds, totals, n);
    lemma_breached_len(thresholds, totals, n);
    if totals[i].ge_spec(thresholds[i].limit) {
        let j = places.index_of(i);
        assert(places.contains(i));
        assert(breaches[j].reports(thresholds[places[j]], totals[places[j]]));
    }
    assert forall|j: int| 0 <= j < breaches.len() implies (#[trigger] breaches[j]).current_total.ge_spec(
        breaches[j].limit,
    ) by {
        assert(breaches[j].reports(thresholds[places[j]], totals[places[j]]));
    }
}

proof fn lemma_breached_len(thresholds: Seq<BudgetThreshold>, totals: Seq<Measure>, n: int)
    requires
        0 <= n,
    ensures
        breached(thresholds, totals, n).len() <= n,
    decreases n,
{
    if n > 0 {
        lemma_breached_len(thresholds, totals, n - 1);
    }
}

/// The amounts held against a budget are those of the entries of its operation, or of
/// the entries that carry its tag with its value, and of no other, in their order.
pub proof fn amounts_are_those_of_the_scope(
    entries: Seq<CostEntry>,
    operation: Seq<char>,
    key: Seq<char>,
    value: Seq<char>,
)
    ensures
        amounts(entries, ScopeModel::Operation(operation)) == entries.filter(
            |e: CostEntry| e.operation@ == operation,
        ).map_values(|e: CostEntry| e.amount),
        amounts(entries, ScopeModel::Tag(key, value)) == entries.filter(
            |e: CostEntry| e.tags@.contains_key(key) && e.tags@[key]@ == value,
        ).map_values(|e: CostEntry| e.amount),
    decreases entries.len(),
{
    reveal(Seq::filter);
    if entries.len() > 0 {
        amounts_are_those_of_the_scope(entries.drop_last(), operation, key, value);
    }
    assert(amounts(entries, ScopeModel::Operation(operation)) =~= entries.filter(
        |e: CostEntry| e.operation@ == operation,
    ).map_values(|e: CostEntry| e.amount));
    assert(amounts(entries, ScopeModel::Tag(key, value)) =~= entries.filter(
        |e: CostEntry| e.tags@.contains_key(key) && e.tags@[key]@ == value,
    ).map_values(|e: CostEntry| e.amount));
}

/// The fees of an operation are those recorded for it, and they add up one by one.
pub proof fn fees_are_those_of_the_operation(
    entries: Seq<GasCostEntry>,
    operation: Seq<char>,
    list: Seq<u64>,
    fee: u64,
)
    ensures
        fees(entries, operation) == entries.filter(
            |e: GasCostEntry| e.operation@ == operation,
        ).map_values(|e: GasCostEntry| e.fee_stroops),
        sum(Seq::<u64>::empty()) == 0,
        sum(list.push(fee)) == sum(list) + fee,
    decreases entries.len(),
{
    reveal(Seq::filter);
    assert(list.push(fee).drop_last() =~= list);
    if entries.len() > 0 {
        fees_are_those_of_the_operation(entries.drop_last(), operation, list, fee);
    }
    assert(fees(entries, operation) =~= entries.filter(
        |e: GasCostEntry| e.operation@ == operation,
    ).map_values(|e: GasCostEntry| e.fee_stroops));
}

/// A gas report has a line for each operation that has fees, and for no other; the
/// average lies between the smallest and the largest fee, and no operation comes before
/// one with a higher total.
pub proof fn gas_reports_cover_every_operation(
    report: GasCostReport,
    entries: Seq<GasCostEntry>,
    i: int,
    j: int,
)
    requires
        is_gas_report(report, entries),
        0 <= i < entries.len(),
        0 <= j < report.by_operation.len(),
    ensures
        report.tx_count == entries.len(),
        exists|k: int|
            0 <= k < report.by_operation.len() && (#[trigger] report.by_operation[k]).operation@
                == entries[i].operation@ && report.by_operation[k].min_fee_stroops
                <= entries[i].fee_stroops <= report.by_operation[k].max_fee_stroops
                && entries[i].fee_stroops <= report.by_operation[k].total_fee_stroops,
        ({
            let line = report.by_operation[j];
            &&& line.tx_count > 0
            &&& line.avg_fee_stroops * line.tx_count <= line.total_fee_stroops
            &&& line.total_fee_stroops < (line.avg_fee_stroops + 1) * line.tx_count
            &&& j > 0 ==> report.by_operation[j - 1].total_fee_stroops >= line.total_fee_stroops
        }),
{
    let operation = entries[i].operation@;
    let names = stat_names(report.by_operation@);
    assert(names.contains(operation));
    let k = names.index_of(operation);
    let line = report.by_operation[k];
    assert(line.operation@ == operation);
    assert(line.describes(entries));
    lemma_fee_is_listed(entries, operation, i);
    let mine = fees(entries, operation);
    let m = mine.index_of(entries[i].fee_stroops);
    assert(mine[m] == entries[i].fee_stroops);
    lemma_part_of_sum(mine, m);
    let other = report.by_operation[j];
    assert(other.describes(entries));
    let theirs = fees(entries, other.operation@);
    vstd::arithmetic::div_mod::lemma_fundamental_div_mod(sum(theirs) as int, theirs.len() as int);
    vstd::arithmetic::div_mod::lemma_mod_bound(sum(theirs) as int, theirs.len() as int);
    assert(other.avg_fee_stroops * other.tx_count <= other.total_fee_stroops
        && other.total_fee_stroops < (other.avg_fee_stroops + 1) * other.tx_count)
        by (nonlinear_arith)
        requires
            sum(theirs) as int == theirs.len() as int * (sum(theirs) as int / theirs.len() as int)
                + sum(theirs) as int % (theirs.len() as int),
            0 <= sum(theirs) as int % (theirs.len() as int) < theirs.len() as int,
            other.avg_fee_stroops == sum(theirs) as int / theirs.len() as int,
            other.tx_count == theirs.len(),
            other.total_fee_stroops == sum(theirs),
    ;
}

proof fn lemma_fee_is_listed(entries: Seq<GasCostEntry>, operation: Seq<char>, i: int)
    requires
        0 <= i < entries.len(),
        entries[i].operation@ == operation,
    ensures
        fees(entries, operation).contains(entries[i].fee_stroops),
    decreases entries.len(),
{
    let rest = entries.drop_last();
    let all = fees(entries, operation);
    if i < rest.len() {
        lemma_fee_is_listed(rest, operation, i);
        let earlier = fees(rest, operation);
        assert(rest[i] == entries[i]);
        let k = earlier.index_of(entries[i].fee_stroops);
        assert(all[k] == earlier[k]);
    } else {
        assert(all[all.len() - 1] == entries[i].fee_stroops);
    }
}

proof fn lemma_part_of_sum(list: Seq<u64>, i: int)
    requires
        0 <= i < list.len(),
    ensures
        list[i] <= sum(list),
    decreases list.len(),
{
    if i < list.len() - 1 {
        lemma_part_of_sum(list.drop_last(), i);
        assert(list.drop_last()[i] == list[i]);
    }
}

proof fn lemma_dominating_cost(fiat: FiatTotals, n: int, f: FindingModel)
    requires
        0 <= n <= fiat.operations.len(),
    ensures
        dominating_cost(fiat, n).contains(f) <==> exists|i: int|
            0 <= i < n && (#[trigger] fiat.operations[i]).fraction.gt_spec(
                Measure { bits: 0x3FE0_0000_0000_0000 },
            ) && f == (FindingModel::DominatesCost {
                operation: fiat.operations[i].operation@,
                fraction: fiat.operations[i].fraction,
                operation_total: fiat.operations[i].total,
                total: fiat.total_amount,
            }),
    decreases n,
{
    if n > 0 {
        let earlier = dominating_cost(fiat, n - 1);
        let all = dominating_cost(fiat, n);
        lemma_dominating_cost(fiat, n - 1, f);
        let share = fiat.operations[n - 1];
        if all.contains(f) {
            let k = all.index_of(f);
            if k < earlier.len() {
                assert(earlier[k] == f);
            }
        }
        if earlier.contains(f) {
            assert(all[earlier.index_of(f)] == f);
        }
        if all.len() > earlier.len() {
            assert(all[earlier.len() as int] == all.last());
        }
    }
}

proof fn lemma_dominating_gas(stats: Seq<GasOperationStats>, total: u64, n: int, f: FindingModel)
    requires
        0 <= n <= stats.len(),
    ensures
        dominating_gas(stats, total, n).contains(f) <==> exists|i: int|
            0 <= i < n && (#[trigger] stats[i]).total_fee_stroops > total
                - stats[i].total_fee_stroops && f == (FindingModel::DominatesGas {
                operation: stats[i].operation@,
                operation_total: stats[i].total_fee_stroops,
                total,
            }),
    decreases n,
{
    if n > 0 {
        let earlier = dominating_gas(stats, total, n - 1);
        let all = dominating_gas(stats, total, n);
        lemma_dominating_gas(stats, total, n - 1, f);
        let stat = stats[n - 1];
        if all.contains(f) {
            let k = all.index_of(f);
            if k < earlier.len() {
                assert(earlier[k] == f);
            }
        }
        if earlier.contains(f) {
            assert(all[earlier.index_of(f)] == f);
        }
        if all.len() > earlier.len() {
            assert(all[earlier.len() as int] == all.last());
        }
    }
}

proof fn lemma_missing_gas(fiat: FiatTotals, with_gas: Seq<Seq<char>>, n: int, f: FindingModel)
    requires
        0 <= n <= fiat.operations.len(),
    ensures
        missing_gas(fiat, with_gas, n).contains(f) <==> exists|i: int|
            0 <= i < n && (#[trigger] fiat.operations[i]).fraction.gt_spec(
                Measure { bits: 0x3FC9_9999_9999_999A },
            ) && !with_gas.contains(fiat.operations[i].operation@) && f == (FindingModel::NoGasData {
                operation: fiat.operations[i].operation@,
                fraction: fiat.operations[i].fraction,
            }),
    decreases n,
{
    if n > 0 {
        let earlier = missing_gas(fiat, with_gas, n - 1);
        let all = missing_gas(fiat, with_gas, n);
        lemma_missing_gas(fiat, with_gas, n - 1, f);
        let share = fiat.operations[n - 1];
        if all.contains(f) {
            let k = all.index_of(f);
            if k < earlier.len() {
                assert(earlier[k] == f);
            }
        }
        if earlier.contains(f) {
            assert(all[earlier.index_of(f)] == f);
        }
        if all.len() > earlier.len() {
            assert(all[earlier.len() as int] == all.last());
        }
    }
}

/// What is found: an operation that makes up more than half of a cost above zero, an
/// operation whose fees are more than all the others', an operation that makes up more
/// than a fifth of the cost and has no fees, and each budget that was reached. Nothing
/// else is found.
pub proof fn findings_point_out_what_dominates(
    fiat: FiatTotals,
    gas: GasCostReport,
    breaches: Seq<BudgetBreach>,
    f: FindingModel,
)
    ensures
        all_findings(fiat, gas, breaches).contains(f) <==> {
            let costly = fiat.total_amount.gt_spec(Measure { bits: 0 });
            ||| costly && exists|i: int|
                0 <= i < fiat.operations.len() && (#[trigger] fiat.operations[i]).fraction.gt_spec(
                    Measure { bits: 0x3FE0_0000_0000_0000 },
                ) && f == (FindingModel::DominatesCost {
                    operation: fiat.operations[i].operation@,
                    fraction: fiat.operations[i].fraction,
                    operation_total: fiat.operations[i].total,
                    total: fiat.total_amount,
                })
            ||| gas.total_fee_stroops > 0 && exists|i: int|
                0 <= i < gas.by_operation.len() && (#[trigger] gas.by_operation@[i]).total_fee_stroops
                    > gas.total_fee_stroops - gas.by_operation@[i].total_fee_stroops && f == (
                FindingModel::DominatesGas {
                    operation: gas.by_operation@[i].operation@,
                    operation_total: gas.by_operation@[i].total_fee_stroops,
                    total: gas.total_fee_stroops,
                })
            ||| exists|i: int|
                0 <= i < breaches.len() && f == (FindingModel::BudgetReached {
                    category: (#[trigger] breaches[i]).category@,
                    current_total: breaches[i].current_total,
                    limit: breaches[i].limit,
                })
            ||| costly && exists|i: int|
                0 <= i < fiat.operations.len() && (#[trigger] fiat.operations[i]).fraction.gt_spec(
                    Measure { bits: 0x3FC9_9999_9999_999A },
                ) && !stat_names(gas.by_operation@).contains(fiat.operations[i].operation@) && f
                    == (FindingModel::NoGasData {
                    operation: fiat.operations[i].operation@,
                    fraction: fiat.operations[i].fraction,
                })
        },
        f is DominatesCost || f is DominatesGas ==> f.severity() == OptimizationSeverity::High,
        f is BudgetReached ==> f.severity() == OptimizationSeverity::Medium,
        f is NoGasData ==> f.severity() == OptimizationSeverity::Low,
{
    let n = fiat.operations.len() as int;
    let stats = gas.by_operation@;
    let costly = fiat.total_amount.gt_spec(Measure { bits: ZERO });
    lemma_dominating_cost(fiat, n, f);
    lemma_dominating_gas(stats, gas.total_fee_stroops, stats.len() as int, f);
    lemma_missing_gas(fiat, stat_names(stats), n, f);
    let a: Seq<FindingModel> = if costly {
        dominating_cost(fiat, n)
    } else {
        Seq::empty()
    };
    let b: Seq<FindingModel> = if gas.total_fee_stroops > 0 {
        dominating_gas(stats, gas.total_fee_stroops, stats.len() as int)
    } else {
        Seq::empty()
    };
    let c = budget_findings(breaches);
    let d: Seq<FindingModel> = if costly {
        missing_gas(fiat, stat_names(stats), n)
    } else {
        Seq::empty()
    };
    lemma_joined_contains(a, b, f);
    lemma_joined_contains(a + b, c, f);
    lemma_joined_contains(a + b + c, d, f);
    assert(all_findings(fiat, gas, breaches) == a + b + c + d);
    assert(c.contains(f) <==> exists|i: int|
        0 <= i < breaches.len() && f == (FindingModel::BudgetReached {
            category: (#[trigger] breaches[i]).category@,
            current_total: breaches[i].current_total,
            limit: breaches[i].limit,
        })) by {
        if c.contains(f) {
            let i = c.index_of(f);
            assert(c[i] == f);
            assert(breaches[i] == breaches[i]);
        }
        if exists|i: int|
            0 <= i < breaches.len() && f == (FindingModel::BudgetReached {
                category: (#[trigger] breaches[i]).category@,
                current_total: breaches[i].current_total,
                limit: breaches[i].limit,
            }) {
            let i = choose|i: int|
                0 <= i < breaches.len() && f == (FindingModel::BudgetReached {
                    category: (#[trigger] breaches[i]).category@,
                    current_total: breaches[i].current_total,
                    limit: breaches[i].limit,
                });
            assert(c[i] == f);
        }
    }
}

proof fn lemma_joined_contains(a: Seq<FindingModel>, b: Seq<FindingModel>, f: FindingModel)
    ensures
        (a + b).contains(f) <==> a.contains(f) || b.contains(f),
{
    let all = a + b;
    if all.contains(f) {
        let i = all.index_of(f);
        if i < a.len() {
            assert(a[i] == f);
        } else {
            assert(b[i - a.len()] == f);
        }
    }
    if a.contains(f) {
        assert(all[a.index_of(f)] == f);
    }
    if b.contains(f) {
        assert(all[a.len() + b.index_of(f)] == f);
    }
}

/// The operations that a dashboard lists come by descending cost, at most five of them,
/// and none that is left out cost more than the last one listed.
pub proof fn dashboards_list_the_costliest(
    items: Seq<OperationCostItem>,
    operations: Seq<OperationShare>,
    i: int,
    j: int,
)
    requires
        are_top_costs(items, operations),
        totals_are_numbers(operations),
        0 <= i < items.len(),
        0 <= j < operations.len(),
    ensures
        items.len() == if operations.len() < 5 {
            operations.len() as int
        } else {
            5
        },
        i > 0 ==> items[i - 1].total.ge_spec(items[i].total),
        items[i].total.ge_spec(operations[j].total) || exists|k: int|
            0 <= k < items.len() && (#[trigger] items[k]).operation == operations[j].operation
                && items[k].total == operations[j].total,
        exists|k: int|
            0 <= k < operations.len() && (#[trigger] operations[k]).operation == items[i].operation
                && operations[k].total == items[i].total,
{
    let places = choose|places: Seq<usize>| #[trigger]
        are_operations_at(items, operations, places) && (totals_are_numbers(operations)
            ==> is_stable_order(ranks(operations), true, places));
    let keys = ranks(operations);
    assert forall|k: int| 0 <= k < operations.len() implies #[trigger] keys[k]
        == operations[k].total.rank() by {
        assert(operations[k].total.bits < 0x1_0000_0000_0000_0000);
    }
    assert(operations[places[i] as int].operation == items[i].operation);
    if i > 0 {
        assert(crate::ordering::precedes(keys, true, places[i - 1], places[i]));
        assert(operations[places[i - 1] as int].total == items[i - 1].total);
    }
    assert(exists|k: int| 0 <= k < places.len() && #[trigger] places[k] == j) by {
        crate::ordering::lemma_every_place(places, j);
    }
    let k = choose|k: int| 0 <= k < places.len() && #[trigger] places[k] == j;
    if k < items.len() {
        assert(items[k].operation == operations[places[k] as int].operation);
    } else {
        assert(crate::ordering::precedes(keys, true, places[i], places[k]));
    }
}

/// A cost is taken where its operation is named and its amount is not below zero, a fee
/// where its operation and its transaction are named, and a budget where its category is
/// named and its limit is not below zero.
pub proof fn fitting_records_are_taken(
    cost: RecordCostRequest,
    gas: RecordGasCostRequest,
    budget: BudgetThreshold,
)
    ensures
        cost_fault(cost) is None <==> trimmed(cost.operation@).len() > 0 && (
        cost.amount.is_nan_spec() || cost.amount.rank() >= 0),
        gas_fault(gas) is None <==> trimmed(gas.operation@).len() > 0 && trimmed(
            gas.tx_hash@,
        ).len() > 0,
        budget_fault(budget) is None <==> trimmed(budget.category@).len() > 0 && (
        budget.limit.is_nan_spec() || budget.limit.rank() >= 0),
{
}

/// Setting a budget replaces the one of its category and keeps all others.
pub proof fn budgets_are_replaced_by_category(
    thresholds: Seq<BudgetThreshold>,
    threshold: BudgetThreshold,
    t: BudgetThreshold,
)
    ensures
        other_categories(thresholds, threshold.category@).push(threshold).contains(t) <==> t
            == threshold || (thresholds.contains(t) && t.category@ != threshold.category@),
{
    let category = threshold.category@;
    let rest = other_categories(thresholds, category);
    lemma_other_categories_filter(thresholds, category);
    crate::ordering::lemma_filter_contains(
        thresholds,
        |b: BudgetThreshold| b.category@ != category,
        t,
    );
    let all = rest.push(threshold);
    if all.contains(t) {
        let i = all.index_of(t);
        if i < rest.len() {
            assert(rest[i] == t);
        }
    }
    if rest.contains(t) {
        assert(all[rest.index_of(t)] == t);
    }
    assert(all[rest.len() as int] == threshold);
}

proof fn lemma_other_categories_filter(thresholds: Seq<BudgetThreshold>, category: Seq<char>)
    ensures
        other_categories(thresholds, category) == thresholds.filter(
            |b: BudgetThreshold| b.category@ != category,
        ),
    decreases thresholds.len(),
{
    reveal(Seq::filter);
    if thresholds.len() > 0 {
        lemma_other_categories_filter(thresholds.drop_last(), category);
    }
}

/// Each entry is counted under its operation and under each of its tags, and each group
/// holds the amounts of its own entries alone.
pub proof fn entries_are_counted_under_their_groups(
    by_operation: Table<Vec<Measure>>,
    by_tag: Table<Table<Vec<Measure>>>,
    entries: Seq<CostEntry>,
    i: int,
    key: Seq<char>,
)
    requires
        grouped_by_operation(by_operation, entries),
        grouped_by_tag(by_tag, entries),
        0 <= i < entries.len(),
    ensures
        ({
            let operation = entries[i].operation@;
            &&& by_operation@.contains_key(operation)
            &&& by_operation@[operation]@ == amounts(entries, ScopeModel::Operation(operation))
        }),
        entries[i].tags@.contains_key(key) ==> {
            let value = entries[i].tags@[key]@;
            &&& by_tag@.contains_key(key)
            &&& by_tag@[key]@.contains_key(value)
            &&& by_tag@[key]@[value]@ == amounts(entries, ScopeModel::Tag(key, value))
        },
{
    let operation = entries[i].operation@;
    assert(has_operation(entries, operation));
    assert(by_operation@.contains_key(operation));
    if entries[i].tags@.contains_key(key) {
        let value = entries[i].tags@[key]@;
        assert(has_tag(entries, key));
        assert(by_tag@.contains_key(key));
        assert(ScopeModel::Tag(key, value).covers(entries[i]));
        assert(has_tag_value(entries, key, value));
        assert(grouped_by_value(by_tag@[key], entries, key));
        assert(by_tag@[key]@.contains_key(value));
    }
}

/// A suggestion is made for each finding, with the severity of its kind, and names what it
/// is about.
pub proof fn suggestions_follow_the_findings(
    suggestions: Seq<OptimizationSuggestion>,
    found: Seq<FindingModel>,
    i: int,
)
    requires
        are_suggestions(suggestions, found),
        0 <= i < found.len(),
    ensures
        suggestions.len() == found.len(),
        suggestions[i].finding@ == found[i],
        suggestions[i].severity == match found[i] {
            FindingModel::DominatesCost { .. } => OptimizationSeverity::High,
            FindingModel::DominatesGas { .. } => OptimizationSeverity::High,
            FindingModel::BudgetReached { .. } => OptimizationSeverity::Medium,
            FindingModel::NoGasData { .. } => OptimizationSeverity::Low,
        },
        text_option(suggestions[i].applies_to) == Some(
            match found[i] {
                FindingModel::DominatesCost { operation, .. } => operation,
                FindingModel::DominatesGas { operation, .. } => operation,
                FindingModel::BudgetReached { category, .. } => category,
                FindingModel::NoGasData { operation, .. } => operation,
            },
        ),
{
    assert(suggestions[i].is_about(found[i]));
}

/// A dashboard shows the sums that it was given, how many entries, transactions and budgets
/// there are, and how many budgets were reached.
pub proof fn dashboards_show_the_state(
    r: CostDashboard,
    state: CostState,
    fiat: FiatTotals,
    breaches: Seq<BudgetBreach>,
    now: Time,
)
    requires
        is_dashboard(r, state, fiat, breaches, now),
    ensures
        r.fiat_summary.total_amount == fiat.total_amount,
        r.fiat_summary.entry_count == state.entries.len(),
        state.entries.len() > 0 ==> r.fiat_summary.currency@ == state.entries[0].currency@,
        r.gas_summary.tx_count == state.gas_entries.len(),
        sum(all_fees(state.gas_entries@)) <= u64::MAX ==> r.gas_summary.total_fee_stroops == sum(
            all_fees(state.gas_entries@),
        ),
        r.active_thresholds == state.thresholds.len(),
        r.breached_thresholds == breaches.len(),
        r.top_fiat_operations.len() <= 5,
        r.top_gas_operations.len() <= 5,
        forall|i: int|
            0 < i < r.top_gas_operations.len() ==> r.top_gas_operations[i - 1].total >= (
            #[trigger] r.top_gas_operations[i]).total,
{
    let gas = choose|gas: GasCostReport| #[trigger]
        is_gas_report(gas, state.gas_entries@) && r.gas_summary.total_fee_stroops
            == gas.total_fee_stroops && r.gas_summary.tx_count == gas.tx_count && are_top_fees(
            r.top_gas_operations@,
            gas.by_operation@,
        );
    assert forall|i: int| 0 < i < r.top_gas_operations.len() implies r.top_gas_operations[i
        - 1].total >= (#[trigger] r.top_gas_operations[i]).total by {
        assert(r.top_gas_operations@[i].total == gas.by_operation@[i].total_fee_stroops);
        assert(r.top_gas_operations@[i - 1].total == gas.by_operation@[i - 1].total_fee_stroops);
        assert(gas.by_operation[i - 1].total_fee_stroops >= gas.by_operation[i].total_fee_stroops);
    }
}

} // verus!
