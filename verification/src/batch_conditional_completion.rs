//! Conditional completion of batches.
//!
//! A condition is evaluated on every item of a batch. An item completes where
//! the condition holds, is skipped where it does not, and is invalid where the
//! condition cannot be evaluated. No item keeps the others from being
//! evaluated.

use vstd::prelude::*;

use crate::ratio::Ratio;

verus! {

/// What became of an item.
#[derive(Debug, Clone, PartialEq, Eq)]
pub enum ConditionalOutcome {
    Completed,
    Skipped { reason: String },
    Invalid { error: String },
}

/// What an outcome says.
pub enum OutcomeModel {
    Completed,
    Skipped(Seq<char>),
    Invalid(Seq<char>),
}

impl ConditionalOutcome {
    pub open spec fn view(&self) -> OutcomeModel {
        match self {
            ConditionalOutcome::Completed => OutcomeModel::Completed,
            ConditionalOutcome::Skipped { reason } => OutcomeModel::Skipped(reason@),
            ConditionalOutcome::Invalid { error } => OutcomeModel::Invalid(error@),
        }
    }
}

/// An item's key and what became of it.
#[derive(Debug, Clone)]
pub struct ConditionalItemResult {
    pub key: String,
    pub outcome: ConditionalOutcome,
}

/// What became of a batch.
pub struct BatchConditionalResult {
    pub total: usize,
    pub completed: usize,
    pub skipped: usize,
    pub invalid: usize,
    /// The completed items over all; 1 over 1 where there are none.
    pub completion_rate: Ratio,
    pub items: Vec<ConditionalItemResult>,
}

/// The reason that is given where the caller gives none.
pub const DEFAULT_SKIP_REASON: &'static str = "condition not met";

/// The text is the reason for skipping an item.
pub open spec fn skip_reason<T, R: Fn(&T) -> String>(
    reason_fn: Option<R>,
    item: T,
    text: Seq<char>,
) -> bool {
    match reason_fn {
        Some(f) => exists|s: String| #[trigger] f.ensures((&item,), s) && s@ == text,
        None => text == DEFAULT_SKIP_REASON@,
    }
}

/// The outcome follows from what the condition says of an item.
pub open spec fn judged<T, F: Fn(&T) -> Result<bool, String>, R: Fn(&T) -> String>(
    condition_fn: F,
    reason_fn: Option<R>,
    item: T,
    outcome: OutcomeModel,
) -> bool {
    exists|answer: Result<bool, String>| #[trigger]
        condition_fn.ensures((&item,), answer) && match answer {
            Ok(true) => outcome is Completed,
            Ok(false) => outcome is Skipped && skip_reason(reason_fn, item, outcome->Skipped_0),
            Err(e) => outcome == OutcomeModel::Invalid(e@),
        }
}

/// The number of completed items among the results.
pub open spec fn count_completed(items: Seq<ConditionalItemResult>) -> nat
    decreases items.len(),
{
    if items.len() == 0 {
        0
    } else {
        count_completed(items.drop_last()) + if items.last().outcome@ is Completed {
            1nat
        } else {
            0nat
        }
    }
}

/// The number of skipped items among the results.
pub open spec fn count_skipped(items: Seq<ConditionalItemResult>) -> nat
    decreases items.len(),
{
    if items.len() == 0 {
        0
    } else {
        count_skipped(items.drop_last()) + if items.last().outcome@ is Skipped {
            1nat
        } else {
            0nat
        }
    }
}

/// The number of invalid items among the results.
pub open spec fn count_invalid(items: Seq<ConditionalItemResult>) -> nat
    decreases items.len(),
{
    if items.len() == 0 {
        0
    } else {
        count_invalid(items.drop_last()) + if items.last().outcome@ is Invalid {
            1nat
        } else {
            0nat
        }
    }
}

impl BatchConditionalResult {
    /// The counters are those of the items.
    pub open spec fn adds_up(&self) -> bool {
        &&& self.total == self.items@.len()
        &&& self.completed == count_completed(self.items@)
        &&& self.skipped == count_skipped(self.items@)
        &&& self.invalid == count_invalid(self.items@)
        &&& self.completed + self.skipped + self.invalid == self.total
        &&& self.completion_rate == if self.total == 0 {
            Ratio { numerator: 1, denominator: 1 }
        } else {
            Ratio { numerator: self.completed as u128, denominator: self.total as u64 }
        }
    }
}

/// The condition can be asked of every item of the batch.
pub open spec fn takes_items<T, F: Fn(&T) -> Result<bool, String>>(
    condition_fn: F,
    items: Seq<(String, T)>,
) -> bool {
    forall|i: int| 0 <= i < items.len() ==> condition_fn.requires((&(#[trigger] items[i]).1,))
}

/// A reason can be asked for every item of the batch.
pub open spec fn explains_items<T, R: Fn(&T) -> String>(
    reason_fn: R,
    items: Seq<(String, T)>,
) -> bool {
    forall|i: int| 0 <= i < items.len() ==> reason_fn.requires((&(#[trigger] items[i]).1,))
}

/// Evaluates conditions on batches.
pub struct BatchConditionalProcessor;

impl BatchConditionalProcessor {
    /// Evaluates the condition on every item, in order. Where it does not hold
    /// of an item, the reason is that of `skip_reason_fn`, or a usual one.
    pub fn process<T, F: Fn(&T) -> Result<bool, String>, R: Fn(&T) -> String>(
        items: Vec<(String, T)>,
        condition_fn: F,
        skip_reason_fn: Option<R>,
    ) -> (r: BatchConditionalResult)
        requires
            takes_items(condition_fn, items@),
            skip_reason_fn matches Some(f) ==> explains_items(f, items@),
        ensures
            r.adds_up(),
            r.items@.len() == items@.len(),
            forall|i: int|
                0 <= i < items@.len() ==> (#[trigger] r.items@[i]).key@ == items@[i].0@ && judged(
                    condition_fn,
                    skip_reason_fn,
                    items@[i].1,
                    r.items@[i].outcome@,
                ),
    {
        let mut results: Vec<ConditionalItemResult> = Vec::new();
        let mut completed: usize = 0;
        let mut skipped: usize = 0;
        let mut invalid: usize = 0;
        let mut i: usize = 0;
        while i < items.len()
            invariant
                i <= items.len(),
                results@.len() == i,
                completed == count_completed(results@),
                skipped == count_skipped(results@),
                invalid == count_invalid(results@),
                completed + skipped + invalid == i,
                takes_items(condition_fn, items@),
                skip_reason_fn matches Some(f) ==> explains_items(f, items@),
                forall|j: int|
                    0 <= j < i ==> (#[trigger] results@[j]).key@ == items@[j].0@ && judged(
                        condition_fn,
                        skip_reason_fn,
                        items@[j].1,
                        results@[j].outcome@,
                    ),
            decreases items.len() - i,
        {
            let item = &items[i].1;
            let ghost earlier = results@;
            let answer = condition_fn(item);
            assert(condition_fn.ensures((item,), answer));
            let outcome = match answer {
                Ok(true) => {
                    completed = completed + 1;
                    ConditionalOutcome::Completed
                },
                Ok(false) => {
                    skipped = skipped + 1;
                    let reason = match &skip_reason_fn {
                        Some(f) => {
                            let text = f(item);
                            assert(f.ensures((item,), text));
                            text
                        },
                        None => DEFAULT_SKIP_REASON.to_owned(),
                    };
                    ConditionalOutcome::Skipped { reason }
                },
                Err(error) => {
                    invalid = invalid + 1;
                    ConditionalOutcome::Invalid { error }
                },
            };
            assert(judged(condition_fn, skip_reason_fn, *item, outcome@));
            results.push(ConditionalItemResult { key: items[i].0.clone(), outcome });
            assert(results@.drop_last() =~= earlier);
            i = i + 1;
        }
        let total = results.len();
        let completion_rate = if total == 0 {
            Ratio { numerator: 1, denominator: 1 }
        } else {
            Ratio { numerator: completed as u128, denominator: total as u64 }
        };
        BatchConditionalResult { total, completed, skipped, invalid, completion_rate, items: results }
    }

    /// Evaluates the condition on every item, with the usual reason for
    /// skipping.
    pub fn process_simple<T, F: Fn(&T) -> Result<bool, String>>(
        items: Vec<(String, T)>,
        condition_fn: F,
    ) -> (r: BatchConditionalResult)
        requires
            takes_items(condition_fn, items@),
        ensures
            r.adds_up(),
            r.items@.len() == items@.len(),
            forall|i: int|
                0 <= i < items@.len() ==> (#[trigger] r.items@[i]).key@ == items@[i].0@
                    && judged_simply(condition_fn, items@[i].1, r.items@[i].outcome@),
    {
        let usual = |_item: &T| -> (s: String)
            ensures
                s@ == DEFAULT_SKIP_REASON@,
            { DEFAULT_SKIP_REASON.to_owned() };
        let r = Self::process(items, condition_fn, Some(usual));
        assert forall|i: int| 0 <= i < items@.len() implies (#[trigger] r.items@[i]).key@
            == items@[i].0@ && judged_simply(condition_fn, items@[i].1, r.items@[i].outcome@) by {
            assert(judged(condition_fn, Some(usual), items@[i].1, r.items@[i].outcome@));
        }
        r
    }
}

/// The outcome follows from what the condition says of an item, with the
/// usual reason for skipping.
pub open spec fn judged_simply<T, F: Fn(&T) -> Result<bool, String>>(
    condition_fn: F,
    item: T,
    outcome: OutcomeModel,
) -> bool {
    exists|answer: Result<bool, String>| #[trigger]
        condition_fn.ensures((&item,), answer) && match answer {
            Ok(true) => outcome is Completed,
            Ok(false) => outcome == OutcomeModel::Skipped(DEFAULT_SKIP_REASON@),
            Err(e) => outcome == OutcomeModel::Invalid(e@),
        }
}

/// The completion rate lies between 0 and 1, and is 1 for an empty batch.
pub proof fn rates_are_fractions(r: BatchConditionalResult)
    requires
        r.adds_up(),
    ensures
        r.completion_rate.numerator <= r.completion_rate.denominator,
        r.completion_rate.denominator > 0,
        r.total == 0 ==> r.completion_rate.numerator == r.completion_rate.denominator,
{
}

/// Where the condition gives one answer on an item, the answer decides: an item on which
/// it holds completes, one on which it does not is skipped, and one on which it fails is
/// invalid with its error.
pub proof fn conditions_decide_outcomes<
    T,
    F: Fn(&T) -> Result<bool, String>,
    R: Fn(&T) -> String,
>(
    condition_fn: F,
    reason_fn: Option<R>,
    item: T,
    outcome: OutcomeModel,
    answer: Result<bool, String>,
)
    requires
        judged(condition_fn, reason_fn, item, outcome) || judged_simply(
            condition_fn,
            item,
            outcome,
        ),
        forall|a: Result<bool, String>| #[trigger]
            condition_fn.ensures((&item,), a) ==> a == answer,
    ensures
        outcome is Completed <==> answer == Ok::<bool, String>(true),
        outcome is Skipped <==> answer == Ok::<bool, String>(false),
        outcome is Invalid <==> answer is Err,
        answer matches Err(e) ==> outcome == OutcomeModel::Invalid(e@),
{
}

/// The counters tell how many items came to each end.
pub proof fn counters_count_outcomes(r: BatchConditionalResult)
    requires
        r.adds_up(),
    ensures
        r.completed == r.items@.filter(
            |item: ConditionalItemResult| item.outcome is Completed,
        ).len(),
        r.skipped == r.items@.filter(|item: ConditionalItemResult| item.outcome is Skipped).len(),
        r.invalid == r.items@.filter(|item: ConditionalItemResult| item.outcome is Invalid).len(),
        r.total == r.items.len(),
        r.total > 0 ==> r.completion_rate.numerator == r.completed
            && r.completion_rate.denominator == r.total,
{
    lemma_counts(r.items@);
}

proof fn lemma_counts(items: Seq<ConditionalItemResult>)
    ensures
        count_completed(items) == items.filter(
            |item: ConditionalItemResult| item.outcome is Completed,
        ).len(),
        count_skipped(items) == items.filter(
            |item: ConditionalItemResult| item.outcome is Skipped,
        ).len(),
        count_invalid(items) == items.filter(
            |item: ConditionalItemResult| item.outcome is Invalid,
        ).len(),
    decreases items.len(),
{
    reveal(Seq::filter);
    if items.len() > 0 {
        lemma_counts(items.drop_last());
    }
}

} // verus!
