//! Bulk operations.
//!
//! A bulk request holds many check-ins or many withdrawals. Every item is
//! judged on its own: the accepted ones get an operation id, the others a
//! complaint.

use vstd::prelude::*;

use crate::json::{JsonModel, JsonValue};
use crate::measure::Measure;
use crate::text::{decimal, push_decimal, text_option, texts};

verus! {

/// The number of items that a request holds at most.
pub const MAX_ITEMS: usize = 1000;

/// The text is a date and time in the form of RFC 3339.
pub uninterp spec fn is_rfc3339(text: Seq<char>) -> bool;

/// `chrono::DateTime::parse_from_rfc3339`: whether it reads the text. Which
/// texts it reads is not stated, only that it depends on the text alone.
#[verifier::external_body]
fn reads_as_rfc3339(text: &str) -> (r: bool)
    ensures
        r == is_rfc3339(text@),
{
    chrono::DateTime::parse_from_rfc3339(text).is_ok()
}

/// A bulk request.
#[derive(Debug)]
pub enum BulkOperationRequest {
    CheckIns(Vec<JsonValue>),
    Withdrawals(Vec<JsonValue>),
}

/// How many operations of a request succeeded: all, some or none.
#[derive(Debug, Clone, Copy, PartialEq, Eq, Structural)]
pub enum BulkOperationStatus {
    Success,
    PartialSuccess,
    Failed,
}

/// What became of a bulk request.
#[derive(Debug)]
pub struct BulkOperationResponse {
    pub status: BulkOperationStatus,
    pub total_operations: usize,
    pub failed_operations: usize,
    pub operation_ids: Vec<String>,
    pub results: Vec<JsonValue>,
    pub error_messages: Vec<String>,
}

/// The contents of the items.
pub open spec fn values_view(items: Seq<JsonValue>) -> Seq<JsonModel> {
    items.map_values(|v: JsonValue| v@)
}

/// The places that were judged so, in order.
pub open spec fn places(accepted: Seq<bool>, wanted: bool) -> Seq<int>
    decreases accepted.len(),
{
    if accepted.len() == 0 {
        Seq::empty()
    } else {
        let head = places(accepted.drop_last(), wanted);
        if accepted.last() == wanted {
            head.push(accepted.len() - 1)
        } else {
            head
        }
    }
}

/// The id of the operation at a place.
pub open spec fn operation_id(i: int) -> Seq<char> {
    "op_"@ + decimal(i as nat)
}

/// The complaint about the item at a place.
pub open spec fn complaint_text(i: int, complaint: Seq<char>) -> Seq<char> {
    "Item "@ + decimal(i as nat) + complaint
}

/// The status of a request with so many items, of which so many failed.
pub open spec fn status_of(total: nat, failed: nat) -> BulkOperationStatus {
    if failed == 0 {
        BulkOperationStatus::Success
    } else if failed < total {
        BulkOperationStatus::PartialSuccess
    } else {
        BulkOperationStatus::Failed
    }
}

/// The response to items that were judged so.
pub open spec fn responds(
    r: BulkOperationResponse,
    items: Seq<JsonValue>,
    accepted: Seq<bool>,
    complaint: Seq<char>,
) -> bool {
    let good = places(accepted, true);
    let bad = places(accepted, false);
    &&& r.total_operations == items.len()
    &&& r.failed_operations == bad.len()
    &&& r.status == status_of(items.len(), bad.len())
    &&& texts(r.operation_ids@) == good.map_values(|i: int| operation_id(i))
    &&& values_view(r.results@) == good.map_values(|i: int| items[i]@)
    &&& texts(r.error_messages@) == bad.map_values(|i: int| complaint_text(i, complaint))
}

/// The complaint about a check-in.
pub const CHECK_IN_COMPLAINT: &'static str = " missing required fields";

/// The complaint about a withdrawal.
pub const WITHDRAWAL_COMPLAINT: &'static str = " has invalid user or amount";

/// A check-in names a user and a time. A user that is a text must not be
/// empty, and a time that is a text must be in the form of RFC 3339.
pub open spec fn valid_check_in(item: JsonModel, time_is_rfc3339: bool) -> bool {
    &&& item.field("user_id"@) is Some
    &&& item.field("user_id"@)->0.text() != Some(Seq::<char>::empty())
    &&& item.field("timestamp"@) is Some
    &&& item.field("timestamp"@)->0.text() is Some ==> time_is_rfc3339
}

/// The check-in is valid.
pub open spec fn accepts_check_in(item: JsonModel) -> bool {
    valid_check_in(item, is_rfc3339(item.field("timestamp"@)->0.text()->0))
}

/// The text of a withdrawal's amount.
pub open spec fn amount_text_of(item: JsonModel) -> Option<Seq<char>> {
    match item.field("amount"@) {
        Some(value) => value.text(),
        None => None,
    }
}

/// A withdrawal names a user and an amount above zero.
pub open spec fn valid_withdrawal(item: JsonModel, amount: Option<Measure>) -> bool {
    &&& item.field("user_id"@) is Some
    &&& amount_text_of(item) is Some
    &&& amount matches Some(m) && m.gt_spec(Measure { bits: 0 })
}

/// Whether a check-in is valid, given whether its time is in the form of RFC
/// 3339.
pub fn check_in_is_valid(item: &JsonValue, time_is_rfc3339: bool) -> (r: bool)
    ensures
        r == valid_check_in(item@, time_is_rfc3339),
{
    let user_ok = match item.get("user_id") {
        Some(user) => match user.as_str() {
            Some(text) => {
                let filled = text.unicode_len() > 0;
                assert(!filled ==> text@ =~= Seq::<char>::empty());
                filled
            },
            None => true,
        },
        None => false,
    };
    let time_ok = match item.get("timestamp") {
        Some(time) => match time.as_str() {
            Some(_) => time_is_rfc3339,
            None => true,
        },
        None => false,
    };
    user_ok && time_ok
}

/// Whether a check-in is valid.
fn judge_check_in(item: &JsonValue) -> (r: bool)
    ensures
        r == accepts_check_in(item@),
{
    let time_is_rfc3339 = match item.get("timestamp") {
        Some(time) => match time.as_str() {
            Some(text) => reads_as_rfc3339(text),
            None => true,
        },
        None => true,
    };
    check_in_is_valid(item, time_is_rfc3339)
}

/// The text of a withdrawal's amount, if it has one.
pub fn amount_text(item: &JsonValue) -> (r: Option<String>)
    ensures
        text_option(r) == amount_text_of(item@),
{
    match item.get("amount") {
        Some(value) => match value.as_str() {
            Some(text) => Some(text.to_owned()),
            None => None,
        },
        None => None,
    }
}

/// Whether a withdrawal is valid, given its amount.
pub fn withdrawal_is_valid(item: &JsonValue, amount: &Option<Measure>) -> (r: bool)
    ensures
        r == valid_withdrawal(item@, *amount),
{
    let positive = match amount {
        Some(m) => m.gt(&Measure { bits: 0 }),
        None => false,
    };
    item.get("user_id").is_some() && amount_text(item).is_some() && positive
}

proof fn lemma_places(accepted: Seq<bool>)
    ensures
        places(accepted, true).len() + places(accepted, false).len() == accepted.len(),
    decreases accepted.len(),
{
    if accepted.len() > 0 {
        lemma_places(accepted.drop_last());
    }
}

/// The response to items that were judged so.
pub fn respond(items: &Vec<JsonValue>, accepted: &Vec<bool>, complaint: &str) -> (r:
    BulkOperationResponse)
    requires
        accepted@.len() == items@.len(),
    ensures
        responds(r, items@, accepted@, complaint@),
{
    let mut failed: usize = 0;
    let mut operation_ids: Vec<String> = Vec::new();
    let mut results: Vec<JsonValue> = Vec::new();
    let mut errors: Vec<String> = Vec::new();
    let ghost id_of = |i: int| operation_id(i);
    let ghost value_of = |i: int| items@[i]@;
    let ghost error_of = |i: int| complaint_text(i, complaint@);
    let mut i: usize = 0;
    assert(texts(operation_ids@) =~= places(accepted@.take(0), true).map_values(id_of));
    assert(values_view(results@) =~= places(accepted@.take(0), true).map_values(value_of));
    assert(texts(errors@) =~= places(accepted@.take(0), false).map_values(error_of));
    while i < items.len()
        invariant
            i <= items.len(),
            accepted.len() == items.len(),
            id_of == (|i: int| operation_id(i)),
            value_of == (|i: int| items@[i]@),
            error_of == (|i: int| complaint_text(i, complaint@)),
            failed <= i,
            failed == places(accepted@.take(i as int), false).len(),
            texts(operation_ids@) == places(accepted@.take(i as int), true).map_values(id_of),
            values_view(results@) == places(accepted@.take(i as int), true).map_values(value_of),
            texts(errors@) == places(accepted@.take(i as int), false).map_values(error_of),
        decreases items.len() - i,
    {
        let ghost so_far = accepted@.take(i as int);
        assert(accepted@.take(i + 1).drop_last() =~= so_far);
        if accepted[i] {
            let mut id = "op_".to_owned();
            push_decimal(&mut id, i as u128);
            let value = items[i].copy();
            let ghost ids = texts(operation_ids@);
            let ghost values = values_view(results@);
            let ghost id_text = id@;
            let ghost model = value@;
            operation_ids.push(id);
            results.push(value);
            assert(texts(operation_ids@) =~= ids.push(id_text));
            assert(values_view(results@) =~= values.push(model));
            assert(places(so_far, true).push(i as int).map_values(id_of) =~= ids.push(id_text));
            assert(places(so_far, true).push(i as int).map_values(value_of) =~= values.push(
                model,
            ));
        } else {
            failed = failed + 1;
            let mut error = "Item ".to_owned();
            push_decimal(&mut error, i as u128);
            error.append(complaint);
            let ghost earlier = texts(errors@);
            let ghost text = error@;
            errors.push(error);
            assert(texts(errors@) =~= earlier.push(text));
            assert(places(so_far, false).push(i as int).map_values(error_of) =~= earlier.push(
                text,
            ));
        }
        i = i + 1;
    }
    assert(accepted@.take(i as int) =~= accepted@);
    let status = if failed == 0 {
        BulkOperationStatus::Success
    } else if failed < items.len() {
        BulkOperationStatus::PartialSuccess
    } else {
        BulkOperationStatus::Failed
    };
    BulkOperationResponse {
        status,
        total_operations: items.len(),
        failed_operations: failed,
        operation_ids,
        results,
        error_messages: errors,
    }
}

/// Why a request with so many items is refused.
pub open spec fn refusal_of(count: nat) -> Option<Seq<char>> {
    if count == 0 {
        Some("Empty request"@)
    } else if count > MAX_ITEMS {
        Some("Request exceeds maximum size of 1000"@)
    } else {
        None
    }
}

/// Why a request with so many items is refused, if it is.
fn refuse(count: usize) -> (r: Option<String>)
    ensures
        text_option(r) == refusal_of(count as nat),
{
    if count == 0 {
        Some("Empty request".to_owned())
    } else if count > MAX_ITEMS {
        Some("Request exceeds maximum size of 1000".to_owned())
    } else {
        None
    }
}

/// The verdicts on check-ins.
pub open spec fn check_in_verdicts(items: Seq<JsonValue>) -> Seq<bool> {
    Seq::new(items.len(), |i: int| accepts_check_in(items[i]@))
}

/// The verdicts on withdrawals with the given amounts.
pub open spec fn withdrawal_verdicts(
    items: Seq<JsonValue>,
    amounts: Seq<Option<Measure>>,
) -> Seq<bool> {
    Seq::new(items.len(), |i: int| valid_withdrawal(items[i]@, amounts[i]))
}

/// The outcome of a request whose items were judged so.
pub open spec fn outcome(
    r: Result<BulkOperationResponse, String>,
    items: Seq<JsonValue>,
    accepted: Seq<bool>,
    complaint: Seq<char>,
) -> bool {
    match refusal_of(items.len()) {
        Some(reason) => r is Err && r->Err_0@ == reason,
        None => r is Ok && responds(r->Ok_0, items, accepted, complaint),
    }
}

/// The outcome of a request of check-ins.
pub open spec fn check_ins_outcome(
    r: Result<BulkOperationResponse, String>,
    request: BulkOperationRequest,
) -> bool {
    match request {
        BulkOperationRequest::CheckIns(items) => outcome(
            r,
            items@,
            check_in_verdicts(items@),
            CHECK_IN_COMPLAINT@,
        ),
        BulkOperationRequest::Withdrawals(_) => r is Err && r->Err_0@ == "Invalid request type"@,
    }
}

/// The outcome of a request of withdrawals.
pub open spec fn withdrawals_outcome(
    r: Result<BulkOperationResponse, String>,
    request: BulkOperationRequest,
    amounts: Seq<Option<Measure>>,
) -> bool {
    match request {
        BulkOperationRequest::Withdrawals(items) => outcome(
            r,
            items@,
            withdrawal_verdicts(items@, amounts),
            WITHDRAWAL_COMPLAINT@,
        ),
        BulkOperationRequest::CheckIns(_) => r is Err && r->Err_0@ == "Invalid request type"@,
    }
}

/// Processes bulk requests.
pub struct BulkOperationsHandler;

impl Default for BulkOperationsHandler {
    fn default() -> (r: Self) {
        BulkOperationsHandler
    }
}

impl BulkOperationsHandler {
    /// A handler.
    pub fn new() -> (r: Self) {
        BulkOperationsHandler
    }

    /// Processes a request of check-ins.
    pub fn process_bulk_check_ins(&self, request: &BulkOperationRequest) -> (r: Result<
        BulkOperationResponse,
        String,
    >)
        ensures
            check_ins_outcome(r, *request),
    {
        match request {
            BulkOperationRequest::CheckIns(items) => {
                match refuse(items.len()) {
                    Some(reason) => {
                        return Err(reason);
                    },
                    None => {},
                }
                let mut accepted: Vec<bool> = Vec::new();
                let mut i: usize = 0;
                while i < items.len()
                    invariant
                        i <= items.len(),
                        accepted@ =~= check_in_verdicts(items@).take(i as int),
                    decreases items.len() - i,
                {
                    accepted.push(judge_check_in(&items[i]));
                    i = i + 1;
                }
                assert(accepted@ =~= check_in_verdicts(items@));
                Ok(respond(items, &accepted, CHECK_IN_COMPLAINT))
            },
            BulkOperationRequest::Withdrawals(_) => Err("Invalid request type".to_owned()),
        }
    }

    /// Processes a request of withdrawals. For each item comes the number that
    /// its amount reads as, if it reads as one.
    pub fn process_bulk_withdrawals(
        &self,
        request: &BulkOperationRequest,
        amounts: &Vec<Option<Measure>>,
    ) -> (r: Result<BulkOperationResponse, String>)
        requires
            *request matches BulkOperationRequest::Withdrawals(items) ==> amounts@.len()
                == items@.len(),
        ensures
            withdrawals_outcome(r, *request, amounts@),
    {
        match request {
            BulkOperationRequest::Withdrawals(items) => {
                match refuse(items.len()) {
                    Some(reason) => {
                        return Err(reason);
                    },
                    None => {},
                }
                let mut accepted: Vec<bool> = Vec::new();
                let mut i: usize = 0;
                while i < items.len()
                    invariant
                        i <= items.len(),
                        amounts.len() == items.len(),
                        accepted@ =~= withdrawal_verdicts(items@, amounts@).take(i as int),
                    decreases items.len() - i,
                {
                    accepted.push(withdrawal_is_valid(&items[i], &amounts[i]));
                    i = i + 1;
                }
                assert(accepted@ =~= withdrawal_verdicts(items@, amounts@));
                Ok(respond(items, &accepted, WITHDRAWAL_COMPLAINT))
            },
            BulkOperationRequest::CheckIns(_) => Err("Invalid request type".to_owned()),
        }
    }

    /// Processes a request of either kind.
    pub fn process_with_atomic_transaction(
        &self,
        request: &BulkOperationRequest,
        amounts: &Vec<Option<Measure>>,
    ) -> (r: Result<BulkOperationResponse, String>)
        requires
            *request matches BulkOperationRequest::Withdrawals(items) ==> amounts@.len()
                == items@.len(),
        ensures
            *request is CheckIns ==> check_ins_outcome(r, *request),
            *request is Withdrawals ==> withdrawals_outcome(r, *request, amounts@),
    {
        match request {
            BulkOperationRequest::CheckIns(_) => self.process_bulk_check_ins(request),
            BulkOperationRequest::Withdrawals(_) => self.process_bulk_withdrawals(
                request,
                amounts,
            ),
        }
    }
}

/// Every item of a request is either accepted or complained about.
pub proof fn every_item_is_answered(
    r: BulkOperationResponse,
    items: Seq<JsonValue>,
    accepted: Seq<bool>,
    complaint: Seq<char>,
)
    requires
        accepted.len() == items.len(),
        responds(r, items, accepted, complaint),
    ensures
        r.operation_ids@.len() + r.error_messages@.len() == r.total_operations,
        r.results@.len() == r.operation_ids@.len(),
        r.error_messages@.len() == r.failed_operations,
        r.status is Success <==> r.error_messages@.len() == 0,
        items.len() > 0 ==> (r.status is Failed <==> r.operation_ids@.len() == 0),
{
    lemma_places(accepted);
    assert(texts(r.operation_ids@).len() == r.operation_ids@.len());
    assert(values_view(r.results@).len() == r.results@.len());
    assert(texts(r.error_messages@).len() == r.error_messages@.len());
}

proof fn lemma_places_are_those(accepted: Seq<bool>, wanted: bool)
    ensures
        forall|k: int|
            0 <= k < places(accepted, wanted).len() ==> 0 <= (#[trigger] places(
                accepted,
                wanted,
            )[k]) < accepted.len() && accepted[places(accepted, wanted)[k]] == wanted,
        forall|i: int|
            0 <= i < accepted.len() && #[trigger] accepted[i] == wanted ==> places(
                accepted,
                wanted,
            ).contains(i),
        forall|j: int, k: int|
            0 <= j < k < places(accepted, wanted).len() ==> (#[trigger] places(accepted, wanted)[j])
                < (#[trigger] places(accepted, wanted)[k]),
    decreases accepted.len(),
{
    if accepted.len() > 0 {
        let rest = accepted.drop_last();
        let earlier = places(rest, wanted);
        let all = places(accepted, wanted);
        lemma_places_are_those(rest, wanted);
        assert forall|k: int| 0 <= k < all.len() implies 0 <= (#[trigger] all[k]) < accepted.len()
            && accepted[all[k]] == wanted by {
            if k < earlier.len() {
                assert(all[k] == earlier[k]);
                assert(rest[earlier[k]] == accepted[earlier[k]]);
            }
        }
        assert forall|i: int| 0 <= i < accepted.len() && #[trigger] accepted[i] == wanted implies all.contains(
            i,
        ) by {
            if i < rest.len() {
                assert(rest[i] == wanted);
                assert(all[earlier.index_of(i)] == i);
            } else {
                assert(all[all.len() - 1] == i);
            }
        }
        assert forall|j: int, k: int| 0 <= j < k < all.len() implies (#[trigger] all[j]) < (
        #[trigger] all[k]) by {
            assert(all[j] == earlier[j]);
            if k < earlier.len() {
                assert(all[k] == earlier[k]);
            }
        }
    }
}

/// Each item that was accepted is answered with the operation id of its place and with
/// itself, and each item that was not with a complaint that names its place. A request
/// succeeds where every item was accepted and fails where none was.
pub proof fn items_are_answered_by_their_verdicts(
    r: BulkOperationResponse,
    items: Seq<JsonValue>,
    accepted: Seq<bool>,
    complaint: Seq<char>,
    i: int,
)
    requires
        accepted.len() == items.len(),
        responds(r, items, accepted, complaint),
        0 <= i < items.len(),
    ensures
        accepted[i] ==> exists|j: int|
            0 <= j < r.results.len() && (#[trigger] r.results[j])@ == items[i]@
                && r.operation_ids[j]@ == "op_"@ + decimal(i as nat),
        !accepted[i] ==> exists|j: int|
            0 <= j < r.error_messages.len() && (#[trigger] r.error_messages[j])@ == "Item "@
                + decimal(i as nat) + complaint,
        r.status is Success <==> forall|k: int| 0 <= k < accepted.len() ==> #[trigger] accepted[k],
        r.status is Failed <==> forall|k: int| 0 <= k < accepted.len() ==> !#[trigger] accepted[k],
        r.failed_operations + r.results.len() == items.len(),
{
    let good = places(accepted, true);
    let bad = places(accepted, false);
    lemma_places(accepted);
    lemma_places_are_those(accepted, true);
    lemma_places_are_those(accepted, false);
    every_item_is_answered(r, items, accepted, complaint);
    if accepted[i] {
        let j = good.index_of(i);
        assert(good.contains(i));
        assert(values_view(r.results@)[j] == r.results[j]@);
        assert(good.map_values(|i: int| items[i]@)[j] == items[i]@);
        assert(texts(r.operation_ids@)[j] == r.operation_ids[j]@);
        assert(good.map_values(|i: int| operation_id(i))[j] == operation_id(i));
    } else {
        let j = bad.index_of(i);
        assert(bad.contains(i));
        assert(texts(r.error_messages@)[j] == r.error_messages[j]@);
        assert(bad.map_values(|i: int| complaint_text(i, complaint))[j] == complaint_text(
            i,
            complaint,
        ));
    }
    if forall|k: int| 0 <= k < accepted.len() ==> #[trigger] accepted[k] {
        if bad.len() > 0 {
            assert(!accepted[bad[0]]);
        }
    } else {
        let k = choose|k: int| 0 <= k < accepted.len() && !#[trigger] accepted[k];
        assert(bad.contains(k));
    }
    if forall|k: int| 0 <= k < accepted.len() ==> !#[trigger] accepted[k] {
        if good.len() > 0 {
            assert(accepted[good[0]]);
        }
    } else {
        let k = choose|k: int| 0 <= k < accepted.len() && #[trigger] accepted[k];
        assert(good.contains(k));
    }
}

/// A request is refused exactly where it is empty, holds more than a thousand items, or
/// is of the other kind.
pub proof fn requests_of_fitting_size_are_taken(
    r: Result<BulkOperationResponse, String>,
    request: BulkOperationRequest,
    amounts: Seq<Option<Measure>>,
)
    ensures
        check_ins_outcome(r, request) ==> (r is Ok <==> (request matches BulkOperationRequest::CheckIns(
            items,
        ) && 1 <= items.len() <= 1000)),
        withdrawals_outcome(r, request, amounts) ==> (r is Ok <==> (
        request matches BulkOperationRequest::Withdrawals(items) && 1 <= items.len() <= 1000)),
{
}

/// A withdrawal is accepted exactly where it names a user and its amount is a text that
/// reads as a number above zero; of two amounts above zero neither is better.
pub proof fn withdrawals_need_an_amount_above_zero(item: JsonModel, amount: Option<Measure>)
    ensures
        valid_withdrawal(item, amount) ==> amount is Some && !amount->0.is_nan_spec()
            && amount->0.rank() > 0 && item.field("user_id"@) is Some && (item.field(
            "amount"@,
        ) matches Some(v) && v.text() is Some),
        amount matches Some(m) && !m.is_nan_spec() && m.rank() > 0 && item.field(
            "user_id"@,
        ) is Some && (item.field("amount"@) matches Some(v) && v.text() is Some)
            ==> valid_withdrawal(item, amount),
{
}

/// A check-in needs a user and a time. One whose user is an empty text, or whose time is
/// a text in another form than RFC 3339, is refused; any other is accepted.
pub proof fn check_ins_need_a_user_and_a_time(item: JsonModel)
    ensures
        item.field("user_id"@) is None || item.field("timestamp"@) is None ==> !accepts_check_in(
            item,
        ),
        item.field("user_id"@) matches Some(user) && (user.text() matches Some(name) && name.len()
            == 0) ==> !accepts_check_in(item),
        item.field("timestamp"@) matches Some(time) && (time.text() matches Some(text)
            && !is_rfc3339(text)) ==> !accepts_check_in(item),
        (item.field("user_id"@) matches Some(user) && (user.text() matches Some(name)
            ==> name.len() > 0)) && (item.field("timestamp"@) matches Some(time) && (
        time.text() matches Some(text) ==> is_rfc3339(text))) ==> accepts_check_in(item),
{
    if item.field("user_id"@) is Some && item.field("user_id"@)->0.text() is Some {
        let name = item.field("user_id"@)->0.text()->0;
        if name.len() == 0 {
            assert(name =~= Seq::<char>::empty());
        }
    }
}

} // verus!
