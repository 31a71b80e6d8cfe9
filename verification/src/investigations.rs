//! Investigations of anomalies.
//!
//! Every action of an investigator on an alert is appended to the trail of that
//! alert. Trails are never changed otherwise. An investigation is opened first,
//! and a closed one takes no action but its reopening.

use vstd::prelude::*;

use crate::anomaly_detection::{Alert, AnomalyStore};
use crate::clock::{utc_now, wall_clock_shows, Time};
use crate::ids::{is_new_id, new_id};
use crate::table::Table;
use crate::text::{copy_option, is_blank, same, trimmed};

verus! {

/// What an investigator did.
#[derive(Debug, Clone, Copy, PartialEq, Eq, Structural)]
pub enum InvestigationAction {
    Opened,
    Assigned,
    NoteAdded,
    DecisionRecorded,
    Closed,
    Reopened,
}

#[derive(Debug, Clone, Copy, PartialEq, Eq, Structural)]
pub enum InvestigationDecision {
    TruePositive,
    FalsePositive,
    ExpectedBehavior,
    Escalated,
}

#[derive(Debug, Clone, Copy, PartialEq, Eq, Structural)]
pub enum InvestigationStatus {
    Open,
    Closed,
}

#[derive(Debug, Clone, Copy, PartialEq, Eq, Structural)]
pub enum InvestigationError {
    AnomalyNotFound,
    MissingInvestigator,
    NotOpened,
    AlreadyOpen,
    Closed,
    MissingDecision,
    MissingAssignee,
}

impl InvestigationError {
    pub open spec fn message_spec(self) -> Seq<char> {
        match self {
            InvestigationError::AnomalyNotFound => "no alert or system anomaly with this id"@,
            InvestigationError::MissingInvestigator => "investigator must be non-empty"@,
            InvestigationError::NotOpened => "investigation has not been opened"@,
            InvestigationError::AlreadyOpen => "investigation is already open"@,
            InvestigationError::Closed => "investigation is closed; reopen it first"@,
            InvestigationError::MissingDecision => "this action requires a decision"@,
            InvestigationError::MissingAssignee => "this action requires an assignee"@,
        }
    }

    /// The error in words.
    pub fn message(&self) -> (r: String)
        ensures
            r@ == self.message_spec(),
    {
        match self {
            InvestigationError::AnomalyNotFound => "no alert or system anomaly with this id".to_owned(),
            InvestigationError::MissingInvestigator => "investigator must be non-empty".to_owned(),
            InvestigationError::NotOpened => "investigation has not been opened".to_owned(),
            InvestigationError::AlreadyOpen => "investigation is already open".to_owned(),
            InvestigationError::Closed => "investigation is closed; reopen it first".to_owned(),
            InvestigationError::MissingDecision => "this action requires a decision".to_owned(),
            InvestigationError::MissingAssignee => "this action requires an assignee".to_owned(),
        }
    }

    /// The HTTP status that reports the error: an unknown anomaly is not
    /// found, an action that the state does not allow is a conflict, and an
    /// incomplete request is a bad one.
    pub fn status(&self) -> (r: u16)
        ensures
            r == match *self {
                InvestigationError::AnomalyNotFound => 404u16,
                InvestigationError::NotOpened => 409u16,
                InvestigationError::AlreadyOpen => 409u16,
                InvestigationError::Closed => 409u16,
                _ => 400u16,
            },
    {
        match self {
            InvestigationError::AnomalyNotFound => 404,
            InvestigationError::NotOpened => 409,
            InvestigationError::AlreadyOpen => 409,
            InvestigationError::Closed => 409,
            InvestigationError::MissingInvestigator => 400,
            InvestigationError::MissingDecision => 400,
            InvestigationError::MissingAssignee => 400,
        }
    }
}

/// An entry of an investigation's trail.
#[derive(Debug)]
pub struct InvestigationEntry {
    pub id: String,
    pub anomaly_id: String,
    /// Place in the trail, from one.
    pub sequence: u64,
    pub investigator: String,
    pub action: InvestigationAction,
    pub decision: Option<InvestigationDecision>,
    pub assignee: Option<String>,
    pub notes: Option<String>,
    /// Status after the action.
    pub status: InvestigationStatus,
    pub timestamp: Time,
}

impl Clone for InvestigationEntry {
    fn clone(&self) -> (r: Self)
        ensures
            r == *self,
    {
        InvestigationEntry {
            id: self.id.clone(),
            anomaly_id: self.anomaly_id.clone(),
            sequence: self.sequence,
            investigator: self.investigator.clone(),
            action: self.action,
            decision: self.decision,
            assignee: copy_option(&self.assignee),
            notes: copy_option(&self.notes),
            status: self.status,
            timestamp: self.timestamp,
        }
    }
}

/// An action that is to be recorded.
#[derive(Debug)]
pub struct InvestigationRequest {
    pub investigator: String,
    pub action: InvestigationAction,
    pub decision: Option<InvestigationDecision>,
    pub assignee: Option<String>,
    pub notes: Option<String>,
}

impl InvestigationAction {
    /// The status that an action leads to.
    pub open spec fn leads_to(self) -> InvestigationStatus {
        if self == InvestigationAction::Closed {
            InvestigationStatus::Closed
        } else {
            InvestigationStatus::Open
        }
    }

    /// Whether an action is in order in a status: an investigation starts by
    /// being opened, and a closed one goes on by being reopened.
    pub open spec fn refused_in(self, status: Option<InvestigationStatus>) -> Option<
        InvestigationError,
    > {
        match status {
            None => if self == InvestigationAction::Opened {
                None
            } else {
                Some(InvestigationError::NotOpened)
            },
            Some(InvestigationStatus::Open) => if self == InvestigationAction::Opened || self
                == InvestigationAction::Reopened {
                Some(InvestigationError::AlreadyOpen)
            } else {
                None
            },
            Some(InvestigationStatus::Closed) => if self == InvestigationAction::Reopened {
                None
            } else {
                Some(InvestigationError::Closed)
            },
        }
    }

    fn status_after(self) -> (r: InvestigationStatus)
        ensures
            r == self.leads_to(),
    {
        match self {
            InvestigationAction::Closed => InvestigationStatus::Closed,
            _ => InvestigationStatus::Open,
        }
    }

    fn objection(self, status: Option<InvestigationStatus>) -> (r: Option<InvestigationError>)
        ensures
            r == self.refused_in(status),
    {
        match status {
            None => match self {
                InvestigationAction::Opened => None,
                _ => Some(InvestigationError::NotOpened),
            },
            Some(InvestigationStatus::Open) => match self {
                InvestigationAction::Opened => Some(InvestigationError::AlreadyOpen),
                InvestigationAction::Reopened => Some(InvestigationError::AlreadyOpen),
                _ => None,
            },
            Some(InvestigationStatus::Closed) => match self {
                InvestigationAction::Reopened => None,
                _ => Some(InvestigationError::Closed),
            },
        }
    }
}

/// There is an alert with this id.
pub open spec fn alert_exists(alerts: Seq<Alert>, id: Seq<char>) -> bool {
    exists|i: int| 0 <= i < alerts.len() && (#[trigger] alerts[i]).id@ == id
}

fn is_known(alerts: &Vec<Alert>, id: &str) -> (r: bool)
    ensures
        r == alert_exists(alerts@, id@),
{
    let mut i: usize = 0;
    while i < alerts.len()
        invariant
            i <= alerts.len(),
            forall|j: int| 0 <= j < i ==> (#[trigger] alerts[j]).id@ != id@,
        decreases alerts.len() - i,
    {
        if same(alerts[i].id.as_str(), id) {
            return true;
        }
        i = i + 1;
    }
    false
}

/// The status that a trail leads to.
pub open spec fn status_of(trail: Seq<InvestigationEntry>) -> Option<InvestigationStatus> {
    if trail.len() == 0 {
        None
    } else {
        Some(trail.last().status)
    }
}

/// Why a request is refused, if it is: the anomaly is unknown, nobody is named
/// as the investigator, the action is out of order, or it lacks its decision or
/// its assignee.
pub open spec fn refusal(
    known: bool,
    trail: Seq<InvestigationEntry>,
    request: InvestigationRequest,
) -> Option<InvestigationError> {
    if !known {
        Some(InvestigationError::AnomalyNotFound)
    } else if trimmed(request.investigator@).len() == 0 {
        Some(InvestigationError::MissingInvestigator)
    } else if request.action.refused_in(status_of(trail)) is Some {
        request.action.refused_in(status_of(trail))
    } else if request.action == InvestigationAction::DecisionRecorded && request.decision is None {
        Some(InvestigationError::MissingDecision)
    } else if request.action == InvestigationAction::Assigned && request.assignee is None {
        Some(InvestigationError::MissingAssignee)
    } else {
        None
    }
}

/// The entry that records a request after a trail.
pub open spec fn records(
    entry: InvestigationEntry,
    anomaly_id: Seq<char>,
    trail: Seq<InvestigationEntry>,
    request: InvestigationRequest,
    id: Seq<char>,
    now: Time,
) -> bool {
    &&& entry.id@ == id
    &&& entry.anomaly_id@ == anomaly_id
    &&& entry.sequence == trail.len() + 1
    &&& entry.investigator@ == request.investigator@
    &&& entry.action == request.action
    &&& entry.decision == request.decision
    &&& entry.assignee == request.assignee
    &&& entry.notes == request.notes
    &&& entry.status == request.action.leads_to()
    &&& entry.timestamp == now
}

/// The trails of the investigations, by the ids of their anomalies.
pub struct InvestigationLog {
    trails: Table<Vec<InvestigationEntry>>,
}

/// A trail in order: its entries are numbered from one and belong to the
/// anomaly, each action was in order where it was taken, and the status follows
/// from the action.
pub open spec fn in_order(anomaly_id: Seq<char>, trail: Seq<InvestigationEntry>) -> bool {
    forall|i: int|
        0 <= i < trail.len() ==> {
            &&& (#[trigger] trail[i]).anomaly_id@ == anomaly_id
            &&& trail[i].sequence == i + 1
            &&& trail[i].status == trail[i].action.leads_to()
            &&& trail[i].action.refused_in(status_of(trail.take(i))) is None
        }
}

impl InvestigationLog {
    /// The trail of an anomaly.
    pub closed spec fn trail(&self, anomaly_id: Seq<char>) -> Seq<InvestigationEntry> {
        if self.trails@.contains_key(anomaly_id) {
            self.trails@[anomaly_id]@
        } else {
            Seq::empty()
        }
    }

    /// All trails are in order.
    pub closed spec fn wf(&self) -> bool {
        &&& self.trails.wf()
        &&& forall|id: Seq<char>| #[trigger]
            self.trails@.contains_key(id) ==> in_order(id, self.trails@[id]@)
    }

    pub fn new() -> (r: Self)
        ensures
            r.wf(),
            forall|id: Seq<char>| #[trigger] r.trail(id) == Seq::<InvestigationEntry>::empty(),
    {
        InvestigationLog { trails: Table::new() }
    }

    /// What recording a request does to the log and what it returns.
    pub open spec fn recorded(
        &self,
        after: InvestigationLog,
        known: bool,
        anomaly_id: Seq<char>,
        request: InvestigationRequest,
        id: Seq<char>,
        now: Time,
        r: Result<InvestigationEntry, InvestigationError>,
    ) -> bool {
        &&& forall|other: Seq<char>|
            other != anomaly_id ==> #[trigger] after.trail(other) == self.trail(other)
        &&& match r {
            Ok(entry) => {
                &&& refusal(known, self.trail(anomaly_id), request) is None
                &&& records(entry, anomaly_id, self.trail(anomaly_id), request, id, now)
                &&& after.trail(anomaly_id) == self.trail(anomaly_id).push(entry)
            },
            Err(e) => {
                &&& refusal(known, self.trail(anomaly_id), request) == Some(e)
                &&& after.trail(anomaly_id) == self.trail(anomaly_id)
            },
        }
    }

    /// The trail of an anomaly, oldest first.
    pub fn history(&self, anomaly_id: &str) -> (r: Vec<InvestigationEntry>)
        requires
            self.wf(),
        ensures
            r@ == self.trail(anomaly_id@),
    {
        let mut out: Vec<InvestigationEntry> = Vec::new();
        match self.trails.get(anomaly_id) {
            Some(trail) => {
                let mut i: usize = 0;
                while i < trail.len()
                    invariant
                        i <= trail.len(),
                        out@ == trail@.take(i as int),
                    decreases trail.len() - i,
                {
                    out.push(trail[i].clone());
                    i = i + 1;
                    assert(out@ =~= trail@.take(i as int));
                }
                assert(out@ =~= trail@);
            },
            None => {
            },
        }
        out
    }

    /// Appends an entry to a trail.
    fn append(&mut self, entry: InvestigationEntry)
        requires
            old(self).wf(),
            in_order(entry.anomaly_id@, old(self).trail(entry.anomaly_id@).push(entry)),
        ensures
            final(self).wf(),
            final(self).trail(entry.anomaly_id@) == old(self).trail(entry.anomaly_id@).push(entry),
            forall|other: Seq<char>|
                other != entry.anomaly_id@ ==> #[trigger] final(self).trail(other) == old(
                    self,
                ).trail(other),
    {
        let ghost before = *self;
        let key = entry.anomaly_id.clone();
        let mut trail = match self.trails.remove(key.as_str()) {
            Some(trail) => trail,
            None => Vec::new(),
        };
        assert(trail@ =~= before.trail(key@));
        trail.push(entry);
        let _none = self.trails.insert(key, trail);
    }
}

impl Default for InvestigationLog {
    fn default() -> (r: Self)
        ensures
            r.wf(),
            forall|id: Seq<char>| #[trigger] r.trail(id) == Seq::<InvestigationEntry>::empty(),
    {
        InvestigationLog::new()
    }
}

/// Records an action on an anomaly at `now`, under the given id.
pub fn record_investigation_with(
    log: &mut InvestigationLog,
    store: &AnomalyStore,
    anomaly_id: &str,
    request: InvestigationRequest,
    id: String,
    now: Time,
) -> (r: Result<InvestigationEntry, InvestigationError>)
    requires
        old(log).wf(),
        old(log).trail(anomaly_id@).len() < u64::MAX,
    ensures
        final(log).wf(),
        old(log).recorded(
            *final(log),
            alert_exists(store.alerts@, anomaly_id@),
            anomaly_id@,
            request,
            id@,
            now,
            r,
        ),
{
    if !is_known(&store.alerts, anomaly_id) {
        return Err(InvestigationError::AnomalyNotFound);
    }
    if is_blank(request.investigator.as_str()) {
        return Err(InvestigationError::MissingInvestigator);
    }
    let trail = log.history(anomaly_id);
    let status = if trail.len() == 0 {
        None
    } else {
        Some(trail[trail.len() - 1].status)
    };
    if let Some(e) = request.action.objection(status) {
        return Err(e);
    }
    if request.action == InvestigationAction::DecisionRecorded && request.decision.is_none() {
        return Err(InvestigationError::MissingDecision);
    }
    if request.action == InvestigationAction::Assigned && request.assignee.is_none() {
        return Err(InvestigationError::MissingAssignee);
    }
    let entry = InvestigationEntry {
        id,
        anomaly_id: anomaly_id.to_owned(),
        sequence: trail.len() as u64 + 1,
        investigator: request.investigator,
        action: request.action,
        decision: request.decision,
        assignee: request.assignee,
        notes: request.notes,
        status: request.action.status_after(),
        timestamp: now,
    };
    log.append(entry.clone());
    Ok(entry)
}

/// Records an action of an investigator on an anomaly, and returns the entry.
pub fn record_investigation(
    log: &mut InvestigationLog,
    store: &AnomalyStore,
    anomaly_id: &str,
    request: InvestigationRequest,
) -> (r: Result<InvestigationEntry, InvestigationError>)
    requires
        old(log).wf(),
        old(log).trail(anomaly_id@).len() < u64::MAX,
    ensures
        final(log).wf(),
        exists|id: Seq<char>, now: Time|
            wall_clock_shows(now) && is_new_id(id) && #[trigger] old(log).recorded(
                *final(log),
                alert_exists(store.alerts@, anomaly_id@),
                anomaly_id@,
                request,
                id,
                now,
                r,
            ),
{
    let id = new_id();
    let now = utc_now();
    record_investigation_with(log, store, anomaly_id, request, id, now)
}

/// The entries on an anomaly, oldest first.
pub fn get_investigation_history(log: &InvestigationLog, anomaly_id: &str) -> (r: Vec<
    InvestigationEntry,
>)
    requires
        log.wf(),
    ensures
        r@ == log.trail(anomaly_id@),
{
    log.history(anomaly_id)
}

/// Trails only grow: what is recorded stays, in its place, whatever is recorded
/// after it and whether or not that is refused.
pub proof fn trails_only_grow(
    log: InvestigationLog,
    after: InvestigationLog,
    known: bool,
    anomaly_id: Seq<char>,
    request: InvestigationRequest,
    id: Seq<char>,
    now: Time,
    r: Result<InvestigationEntry, InvestigationError>,
    any: Seq<char>,
)
    requires
        log.recorded(after, known, anomaly_id, request, id, now, r),
    ensures
        log.trail(any).is_prefix_of(after.trail(any)),
{
}

/// Every trail is in order, and the first entry of one is its opening.
pub proof fn trails_are_in_order(log: InvestigationLog, anomaly_id: Seq<char>)
    requires
        log.wf(),
    ensures
        in_order(anomaly_id, log.trail(anomaly_id)),
        log.trail(anomaly_id).len() > 0 ==> log.trail(anomaly_id)[0].action
            == InvestigationAction::Opened,
{
    let trail = log.trail(anomaly_id);
    assert(in_order(anomaly_id, trail));
    if trail.len() > 0 {
        assert(trail[0].action.refused_in(status_of(trail.take(0))) is None);
    }
}

/// After its closing an investigation takes no action but its reopening.
pub proof fn closed_investigations_wait_for_reopening(
    log: InvestigationLog,
    after: InvestigationLog,
    known: bool,
    anomaly_id: Seq<char>,
    request: InvestigationRequest,
    id: Seq<char>,
    now: Time,
    entry: InvestigationEntry,
)
    requires
        log.wf(),
        log.trail(anomaly_id).len() > 0,
        log.trail(anomaly_id).last().action == InvestigationAction::Closed,
        log.recorded(after, known, anomaly_id, request, id, now, Ok(entry)),
    ensures
        entry.action == InvestigationAction::Reopened,
{
    trails_are_in_order(log, anomaly_id);
    let trail = log.trail(anomaly_id);
    assert(trail[trail.len() - 1].status == InvestigationStatus::Closed);
}

/// An action is recorded exactly where the alert exists, an investigator is named, the
/// action fits the state of the investigation, and it brings its decision or its
/// assignee: the first action opens it, only a closed one is reopened, and anything else
/// needs it to be open. The entry is numbered after those before it and bears what was
/// asked for; the investigation is closed after a closing and open after any other.
pub proof fn actions_fit_the_state(
    log: InvestigationLog,
    after: InvestigationLog,
    known: bool,
    anomaly_id: Seq<char>,
    request: InvestigationRequest,
    id: Seq<char>,
    now: Time,
    r: Result<InvestigationEntry, InvestigationError>,
)
    requires
        log.recorded(after, known, anomaly_id, request, id, now, r),
    ensures
        ({
            let trail = log.trail(anomaly_id);
            let fits = match request.action {
                InvestigationAction::Opened => trail.len() == 0,
                InvestigationAction::Reopened => trail.len() > 0 && trail.last().status
                    == InvestigationStatus::Closed,
                _ => trail.len() > 0 && trail.last().status == InvestigationStatus::Open,
            };
            let complete = (request.action is DecisionRecorded ==> request.decision is Some) && (
            request.action is Assigned ==> request.assignee is Some);
            &&& r is Ok <==> known && trimmed(request.investigator@).len() > 0 && fits && complete
            &&& r is Err ==> after.trail(anomaly_id) == trail
            &&& !known ==> r == Err::<InvestigationEntry, InvestigationError>(
                InvestigationError::AnomalyNotFound,
            )
            &&& r matches Ok(entry) ==> {
                &&& after.trail(anomaly_id) == trail.push(entry)
                &&& entry.sequence == trail.len() + 1
                &&& entry.action == request.action
                &&& entry.investigator@ == request.investigator@
                &&& entry.decision == request.decision
                &&& entry.assignee == request.assignee
                &&& entry.notes == request.notes
                &&& entry.timestamp == now
                &&& entry.status == InvestigationStatus::Closed <==> request.action
                    == InvestigationAction::Closed
            }
        }),
{
}

/// An anomaly is known exactly where one of the alerts bears its id.
pub proof fn anomalies_are_known_by_their_alerts(alerts: Seq<Alert>, alert: Alert, id: Seq<char>)
    ensures
        alert_exists(alerts.push(alert), id) <==> alert_exists(alerts, id) || alert.id@ == id,
        !alert_exists(Seq::<Alert>::empty(), id),
{
    let all = alerts.push(alert);
    if alert_exists(alerts, id) {
        let i = choose|i: int| 0 <= i < alerts.len() && (#[trigger] alerts[i]).id@ == id;
        assert(all[i].id@ == id);
    }
    assert(all[alerts.len() as int] == alert);
}

} // verus!
