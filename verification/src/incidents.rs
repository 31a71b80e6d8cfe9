//! Incident response workflow.
//!
//! Incidents carry a severity, a status, an escalation tier and a timeline. A
//! tier that does not acknowledge an incident before its deadline loses it to
//! the next tier.

use vstd::prelude::*;

use crate::clock::{utc_now, wall_clock_shows, Time, MINUTE, TIME_MAX, TIME_MIN};
use crate::ids::{is_new_id, new_id};
use crate::table::{lemma_index_of, Table};
use crate::text::{copy_option, decimal, push_decimal, text_option};

verus! {

/// Standard severity classification for an incident.
#[derive(Debug, Clone, Copy, PartialEq, Eq, PartialOrd, Ord, Structural)]
pub enum IncidentSeverity {
    /// Full outage or data loss; page immediately.
    Sev1,
    /// Major functionality degraded for many users.
    Sev2,
    /// Minor functionality degraded or workaround available.
    Sev3,
    /// Cosmetic or low-impact issue.
    Sev4,
}

impl IncidentSeverity {
    pub open spec fn escalation_sla(self) -> int {
        match self {
            IncidentSeverity::Sev1 => 10,
            IncidentSeverity::Sev2 => 30,
            IncidentSeverity::Sev3 => 120,
            IncidentSeverity::Sev4 => 480,
        }
    }

    pub open spec fn acknowledgment_timeout(self) -> int {
        match self {
            IncidentSeverity::Sev1 => 5,
            IncidentSeverity::Sev2 => 15,
            IncidentSeverity::Sev3 => 60,
            IncidentSeverity::Sev4 => 240,
        }
    }

    /// Longest time, in minutes, before an unresolved incident of this
    /// severity should be escalated to the next tier.
    pub fn escalation_sla_minutes(&self) -> (r: i64)
        ensures
            r == self.escalation_sla(),
    {
        match self {
            IncidentSeverity::Sev1 => 10,
            IncidentSeverity::Sev2 => 30,
            IncidentSeverity::Sev3 => 120,
            IncidentSeverity::Sev4 => 480,
        }
    }

    /// Longest time, in minutes, that a tier has to acknowledge an incident
    /// of this severity before it is escalated to the next tier.
    pub fn acknowledgment_timeout_minutes(&self) -> (r: i64)
        ensures
            r == self.acknowledgment_timeout(),
    {
        match self {
            IncidentSeverity::Sev1 => 5,
            IncidentSeverity::Sev2 => 15,
            IncidentSeverity::Sev3 => 60,
            IncidentSeverity::Sev4 => 240,
        }
    }
}

/// The more severe an incident, the less time there is to acknowledge and to
/// resolve it, and acknowledging is due before escalation.
pub proof fn severe_incidents_are_more_urgent(a: IncidentSeverity)
    ensures
        a.acknowledgment_timeout() < a.escalation_sla(),
        IncidentSeverity::Sev1.escalation_sla() <= a.escalation_sla(),
        a.escalation_sla() <= IncidentSeverity::Sev4.escalation_sla(),
        IncidentSeverity::Sev1.acknowledgment_timeout()
            < IncidentSeverity::Sev2.acknowledgment_timeout()
            < IncidentSeverity::Sev3.acknowledgment_timeout()
            < IncidentSeverity::Sev4.acknowledgment_timeout(),
{
}

/// Lifecycle status of an incident.
#[derive(Debug, Clone, Copy, PartialEq, Eq, Structural)]
pub enum IncidentStatus {
    Open,
    Investigating,
    Mitigated,
    Resolved,
    Closed,
}

impl IncidentStatus {
    pub open spec fn name_spec(self) -> Seq<char> {
        match self {
            IncidentStatus::Open => "Open"@,
            IncidentStatus::Investigating => "Investigating"@,
            IncidentStatus::Mitigated => "Mitigated"@,
            IncidentStatus::Resolved => "Resolved"@,
            IncidentStatus::Closed => "Closed"@,
        }
    }

    /// The name of the status.
    pub fn name(&self) -> (r: &'static str)
        ensures
            r@ == self.name_spec(),
    {
        match self {
            IncidentStatus::Open => "Open",
            IncidentStatus::Investigating => "Investigating",
            IncidentStatus::Mitigated => "Mitigated",
            IncidentStatus::Resolved => "Resolved",
            IncidentStatus::Closed => "Closed",
        }
    }
}

/// A single entry in an incident's timeline.
#[derive(Debug)]
pub struct TimelineEntry {
    pub id: String,
    pub timestamp: Time,
    pub actor: String,
    pub note: String,
}

impl Clone for TimelineEntry {
    fn clone(&self) -> (r: Self)
        ensures
            r == *self,
    {
        TimelineEntry {
            id: self.id.clone(),
            timestamp: self.timestamp,
            actor: self.actor.clone(),
            note: self.note.clone(),
        }
    }
}

/// The contents of a timeline entry.
pub struct NoteModel {
    pub id: Seq<char>,
    pub timestamp: Time,
    pub actor: Seq<char>,
    pub note: Seq<char>,
}

impl TimelineEntry {
    pub open spec fn view(&self) -> NoteModel {
        NoteModel {
            id: self.id@,
            timestamp: self.timestamp,
            actor: self.actor@,
            note: self.note@,
        }
    }
}

/// A tracked incident.
#[derive(Debug)]
pub struct Incident {
    pub id: String,
    pub title: String,
    pub description: String,
    pub severity: IncidentSeverity,
    pub status: IncidentStatus,
    pub escalation_level: u32,
    pub assigned_to: Option<String>,
    pub timeline: Vec<TimelineEntry>,
    pub created_at: Time,
    pub updated_at: Time,
    /// When the current tier acknowledged the incident, if it has.
    pub acknowledged_at: Option<Time>,
    /// Deadline by which the current tier must acknowledge before escalation.
    pub acknowledgment_deadline: Option<Time>,
}

/// The contents of an incident.
pub struct IncidentModel {
    pub id: Seq<char>,
    pub title: Seq<char>,
    pub description: Seq<char>,
    pub severity: IncidentSeverity,
    pub status: IncidentStatus,
    pub escalation_level: nat,
    pub assigned_to: Option<Seq<char>>,
    pub timeline: Seq<NoteModel>,
    pub created_at: int,
    pub updated_at: int,
    pub acknowledged_at: Option<Time>,
    pub acknowledgment_deadline: Option<Time>,
}

/// The deadline for acknowledging an incident that reached a tier at `now`.
pub open spec fn deadline(severity: IncidentSeverity, now: Time) -> Time {
    (now + severity.acknowledgment_timeout() * MINUTE) as i128
}

/// The text of the note of an escalation to a tier.
pub open spec fn escalation_note(level: nat, reason: Seq<char>) -> Seq<char> {
    "escalated to tier "@ + decimal(level) + ": "@ + reason
}

impl IncidentModel {
    /// A new incident.
    pub open spec fn opened(
        title: Seq<char>,
        description: Seq<char>,
        severity: IncidentSeverity,
        assigned_to: Option<Seq<char>>,
        id: Seq<char>,
        note_id: Seq<char>,
        now: Time,
    ) -> IncidentModel {
        IncidentModel {
            id,
            title,
            description,
            severity,
            status: IncidentStatus::Open,
            escalation_level: 0,
            assigned_to,
            timeline: seq![
                NoteModel {
                    id: note_id,
                    timestamp: now,
                    actor: "system"@,
                    note: "incident opened"@,
                },
            ],
            created_at: now as int,
            updated_at: now as int,
            acknowledged_at: None,
            acknowledgment_deadline: Some(deadline(severity, now)),
        }
    }

    /// The incident with a note added to its timeline.
    pub open spec fn noted(
        self,
        id: Seq<char>,
        actor: Seq<char>,
        note: Seq<char>,
        now: Time,
    ) -> IncidentModel {
        IncidentModel {
            timeline: self.timeline.push(NoteModel { id, timestamp: now, actor, note }),
            ..self
        }
    }

    /// The incident changed at `now`.
    pub open spec fn touched(self, now: Time) -> IncidentModel {
        IncidentModel { updated_at: now as int, ..self }
    }

    /// The incident after the current tier acknowledged it.
    pub open spec fn acknowledged(self, actor: Seq<char>, note_id: Seq<char>, now: Time) -> IncidentModel {
        IncidentModel {
            acknowledged_at: Some(now),
            acknowledgment_deadline: None,
            ..self.touched(now)
        }.noted(
            note_id,
            actor,
            "acknowledged at escalation tier "@ + decimal(self.escalation_level),
            now,
        )
    }

    /// The incident after a change of its status.
    pub open spec fn moved(
        self,
        status: IncidentStatus,
        actor: Seq<char>,
        note_id: Seq<char>,
        now: Time,
    ) -> IncidentModel {
        IncidentModel { status, ..self.touched(now) }.noted(
            note_id,
            actor,
            "status changed from "@ + self.status.name_spec() + " to "@ + status.name_spec(),
            now,
        )
    }

    /// The incident after an escalation to the next tier; one that was
    /// acknowledged stays as it is.
    pub open spec fn escalated(self, reason: Seq<char>, note_id: Seq<char>, now: Time) -> IncidentModel {
        if self.acknowledged_at is Some {
            self
        } else {
            IncidentModel {
                escalation_level: self.escalation_level + 1,
                acknowledgment_deadline: Some(deadline(self.severity, now)),
                ..self.touched(now)
            }.noted(
                note_id,
                "system"@,
                escalation_note(self.escalation_level + 1, reason),
                now,
            )
        }
    }

    /// The current tier missed its deadline: the incident is neither
    /// acknowledged, nor resolved, nor closed.
    pub open spec fn overdue(self, now: Time) -> bool {
        &&& self.acknowledged_at is None
        &&& self.status != IncidentStatus::Resolved
        &&& self.status != IncidentStatus::Closed
        &&& self.acknowledgment_deadline is Some
        &&& self.acknowledgment_deadline->0 <= now
    }
}

fn timeline_entry(id: String, actor: &str, note: String, now: Time) -> (r: TimelineEntry)
    ensures
        r@ == (NoteModel { id: id@, timestamp: now, actor: actor@, note: note@ }),
{
    TimelineEntry { id, timestamp: now, actor: actor.to_owned(), note }
}

impl Incident {
    pub open spec fn view(&self) -> IncidentModel {
        IncidentModel {
            id: self.id@,
            title: self.title@,
            description: self.description@,
            severity: self.severity,
            status: self.status,
            escalation_level: self.escalation_level as nat,
            assigned_to: text_option(self.assigned_to),
            timeline: self.timeline@.map_values(|e: TimelineEntry| e@),
            created_at: self.created_at as int,
            updated_at: self.updated_at as int,
            acknowledged_at: self.acknowledged_at,
            acknowledgment_deadline: self.acknowledgment_deadline,
        }
    }

    /// A copy of the incident.
    pub fn copy(&self) -> (r: Incident)
        ensures
            r@ == self@,
    {
        let timeline = self.timeline.clone();
        assert(timeline@ =~= self.timeline@);
        Incident {
            id: self.id.clone(),
            title: self.title.clone(),
            description: self.description.clone(),
            severity: self.severity,
            status: self.status,
            escalation_level: self.escalation_level,
            assigned_to: copy_option(&self.assigned_to),
            timeline,
            created_at: self.created_at,
            updated_at: self.updated_at,
            acknowledged_at: self.acknowledged_at,
            acknowledgment_deadline: self.acknowledgment_deadline,
        }
    }

    fn note(&mut self, id: String, actor: &str, note: String, now: Time)
        ensures
            final(self)@ == old(self)@.noted(id@, actor@, note@, now),
    {
        let ghost before = self@;
        self.timeline.push(timeline_entry(id, actor, note, now));
        assert(self@.timeline =~= before.noted(id@, actor@, note@, now).timeline);
    }

    /// Records that the current tier has acknowledged the incident.
    fn acknowledge(&mut self, actor: &str, note_id: String, now: Time)
        ensures
            final(self)@ == old(self)@.acknowledged(actor@, note_id@, now),
    {
        self.acknowledged_at = Some(now);
        self.acknowledgment_deadline = None;
        self.updated_at = now;
        let mut text = "acknowledged at escalation tier ".to_owned();
        push_decimal(&mut text, self.escalation_level as u128);
        self.note(note_id, actor, text, now);
    }

    /// Changes the status.
    fn change_status(&mut self, status: IncidentStatus, actor: &str, note_id: String, now: Time)
        ensures
            final(self)@ == old(self)@.moved(status, actor@, note_id@, now),
    {
        let mut text = "status changed from ".to_owned();
        text.append(self.status.name());
        text.append(" to ");
        text.append(status.name());
        self.status = status;
        self.updated_at = now;
        self.note(note_id, actor, text, now);
    }

    /// Escalates the incident to the next tier, with a new deadline; whether
    /// it was escalated. An acknowledged incident is not.
    fn escalate(&mut self, reason: &str, note_id: String, now: Time) -> (r: bool)
        requires
            old(self)@.escalation_level < u32::MAX,
            TIME_MIN <= now <= TIME_MAX,
        ensures
            final(self)@ == old(self)@.escalated(reason@, note_id@, now),
            r == (old(self)@.acknowledged_at is None),
    {
        if self.acknowledged_at.is_some() {
            return false;
        }
        self.escalation_level = self.escalation_level + 1;
        let minutes: i128 = self.severity.acknowledgment_timeout_minutes() as i128;
        self.acknowledgment_deadline = Some(now + minutes * MINUTE);
        self.updated_at = now;
        let mut text = "escalated to tier ".to_owned();
        push_decimal(&mut text, self.escalation_level as u128);
        text.append(": ");
        text.append(reason);
        self.note(note_id, "system", text, now);
        true
    }
}

/// A request for a new incident.
#[derive(Debug)]
pub struct CreateIncidentRequest {
    pub title: String,
    pub description: String,
    pub severity: IncidentSeverity,
    pub assigned_to: Option<String>,
}

/// The incidents, by id.
pub type IncidentStore = Table<Incident>;

/// The contents of the incidents, by id.
pub open spec fn incident_models(store: IncidentStore) -> Map<Seq<char>, IncidentModel> {
    store@.map_values(|i: Incident| i@)
}

/// An empty store.
pub fn create_incident_store() -> (r: IncidentStore)
    ensures
        r.wf(),
        incident_models(r) == Map::<Seq<char>, IncidentModel>::empty(),
{
    let r: IncidentStore = Table::new();
    assert(incident_models(r) =~= Map::empty());
    r
}

/// The incidents of the service.
pub struct IncidentState {
    pub store: IncidentStore,
}

impl IncidentState {
    pub fn new() -> (r: Self)
        ensures
            r.store.wf(),
            incident_models(r.store) == Map::<Seq<char>, IncidentModel>::empty(),
    {
        IncidentState { store: create_incident_store() }
    }
}

impl Default for IncidentState {
    fn default() -> (r: Self)
        ensures
            r.store.wf(),
            incident_models(r.store) == Map::<Seq<char>, IncidentModel>::empty(),
    {
        IncidentState::new()
    }
}

/// `after` is `before` with the incident `made` under the id `id`.
pub open spec fn opened(
    before: IncidentStore,
    after: IncidentStore,
    title: Seq<char>,
    description: Seq<char>,
    severity: IncidentSeverity,
    assigned_to: Option<Seq<char>>,
    id: Seq<char>,
    note_id: Seq<char>,
    now: Time,
    made: IncidentModel,
) -> bool {
    &&& made == IncidentModel::opened(title, description, severity, assigned_to, id, note_id, now)
    &&& incident_models(after) == incident_models(before).insert(id, made)
}

/// Opens an incident with the given ids at the time `now`, and returns a copy
/// of it.
pub fn open_incident_with(
    store: &mut IncidentStore,
    title: String,
    description: String,
    severity: IncidentSeverity,
    assigned_to: Option<String>,
    id: String,
    note_id: String,
    now: Time,
) -> (r: Incident)
    requires
        old(store).wf(),
        TIME_MIN <= now <= TIME_MAX,
    ensures
        final(store).wf(),
        opened(
            *old(store),
            *final(store),
            title@,
            description@,
            severity,
            text_option(assigned_to),
            id@,
            note_id@,
            now,
            r@,
        ),
{
    let ghost before = *store;
    let minutes: i128 = severity.acknowledgment_timeout_minutes() as i128;
    let mut timeline: Vec<TimelineEntry> = Vec::new();
    timeline.push(timeline_entry(note_id, "system", "incident opened".to_owned(), now));
    let key = id.clone();
    let incident = Incident {
        id,
        title,
        description,
        severity,
        status: IncidentStatus::Open,
        escalation_level: 0,
        assigned_to,
        timeline,
        created_at: now,
        updated_at: now,
        acknowledged_at: None,
        acknowledgment_deadline: Some(now + minutes * MINUTE),
    };
    proof {
        let model = IncidentModel::opened(
            title@,
            description@,
            severity,
            text_option(assigned_to),
            id@,
            note_id@,
            now,
        );
        assert(incident@.timeline =~= model.timeline);
    }
    let copy = incident.copy();
    let _previous = store.insert(key, incident);
    assert(incident_models(*store) =~= incident_models(before).insert(id@, copy@));
    copy
}

/// Opens an incident without an assignee, and returns a copy of it. For
/// callers outside a request, such as background jobs that detect a problem.
pub fn open_incident(
    store: &mut IncidentStore,
    title: String,
    description: String,
    severity: IncidentSeverity,
) -> (r: Incident)
    requires
        old(store).wf(),
    ensures
        final(store).wf(),
        exists|id: Seq<char>, note_id: Seq<char>, now: Time|
            wall_clock_shows(now) && is_new_id(id) && is_new_id(note_id) && #[trigger] opened(
                *old(store),
                *final(store),
                title@,
                description@,
                severity,
                None,
                id,
                note_id,
                now,
                r@,
            ),
{
    let id = new_id();
    let note_id = new_id();
    let now = utc_now();
    open_incident_with(store, title, description, severity, None, id, note_id, now)
}

/// Opens the incident that a request asks for, and returns a copy of it.
pub fn create_incident(store: &mut IncidentStore, body: CreateIncidentRequest) -> (r: Incident)
    requires
        old(store).wf(),
    ensures
        final(store).wf(),
        exists|id: Seq<char>, note_id: Seq<char>, now: Time|
            wall_clock_shows(now) && is_new_id(id) && is_new_id(note_id) && #[trigger] opened(
                *old(store),
                *final(store),
                body.title@,
                body.description@,
                body.severity,
                text_option(body.assigned_to),
                id,
                note_id,
                now,
                r@,
            ),
{
    let id = new_id();
    let note_id = new_id();
    let now = utc_now();
    open_incident_with(
        store,
        body.title,
        body.description,
        body.severity,
        body.assigned_to,
        id,
        note_id,
        now,
    )
}

/// All incidents, in the order in which they were opened.
pub fn list_incidents(store: &IncidentStore) -> (r: Vec<&Incident>)
    requires
        store.wf(),
    ensures
        r.len() == store.values().len(),
        forall|i: int| 0 <= i < r.len() ==> *(#[trigger] r[i]) == store.values()[i],
{
    let mut out: Vec<&Incident> = Vec::new();
    let mut i: usize = 0;
    let n = store.len();
    while i < n
        invariant
            i <= n,
            store.wf(),
            n == store.keys().len(),
            out.len() == i,
            forall|j: int| 0 <= j < i ==> *(#[trigger] out[j]) == store.values()[j],
        decreases n - i,
    {
        out.push(store.value_at(i));
        i = i + 1;
    }
    out
}

/// The incident of an id.
pub fn get_incident<'a>(store: &'a IncidentStore, id: &str) -> (r: Option<&'a Incident>)
    requires
        store.wf(),
    ensures
        match r {
            Some(incident) => store@.contains_key(id@) && *incident == store@[id@],
            None => !store@.contains_key(id@),
        },
{
    store.get(id)
}

/// The incident `id` becomes `changed`; without it nothing happens.
pub open spec fn changed(
    before: IncidentStore,
    after: IncidentStore,
    id: Seq<char>,
    changed: IncidentModel,
    r: bool,
) -> bool {
    if before@.contains_key(id) {
        r && incident_models(after) == incident_models(before).insert(id, changed)
    } else {
        !r && after == before
    }
}

/// Adds an entry to the timeline of an incident at the time `now`; whether
/// there is one.
pub fn add_timeline_entry_with(
    store: &mut IncidentStore,
    id: &str,
    actor: &str,
    note: String,
    note_id: String,
    now: Time,
) -> (r: bool)
    requires
        old(store).wf(),
    ensures
        final(store).wf(),
        changed(
            *old(store),
            *final(store),
            id@,
            incident_models(*old(store))[id@].touched(now).noted(note_id@, actor@, note@, now),
            r,
        ),
{
    let ghost before = *store;
    match store.get_mut(id) {
        None => false,
        Some(incident) => {
            incident.updated_at = now;
            incident.note(note_id, actor, note, now);
            assert(incident_models(*store) =~= incident_models(before).insert(
                id@,
                incident_models(before)[id@].touched(now).noted(note_id@, actor@, note@, now),
            ));
            true
        },
    }
}

/// Adds an entry to the timeline of an incident; whether there is one.
pub fn add_timeline_entry(store: &mut IncidentStore, id: &str, actor: &str, note: String) -> (r: bool)
    requires
        old(store).wf(),
    ensures
        final(store).wf(),
        exists|note_id: Seq<char>, now: Time|
            wall_clock_shows(now) && is_new_id(note_id) && changed(
                *old(store),
                *final(store),
                id@,
                #[trigger] incident_models(*old(store))[id@].touched(now).noted(
                    note_id,
                    actor@,
                    note@,
                    now,
                ),
                r,
            ),
{
    let note_id = new_id();
    let now = utc_now();
    add_timeline_entry_with(store, id, actor, note, note_id, now)
}

/// Records at the time `now` that the current tier has acknowledged an
/// incident, which cancels the pending escalation; whether there is one.
pub fn acknowledge_incident_with(
    store: &mut IncidentStore,
    id: &str,
    actor: &str,
    note_id: String,
    now: Time,
) -> (r: bool)
    requires
        old(store).wf(),
    ensures
        final(store).wf(),
        changed(
            *old(store),
            *final(store),
            id@,
            incident_models(*old(store))[id@].acknowledged(actor@, note_id@, now),
            r,
        ),
{
    let ghost before = *store;
    match store.get_mut(id) {
        None => false,
        Some(incident) => {
            incident.acknowledge(actor, note_id, now);
            assert(incident_models(*store) =~= incident_models(before).insert(
                id@,
                incident_models(before)[id@].acknowledged(actor@, note_id@, now),
            ));
            true
        },
    }
}

/// Records that the current tier has acknowledged an incident; whether there
/// is one.
pub fn acknowledge_incident(store: &mut IncidentStore, id: &str, actor: &str) -> (r: bool)
    requires
        old(store).wf(),
    ensures
        final(store).wf(),
        exists|note_id: Seq<char>, now: Time|
            wall_clock_shows(now) && is_new_id(note_id) && changed(
                *old(store),
                *final(store),
                id@,
                #[trigger] incident_models(*old(store))[id@].acknowledged(actor@, note_id, now),
                r,
            ),
{
    let note_id = new_id();
    let now = utc_now();
    acknowledge_incident_with(store, id, actor, note_id, now)
}

/// Changes the status of an incident at the time `now` and records it in the
/// timeline; whether there is one.
pub fn update_incident_status_with(
    store: &mut IncidentStore,
    id: &str,
    status: IncidentStatus,
    actor: &str,
    note_id: String,
    now: Time,
) -> (r: bool)
    requires
        old(store).wf(),
    ensures
        final(store).wf(),
        changed(
            *old(store),
            *final(store),
            id@,
            incident_models(*old(store))[id@].moved(status, actor@, note_id@, now),
            r,
        ),
{
    let ghost before = *store;
    match store.get_mut(id) {
        None => false,
        Some(incident) => {
            incident.change_status(status, actor, note_id, now);
            assert(incident_models(*store) =~= incident_models(before).insert(
                id@,
                incident_models(before)[id@].moved(status, actor@, note_id@, now),
            ));
            true
        },
    }
}

/// Changes the status of an incident; whether there is one.
pub fn update_incident_status(
    store: &mut IncidentStore,
    id: &str,
    status: IncidentStatus,
    actor: &str,
) -> (r: bool)
    requires
        old(store).wf(),
    ensures
        final(store).wf(),
        exists|note_id: Seq<char>, now: Time|
            wall_clock_shows(now) && is_new_id(note_id) && changed(
                *old(store),
                *final(store),
                id@,
                #[trigger] incident_models(*old(store))[id@].moved(status, actor@, note_id, now),
                r,
            ),
{
    let note_id = new_id();
    let now = utc_now();
    update_incident_status_with(store, id, status, actor, note_id, now)
}

/// Every incident can go one tier higher.
pub open spec fn tiers_left(store: IncidentStore) -> bool {
    forall|k: Seq<char>| #[trigger]
        store@.contains_key(k) ==> store@[k].escalation_level < u32::MAX
}

/// Escalates an incident on request at the time `now`; whether there is one.
/// An acknowledged incident stays on its tier, and the request is noted.
pub fn escalate_incident_with(
    store: &mut IncidentStore,
    id: &str,
    reason: &str,
    actor: &str,
    note_id: String,
    request_id: String,
    now: Time,
) -> (r: bool)
    requires
        old(store).wf(),
        tiers_left(*old(store)),
        TIME_MIN <= now <= TIME_MAX,
    ensures
        final(store).wf(),
        changed(
            *old(store),
            *final(store),
            id@,
            incident_models(*old(store))[id@].escalated(reason@, note_id@, now).noted(
                request_id@,
                actor@,
                "requested escalation"@,
                now,
            ),
            r,
        ),
{
    let ghost before = *store;
    match store.get_mut(id) {
        None => false,
        Some(incident) => {
            let _escalated = incident.escalate(reason, note_id, now);
            incident.note(request_id, actor, "requested escalation".to_owned(), now);
            assert(incident_models(*store) =~= incident_models(before).insert(
                id@,
                incident_models(before)[id@].escalated(reason@, note_id@, now).noted(
                    request_id@,
                    actor@,
                    "requested escalation"@,
                    now,
                ),
            ));
            true
        },
    }
}

/// Escalates an incident on request; whether there is one.
pub fn escalate_incident(store: &mut IncidentStore, id: &str, reason: &str, actor: &str) -> (r: bool)
    requires
        old(store).wf(),
        tiers_left(*old(store)),
    ensures
        final(store).wf(),
        exists|note_id: Seq<char>, request_id: Seq<char>, now: Time|
            wall_clock_shows(now) && is_new_id(note_id) && is_new_id(request_id) && changed(
                *old(store),
                *final(store),
                id@,
                #[trigger] incident_models(*old(store))[id@].escalated(reason@, note_id, now).noted(
                    request_id,
                    actor@,
                    "requested escalation"@,
                    now,
                ),
                r,
            ),
{
    let note_id = new_id();
    let request_id = new_id();
    let now = utc_now();
    escalate_incident_with(store, id, reason, actor, note_id, request_id, now)
}

/// `after` is `before` escalated for a missed deadline, with a note of some id.
pub open spec fn timed_out(before: IncidentModel, after: IncidentModel, now: Time) -> bool {
    exists|note_id: Seq<char>|
        is_new_id(note_id) && after == #[trigger] before.escalated(
            "acknowledgment timeout"@,
            note_id,
            now,
        )
}

/// The places of the overdue incidents among the first `n`.
pub open spec fn overdue_places(incidents: Seq<Incident>, n: int, now: Time) -> Seq<int>
    decreases n,
{
    if n <= 0 {
        Seq::empty()
    } else if incidents[n - 1]@.overdue(now) {
        overdue_places(incidents, n - 1, now).push(n - 1)
    } else {
        overdue_places(incidents, n - 1, now)
    }
}

proof fn lemma_overdue_places(incidents: Seq<Incident>, n: int, now: Time)
    requires
        0 <= n <= incidents.len(),
    ensures
        forall|i: int|
            0 <= i < overdue_places(incidents, n, now).len() ==> 0 <= (
            #[trigger] overdue_places(incidents, n, now)[i]) < n,
    decreases n,
{
    if n > 0 {
        lemma_overdue_places(incidents, n - 1, now);
        let rest = overdue_places(incidents, n - 1, now);
        let places = overdue_places(incidents, n, now);
        assert forall|i: int| 0 <= i < places.len() implies 0 <= (#[trigger] places[i]) < n by {
            if i < rest.len() {
                assert(places[i] == rest[i]);
            }
        }
    }
}

/// What enforcing the timeouts does: every overdue incident is escalated, the
/// others stay as they were, and the escalated ones are returned.
pub open spec fn enforced(
    before: IncidentStore,
    after: IncidentStore,
    now: Time,
    r: Seq<Incident>,
) -> bool {
    let places = overdue_places(before.values(), before.values().len() as int, now);
    &&& after.keys() == before.keys()
    &&& after.values().len() == before.values().len()
    &&& forall|i: int|
        0 <= i < before.values().len() ==> {
            let was = (#[trigger] before.values()[i])@;
            if was.overdue(now) {
                timed_out(was, after.values()[i]@, now)
            } else {
                after.values()[i] == before.values()[i]
            }
        }
    &&& r.len() == places.len()
    &&& forall|j: int| 0 <= j < r.len() ==> (#[trigger] r[j])@ == after.values()[places[j]]@
}

/// Escalates, at the time `now`, every incident whose current tier has missed
/// its deadline, and returns copies of those incidents.
pub fn enforce_acknowledgment_timeouts_at(store: &mut IncidentStore, now: Time) -> (r: Vec<Incident>)
    requires
        old(store).wf(),
        tiers_left(*old(store)),
        TIME_MIN <= now <= TIME_MAX,
    ensures
        final(store).wf(),
        enforced(*old(store), *final(store), now, r@),
{
    let ghost before = *store;
    let ghost incidents = before.values();
    let mut escalated: Vec<Incident> = Vec::new();
    let mut i: usize = 0;
    let n = store.len();
    while i < n
        invariant
            i <= n,
            before.wf(),
            tiers_left(before),
            TIME_MIN <= now <= TIME_MAX,
            incidents == before.values(),
            n == incidents.len(),
            store.wf(),
            store.keys() == before.keys(),
            store.values().len() == incidents.len(),
            forall|j: int|
                0 <= j < incidents.len() ==> {
                    let was = (#[trigger] incidents[j])@;
                    if j < i && was.overdue(now) {
                        timed_out(was, store.values()[j]@, now)
                    } else {
                        store.values()[j] == incidents[j]
                    }
                },
            escalated.len() == overdue_places(incidents, i as int, now).len(),
            forall|j: int|
                0 <= j < escalated.len() ==> (#[trigger] escalated[j])@ == store.values()[overdue_places(
                    incidents,
                    i as int,
                    now,
                )[j]]@,
        decreases n - i,
    {
        let ghost was = incidents[i as int]@;
        let ghost earlier = *store;
        let ghost listed = escalated@;
        proof {
            lemma_index_of(before.keys(), i as int);
            assert(before@.contains_key(before.keys()[i as int]));
            assert(before@[before.keys()[i as int]] == incidents[i as int]);
            lemma_overdue_places(incidents, i as int, now);
        }
        let incident = store.value_at_mut(i);
        assert(incident@ == was);
        let open = incident.acknowledged_at.is_none() && incident.status != IncidentStatus::Resolved
            && incident.status != IncidentStatus::Closed;
        let overdue = match incident.acknowledgment_deadline {
            Some(deadline) => deadline <= now,
            None => false,
        };
        if open && overdue {
            let note_id = new_id();
            let _escalated = incident.escalate("acknowledgment timeout", note_id, now);
            let copy = incident.copy();
            escalated.push(copy);
            proof {
                assert(was.overdue(now));
                assert(copy@ == was.escalated("acknowledgment timeout"@, note_id@, now));
                assert(timed_out(was, copy@, now));
            }
        }
        proof {
            assert(store.values() =~= earlier.values().update(i as int, store.values()[i as int]));
            let places = overdue_places(incidents, i as int, now);
            assert forall|j: int| 0 <= j < escalated.len() implies (#[trigger] escalated[j])@
                == store.values()[overdue_places(incidents, i + 1, now)[j]]@ by {
                if j < listed.len() {
                    assert(escalated[j] == listed[j]);
                    assert(overdue_places(incidents, i + 1, now)[j] == places[j]);
                    assert(0 <= places[j] < i);
                    assert(store.values()[places[j]] == earlier.values()[places[j]]);
                }
            }
            assert forall|j: int| 0 <= j < incidents.len() implies {
                let was = (#[trigger] incidents[j])@;
                if j < i + 1 && was.overdue(now) {
                    timed_out(was, store.values()[j]@, now)
                } else {
                    store.values()[j] == incidents[j]
                }
            } by {
                if j != i {
                    assert(store.values()[j] == earlier.values()[j]);
                }
            }
        }
        i = i + 1;
    }
    escalated
}

/// Escalates every incident whose current tier has missed its deadline, and
/// returns copies of those incidents.
pub fn enforce_acknowledgment_timeouts(store: &mut IncidentStore) -> (r: Vec<Incident>)
    requires
        old(store).wf(),
        tiers_left(*old(store)),
    ensures
        final(store).wf(),
        exists|now: Time|
            wall_clock_shows(now) && #[trigger] enforced(*old(store), *final(store), now, r@),
{
    let now = utc_now();
    enforce_acknowledgment_timeouts_at(store, now)
}

/// An incident that was acknowledged is never escalated, not even on request.
pub proof fn acknowledgment_prevents_escalation(
    incident: IncidentModel,
    actor: Seq<char>,
    note_id: Seq<char>,
    acknowledged_at: Time,
    reason: Seq<char>,
    now: Time,
)
    ensures
        ({
            let acked = incident.acknowledged(actor, note_id, acknowledged_at);
            !acked.overdue(now) && acked.escalated(reason, note_id, now) == acked
        }),
{
}

/// An escalation raises the tier by one and gives the new tier a deadline
/// that has not passed.
pub proof fn escalation_resets_the_deadline(
    incident: IncidentModel,
    reason: Seq<char>,
    note_id: Seq<char>,
    now: Time,
)
    requires
        incident.acknowledged_at is None,
        TIME_MIN <= now <= TIME_MAX,
    ensures
        ({
            let after = incident.escalated(reason, note_id, now);
            &&& after.escalation_level == incident.escalation_level + 1
            &&& !after.overdue(now)
            &&& after.acknowledgment_deadline is Some
            &&& after.acknowledgment_deadline->0 > now
        }),
{
}

/// Timelines only grow: every change keeps the entries that were there.
pub proof fn timelines_only_grow(
    incident: IncidentModel,
    status: IncidentStatus,
    actor: Seq<char>,
    reason: Seq<char>,
    note_id: Seq<char>,
    now: Time,
)
    ensures
        incident.timeline.is_prefix_of(incident.acknowledged(actor, note_id, now).timeline),
        incident.timeline.is_prefix_of(incident.moved(status, actor, note_id, now).timeline),
        incident.timeline.is_prefix_of(incident.escalated(reason, note_id, now).timeline),
        incident.timeline.is_prefix_of(incident.noted(note_id, actor, reason, now).timeline),
{
}

/// Enforcing the timeouts escalates exactly the incidents that nobody acknowledged,
/// that are neither resolved nor closed, and whose deadline has come: each goes up one
/// tier with a new deadline and is otherwise kept. Every other incident stays as it
/// was. What is returned are the escalated incidents, all of them and no other.
pub proof fn enforcing_escalates_exactly_the_missed(
    before: IncidentStore,
    after: IncidentStore,
    now: Time,
    r: Seq<Incident>,
    i: int,
)
    requires
        enforced(before, after, now, r),
        TIME_MIN <= now <= TIME_MAX,
        0 <= i < before.values().len(),
    ensures
        ({
            let was = before.values()[i];
            let is = after.values()[i];
            let missed = was.acknowledged_at is None && was.status != IncidentStatus::Resolved
                && was.status != IncidentStatus::Closed && (
            was.acknowledgment_deadline matches Some(end) && end <= now);
            &&& !missed ==> is == was
            &&& missed ==> {
                &&& is.escalation_level == was.escalation_level + 1
                &&& is.acknowledgment_deadline matches Some(end) && end > now
                &&& is.acknowledged_at is None
                &&& is.id@ == was.id@
                &&& is.title@ == was.title@
                &&& is.severity == was.severity
                &&& is.status == was.status
                &&& is.timeline.len() == was.timeline.len() + 1
                &&& exists|j: int| 0 <= j < r.len() && (#[trigger] r[j])@ == is@
            }
        }),
        forall|j: int|
            0 <= j < r.len() ==> {
                &&& (#[trigger] r[j]).acknowledged_at is None
                &&& r[j].status != IncidentStatus::Resolved
                &&& r[j].status != IncidentStatus::Closed
                &&& r[j].escalation_level > 0
            },
{
    let n = before.values().len() as int;
    let places = overdue_places(before.values(), n, now);
    lemma_overdue_places(before.values(), n, now);
    lemma_places_are_overdue(before.values(), n, now);
    let was = before.values()[i];
    if was@.overdue(now) {
        let k = places.index_of(i);
        assert(places.contains(i));
        assert(r[k]@ == after.values()[places[k]]@);
        let is = after.values()[i];
        assert(timed_out(was@, is@, now));
        assert(is.timeline@.map_values(|e: TimelineEntry| e@).len() == is.timeline@.len());
        assert(was.timeline@.map_values(|e: TimelineEntry| e@).len() == was.timeline@.len());
        assert(is@.escalation_level == was@.escalation_level + 1);
        assert(deadline(was.severity, now) > now);
    }
    assert forall|j: int| 0 <= j < r.len() implies {
        &&& (#[trigger] r[j]).acknowledged_at is None
        &&& r[j].status != IncidentStatus::Resolved
        &&& r[j].status != IncidentStatus::Closed
        &&& r[j].escalation_level > 0
    } by {
        let p = places[j];
        assert(before.values()[p]@.overdue(now));
        assert(timed_out(before.values()[p]@, after.values()[p]@, now));
        assert(r[j]@ == after.values()[p]@);
        assert(r[j]@.escalation_level == before.values()[p]@.escalation_level + 1);
    }
}

proof fn lemma_places_are_overdue(incidents: Seq<Incident>, n: int, now: Time)
    requires
        0 <= n <= incidents.len(),
    ensures
        forall|k: int|
            0 <= k < overdue_places(incidents, n, now).len()
                ==> incidents[#[trigger] overdue_places(incidents, n, now)[k]]@.overdue(now),
        forall|i: int|
            0 <= i < n && (#[trigger] incidents[i])@.overdue(now) ==> overdue_places(
                incidents,
                n,
                now,
            ).contains(i),
    decreases n,
{
    if n > 0 {
        let earlier = overdue_places(incidents, n - 1, now);
        let places = overdue_places(incidents, n, now);
        lemma_places_are_overdue(incidents, n - 1, now);
        assert forall|k: int| 0 <= k < places.len() implies incidents[#[trigger] places[k]]@.overdue(
            now,
        ) by {
            if k < earlier.len() {
                assert(places[k] == earlier[k]);
            }
        }
        assert forall|i: int| 0 <= i < n && (#[trigger] incidents[i])@.overdue(now) implies places.contains(
            i,
        ) by {
            if i < n - 1 {
                assert(earlier.contains(i));
                assert(places[earlier.index_of(i)] == i);
            } else {
                assert(places[places.len() - 1] == i);
            }
        }
    }
}

/// An incident that was resolved or closed misses no deadline, at any later time,
/// whether it was acknowledged or not.
pub proof fn finished_incidents_are_never_overdue(
    incident: IncidentModel,
    status: IncidentStatus,
    actor: Seq<char>,
    note_id: Seq<char>,
    at: Time,
    now: Time,
)
    requires
        status == IncidentStatus::Resolved || status == IncidentStatus::Closed,
    ensures
        !incident.moved(status, actor, note_id, at).overdue(now),
{
}

/// A new incident is overdue from five minutes after it was opened on where it is of
/// the first severity, and from 15, 60 and 240 minutes on for the others; not earlier.
/// An incident that was reopened is overdue as before it was resolved.
pub proof fn deadlines_follow_the_severity(
    title: Seq<char>,
    description: Seq<char>,
    severity: IncidentSeverity,
    assigned_to: Option<Seq<char>>,
    id: Seq<char>,
    note_id: Seq<char>,
    opened_at: Time,
    actor: Seq<char>,
    at: Time,
    now: Time,
)
    requires
        TIME_MIN <= opened_at <= TIME_MAX,
    ensures
        ({
            let incident = IncidentModel::opened(
                title,
                description,
                severity,
                assigned_to,
                id,
                note_id,
                opened_at,
            );
            let minutes = match severity {
                IncidentSeverity::Sev1 => 5int,
                IncidentSeverity::Sev2 => 15,
                IncidentSeverity::Sev3 => 60,
                IncidentSeverity::Sev4 => 240,
            };
            &&& incident.overdue(now) <==> now - opened_at >= minutes * 60_000_000_000
            &&& incident.status == IncidentStatus::Open
            &&& incident.escalation_level == 0
            &&& incident.title == title
            &&& incident.description == description
            &&& incident.severity == severity
            &&& incident.assigned_to == assigned_to
            &&& incident.moved(IncidentStatus::Resolved, actor, note_id, at).moved(
                IncidentStatus::Investigating,
                actor,
                note_id,
                at,
            ).overdue(now) <==> incident.overdue(now)
        }),
{
}

/// Each change to an incident changes what it is about and nothing else: a status
/// change the status, an acknowledgment the times of acknowledging, a note the
/// timeline; and each leaves one more entry, with its actor and time.
pub proof fn changes_are_confined(
    incident: IncidentModel,
    status: IncidentStatus,
    actor: Seq<char>,
    note: Seq<char>,
    note_id: Seq<char>,
    now: Time,
)
    ensures
        ({
            let moved = incident.moved(status, actor, note_id, now);
            let acked = incident.acknowledged(actor, note_id, now);
            let noted = incident.touched(now).noted(note_id, actor, note, now);
            &&& moved.status == status
            &&& moved.escalation_level == incident.escalation_level
            &&& moved.acknowledged_at == incident.acknowledged_at
            &&& moved.acknowledgment_deadline == incident.acknowledgment_deadline
            &&& moved.severity == incident.severity && moved.id == incident.id
            &&& moved.updated_at == now
            &&& acked.status == incident.status
            &&& acked.escalation_level == incident.escalation_level
            &&& acked.acknowledged_at == Some(now)
            &&& acked.acknowledgment_deadline is None
            &&& acked.severity == incident.severity && acked.id == incident.id
            &&& acked.updated_at == now
            &&& noted.status == incident.status
            &&& noted.escalation_level == incident.escalation_level
            &&& noted.acknowledged_at == incident.acknowledged_at
            &&& noted.acknowledgment_deadline == incident.acknowledgment_deadline
            &&& noted.timeline.last().note == note
            &&& moved.timeline.len() == incident.timeline.len() + 1
            &&& acked.timeline.len() == incident.timeline.len() + 1
            &&& noted.timeline.len() == incident.timeline.len() + 1
            &&& moved.timeline.last().actor == actor && moved.timeline.last().timestamp == now
            &&& acked.timeline.last().actor == actor && acked.timeline.last().timestamp == now
            &&& noted.timeline.last().actor == actor && noted.timeline.last().timestamp == now
        }),
{
}

/// A change to one incident leaves every other one as it was, and is refused where
/// there is no such incident.
pub proof fn other_incidents_stay(
    before: IncidentStore,
    after: IncidentStore,
    id: Seq<char>,
    model: IncidentModel,
    r: bool,
    other: Seq<char>,
)
    requires
        changed(before, after, id, model, r),
        other != id,
    ensures
        r <==> before@.contains_key(id),
        r ==> incident_models(after)[id] == model,
        incident_models(after).contains_key(other) == incident_models(before).contains_key(other),
        incident_models(before).contains_key(other) ==> incident_models(after)[other]
            == incident_models(before)[other],
{
}

} // verus!
