//! On-call schedules: rotations, handoffs and tiered escalation.

use vstd::prelude::*;

use crate::clock::{utc_now, wall_clock_shows, Time, HOUR, MINUTE, TIME_MAX, TIME_MIN};
use crate::ids::{is_new_id, new_id};
use crate::table::Table;
use crate::text::copy_list;

verus! {

/// An engineer eligible to be placed on the rotation.
#[derive(Debug)]
pub struct OnCallParticipant {
    pub id: String,
    pub name: String,
    pub contact: String,
}

impl Clone for OnCallParticipant {
    fn clone(&self) -> (r: Self)
        ensures
            r == *self,
    {
        OnCallParticipant {
            id: self.id.clone(),
            name: self.name.clone(),
            contact: self.contact.clone(),
        }
    }
}

/// A scheduled on-call shift.
#[derive(Debug)]
pub struct OnCallShift {
    pub id: String,
    pub participant: OnCallParticipant,
    pub starts_at: Time,
    pub ends_at: Time,
}

/// A tier of escalation: if it has not been acknowledged in time, the contacts
/// of the tier are notified.
#[derive(Debug)]
pub struct EscalationLevel {
    pub level: u32,
    pub delay_minutes: i64,
    pub contacts: Vec<String>,
}

/// The escalation policy of a schedule.
#[derive(Debug)]
pub struct EscalationPolicy {
    pub levels: Vec<EscalationLevel>,
}

/// The default tiers: after 5, 15 and 30 minutes, with no contacts yet.
pub open spec fn is_default_policy(p: EscalationPolicy) -> bool {
    &&& p.levels.len() == 3
    &&& p.levels[0].level == 1 && p.levels[0].delay_minutes == 5
    &&& p.levels[1].level == 2 && p.levels[1].delay_minutes == 15
    &&& p.levels[2].level == 3 && p.levels[2].delay_minutes == 30
    &&& forall|i: int| 0 <= i < 3 ==> (#[trigger] p.levels[i]).contacts@.len() == 0
}

impl Default for EscalationPolicy {
    fn default() -> (r: Self)
        ensures
            is_default_policy(r),
    {
        let mut levels: Vec<EscalationLevel> = Vec::new();
        levels.push(EscalationLevel { level: 1, delay_minutes: 5, contacts: Vec::new() });
        levels.push(EscalationLevel { level: 2, delay_minutes: 15, contacts: Vec::new() });
        levels.push(EscalationLevel { level: 3, delay_minutes: 30, contacts: Vec::new() });
        EscalationPolicy { levels }
    }
}

/// A handoff notification between two shifts.
#[derive(Debug)]
pub struct HandoffNotification {
    pub id: String,
    pub schedule_id: String,
    pub outgoing: OnCallParticipant,
    pub incoming: OnCallParticipant,
    pub sent_at: Time,
}

/// A rotation of shifts with its escalation policy and handoffs.
#[derive(Debug)]
pub struct OnCallSchedule {
    pub id: String,
    pub name: String,
    pub rotation_hours: i64,
    pub shifts: Vec<OnCallShift>,
    pub escalation_policy: EscalationPolicy,
    pub handoffs: Vec<HandoffNotification>,
    pub created_at: Time,
}

/// A request for a schedule.
#[derive(Debug)]
pub struct CreateOnCallScheduleRequest {
    pub name: String,
    pub participants: Vec<OnCallParticipant>,
    /// Length of each shift, in hours.
    pub rotation_hours: i64,
    /// How many shifts to generate up front.
    pub shift_count: u32,
    pub escalation_policy: Option<EscalationPolicy>,
}

/// A request to escalate, for example from an alert that has gone
/// unacknowledged.
#[derive(Debug)]
pub struct TriggerEscalationRequest {
    pub reason: String,
    pub current_level: u32,
}

/// Which escalation level fired and who was notified.
#[derive(Debug)]
pub struct EscalationResult {
    pub schedule_id: String,
    pub level_notified: u32,
    pub contacts_notified: Vec<String>,
    pub reason: String,
}

/// The schedules, by id.
pub type OnCallStore = Table<OnCallSchedule>;

/// An empty store.
pub fn create_on_call_store() -> (r: OnCallStore)
    ensures
        r.wf(),
        r@ == Map::<Seq<char>, OnCallSchedule>::empty(),
{
    Table::new()
}

/// The schedules of the service.
pub struct OnCallState {
    pub store: OnCallStore,
}

impl OnCallState {
    pub fn new() -> (r: Self)
        ensures
            r.store.wf(),
            r.store@ == Map::<Seq<char>, OnCallSchedule>::empty(),
    {
        OnCallState { store: create_on_call_store() }
    }
}

impl Default for OnCallState {
    fn default() -> (r: Self)
        ensures
            r.store.wf(),
            r.store@ == Map::<Seq<char>, OnCallSchedule>::empty(),
    {
        OnCallState::new()
    }
}

/// An alert raised against the first escalation contacts of a schedule.
#[derive(Debug)]
pub struct AlertRecord {
    pub schedule_id: String,
    pub source: String,
    pub message: String,
    pub contacts_notified: Vec<String>,
}

/// The alert that is raised against a schedule, if one is.
pub open spec fn is_raised(
    r: Option<AlertRecord>,
    schedules: Map<Seq<char>, OnCallSchedule>,
    schedule_id: Seq<char>,
    source: Seq<char>,
    message: Seq<char>,
) -> bool {
    match r {
        Some(alert) => {
            &&& schedules.contains_key(schedule_id)
            &&& schedules[schedule_id].escalation_policy.levels.len() > 0
            &&& alert.schedule_id@ == schedule_id
            &&& alert.source@ == source
            &&& alert.message@ == message
            &&& alert.contacts_notified@
                == schedules[schedule_id].escalation_policy.levels[0].contacts@
        },
        None => !schedules.contains_key(schedule_id)
            || schedules[schedule_id].escalation_policy.levels.len() == 0,
    }
}

/// Raises an alert against the first (primary) escalation contacts of a
/// schedule. `None` if there is no such schedule, or it has no tiers.
pub fn raise_alert(state: &OnCallState, schedule_id: &str, source: &str, message: &str) -> (r: Option<
    AlertRecord,
>)
    requires
        state.store.wf(),
    ensures
        is_raised(r, state.store@, schedule_id@, source@, message@),
{
    match state.store.get(schedule_id) {
        None => None,
        Some(schedule) => {
            if schedule.escalation_policy.levels.len() == 0 {
                return None;
            }
            Some(
                AlertRecord {
                    schedule_id: schedule_id.to_owned(),
                    source: source.to_owned(),
                    message: message.to_owned(),
                    contacts_notified: copy_list(&schedule.escalation_policy.levels[0].contacts),
                },
            )
        },
    }
}

/// The shift `i` of a rotation that starts at `start`.
pub open spec fn is_shift(
    shift: OnCallShift,
    i: int,
    participants: Seq<OnCallParticipant>,
    rotation_hours: int,
    start: int,
) -> bool {
    &&& shift.participant == participants[i % participants.len() as int]
    &&& shift.starts_at == start + i * rotation_hours * HOUR
    &&& shift.ends_at == start + (i + 1) * rotation_hours * HOUR
    &&& is_new_id(shift.id@)
}

/// The shifts go round the participants in turn and follow each other without
/// a gap, from `start` on.
pub open spec fn is_rotation(
    shifts: Seq<OnCallShift>,
    participants: Seq<OnCallParticipant>,
    rotation_hours: int,
    shift_count: nat,
    start: int,
) -> bool {
    if participants.len() == 0 {
        shifts.len() == 0
    } else {
        &&& shifts.len() == shift_count
        &&& forall|i: int|
            0 <= i < shifts.len() ==> is_shift(
                #[trigger] shifts[i],
                i,
                participants,
                rotation_hours,
                start,
            )
    }
}

/// The rotation ends within the calendar.
pub open spec fn fits_calendar(rotation_hours: int, shift_count: int, start: int) -> bool {
    &&& TIME_MIN <= start <= TIME_MAX
    &&& rotation_hours > 0
    &&& start + shift_count * rotation_hours * HOUR <= TIME_MAX
}

/// Whether a rotation ends within the calendar.
fn ends_in_calendar(rotation_hours: i64, shift_count: u32, start: Time) -> (r: bool)
    requires
        rotation_hours > 0,
        TIME_MIN <= start <= TIME_MAX,
    ensures
        r == fits_calendar(rotation_hours as int, shift_count as int, start as int),
{
    let room: i128 = TIME_MAX - start;
    if shift_count == 0 {
        assert(shift_count * rotation_hours * HOUR == 0) by (nonlinear_arith)
            requires
                shift_count == 0,
        ;
        return true;
    }
    let per_hour: i128 = shift_count as i128 * HOUR;
    let hours: i128 = rotation_hours as i128;
    proof {
        let h = rotation_hours as int;
        let p = per_hour as int;
        let m = room as int;
        assert(shift_count * h * HOUR == h * p) by (nonlinear_arith)
            requires
                p == shift_count * HOUR,
        ;
        vstd::arithmetic::div_mod::lemma_fundamental_div_mod(m, p);
        if h <= m / p {
            assert(h * p <= m) by (nonlinear_arith)
                requires
                    h <= m / p,
                    m == p * (m / p) + m % p,
                    0 <= m % p,
                    p > 0,
            ;
        } else {
            assert(h * p > m) by (nonlinear_arith)
                requires
                    h >= m / p + 1,
                    m == p * (m / p) + m % p,
                    m % p < p,
                    p > 0,
            ;
        }
    }
    hours <= room / per_hour
}

/// A rotation of `shift_count` shifts across the participants in turn, each
/// `rotation_hours` long, from `start` on.
pub fn build_rotation(
    participants: &Vec<OnCallParticipant>,
    rotation_hours: i64,
    shift_count: u32,
    start: Time,
) -> (r: Vec<OnCallShift>)
    requires
        fits_calendar(rotation_hours as int, shift_count as int, start as int),
    ensures
        is_rotation(
            r@,
            participants@,
            rotation_hours as int,
            shift_count as nat,
            start as int,
        ),
{
    let mut shifts: Vec<OnCallShift> = Vec::new();
    if participants.is_empty() {
        return shifts;
    }
    let mut cursor: Time = start;
    let mut i: u32 = 0;
    while i < shift_count
        invariant
            i <= shift_count,
            participants.len() > 0,
            fits_calendar(rotation_hours as int, shift_count as int, start as int),
            cursor == start + i * rotation_hours * HOUR,
            shifts.len() == i,
            forall|j: int|
                0 <= j < i ==> is_shift(
                    #[trigger] shifts[j],
                    j,
                    participants@,
                    rotation_hours as int,
                    start as int,
                ),
        decreases shift_count - i,
    {
        proof {
            assert((i + 1) * rotation_hours * HOUR <= shift_count * rotation_hours * HOUR)
                by (nonlinear_arith)
                requires
                    i + 1 <= shift_count,
                    rotation_hours > 0,
                    HOUR > 0,
            ;
            assert((i + 1) * rotation_hours * HOUR == i * rotation_hours * HOUR + rotation_hours
                * HOUR) by (nonlinear_arith);
            assert(i * rotation_hours * HOUR >= 0) by (nonlinear_arith)
                requires
                    rotation_hours > 0,
                    HOUR > 0,
                    i >= 0,
            ;
        }
        let participant = participants[i as usize % participants.len()].clone();
        let hours: i128 = rotation_hours as i128;
        let starts_at = cursor;
        let ends_at: Time = cursor + hours * HOUR;
        shifts.push(OnCallShift { id: new_id(), participant, starts_at, ends_at });
        cursor = ends_at;
        i = i + 1;
    }
    shifts
}

/// There is one handoff between each two consecutive shifts, sent when the
/// outgoing shift ends.
pub open spec fn are_handoffs(
    handoffs: Seq<HandoffNotification>,
    schedule_id: Seq<char>,
    shifts: Seq<OnCallShift>,
) -> bool {
    &&& handoffs.len() == (if shifts.len() == 0 {
        0
    } else {
        shifts.len() - 1
    })
    &&& forall|i: int|
        0 <= i < handoffs.len() ==> {
            let h = #[trigger] handoffs[i];
            &&& h.schedule_id@ == schedule_id
            &&& h.outgoing == shifts[i].participant
            &&& h.incoming == shifts[i + 1].participant
            &&& h.sent_at == shifts[i].ends_at
            &&& is_new_id(h.id@)
        }
}

/// The handoff notifications for each two consecutive shifts.
pub fn build_handoffs(schedule_id: &str, shifts: &Vec<OnCallShift>) -> (r: Vec<HandoffNotification>)
    ensures
        are_handoffs(r@, schedule_id@, shifts@),
{
    let mut handoffs: Vec<HandoffNotification> = Vec::new();
    if shifts.is_empty() {
        return handoffs;
    }
    let mut i: usize = 0;
    while i < shifts.len() - 1
        invariant
            shifts.len() > 0,
            i <= shifts.len() - 1,
            handoffs.len() == i,
            forall|j: int|
                0 <= j < i ==> {
                    let h = #[trigger] handoffs[j];
                    &&& h.schedule_id@ == schedule_id@
                    &&& h.outgoing == shifts[j].participant
                    &&& h.incoming == shifts[j + 1].participant
                    &&& h.sent_at == shifts[j].ends_at
                    &&& is_new_id(h.id@)
                },
        decreases shifts.len() - i,
    {
        handoffs.push(
            HandoffNotification {
                id: new_id(),
                schedule_id: schedule_id.to_owned(),
                outgoing: shifts[i].participant.clone(),
                incoming: shifts[i + 1].participant.clone(),
                sent_at: shifts[i].ends_at,
            },
        );
        i = i + 1;
    }
    handoffs
}

/// The number of tiers, from the first on, whose delay has elapsed.
pub open spec fn elapsed_tiers(levels: Seq<EscalationLevel>, elapsed: int) -> nat
    decreases levels.len(),
{
    if levels.len() == 0 || elapsed < levels[0].delay_minutes * MINUTE {
        0
    } else {
        1 + elapsed_tiers(levels.drop_first(), elapsed)
    }
}

proof fn lemma_elapsed_tiers(levels: Seq<EscalationLevel>, elapsed: int, n: int)
    requires
        0 <= n <= levels.len(),
        forall|i: int| 0 <= i < n ==> elapsed >= (#[trigger] levels[i]).delay_minutes * MINUTE,
        n == levels.len() || elapsed < levels[n].delay_minutes * MINUTE,
    ensures
        elapsed_tiers(levels, elapsed) == n,
    decreases n,
{
    if n > 0 {
        let rest = levels.drop_first();
        assert(elapsed >= levels[0].delay_minutes * MINUTE);
        assert forall|i: int| 0 <= i < n - 1 implies elapsed >= (#[trigger] rest[i]).delay_minutes
            * MINUTE by {
            assert(rest[i] == levels[i + 1]);
        }
        lemma_elapsed_tiers(rest, elapsed, n - 1);
    }
}

/// The tier to page, of those given, so long after an alert was raised.
pub open spec fn pages(
    levels: Seq<EscalationLevel>,
    elapsed: int,
    acknowledged: bool,
    paged: Option<EscalationLevel>,
) -> bool {
    let reached = elapsed_tiers(levels, elapsed);
    match paged {
        Some(level) => !acknowledged && 0 < reached <= levels.len() && level == levels[reached - 1],
        None => acknowledged || reached == 0,
    }
}

/// The tier to page at `now` for an alert raised at `raised_at`: the tiers are
/// taken in order, as long as their delays have elapsed, and the last of those
/// is paged. None if the alert was acknowledged or the first delay has not
/// elapsed. Past all tiers it is the highest, so that the page never stops.
pub fn next_escalation_level(
    schedule: &OnCallSchedule,
    raised_at: Time,
    acknowledged: bool,
    now: Time,
) -> (r: Option<&EscalationLevel>)
    requires
        TIME_MIN <= raised_at <= TIME_MAX,
        TIME_MIN <= now <= TIME_MAX,
    ensures
        pages(
            schedule.escalation_policy.levels@,
            now - raised_at,
            acknowledged,
            match r {
                Some(level) => Some(*level),
                None => None,
            },
        ),
{
    if acknowledged {
        return None;
    }
    let elapsed: i128 = now - raised_at;
    let levels = &schedule.escalation_policy.levels;
    let mut n: usize = 0;
    while n < levels.len() && elapsed >= levels[n].delay_minutes as i128 * MINUTE
        invariant
            n <= levels.len(),
            forall|i: int|
                0 <= i < n ==> elapsed >= (#[trigger] levels[i]).delay_minutes * MINUTE,
        decreases levels.len() - n,
    {
        n = n + 1;
    }
    proof {
        lemma_elapsed_tiers(levels@, elapsed as int, n as int);
    }
    if n == 0 {
        None
    } else {
        Some(&levels[n - 1])
    }
}

/// Why a request for a schedule is refused.
#[derive(Debug, Clone, Copy, PartialEq, Eq, Structural)]
pub enum ScheduleError {
    NoParticipants,
    RotationNotPositive,
    /// The rotation would end after the last moment of the calendar.
    BeyondCalendar,
}

impl ScheduleError {
    pub open spec fn message_spec(self) -> Seq<char> {
        match self {
            ScheduleError::NoParticipants => "at least one participant is required"@,
            ScheduleError::RotationNotPositive => "rotation_hours must be positive"@,
            ScheduleError::BeyondCalendar => "the rotation ends beyond the calendar"@,
        }
    }

    /// The error in words.
    pub fn message(&self) -> (r: String)
        ensures
            r@ == self.message_spec(),
    {
        match self {
            ScheduleError::NoParticipants => "at least one participant is required".to_owned(),
            ScheduleError::RotationNotPositive => "rotation_hours must be positive".to_owned(),
            ScheduleError::BeyondCalendar => "the rotation ends beyond the calendar".to_owned(),
        }
    }
}

/// What is wrong with a request, made at `now`, for a schedule, if anything.
pub open spec fn schedule_fault(body: CreateOnCallScheduleRequest, now: Time) -> Option<
    ScheduleError,
> {
    if body.participants.len() == 0 {
        Some(ScheduleError::NoParticipants)
    } else if body.rotation_hours <= 0 {
        Some(ScheduleError::RotationNotPositive)
    } else if !fits_calendar(body.rotation_hours as int, body.shift_count as int, now as int) {
        Some(ScheduleError::BeyondCalendar)
    } else {
        None
    }
}

/// The schedule is the one that the request asks for, made at `now`.
pub open spec fn is_requested_schedule(
    schedule: OnCallSchedule,
    body: CreateOnCallScheduleRequest,
    id: Seq<char>,
    now: Time,
) -> bool {
    &&& schedule.id@ == id
    &&& schedule.name@ == body.name@
    &&& schedule.rotation_hours == body.rotation_hours
    &&& is_rotation(
        schedule.shifts@,
        body.participants@,
        body.rotation_hours as int,
        body.shift_count as nat,
        now as int,
    )
    &&& are_handoffs(schedule.handoffs@, id, schedule.shifts@)
    &&& match body.escalation_policy {
        Some(policy) => schedule.escalation_policy == policy,
        None => is_default_policy(schedule.escalation_policy),
    }
    &&& schedule.created_at == now
}

/// What a request for a schedule does to the store and what it is answered.
pub open spec fn schedule_created(
    before: OnCallStore,
    after: OnCallStore,
    body: CreateOnCallScheduleRequest,
    id: Seq<char>,
    now: Time,
    r: Result<String, ScheduleError>,
) -> bool {
    match r {
        Ok(new_id) => {
            &&& schedule_fault(body, now) is None
            &&& new_id@ == id
            &&& after@.contains_key(id)
            &&& is_requested_schedule(after@[id], body, id, now)
            &&& after@ == before@.insert(id, after@[id])
        },
        Err(e) => schedule_fault(body, now) == Some(e) && after == before,
    }
}

/// Generates a schedule with the given id, from `now` on, and returns the id.
pub fn create_on_call_schedule_with(
    store: &mut OnCallStore,
    body: CreateOnCallScheduleRequest,
    id: String,
    now: Time,
) -> (r: Result<String, ScheduleError>)
    requires
        old(store).wf(),
        TIME_MIN <= now <= TIME_MAX,
    ensures
        final(store).wf(),
        schedule_created(*old(store), *final(store), body, id@, now, r),
{
    if body.participants.is_empty() {
        return Err(ScheduleError::NoParticipants);
    }
    if body.rotation_hours <= 0 {
        return Err(ScheduleError::RotationNotPositive);
    }
    if !ends_in_calendar(body.rotation_hours, body.shift_count, now) {
        return Err(ScheduleError::BeyondCalendar);
    }
    let ghost before = *store;
    let shifts = build_rotation(&body.participants, body.rotation_hours, body.shift_count, now);
    let handoffs = build_handoffs(id.as_str(), &shifts);
    let escalation_policy = match body.escalation_policy {
        Some(policy) => policy,
        None => EscalationPolicy::default(),
    };
    let key = id.clone();
    let schedule = OnCallSchedule {
        id,
        name: body.name,
        rotation_hours: body.rotation_hours,
        shifts,
        escalation_policy,
        handoffs,
        created_at: now,
    };
    let _previous = store.insert(key.clone(), schedule);
    assert(store@ =~= before@.insert(id@, store@[id@]));
    Ok(key)
}

/// Generates a schedule from now on and returns its id.
pub fn create_on_call_schedule(store: &mut OnCallStore, body: CreateOnCallScheduleRequest) -> (r: Result<
    String,
    ScheduleError,
>)
    requires
        old(store).wf(),
    ensures
        final(store).wf(),
        exists|id: Seq<char>, now: Time|
            wall_clock_shows(now) && is_new_id(id) && #[trigger] schedule_created(
                *old(store),
                *final(store),
                body,
                id,
                now,
                r,
            ),
{
    let id = new_id();
    let now = utc_now();
    create_on_call_schedule_with(store, body, id, now)
}

/// Coverage has no gaps: each shift starts when the one before it ends.
pub proof fn rotations_have_no_gaps(
    shifts: Seq<OnCallShift>,
    participants: Seq<OnCallParticipant>,
    rotation_hours: int,
    shift_count: nat,
    start: int,
    i: int,
)
    requires
        is_rotation(shifts, participants, rotation_hours, shift_count, start),
        0 <= i < shifts.len() - 1,
    ensures
        shifts[i + 1].starts_at == shifts[i].ends_at,
{
    assert(is_shift(shifts[i], i, participants, rotation_hours, start));
    assert(is_shift(shifts[i + 1], i + 1, participants, rotation_hours, start));
}

/// The longer an alert goes unacknowledged, the higher the tier.
pub proof fn escalation_is_monotone(levels: Seq<EscalationLevel>, earlier: int, later: int)
    requires
        earlier <= later,
    ensures
        elapsed_tiers(levels, earlier) <= elapsed_tiers(levels, later) <= levels.len(),
    decreases levels.len(),
{
    if levels.len() > 0 {
        escalation_is_monotone(levels.drop_first(), earlier, later);
    }
}

proof fn lemma_tiers_reached(levels: Seq<EscalationLevel>, elapsed: int)
    ensures
        ({
            let n = elapsed_tiers(levels, elapsed) as int;
            &&& n <= levels.len()
            &&& forall|i: int|
                0 <= i < n ==> elapsed >= (#[trigger] levels[i]).delay_minutes * 60_000_000_000
            &&& n < levels.len() ==> elapsed < levels[n].delay_minutes * 60_000_000_000
        }),
    decreases levels.len(),
{
    if levels.len() > 0 && elapsed >= levels[0].delay_minutes * MINUTE {
        let rest = levels.drop_first();
        lemma_tiers_reached(rest, elapsed);
        let n = elapsed_tiers(levels, elapsed) as int;
        assert forall|i: int| 0 <= i < n implies elapsed >= (#[trigger] levels[i]).delay_minutes
            * 60_000_000_000 by {
            if i > 0 {
                assert(rest[i - 1] == levels[i]);
            }
        }
        if n < levels.len() {
            assert(rest[n - 1] == levels[n]);
        }
    }
}

/// An alert that was acknowledged pages nobody. One that was not pages a tier once the
/// delay of the first tier has passed: a tier whose delay has passed, as have those of
/// all tiers before it, and whose successor, if there is one, is not due yet.
pub proof fn pages_go_to_the_tier_that_is_due(
    levels: Seq<EscalationLevel>,
    elapsed: int,
    acknowledged: bool,
    paged: Option<EscalationLevel>,
)
    requires
        pages(levels, elapsed, acknowledged, paged),
    ensures
        acknowledged ==> paged is None,
        !acknowledged ==> (paged is Some <==> levels.len() > 0 && elapsed
            >= levels[0].delay_minutes * 60_000_000_000),
        paged matches Some(level) ==> exists|i: int|
            {
                &&& 0 <= i < levels.len()
                &&& #[trigger] levels[i] == level
                &&& elapsed >= level.delay_minutes * 60_000_000_000
                &&& forall|j: int|
                    0 <= j < i ==> elapsed >= (#[trigger] levels[j]).delay_minutes
                        * 60_000_000_000
                &&& i + 1 < levels.len() ==> elapsed < levels[i + 1].delay_minutes
                    * 60_000_000_000
            },
{
    lemma_tiers_reached(levels, elapsed);
    let n = elapsed_tiers(levels, elapsed) as int;
    if n > 0 {
        assert(elapsed >= levels[0].delay_minutes * 60_000_000_000);
        assert(levels[n - 1] == levels[n - 1]);
    }
}

/// Every shift lasts as many hours as were asked for, the first starts when the rotation
/// starts, and the participants take turns: they are on call in their order, and each is
/// again after all the others.
pub proof fn participants_take_turns(
    shifts: Seq<OnCallShift>,
    participants: Seq<OnCallParticipant>,
    rotation_hours: int,
    shift_count: nat,
    start: int,
    i: int,
)
    requires
        is_rotation(shifts, participants, rotation_hours, shift_count, start),
        participants.len() > 0,
        0 <= i < shifts.len(),
    ensures
        shifts.len() == shift_count,
        shifts[i].ends_at - shifts[i].starts_at == rotation_hours * 3_600_000_000_000,
        shifts[0].starts_at == start,
        i < participants.len() ==> shifts[i].participant == participants[i],
        i + participants.len() < shifts.len() ==> shifts[i + participants.len() as int].participant
            == shifts[i].participant,
{
    let n = participants.len() as int;
    assert(is_shift(shifts[i], i, participants, rotation_hours, start));
    assert(is_shift(shifts[0], 0, participants, rotation_hours, start));
    assert((i + 1) * rotation_hours * HOUR - i * rotation_hours * HOUR == rotation_hours * HOUR)
        by (nonlinear_arith);
    if i < n {
        assert(i % n == i) by {
            vstd::arithmetic::div_mod::lemma_small_mod(i as nat, n as nat);
        }
    }
    if i + n < shifts.len() {
        assert(is_shift(shifts[i + n], i + n, participants, rotation_hours, start));
        vstd::arithmetic::div_mod::lemma_mod_add_multiples_vanish(i, n);
    }
}

/// At every moment of the rotation somebody is on call.
pub proof fn somebody_is_always_on_call(
    shifts: Seq<OnCallShift>,
    participants: Seq<OnCallParticipant>,
    rotation_hours: int,
    shift_count: nat,
    start: int,
    now: int,
)
    requires
        is_rotation(shifts, participants, rotation_hours, shift_count, start),
        participants.len() > 0,
        rotation_hours > 0,
        start <= now < start + shift_count * rotation_hours * 3_600_000_000_000,
    ensures
        exists|i: int|
            0 <= i < shifts.len() && (#[trigger] shifts[i]).starts_at <= now < shifts[i].ends_at,
{
    let length = rotation_hours * HOUR;
    assert(length > 0) by (nonlinear_arith)
        requires
            rotation_hours > 0,
            length == rotation_hours * HOUR,
    ;
    let i = (now - start) / length;
    vstd::arithmetic::div_mod::lemma_fundamental_div_mod(now - start, length);
    vstd::arithmetic::div_mod::lemma_mod_bound(now - start, length);
    vstd::arithmetic::div_mod::lemma_div_pos_is_pos(now - start, length);
    assert(i * length <= now - start < (i + 1) * length) by (nonlinear_arith)
        requires
            now - start == length * i + (now - start) % length,
            0 <= (now - start) % length < length,
    ;
    assert(shift_count * rotation_hours * 3_600_000_000_000 == shift_count * length)
        by (nonlinear_arith)
        requires
            length == rotation_hours * HOUR,
    ;
    assert(i < shift_count) by (nonlinear_arith)
        requires
            i * length <= now - start,
            now - start < shift_count * length,
            length > 0,
    ;
    assert(is_shift(shifts[i], i, participants, rotation_hours, start));
    assert(i * rotation_hours * HOUR == i * length) by (nonlinear_arith)
        requires
            length == rotation_hours * HOUR,
    ;
    assert((i + 1) * rotation_hours * HOUR == (i + 1) * length) by (nonlinear_arith)
        requires
            length == rotation_hours * HOUR,
    ;
}

/// Each handoff passes the duty from one shift to the next, when the one ends.
pub proof fn handoffs_pass_the_duty_on(
    handoffs: Seq<HandoffNotification>,
    schedule_id: Seq<char>,
    shifts: Seq<OnCallShift>,
    i: int,
)
    requires
        are_handoffs(handoffs, schedule_id, shifts),
        0 <= i < shifts.len() - 1,
    ensures
        handoffs.len() == shifts.len() - 1,
        handoffs[i].outgoing == shifts[i].participant,
        handoffs[i].incoming == shifts[i + 1].participant,
        handoffs[i].sent_at == shifts[i].ends_at,
        handoffs[i].schedule_id@ == schedule_id,
{
}

/// A schedule is made exactly where there is a participant, the shifts have a length, and
/// the rotation ends within the calendar; it bears the name and the policy that were
/// given and starts at once. No other schedule changes.
pub proof fn requested_schedules_are_made(
    before: OnCallStore,
    after: OnCallStore,
    body: CreateOnCallScheduleRequest,
    id: Seq<char>,
    now: Time,
    r: Result<String, ScheduleError>,
    other: Seq<char>,
)
    requires
        schedule_created(before, after, body, id, now, r),
        TIME_MIN <= now <= TIME_MAX,
        other != id,
    ensures
        r is Ok <==> body.participants.len() > 0 && body.rotation_hours > 0 && now
            + body.shift_count * body.rotation_hours * 3_600_000_000_000 <= TIME_MAX,
        body.participants.len() == 0 ==> r == Err::<String, ScheduleError>(
            ScheduleError::NoParticipants,
        ),
        body.participants.len() > 0 && body.rotation_hours <= 0 ==> r == Err::<
            String,
            ScheduleError,
        >(ScheduleError::RotationNotPositive),
        r is Ok ==> {
            let schedule = after@[id];
            &&& after@.contains_key(id)
            &&& schedule.id@ == id
            &&& schedule.name@ == body.name@
            &&& schedule.rotation_hours == body.rotation_hours
            &&& schedule.shifts.len() == body.shift_count
            &&& schedule.shifts.len() > 0 ==> schedule.shifts[0].starts_at == now
                && schedule.shifts[0].participant == body.participants[0]
            &&& body.escalation_policy matches Some(policy) ==> schedule.escalation_policy
                == policy
            &&& body.escalation_policy is None ==> schedule.escalation_policy.levels.len() == 3
        },
        r is Err ==> after == before,
        after@.contains_key(other) == before@.contains_key(other),
        before@.contains_key(other) ==> after@[other] == before@[other],
{
    if r is Ok && body.shift_count > 0 {
        participants_take_turns(
            after@[id].shifts@,
            body.participants@,
            body.rotation_hours as int,
            body.shift_count as nat,
            now as int,
            0,
        );
    }
}

/// The default policy pages its first tier from five minutes on, the second from 15 and
/// the third from 30, and nobody earlier.
pub proof fn the_default_policy_pages_in_three_steps(
    policy: EscalationPolicy,
    elapsed: int,
    paged: Option<EscalationLevel>,
)
    requires
        is_default_policy(policy),
        pages(policy.levels@, elapsed, false, paged),
    ensures
        paged is None <==> elapsed < 300_000_000_000,
        paged matches Some(level) ==> level.level == if elapsed < 900_000_000_000 {
            1u32
        } else if elapsed < 1_800_000_000_000 {
            2u32
        } else {
            3u32
        },
{
    lemma_tiers_reached(policy.levels@, elapsed);
    let n = elapsed_tiers(policy.levels@, elapsed) as int;
    assert(policy.levels@[0].delay_minutes == 5);
    assert(policy.levels@[1].delay_minutes == 15);
    assert(policy.levels@[2].delay_minutes == 30);
}

/// An alert reaches everybody of the first tier of its schedule, and nobody else; there is
/// one wherever the schedule exists and has a tier.
pub proof fn alerts_reach_the_first_tier(
    r: Option<AlertRecord>,
    schedules: Map<Seq<char>, OnCallSchedule>,
    schedule_id: Seq<char>,
    source: Seq<char>,
    message: Seq<char>,
    contact: String,
)
    requires
        is_raised(r, schedules, schedule_id, source, message),
    ensures
        r is Some <==> schedules.contains_key(schedule_id)
            && schedules[schedule_id].escalation_policy.levels.len() > 0,
        r matches Some(alert) ==> (alert.contacts_notified@.contains(contact)
            <==> schedules[schedule_id].escalation_policy.levels[0].contacts@.contains(contact)),
        r matches Some(alert) ==> alert.message@ == message && alert.source@ == source
            && alert.schedule_id@ == schedule_id,
{
}

} // verus!
