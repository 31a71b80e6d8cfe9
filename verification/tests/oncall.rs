use ethos_protocol_backend::clock::{utc_now, HOUR, MINUTE};
use ethos_protocol_backend::oncall::{
    build_handoffs, build_rotation, create_on_call_schedule, next_escalation_level, raise_alert,
    CreateOnCallScheduleRequest, EscalationLevel, EscalationPolicy, OnCallParticipant,
    OnCallSchedule, OnCallState, ScheduleError,
};

fn level(level: u32, delay_minutes: i64, contact: &str) -> EscalationLevel {
    EscalationLevel { level, delay_minutes, contacts: vec![contact.to_string()] }
}

fn schedule_with_policy() -> OnCallSchedule {
    OnCallSchedule {
        id: "sched-1".to_string(),
        name: "primary".to_string(),
        rotation_hours: 8,
        shifts: vec![],
        escalation_policy: EscalationPolicy {
            levels: vec![
                level(1, 5, "primary@example.com"),
                level(2, 15, "secondary@example.com"),
                level(3, 30, "manager@example.com"),
            ],
        },
        handoffs: vec![],
        created_at: utc_now(),
    }
}

fn participant(id: &str) -> OnCallParticipant {
    OnCallParticipant {
        id: id.to_string(),
        name: id.to_uppercase(),
        contact: format!("{id}@example.com"),
    }
}

#[test]
fn acknowledged_alert_does_not_escalate() {
    let schedule = schedule_with_policy();
    let raised_at = utc_now();
    let now = raised_at + 60 * MINUTE;

    let level = next_escalation_level(&schedule, raised_at, true, now);
    assert!(level.is_none(), "acknowledged alerts must not escalate");
}

#[test]
fn on_time_acknowledgment_stays_at_primary() {
    let schedule = schedule_with_policy();
    let raised_at = utc_now();
    let now = raised_at + 2 * MINUTE;

    let level = next_escalation_level(&schedule, raised_at, false, now);
    assert!(level.is_none(), "no tier should fire before its delay elapses");
}

#[test]
fn oncall_timeout_escalates_to_next_tier() {
    let schedule = schedule_with_policy();
    let raised_at = utc_now();
    let now = raised_at + 6 * MINUTE;

    let level = next_escalation_level(&schedule, raised_at, false, now)
        .expect("level 1 should have fired");
    assert_eq!(level.level, 1);
    assert_eq!(level.contacts, vec!["primary@example.com".to_string()]);

    let now = raised_at + 16 * MINUTE;
    let level = next_escalation_level(&schedule, raised_at, false, now)
        .expect("level 2 should have fired");
    assert_eq!(level.level, 2);
    assert_eq!(level.contacts, vec!["secondary@example.com".to_string()]);
}

#[test]
fn timeout_past_all_tiers_escalates_to_highest() {
    let schedule = schedule_with_policy();
    let raised_at = utc_now();
    let now = raised_at + 120 * MINUTE;

    let level = next_escalation_level(&schedule, raised_at, false, now)
        .expect("highest tier should fire");
    assert_eq!(level.level, 3);
    assert_eq!(level.contacts, vec!["manager@example.com".to_string()]);
}

#[test]
fn rotations_follow_one_another() {
    let shifts = build_rotation(&vec![participant("a"), participant("b")], 8, 5, 100);
    assert_eq!(shifts.len(), 5);
    let who: Vec<&str> = shifts.iter().map(|s| s.participant.id.as_str()).collect();
    assert_eq!(who, vec!["a", "b", "a", "b", "a"]);
    assert_eq!(shifts[0].starts_at, 100);
    for pair in shifts.windows(2) {
        assert_eq!(pair[0].ends_at, pair[1].starts_at);
        assert_eq!(pair[0].ends_at - pair[0].starts_at, 8 * HOUR);
    }
    let handoffs = build_handoffs("s", &shifts);
    assert_eq!(handoffs.len(), 4);
    assert_eq!(handoffs[0].outgoing.id, "a");
    assert_eq!(handoffs[0].incoming.id, "b");
    assert!(build_rotation(&vec![], 8, 5, 100).is_empty());
}

#[test]
fn schedules_are_refused_with_their_reasons() {
    let mut state = OnCallState::new();
    let request = |participants: Vec<OnCallParticipant>, hours: i64| CreateOnCallScheduleRequest {
        name: "n".to_string(),
        participants,
        rotation_hours: hours,
        shift_count: 3,
        escalation_policy: None,
    };
    assert_eq!(
        create_on_call_schedule(&mut state.store, request(vec![], 8)),
        Err(ScheduleError::NoParticipants)
    );
    assert_eq!(
        create_on_call_schedule(&mut state.store, request(vec![participant("a")], 0)),
        Err(ScheduleError::RotationNotPositive)
    );
    assert_eq!(
        create_on_call_schedule(&mut state.store, request(vec![participant("a")], i64::MAX)),
        Err(ScheduleError::BeyondCalendar)
    );
    let id =
        create_on_call_schedule(&mut state.store, request(vec![participant("a")], 8)).unwrap();
    let schedule = state.store.get(&id).unwrap();
    assert_eq!(schedule.shifts.len(), 3);
    assert_eq!(schedule.escalation_policy.levels.len(), 3);
    assert_eq!(
        ScheduleError::NoParticipants.message(),
        "at least one participant is required"
    );
}

#[test]
fn alerts_notify_the_first_level() {
    let mut state = OnCallState::default();
    state.store.insert("sched-1".to_string(), schedule_with_policy());
    let alert = raise_alert(&state, "sched-1", "cdc", "lag").unwrap();
    assert_eq!(alert.contacts_notified, vec!["primary@example.com".to_string()]);
    assert_eq!(alert.source, "cdc");
    assert_eq!(alert.message, "lag");
    assert!(raise_alert(&state, "none", "cdc", "lag").is_none());
}
