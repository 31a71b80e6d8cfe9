use ethos_protocol_backend::clock::{utc_now, MINUTE};
use ethos_protocol_backend::incidents::{
    acknowledge_incident_with, add_timeline_entry, create_incident, create_incident_store,
    enforce_acknowledgment_timeouts, enforce_acknowledgment_timeouts_at, escalate_incident,
    get_incident, list_incidents, open_incident, open_incident_with, update_incident_status,
    CreateIncidentRequest, IncidentSeverity, IncidentStatus,
};

#[test]
fn on_time_acknowledgment_prevents_escalation() {
    let mut store = create_incident_store();
    let incident = open_incident(
        &mut store,
        "db down".to_string(),
        "primary db unreachable".to_string(),
        IncidentSeverity::Sev1,
    );

    {
        let stored = store.get_mut(&incident.id).unwrap();
        stored.acknowledged_at = Some(utc_now());
        stored.acknowledgment_deadline = None;
    }

    let escalated = enforce_acknowledgment_timeouts(&mut store);
    assert!(escalated.is_empty(), "acknowledged incident must not escalate");

    let stored = store.get(&incident.id).unwrap();
    assert_eq!(stored.escalation_level, 0);
}

#[test]
fn incidents_timeout_escalates_to_next_tier() {
    let mut store = create_incident_store();
    let incident = open_incident(
        &mut store,
        "api latency".to_string(),
        "p99 above threshold".to_string(),
        IncidentSeverity::Sev2,
    );

    {
        let stored = store.get_mut(&incident.id).unwrap();
        stored.acknowledgment_deadline = Some(utc_now() - MINUTE);
    }

    let escalated = enforce_acknowledgment_timeouts(&mut store);
    assert_eq!(escalated.len(), 1);
    assert_eq!(escalated[0].escalation_level, 1);

    let stored = store.get(&incident.id).unwrap();
    assert_eq!(stored.escalation_level, 1);
    assert!(stored.acknowledgment_deadline.unwrap() > utc_now());
}

#[test]
fn severe_incidents_have_shorter_deadlines() {
    let minutes: Vec<i64> = [
        IncidentSeverity::Sev1,
        IncidentSeverity::Sev2,
        IncidentSeverity::Sev3,
        IncidentSeverity::Sev4,
    ]
    .iter()
    .map(|s| s.acknowledgment_timeout_minutes())
    .collect();
    assert_eq!(minutes, vec![5, 15, 60, 240]);
    assert_eq!(IncidentSeverity::Sev1.escalation_sla_minutes(), 10);
}

#[test]
fn deadlines_run_from_the_opening() {
    let mut store = create_incident_store();
    let incident = open_incident_with(
        &mut store,
        "t".to_string(),
        "d".to_string(),
        IncidentSeverity::Sev1,
        None,
        "id-1".to_string(),
        "note-1".to_string(),
        0,
    );
    assert_eq!(incident.acknowledgment_deadline, Some(5 * MINUTE));
    assert!(enforce_acknowledgment_timeouts_at(&mut store, 5 * MINUTE - 1).is_empty());
    let escalated = enforce_acknowledgment_timeouts_at(&mut store, 5 * MINUTE);
    assert_eq!(escalated.len(), 1);
    assert_eq!(escalated[0].acknowledgment_deadline, Some(10 * MINUTE));
    assert!(acknowledge_incident_with(&mut store, "id-1", "ann", "note-2".to_string(), 6 * MINUTE));
    assert!(enforce_acknowledgment_timeouts_at(&mut store, 60 * MINUTE).is_empty());
    assert!(!acknowledge_incident_with(&mut store, "none", "ann", "n".to_string(), 1));
}

#[test]
fn timelines_keep_what_happened() {
    let mut store = create_incident_store();
    let request = CreateIncidentRequest {
        title: "t".to_string(),
        description: "d".to_string(),
        severity: IncidentSeverity::Sev3,
        assigned_to: Some("bob".to_string()),
    };
    let incident = create_incident(&mut store, request);
    assert_eq!(incident.assigned_to, Some("bob".to_string()));
    let before = incident.timeline.len();
    assert!(add_timeline_entry(&mut store, &incident.id, "ann", "looking".to_string()));
    assert!(update_incident_status(&mut store, &incident.id, IncidentStatus::Mitigated, "ann"));
    assert!(escalate_incident(&mut store, &incident.id, "still broken", "ann"));
    let stored = get_incident(&store, &incident.id).unwrap();
    assert!(stored.timeline.len() > before + 2);
    assert_eq!(stored.timeline[before].note, "looking");
    assert_eq!(stored.status, IncidentStatus::Mitigated);
    assert_eq!(stored.escalation_level, 1);
    assert!(!add_timeline_entry(&mut store, "none", "ann", "x".to_string()));
    assert_eq!(list_incidents(&store).len(), 1);
}
