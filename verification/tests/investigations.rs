use ethos_protocol_backend::anomaly_detection::{Alert, AnomalyStore, Severity};
use ethos_protocol_backend::investigations::{
    get_investigation_history, record_investigation, record_investigation_with,
    InvestigationAction, InvestigationDecision, InvestigationError, InvestigationLog,
    InvestigationRequest, InvestigationStatus,
};
use ethos_protocol_backend::measure::Measure;

fn store_with_alert(id: &str) -> AnomalyStore {
    let mut store = AnomalyStore::new();
    let zero = Measure { bits: 0 };
    store.alerts.push(Alert {
        id: id.to_string(),
        service: "default".to_string(),
        metric: "cpu".to_string(),
        value: zero,
        baseline_mean: zero,
        baseline_std_dev: zero,
        z_score: zero,
        threshold: zero,
        seasonal_bucket: None,
        seasonal_component: None,
        severity: Severity::Warning,
        timestamp: 0,
    });
    store
}

fn request(action: InvestigationAction) -> InvestigationRequest {
    InvestigationRequest {
        investigator: "ana".to_string(),
        action,
        decision: None,
        assignee: None,
        notes: None,
    }
}

#[test]
fn actions_are_appended_to_the_trail() {
    let store = store_with_alert("a-1");
    let mut log = InvestigationLog::new();
    let opened = record_investigation_with(
        &mut log,
        &store,
        "a-1",
        request(InvestigationAction::Opened),
        "e-1".to_string(),
        7,
    )
    .unwrap();
    assert_eq!(opened.id, "e-1");
    assert_eq!(opened.anomaly_id, "a-1");
    assert_eq!(opened.sequence, 1);
    assert_eq!(opened.timestamp, 7);
    assert_eq!(opened.status, InvestigationStatus::Open);

    let mut decision = request(InvestigationAction::DecisionRecorded);
    decision.decision = Some(InvestigationDecision::FalsePositive);
    decision.notes = Some("load test".to_string());
    let decided = record_investigation(&mut log, &store, "a-1", decision).unwrap();
    assert_eq!(decided.sequence, 2);
    assert_eq!(decided.decision, Some(InvestigationDecision::FalsePositive));
    assert_eq!(decided.notes.as_deref(), Some("load test"));

    let closed =
        record_investigation(&mut log, &store, "a-1", request(InvestigationAction::Closed)).unwrap();
    assert_eq!(closed.status, InvestigationStatus::Closed);

    let trail = get_investigation_history(&log, "a-1");
    assert_eq!(trail.len(), 3);
    assert_eq!(trail[0].id, "e-1");
    assert_eq!(trail[1].id, decided.id);
    assert_eq!(trail[2].id, closed.id);
    assert!(get_investigation_history(&log, "a-2").is_empty());
}

#[test]
fn actions_out_of_order_are_refused() {
    let store = store_with_alert("a-1");
    let mut log = InvestigationLog::new();
    let mut act = |action: InvestigationAction| {
        record_investigation(&mut log, &store, "a-1", request(action)).map(|entry| entry.sequence)
    };
    assert_eq!(act(InvestigationAction::NoteAdded), Err(InvestigationError::NotOpened));
    assert_eq!(act(InvestigationAction::Opened), Ok(1));
    assert_eq!(act(InvestigationAction::Opened), Err(InvestigationError::AlreadyOpen));
    assert_eq!(act(InvestigationAction::Reopened), Err(InvestigationError::AlreadyOpen));
    assert_eq!(act(InvestigationAction::Closed), Ok(2));
    assert_eq!(act(InvestigationAction::NoteAdded), Err(InvestigationError::Closed));
    assert_eq!(act(InvestigationAction::Opened), Err(InvestigationError::Closed));
    assert_eq!(act(InvestigationAction::Reopened), Ok(3));
    assert_eq!(act(InvestigationAction::NoteAdded), Ok(4));
}

#[test]
fn incomplete_requests_are_refused() {
    let store = store_with_alert("a-1");
    let mut log = InvestigationLog::default();
    let unknown =
        record_investigation(&mut log, &store, "a-9", request(InvestigationAction::Opened));
    assert_eq!(unknown.unwrap_err(), InvestigationError::AnomalyNotFound);

    let mut nobody = request(InvestigationAction::Opened);
    nobody.investigator = "  ".to_string();
    let refused = record_investigation(&mut log, &store, "a-1", nobody);
    assert_eq!(refused.unwrap_err(), InvestigationError::MissingInvestigator);

    record_investigation(&mut log, &store, "a-1", request(InvestigationAction::Opened)).unwrap();
    let undecided =
        record_investigation(&mut log, &store, "a-1", request(InvestigationAction::DecisionRecorded));
    assert_eq!(undecided.unwrap_err(), InvestigationError::MissingDecision);
    let unassigned =
        record_investigation(&mut log, &store, "a-1", request(InvestigationAction::Assigned));
    assert_eq!(unassigned.unwrap_err(), InvestigationError::MissingAssignee);
    assert_eq!(get_investigation_history(&log, "a-1").len(), 1);
}

#[test]
fn investigation_errors_have_words_and_statuses() {
    assert_eq!(InvestigationError::AnomalyNotFound.status(), 404);
    assert_eq!(InvestigationError::AlreadyOpen.status(), 409);
    assert_eq!(InvestigationError::MissingDecision.status(), 400);
    assert_eq!(
        InvestigationError::MissingInvestigator.message(),
        "investigator must be non-empty"
    );
}
