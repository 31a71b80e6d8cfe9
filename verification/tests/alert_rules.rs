use ethos_protocol_backend::alert_rules::{
    create_alert_rule, delete_alert_rule, evaluate_alerts, evaluate_rule, find_breach,
    get_alert_rule, list_alert_rules, list_fired_alerts, AlertChannel, AlertMessage, AlertRule,
    AlertRulesState, AlertSeverity, AlertThresholds, CreateAlertRuleRequest, CriticalEventType,
    CurrentMetrics, RuleError,
};
use ethos_protocol_backend::measure::Measure;

fn measure(x: f64) -> Measure {
    Measure { bits: x.to_bits() }
}

fn healthy_metrics() -> CurrentMetrics {
    CurrentMetrics {
        error_rate: measure(0.01),
        latency_p99_ms: measure(200.0),
        release_count: measure(1.0),
        contract_paused: measure(0.0),
        contract_upgrade_events: 0,
        canary_rollbacks: 0,
        deployment_rollbacks: 0,
        credential_lifecycle_errors: 0,
    }
}

fn make_rule(event_type: CriticalEventType) -> AlertRule {
    AlertRule {
        id: "rule-1".to_string(),
        name: format!("{event_type:?}"),
        event_type,
        severity: AlertSeverity::Critical,
        condition_description: "test".into(),
        thresholds: AlertThresholds::default(),
        channels: vec![AlertChannel::Log],
        destinations: vec![],
        enabled: true,
        created_at: 0,
    }
}

fn rule_request(name: &str, channels: Vec<AlertChannel>) -> CreateAlertRuleRequest {
    CreateAlertRuleRequest {
        name: name.to_string(),
        event_type: CriticalEventType::HighErrorRate,
        severity: AlertSeverity::Warning,
        condition_description: "test".into(),
        thresholds: AlertThresholds::default(),
        channels,
        destinations: vec![],
        enabled: true,
    }
}

#[test]
fn high_error_rate_fires() {
    let rule = make_rule(CriticalEventType::HighErrorRate);
    let mut m = healthy_metrics();
    m.error_rate = measure(0.10);
    assert!(evaluate_rule(&rule, &m).is_some());
}

#[test]
fn high_error_rate_no_fire_under_threshold() {
    let rule = make_rule(CriticalEventType::HighErrorRate);
    let m = healthy_metrics();
    assert!(evaluate_rule(&rule, &m).is_none());
}

#[test]
fn contract_paused_fires() {
    let rule = make_rule(CriticalEventType::ContractPaused);
    let mut m = healthy_metrics();
    m.contract_paused = measure(1.0);
    assert!(evaluate_rule(&rule, &m).is_some());
}

#[test]
fn contract_upgrade_fires_on_any_event() {
    let rule = make_rule(CriticalEventType::ContractUpgrade);
    let mut m = healthy_metrics();
    m.contract_upgrade_events = 1;
    assert!(evaluate_rule(&rule, &m).is_some());
}

#[test]
fn vault_release_surge_fires() {
    let rule = make_rule(CriticalEventType::VaultReleaseSurge);
    let mut m = healthy_metrics();
    m.release_count = measure(15.0);
    assert!(evaluate_rule(&rule, &m).is_some());
}

#[test]
fn high_api_latency_fires() {
    let rule = make_rule(CriticalEventType::HighApiLatency);
    let mut m = healthy_metrics();
    m.latency_p99_ms = measure(3000.0);
    assert!(evaluate_rule(&rule, &m).is_some());
}

#[test]
fn canary_rollback_fires() {
    let rule = make_rule(CriticalEventType::CanaryRollback);
    let mut m = healthy_metrics();
    m.canary_rollbacks = 1;
    assert!(evaluate_rule(&rule, &m).is_some());
}

#[test]
fn deployment_rollback_fires() {
    let rule = make_rule(CriticalEventType::DeploymentRollback);
    let mut m = healthy_metrics();
    m.deployment_rollbacks = 2;
    assert!(evaluate_rule(&rule, &m).is_some());
}

#[test]
fn credential_lifecycle_anomaly_fires() {
    let rule = make_rule(CriticalEventType::CredentialLifecycleAnomaly);
    let mut m = healthy_metrics();
    m.credential_lifecycle_errors = 15;
    assert!(evaluate_rule(&rule, &m).is_some());
}

#[test]
fn disabled_rule_never_fires() {
    let mut rule = make_rule(CriticalEventType::HighErrorRate);
    rule.enabled = false;
    let mut m = healthy_metrics();
    m.error_rate = measure(0.99);
    assert!(evaluate_rule(&rule, &m).is_none());
}

#[test]
fn default_state_seeds_eight_rules() {
    let state = AlertRulesState::new();
    assert_eq!(state.store.rules.len(), 8);
}

#[test]
fn evaluate_alerts_handler_returns_fired_alerts() {
    let mut state = AlertRulesState::new();
    let metrics = CurrentMetrics {
        error_rate: measure(0.10),
        latency_p99_ms: measure(3000.0),
        release_count: measure(20.0),
        contract_paused: measure(1.0),
        contract_upgrade_events: 1,
        canary_rollbacks: 1,
        deployment_rollbacks: 1,
        credential_lifecycle_errors: 15,
    };
    let resp = evaluate_alerts(&mut state.store, &metrics);

    assert!(resp.fired_count > 0);
    assert_eq!(resp.fired_alerts.len(), resp.fired_count);
    assert_eq!(resp.evaluated_rules, 8);
    assert_eq!(resp.fired_count, 8);
    assert!(resp.fired_alerts.iter().all(|a| a.id.len() == 36));
    assert_eq!(list_fired_alerts(&state.store).len(), 8);
}

#[test]
fn create_rule_requires_nonempty_name() {
    let mut state = AlertRulesState::new();
    let result = create_alert_rule(&mut state.store, rule_request("  ", vec![AlertChannel::Log]));
    assert_eq!(result, Err(RuleError::EmptyName));
}

#[test]
fn create_rule_requires_at_least_one_channel() {
    let mut state = AlertRulesState::new();
    let result = create_alert_rule(&mut state.store, rule_request("test-rule", vec![]));
    assert_eq!(result, Err(RuleError::NoChannel));
}

#[test]
fn thresholds_themselves_are_no_breach() {
    let mut m = healthy_metrics();
    let thresholds = AlertThresholds::default();
    m.error_rate = thresholds.max_error_rate;
    m.latency_p99_ms = thresholds.max_latency_p99_ms;
    m.release_count = thresholds.max_release_rate;
    m.credential_lifecycle_errors = thresholds.max_credential_errors;
    for event in [
        CriticalEventType::HighErrorRate,
        CriticalEventType::HighApiLatency,
        CriticalEventType::VaultReleaseSurge,
        CriticalEventType::CredentialLifecycleAnomaly,
    ] {
        assert!(find_breach(&make_rule(event), &m).is_none());
    }
    m.error_rate = measure(f64::NAN);
    assert!(find_breach(&make_rule(CriticalEventType::HighErrorRate), &m).is_none());
}

#[test]
fn custom_rules_never_fire_by_themselves() {
    let rule = make_rule(CriticalEventType::Custom("disk".to_string()));
    let mut m = healthy_metrics();
    m.error_rate = measure(1.0);
    assert!(evaluate_rule(&rule, &m).is_none());
}

#[test]
fn alerts_tell_their_figures() {
    let rule = make_rule(CriticalEventType::HighErrorRate);
    let mut m = healthy_metrics();
    m.error_rate = measure(0.10);
    let alert = evaluate_rule(&rule, &m).unwrap();
    assert_eq!(alert.rule_id, "rule-1");
    assert_eq!(alert.channels_notified, vec![AlertChannel::Log]);
    assert_eq!(
        alert.message,
        AlertMessage::HighErrorRate { rate: measure(0.10), threshold: measure(0.05) }
    );
    assert_eq!(
        alert.message.text("10.00", "5.00"),
        "Error rate 10.00% exceeds threshold 5.00%"
    );
}

#[test]
fn rules_can_be_created_read_and_deleted() {
    let mut state = AlertRulesState::new();
    let id = create_alert_rule(&mut state.store, rule_request("mine", vec![AlertChannel::Slack]))
        .unwrap();
    assert_eq!(get_alert_rule(&state.store, &id).unwrap().name, "mine");
    let listed = list_alert_rules(&state.store);
    assert_eq!(listed.len(), 9);
    assert!(listed.windows(2).all(|w| w[0].created_at <= w[1].created_at));
    assert!(delete_alert_rule(&mut state.store, &id));
    assert!(!delete_alert_rule(&mut state.store, &id));
    assert!(get_alert_rule(&state.store, &id).is_none());
    assert_eq!(RuleError::EmptyName.message(), "rule name must not be empty");
    assert_eq!(
        RuleError::NoChannel.message(),
        "at least one notification channel is required"
    );
}
