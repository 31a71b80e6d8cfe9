use ethos_protocol_backend::metrics::Metrics;

#[test]
fn test_render_contains_all_metrics() {
    let mut m = Metrics::new();
    m.vaults_total = 5;
    m.checkins_total = 10;
    m.contract_paused = 1;

    let output = m.render();
    assert!(output.contains("ethos_protocol_vaults_total 5"));
    assert!(output.contains("ethos_protocol_checkins_total 10"));
    assert!(output.contains("ethos_protocol_contract_paused 1"));
}

#[test]
fn test_render_prometheus_format() {
    let m = Metrics::new();
    let output = m.render();
    assert!(output.contains("# HELP ethos_protocol_vaults_total"));
    assert!(output.contains("# TYPE ethos_protocol_vaults_total counter"));
    assert!(output.contains("# TYPE ethos_protocol_active_vaults gauge"));
}

#[test]
fn test_label_value_within_limit_is_accepted() {
    let mut m = Metrics::with_label_cardinality_limit(3);
    assert!(m.register_label_value("user_id", "user-1"));
    assert!(m.register_label_value("user_id", "user-2"));
    assert_eq!(m.label_cardinality("user_id"), 2);
}

#[test]
fn test_duplicate_label_value_is_idempotent() {
    let mut m = Metrics::with_label_cardinality_limit(2);
    assert!(m.register_label_value("user_id", "user-1"));
    assert!(m.register_label_value("user_id", "user-1"));
    assert_eq!(m.label_cardinality("user_id"), 1);
}

#[test]
fn test_label_value_beyond_limit_is_dropped() {
    let mut m = Metrics::with_label_cardinality_limit(2);
    assert!(m.register_label_value("user_id", "user-1"));
    assert!(m.register_label_value("user_id", "user-2"));
    assert!(!m.register_label_value("user_id", "user-3"));
    assert_eq!(m.label_cardinality("user_id"), 2);
}

#[test]
fn test_cardinality_limit_is_per_label() {
    let mut m = Metrics::with_label_cardinality_limit(1);
    assert!(m.register_label_value("user_id", "user-1"));
    assert!(!m.register_label_value("user_id", "user-2"));
    assert!(m.register_label_value("vault_id", "vault-1"));
    assert_eq!(m.label_cardinality("vault_id"), 1);
}

#[test]
fn the_whole_exposition_is_as_expected() {
    let mut m = Metrics::new();
    m.active_vaults = -3;
    m.http_requests_total = 42;
    assert_eq!(
        m.render(),
        "# HELP ethos_protocol_vaults_total Total vaults created\n\
         # TYPE ethos_protocol_vaults_total counter\n\
         ethos_protocol_vaults_total 0\n\
         # HELP ethos_protocol_checkins_total Total check-ins performed\n\
         # TYPE ethos_protocol_checkins_total counter\n\
         ethos_protocol_checkins_total 0\n\
         # HELP ethos_protocol_releases_total Total vault releases triggered\n\
         # TYPE ethos_protocol_releases_total counter\n\
         ethos_protocol_releases_total 0\n\
         # HELP ethos_protocol_active_vaults Currently active (non-released) vaults\n\
         # TYPE ethos_protocol_active_vaults gauge\n\
         ethos_protocol_active_vaults -3\n\
         # HELP ethos_protocol_request_errors_total Total API errors\n\
         # TYPE ethos_protocol_request_errors_total counter\n\
         ethos_protocol_request_errors_total 0\n\
         # HELP ethos_protocol_http_requests_total Total HTTP requests\n\
         # TYPE ethos_protocol_http_requests_total counter\n\
         ethos_protocol_http_requests_total 42\n\
         # HELP ethos_protocol_contract_paused 1 if contract is paused, 0 otherwise\n\
         # TYPE ethos_protocol_contract_paused gauge\n\
         ethos_protocol_contract_paused 0\n"
    );
    let mut none = Metrics::default();
    assert!(!none.register_label_value("a", "b"));
    assert_eq!(none.label_cardinality("a"), 0);
}
