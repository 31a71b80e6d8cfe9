use ethos_protocol_backend::custom_metrics::{
    CustomMetric, CustomMetricError, CustomMetricsRegistry,
};
use ethos_protocol_backend::table::Table;

fn metric(name: &str, labels: &[&str]) -> CustomMetric {
    CustomMetric {
        name: name.to_string(),
        help: "test metric".to_string(),
        labels: labels.iter().map(|l| l.to_string()).collect(),
    }
}

fn labels(pairs: &[(&str, &str)]) -> Table<String> {
    let mut table = Table::new();
    for (k, v) in pairs {
        table.insert(k.to_string(), v.to_string());
    }
    table
}

#[test]
fn registers_metric() {
    let mut registry = CustomMetricsRegistry::default();
    assert!(registry.register(metric("requests_total", &["route"])).is_ok());
}

#[test]
fn rejects_duplicate_metric() {
    let mut registry = CustomMetricsRegistry::default();
    registry.register(metric("requests_total", &["route"])).unwrap();
    let err = registry.register(metric("requests_total", &["route"])).unwrap_err();
    assert_eq!(err, CustomMetricError::AlreadyRegistered("requests_total".to_string()));
    assert_eq!(err.message(), "custom metric 'requests_total' is already registered");
}

#[test]
fn rejects_empty_metric_name() {
    let mut registry = CustomMetricsRegistry::default();
    let err = registry.register(metric("  ", &[])).unwrap_err();
    assert!(matches!(err, CustomMetricError::InvalidDefinition(_)));
    assert_eq!(
        err.message(),
        "invalid custom metric definition: metric name must not be empty"
    );
}

#[test]
fn admits_values_within_limit() {
    let mut registry = CustomMetricsRegistry::new(3);
    for i in 0..3 {
        let admitted =
            registry.record("requests_total", &labels(&[("route", &format!("/r{i}"))]));
        assert_eq!(admitted.len(), 1);
    }
}

#[test]
fn drops_values_beyond_limit() {
    let mut registry = CustomMetricsRegistry::new(2);
    assert_eq!(registry.record("requests_total", &labels(&[("user_id", "1")])).len(), 1);
    assert_eq!(registry.record("requests_total", &labels(&[("user_id", "2")])).len(), 1);
    assert_eq!(registry.record("requests_total", &labels(&[("user_id", "3")])).len(), 0);
}

#[test]
fn repeated_values_do_not_count_against_limit() {
    let mut registry = CustomMetricsRegistry::new(1);
    assert_eq!(registry.record("requests_total", &labels(&[("user_id", "1")])).len(), 1);
    assert_eq!(registry.record("requests_total", &labels(&[("user_id", "1")])).len(), 1);
}

#[test]
fn cardinality_is_tracked_per_label() {
    let mut registry = CustomMetricsRegistry::new(1);
    let admitted =
        registry.record("requests_total", &labels(&[("route", "/a"), ("method", "GET")]));
    assert_eq!(admitted.len(), 2);
    assert_eq!(admitted.get("route").unwrap(), "/a");
    assert_eq!(
        registry
            .record("requests_total", &labels(&[("route", "/b"), ("method", "POST")]))
            .len(),
        0
    );
}
