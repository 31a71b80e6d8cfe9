use ethos_protocol_backend::analytics::{
    get_usage_analytics, AnalyticsQuery, AnalyticsStore, EndpointStats,
};
use ethos_protocol_backend::measure::Measure;

fn measure(x: f64) -> Measure {
    Measure { bits: x.to_bits() }
}

fn record(store: &mut AnalyticsStore, endpoint: &str, method: &str, latency: f64, success: bool) {
    let total = f64::from_bits(store.total_latency(endpoint, method).bits) + latency;
    store.record_request(endpoint, method, measure(latency), measure(total), success);
}

fn average(stats: &EndpointStats) -> f64 {
    f64::from_bits(stats.total_latency_ms.bits) / stats.total_requests as f64
}

#[test]
fn record_increments_total_requests() {
    let mut store = AnalyticsStore::new();
    record(&mut store, "/users", "GET", 42.0, true);
    record(&mut store, "/users", "GET", 45.0, true);

    let stats = store.get_stats(None, None);
    assert_eq!(stats.len(), 1);
    assert_eq!(stats[0].total_requests, 2);
}

#[test]
fn successful_and_failed_requests_tracked() {
    let mut store = AnalyticsStore::new();
    record(&mut store, "/users", "GET", 50.0, true);
    record(&mut store, "/users", "GET", 60.0, false);

    let stats = store.get_stats(None, None);
    assert_eq!(stats[0].successful_requests, 1);
    assert_eq!(stats[0].failed_requests, 1);
}

#[test]
fn average_latency_calculated() {
    let mut store = AnalyticsStore::new();
    record(&mut store, "/api", "POST", 100.0, true);
    record(&mut store, "/api", "POST", 200.0, true);

    let stats = store.get_stats(None, None);
    assert_eq!(average(&stats[0]), 150.0);
}

#[test]
fn max_and_min_latency_tracked() {
    let mut store = AnalyticsStore::new();
    record(&mut store, "/data", "GET", 30.0, true);
    record(&mut store, "/data", "GET", 100.0, true);
    record(&mut store, "/data", "GET", 50.0, true);

    let stats = store.get_stats(None, None);
    assert_eq!(f64::from_bits(stats[0].max_latency_ms.bits), 100.0);
    assert_eq!(f64::from_bits(stats[0].min_latency_ms.bits), 30.0);
}

#[test]
fn error_rate_calculated_correctly() {
    let mut store = AnalyticsStore::new();
    record(&mut store, "/api", "GET", 50.0, true);
    record(&mut store, "/api", "GET", 50.0, true);
    record(&mut store, "/api", "GET", 50.0, false);

    let ratio = store.error_rate("/api", "GET").expect("should have rate");
    let rate = ratio.numerator as f64 / ratio.denominator as f64;
    assert_eq!(rate, 100.0 / 3.0);
}

#[test]
fn filter_by_endpoint() {
    let mut store = AnalyticsStore::new();
    record(&mut store, "/users", "GET", 50.0, true);
    record(&mut store, "/posts", "GET", 50.0, true);

    let stats = store.get_stats(Some("users"), None);
    assert_eq!(stats.len(), 1);
    assert_eq!(stats[0].endpoint, "/users");
}

#[test]
fn filter_by_method() {
    let mut store = AnalyticsStore::new();
    record(&mut store, "/users", "GET", 50.0, true);
    record(&mut store, "/users", "POST", 50.0, true);

    let stats = store.get_stats(None, Some("GET"));
    assert_eq!(stats.len(), 1);
    assert_eq!(stats[0].method, "GET");
}

#[test]
fn endpoints_with_spaces_are_shown() {
    let mut store = AnalyticsStore::new();
    record(&mut store, "/a b", "GET", 5.0, false);
    record(&mut store, "/c", "GET", 0.0, true);
    record(&mut store, "/c", "GET", 9.0, true);
    let query = AnalyticsQuery { endpoint: None, method: Some("GET".to_string()) };
    let stats = get_usage_analytics(&store, &query);
    assert_eq!(stats.len(), 2);
    assert_eq!(stats[0].method, "GET");
    assert_eq!(stats[0].endpoint, "/a b");
    assert_eq!(stats[1].endpoint, "/c");
    // A smallest latency of zero counts as none.
    assert_eq!(f64::from_bits(stats[1].min_latency_ms.bits), 9.0);
    assert_eq!(store.error_rate("/a b", "GET").unwrap().numerator, 100);
    assert!(store.error_rate("/none", "GET").is_none());
}

#[test]
fn methods_and_endpoints_are_kept_apart() {
    let mut store = AnalyticsStore::default();
    record(&mut store, "/x", "A B", 4.0, true);
    record(&mut store, "B /x", "A", 6.0, false);
    let stats = store.get_stats(None, None);
    assert_eq!(stats.len(), 2);
    assert_eq!((stats[0].method.as_str(), stats[0].endpoint.as_str()), ("A B", "/x"));
    assert_eq!((stats[1].method.as_str(), stats[1].endpoint.as_str()), ("A", "B /x"));
    assert_eq!(store.error_rate("/x", "A B").unwrap().numerator, 0);
    assert_eq!(store.error_rate("B /x", "A").unwrap().numerator, 100);
    assert_eq!(store.get_stats(None, Some("A")).len(), 1);
    assert!(store.get_stats(None, Some("B")).is_empty());
}
