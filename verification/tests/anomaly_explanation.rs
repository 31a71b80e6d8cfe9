use ethos_protocol_backend::anomaly_explanation::{
    explain_anomaly_handler, AnomalyExplanation, Deviation, DeviationTexts, ExplainRequest,
    ExplanationStore,
};
use ethos_protocol_backend::measure::Measure;

fn measure(x: f64) -> Measure {
    Measure { bits: x.to_bits() }
}

fn request(metric: &str, value: f64, mean: f64, z_score: f64) -> ExplainRequest {
    ExplainRequest {
        metric: metric.to_string(),
        deviation: Deviation {
            value: measure(value),
            baseline_mean: measure(mean),
            z_score: measure(z_score),
            raised_baseline: measure(mean * 1.5),
            doubled_baseline: measure(mean * 2.0),
        },
        texts: DeviationTexts {
            percent: format!("{:.1}", ((value - mean) / mean.abs() * 100.0).abs()),
            value: format!("{:.2}", value),
            baseline: format!("{:.2}", mean),
            z_score: format!("{:.2}", z_score),
        },
        confidence: measure(((z_score.abs() / 10.0).min(1.0) as f32) as f64),
    }
}

fn explain(
    store: &mut ExplanationStore,
    id: &str,
    metric: &str,
    value: f64,
    mean: f64,
    z_score: f64,
) -> AnomalyExplanation {
    store.explain_anomaly(id, &request(metric, value, mean, z_score))
}

fn names(e: &AnomalyExplanation) -> Vec<&str> {
    e.contributing_factors.iter().map(|f| f.factor.as_str()).collect()
}

fn actions(e: &AnomalyExplanation) -> Vec<&str> {
    e.remediation_suggestions.iter().map(|s| s.action.as_str()).collect()
}

#[test]
fn explain_generates_description() {
    let mut store = ExplanationStore::new();
    let explanation = explain(&mut store, "anom1", "cpu_pct", 85.0, 45.0, 4.0);

    assert_eq!(explanation.anomaly_id, "anom1");
    assert_eq!(explanation.metric, "cpu_pct");
    assert!(!explanation.explanation.is_empty());
}

#[test]
fn extreme_deviation_identified_as_factor() {
    let mut store = ExplanationStore::new();
    let explanation = explain(&mut store, "anom2", "memory_mb", 9000.0, 1000.0, 8.0);

    assert!(
        names(&explanation).contains(&"extreme_deviation"),
        "should identify extreme deviation"
    );
}

#[test]
fn resource_spike_identified_for_cpu() {
    let mut store = ExplanationStore::new();
    let explanation = explain(&mut store, "anom3", "cpu_pct", 90.0, 40.0, 5.0);

    assert!(
        names(&explanation).contains(&"resource_spike"),
        "should identify resource spike for CPU"
    );
}

#[test]
fn performance_degradation_identified_for_latency() {
    let mut store = ExplanationStore::new();
    let explanation = explain(&mut store, "anom4", "latency_ms", 2000.0, 500.0, 3.0);

    assert!(
        names(&explanation).contains(&"performance_degradation"),
        "should identify performance degradation for latency"
    );
}

#[test]
fn error_rate_factor_for_error_metric() {
    let mut store = ExplanationStore::new();
    let explanation = explain(&mut store, "anom5", "error_rate", 5.0, 0.1, 4.9);

    assert!(
        names(&explanation).contains(&"error_rate_increase"),
        "should identify error rate increase"
    );
}

#[test]
fn remediation_suggests_scaling_for_resource_spike() {
    let mut store = ExplanationStore::new();
    let explanation = explain(&mut store, "anom6", "cpu_pct", 95.0, 40.0, 5.5);

    assert!(
        actions(&explanation).contains(&"scale_up_resources"),
        "should suggest scaling for resource spike"
    );
}

#[test]
fn confidence_based_on_z_score() {
    let mut store = ExplanationStore::new();
    let exp1 = explain(&mut store, "anom7", "metric", 100.0, 50.0, 2.0);
    let exp2 = explain(&mut store, "anom8", "metric", 100.0, 50.0, 8.0);

    assert!(
        f64::from_bits(exp2.confidence.bits) > f64::from_bits(exp1.confidence.bits),
        "higher z-score should have higher confidence"
    );
    assert!(exp2.confidence.gt(&exp1.confidence));
}

#[test]
fn retrieved_explanation_matches_stored() {
    let mut store = ExplanationStore::new();
    let explanation = explain(&mut store, "anom9", "cpu_pct", 85.0, 45.0, 4.0);

    let retrieved = store.get_explanation("anom9").expect("should retrieve");
    assert_eq!(retrieved.anomaly_id, explanation.anomaly_id);
    assert_eq!(retrieved.metric, explanation.metric);
}

#[test]
fn nonexistent_explanation_returns_none() {
    let store = ExplanationStore::new();
    assert!(store.get_explanation("nonexistent").is_none());
}

#[test]
fn the_explanation_is_a_sentence() {
    let mut store = ExplanationStore::new();
    let up = explain(&mut store, "a", "cpu_pct", 85.0, 50.0, 4.0);
    assert_eq!(
        up.explanation,
        "Metric 'cpu_pct' increased by 70.0% (value: 85.00, baseline: 50.00, z-score: 4.00)"
    );
    let down = explain(&mut store, "b", "cpu_pct", 25.0, 50.0, -4.0);
    assert_eq!(
        down.explanation,
        "Metric 'cpu_pct' decreased by 50.0% (value: 25.00, baseline: 50.00, z-score: -4.00)"
    );
}

#[test]
fn factors_and_remedies_come_in_their_order() {
    let mut store = ExplanationStore::new();
    let all = explain(&mut store, "a", "cpu_error_latency", 500.0, 100.0, -7.0);
    assert_eq!(
        names(&all),
        vec![
            "extreme_deviation",
            "resource_spike",
            "performance_degradation",
            "error_rate_increase"
        ]
    );
    assert_eq!(
        actions(&all),
        vec![
            "scale_up_resources",
            "investigate_slow_queries",
            "check_service_logs",
            "verify_data_pipeline"
        ]
    );
    assert_eq!(all.remediation_suggestions[3].priority, "critical");
    assert_eq!(all.remediation_suggestions[3].estimated_time_minutes, 30);
    // Exactly at the bounds nothing contributes.
    let none = explain(&mut store, "b", "memory_response_time", 150.0, 100.0, 5.0);
    assert!(none.contributing_factors.is_empty());
    assert!(none.remediation_suggestions.is_empty());
}

#[test]
fn explanations_get_an_id_of_their_own() {
    let mut store = ExplanationStore::new();
    let e = explain_anomaly_handler(&mut store, &request("cpu", 2.0, 1.0, 1.0));
    assert_eq!(e.anomaly_id.len(), 36);
    assert_eq!(store.get_explanation(&e.anomaly_id).unwrap().metric, "cpu");
}

#[test]
fn the_default_store_is_empty() {
    assert!(ExplanationStore::default().get_explanation("a").is_none());
}
