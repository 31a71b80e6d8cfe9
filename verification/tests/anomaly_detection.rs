use ethos_protocol_backend::anomaly_detection::{
    metric_key, service_label, Alert, AnomalyStore, Baseline, BaselineFigures, ComponentFigures,
    ObservationFigures, PatternFigures, RootCause, SeasonFigures, SeasonalError, SeasonalProfile, Seasonality,
    ServiceMetric, Severity, StreamEvent, SystemAnomaly,
};
use ethos_protocol_backend::clock::{utc_now, Time, HOUR, SECOND};
use ethos_protocol_backend::measure::Measure;

fn measure(x: f64) -> Measure {
    Measure { bits: x.to_bits() }
}

fn float(m: Measure) -> f64 {
    f64::from_bits(m.bits)
}

/// The figures of a value against a baseline.
fn figures(baseline: &Baseline, value: f64) -> BaselineFigures {
    let mean = float(baseline.mean);
    let m2 = float(baseline.m2);
    let std_dev = if baseline.count < 2 {
        0.0
    } else {
        (m2 / (baseline.count - 1) as f64).sqrt()
    };
    let delta = value - mean;
    let mean_after = mean + delta / (baseline.count + 1) as f64;
    BaselineFigures {
        std_dev: measure(std_dev),
        deviation: measure(delta / std_dev),
        mean_after: measure(mean_after),
        m2_after: measure(m2 + delta * (value - mean_after)),
    }
}

fn all_figures(store: &AnomalyStore, service: Option<&str>, metric: &str, value: f64, at: Time) -> ObservationFigures {
    let inputs = store.observation_inputs(service, metric, at);
    ObservationFigures {
        global: figures(&inputs.baseline, value),
        season: inputs.season.map(|s| SeasonFigures {
            figures: figures(&s.baseline, value),
            threshold: measure(3.0 * float(s.multiplier)),
            twice_threshold: measure(3.0 * float(s.multiplier) * 2.0),
            component: measure(float(s.baseline.mean) - float(inputs.baseline.mean)),
        }),
    }
}

fn observe_at(store: &mut AnomalyStore, metric: &str, value: f64, at: Time) -> Option<Alert> {
    let figures = all_figures(store, None, metric, value, at);
    store.observe_at(None, metric, measure(value), at, &figures)
}

fn observe(store: &mut AnomalyStore, metric: &str, value: f64) -> Option<Alert> {
    observe_at(store, metric, value, utc_now())
}

fn stream(store: &mut AnomalyStore, metric: &str, value: f64) -> (Option<Alert>, StreamEvent) {
    let now = utc_now();
    let figures = all_figures(store, None, metric, value, now);
    store.process_stream_event(metric, measure(value), now, &figures)
}

const STABLE: [f64; 7] = [10.0, 10.1, 9.9, 10.0, 10.05, 9.95, 10.0];

#[test]
fn no_alert_while_learning_baseline() {
    let mut store = AnomalyStore::new();
    for v in [10.0, 11.0, 9.0, 10.5] {
        assert!(observe(&mut store, "cpu_pct", v).is_none());
    }
}

#[test]
fn spike_after_stable_baseline_triggers_alert() {
    let mut store = AnomalyStore::new();
    for v in STABLE {
        observe(&mut store, "cpu_pct", v);
    }
    let alert = observe(&mut store, "cpu_pct", 500.0);
    assert!(alert.is_some(), "large spike should be flagged");
    assert_eq!(alert.unwrap().metric, "cpu_pct");
}

#[test]
fn cooldown_suppresses_duplicate_alerts() {
    let mut store = AnomalyStore::new();
    for v in STABLE {
        observe(&mut store, "cpu_pct", v);
    }
    let first = observe(&mut store, "cpu_pct", 500.0);
    let second = observe(&mut store, "cpu_pct", 501.0);
    assert!(first.is_some());
    assert!(second.is_none(), "second spike within cooldown should be suppressed");
}

#[test]
fn stable_values_never_alert() {
    let mut store = AnomalyStore::new();
    for _ in 0..50 {
        assert!(observe(&mut store, "steady_metric", 42.0).is_none());
    }
}

#[test]
fn suppress_anomaly_creates_suppression_entry() {
    let mut store = AnomalyStore::new();
    let id = store.suppress_anomaly("cpu_spike_*", None);
    assert!(id > 0, "suppression ID should be positive");

    let suppressions = store.get_suppressions();
    assert_eq!(suppressions.len(), 1);
    assert_eq!(suppressions[0].id, id);
    assert_eq!(suppressions[0].pattern, "cpu_spike_*");
}

#[test]
fn suppress_anomaly_with_expiry() {
    let mut store = AnomalyStore::new();
    let future = utc_now() + HOUR;
    store.suppress_anomaly("memory_leak_*", Some(future));

    let suppressions = store.get_suppressions();
    assert_eq!(suppressions.len(), 1);
    assert_eq!(suppressions[0].expires_at, Some(future));
}

#[test]
fn expired_suppressions_are_filtered() {
    let mut store = AnomalyStore::new();
    let past = utc_now() - HOUR;
    let future = utc_now() + HOUR;

    store.suppress_anomaly("old_pattern_*", Some(past));
    store.suppress_anomaly("new_pattern_*", Some(future));

    let suppressions = store.get_suppressions();
    assert_eq!(suppressions.len(), 1);
    assert_eq!(suppressions[0].pattern, "new_pattern_*");
}

#[test]
fn remove_suppression_by_id() {
    let mut store = AnomalyStore::new();
    let id1 = store.suppress_anomaly("pattern1_*", None);
    let id2 = store.suppress_anomaly("pattern2_*", None);

    assert!(store.remove_suppression(id1));
    let suppressions = store.get_suppressions();
    assert_eq!(suppressions.len(), 1);
    assert_eq!(suppressions[0].id, id2);
    assert!(!store.remove_suppression(id1));
}

#[test]
fn bulk_suppression_for_similar_patterns() {
    let mut store = AnomalyStore::new();
    let patterns = vec!["cpu_spike_*", "cpu_high_*", "cpu_anomaly_*"];

    for pattern in patterns {
        store.suppress_anomaly(pattern, None);
    }

    let suppressions = store.get_suppressions();
    assert_eq!(suppressions.len(), 3);
}

#[test]
fn add_correlation_between_anomalies() {
    let mut store = AnomalyStore::new();
    let alert1 = observe(&mut store, "cpu_pct", 10.0);
    let alert2 = observe(&mut store, "memory_pct", 20.0);

    if let (Some(a1), Some(_a2)) = (alert1, alert2) {
        for v in [10.1, 10.2, 10.0, 9.9] {
            observe(&mut store, "cpu_pct", v);
        }
        let spike = observe(&mut store, "cpu_pct", 100.0);
        if let Some(spike_alert) = spike {
            store.add_correlation(&spike_alert.id, &a1.id, measure(0.95));
            let correlated = store.get_correlated_anomalies(&spike_alert.id);
            assert!(correlated.contains(&a1.id));
        }
    }
}

#[test]
fn correlation_scoring_tracks_strength() {
    let mut store = AnomalyStore::new();
    let id1 = "anomaly_1".to_string();
    let id2 = "anomaly_2".to_string();

    store.add_correlation(&id1, &id2, measure(0.75));
    let correlated = store.get_correlated_anomalies(&id1);
    assert_eq!(correlated.len(), 1);
    assert!(correlated.contains(&id2));
}

#[test]
fn get_correlated_anomalies_returns_vec() {
    let mut store = AnomalyStore::new();
    let id1 = "anomaly_1";
    let id2 = "anomaly_2";
    let id3 = "anomaly_3";

    store.add_correlation(id1, id2, measure(0.8));
    store.add_correlation(id1, id3, measure(0.9));

    let correlated = store.get_correlated_anomalies(id1);
    assert_eq!(correlated.len(), 2);
    assert!(correlated.contains(&id2.to_string()));
    assert!(correlated.contains(&id3.to_string()));
}

#[test]
fn grouping_correlated_anomalies() {
    let mut store = AnomalyStore::new();

    for i in 0..5 {
        let id = format!("anomaly_{}", i);
        for j in (i + 1)..5 {
            let related_id = format!("anomaly_{}", j);
            store.add_correlation(&id, &related_id, measure(0.8 + (j - i) as f64 * 0.05));
        }
    }

    let correlated = store.get_correlated_anomalies("anomaly_0");
    assert!(correlated.len() > 0);
}

#[test]
fn no_duplicate_correlations() {
    let mut store = AnomalyStore::new();
    let id1 = "anomaly_1";
    let id2 = "anomaly_2";

    store.add_correlation(id1, id2, measure(0.8));
    store.add_correlation(id1, id2, measure(0.9));

    let correlated = store.get_correlated_anomalies(id1);
    assert_eq!(correlated.len(), 1);
}

#[test]
fn stream_event_creation_with_event_id() {
    let mut store = AnomalyStore::new();
    let (_alert, event) = stream(&mut store, "cpu_pct", 42.0);

    assert_eq!(event.metric, "cpu_pct");
    assert_eq!(float(event.value), 42.0);
    assert!(event.event_id > 0);
}

#[test]
fn stream_processing_generates_alerts() {
    let mut store = AnomalyStore::new();
    for v in STABLE {
        stream(&mut store, "cpu_pct", v);
    }
    let (alert, event) = stream(&mut store, "cpu_pct", 500.0);

    assert!(alert.is_some(), "stream spike should trigger alert");
    assert_eq!(event.metric, "cpu_pct");
}

#[test]
fn stream_events_recorded_in_order() {
    let mut store = AnomalyStore::new();
    stream(&mut store, "metric_a", 1.0);
    stream(&mut store, "metric_b", 2.0);
    stream(&mut store, "metric_c", 3.0);

    let events = store.get_stream_events();
    assert_eq!(events.len(), 3);
    assert_eq!(events[0].event_id, 1);
    assert_eq!(events[1].event_id, 2);
    assert_eq!(events[2].event_id, 3);
}

#[test]
fn stream_processing_reduces_latency() {
    let mut store = AnomalyStore::new();
    let now = utc_now();

    let (_, event) = stream(&mut store, "fast_metric", 99.9);

    assert!(event.timestamp >= now, "event timestamp should be current");
}

#[test]
fn stream_events_with_timestamps() {
    let mut store = AnomalyStore::new();
    let (_, event1) = stream(&mut store, "metric", 1.0);
    let (_, event2) = stream(&mut store, "metric", 2.0);

    assert!(event2.timestamp >= event1.timestamp);
}

#[test]
fn submit_feedback_for_anomaly() {
    let mut store = AnomalyStore::new();
    let anomaly_id = "alert_123";

    let feedback_id = store.submit_feedback(anomaly_id, true);
    assert!(!feedback_id.is_empty());

    let feedback = store.get_feedback_for_anomaly(anomaly_id);
    assert_eq!(feedback.len(), 1);
    assert_eq!(feedback[0].anomaly_id, anomaly_id);
    assert!(feedback[0].is_true_positive);
}

#[test]
fn track_true_positives_and_false_positives() {
    let mut store = AnomalyStore::new();
    let anomaly_id = "alert_456";

    store.submit_feedback(anomaly_id, true);
    store.submit_feedback(anomaly_id, false);
    store.submit_feedback(anomaly_id, true);

    let feedback = store.get_feedback_for_anomaly(anomaly_id);
    assert_eq!(feedback.len(), 3);
    let true_positives = feedback.iter().filter(|f| f.is_true_positive).count();
    assert_eq!(true_positives, 2);
}

#[test]
fn feedback_collection_for_improvement() {
    let mut store = AnomalyStore::new();

    for i in 0..10 {
        let anomaly_id = format!("alert_{}", i);
        let is_positive = i % 2 == 0;
        store.submit_feedback(&anomaly_id, is_positive);
    }

    let all_feedback = store.get_feedback();
    assert_eq!(all_feedback.len(), 10);
}

#[test]
fn feedback_timestamps_recorded() {
    let mut store = AnomalyStore::new();
    let now = utc_now();

    store.submit_feedback("alert_789", true);
    let feedback = store.get_feedback();

    assert_eq!(feedback.len(), 1);
    assert!(feedback[0].submitted_at >= now);
}

#[test]
fn model_versioning_with_feedback_epochs() {
    let mut store = AnomalyStore::new();

    store.submit_feedback("alert_v1_1", true);
    store.submit_feedback("alert_v1_2", false);
    store.submit_feedback("alert_v2_1", true);

    let feedback_v1: Vec<_> = store
        .get_feedback()
        .iter()
        .filter(|f| f.anomaly_id.starts_with("alert_v1"))
        .collect();

    assert_eq!(feedback_v1.len(), 2);
}

#[test]
fn performance_tracking_with_feedback() {
    let mut store = AnomalyStore::new();

    let mut true_count = 0;
    for i in 0..100 {
        let anomaly_id = format!("perf_alert_{}", i);
        let is_tp = i % 3 != 0;
        store.submit_feedback(&anomaly_id, is_tp);
        if is_tp {
            true_count += 1;
        }
    }

    let feedback = store.get_feedback();
    assert_eq!(feedback.len(), 100);
    let actual_tp = feedback.iter().filter(|f| f.is_true_positive).count();
    assert_eq!(actual_tp, true_count);
}

#[test]
fn alerts_keep_a_minute_apart() {
    let mut store = AnomalyStore::new();
    for v in STABLE {
        observe_at(&mut store, "m", v, 0);
    }
    assert!(observe_at(&mut store, "m", 500.0, 10 * SECOND).is_some());
    assert!(observe_at(&mut store, "m", 50_000.0, 70 * SECOND - 1).is_none());
    // The baseline has learnt both, so only a larger value stands out.
    assert!(observe_at(&mut store, "m", 1.0e9, 70 * SECOND).is_some());
    assert_eq!(store.alerts().len(), 2);
    assert_eq!(store.baseline("m").unwrap().count, 10);
}

#[test]
fn severity_follows_the_score() {
    let mut store = AnomalyStore::new();
    for v in STABLE {
        observe_at(&mut store, "m", v, 0);
    }
    let inputs = store.observation_inputs(None, "m", 0);
    let f = figures(&inputs.baseline, 10.0);
    let value = float(inputs.baseline.mean) + 4.0 * float(f.std_dev);
    let alert = observe_at(&mut store, "m", value, 0).unwrap();
    assert_eq!(alert.severity, Severity::Warning);
    assert_eq!(float(alert.threshold), 3.0);
    assert_eq!(alert.service, "default");
    assert_eq!(alert.seasonal_bucket, None);
    for v in STABLE {
        observe_at(&mut store, "n", v, 0);
    }
    assert_eq!(observe_at(&mut store, "n", 500.0, 0).unwrap().severity, Severity::Critical);
}

#[test]
fn seasons_judge_by_their_own_baseline() {
    let mut store = AnomalyStore::new();
    store.seasonal.insert("m".to_string(), SeasonalProfile::new(Seasonality::HourOfDay, 0));
    for v in STABLE {
        assert!(observe_at(&mut store, "m", v, 3 * HOUR).is_none());
    }
    let alert = observe_at(&mut store, "m", 500.0, 3 * HOUR).unwrap();
    assert_eq!(alert.seasonal_bucket, Some(3));
    assert!(alert.seasonal_component.is_some());
    assert_eq!(Seasonality::HourOfDay.bucket(27 * HOUR), 3);
    // The first day of 1970 was a Thursday.
    assert_eq!(Seasonality::DayOfWeek.bucket(0), 3);
    assert_eq!(Seasonality::MonthOfYear.bucket(40 * 24 * HOUR), 1);
    assert_eq!(Seasonality::DayOfWeek.bucket_count(), 7);
}

#[test]
fn services_have_series_of_their_own() {
    assert_eq!(service_label(None), "default");
    assert_eq!(service_label(Some("  ")), "default");
    assert_eq!(service_label(Some(" api ")), "api");
    assert_eq!(metric_key("default", "cpu"), "cpu");
    assert_eq!(metric_key("api", "cpu"), "api:cpu");
}

#[test]
fn groups_absorb_alerts() {
    let mut store = AnomalyStore::new();
    for v in STABLE {
        observe_at(&mut store, "cpu", v, 0);
    }
    let alert = observe_at(&mut store, "cpu", 500.0, 5).unwrap();
    let mut group = SystemAnomaly {
        id: "g".to_string(),
        services: vec!["api".to_string()],
        alert_ids: vec!["a".to_string()],
        shared_metrics: vec![],
        root_cause: RootCause { service: "api".to_string(), metric: "cpu".to_string() },
        max_severity: Severity::Warning,
        started_at: 3,
        last_seen_at: 3,
        metrics_by_service: vec![ServiceMetric {
            service: "api".to_string(),
            metric: "cpu".to_string(),
        }],
    };
    assert!(!group.is_systemic());
    group.absorb(&alert);
    assert!(group.is_systemic());
    assert_eq!(group.services, vec!["api".to_string(), "default".to_string()]);
    assert_eq!(group.alert_ids.len(), 2);
    assert_eq!(group.shared_metrics, vec!["cpu".to_string()]);
    assert_eq!(group.max_severity, Severity::Critical);
    assert_eq!(group.last_seen_at, 5);
}

#[test]
fn errors_have_words_and_statuses() {
    assert_eq!(SeasonalError::NotConfigured.status(), 404);
    assert_eq!(SeasonalError::BucketOutOfRange.message(), "season bucket out of range");
}

#[test]
fn seasonality_is_configured_per_metric() {
    let mut store = AnomalyStore::new();
    store.configure_seasonality(Some("payments"), "latency", Seasonality::DayOfWeek);
    let profile = store.seasonal_profile(Some(" payments "), "latency").unwrap();
    assert_eq!(profile.seasonality, Seasonality::DayOfWeek);
    assert_eq!(profile.buckets.len(), 7);
    assert!(profile.buckets.iter().all(|b| b.count == 0));
    assert!(profile.threshold_multipliers.iter().all(|m| float(*m) == 1.0));
    assert!(store.seasonal_profile(None, "latency").is_none());
    // 1970-01-01 was a Thursday.
    let season = store.observation_inputs(Some("payments"), "latency", 0).season.unwrap();
    assert_eq!(season.bucket, 3);
    assert!(store.observation_inputs(None, "latency", 0).season.is_none());
}

#[test]
fn thresholds_of_seasons_are_adjusted() {
    let mut store = AnomalyStore::new();
    assert_eq!(
        store.set_seasonal_threshold(None, "cpu", 0, measure(2.0)),
        Err(SeasonalError::NotConfigured)
    );
    store.configure_seasonality(None, "cpu", Seasonality::HourOfDay);
    assert_eq!(
        store.set_seasonal_threshold(None, "cpu", 24, measure(2.0)),
        Err(SeasonalError::BucketOutOfRange)
    );
    for wrong in [0.0, -1.0, f64::INFINITY, f64::NAN] {
        assert_eq!(
            store.set_seasonal_threshold(None, "cpu", 1, measure(wrong)),
            Err(SeasonalError::InvalidMultiplier)
        );
    }
    assert_eq!(store.set_seasonal_threshold(None, "cpu", 1, measure(2.0)), Ok(()));
    let season = store.observation_inputs(None, "cpu", HOUR).season.unwrap();
    assert_eq!(season.bucket, 1);
    assert_eq!(float(season.multiplier), 2.0);
    let other = store.observation_inputs(None, "cpu", 2 * HOUR).season.unwrap();
    assert_eq!(float(other.multiplier), 1.0);
}

#[test]
fn seasonal_patterns_describe_each_season() {
    let mut store = AnomalyStore::new();
    let figures = PatternFigures {
        global_std_dev: measure(9.0),
        components: (0..12)
            .map(|i| ComponentFigures {
                std_dev: measure(8.0),
                offset: measure(i as f64),
                threshold: measure(3.0),
            })
            .collect(),
    };
    assert!(store.seasonal_pattern(None, "cpu", &figures).is_none());
    store.configure_seasonality(None, "cpu", Seasonality::MonthOfYear);
    let pattern = store.seasonal_pattern(None, "cpu", &figures).unwrap();
    assert_eq!(pattern.service, "default");
    assert_eq!(pattern.metric, "cpu");
    assert_eq!(float(pattern.global_mean), 0.0);
    assert_eq!(float(pattern.global_std_dev), 0.0);
    assert_eq!(pattern.components.len(), 12);
    let july = &pattern.components[6];
    assert_eq!(july.bucket, 6);
    assert_eq!(july.count, 0);
    assert_eq!(float(july.std_dev), 0.0);
    assert_eq!(float(july.seasonal_offset), 6.0);
    assert_eq!(float(july.effective_threshold), 3.0);
    assert!(!july.trained);
}

#[test]
fn default_baselines_are_empty() {
    let baseline = Baseline::default();
    assert_eq!((baseline.count, baseline.mean.bits, baseline.m2.bits), (0, 0, 0));
}
