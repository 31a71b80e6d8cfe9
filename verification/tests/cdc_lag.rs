use ethos_protocol_backend::cdc_lag::{AlertSink, ConsumerLagTracker, LagAlert};
use ethos_protocol_backend::clock::{utc_now, SECOND};

struct CapturingSink(Vec<LagAlert>);

impl AlertSink for CapturingSink {
    fn raise(&mut self, alert: &LagAlert) {
        self.0.push(alert.clone());
    }
}

#[test]
fn lag_is_none_until_the_consumer_reports() {
    let mut t = ConsumerLagTracker::new();
    t.record_source_offset(100);
    assert!(t.lag("c1").is_none());
}

#[test]
fn offset_and_time_lag_are_computed_from_source_head() {
    let mut t = ConsumerLagTracker::new();
    let now = utc_now();
    t.record_source_offset(1_000);
    t.record_progress("c1", 940, now - 30 * SECOND);

    let lag = t.lag_at("c1", now).unwrap();
    assert_eq!(lag.offset_lag, 60);
    assert_eq!(lag.time_lag_seconds, 30);
}

#[test]
fn a_caught_up_consumer_has_zero_lag() {
    let mut t = ConsumerLagTracker::new();
    let now = utc_now();
    t.record_source_offset(500);
    t.record_progress("c1", 500, now);

    let lag = t.lag_at("c1", now).unwrap();
    assert_eq!(lag.offset_lag, 0);
    assert_eq!(lag.time_lag_seconds, 0);
}

#[test]
fn source_offset_never_rewinds() {
    let mut t = ConsumerLagTracker::new();
    t.record_source_offset(200);
    t.record_source_offset(150);
    t.record_progress_now("c1", 100);
    assert_eq!(t.lag("c1").unwrap().offset_lag, 100);
}

#[test]
fn threshold_breach_only_fires_above_the_limit() {
    let mut t = ConsumerLagTracker::new();
    let now = utc_now();
    t.record_source_offset(1_000);
    t.record_progress("healthy", 990, now);
    t.record_progress("stalled", 400, now - 120 * SECOND);

    let breaches = t.breaches(100);
    assert_eq!(breaches.len(), 1);
    assert_eq!(breaches[0].consumer, "stalled");
    assert_eq!(breaches[0].offset_lag, 600);
    assert_eq!(breaches[0].threshold, 100);
}

#[test]
fn evaluate_forwards_every_breach_to_the_sink() {
    let mut t = ConsumerLagTracker::new();
    let now = utc_now();
    t.record_source_offset(1_000);
    t.record_progress("a", 100, now);
    t.record_progress("b", 200, now);
    t.record_progress("c", 999, now);

    let mut sink = CapturingSink(Vec::new());
    let raised = t.evaluate(500, &mut sink);

    assert_eq!(raised.len(), 2);
    let captured = sink.0;
    assert_eq!(captured.len(), 2);
    assert_eq!(captured[0].consumer, "a");
    assert_eq!(captured[1].consumer, "b");
}

#[test]
fn prometheus_output_lists_every_consumer() {
    let mut t = ConsumerLagTracker::new();
    let now = utc_now();
    t.record_source_offset(50);
    t.record_progress("c1", 40, now);

    let text = t.render_prometheus();
    assert!(text.contains("cdc_consumer_offset_lag{consumer=\"c1\"} 10"));
    assert!(text.contains("cdc_consumer_time_lag_seconds{consumer=\"c1\"} 0"));
    assert!(text.contains("# TYPE cdc_consumer_offset_lag gauge"));
}

#[test]
fn the_exposition_lists_consumers_by_name() {
    let mut t = ConsumerLagTracker::new();
    t.record_source_offset(9);
    t.record_progress("z", 4, 0);
    t.record_progress("a", 20, 5 * SECOND);
    assert_eq!(
        t.render_prometheus_at(4 * SECOND),
        "# HELP cdc_consumer_offset_lag Events produced but not yet processed.\n\
         # TYPE cdc_consumer_offset_lag gauge\n\
         cdc_consumer_offset_lag{consumer=\"a\"} 0\n\
         cdc_consumer_offset_lag{consumer=\"z\"} 5\n\
         # HELP cdc_consumer_time_lag_seconds Seconds since the last processed event.\n\
         # TYPE cdc_consumer_time_lag_seconds gauge\n\
         cdc_consumer_time_lag_seconds{consumer=\"a\"} 0\n\
         cdc_consumer_time_lag_seconds{consumer=\"z\"} 4\n"
    );
    let lags = t.all_lags();
    assert_eq!(lags.len(), 2);
    assert_eq!(lags.get("z").unwrap().offset_lag, 5);
    // A lag of exactly the threshold is no breach, and a higher threshold
    // finds no more.
    assert!(t.breaches(5).is_empty());
    assert_eq!(t.breaches(4).len(), 1);
}

#[test]
fn alerts_reach_the_sink_in_their_order() {
    let mut t = ConsumerLagTracker::default();
    assert!(t.evaluate(0, &mut CapturingSink(Vec::new())).is_empty());
    t.record_source_offset(100);
    for name in ["c", "a", "b"] {
        t.record_progress(name, 10, utc_now());
    }
    let mut sink = CapturingSink(Vec::new());
    let alerts = t.evaluate(50, &mut sink);
    assert_eq!(sink.0, alerts);
    let names: Vec<&str> = sink.0.iter().map(|a| a.consumer.as_str()).collect();
    assert_eq!(names, vec!["a", "b", "c"]);
}
