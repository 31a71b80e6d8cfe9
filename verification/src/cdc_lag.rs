//! The lag of change-data consumers.
//!
//! Each consumer reports how far it has processed the change events; the
//! source reports how far it has produced them. The distance in events and in
//! time is the consumer's lag. Consumers that lag too far behind raise alerts.

use vstd::prelude::*;

use crate::clock::{utc_now, wall_clock_shows, Time, SECOND, TIME_MAX, TIME_MIN};
use crate::table::Table;
use crate::text::{decimal, is_sorted, push_decimal, texts};

verus! {

/// How far a consumer has come, and when.
#[derive(Debug, Clone, Copy, PartialEq, Eq, Structural)]
pub struct Progress {
    pub offset: u64,
    pub at: Time,
}

/// How far a consumer is behind the source.
#[derive(Debug, Clone, Copy, PartialEq, Eq, Structural)]
pub struct LagSnapshot {
    /// Events that were produced and not processed yet.
    pub offset_lag: u64,
    /// Seconds since the consumer's last report.
    pub time_lag_seconds: i64,
}

/// A consumer that is too far behind.
#[derive(Debug, PartialEq, Eq)]
pub struct LagAlert {
    pub consumer: String,
    pub offset_lag: u64,
    pub time_lag_seconds: i64,
    pub threshold: u64,
}

impl Clone for LagAlert {
    fn clone(&self) -> (r: Self)
        ensures
            r == *self,
    {
        LagAlert {
            consumer: self.consumer.clone(),
            offset_lag: self.offset_lag,
            time_lag_seconds: self.time_lag_seconds,
            threshold: self.threshold,
        }
    }
}

/// Where alerts go.
pub trait AlertSink {
    /// `after` is what `self` may have become by raising `alert`. A sink whose
    /// implementation is verified says what raising does; any other may do anything.
    open spec fn raises(&self, alert: &LagAlert, after: &Self) -> bool {
        true
    }

    /// Raises an alert.
    fn raise(&mut self, alert: &LagAlert)
        ensures
            old(self).raises(alert, final(self)),
    ;
}

/// Raising the alerts, one after the other, leads from one state of a sink through
/// `states` to another.
pub open spec fn raised_in_turn<S: AlertSink>(
    before: &S,
    alerts: Seq<LagAlert>,
    states: Seq<S>,
    after: &S,
) -> bool {
    &&& states.len() == alerts.len() + 1
    &&& states[0] == *before
    &&& states.last() == *after
    &&& forall|i: int|
        0 <= i < alerts.len() ==> (#[trigger] states[i]).raises(&alerts[i], &states[i + 1])
}

/// What the tracker knows.
pub struct TrackerModel {
    pub source_offset: u64,
    pub consumers: Map<Seq<char>, Progress>,
}

/// The lag of a consumer at a moment.
pub open spec fn lag_of(head: u64, progress: Progress, now: Time) -> LagSnapshot {
    LagSnapshot {
        offset_lag: if head >= progress.offset {
            (head - progress.offset) as u64
        } else {
            0
        },
        time_lag_seconds: if now >= progress.at {
            ((now - progress.at) as int / SECOND as int) as i64
        } else {
            0
        },
    }
}

impl TrackerModel {
    /// The tracker after the source has reported an offset.
    pub open spec fn advanced(self, offset: u64) -> TrackerModel {
        TrackerModel {
            source_offset: if offset > self.source_offset {
                offset
            } else {
                self.source_offset
            },
            ..self
        }
    }

    /// The lag of a consumer, if it has reported.
    pub open spec fn lag(self, consumer: Seq<char>, now: Time) -> Option<LagSnapshot> {
        if self.consumers.contains_key(consumer) {
            Some(lag_of(self.source_offset, self.consumers[consumer], now))
        } else {
            None
        }
    }

    /// The consumer is more than `threshold` events behind.
    pub open spec fn lags(self, consumer: Seq<char>, threshold: u64) -> bool {
        self.consumers.contains_key(consumer) && self.source_offset
            > self.consumers[consumer].offset + threshold
    }
}

/// The list holds an alert for each consumer that lags, in the order of their
/// names.
pub open spec fn reports_lags(
    t: TrackerModel,
    threshold: u64,
    now: Time,
    alerts: Seq<LagAlert>,
) -> bool {
    &&& forall|i: int|
        0 <= i < alerts.len() ==> {
            let a = #[trigger] alerts[i];
            &&& t.lags(a.consumer@, threshold)
            &&& a.threshold == threshold
            &&& t.lag(a.consumer@, now) == Some(
                LagSnapshot { offset_lag: a.offset_lag, time_lag_seconds: a.time_lag_seconds },
            )
        }
    &&& forall|c: Seq<char>| #[trigger]
        t.lags(c, threshold) ==> exists|i: int|
            0 <= i < alerts.len() && (#[trigger] alerts[i]).consumer@ == c
    &&& names_of(alerts).no_duplicates()
    &&& is_sorted(names_of(alerts))
}

/// The consumers of the alerts.
pub open spec fn names_of(alerts: Seq<LagAlert>) -> Seq<Seq<char>> {
    alerts.map_values(|a: LagAlert| a.consumer@)
}

/// The list holds the consumers, each once, in the order of their names.
pub open spec fn lists_consumers(t: TrackerModel, names: Seq<Seq<char>>) -> bool {
    is_sorted(names) && names.no_duplicates() && names.to_set() == t.consumers.dom()
}

/// A line of the exposition.
pub open spec fn metric_line(metric: Seq<char>, consumer: Seq<char>, value: nat) -> Seq<char> {
    metric + "{consumer=\""@ + consumer + "\"} "@ + decimal(value) + "\n"@
}

/// The lines of the offset lags.
pub open spec fn offset_lines(t: TrackerModel, names: Seq<Seq<char>>, now: Time) -> Seq<char>
    decreases names.len(),
{
    if names.len() == 0 {
        Seq::empty()
    } else {
        offset_lines(t, names.drop_last(), now) + metric_line(
            "cdc_consumer_offset_lag"@,
            names.last(),
            t.lag(names.last(), now)->0.offset_lag as nat,
        )
    }
}

/// The lines of the time lags.
pub open spec fn time_lines(t: TrackerModel, names: Seq<Seq<char>>, now: Time) -> Seq<char>
    decreases names.len(),
{
    if names.len() == 0 {
        Seq::empty()
    } else {
        time_lines(t, names.drop_last(), now) + metric_line(
            "cdc_consumer_time_lag_seconds"@,
            names.last(),
            t.lag(names.last(), now)->0.time_lag_seconds as nat,
        )
    }
}

/// The exposition of the lags.
pub open spec fn exposition(t: TrackerModel, names: Seq<Seq<char>>, now: Time) -> Seq<char> {
    "# HELP cdc_consumer_offset_lag Events produced but not yet processed.\n"@
        + "# TYPE cdc_consumer_offset_lag gauge\n"@ + offset_lines(t, names, now)
        + "# HELP cdc_consumer_time_lag_seconds Seconds since the last processed event.\n"@
        + "# TYPE cdc_consumer_time_lag_seconds gauge\n"@ + time_lines(t, names, now)
}

/// The text is the exposition of the lags at a moment.
pub open spec fn exposes(t: TrackerModel, now: Time, text: Seq<char>) -> bool {
    exists|names: Seq<Seq<char>>| #[trigger]
        lists_consumers(t, names) && text == exposition(t, names, now)
}

/// Writes a line of the exposition.
fn push_line(out: &mut String, metric: &str, consumer: &str, value: u64)
    ensures
        final(out)@ == old(out)@ + metric_line(metric@, consumer@, value as nat),
{
    let ghost before = out@;
    out.append(metric);
    out.append("{consumer=\"");
    out.append(consumer);
    out.append("\"} ");
    push_decimal(out, value as u128);
    out.append("\n");
    assert(out@ =~= before + metric_line(metric@, consumer@, value as nat));
}

/// The progress of every consumer and of the source.
pub struct ConsumerLagTracker {
    source_offset: u64,
    consumers: Table<Progress>,
}

impl Default for ConsumerLagTracker {
    /// A tracker that knows nothing yet.
    fn default() -> (r: Self)
        ensures
            r.wf(),
            r@ == (TrackerModel { source_offset: 0, consumers: Map::empty() }),
    {
        Self::new()
    }
}

impl ConsumerLagTracker {
    pub closed spec fn view(&self) -> TrackerModel {
        TrackerModel { source_offset: self.source_offset, consumers: self.consumers@ }
    }

    pub closed spec fn wf(&self) -> bool {
        &&& self.consumers.wf()
        &&& forall|c: Seq<char>| #[trigger]
            self.consumers@.contains_key(c) ==> TIME_MIN <= self.consumers@[c].at <= TIME_MAX
    }

    /// A tracker that knows of no progress.
    pub fn new() -> (r: Self)
        ensures
            r.wf(),
            r@ == (TrackerModel { source_offset: 0, consumers: Map::empty() }),
    {
        ConsumerLagTracker { source_offset: 0, consumers: Table::new() }
    }

    /// The source has produced up to `offset`. A lower offset than the known
    /// one is ignored.
    pub fn record_source_offset(&mut self, offset: u64)
        requires
            old(self).wf(),
        ensures
            final(self).wf(),
            final(self)@ == old(self)@.advanced(offset),
    {
        if offset > self.source_offset {
            self.source_offset = offset;
        }
    }

    /// The consumer has processed up to `offset`, at a moment.
    pub fn record_progress(&mut self, consumer: &str, offset: u64, at: Time)
        requires
            old(self).wf(),
            TIME_MIN <= at <= TIME_MAX,
        ensures
            final(self).wf(),
            final(self)@ == (TrackerModel {
                consumers: old(self)@.consumers.insert(consumer@, Progress { offset, at }),
                ..old(self)@
            }),
    {
        self.consumers.insert(consumer.to_owned(), Progress { offset, at });
    }

    /// The consumer has processed up to `offset`, now.
    pub fn record_progress_now(&mut self, consumer: &str, offset: u64)
        requires
            old(self).wf(),
        ensures
            final(self).wf(),
            final(self)@.source_offset == old(self)@.source_offset,
            exists|at: Time|
                wall_clock_shows(at) && final(self)@.consumers == old(self)@.consumers.insert(
                    consumer@,
                    #[trigger] progress_at(offset, at),
                ),
    {
        let at = utc_now();
        assert(progress_at(offset, at) == Progress { offset, at });
        self.record_progress(consumer, offset, at);
    }

    /// The lag of a consumer at a moment, if it has reported.
    pub fn lag_at(&self, consumer: &str, now: Time) -> (r: Option<LagSnapshot>)
        requires
            self.wf(),
            TIME_MIN <= now <= TIME_MAX,
        ensures
            r == self@.lag(consumer@, now),
    {
        match self.consumers.get(consumer) {
            Some(progress) => {
                let offset_lag: u64 = if self.source_offset >= progress.offset {
                    self.source_offset - progress.offset
                } else {
                    0
                };
                let time_lag_seconds: i64 = if now >= progress.at {
                    ((now - progress.at) / SECOND) as i64
                } else {
                    0
                };
                Some(LagSnapshot { offset_lag, time_lag_seconds })
            },
            None => None,
        }
    }

    /// The lag of a consumer, if it has reported.
    pub fn lag(&self, consumer: &str) -> (r: Option<LagSnapshot>)
        requires
            self.wf(),
        ensures
            exists|now: Time| wall_clock_shows(now) && r == #[trigger] self@.lag(consumer@, now),
    {
        let now = utc_now();
        self.lag_at(consumer, now)
    }

    /// The lags of all consumers at a moment.
    pub fn all_lags_at(&self, now: Time) -> (r: Table<LagSnapshot>)
        requires
            self.wf(),
            TIME_MIN <= now <= TIME_MAX,
        ensures
            r.wf(),
            all_lags(self@, now) == r@,
    {
        let mut out: Table<LagSnapshot> = Table::new();
        let names = self.consumers.sorted_keys();
        let ghost all = texts(names@);
        let mut i: usize = 0;
        while i < names.len()
            invariant
                i <= names.len(),
                self.wf(),
                TIME_MIN <= now <= TIME_MAX,
                out.wf(),
                all == texts(names@),
                all.no_duplicates(),
                all.to_set() == self@.consumers.dom(),
                out@.dom() =~= all.take(i as int).to_set(),
                forall|c: Seq<char>| #[trigger]
                    out@.contains_key(c) ==> self@.lag(c, now) == Some(out@[c]),
            decreases names.len() - i,
        {
            let name = names[i].as_str();
            assert(all.contains(name@)) by {
                assert(all[i as int] == name@);
            }
            assert(all.to_set().contains(name@));
            match self.lag_at(name, now) {
                Some(lag) => {
                    out.insert(name.to_owned(), lag);
                },
                None => {},
            }
            assert(all.take(i + 1) =~= all.take(i as int).push(name@));
            proof {
                assert forall|c: Seq<char>| all.take(i + 1).to_set().contains(c) <==> all.take(
                    i as int,
                ).to_set().contains(c) || c == name@ by {
                    let shorter = all.take(i as int);
                    let longer = all.take(i + 1);
                    if shorter.contains(c) {
                        assert(longer[shorter.index_of(c)] == c);
                    }
                    if c == name@ {
                        assert(longer[i as int] == c);
                    }
                    if longer.contains(c) && c != name@ {
                        assert(shorter[longer.index_of(c)] == c);
                    }
                }
            }
            i = i + 1;
        }
        assert(all.take(i as int) =~= all);
        assert(out@ =~= all_lags(self@, now));
        out
    }

    /// The lags of all consumers.
    pub fn all_lags(&self) -> (r: Table<LagSnapshot>)
        requires
            self.wf(),
        ensures
            r.wf(),
            exists|now: Time| wall_clock_shows(now) && #[trigger] all_lags(self@, now) == r@,
    {
        let now = utc_now();
        self.all_lags_at(now)
    }

    /// An alert for each consumer that is more than `threshold` events behind,
    /// at a moment, in the order of their names.
    pub fn breaches_at(&self, threshold: u64, now: Time) -> (r: Vec<LagAlert>)
        requires
            self.wf(),
            TIME_MIN <= now <= TIME_MAX,
        ensures
            reports_lags(self@, threshold, now, r@),
    {
        let names = self.consumers.sorted_keys();
        let ghost all = texts(names@);
        let mut out: Vec<LagAlert> = Vec::new();
        let mut i: usize = 0;
        while i < names.len()
            invariant
                i <= names.len(),
                self.wf(),
                TIME_MIN <= now <= TIME_MAX,
                all == texts(names@),
                is_sorted(all),
                all.no_duplicates(),
                all.to_set() == self@.consumers.dom(),
                forall|j: int|
                    0 <= j < out@.len() ==> {
                        let a = #[trigger] out@[j];
                        &&& self@.lags(a.consumer@, threshold)
                        &&& a.threshold == threshold
                        &&& self@.lag(a.consumer@, now) == Some(
                            LagSnapshot {
                                offset_lag: a.offset_lag,
                                time_lag_seconds: a.time_lag_seconds,
                            },
                        )
                        &&& exists|k: int| 0 <= k < i && #[trigger] all[k] == a.consumer@
                    },
                forall|k: int|
                    0 <= k < i && self@.lags(#[trigger] all[k], threshold) ==> alerts_name(
                        out@,
                        all[k],
                    ),
                names_of(out@).no_duplicates(),
                is_sorted(names_of(out@)),
            decreases names.len() - i,
        {
            let name = names[i].as_str();
            assert(all[i as int] == name@);
            assert(all.contains(name@));
            assert(all.to_set().contains(name@));
            let ghost earlier = out@;
            match self.lag_at(name, now) {
                Some(lag) => {
                    if lag.offset_lag > threshold {
                        let alert = LagAlert {
                            consumer: name.to_owned(),
                            offset_lag: lag.offset_lag,
                            time_lag_seconds: lag.time_lag_seconds,
                            threshold,
                        };
                        out.push(alert);
                        assert(names_of(out@) =~= names_of(earlier).push(name@));
                        assert(out@[earlier.len() as int].consumer@ == name@);
                    }
                },
                None => {},
            }
            proof {
                assert forall|j: int| 0 <= j < earlier.len() implies out@[j] == earlier[j] by {}
                assert forall|j: int| 0 <= j < names_of(earlier).len() implies (
                #[trigger] names_of(earlier)[j]) != name@ && crate::text::in_order(
                    names_of(earlier)[j],
                    name@,
                ) by {
                    let k = choose|k: int|
                        0 <= k < i && #[trigger] all[k] == earlier[j].consumer@;
                    assert(all[k] != all[i as int]);
                }
                assert forall|k: int|
                    0 <= k < i + 1 && self@.lags(#[trigger] all[k], threshold) implies alerts_name(
                    out@,
                    all[k],
                ) by {
                    if k < i {
                        assert(alerts_name(earlier, all[k]));
                        let j = choose|j: int|
                            0 <= j < earlier.len() && (#[trigger] earlier[j]).consumer@ == all[k];
                        assert(out@[j].consumer@ == all[k]);
                    }
                }
            }
            i = i + 1;
        }
        proof {
            assert forall|c: Seq<char>| #[trigger] self@.lags(c, threshold) implies exists|j: int|
                0 <= j < out@.len() && (#[trigger] out@[j]).consumer@ == c by {
                assert(all.to_set().contains(c));
                let k = all.index_of(c);
                assert(all[k] == c);
                assert(alerts_name(out@, c));
            }
        }
        out
    }

    /// An alert for each consumer that is more than `threshold` events behind,
    /// in the order of their names.
    pub fn breaches(&self, threshold: u64) -> (r: Vec<LagAlert>)
        requires
            self.wf(),
        ensures
            exists|now: Time|
                wall_clock_shows(now) && #[trigger] reports_lags(self@, threshold, now, r@),
    {
        let now = utc_now();
        self.breaches_at(threshold, now)
    }

    /// Raises an alert for each consumer that is more than `threshold` events
    /// behind, and returns the alerts.
    pub fn evaluate<S: AlertSink>(&self, threshold: u64, sink: &mut S) -> (r: Vec<LagAlert>)
        requires
            self.wf(),
        ensures
            exists|now: Time|
                wall_clock_shows(now) && #[trigger] reports_lags(self@, threshold, now, r@),
            exists|states: Seq<S>| #[trigger] raised_in_turn(old(sink), r@, states, final(sink)),
    {
        let alerts = self.breaches(threshold);
        let mut i: usize = 0;
        let ghost mut states: Seq<S> = seq![*sink];
        while i < alerts.len()
            invariant
                i <= alerts.len(),
                raised_in_turn(old(sink), alerts@.take(i as int), states, sink),
            decreases alerts.len() - i,
        {
            let ghost earlier = states;
            sink.raise(&alerts[i]);
            proof {
                states = states.push(*sink);
                assert forall|j: int| 0 <= j < i + 1 implies (#[trigger] states[j]).raises(
                    &alerts@.take(i + 1)[j],
                    &states[j + 1],
                ) by {
                    assert(states[j] == earlier[j]);
                    if j < i {
                        assert(states[j + 1] == earlier[j + 1]);
                        assert(alerts@.take(i as int)[j] == alerts@[j]);
                    }
                }
            }
            i = i + 1;
        }
        assert(alerts@.take(i as int) =~= alerts@);
        alerts
    }

    /// The lags at a moment, in the Prometheus text format.
    pub fn render_prometheus_at(&self, now: Time) -> (r: String)
        requires
            self.wf(),
            TIME_MIN <= now <= TIME_MAX,
        ensures
            exposes(self@, now, r@),
    {
        let names = self.consumers.sorted_keys();
        let ghost all = texts(names@);
        let lags = self.all_lags_at(now);
        let mut out = "# HELP cdc_consumer_offset_lag Events produced but not yet processed.\n".to_owned();
        out.append("# TYPE cdc_consumer_offset_lag gauge\n");
        let ghost head = out@;
        let mut i: usize = 0;
        assert(head + offset_lines(self@, all.take(0), now) =~= head);
        while i < names.len()
            invariant
                i <= names.len(),
                self.wf(),
                lags.wf(),
                lags@ == all_lags(self@, now),
                all == texts(names@),
                all.to_set() == self@.consumers.dom(),
                out@ == head + offset_lines(self@, all.take(i as int), now),
            decreases names.len() - i,
        {
            let name = names[i].as_str();
            assert(all[i as int] == name@);
            assert(all.contains(name@));
            assert(all.to_set().contains(name@));
            let ghost before = out@;
            match lags.get(name) {
                Some(lag) => {
                    push_line(&mut out, "cdc_consumer_offset_lag", name, lag.offset_lag);
                },
                None => {},
            }
            assert(all.take(i + 1).drop_last() =~= all.take(i as int));
            i = i + 1;
            assert(out@ =~= head + offset_lines(self@, all.take(i as int), now));
        }
        out.append(
            "# HELP cdc_consumer_time_lag_seconds Seconds since the last processed event.\n",
        );
        out.append("# TYPE cdc_consumer_time_lag_seconds gauge\n");
        let ghost middle = out@;
        let mut j: usize = 0;
        assert(middle + time_lines(self@, all.take(0), now) =~= middle);
        while j < names.len()
            invariant
                j <= names.len(),
                self.wf(),
                lags.wf(),
                lags@ == all_lags(self@, now),
                all == texts(names@),
                all.to_set() == self@.consumers.dom(),
                out@ == middle + time_lines(self@, all.take(j as int), now),
                TIME_MIN <= now <= TIME_MAX,
            decreases names.len() - j,
        {
            let name = names[j].as_str();
            assert(all[j as int] == name@);
            assert(all.contains(name@));
            assert(all.to_set().contains(name@));
            match lags.get(name) {
                Some(lag) => {
                    let seconds = lag.time_lag_seconds;
                    assert(TIME_MIN <= self.consumers@[name@].at <= TIME_MAX);
                    assert(seconds >= 0);
                    push_line(&mut out, "cdc_consumer_time_lag_seconds", name, seconds as u64);
                },
                None => {},
            }
            assert(all.take(j + 1).drop_last() =~= all.take(j as int));
            j = j + 1;
            assert(out@ =~= middle + time_lines(self@, all.take(j as int), now));
        }
        proof {
            assert(all.take(names@.len() as int) =~= all);
            assert(lists_consumers(self@, all));
            assert(out@ =~= exposition(self@, all, now));
        }
        out
    }

    /// The lags, in the Prometheus text format.
    pub fn render_prometheus(&self) -> (r: String)
        requires
            self.wf(),
        ensures
            exists|now: Time| wall_clock_shows(now) && #[trigger] exposes(self@, now, r@),
    {
        let now = utc_now();
        self.render_prometheus_at(now)
    }
}

/// A report at a moment.
pub open spec fn progress_at(offset: u64, at: Time) -> Progress {
    Progress { offset, at }
}

/// The lags of all consumers.
pub open spec fn all_lags(t: TrackerModel, now: Time) -> Map<Seq<char>, LagSnapshot> {
    Map::new(|c: Seq<char>| t.consumers.contains_key(c), |c: Seq<char>| t.lag(c, now)->0)
}

/// An alert names the consumer.
spec fn alerts_name(alerts: Seq<LagAlert>, consumer: Seq<char>) -> bool {
    exists|j: int| 0 <= j < alerts.len() && (#[trigger] alerts[j]).consumer@ == consumer
}

/// A consumer that has processed everything has no lag in events.
pub proof fn caught_up_consumers_do_not_lag(t: TrackerModel, consumer: Seq<char>, now: Time)
    requires
        t.consumers.contains_key(consumer),
        t.consumers[consumer].offset >= t.source_offset,
    ensures
        t.lag(consumer, now)->0.offset_lag == 0,
        !t.lags(consumer, 0),
{
}

/// A higher threshold raises no more alerts.
pub proof fn higher_thresholds_alert_less(
    t: TrackerModel,
    consumer: Seq<char>,
    low: u64,
    high: u64,
)
    requires
        low <= high,
        t.lags(consumer, high),
    ensures
        t.lags(consumer, low),
{
}

/// The head of the source is the highest offset that it has reported, in whatever order
/// the reports come.
pub proof fn the_head_never_goes_back(t: TrackerModel, a: u64, b: u64)
    ensures
        t.advanced(a).source_offset >= t.source_offset,
        t.advanced(a).source_offset >= a,
        t.advanced(a).source_offset == a || t.advanced(a).source_offset == t.source_offset,
        t.advanced(a).advanced(b) == t.advanced(b).advanced(a),
        t.advanced(a).consumers == t.consumers,
{
}

/// The lag of a consumer is what it has still to process, and the whole seconds since its
/// last report; neither is ever negative.
pub proof fn lags_are_distances(t: TrackerModel, consumer: Seq<char>, now: Time)
    requires
        t.consumers.contains_key(consumer),
        TIME_MIN <= now <= TIME_MAX,
        TIME_MIN <= t.consumers[consumer].at <= TIME_MAX,
    ensures
        ({
            let progress = t.consumers[consumer];
            let lag = t.lag(consumer, now)->0;
            &&& t.lag(consumer, now) is Some
            &&& t.source_offset >= progress.offset ==> progress.offset + lag.offset_lag
                == t.source_offset
            &&& t.source_offset < progress.offset ==> lag.offset_lag == 0
            &&& now >= progress.at ==> lag.time_lag_seconds * 1_000_000_000 <= now - progress.at
                < (lag.time_lag_seconds + 1) * 1_000_000_000
            &&& now < progress.at ==> lag.time_lag_seconds == 0
        }),
        t.lag(consumer, now) is Some,
{
}

/// A consumer is alerted on exactly where it is more than the threshold behind the head,
/// and the alert tells how far.
pub proof fn alerts_name_the_laggards(
    t: TrackerModel,
    threshold: u64,
    now: Time,
    alerts: Seq<LagAlert>,
    consumer: Seq<char>,
)
    requires
        reports_lags(t, threshold, now, alerts),
        t.consumers.contains_key(consumer),
    ensures
        t.source_offset - t.consumers[consumer].offset > threshold <==> exists|i: int|
            0 <= i < alerts.len() && (#[trigger] alerts[i]).consumer@ == consumer,
        forall|i: int|
            0 <= i < alerts.len() && (#[trigger] alerts[i]).consumer@ == consumer
                ==> alerts[i].offset_lag == t.source_offset - t.consumers[consumer].offset
                && alerts[i].threshold == threshold && alerts[i].offset_lag > threshold,
{
    if t.source_offset - t.consumers[consumer].offset > threshold {
        assert(t.lags(consumer, threshold));
    }
}

/// A report replaces what was known of its consumer and of no other.
pub proof fn reports_concern_one_consumer(
    t: TrackerModel,
    consumer: Seq<char>,
    offset: u64,
    at: Time,
    other: Seq<char>,
    now: Time,
)
    requires
        other != consumer,
    ensures
        ({
            let after = TrackerModel {
                consumers: t.consumers.insert(consumer, progress_at(offset, at)),
                ..t
            };
            &&& after.consumers[consumer].offset == offset
            &&& after.consumers[consumer].at == at
            &&& after.lag(other, now) == t.lag(other, now)
        }),
{
}

/// The lags of all consumers are those of each.
pub proof fn all_lags_are_listed(t: TrackerModel, now: Time, consumer: Seq<char>)
    ensures
        all_lags(t, now).contains_key(consumer) <==> t.consumers.contains_key(consumer),
        t.consumers.contains_key(consumer) ==> t.lag(consumer, now) == Some(
            all_lags(t, now)[consumer],
        ),
{
}

/// The exposition has a line for each consumer with its lag in events, and one with its lag
/// in seconds.
pub proof fn every_lag_is_exposed(t: TrackerModel, now: Time, text: Seq<char>, consumer: Seq<char>)
    requires
        exposes(t, now, text),
        t.consumers.contains_key(consumer),
        t.lag(consumer, now)->0.time_lag_seconds >= 0,
    ensures
        crate::text::occurs(
            "cdc_consumer_offset_lag"@ + "{consumer=\""@ + consumer + "\"} "@ + decimal(
                t.lag(consumer, now)->0.offset_lag as nat,
            ) + "\n"@,
            text,
        ),
        crate::text::occurs(
            "cdc_consumer_time_lag_seconds"@ + "{consumer=\""@ + consumer + "\"} "@ + decimal(
                t.lag(consumer, now)->0.time_lag_seconds as nat,
            ) + "\n"@,
            text,
        ),
{
    let names = choose|names: Seq<Seq<char>>| #[trigger]
        lists_consumers(t, names) && text == exposition(t, names, now);
    assert(names.to_set().contains(consumer));
    let i = names.index_of(consumer);
    lemma_lines_hold(t, names, now, i);
    let first = metric_line(
        "cdc_consumer_offset_lag"@,
        consumer,
        t.lag(consumer, now)->0.offset_lag as nat,
    );
    let second = metric_line(
        "cdc_consumer_time_lag_seconds"@,
        consumer,
        t.lag(consumer, now)->0.time_lag_seconds as nat,
    );
    let head = "# HELP cdc_consumer_offset_lag Events produced but not yet processed.\n"@
        + "# TYPE cdc_consumer_offset_lag gauge\n"@;
    let middle = "# HELP cdc_consumer_time_lag_seconds Seconds since the last processed event.\n"@
        + "# TYPE cdc_consumer_time_lag_seconds gauge\n"@;
    let offsets = offset_lines(t, names, now);
    let times = time_lines(t, names, now);
    assert(text =~= (head + offsets) + (middle + times));
    assert(text =~= (head + offsets + middle) + times);
    crate::text::patterns_stay_in_longer_texts(first, offsets, head);
    crate::text::patterns_stay_in_longer_texts(first, head + offsets, middle + times);
    crate::text::patterns_stay_in_longer_texts(second, times, head + offsets + middle);
}

proof fn lemma_lines_hold(t: TrackerModel, names: Seq<Seq<char>>, now: Time, i: int)
    requires
        0 <= i < names.len(),
    ensures
        crate::text::occurs(
            metric_line(
                "cdc_consumer_offset_lag"@,
                names[i],
                t.lag(names[i], now)->0.offset_lag as nat,
            ),
            offset_lines(t, names, now),
        ),
        crate::text::occurs(
            metric_line(
                "cdc_consumer_time_lag_seconds"@,
                names[i],
                t.lag(names[i], now)->0.time_lag_seconds as nat,
            ),
            time_lines(t, names, now),
        ),
    decreases names.len(),
{
    let rest = names.drop_last();
    let last = names.last();
    let first = metric_line(
        "cdc_consumer_offset_lag"@,
        last,
        t.lag(last, now)->0.offset_lag as nat,
    );
    let second = metric_line(
        "cdc_consumer_time_lag_seconds"@,
        last,
        t.lag(last, now)->0.time_lag_seconds as nat,
    );
    if i < rest.len() {
        lemma_lines_hold(t, rest, now, i);
        assert(rest[i] == names[i]);
        crate::text::patterns_stay_in_longer_texts(
            metric_line(
                "cdc_consumer_offset_lag"@,
                names[i],
                t.lag(names[i], now)->0.offset_lag as nat,
            ),
            offset_lines(t, rest, now),
            first,
        );
        crate::text::patterns_stay_in_longer_texts(
            metric_line(
                "cdc_consumer_time_lag_seconds"@,
                names[i],
                t.lag(names[i], now)->0.time_lag_seconds as nat,
            ),
            time_lines(t, rest, now),
            second,
        );
    } else {
        let none = Seq::<char>::empty();
        assert(offset_lines(t, rest, now) + first + none =~= offset_lines(t, names, now));
        assert(time_lines(t, rest, now) + second + none =~= time_lines(t, names, now));
        crate::text::lemma_occurs_between(offset_lines(t, rest, now), first, none);
        crate::text::lemma_occurs_between(time_lines(t, rest, now), second, none);
    }
}

} // verus!
