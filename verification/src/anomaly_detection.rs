//! Automatic anomaly detection and alerting.
//!
//! A baseline (count, mean and spread) is learned per metric, and an
//! observation far enough from it is an anomaly. Baselines learn from
//! anomalous points too. A baseline is trusted only after a number of
//! samples, and alerts for one metric keep a minimum distance in time.
//!
//! A metric can be seasonal (by hour, weekday or month). Then every season has
//! a baseline of its own, and a trained season judges the observations that
//! fall in it.
//!
//! The statistics themselves (means, deviations, scores) are measured values.
//! An observation is made in two steps: the store hands out the baselines that
//! the observation meets, and takes back the figures worked out from them.

use vstd::prelude::*;

use crate::clock::{
    day_of_week, hour_of_day, month0_at, month_of_year, utc_now, wall_clock_shows, Time, SECOND,
    TIME_MAX, TIME_MIN,
};
use crate::ids::{is_new_id, new_id};
use crate::measure::{Measure, INFINITY_BITS};
use crate::table::Table;
use crate::text::{copy_list, list_contains, name_option, same, texts, trim, trimmed};

verus! {

/// Number of observations before a baseline is trusted.
pub const MIN_SAMPLES_FOR_DETECTION: u64 = 5;

/// Three: the number of standard deviations that counts as anomalous, as
/// IEEE-754 bits.
pub const DEFAULT_Z_THRESHOLD: u64 = 0x4008_0000_0000_0000;

/// Twice the default threshold, as IEEE-754 bits.
pub const TWICE_DEFAULT_Z_THRESHOLD: u64 = 0x4018_0000_0000_0000;

/// The smallest spread that is told from zero, as IEEE-754 bits.
pub const EPSILON: u64 = 0x3CB0_0000_0000_0000;

/// One, as IEEE-754 bits.
pub const ONE: u64 = 0x3FF0_0000_0000_0000;

/// Shortest time between two alerts for one metric, in seconds.
pub const ALERT_COOLDOWN_SECONDS: i64 = 60;

/// The service of observations that name none.
pub const DEFAULT_SERVICE: &'static str = "default";

/// A pattern of anomalies that are to be ignored.
#[derive(Debug)]
pub struct Suppression {
    pub id: u64,
    pub pattern: String,
    pub created_at: Time,
    pub expires_at: Option<Time>,
}

impl Clone for Suppression {
    fn clone(&self) -> (r: Self)
        ensures
            r == *self,
    {
        Suppression {
            id: self.id,
            pattern: self.pattern.clone(),
            created_at: self.created_at,
            expires_at: self.expires_at,
        }
    }
}

impl Suppression {
    /// The suppression applies at `now`.
    pub open spec fn active(&self, now: Time) -> bool {
        self.expires_at is None || self.expires_at->0 > now
    }
}

/// The anomalies correlated with an anomaly.
#[derive(Debug)]
pub struct AnomalyCorrelation {
    pub anomaly_id: String,
    pub correlated_ids: Vec<String>,
    pub correlation_strength: Measure,
}

/// An event of the metric stream.
#[derive(Debug)]
pub struct StreamEvent {
    pub event_id: u64,
    pub metric: String,
    pub value: Measure,
    pub timestamp: Time,
}

impl Clone for StreamEvent {
    fn clone(&self) -> (r: Self)
        ensures
            r == *self,
    {
        StreamEvent {
            event_id: self.event_id,
            metric: self.metric.clone(),
            value: self.value,
            timestamp: self.timestamp,
        }
    }
}

/// Feedback on an anomaly.
#[derive(Debug)]
pub struct Feedback {
    pub id: String,
    pub anomaly_id: String,
    pub is_true_positive: bool,
    pub submitted_at: Time,
}

impl Clone for Feedback {
    fn clone(&self) -> (r: Self)
        ensures
            r == *self,
    {
        Feedback {
            id: self.id.clone(),
            anomaly_id: self.anomaly_id.clone(),
            is_true_positive: self.is_true_positive,
            submitted_at: self.submitted_at,
        }
    }
}

/// The statistics of a metric.
#[derive(Debug, Clone, Copy, PartialEq, Eq, Structural)]
pub struct Baseline {
    pub count: u64,
    pub mean: Measure,
    /// Sum of the squared distances from the mean.
    pub m2: Measure,
    pub last_updated: Time,
}

impl Default for Baseline {
    /// The statistics of nothing.
    fn default() -> (r: Self)
        ensures
            r.count == 0,
            r.mean == (Measure { bits: 0 }),
            r.m2 == (Measure { bits: 0 }),
            wall_clock_shows(r.last_updated),
    {
        Baseline {
            count: 0,
            mean: Measure { bits: 0 },
            m2: Measure { bits: 0 },
            last_updated: utc_now(),
        }
    }
}

/// The figures of one observation against a baseline.
#[derive(Debug, Clone, Copy, PartialEq, Eq, Structural)]
pub struct BaselineFigures {
    /// The standard deviation before the observation.
    pub std_dev: Measure,
    /// The distance from the mean before the observation, in standard deviations.
    pub deviation: Measure,
    /// The mean with the observation.
    pub mean_after: Measure,
    /// The sum of squared distances with the observation.
    pub m2_after: Measure,
}

impl Baseline {
    /// A baseline without observations, made at `now`.
    pub open spec fn empty(now: Time) -> Baseline {
        Baseline { count: 0, mean: Measure { bits: 0 }, m2: Measure { bits: 0 }, last_updated: now }
    }

    pub fn new(now: Time) -> (r: Baseline)
        ensures
            r == Baseline::empty(now),
    {
        Baseline { count: 0, mean: Measure { bits: 0 }, m2: Measure { bits: 0 }, last_updated: now }
    }

    /// The standard deviation; zero below two observations.
    pub open spec fn spread_with(self, std_dev: Measure) -> Measure {
        if self.count < 2 {
            Measure { bits: 0 }
        } else {
            std_dev
        }
    }

    /// The standard deviation by the figures of an observation.
    pub open spec fn spread(self, figures: BaselineFigures) -> Measure {
        self.spread_with(figures.std_dev)
    }

    /// There are enough observations, and they differ.
    pub open spec fn trained(self, figures: BaselineFigures) -> bool {
        self.count >= MIN_SAMPLES_FOR_DETECTION && self.spread(figures).gt_spec(
            Measure { bits: EPSILON },
        )
    }

    /// The score of an observation: its distance from the mean in standard
    /// deviations; zero before the baseline is trained.
    pub open spec fn score(self, figures: BaselineFigures) -> Measure {
        if self.trained(figures) {
            figures.deviation
        } else {
            Measure { bits: 0 }
        }
    }

    /// The baseline with the observation.
    pub open spec fn updated(self, figures: BaselineFigures, at: Time) -> Baseline {
        Baseline {
            count: (self.count + 1) as u64,
            mean: figures.mean_after,
            m2: figures.m2_after,
            last_updated: at,
        }
    }

    pub fn std_dev(&self, figures: &BaselineFigures) -> (r: Measure)
        ensures
            r == self.spread(*figures),
    {
        if self.count < 2 {
            Measure { bits: 0 }
        } else {
            figures.std_dev
        }
    }

    fn is_trained(&self, figures: &BaselineFigures) -> (r: bool)
        ensures
            r == self.trained(*figures),
    {
        self.count >= MIN_SAMPLES_FOR_DETECTION && self.std_dev(figures).gt(
            &Measure { bits: EPSILON },
        )
    }

    /// Learns from an observation, and returns its score against the baseline
    /// as it was before.
    pub fn observe(&mut self, figures: &BaselineFigures, at: Time) -> (r: Measure)
        requires
            old(self).count < u64::MAX,
        ensures
            *final(self) == old(self).updated(*figures, at),
            r == old(self).score(*figures),
    {
        let score = if self.is_trained(figures) {
            figures.deviation
        } else {
            Measure { bits: 0 }
        };
        self.count = self.count + 1;
        self.mean = figures.mean_after;
        self.m2 = figures.m2_after;
        self.last_updated = at;
        score
    }
}

/// How far outside the threshold a point was.
#[derive(Debug, Clone, Copy, PartialEq, Eq, PartialOrd, Ord, Structural)]
pub enum Severity {
    Warning,
    Critical,
}

/// An anomaly alert.
#[derive(Debug)]
pub struct Alert {
    pub id: String,
    /// Service that produced the observation.
    pub service: String,
    pub metric: String,
    pub value: Measure,
    /// Mean the point was judged against.
    pub baseline_mean: Measure,
    pub baseline_std_dev: Measure,
    pub z_score: Measure,
    /// Threshold after any seasonal adjustment.
    pub threshold: Measure,
    /// Season that the observation fell in, for seasonal metrics.
    pub seasonal_bucket: Option<u32>,
    /// How much higher than the global mean this season runs, where the
    /// season judged the point.
    pub seasonal_component: Option<Measure>,
    pub severity: Severity,
    pub timestamp: Time,
}

impl Clone for Alert {
    fn clone(&self) -> (r: Self)
        ensures
            r == *self,
    {
        Alert {
            id: self.id.clone(),
            service: self.service.clone(),
            metric: self.metric.clone(),
            value: self.value,
            baseline_mean: self.baseline_mean,
            baseline_std_dev: self.baseline_std_dev,
            z_score: self.z_score,
            threshold: self.threshold,
            seasonal_bucket: self.seasonal_bucket,
            seasonal_component: self.seasonal_component,
            severity: self.severity,
            timestamp: self.timestamp,
        }
    }
}

/// The name of a service; blank ones count as absent.
pub open spec fn service_name(service: Option<Seq<char>>) -> Seq<char> {
    match service {
        Some(s) => if trimmed(s).len() > 0 {
            trimmed(s)
        } else {
            DEFAULT_SERVICE@
        },
        None => DEFAULT_SERVICE@,
    }
}

/// The name under which the series of a service are kept.
pub fn service_label(service: Option<&str>) -> (r: String)
    ensures
        r@ == service_name(name_option(service)),
{
    match service {
        Some(s) => {
            let name = trim(s);
            if name.as_str().is_empty() {
                DEFAULT_SERVICE.to_owned()
            } else {
                name
            }
        },
        None => DEFAULT_SERVICE.to_owned(),
    }
}

/// The key of a metric's baseline: the metric, after the service and a colon
/// unless that is the default one.
pub open spec fn baseline_key(service: Seq<char>, metric: Seq<char>) -> Seq<char> {
    if service == DEFAULT_SERVICE@ {
        metric
    } else {
        service + ":"@ + metric
    }
}

pub fn metric_key(service: &str, metric: &str) -> (r: String)
    ensures
        r@ == baseline_key(service@, metric@),
{
    if same(service, DEFAULT_SERVICE) {
        metric.to_owned()
    } else {
        let mut key = service.to_owned();
        key.append(":");
        key.append(metric);
        key
    }
}

/// Seasonal period of a metric.
#[derive(Debug, Clone, Copy, PartialEq, Eq, Structural)]
pub enum Seasonality {
    /// 24 seasons, one per UTC hour.
    HourOfDay,
    /// 7 seasons, from Monday.
    DayOfWeek,
    /// 12 seasons, from January.
    MonthOfYear,
}

impl Seasonality {
    pub open spec fn seasons(self) -> nat {
        match self {
            Seasonality::HourOfDay => 24,
            Seasonality::DayOfWeek => 7,
            Seasonality::MonthOfYear => 12,
        }
    }

    /// The season of a moment.
    pub open spec fn season_of(self, at: Time) -> int {
        let secs = at as int / SECOND as int;
        match self {
            Seasonality::HourOfDay => (secs % 86_400) / 3_600,
            Seasonality::DayOfWeek => (secs / 86_400 + 3) % 7,
            Seasonality::MonthOfYear => month0_at(secs) as int,
        }
    }

    pub fn bucket_count(self) -> (r: usize)
        ensures
            r == self.seasons(),
    {
        match self {
            Seasonality::HourOfDay => 24,
            Seasonality::DayOfWeek => 7,
            Seasonality::MonthOfYear => 12,
        }
    }

    pub fn bucket(self, at: Time) -> (r: usize)
        requires
            TIME_MIN <= at <= TIME_MAX,
        ensures
            r == self.season_of(at),
            r < self.seasons(),
    {
        match self {
            Seasonality::HourOfDay => hour_of_day(at) as usize,
            Seasonality::DayOfWeek => day_of_week(at) as usize,
            Seasonality::MonthOfYear => month_of_year(at) as usize,
        }
    }
}

/// The baselines and threshold multipliers of the seasons of a metric.
#[derive(Debug)]
pub struct SeasonalProfile {
    pub seasonality: Seasonality,
    pub buckets: Vec<Baseline>,
    pub threshold_multipliers: Vec<Measure>,
}

impl SeasonalProfile {
    /// There is a baseline and a multiplier for every season.
    pub open spec fn wf(&self) -> bool {
        &&& self.buckets.len() == self.seasonality.seasons()
        &&& self.threshold_multipliers.len() == self.seasonality.seasons()
    }

    /// The profile has no observations and was made at `now`; every multiplier
    /// is one.
    pub open spec fn fresh(&self, seasonality: Seasonality, now: Time) -> bool {
        &&& self.wf()
        &&& self.seasonality == seasonality
        &&& forall|i: int|
            0 <= i < self.buckets.len() ==> #[trigger] self.buckets[i] == Baseline::empty(now)
        &&& forall|i: int|
            0 <= i < self.threshold_multipliers.len() ==> #[trigger] self.threshold_multipliers[i]
                == (Measure { bits: ONE })
    }

    pub fn new(seasonality: Seasonality, now: Time) -> (r: Self)
        ensures
            r.fresh(seasonality, now),
    {
        let n = seasonality.bucket_count();
        let mut buckets: Vec<Baseline> = Vec::new();
        let mut threshold_multipliers: Vec<Measure> = Vec::new();
        let mut i: usize = 0;
        while i < n
            invariant
                i <= n,
                buckets.len() == i,
                threshold_multipliers.len() == i,
                forall|j: int| 0 <= j < i ==> #[trigger] buckets[j] == Baseline::empty(now),
                forall|j: int|
                    0 <= j < i ==> #[trigger] threshold_multipliers[j] == (Measure { bits: ONE }),
            decreases n - i,
        {
            buckets.push(Baseline::new(now));
            threshold_multipliers.push(Measure { bits: ONE });
            i = i + 1;
        }
        SeasonalProfile { seasonality, buckets, threshold_multipliers }
    }

    /// What was learned of a season.
    pub open spec fn component(&self, b: int, figures: ComponentFigures) -> SeasonalComponent {
        SeasonalComponent {
            bucket: b as u32,
            count: self.buckets[b].count,
            mean: self.buckets[b].mean,
            std_dev: self.buckets[b].spread_with(figures.std_dev),
            seasonal_offset: figures.offset,
            threshold_multiplier: self.threshold_multipliers[b],
            effective_threshold: figures.threshold,
            trained: self.buckets[b].count >= MIN_SAMPLES_FOR_DETECTION,
        }
    }

    /// What was learned of the seasons, in their order.
    fn components(&self, figures: &Vec<ComponentFigures>) -> (r: Vec<SeasonalComponent>)
        requires
            self.wf(),
            figures.len() == self.seasonality.seasons(),
        ensures
            r.len() == self.seasonality.seasons(),
            forall|b: int|
                0 <= b < r.len() ==> #[trigger] r[b] == self.component(b, figures[b]),
    {
        let mut out: Vec<SeasonalComponent> = Vec::new();
        let mut b: usize = 0;
        while b < self.buckets.len()
            invariant
                self.wf(),
                figures.len() == self.seasonality.seasons(),
                b <= self.buckets.len(),
                out.len() == b,
                forall|i: int|
                    0 <= i < b ==> #[trigger] out[i] == self.component(i, figures[i]),
            decreases self.buckets.len() - b,
        {
            let bucket = self.buckets[b];
            out.push(
                SeasonalComponent {
                    bucket: b as u32,
                    count: bucket.count,
                    mean: bucket.mean,
                    std_dev: if bucket.count < 2 {
                        Measure { bits: 0 }
                    } else {
                        figures[b].std_dev
                    },
                    seasonal_offset: figures[b].offset,
                    threshold_multiplier: self.threshold_multipliers[b],
                    effective_threshold: figures[b].threshold,
                    trained: bucket.count >= MIN_SAMPLES_FOR_DETECTION,
                },
            );
            b = b + 1;
        }
        out
    }
}

#[derive(Debug, Clone, Copy, PartialEq, Eq, Structural)]
pub enum SeasonalError {
    NotConfigured,
    BucketOutOfRange,
    InvalidMultiplier,
}

impl SeasonalError {
    pub open spec fn message_spec(self) -> Seq<char> {
        match self {
            SeasonalError::NotConfigured => "metric has no seasonality configured"@,
            SeasonalError::BucketOutOfRange => "season bucket out of range"@,
            SeasonalError::InvalidMultiplier => "threshold multiplier must be a positive finite number"@,
        }
    }

    /// The error in words.
    pub fn message(&self) -> (r: String)
        ensures
            r@ == self.message_spec(),
    {
        match self {
            SeasonalError::NotConfigured => "metric has no seasonality configured".to_owned(),
            SeasonalError::BucketOutOfRange => "season bucket out of range".to_owned(),
            SeasonalError::InvalidMultiplier => "threshold multiplier must be a positive finite number".to_owned(),
        }
    }

    /// The HTTP status that reports the error.
    pub fn status(&self) -> (r: u16)
        ensures
            r == match *self {
                SeasonalError::NotConfigured => 404u16,
                _ => 400u16,
            },
    {
        match self {
            SeasonalError::NotConfigured => 404,
            SeasonalError::BucketOutOfRange => 400,
            SeasonalError::InvalidMultiplier => 400,
        }
    }
}

/// The figures that describe a season: its spread, its mean minus the global
/// mean, and the default threshold times its multiplier.
#[derive(Debug, Clone, Copy, PartialEq, Eq, Structural)]
pub struct ComponentFigures {
    pub std_dev: Measure,
    pub offset: Measure,
    pub threshold: Measure,
}

/// The figures that describe the seasons of a metric.
#[derive(Debug)]
pub struct PatternFigures {
    pub global_std_dev: Measure,
    pub components: Vec<ComponentFigures>,
}

/// What was learned of a season.
#[derive(Debug, Clone, Copy, PartialEq, Eq, Structural)]
pub struct SeasonalComponent {
    pub bucket: u32,
    pub count: u64,
    pub mean: Measure,
    pub std_dev: Measure,
    /// How much higher than the metric overall the season runs.
    pub seasonal_offset: Measure,
    pub threshold_multiplier: Measure,
    /// Threshold for the observations that fall in the season.
    pub effective_threshold: Measure,
    /// Whether the season has enough observations.
    pub trained: bool,
}

/// What was learned of the seasons of a metric.
#[derive(Debug)]
pub struct SeasonalPattern {
    pub service: String,
    pub metric: String,
    pub seasonality: Seasonality,
    pub global_mean: Measure,
    pub global_std_dev: Measure,
    pub components: Vec<SeasonalComponent>,
}

/// Suspected origin of a correlated incident.
#[derive(Debug, PartialEq, Eq, Hash)]
pub struct RootCause {
    pub service: String,
    pub metric: String,
}

/// A service and a metric that alerted in it.
#[derive(Debug)]
pub struct ServiceMetric {
    pub service: String,
    pub metric: String,
}

/// A group of alerts that are close in time.
#[derive(Debug)]
pub struct SystemAnomaly {
    pub id: String,
    pub services: Vec<String>,
    pub alert_ids: Vec<String>,
    /// Metrics that alerted in two or more services of this group.
    pub shared_metrics: Vec<String>,
    /// The earliest alert of the group.
    pub root_cause: RootCause,
    pub max_severity: Severity,
    pub started_at: Time,
    pub last_seen_at: Time,
    /// The services of the group with their metrics.
    pub metrics_by_service: Vec<ServiceMetric>,
}

/// The contents of a group.
pub struct GroupModel {
    pub services: Seq<Seq<char>>,
    pub alert_ids: Seq<Seq<char>>,
    pub shared_metrics: Seq<Seq<char>>,
    pub root_cause: (Seq<char>, Seq<char>),
    pub max_severity: Severity,
    pub started_at: int,
    pub last_seen_at: int,
    pub pairs: Seq<(Seq<char>, Seq<char>)>,
}

/// A list with an element added at its end, unless it holds it already.
pub open spec fn with_element<T>(list: Seq<T>, x: T) -> Seq<T> {
    if list.contains(x) {
        list
    } else {
        list.push(x)
    }
}

/// Another service has alerted on the metric.
pub open spec fn alerted_elsewhere(
    pairs: Seq<(Seq<char>, Seq<char>)>,
    service: Seq<char>,
    metric: Seq<char>,
) -> bool {
    exists|i: int|
        0 <= i < pairs.len() && (#[trigger] pairs[i]).1 == metric && pairs[i].0 != service
}

impl GroupModel {
    /// Alerts of two or more services are in the group.
    pub open spec fn spans_services(self) -> bool {
        self.services.len() >= 2
    }

    /// The group with an alert added.
    pub open spec fn absorbed(self, alert: Alert) -> GroupModel {
        let pairs = with_element(self.pairs, (alert.service@, alert.metric@));
        GroupModel {
            services: with_element(self.services, alert.service@),
            alert_ids: self.alert_ids.push(alert.id@),
            shared_metrics: if alerted_elsewhere(pairs, alert.service@, alert.metric@) {
                with_element(self.shared_metrics, alert.metric@)
            } else {
                self.shared_metrics
            },
            root_cause: if alert.timestamp < self.started_at {
                (alert.service@, alert.metric@)
            } else {
                self.root_cause
            },
            max_severity: if alert.severity == Severity::Critical {
                Severity::Critical
            } else {
                self.max_severity
            },
            started_at: if alert.timestamp < self.started_at {
                alert.timestamp as int
            } else {
                self.started_at
            },
            last_seen_at: if alert.timestamp > self.last_seen_at {
                alert.timestamp as int
            } else {
                self.last_seen_at
            },
            pairs,
        }
    }
}

impl SystemAnomaly {
    pub open spec fn view(&self) -> GroupModel {
        GroupModel {
            services: texts(self.services@),
            alert_ids: texts(self.alert_ids@),
            shared_metrics: texts(self.shared_metrics@),
            root_cause: (self.root_cause.service@, self.root_cause.metric@),
            max_severity: self.max_severity,
            started_at: self.started_at as int,
            last_seen_at: self.last_seen_at as int,
            pairs: self.metrics_by_service@.map_values(|p: ServiceMetric| (p.service@, p.metric@)),
        }
    }

    /// Whether the group spans two or more services.
    pub fn is_systemic(&self) -> (r: bool)
        ensures
            r == self@.spans_services(),
    {
        self.services.len() >= 2
    }

    fn has_pair(&self, service: &str, metric: &str) -> (r: bool)
        ensures
            r == self@.pairs.contains((service@, metric@)),
    {
        let ghost pairs = self@.pairs;
        let mut i: usize = 0;
        while i < self.metrics_by_service.len()
            invariant
                i <= self.metrics_by_service.len(),
                pairs == self@.pairs,
                forall|j: int| 0 <= j < i ==> pairs[j] != (service@, metric@),
            decreases self.metrics_by_service.len() - i,
        {
            let pair = &self.metrics_by_service[i];
            if same(pair.service.as_str(), service) && same(pair.metric.as_str(), metric) {
                assert(pairs[i as int] == (service@, metric@));
                return true;
            }
            i = i + 1;
        }
        false
    }

    fn seen_elsewhere(&self, service: &str, metric: &str) -> (r: bool)
        ensures
            r == alerted_elsewhere(self@.pairs, service@, metric@),
    {
        let ghost pairs = self@.pairs;
        let mut i: usize = 0;
        while i < self.metrics_by_service.len()
            invariant
                i <= self.metrics_by_service.len(),
                pairs == self@.pairs,
                forall|j: int|
                    0 <= j < i ==> !((#[trigger] pairs[j]).1 == metric@ && pairs[j].0 != service@),
            decreases self.metrics_by_service.len() - i,
        {
            let pair = &self.metrics_by_service[i];
            if same(pair.metric.as_str(), metric) && !same(pair.service.as_str(), service) {
                assert(pairs[i as int].1 == metric@ && pairs[i as int].0 != service@);
                return true;
            }
            i = i + 1;
        }
        false
    }

    /// Adds an alert to the group.
    pub fn absorb(&mut self, alert: &Alert)
        ensures
            final(self)@ == old(self)@.absorbed(*alert),
            final(self).id == old(self).id,
    {
        let ghost before = self@;
        if !list_contains(&self.services, alert.service.as_str()) {
            self.services.push(alert.service.clone());
        }
        assert(self@.services =~= before.absorbed(*alert).services);
        self.alert_ids.push(alert.id.clone());
        assert(self@.alert_ids =~= before.absorbed(*alert).alert_ids);
        if !self.has_pair(alert.service.as_str(), alert.metric.as_str()) {
            self.metrics_by_service.push(
                ServiceMetric { service: alert.service.clone(), metric: alert.metric.clone() },
            );
        }
        assert(self@.pairs =~= before.absorbed(*alert).pairs);
        assert(self@.shared_metrics == before.shared_metrics);
        if !list_contains(&self.shared_metrics, alert.metric.as_str()) && self.seen_elsewhere(
            alert.service.as_str(),
            alert.metric.as_str(),
        ) {
            self.shared_metrics.push(alert.metric.clone());
        }
        assert(self@.shared_metrics =~= before.absorbed(*alert).shared_metrics);
        if alert.severity == Severity::Critical {
            self.max_severity = alert.severity;
        }
        if alert.timestamp < self.started_at {
            self.started_at = alert.timestamp;
            self.root_cause = RootCause {
                service: alert.service.clone(),
                metric: alert.metric.clone(),
            };
        }
        if alert.timestamp > self.last_seen_at {
            self.last_seen_at = alert.timestamp;
        }
    }
}

/// The season that an observation meets: its place, its baseline and its
/// threshold multiplier.
#[derive(Debug, Clone, Copy, PartialEq, Eq, Structural)]
pub struct SeasonInput {
    pub bucket: u32,
    pub baseline: Baseline,
    pub multiplier: Measure,
}

/// The baselines that an observation meets.
#[derive(Debug, Clone, Copy, PartialEq, Eq, Structural)]
pub struct ObservationInputs {
    pub baseline: Baseline,
    pub season: Option<SeasonInput>,
}

/// The figures of an observation against a season.
#[derive(Debug, Clone, Copy, PartialEq, Eq, Structural)]
pub struct SeasonFigures {
    pub figures: BaselineFigures,
    /// The default threshold times the multiplier of the season.
    pub threshold: Measure,
    /// Twice that.
    pub twice_threshold: Measure,
    /// The mean of the season minus the global mean.
    pub component: Measure,
}

/// The figures worked out from the inputs of an observation.
#[derive(Debug, Clone, Copy, PartialEq, Eq, Structural)]
pub struct ObservationFigures {
    pub global: BaselineFigures,
    pub season: Option<SeasonFigures>,
}

/// How an observation is judged.
pub struct Judgement {
    pub score: Measure,
    pub mean: Measure,
    pub std_dev: Measure,
    pub threshold: Measure,
    pub twice_threshold: Measure,
    pub bucket: Option<u32>,
    pub component: Option<Measure>,
}

/// How an observation is judged: by its season, where that is trained, else by
/// the global baseline; against the threshold of the season, where the metric
/// is seasonal.
pub open spec fn judged(inputs: ObservationInputs, figures: ObservationFigures) -> Judgement {
    let global = Judgement {
        score: inputs.baseline.score(figures.global),
        mean: inputs.baseline.mean,
        std_dev: inputs.baseline.spread(figures.global),
        threshold: Measure { bits: DEFAULT_Z_THRESHOLD },
        twice_threshold: Measure { bits: TWICE_DEFAULT_Z_THRESHOLD },
        bucket: None,
        component: None,
    };
    match inputs.season {
        None => global,
        Some(season) => {
            let given = figures.season->0;
            let seasonal = Judgement {
                threshold: given.threshold,
                twice_threshold: given.twice_threshold,
                bucket: Some(season.bucket),
                ..global
            };
            if season.baseline.trained(given.figures) {
                Judgement {
                    score: given.figures.deviation,
                    mean: season.baseline.mean,
                    std_dev: given.figures.std_dev,
                    component: Some(given.component),
                    ..seasonal
                }
            } else {
                seasonal
            }
        },
    }
}

/// The observation is anomalous: the baseline is trusted and the score is not
/// below the threshold.
pub open spec fn anomalous(inputs: ObservationInputs, figures: ObservationFigures) -> bool {
    let j = judged(inputs, figures);
    inputs.baseline.count >= MIN_SAMPLES_FOR_DETECTION && !j.threshold.gt_spec(j.score.abs_spec())
}

/// The alert that an anomalous observation leads to.
pub open spec fn is_alert(
    alert: Alert,
    id: Seq<char>,
    service: Seq<char>,
    metric: Seq<char>,
    value: Measure,
    at: Time,
    j: Judgement,
) -> bool {
    &&& alert.id@ == id
    &&& alert.service@ == service
    &&& alert.metric@ == metric
    &&& alert.value == value
    &&& alert.baseline_mean == j.mean
    &&& alert.baseline_std_dev == j.std_dev
    &&& alert.z_score == j.score
    &&& alert.threshold == j.threshold
    &&& alert.seasonal_bucket == j.bucket
    &&& alert.seasonal_component == j.component
    &&& alert.severity == if j.score.abs_spec().ge_spec(j.twice_threshold) {
        Severity::Critical
    } else {
        Severity::Warning
    }
    &&& alert.timestamp == at
}

/// The baselines, the alerts and what operators noted on them.
pub struct AnomalyStore {
    pub baselines: Table<Baseline>,
    pub seasonal: Table<SeasonalProfile>,
    pub alerts: Vec<Alert>,
    pub last_alert_at: Table<Time>,
    pub suppressions: Vec<Suppression>,
    pub suppression_counter: u64,
    pub correlations: Table<AnomalyCorrelation>,
    pub stream_events: Vec<StreamEvent>,
    pub feedback_entries: Vec<Feedback>,
}

impl AnomalyStore {
    /// The tables are well formed, the profiles have all their seasons, the
    /// suppressions are numbered in order, and the times lie in the calendar.
    pub open spec fn wf(&self) -> bool {
        &&& self.baselines.wf()
        &&& self.seasonal.wf()
        &&& forall|k: Seq<char>| #[trigger] self.seasonal@.contains_key(k) ==> self.seasonal@[k].wf()
        &&& self.last_alert_at.wf()
        &&& forall|k: Seq<char>| #[trigger]
            self.last_alert_at@.contains_key(k) ==> TIME_MIN <= self.last_alert_at@[k] <= TIME_MAX
        &&& self.correlations.wf()
        &&& forall|i: int|
            0 <= i < self.suppressions.len() ==> (#[trigger] self.suppressions[i]).id
                <= self.suppression_counter
        &&& forall|i: int, j: int|
            0 <= i < j < self.suppressions.len() ==> (#[trigger] self.suppressions[i]).id < (
            #[trigger] self.suppressions[j]).id
    }

    pub fn new() -> (r: Self)
        ensures
            r.wf(),
            r.baselines@ == Map::<Seq<char>, Baseline>::empty(),
            r.seasonal@ == Map::<Seq<char>, SeasonalProfile>::empty(),
            r.alerts@ == Seq::<Alert>::empty(),
            r.last_alert_at@ == Map::<Seq<char>, Time>::empty(),
            r.suppressions@ == Seq::<Suppression>::empty(),
            r.suppression_counter == 0,
            r.correlations@ == Map::<Seq<char>, AnomalyCorrelation>::empty(),
            r.stream_events@ == Seq::<StreamEvent>::empty(),
            r.feedback_entries@ == Seq::<Feedback>::empty(),
    {
        AnomalyStore {
            baselines: Table::new(),
            seasonal: Table::new(),
            alerts: Vec::new(),
            last_alert_at: Table::new(),
            suppressions: Vec::new(),
            suppression_counter: 0,
            correlations: Table::new(),
            stream_events: Vec::new(),
            feedback_entries: Vec::new(),
        }
    }

    /// The baselines that an observation meets at `at`.
    pub open spec fn inputs(&self, key: Seq<char>, at: Time) -> ObservationInputs {
        ObservationInputs {
            baseline: if self.baselines@.contains_key(key) {
                self.baselines@[key]
            } else {
                Baseline::empty(at)
            },
            season: if self.seasonal@.contains_key(key) {
                let profile = self.seasonal@[key];
                let b = profile.seasonality.season_of(at);
                Some(
                    SeasonInput {
                        bucket: b as u32,
                        baseline: profile.buckets[b],
                        multiplier: profile.threshold_multipliers[b],
                    },
                )
            } else {
                None
            },
        }
    }

    /// The metric alerted less than the cooldown before `at`.
    pub open spec fn cooling_down(&self, key: Seq<char>, at: Time) -> bool {
        self.last_alert_at@.contains_key(key) && at - self.last_alert_at@[key]
            < ALERT_COOLDOWN_SECONDS * SECOND
    }

    /// The counts of the baselines that an observation meets can grow.
    pub open spec fn can_count(&self, key: Seq<char>, at: Time) -> bool {
        let inputs = self.inputs(key, at);
        inputs.baseline.count < u64::MAX && (inputs.season is Some ==> inputs.season->0.baseline.count
            < u64::MAX)
    }

    /// The baselines that an observation of `metric` meets at `at`: what the
    /// figures of the observation are worked out from.
    pub fn observation_inputs(&self, service: Option<&str>, metric: &str, at: Time) -> (r:
        ObservationInputs)
        requires
            self.wf(),
            TIME_MIN <= at <= TIME_MAX,
        ensures
            r == self.inputs(baseline_key(service_name(name_option(service)), metric@), at),
    {
        let service = service_label(service);
        let key = metric_key(service.as_str(), metric);
        let baseline = match self.baselines.get(key.as_str()) {
            Some(baseline) => *baseline,
            None => Baseline::new(at),
        };
        let season = match self.seasonal.get(key.as_str()) {
            Some(profile) => {
                let b: usize = profile.seasonality.bucket(at);
                Some(
                    SeasonInput {
                        bucket: b as u32,
                        baseline: profile.buckets[b],
                        multiplier: profile.threshold_multipliers[b],
                    },
                )
            },
            None => None,
        };
        ObservationInputs { baseline, season }
    }

    /// What an observation does to the store and what it returns. Both
    /// baselines learn from it in any case; an anomalous one leads to an alert
    /// unless the metric is cooling down.
    pub open spec fn observed(
        &self,
        after: AnomalyStore,
        service: Seq<char>,
        metric: Seq<char>,
        value: Measure,
        at: Time,
        figures: ObservationFigures,
        id: Seq<char>,
        r: Option<Alert>,
    ) -> bool {
        let key = baseline_key(service, metric);
        let inputs = self.inputs(key, at);
        let fires = anomalous(inputs, figures) && !self.cooling_down(key, at);
        &&& after.baselines@ == self.baselines@.insert(
            key,
            inputs.baseline.updated(figures.global, at),
        )
        &&& seasons_updated(self.seasonal, after.seasonal, key, at, figures)
        &&& match r {
            Some(alert) => {
                &&& fires
                &&& is_alert(alert, id, service, metric, value, at, judged(inputs, figures))
                &&& after.alerts@ == self.alerts@.push(alert)
                &&& after.last_alert_at@ == self.last_alert_at@.insert(key, at)
            },
            None => !fires && after.alerts == self.alerts && after.last_alert_at
                == self.last_alert_at,
        }
        &&& after.suppressions == self.suppressions
        &&& after.suppression_counter == self.suppression_counter
        &&& after.correlations == self.correlations
        &&& after.stream_events == self.stream_events
        &&& after.feedback_entries == self.feedback_entries
    }

    /// Takes an observation with its figures; the id is for an alert.
    pub fn observe_with(
        &mut self,
        service: Option<&str>,
        metric: &str,
        value: Measure,
        at: Time,
        figures: &ObservationFigures,
        id: String,
    ) -> (r: Option<Alert>)
        requires
            old(self).wf(),
            TIME_MIN <= at <= TIME_MAX,
            old(self).can_count(baseline_key(service_name(name_option(service)), metric@), at),
            old(self).inputs(
                baseline_key(service_name(name_option(service)), metric@),
                at,
            ).season is Some == figures.season is Some,
        ensures
            final(self).wf(),
            old(self).observed(
                *final(self),
                service_name(name_option(service)),
                metric@,
                value,
                at,
                *figures,
                id@,
                r,
            ),
    {
        let ghost before = *self;
        let service = service_label(service);
        let key = metric_key(service.as_str(), metric);
        let ghost inputs = before.inputs(key@, at);
        let mut baseline = match self.baselines.get(key.as_str()) {
            Some(baseline) => *baseline,
            None => Baseline::new(at),
        };
        let count_before = baseline.count;
        let mut mean = baseline.mean;
        let mut std_dev = baseline.std_dev(&figures.global);
        let mut score = baseline.observe(&figures.global, at);
        let _previous = self.baselines.insert(key.clone(), baseline);
        let mut threshold = Measure { bits: DEFAULT_Z_THRESHOLD };
        let mut twice_threshold = Measure { bits: TWICE_DEFAULT_Z_THRESHOLD };
        let mut seasonal_bucket: Option<u32> = None;
        let mut seasonal_component: Option<Measure> = None;
        match self.seasonal.get_mut(key.as_str()) {
            Some(profile) => {
                let ghost was = *profile;
                if let Some(given) = &figures.season {
                    let b: usize = profile.seasonality.bucket(at);
                    threshold = given.threshold;
                    twice_threshold = given.twice_threshold;
                    seasonal_bucket = Some(b as u32);
                    let mut bucket = profile.buckets[b];
                    if bucket.is_trained(&given.figures) {
                        score = given.figures.deviation;
                        mean = bucket.mean;
                        std_dev = given.figures.std_dev;
                        seasonal_component = Some(given.component);
                    }
                    let _score = bucket.observe(&given.figures, at);
                    profile.buckets.set(b, bucket);
                }
                proof {
                    assert(profile.wf());
                    let p = *profile;
                    assert(self.seasonal@ =~= before.seasonal@.insert(key@, p));
                    assert(seasons_updated(before.seasonal, self.seasonal, key@, at, *figures));
                }
            },
            None => {
            },
        }
        let ghost j = judged(inputs, *figures);
        assert(score == j.score && mean == j.mean && std_dev == j.std_dev);
        assert(threshold == j.threshold && twice_threshold == j.twice_threshold);
        assert(seasonal_bucket == j.bucket && seasonal_component == j.component);
        if count_before < MIN_SAMPLES_FOR_DETECTION || threshold.gt(&score.abs()) {
            return None;
        }
        if let Some(last) = self.last_alert_at.get(key.as_str()) {
            let gap: i128 = at - *last;
            if gap < ALERT_COOLDOWN_SECONDS as i128 * SECOND {
                return None;
            }
        }
        let severity = if score.abs().ge(&twice_threshold) {
            Severity::Critical
        } else {
            Severity::Warning
        };
        let alert = Alert {
            id,
            service,
            metric: metric.to_owned(),
            value,
            baseline_mean: mean,
            baseline_std_dev: std_dev,
            z_score: score,
            threshold,
            seasonal_bucket,
            seasonal_component,
            severity,
            timestamp: at,
        };
        let _last = self.last_alert_at.insert(key, at);
        self.alerts.push(alert.clone());
        Some(alert)
    }

    /// Takes an observation of `metric` at `at` with its figures, and returns
    /// an alert if it is anomalous and the metric is not cooling down.
    pub fn observe_at(
        &mut self,
        service: Option<&str>,
        metric: &str,
        value: Measure,
        at: Time,
        figures: &ObservationFigures,
    ) -> (r: Option<Alert>)
        requires
            old(self).wf(),
            TIME_MIN <= at <= TIME_MAX,
            old(self).can_count(baseline_key(service_name(name_option(service)), metric@), at),
            old(self).inputs(
                baseline_key(service_name(name_option(service)), metric@),
                at,
            ).season is Some == figures.season is Some,
        ensures
            final(self).wf(),
            exists|id: Seq<char>|
                is_new_id(id) && #[trigger] old(self).observed(
                    *final(self),
                    service_name(name_option(service)),
                    metric@,
                    value,
                    at,
                    *figures,
                    id,
                    r,
                ),
    {
        let id = new_id();
        self.observe_with(service, metric, value, at, figures, id)
    }

    /// All alerts, oldest first.
    pub fn alerts(&self) -> (r: &Vec<Alert>)
        ensures
            *r == self.alerts,
    {
        &self.alerts
    }

    /// The baseline of a key.
    pub fn baseline(&self, metric: &str) -> (r: Option<Baseline>)
        requires
            self.wf(),
        ensures
            r == if self.baselines@.contains_key(metric@) {
                Some(self.baselines@[metric@])
            } else {
                None::<Baseline>
            },
    {
        match self.baselines.get(metric) {
            Some(baseline) => Some(*baseline),
            None => None,
        }
    }

    /// The store differs from the other in its seasonal profiles at most.
    pub open spec fn same_but_seasons(&self, other: AnomalyStore) -> bool {
        &&& self.baselines == other.baselines
        &&& self.alerts == other.alerts
        &&& self.last_alert_at == other.last_alert_at
        &&& self.suppressions == other.suppressions
        &&& self.suppression_counter == other.suppression_counter
        &&& self.correlations == other.correlations
        &&& self.stream_events == other.stream_events
        &&& self.feedback_entries == other.feedback_entries
    }

    /// `after` is this store with a fresh profile under the key.
    pub open spec fn made_seasonal(
        &self,
        after: AnomalyStore,
        key: Seq<char>,
        seasonality: Seasonality,
        now: Time,
    ) -> bool {
        &&& self.same_but_seasons(after)
        &&& after.seasonal@.contains_key(key)
        &&& after.seasonal@ == self.seasonal@.insert(key, after.seasonal@[key])
        &&& after.seasonal@[key].fresh(seasonality, now)
    }

    /// Makes a metric seasonal at `now`. Its seasons start to learn from then
    /// on.
    pub fn configure_seasonality_at(
        &mut self,
        service: Option<&str>,
        metric: &str,
        seasonality: Seasonality,
        now: Time,
    )
        requires
            old(self).wf(),
        ensures
            final(self).wf(),
            old(self).made_seasonal(
                *final(self),
                baseline_key(service_name(name_option(service)), metric@),
                seasonality,
                now,
            ),
    {
        let service = service_label(service);
        let key = metric_key(service.as_str(), metric);
        let _previous = self.seasonal.insert(key, SeasonalProfile::new(seasonality, now));
    }

    /// Makes a metric seasonal.
    pub fn configure_seasonality(
        &mut self,
        service: Option<&str>,
        metric: &str,
        seasonality: Seasonality,
    )
        requires
            old(self).wf(),
        ensures
            final(self).wf(),
            exists|now: Time|
                wall_clock_shows(now) && #[trigger] old(self).made_seasonal(
                    *final(self),
                    baseline_key(service_name(name_option(service)), metric@),
                    seasonality,
                    now,
                ),
    {
        let now = utc_now();
        self.configure_seasonality_at(service, metric, seasonality, now);
    }

    /// Why the threshold of a season cannot be set, if it cannot: the metric is
    /// not seasonal, there is no such season, or the multiplier is not a
    /// positive finite number.
    pub open spec fn threshold_error(
        &self,
        key: Seq<char>,
        bucket: u32,
        multiplier: Measure,
    ) -> Option<SeasonalError> {
        if !self.seasonal@.contains_key(key) {
            Some(SeasonalError::NotConfigured)
        } else if bucket >= self.seasonal@[key].seasonality.seasons() {
            Some(SeasonalError::BucketOutOfRange)
        } else if !(multiplier.gt_spec(Measure { bits: 0 }) && (Measure {
            bits: INFINITY_BITS,
        }).gt_spec(multiplier)) {
            Some(SeasonalError::InvalidMultiplier)
        } else {
            None
        }
    }

    /// Sets the threshold multiplier of a season.
    pub fn set_seasonal_threshold(
        &mut self,
        service: Option<&str>,
        metric: &str,
        bucket: u32,
        multiplier: Measure,
    ) -> (r: Result<(), SeasonalError>)
        requires
            old(self).wf(),
        ensures
            final(self).wf(),
            old(self).same_but_seasons(*final(self)),
            ({
                let key = baseline_key(service_name(name_option(service)), metric@);
                let error = old(self).threshold_error(key, bucket, multiplier);
                match r {
                    Ok(()) => {
                        let was = old(self).seasonal@[key];
                        let now = final(self).seasonal@[key];
                        &&& error is None
                        &&& final(self).seasonal@ == old(self).seasonal@.insert(key, now)
                        &&& now.seasonality == was.seasonality
                        &&& now.buckets == was.buckets
                        &&& now.threshold_multipliers@ == was.threshold_multipliers@.update(
                            bucket as int,
                            multiplier,
                        )
                    },
                    Err(e) => error == Some(e) && final(self).seasonal == old(self).seasonal,
                }
            }),
    {
        let ghost before = *self;
        let service = service_label(service);
        let key = metric_key(service.as_str(), metric);
        let seasons: usize = match self.seasonal.get(key.as_str()) {
            Some(profile) => profile.seasonality.bucket_count(),
            None => return Err(SeasonalError::NotConfigured),
        };
        if bucket as usize >= seasons {
            return Err(SeasonalError::BucketOutOfRange);
        }
        let positive = multiplier.gt(&Measure { bits: 0 });
        let finite = Measure { bits: INFINITY_BITS }.gt(&multiplier);
        if !positive || !finite {
            return Err(SeasonalError::InvalidMultiplier);
        }
        if let Some(profile) = self.seasonal.get_mut(key.as_str()) {
            profile.threshold_multipliers.set(bucket as usize, multiplier);
            proof {
                let p = *profile;
                assert(self.seasonal@ =~= before.seasonal@.insert(key@, p));
            }
        }
        Ok(())
    }

    /// The profile of a metric, if it is seasonal: what the figures of its
    /// pattern are worked out from.
    pub fn seasonal_profile(&self, service: Option<&str>, metric: &str) -> (r: Option<
        &SeasonalProfile,
    >)
        requires
            self.wf(),
        ensures
            ({
                let key = baseline_key(service_name(name_option(service)), metric@);
                match r {
                    Some(profile) => self.seasonal@.contains_key(key) && *profile
                        == self.seasonal@[key],
                    None => !self.seasonal@.contains_key(key),
                }
            }),
    {
        let service = service_label(service);
        let key = metric_key(service.as_str(), metric);
        self.seasonal.get(key.as_str())
    }

    /// The mean of a key's baseline; zero before any observation.
    pub open spec fn global_mean(&self, key: Seq<char>) -> Measure {
        if self.baselines@.contains_key(key) {
            self.baselines@[key].mean
        } else {
            Measure { bits: 0 }
        }
    }

    /// What was learned of the seasons of a metric, with the given figures;
    /// nothing where the metric is not seasonal.
    pub fn seasonal_pattern(
        &self,
        service: Option<&str>,
        metric: &str,
        figures: &PatternFigures,
    ) -> (r: Option<SeasonalPattern>)
        requires
            self.wf(),
            ({
                let key = baseline_key(service_name(name_option(service)), metric@);
                self.seasonal@.contains_key(key) ==> figures.components.len()
                    == self.seasonal@[key].seasonality.seasons()
            }),
        ensures
            ({
                let key = baseline_key(service_name(name_option(service)), metric@);
                match r {
                    Some(pattern) => {
                        &&& self.seasonal@.contains_key(key)
                        &&& pattern.service@ == service_name(name_option(service))
                        &&& pattern.metric@ == metric@
                        &&& pattern.seasonality == self.seasonal@[key].seasonality
                        &&& pattern.global_mean == self.global_mean(key)
                        &&& pattern.global_std_dev == if self.baselines@.contains_key(key) {
                            self.baselines@[key].spread_with(figures.global_std_dev)
                        } else {
                            Measure { bits: 0 }
                        }
                        &&& pattern.components.len() == pattern.seasonality.seasons()
                        &&& forall|b: int|
                            0 <= b < pattern.components.len() ==> #[trigger] pattern.components[b]
                                == self.seasonal@[key].component(b, figures.components[b])
                    },
                    None => !self.seasonal@.contains_key(key),
                }
            }),
    {
        let service = service_label(service);
        let key = metric_key(service.as_str(), metric);
        let profile = match self.seasonal.get(key.as_str()) {
            Some(profile) => profile,
            None => return None,
        };
        let (global_mean, global_std_dev) = match self.baselines.get(key.as_str()) {
            Some(baseline) => (
                baseline.mean,
                if baseline.count < 2 {
                    Measure { bits: 0 }
                } else {
                    figures.global_std_dev
                },
            ),
            None => (Measure { bits: 0 }, Measure { bits: 0 }),
        };
        Some(
            SeasonalPattern {
                service,
                metric: metric.to_owned(),
                seasonality: profile.seasonality,
                global_mean,
                global_std_dev,
                components: profile.components(&figures.components),
            },
        )
    }

    /// Suppresses a pattern from `now` on, and returns the number of the
    /// suppression.
    pub fn suppress_anomaly_at(&mut self, pattern: &str, expires_at: Option<Time>, now: Time) -> (r: u64)
        requires
            old(self).wf(),
            old(self).suppression_counter < u64::MAX,
        ensures
            final(self).wf(),
            r == old(self).suppression_counter + 1,
            final(self).suppression_counter == r,
            final(self).suppressions.len() == old(self).suppressions.len() + 1,
            final(self).suppressions@.drop_last() == old(self).suppressions@,
            final(self).suppressions@.last().id == r,
            final(self).suppressions@.last().pattern@ == pattern@,
            final(self).suppressions@.last().created_at == now,
            final(self).suppressions@.last().expires_at == expires_at,
            old(self).same_but_suppressions(*final(self)),
    {
        let ghost before = self.suppressions@;
        self.suppression_counter = self.suppression_counter + 1;
        let id = self.suppression_counter;
        self.suppressions.push(
            Suppression { id, pattern: pattern.to_owned(), created_at: now, expires_at },
        );
        assert(self.suppressions@.drop_last() =~= before);
        id
    }

    /// The store differs from the other in its suppressions at most.
    pub open spec fn same_but_suppressions(&self, other: AnomalyStore) -> bool {
        &&& self.baselines == other.baselines
        &&& self.seasonal == other.seasonal
        &&& self.alerts == other.alerts
        &&& self.last_alert_at == other.last_alert_at
        &&& self.correlations == other.correlations
        &&& self.stream_events == other.stream_events
        &&& self.feedback_entries == other.feedback_entries
    }

    /// Suppresses a pattern, and returns the number of the suppression.
    pub fn suppress_anomaly(&mut self, pattern: &str, expires_at: Option<Time>) -> (r: u64)
        requires
            old(self).wf(),
            old(self).suppression_counter < u64::MAX,
        ensures
            final(self).wf(),
            r == old(self).suppression_counter + 1,
            final(self).suppression_counter == r,
            final(self).suppressions.len() == old(self).suppressions.len() + 1,
            final(self).suppressions@.drop_last() == old(self).suppressions@,
            final(self).suppressions@.last().id == r,
            final(self).suppressions@.last().pattern@ == pattern@,
            final(self).suppressions@.last().expires_at == expires_at,
            wall_clock_shows(final(self).suppressions@.last().created_at),
            old(self).same_but_suppressions(*final(self)),
    {
        let now = utc_now();
        self.suppress_anomaly_at(pattern, expires_at, now)
    }

    /// The suppressions that apply at `now`, oldest first.
    pub fn get_suppressions_at(&self, now: Time) -> (r: Vec<Suppression>)
        ensures
            r@ == active_suppressions(self.suppressions@, now),
    {
        let mut out: Vec<Suppression> = Vec::new();
        let mut i: usize = 0;
        assert(self.suppressions@.take(0) =~= Seq::empty());
        while i < self.suppressions.len()
            invariant
                i <= self.suppressions.len(),
                out@ == active_suppressions(self.suppressions@.take(i as int), now),
            decreases self.suppressions.len() - i,
        {
            proof {
                assert(self.suppressions@.take(i + 1).drop_last() =~= self.suppressions@.take(
                    i as int,
                ));
                assert(self.suppressions@.take(i + 1).last() == self.suppressions[i as int]);
            }
            let active = match self.suppressions[i].expires_at {
                Some(end) => end > now,
                None => true,
            };
            if active {
                out.push(self.suppressions[i].clone());
            }
            i = i + 1;
        }
        assert(self.suppressions@.take(i as int) =~= self.suppressions@);
        out
    }

    /// The suppressions that apply, oldest first.
    pub fn get_suppressions(&self) -> (r: Vec<Suppression>)
        ensures
            exists|now: Time| wall_clock_shows(now) && r@ == #[trigger] active_suppressions(self.suppressions@, now),
    {
        let now = utc_now();
        self.get_suppressions_at(now)
    }

    /// Removes a suppression; whether there was one of this number.
    pub fn remove_suppression(&mut self, id: u64) -> (r: bool)
        requires
            old(self).wf(),
        ensures
            final(self).wf(),
            final(self).suppression_counter == old(self).suppression_counter,
            old(self).same_but_suppressions(*final(self)),
            r == exists|i: int|
                0 <= i < old(self).suppressions.len() && (#[trigger] old(self).suppressions[i]).id
                    == id,
            forall|s: Suppression| #[trigger]
                final(self).suppressions@.contains(s) <==> old(self).suppressions@.contains(s) && s.id
                    != id,
    {
        let ghost before = self.suppressions@;
        let mut i: usize = 0;
        while i < self.suppressions.len()
            invariant
                i <= self.suppressions.len(),
                self.wf(),
                self.suppressions@ == before,
                *self == *old(self),
                forall|j: int| 0 <= j < i ==> (#[trigger] self.suppressions[j]).id != id,
            decreases self.suppressions.len() - i,
        {
            if self.suppressions[i].id == id {
                let _gone = self.suppressions.remove(i);
                proof {
                    let after = self.suppressions@;
                    assert(after =~= before.remove(i as int));
                    assert(before[i as int].id == id);
                    assert forall|s: Suppression| #[trigger] after.contains(s) <==> before.contains(s)
                        && s.id != id by {
                        if after.contains(s) {
                            let k = after.index_of(s);
                            let k2 = if k < i { k } else { k + 1 };
                            assert(before[k2] == s);
                            if k2 < i {
                                assert(before[k2].id < before[i as int].id);
                            } else {
                                assert(before[i as int].id < before[k2].id);
                            }
                        }
                        if before.contains(s) && s.id != id {
                            let k = before.index_of(s);
                            let k2 = if k < i { k } else { k - 1 };
                            assert(after[k2] == s);
                        }
                    }
                    assert forall|a: int, b: int| 0 <= a < b < after.len() implies (
                    #[trigger] after[a]).id < (#[trigger] after[b]).id by {
                        let a2 = if a < i { a } else { a + 1 };
                        let b2 = if b < i { b } else { b + 1 };
                        assert(before[a2] == after[a] && before[b2] == after[b]);
                    }
                    assert forall|a: int| 0 <= a < after.len() implies (#[trigger] after[a]).id
                        <= self.suppression_counter by {
                        let a2 = if a < i { a } else { a + 1 };
                        assert(before[a2] == after[a]);
                    }
                }
                return true;
            }
            i = i + 1;
        }
        proof {
            assert forall|s: Suppression| #[trigger] before.contains(s) implies s.id != id by {
                let k = before.index_of(s);
                assert(self.suppressions[k].id != id);
            }
        }
        false
    }

    /// The ids correlated with an anomaly.
    pub open spec fn correlated(&self, anomaly_id: Seq<char>) -> Seq<Seq<char>> {
        if self.correlations@.contains_key(anomaly_id) {
            texts(self.correlations@[anomaly_id].correlated_ids@)
        } else {
            Seq::empty()
        }
    }

    /// The ids correlated with an anomaly, oldest first.
    pub fn get_correlated_anomalies(&self, anomaly_id: &str) -> (r: Vec<String>)
        requires
            self.wf(),
        ensures
            texts(r@) == self.correlated(anomaly_id@),
    {
        match self.correlations.get(anomaly_id) {
            Some(correlation) => copy_list(&correlation.correlated_ids),
            None => {
                let none: Vec<String> = Vec::new();
                assert(texts(none@) =~= Seq::empty());
                none
            },
        }
    }

    /// What correlating two anomalies does to the correlations.
    pub open spec fn linked(
        &self,
        after: AnomalyStore,
        anomaly_id: Seq<char>,
        correlated_id: Seq<char>,
        strength: Measure,
    ) -> bool {
        &&& after.correlations@.contains_key(anomaly_id)
        &&& after.correlations@ == self.correlations@.insert(
            anomaly_id,
            after.correlations@[anomaly_id],
        )
        &&& after.correlations@[anomaly_id].anomaly_id@ == if self.correlations@.contains_key(
            anomaly_id,
        ) {
            self.correlations@[anomaly_id].anomaly_id@
        } else {
            anomaly_id
        }
        &&& after.correlated(anomaly_id) == with_element(self.correlated(anomaly_id), correlated_id)
        &&& after.correlations@[anomaly_id].correlation_strength == strength.max_spec(
            if self.correlations@.contains_key(anomaly_id) {
                self.correlations@[anomaly_id].correlation_strength
            } else {
                strength
            },
        )
    }

    /// Correlates two anomalies. An id is listed once; the strength of an
    /// anomaly's correlations is the greatest one given.
    pub fn add_correlation(&mut self, anomaly_id: &str, correlated_id: &str, strength: Measure)
        requires
            old(self).wf(),
        ensures
            final(self).wf(),
            final(self).baselines == old(self).baselines,
            final(self).seasonal == old(self).seasonal,
            final(self).alerts == old(self).alerts,
            final(self).last_alert_at == old(self).last_alert_at,
            final(self).suppressions == old(self).suppressions,
            final(self).suppression_counter == old(self).suppression_counter,
            final(self).stream_events == old(self).stream_events,
            final(self).feedback_entries == old(self).feedback_entries,
            old(self).linked(*final(self), anomaly_id@, correlated_id@, strength),
    {
        let ghost before = *self;
        let mut correlation = match self.correlations.remove(anomaly_id) {
            Some(correlation) => correlation,
            None => AnomalyCorrelation {
                anomaly_id: anomaly_id.to_owned(),
                correlated_ids: Vec::new(),
                correlation_strength: strength,
            },
        };
        let ghost ids = texts(correlation.correlated_ids@);
        assert(ids =~= before.correlated(anomaly_id@));
        if !list_contains(&correlation.correlated_ids, correlated_id) {
            correlation.correlated_ids.push(correlated_id.to_owned());
        }
        assert(texts(correlation.correlated_ids@) =~= with_element(ids, correlated_id@));
        correlation.correlation_strength = strength.max(&correlation.correlation_strength);
        let _none = self.correlations.insert(anomaly_id.to_owned(), correlation);
        assert(self.correlations@ =~= before.correlations@.insert(
            anomaly_id@,
            self.correlations@[anomaly_id@],
        ));
    }

    /// Records an event of the metric stream at `now`; events are numbered
    /// from one.
    pub fn record_stream_event(&mut self, metric: &str, value: Measure, now: Time) -> (r: StreamEvent)
        requires
            old(self).wf(),
            old(self).stream_events.len() < u64::MAX,
        ensures
            final(self).wf(),
            final(self).baselines == old(self).baselines,
            final(self).seasonal == old(self).seasonal,
            final(self).alerts == old(self).alerts,
            final(self).last_alert_at == old(self).last_alert_at,
            final(self).suppressions == old(self).suppressions,
            final(self).suppression_counter == old(self).suppression_counter,
            final(self).correlations == old(self).correlations,
            final(self).feedback_entries == old(self).feedback_entries,
            final(self).stream_events@ == old(self).stream_events@.push(r),
            r.event_id == old(self).stream_events.len() + 1,
            r.metric@ == metric@,
            r.value == value,
            r.timestamp == now,
    {
        let event = StreamEvent {
            event_id: self.stream_events.len() as u64 + 1,
            metric: metric.to_owned(),
            value,
            timestamp: now,
        };
        self.stream_events.push(event.clone());
        event
    }

    /// Records an event of the metric stream, which is also an observation of
    /// the default service at `now` with the given figures.
    pub fn process_stream_event(
        &mut self,
        metric: &str,
        value: Measure,
        now: Time,
        figures: &ObservationFigures,
    ) -> (r: (Option<Alert>, StreamEvent))
        requires
            old(self).wf(),
            old(self).stream_events.len() < u64::MAX,
            TIME_MIN <= now <= TIME_MAX,
            old(self).can_count(baseline_key(DEFAULT_SERVICE@, metric@), now),
            old(self).inputs(baseline_key(DEFAULT_SERVICE@, metric@), now).season is Some
                == figures.season is Some,
        ensures
            final(self).wf(),
            r.1.event_id == old(self).stream_events.len() + 1,
            r.1.metric@ == metric@,
            r.1.value == value,
            r.1.timestamp == now,
            final(self).stream_events@ == old(self).stream_events@.push(r.1),
            exists|id: Seq<char>, middle: AnomalyStore| #[trigger]
                old(self).streamed(*final(self), metric@, value, now, *figures, id, middle, r.0),
    {
        let ghost before = *self;
        let event = self.record_stream_event(metric, value, now);
        let ghost middle = *self;
        let alert = self.observe_at(None, metric, value, now, figures);
        proof {
            assert(service_name(name_option(None)) == DEFAULT_SERVICE@);
            let id = choose|id: Seq<char>|
                is_new_id(id) && #[trigger] middle.observed(
                    *self,
                    service_name(name_option(None)),
                    metric@,
                    value,
                    now,
                    *figures,
                    id,
                    alert,
                );
            assert(before.streamed(*self, metric@, value, now, *figures, id, middle, alert));
        }
        let r = (alert, event);
        assert(r.0 == alert);
        r
    }

    /// `after` comes from this store by an event, which leads to `middle`, and
    /// an observation of the default service.
    pub open spec fn streamed(
        &self,
        after: AnomalyStore,
        metric: Seq<char>,
        value: Measure,
        now: Time,
        figures: ObservationFigures,
        id: Seq<char>,
        middle: AnomalyStore,
        r: Option<Alert>,
    ) -> bool {
        &&& is_new_id(id)
        &&& self.same_but_events(middle)
        &&& middle.observed(after, DEFAULT_SERVICE@, metric, value, now, figures, id, r)
    }

    /// The store differs from the other in its stream events at most.
    pub open spec fn same_but_events(&self, other: AnomalyStore) -> bool {
        &&& self.baselines == other.baselines
        &&& self.seasonal == other.seasonal
        &&& self.alerts == other.alerts
        &&& self.last_alert_at == other.last_alert_at
        &&& self.suppressions == other.suppressions
        &&& self.suppression_counter == other.suppression_counter
        &&& self.correlations == other.correlations
        &&& self.feedback_entries == other.feedback_entries
    }

    /// All stream events, oldest first.
    pub fn get_stream_events(&self) -> (r: &Vec<StreamEvent>)
        ensures
            *r == self.stream_events,
    {
        &self.stream_events
    }

    /// Takes feedback on an anomaly with the given id at `now`.
    pub fn submit_feedback_with(
        &mut self,
        anomaly_id: &str,
        is_true_positive: bool,
        id: String,
        now: Time,
    )
        requires
            old(self).wf(),
        ensures
            final(self).wf(),
            final(self).same_but_feedback(*old(self)),
            feedback_added(
                old(self).feedback_entries@,
                final(self).feedback_entries@,
                anomaly_id@,
                is_true_positive,
                id@,
                now,
            ),
    {
        let ghost before = self.feedback_entries@;
        self.feedback_entries.push(
            Feedback { id, anomaly_id: anomaly_id.to_owned(), is_true_positive, submitted_at: now },
        );
        assert(self.feedback_entries@.drop_last() =~= before);
    }

    /// The store differs from the other in its feedback at most.
    pub open spec fn same_but_feedback(&self, other: AnomalyStore) -> bool {
        &&& self.baselines == other.baselines
        &&& self.seasonal == other.seasonal
        &&& self.alerts == other.alerts
        &&& self.last_alert_at == other.last_alert_at
        &&& self.suppressions == other.suppressions
        &&& self.suppression_counter == other.suppression_counter
        &&& self.correlations == other.correlations
        &&& self.stream_events == other.stream_events
    }

    /// Takes feedback on an anomaly, and returns the id of the feedback.
    pub fn submit_feedback(&mut self, anomaly_id: &str, is_true_positive: bool) -> (r: String)
        requires
            old(self).wf(),
        ensures
            final(self).wf(),
            final(self).same_but_feedback(*old(self)),
            is_new_id(r@),
            exists|now: Time|
                wall_clock_shows(now) && #[trigger] feedback_added(
                    old(self).feedback_entries@,
                    final(self).feedback_entries@,
                    anomaly_id@,
                    is_true_positive,
                    r@,
                    now,
                ),
    {
        let id = new_id();
        let now = utc_now();
        self.submit_feedback_with(anomaly_id, is_true_positive, id.clone(), now);
        id
    }

    /// All feedback, oldest first.
    pub fn get_feedback(&self) -> (r: &Vec<Feedback>)
        ensures
            *r == self.feedback_entries,
    {
        &self.feedback_entries
    }

    /// The feedback on an anomaly, oldest first.
    pub fn get_feedback_for_anomaly(&self, anomaly_id: &str) -> (r: Vec<Feedback>)
        ensures
            r@ == feedback_on(self.feedback_entries@, anomaly_id@),
    {
        let mut out: Vec<Feedback> = Vec::new();
        let mut i: usize = 0;
        assert(self.feedback_entries@.take(0) =~= Seq::empty());
        while i < self.feedback_entries.len()
            invariant
                i <= self.feedback_entries.len(),
                out@ == feedback_on(self.feedback_entries@.take(i as int), anomaly_id@),
            decreases self.feedback_entries.len() - i,
        {
            proof {
                assert(self.feedback_entries@.take(i + 1).drop_last()
                    =~= self.feedback_entries@.take(i as int));
                assert(self.feedback_entries@.take(i + 1).last()
                    == self.feedback_entries[i as int]);
            }
            if same(self.feedback_entries[i].anomaly_id.as_str(), anomaly_id) {
                out.push(self.feedback_entries[i].clone());
            }
            i = i + 1;
        }
        assert(self.feedback_entries@.take(i as int) =~= self.feedback_entries@);
        out
    }
}

impl Default for AnomalyStore {
    fn default() -> (r: Self)
        ensures
            r.wf(),
            r.baselines@ == Map::<Seq<char>, Baseline>::empty(),
            r.seasonal@ == Map::<Seq<char>, SeasonalProfile>::empty(),
            r.alerts@ == Seq::<Alert>::empty(),
            r.last_alert_at@ == Map::<Seq<char>, Time>::empty(),
            r.suppressions@ == Seq::<Suppression>::empty(),
            r.suppression_counter == 0,
            r.correlations@ == Map::<Seq<char>, AnomalyCorrelation>::empty(),
            r.stream_events@ == Seq::<StreamEvent>::empty(),
            r.feedback_entries@ == Seq::<Feedback>::empty(),
    {
        AnomalyStore::new()
    }
}

/// The suppressions that apply at `now`, in their order.
pub open spec fn active_suppressions(all: Seq<Suppression>, now: Time) -> Seq<Suppression>
    decreases all.len(),
{
    if all.len() == 0 {
        Seq::empty()
    } else if all.last().active(now) {
        active_suppressions(all.drop_last(), now).push(all.last())
    } else {
        active_suppressions(all.drop_last(), now)
    }
}

/// `after` is `before` with one more feedback.
pub open spec fn feedback_added(
    before: Seq<Feedback>,
    after: Seq<Feedback>,
    anomaly_id: Seq<char>,
    is_true_positive: bool,
    id: Seq<char>,
    now: Time,
) -> bool {
    &&& after.len() == before.len() + 1
    &&& after.drop_last() == before
    &&& after.last().id@ == id
    &&& after.last().anomaly_id@ == anomaly_id
    &&& after.last().is_true_positive == is_true_positive
    &&& after.last().submitted_at == now
}

/// The feedback on an anomaly, in its order.
pub open spec fn feedback_on(all: Seq<Feedback>, anomaly_id: Seq<char>) -> Seq<Feedback>
    decreases all.len(),
{
    if all.len() == 0 {
        Seq::empty()
    } else if all.last().anomaly_id@ == anomaly_id {
        feedback_on(all.drop_last(), anomaly_id).push(all.last())
    } else {
        feedback_on(all.drop_last(), anomaly_id)
    }
}

/// No alert comes before the baseline has seen enough samples.
pub proof fn no_alert_while_learning(
    store: AnomalyStore,
    after: AnomalyStore,
    service: Seq<char>,
    metric: Seq<char>,
    value: Measure,
    at: Time,
    figures: ObservationFigures,
    id: Seq<char>,
    r: Option<Alert>,
)
    requires
        store.inputs(baseline_key(service, metric), at).baseline.count < MIN_SAMPLES_FOR_DETECTION,
        store.observed(after, service, metric, value, at, figures, id, r),
    ensures
        r is None,
{
}

/// A metric that is not seasonal is judged by its baseline alone. There is no
/// alert while the baseline is learning, where its values do not differ, or where
/// the score stays below the threshold. Beyond the threshold there is an alert
/// unless the metric is cooling down; it bears the score and what it was judged
/// against, and is critical from twice the threshold on. In any case the baseline
/// learns.
pub proof fn alerts_follow_the_score(
    store: AnomalyStore,
    after: AnomalyStore,
    service: Seq<char>,
    metric: Seq<char>,
    value: Measure,
    at: Time,
    figures: ObservationFigures,
    id: Seq<char>,
    r: Option<Alert>,
)
    requires
        !store.seasonal@.contains_key(baseline_key(service, metric)),
        store.can_count(baseline_key(service, metric), at),
        store.observed(after, service, metric, value, at, figures, id, r),
    ensures
        ({
            let key = baseline_key(service, metric);
            let baseline = store.inputs(key, at).baseline;
            let spread = baseline.spread(figures.global);
            let score = figures.global.deviation;
            let differs = spread.gt_spec(Measure { bits: EPSILON });
            let threshold = Measure { bits: DEFAULT_Z_THRESHOLD };
            &&& baseline.count < MIN_SAMPLES_FOR_DETECTION ==> r is None
            &&& !differs ==> r is None
            &&& threshold.gt_spec(score.abs_spec()) ==> r is None
            &&& baseline.count >= MIN_SAMPLES_FOR_DETECTION && differs
                && score.abs_spec().ge_spec(threshold) ==> (r is Some <==> !store.cooling_down(
                key,
                at,
            ))
            &&& r matches Some(alert) ==> {
                &&& alert.z_score == score
                &&& alert.baseline_mean == baseline.mean
                &&& alert.baseline_std_dev == spread
                &&& alert.threshold == threshold
                &&& alert.timestamp == at
                &&& alert.seasonal_bucket is None
                &&& alert.severity is Critical <==> score.abs_spec().ge_spec(
                    Measure { bits: TWICE_DEFAULT_Z_THRESHOLD },
                )
            }
            &&& after.inputs(key, at).baseline == baseline.updated(figures.global, at)
            &&& after.inputs(key, at).baseline.count == baseline.count + 1
        }),
{
}

/// After an alert the metric stays silent for the cooldown, whatever it shows.
pub proof fn alerts_keep_their_distance(
    store: AnomalyStore,
    middle: AnomalyStore,
    after: AnomalyStore,
    service: Seq<char>,
    metric: Seq<char>,
    first_value: Measure,
    first_at: Time,
    first_figures: ObservationFigures,
    first_id: Seq<char>,
    alert: Alert,
    value: Measure,
    at: Time,
    figures: ObservationFigures,
    id: Seq<char>,
    r: Option<Alert>,
)
    requires
        store.observed(
            middle,
            service,
            metric,
            first_value,
            first_at,
            first_figures,
            first_id,
            Some(alert),
        ),
        middle.observed(after, service, metric, value, at, figures, id, r),
        at - first_at < ALERT_COOLDOWN_SECONDS * SECOND,
    ensures
        r is None,
{
}

/// The baseline learns from every observation, anomalous or not.
pub proof fn baselines_always_learn(
    store: AnomalyStore,
    after: AnomalyStore,
    service: Seq<char>,
    metric: Seq<char>,
    value: Measure,
    at: Time,
    figures: ObservationFigures,
    id: Seq<char>,
    r: Option<Alert>,
)
    requires
        store.can_count(baseline_key(service, metric), at),
        store.observed(after, service, metric, value, at, figures, id, r),
    ensures
        after.inputs(baseline_key(service, metric), at).baseline.count == store.inputs(
            baseline_key(service, metric),
            at,
        ).baseline.count + 1,
{
}

/// A metric that was made seasonal is judged by its seasons: the observations
/// meet the season of their moment, with the usual threshold.
pub proof fn seasons_are_met(
    store: AnomalyStore,
    after: AnomalyStore,
    key: Seq<char>,
    seasonality: Seasonality,
    now: Time,
    at: Time,
)
    requires
        store.made_seasonal(after, key, seasonality, now),
        0 <= seasonality.season_of(at) < seasonality.seasons(),
    ensures
        after.inputs(key, at).season == Some(
            SeasonInput {
                bucket: seasonality.season_of(at) as u32,
                baseline: Baseline::empty(now),
                multiplier: Measure { bits: ONE },
            },
        ),
{
}

/// The services and the shared metrics of a group stay free of duplicates, its
/// times enclose the alerts that it took in, and nothing is dropped from it.
pub proof fn groups_grow_consistently(group: GroupModel, alert: Alert)
    requires
        group.services.no_duplicates(),
        group.shared_metrics.no_duplicates(),
        group.pairs.no_duplicates(),
        group.started_at <= group.last_seen_at,
    ensures
        ({
            let after = group.absorbed(alert);
            &&& after.services.no_duplicates()
            &&& after.services.contains(alert.service@)
            &&& after.shared_metrics.no_duplicates()
            &&& after.pairs.no_duplicates()
            &&& after.started_at <= alert.timestamp <= after.last_seen_at
            &&& after.started_at <= group.started_at
            &&& after.last_seen_at >= group.last_seen_at
            &&& after.alert_ids == group.alert_ids.push(alert.id@)
            &&& group.services.is_prefix_of(after.services)
            &&& group.shared_metrics.is_prefix_of(after.shared_metrics)
        }),
{
    let after = group.absorbed(alert);
    if !group.services.contains(alert.service@) {
        assert(after.services[group.services.len() as int] == alert.service@);
    }
}

/// The profile of the metric, if it has one, learns from the observation in
/// the season of `at`; nothing else changes.
pub open spec fn seasons_updated(
    before: Table<SeasonalProfile>,
    after: Table<SeasonalProfile>,
    key: Seq<char>,
    at: Time,
    figures: ObservationFigures,
) -> bool {
    if before@.contains_key(key) {
        let was = before@[key];
        let now = after@[key];
        let b = was.seasonality.season_of(at);
        &&& after@.contains_key(key)
        &&& after@ == before@.insert(key, now)
        &&& now.seasonality == was.seasonality
        &&& now.threshold_multipliers == was.threshold_multipliers
        &&& now.buckets@ == was.buckets@.update(
            b,
            was.buckets[b].updated(figures.season->0.figures, at),
        )
    } else {
        after@ == before@
    }
}

/// A seasonal metric whose season has enough samples that differ is judged by that
/// season, whatever the deviation from the global baseline is. Where the global
/// baseline has enough samples too, there is an alert exactly where the deviation
/// from the season's own baseline is not below the season's threshold and a minute
/// has passed since the last alert; it bears that deviation and the mean of the
/// season, and is critical from twice the season's threshold on.
pub proof fn trained_seasons_judge_observations(
    store: AnomalyStore,
    after: AnomalyStore,
    service: Seq<char>,
    metric: Seq<char>,
    value: Measure,
    at: Time,
    figures: ObservationFigures,
    id: Seq<char>,
    r: Option<Alert>,
)
    requires
        store.observed(after, service, metric, value, at, figures, id, r),
        store.seasonal@.contains_key(baseline_key(service, metric)),
        store.baselines@.contains_key(baseline_key(service, metric)),
        store.baselines@[baseline_key(service, metric)].count >= 5,
        ({
            let profile = store.seasonal@[baseline_key(service, metric)];
            profile.buckets[profile.seasonality.season_of(at)].count >= 5
        }),
        figures.season->0.figures.std_dev.gt_spec(Measure { bits: 0x3CB0_0000_0000_0000 }),
    ensures
        ({
            let key = baseline_key(service, metric);
            let profile = store.seasonal@[key];
            let season = profile.buckets[profile.seasonality.season_of(at)];
            let given = figures.season->0;
            let deviation = given.figures.deviation;
            let silent = store.last_alert_at@.contains_key(key) && at - store.last_alert_at@[key]
                < 60_000_000_000;
            &&& r is Some <==> !given.threshold.gt_spec(deviation.abs_spec()) && !silent
            &&& r matches Some(alert) ==> {
                &&& alert.z_score == deviation
                &&& alert.baseline_mean == season.mean
                &&& alert.baseline_std_dev == given.figures.std_dev
                &&& alert.threshold == given.threshold
                &&& alert.seasonal_bucket == Some(profile.seasonality.season_of(at) as u32)
                &&& alert.seasonal_component == Some(given.component)
                &&& alert.severity is Critical <==> deviation.abs_spec().ge_spec(
                    given.twice_threshold,
                )
                &&& alert.value == value
                &&& alert.timestamp == at
                &&& alert.service@ == service
                &&& alert.metric@ == metric
            }
        }),
{
}

/// A seasonal metric whose season has too few samples, or samples that do not differ,
/// is judged by its deviation from the global baseline, against the threshold of the
/// season.
pub proof fn untrained_seasons_leave_it_to_the_baseline(
    store: AnomalyStore,
    after: AnomalyStore,
    service: Seq<char>,
    metric: Seq<char>,
    value: Measure,
    at: Time,
    figures: ObservationFigures,
    id: Seq<char>,
    r: Option<Alert>,
)
    requires
        store.observed(after, service, metric, value, at, figures, id, r),
        store.seasonal@.contains_key(baseline_key(service, metric)),
        store.baselines@.contains_key(baseline_key(service, metric)),
        store.baselines@[baseline_key(service, metric)].count >= 5,
        figures.global.std_dev.gt_spec(Measure { bits: 0x3CB0_0000_0000_0000 }),
        ({
            let profile = store.seasonal@[baseline_key(service, metric)];
            profile.buckets[profile.seasonality.season_of(at)].count < 5
        }) || !figures.season->0.figures.std_dev.gt_spec(
            Measure { bits: 0x3CB0_0000_0000_0000 },
        ),
    ensures
        ({
            let key = baseline_key(service, metric);
            let given = figures.season->0;
            let deviation = figures.global.deviation;
            let silent = store.last_alert_at@.contains_key(key) && at - store.last_alert_at@[key]
                < 60_000_000_000;
            &&& r is Some <==> !given.threshold.gt_spec(deviation.abs_spec()) && !silent
            &&& r matches Some(alert) ==> {
                &&& alert.z_score == deviation
                &&& alert.baseline_mean == store.baselines@[key].mean
                &&& alert.threshold == given.threshold
                &&& alert.seasonal_component is None
                &&& alert.severity is Critical <==> deviation.abs_spec().ge_spec(
                    given.twice_threshold,
                )
            }
        }),
{
}

/// A metric that is not seasonal, with five samples that differ, alerts exactly where
/// it deviates by three standard deviations or more, or by no number, and a minute has
/// passed since its last alert. The alert bears the deviation and is critical from six
/// on. With fewer samples there is none.
pub proof fn three_deviations_alert(
    store: AnomalyStore,
    after: AnomalyStore,
    service: Seq<char>,
    metric: Seq<char>,
    value: Measure,
    at: Time,
    figures: ObservationFigures,
    id: Seq<char>,
    r: Option<Alert>,
)
    requires
        store.observed(after, service, metric, value, at, figures, id, r),
        !store.seasonal@.contains_key(baseline_key(service, metric)),
    ensures
        ({
            let key = baseline_key(service, metric);
            let known = store.baselines@.contains_key(key) && store.baselines@[key].count >= 5
                && figures.global.std_dev.gt_spec(Measure { bits: 0x3CB0_0000_0000_0000 });
            let deviation = figures.global.deviation;
            let silent = store.last_alert_at@.contains_key(key) && at - store.last_alert_at@[key]
                < 60_000_000_000;
            &&& r is Some <==> known && !silent && !(Measure {
                bits: 0x4008_0000_0000_0000,
            }).gt_spec(deviation.abs_spec())
            &&& r matches Some(alert) ==> {
                &&& alert.z_score == deviation
                &&& alert.baseline_mean == store.baselines@[key].mean
                &&& alert.baseline_std_dev == figures.global.std_dev
                &&& alert.severity is Critical <==> deviation.abs_spec().ge_spec(
                    Measure { bits: 0x4018_0000_0000_0000 },
                )
            }
        }),
{
}

/// An observation is learned by the baseline of its metric, and by the season that it
/// falls in alone: both count one more and take the new figures. No other metric and
/// no other season changes, and an alert, if there is one, is kept last.
pub proof fn observations_are_learned(
    store: AnomalyStore,
    after: AnomalyStore,
    service: Seq<char>,
    metric: Seq<char>,
    value: Measure,
    at: Time,
    figures: ObservationFigures,
    id: Seq<char>,
    r: Option<Alert>,
    other: Seq<char>,
    season: int,
)
    requires
        store.wf(),
        TIME_MIN <= at <= TIME_MAX,
        store.can_count(baseline_key(service, metric), at),
        store.observed(after, service, metric, value, at, figures, id, r),
        other != baseline_key(service, metric),
        store.seasonal@.contains_key(baseline_key(service, metric)) ==> {
            let seasonality = store.seasonal@[baseline_key(service, metric)].seasonality;
            0 <= seasonality.season_of(at) < seasonality.seasons()
        },
    ensures
        ({
            let key = baseline_key(service, metric);
            let learned = after.baselines@[key];
            &&& after.baselines@.contains_key(key)
            &&& learned.count == 1 + if store.baselines@.contains_key(key) {
                store.baselines@[key].count as int
            } else {
                0
            }
            &&& learned.mean == figures.global.mean_after
            &&& learned.m2 == figures.global.m2_after
            &&& learned.last_updated == at
            &&& after.baselines@.contains_key(other) == store.baselines@.contains_key(other)
            &&& store.baselines@.contains_key(other) ==> after.baselines@[other]
                == store.baselines@[other]
            &&& after.seasonal@.contains_key(other) == store.seasonal@.contains_key(other)
            &&& store.seasonal@.contains_key(other) ==> after.seasonal@[other]
                == store.seasonal@[other]
            &&& store.seasonal@.contains_key(key) && 0 <= season
                < store.seasonal@[key].buckets.len() ==> {
                let was = store.seasonal@[key].buckets[season];
                let now = after.seasonal@[key].buckets[season];
                if season == store.seasonal@[key].seasonality.season_of(at) {
                    &&& now.count == was.count + 1
                    &&& now.mean == figures.season->0.figures.mean_after
                    &&& now.m2 == figures.season->0.figures.m2_after
                } else {
                    now == was
                }
            }
            &&& match r {
                Some(alert) => after.alerts@ == store.alerts@.push(alert),
                None => after.alerts@ == store.alerts@,
            }
        }),
{
}

/// The hours of the day come again each day.
pub proof fn hours_come_again(at: Time, later: Time)
    requires
        later == at + 86_400_000_000_000,
    ensures
        Seasonality::HourOfDay.season_of(later) == Seasonality::HourOfDay.season_of(at),
        0 <= Seasonality::HourOfDay.season_of(at) < 24,
{
    let before = at as int / SECOND as int;
    let after = later as int / SECOND as int;
    assert(after == before + 86_400);
    assert(after % 86_400 == before % 86_400);
}

/// The first day of the calendar has its 24 hours one after the other.
pub proof fn hours_follow_each_other(at: Time)
    requires
        0 <= at < 86_400_000_000_000,
    ensures
        Seasonality::HourOfDay.season_of(at) == at as int / 3_600_000_000_000,
{
    let secs = at as int / SECOND as int;
    assert(secs % 86_400 == secs);
    assert(secs / 3_600 == at as int / 3_600_000_000_000);
}

/// The days of the week follow each other: the next day is the next one, and the
/// first of January 1970 is a Thursday.
pub proof fn weekdays_follow_each_other(at: Time, later: Time)
    requires
        later == at + 86_400_000_000_000,
    ensures
        Seasonality::DayOfWeek.season_of(later) == (Seasonality::DayOfWeek.season_of(at) + 1) % 7,
        0 <= at < 86_400_000_000_000 ==> Seasonality::DayOfWeek.season_of(at) == 3,
{
    let before = at as int / SECOND as int;
    let after = later as int / SECOND as int;
    assert(after == before + 86_400);
    let day = before / 86_400;
    assert(after / 86_400 == day + 1);
    assert(0 <= at < 86_400_000_000_000 ==> day == 0);
    assert((day + 1 + 3) % 7 == ((day + 3) % 7 + 1) % 7);
}

/// The season of a metric by month is the month of the Gregorian calendar.
pub proof fn monthly_seasons_are_months(at: Time, month: nat)
    requires
        crate::clock::falls_in_month(at as int / 86_400_000_000_000, month),
    ensures
        Seasonality::MonthOfYear.season_of(at) == month,
{
    let secs = at as int / SECOND as int;
    assert(secs / 86_400 == at as int / 86_400_000_000_000);
    crate::clock::days_fall_in_one_month(
        secs / 86_400,
        month,
        crate::clock::month0_of_day(secs / 86_400),
    );
}

/// The metrics of two services never share a baseline.
pub proof fn services_have_their_own_baselines(a: Seq<char>, b: Seq<char>, metric: Seq<char>)
    requires
        a != b,
    ensures
        baseline_key(a, metric) != baseline_key(b, metric),
{
    let ka = a + ":"@ + metric;
    let kb = b + ":"@ + metric;
    reveal_strlit(":");
    if a != DEFAULT_SERVICE@ && b != DEFAULT_SERVICE@ && ka == kb {
        assert(a.len() == b.len());
        assert forall|i: int| 0 <= i < a.len() implies a[i] == b[i] by {
            assert(ka[i] == a[i]);
            assert(kb[i] == b[i]);
        }
        assert(a =~= b);
    }
}

/// The suppressions that are listed are those that were made, have not been removed,
/// and expire later than now or never; they keep their order.
pub proof fn live_suppressions_are_listed(all: Seq<Suppression>, now: Time, s: Suppression)
    ensures
        active_suppressions(all, now).contains(s) <==> all.contains(s) && (s.expires_at matches Some(
            end,
        ) ==> now < end),
    decreases all.len(),
{
    if all.len() > 0 {
        let rest = all.drop_last();
        live_suppressions_are_listed(rest, now, s);
        let listed = active_suppressions(rest, now);
        assert(all.contains(s) <==> rest.contains(s) || s == all.last()) by {
            if all.contains(s) {
                let i = all.index_of(s);
                if i < rest.len() {
                    assert(rest[i] == s);
                }
            }
            if rest.contains(s) {
                assert(all[rest.index_of(s)] == s);
            }
            assert(all[all.len() - 1] == all.last());
        }
        assert(listed.push(all.last()).contains(s) <==> listed.contains(s) || s == all.last()) by {
            if listed.contains(s) {
                assert(listed.push(all.last())[listed.index_of(s)] == s);
            }
            assert(listed.push(all.last())[listed.len() as int] == all.last());
        }
    }
}

/// The feedback listed for an anomaly is all that was given on it.
pub proof fn feedback_is_found_by_anomaly(all: Seq<Feedback>, anomaly_id: Seq<char>, f: Feedback)
    ensures
        feedback_on(all, anomaly_id).contains(f) <==> all.contains(f) && f.anomaly_id@
            == anomaly_id,
    decreases all.len(),
{
    if all.len() > 0 {
        let rest = all.drop_last();
        feedback_is_found_by_anomaly(rest, anomaly_id, f);
        let listed = feedback_on(rest, anomaly_id);
        assert(all.contains(f) <==> rest.contains(f) || f == all.last()) by {
            if all.contains(f) {
                let i = all.index_of(f);
                if i < rest.len() {
                    assert(rest[i] == f);
                }
            }
            if rest.contains(f) {
                assert(all[rest.index_of(f)] == f);
            }
            assert(all[all.len() - 1] == all.last());
        }
        assert(listed.push(all.last()).contains(f) <==> listed.contains(f) || f == all.last()) by {
            if listed.contains(f) {
                assert(listed.push(all.last())[listed.index_of(f)] == f);
            }
            assert(listed.push(all.last())[listed.len() as int] == all.last());
        }
    }
}

/// The earliest alert that a group took in is its root cause, the group is critical
/// from its first critical alert on, and a metric is shared once two services have
/// alerted on it.
pub proof fn groups_name_their_earliest_alert(group: GroupModel, alert: Alert)
    ensures
        ({
            let after = group.absorbed(alert);
            let earliest = alert.timestamp < group.started_at;
            &&& earliest ==> after.root_cause == (alert.service@, alert.metric@)
                && after.started_at == alert.timestamp
            &&& !earliest ==> after.root_cause == group.root_cause && after.started_at
                == group.started_at
            &&& after.last_seen_at == alert.timestamp || after.last_seen_at == group.last_seen_at
            &&& after.last_seen_at >= alert.timestamp && after.last_seen_at >= group.last_seen_at
            &&& after.max_severity is Critical <==> alert.severity is Critical
                || group.max_severity is Critical
            &&& group.services.contains(alert.service@) ==> after.services == group.services
            &&& !group.services.contains(alert.service@) ==> after.services.len()
                == group.services.len() + 1
            &&& after.pairs.contains((alert.service@, alert.metric@))
            &&& !group.shared_metrics.contains(alert.metric@) ==> (after.shared_metrics.contains(
                alert.metric@,
            ) <==> exists|other: Seq<char>|
                other != alert.service@ && #[trigger] group.pairs.contains(
                    (other, alert.metric@),
                ))
        }),
{
    let after = group.absorbed(alert);
    let pair = (alert.service@, alert.metric@);
    if !group.pairs.contains(pair) {
        assert(after.pairs[group.pairs.len() as int] == pair);
    }
    if alerted_elsewhere(after.pairs, alert.service@, alert.metric@) {
        let i = choose|i: int|
            0 <= i < after.pairs.len() && (#[trigger] after.pairs[i]).1 == alert.metric@
                && after.pairs[i].0 != alert.service@;
        assert(group.pairs.contains((after.pairs[i].0, alert.metric@))) by {
            assert(group.pairs[i] == after.pairs[i]);
        }
        if !group.shared_metrics.contains(alert.metric@) {
            assert(after.shared_metrics[group.shared_metrics.len() as int] == alert.metric@);
        }
    } else {
        assert forall|other: Seq<char>| other != alert.service@ implies !(
        #[trigger] group.pairs.contains((other, alert.metric@))) by {
            if group.pairs.contains((other, alert.metric@)) {
                let i = group.pairs.index_of((other, alert.metric@));
                assert(after.pairs[i] == group.pairs[i]);
            }
        }
    }
}

/// A service is known by its name without the white space around it; a blank name, or none,
/// counts as the default service.
pub proof fn blank_services_count_as_the_default(service: Option<Seq<char>>)
    ensures
        service is None ==> service_name(service) == "default"@,
        service matches Some(s) ==> service_name(service) == if trimmed(s).len() == 0 {
            "default"@
        } else {
            trimmed(s)
        },
{
}

/// The threshold of a season can be set exactly where the metric is seasonal, there is such
/// a season, and the multiplier is above zero and finite.
pub proof fn thresholds_need_a_season(
    store: AnomalyStore,
    key: Seq<char>,
    bucket: u32,
    multiplier: Measure,
)
    ensures
        store.threshold_error(key, bucket, multiplier) is None <==> {
            &&& store.seasonal@.contains_key(key)
            &&& bucket < match store.seasonal@[key].seasonality {
                Seasonality::HourOfDay => 24u32,
                Seasonality::DayOfWeek => 7u32,
                Seasonality::MonthOfYear => 12u32,
            }
            &&& 0 < multiplier.bits < 0x7FF0_0000_0000_0000
        },
        !store.seasonal@.contains_key(key) ==> store.threshold_error(key, bucket, multiplier)
            == Some(SeasonalError::NotConfigured),
{
}

/// A list with an element added holds it once, after all that it held before.
pub proof fn added_elements_are_held_once<T>(list: Seq<T>, x: T, y: T)
    ensures
        with_element(list, x).contains(y) <==> list.contains(y) || y == x,
        list.no_duplicates() ==> with_element(list, x).no_duplicates(),
        list.is_prefix_of(with_element(list, x)),
        list.contains(x) ==> with_element(list, x) == list,
{
    let after = with_element(list, x);
    if !list.contains(x) {
        assert(after[list.len() as int] == x);
        if list.contains(y) {
            assert(after[list.index_of(y)] == y);
        }
        if after.contains(y) {
            let i = after.index_of(y);
            if i < list.len() {
                assert(list[i] == y);
            }
        }
    }
}

/// Feedback is kept last, as it was given.
pub proof fn feedback_is_kept_as_given(
    before: Seq<Feedback>,
    after: Seq<Feedback>,
    anomaly_id: Seq<char>,
    is_true_positive: bool,
    id: Seq<char>,
    now: Time,
)
    requires
        feedback_added(before, after, anomaly_id, is_true_positive, id, now),
    ensures
        after.len() == before.len() + 1,
        forall|i: int| 0 <= i < before.len() ==> #[trigger] after[i] == before[i],
        after[before.len() as int].anomaly_id@ == anomaly_id,
        after[before.len() as int].is_true_positive == is_true_positive,
        after[before.len() as int].id@ == id,
{
    assert forall|i: int| 0 <= i < before.len() implies #[trigger] after[i] == before[i] by {
        assert(after.drop_last()[i] == after[i]);
    }
}

/// A metric that is made seasonal forgets its earlier seasons and leaves all other metrics
/// and all alerts as they were.
pub proof fn configuring_concerns_one_metric(
    store: AnomalyStore,
    after: AnomalyStore,
    key: Seq<char>,
    seasonality: Seasonality,
    now: Time,
    other: Seq<char>,
    season: int,
)
    requires
        store.made_seasonal(after, key, seasonality, now),
        other != key,
    ensures
        after.seasonal@[key].seasonality == seasonality,
        0 <= season < after.seasonal@[key].buckets.len() ==> after.seasonal@[key].buckets[season].count
            == 0 && after.seasonal@[key].threshold_multipliers[season].bits
            == 0x3FF0_0000_0000_0000,
        after.seasonal@.contains_key(other) == store.seasonal@.contains_key(other),
        store.seasonal@.contains_key(other) ==> after.seasonal@[other] == store.seasonal@[other],
        after.baselines == store.baselines,
        after.alerts == store.alerts,
{
}

/// An anomaly that was correlated with another is listed with it, once, and keeps all that
/// it was correlated with before. The strength is the greatest that was given, and no other
/// anomaly changes.
pub proof fn correlations_are_kept(
    store: AnomalyStore,
    after: AnomalyStore,
    anomaly_id: Seq<char>,
    correlated_id: Seq<char>,
    strength: Measure,
    other: Seq<char>,
    third: Seq<char>,
)
    requires
        store.linked(after, anomaly_id, correlated_id, strength),
        !strength.is_nan_spec(),
        store.correlations@.contains_key(anomaly_id)
            ==> !store.correlations@[anomaly_id].correlation_strength.is_nan_spec(),
        other != anomaly_id,
    ensures
        after.correlated(anomaly_id).contains(third) <==> store.correlated(anomaly_id).contains(
            third,
        ) || third == correlated_id,
        after.correlations@[anomaly_id].correlation_strength.ge_spec(strength),
        store.correlations@.contains_key(anomaly_id)
            ==> after.correlations@[anomaly_id].correlation_strength.ge_spec(
            store.correlations@[anomaly_id].correlation_strength,
        ),
        !store.correlations@.contains_key(anomaly_id)
            ==> after.correlations@[anomaly_id].correlation_strength == strength,
        after.correlated(other) == store.correlated(other),
{
    added_elements_are_held_once(store.correlated(anomaly_id), correlated_id, third);
}

/// A group of one service becomes systemic exactly when it takes in an alert of another one,
/// and stays so.
pub proof fn a_second_service_makes_a_group_systemic(
    group: GroupModel,
    alert: Alert,
    service: Seq<char>,
)
    ensures
        group.services == seq![service] ==> !group.spans_services() && (group.absorbed(
            alert,
        ).spans_services() <==> alert.service@ != service),
        group.spans_services() ==> group.absorbed(alert).spans_services(),
{
    if group.services == seq![service] {
        assert(group.services[0] == service);
        assert(group.services.contains(alert.service@) <==> alert.service@ == service);
    }
}

} // verus!
