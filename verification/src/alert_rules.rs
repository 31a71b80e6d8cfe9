//! Alert rules for critical events.
//!
//! A rule watches one critical event (a high error rate, a contract upgrade, a
//! surge of vault releases and the like) with configurable thresholds. Given a
//! snapshot of the metrics, the rules that are breached fire alerts.

use vstd::prelude::*;

use crate::clock::{utc_now, wall_clock_shows, Time};
use crate::ids::{is_new_id, new_id};
use crate::measure::Measure;
use crate::ordering::{
    is_stable_order, lemma_filter_contains, pick, pick_values, picked, stable_order,
};
use crate::table::Table;
use crate::text::{decimal, is_blank, push_decimal, texts, trimmed};

verus! {

/// The critical event that an alert rule monitors.
#[derive(Debug, PartialEq, Eq, Hash)]
pub enum CriticalEventType {
    HighErrorRate,
    ContractUpgrade,
    ContractPaused,
    VaultReleaseSurge,
    HighApiLatency,
    CanaryRollback,
    DeploymentRollback,
    CredentialLifecycleAnomaly,
    Custom(String),
}

impl Clone for CriticalEventType {
    fn clone(&self) -> (r: Self)
        ensures
            r == *self,
    {
        match self {
            CriticalEventType::HighErrorRate => CriticalEventType::HighErrorRate,
            CriticalEventType::ContractUpgrade => CriticalEventType::ContractUpgrade,
            CriticalEventType::ContractPaused => CriticalEventType::ContractPaused,
            CriticalEventType::VaultReleaseSurge => CriticalEventType::VaultReleaseSurge,
            CriticalEventType::HighApiLatency => CriticalEventType::HighApiLatency,
            CriticalEventType::CanaryRollback => CriticalEventType::CanaryRollback,
            CriticalEventType::DeploymentRollback => CriticalEventType::DeploymentRollback,
            CriticalEventType::CredentialLifecycleAnomaly => CriticalEventType::CredentialLifecycleAnomaly,
            CriticalEventType::Custom(label) => CriticalEventType::Custom(label.clone()),
        }
    }
}

/// Notification channel through which an alert is dispatched.
#[derive(Debug, Clone, Copy, PartialEq, Eq, Structural)]
pub enum AlertChannel {
    Slack,
    Email,
    Webhook,
    Log,
}

/// Severity level of a fired alert.
#[derive(Debug, Clone, Copy, PartialEq, Eq, PartialOrd, Ord, Structural)]
pub enum AlertSeverity {
    Info,
    Warning,
    Critical,
}

/// Numeric thresholds used when evaluating an alert rule.
#[derive(Debug, Clone, Copy, PartialEq, Eq, Structural)]
pub struct AlertThresholds {
    /// Maximum acceptable error rate (a fraction of one). Used for `HighErrorRate`.
    pub max_error_rate: Measure,
    /// Maximum acceptable p99 latency in milliseconds. Used for `HighApiLatency`.
    pub max_latency_p99_ms: Measure,
    /// Maximum vault releases per evaluation window. Used for `VaultReleaseSurge`.
    pub max_release_rate: Measure,
    /// Maximum credential lifecycle errors per evaluation window.
    pub max_credential_errors: u64,
    /// Evaluation window in minutes.
    pub eval_window_minutes: u64,
}

/// One hundredth times five, as IEEE-754 bits.
pub const FIVE_PERCENT: u64 = 0x3FA9_9999_9999_999A;

/// Two thousand, as IEEE-754 bits.
pub const TWO_THOUSAND: u64 = 0x409F_4000_0000_0000;

/// Ten, as IEEE-754 bits.
pub const TEN: u64 = 0x4024_0000_0000_0000;

/// One, as IEEE-754 bits.
pub const ONE: u64 = 0x3FF0_0000_0000_0000;

/// The thresholds that apply where none are given: an error rate of 5%, a p99
/// latency of 2000 ms, 10 releases, 10 credential errors, over 5 minutes.
pub open spec fn default_thresholds() -> AlertThresholds {
    AlertThresholds {
        max_error_rate: Measure { bits: FIVE_PERCENT },
        max_latency_p99_ms: Measure { bits: TWO_THOUSAND },
        max_release_rate: Measure { bits: TEN },
        max_credential_errors: 10,
        eval_window_minutes: 5,
    }
}

impl Default for AlertThresholds {
    fn default() -> (r: Self)
        ensures
            r == default_thresholds(),
    {
        AlertThresholds {
            max_error_rate: Measure { bits: FIVE_PERCENT },
            max_latency_p99_ms: Measure { bits: TWO_THOUSAND },
            max_release_rate: Measure { bits: TEN },
            max_credential_errors: 10,
            eval_window_minutes: 5,
        }
    }
}

/// An alert rule that defines thresholds for a specific critical event.
#[derive(Debug)]
pub struct AlertRule {
    pub id: String,
    pub name: String,
    pub event_type: CriticalEventType,
    pub severity: AlertSeverity,
    /// The condition in words; the threshold values are in `thresholds`.
    pub condition_description: String,
    pub thresholds: AlertThresholds,
    pub channels: Vec<AlertChannel>,
    /// Slack webhook URL, email address, or HTTP endpoint, depending on the
    /// channel.
    pub destinations: Vec<String>,
    pub enabled: bool,
    pub created_at: Time,
}

/// The contents of an alert rule.
pub struct RuleModel {
    pub id: Seq<char>,
    pub name: Seq<char>,
    pub event_type: CriticalEventType,
    pub severity: AlertSeverity,
    pub condition_description: Seq<char>,
    pub thresholds: AlertThresholds,
    pub channels: Seq<AlertChannel>,
    pub destinations: Seq<Seq<char>>,
    pub enabled: bool,
    pub created_at: Time,
}

impl AlertRule {
    pub open spec fn view(&self) -> RuleModel {
        RuleModel {
            id: self.id@,
            name: self.name@,
            event_type: self.event_type,
            severity: self.severity,
            condition_description: self.condition_description@,
            thresholds: self.thresholds,
            channels: self.channels@,
            destinations: texts(self.destinations@),
            enabled: self.enabled,
            created_at: self.created_at,
        }
    }
}

/// A snapshot of the metrics.
#[derive(Debug, Clone, Copy, PartialEq, Eq, Structural)]
pub struct CurrentMetrics {
    pub error_rate: Measure,
    pub latency_p99_ms: Measure,
    /// Vault releases observed in the current evaluation window.
    pub release_count: Measure,
    /// One if the contract is paused, zero otherwise.
    pub contract_paused: Measure,
    /// Number of contract upgrade events in the current window.
    pub contract_upgrade_events: u64,
    /// Canary rollbacks triggered in the current window.
    pub canary_rollbacks: u64,
    /// Automated deployment rollbacks in the current window.
    pub deployment_rollbacks: u64,
    /// Credential lifecycle errors in the current window.
    pub credential_lifecycle_errors: u64,
}

/// What an alert reports: the condition that was met and its figures.
#[derive(Debug, Clone, Copy, PartialEq, Eq, Structural)]
pub enum AlertMessage {
    HighErrorRate { rate: Measure, threshold: Measure },
    ContractUpgrade { events: u64 },
    ContractPaused,
    VaultReleaseSurge { releases: Measure, threshold: Measure },
    HighApiLatency { latency_ms: Measure, threshold_ms: Measure },
    CanaryRollback { rollbacks: u64 },
    DeploymentRollback { rollbacks: u64 },
    CredentialLifecycleAnomaly { errors: u64, threshold: u64 },
}

impl AlertMessage {
    /// The message as text. Messages on measured values take their two
    /// figures, the value and the threshold, as rendered by the caller.
    pub open spec fn text_spec(self, figure: Seq<char>, limit: Seq<char>) -> Seq<char> {
        match self {
            AlertMessage::HighErrorRate { .. } => "Error rate "@ + figure + "% exceeds threshold "@
                + limit + "%"@,
            AlertMessage::ContractUpgrade { events } => decimal(events as nat)
                + " contract upgrade event(s) detected in evaluation window"@,
            AlertMessage::ContractPaused => "The ttl_vault contract is currently paused"@,
            AlertMessage::VaultReleaseSurge { .. } => figure
                + " vault releases in evaluation window exceeds threshold "@ + limit,
            AlertMessage::HighApiLatency { .. } => "p99 latency "@ + figure
                + " ms exceeds threshold "@ + limit + " ms"@,
            AlertMessage::CanaryRollback { rollbacks } => decimal(rollbacks as nat)
                + " canary rollback(s) triggered in evaluation window"@,
            AlertMessage::DeploymentRollback { rollbacks } => decimal(rollbacks as nat)
                + " automated deployment rollback(s) triggered"@,
            AlertMessage::CredentialLifecycleAnomaly { errors, threshold } => decimal(errors as nat)
                + " credential lifecycle errors exceed threshold "@ + decimal(threshold as nat),
        }
    }

    /// The message as text, with the figures of measured values as given.
    pub fn text(&self, figure: &str, limit: &str) -> (r: String)
        ensures
            r@ == self.text_spec(figure@, limit@),
    {
        let mut out = String::new();
        match self {
            AlertMessage::HighErrorRate { rate: _, threshold: _ } => {
                out.append("Error rate ");
                out.append(figure);
                out.append("% exceeds threshold ");
                out.append(limit);
                out.append("%");
            },
            AlertMessage::ContractUpgrade { events } => {
                push_decimal(&mut out, *events as u128);
                out.append(" contract upgrade event(s) detected in evaluation window");
            },
            AlertMessage::ContractPaused => {
                out.append("The ttl_vault contract is currently paused");
            },
            AlertMessage::VaultReleaseSurge { releases: _, threshold: _ } => {
                out.append(figure);
                out.append(" vault releases in evaluation window exceeds threshold ");
                out.append(limit);
            },
            AlertMessage::HighApiLatency { latency_ms: _, threshold_ms: _ } => {
                out.append("p99 latency ");
                out.append(figure);
                out.append(" ms exceeds threshold ");
                out.append(limit);
                out.append(" ms");
            },
            AlertMessage::CanaryRollback { rollbacks } => {
                push_decimal(&mut out, *rollbacks as u128);
                out.append(" canary rollback(s) triggered in evaluation window");
            },
            AlertMessage::DeploymentRollback { rollbacks } => {
                push_decimal(&mut out, *rollbacks as u128);
                out.append(" automated deployment rollback(s) triggered");
            },
            AlertMessage::CredentialLifecycleAnomaly { errors, threshold } => {
                push_decimal(&mut out, *errors as u128);
                out.append(" credential lifecycle errors exceed threshold ");
                push_decimal(&mut out, *threshold as u128);
            },
        }
        assert(out@ =~= self.text_spec(figure@, limit@));
        out
    }
}

/// A fired alert, produced when a rule's condition is met.
#[derive(Debug)]
pub struct FiredAlert {
    pub id: String,
    pub rule_id: String,
    pub rule_name: String,
    pub event_type: CriticalEventType,
    pub severity: AlertSeverity,
    pub message: AlertMessage,
    pub metric_snapshot: CurrentMetrics,
    pub channels_notified: Vec<AlertChannel>,
    pub fired_at: Time,
    /// Whether the notification was dispatched to all channels.
    pub notification_sent: bool,
}

impl FiredAlert {
    /// This is the alert that `rule` fires on `metrics`, with the message `message`.
    pub open spec fn reports(
        &self,
        rule: AlertRule,
        metrics: CurrentMetrics,
        message: AlertMessage,
    ) -> bool {
        &&& self.rule_id@ == rule.id@
        &&& self.rule_name@ == rule.name@
        &&& self.event_type == rule.event_type
        &&& self.severity == rule.severity
        &&& self.message == message
        &&& self.metric_snapshot == metrics
        &&& self.channels_notified@ == rule.channels@
        &&& self.notification_sent
    }

    /// The two alerts have the same contents.
    pub open spec fn same_as(&self, other: FiredAlert) -> bool {
        &&& self.id == other.id
        &&& self.rule_id == other.rule_id
        &&& self.rule_name == other.rule_name
        &&& self.event_type == other.event_type
        &&& self.severity == other.severity
        &&& self.message == other.message
        &&& self.metric_snapshot == other.metric_snapshot
        &&& self.channels_notified@ == other.channels_notified@
        &&& self.fired_at == other.fired_at
        &&& self.notification_sent == other.notification_sent
    }

    /// A copy of the alert.
    pub fn copy(&self) -> (r: FiredAlert)
        ensures
            r.same_as(*self),
    {
        FiredAlert {
            id: self.id.clone(),
            rule_id: self.rule_id.clone(),
            rule_name: self.rule_name.clone(),
            event_type: self.event_type.clone(),
            severity: self.severity,
            message: self.message,
            metric_snapshot: self.metric_snapshot,
            channels_notified: copy_channels(&self.channels_notified),
            fired_at: self.fired_at,
            notification_sent: self.notification_sent,
        }
    }
}

fn copy_channels(channels: &Vec<AlertChannel>) -> (r: Vec<AlertChannel>)
    ensures
        r@ == channels@,
{
    let r = channels.clone();
    assert(r@ =~= channels@);
    r
}

/// The rules and the alerts that they fired.
pub struct AlertRulesInner {
    pub rules: Table<AlertRule>,
    pub fired: Vec<FiredAlert>,
}

impl AlertRulesInner {
    pub open spec fn wf(&self) -> bool {
        self.rules.wf()
    }

    /// The contents of the rules, by id.
    pub open spec fn rule_models(&self) -> Map<Seq<char>, RuleModel> {
        self.rules@.map_values(|r: AlertRule| r@)
    }
}

impl Default for AlertRulesInner {
    fn default() -> (r: Self)
        ensures
            r.wf(),
            r.rule_models() == Map::<Seq<char>, RuleModel>::empty(),
            r.fired@ == Seq::<FiredAlert>::empty(),
    {
        let r = AlertRulesInner { rules: Table::new(), fired: Vec::new() };
        assert(r.rule_models() =~= Map::empty());
        r
    }
}

/// A rule that is there from the start, but for its id and its time of creation.
pub open spec fn default_rule(
    name: Seq<char>,
    event_type: CriticalEventType,
    severity: AlertSeverity,
    condition: Seq<char>,
    channels: Seq<AlertChannel>,
    window: u64,
) -> RuleModel {
    RuleModel {
        id: Seq::empty(),
        name,
        event_type,
        severity,
        condition_description: condition,
        thresholds: AlertThresholds { eval_window_minutes: window, ..default_thresholds() },
        channels,
        destinations: Seq::empty(),
        enabled: true,
        created_at: 0,
    }
}

/// The rules that are there from the start.
pub open spec fn default_rule_at(i: int) -> RuleModel {
    if i == 0 {
        default_rule(
            "HighErrorRate"@,
            CriticalEventType::HighErrorRate,
            AlertSeverity::Critical,
            "API error rate exceeds 5% over a 5-minute window"@,
            seq![AlertChannel::Slack, AlertChannel::Email],
            5,
        )
    } else if i == 1 {
        default_rule(
            "ContractUpgradeDetected"@,
            CriticalEventType::ContractUpgrade,
            AlertSeverity::Warning,
            "An on-chain contract upgrade event was observed"@,
            seq![AlertChannel::Slack, AlertChannel::Log],
            5,
        )
    } else if i == 2 {
        default_rule(
            "ContractPaused"@,
            CriticalEventType::ContractPaused,
            AlertSeverity::Critical,
            "The ttl_vault contract is currently paused"@,
            seq![AlertChannel::Slack, AlertChannel::Email],
            5,
        )
    } else if i == 3 {
        default_rule(
            "VaultReleaseSurge"@,
            CriticalEventType::VaultReleaseSurge,
            AlertSeverity::Warning,
            "More than 10 vault releases observed in a single window"@,
            seq![AlertChannel::Slack],
            5,
        )
    } else if i == 4 {
        default_rule(
            "HighApiLatency"@,
            CriticalEventType::HighApiLatency,
            AlertSeverity::Warning,
            "p99 API latency exceeds 2000 ms"@,
            seq![AlertChannel::Slack],
            5,
        )
    } else if i == 5 {
        default_rule(
            "CanaryRollback"@,
            CriticalEventType::CanaryRollback,
            AlertSeverity::Critical,
            "A canary deployment was rolled back due to metric breach"@,
            seq![AlertChannel::Slack, AlertChannel::Email],
            5,
        )
    } else if i == 6 {
        default_rule(
            "DeploymentRollback"@,
            CriticalEventType::DeploymentRollback,
            AlertSeverity::Critical,
            "An automated deployment rollback was triggered"@,
            seq![AlertChannel::Slack, AlertChannel::Email],
            5,
        )
    } else {
        default_rule(
            "CredentialLifecycleAnomaly"@,
            CriticalEventType::CredentialLifecycleAnomaly,
            AlertSeverity::Warning,
            "More than 10 credential lifecycle errors in 15 minutes"@,
            seq![AlertChannel::Slack],
            15,
        )
    }
}

/// The number of rules that are there from the start: one for each critical
/// event.
pub const DEFAULT_RULE_COUNT: usize = 8;

/// The rule `i` of those that are there from the start.
fn make_default_rule(i: usize, id: String, now: Time) -> (r: AlertRule)
    requires
        i < DEFAULT_RULE_COUNT,
    ensures
        r@ == (RuleModel { id: id@, created_at: now, ..default_rule_at(i as int) }),
{
    let mut channels: Vec<AlertChannel> = Vec::new();
    let (name, event_type, severity, condition, window) =
    if i == 0 {
        channels.push(AlertChannel::Slack);
        channels.push(AlertChannel::Email);
        (
            "HighErrorRate",
            CriticalEventType::HighErrorRate,
            AlertSeverity::Critical,
            "API error rate exceeds 5% over a 5-minute window",
            5u64,
        )
    } else if i == 1 {
        channels.push(AlertChannel::Slack);
        channels.push(AlertChannel::Log);
        (
            "ContractUpgradeDetected",
            CriticalEventType::ContractUpgrade,
            AlertSeverity::Warning,
            "An on-chain contract upgrade event was observed",
            5u64,
        )
    } else if i == 2 {
        channels.push(AlertChannel::Slack);
        channels.push(AlertChannel::Email);
        (
            "ContractPaused",
            CriticalEventType::ContractPaused,
            AlertSeverity::Critical,
            "The ttl_vault contract is currently paused",
            5u64,
        )
    } else if i == 3 {
        channels.push(AlertChannel::Slack);
        (
            "VaultReleaseSurge",
            CriticalEventType::VaultReleaseSurge,
            AlertSeverity::Warning,
            "More than 10 vault releases observed in a single window",
            5u64,
        )
    } else if i == 4 {
        channels.push(AlertChannel::Slack);
        (
            "HighApiLatency",
            CriticalEventType::HighApiLatency,
            AlertSeverity::Warning,
            "p99 API latency exceeds 2000 ms",
            5u64,
        )
    } else if i == 5 {
        channels.push(AlertChannel::Slack);
        channels.push(AlertChannel::Email);
        (
            "CanaryRollback",
            CriticalEventType::CanaryRollback,
            AlertSeverity::Critical,
            "A canary deployment was rolled back due to metric breach",
            5u64,
        )
    } else if i == 6 {
        channels.push(AlertChannel::Slack);
        channels.push(AlertChannel::Email);
        (
            "DeploymentRollback",
            CriticalEventType::DeploymentRollback,
            AlertSeverity::Critical,
            "An automated deployment rollback was triggered",
            5u64,
        )
    } else {
        channels.push(AlertChannel::Slack);
        (
            "CredentialLifecycleAnomaly",
            CriticalEventType::CredentialLifecycleAnomaly,
            AlertSeverity::Warning,
            "More than 10 credential lifecycle errors in 15 minutes",
            15u64,
        )
    };
    let base = AlertThresholds::default();
    let r = AlertRule {
        id,
        name: name.to_owned(),
        event_type,
        severity,
        condition_description: condition.to_owned(),
        thresholds: AlertThresholds {
            max_error_rate: base.max_error_rate,
            max_latency_p99_ms: base.max_latency_p99_ms,
            max_release_rate: base.max_release_rate,
            max_credential_errors: base.max_credential_errors,
            eval_window_minutes: window,
        },
        channels,
        destinations: Vec::new(),
        enabled: true,
        created_at: now,
    };
    assert(r@.channels =~= default_rule_at(i as int).channels);
    assert(r@.destinations =~= Seq::empty());
    r
}

/// The rules with the first `ids.len()` default rules added under these ids.
pub open spec fn with_default_rules(
    rules: Map<Seq<char>, RuleModel>,
    ids: Seq<Seq<char>>,
    times: Seq<Time>,
) -> Map<Seq<char>, RuleModel>
    decreases ids.len(),
{
    if ids.len() == 0 {
        rules
    } else {
        with_default_rules(rules, ids.drop_last(), times.drop_last()).insert(
            ids.last(),
            RuleModel { id: ids.last(), created_at: times.last(), ..default_rule_at(ids.len() - 1) },
        )
    }
}

/// `after` is `before` with every default rule added under an id of its own.
pub open spec fn seeded(
    before: Map<Seq<char>, RuleModel>,
    after: Map<Seq<char>, RuleModel>,
    ids: Seq<Seq<char>>,
    times: Seq<Time>,
) -> bool {
    &&& ids.len() == DEFAULT_RULE_COUNT
    &&& times.len() == DEFAULT_RULE_COUNT
    &&& forall|i: int| 0 <= i < ids.len() ==> is_new_id(#[trigger] ids[i])
    &&& forall|i: int| 0 <= i < times.len() ==> wall_clock_shows(#[trigger] times[i])
    &&& after == with_default_rules(before, ids, times)
}

/// Adds the default rules, which cover all critical events.
pub fn seed_default_rules(inner: &mut AlertRulesInner)
    requires
        old(inner).wf(),
    ensures
        final(inner).wf(),
        final(inner).fired@ == old(inner).fired@,
        exists|ids: Seq<Seq<char>>, times: Seq<Time>| #[trigger]
            seeded(old(inner).rule_models(), final(inner).rule_models(), ids, times),
{
    let ghost before = inner.rule_models();
    let ghost fired = inner.fired@;
    let ghost mut ids: Seq<Seq<char>> = Seq::empty();
    let ghost mut times: Seq<Time> = Seq::empty();
    let mut i: usize = 0;
    while i < DEFAULT_RULE_COUNT
        invariant
            i <= DEFAULT_RULE_COUNT,
            inner.wf(),
            inner.fired@ == fired,
            ids.len() == i,
            times.len() == i,
            forall|j: int| 0 <= j < ids.len() ==> is_new_id(#[trigger] ids[j]),
            forall|j: int| 0 <= j < times.len() ==> wall_clock_shows(#[trigger] times[j]),
            inner.rule_models() == with_default_rules(before, ids, times),
        decreases DEFAULT_RULE_COUNT - i,
    {
        let ghost earlier = inner.rule_models();
        let id = new_id();
        let now = utc_now();
        let rule = make_default_rule(i, id.clone(), now);
        let ghost model = rule@;
        let _previous = inner.rules.insert(id, rule);
        proof {
            let ids2 = ids.push(id@);
            let times2 = times.push(now);
            assert(ids2.drop_last() =~= ids);
            assert(times2.drop_last() =~= times);
            assert(inner.rule_models() =~= earlier.insert(id@, model));
            ids = ids2;
            times = times2;
        }
        i = i + 1;
    }
    assert(seeded(before, inner.rule_models(), ids, times));
}

/// The rules and alerts of the service.
pub struct AlertRulesState {
    pub store: AlertRulesInner,
}

impl AlertRulesState {
    /// A state with the default rules and no alerts.
    pub fn new() -> (r: Self)
        ensures
            r.store.wf(),
            r.store.fired@ == Seq::<FiredAlert>::empty(),
            exists|ids: Seq<Seq<char>>, times: Seq<Time>| #[trigger]
                seeded(Map::empty(), r.store.rule_models(), ids, times),
    {
        let mut store = AlertRulesInner::default();
        seed_default_rules(&mut store);
        AlertRulesState { store }
    }
}

impl Default for AlertRulesState {
    fn default() -> (r: Self)
        ensures
            r.store.wf(),
            r.store.fired@ == Seq::<FiredAlert>::empty(),
            exists|ids: Seq<Seq<char>>, times: Seq<Time>| #[trigger]
                seeded(Map::empty(), r.store.rule_models(), ids, times),
    {
        AlertRulesState::new()
    }
}

/// What an enabled rule on `event` reports of `metrics`, if its condition is
/// met. Custom rules are never evaluated.
pub open spec fn condition(
    event: CriticalEventType,
    thresholds: AlertThresholds,
    metrics: CurrentMetrics,
) -> Option<AlertMessage> {
    match event {
        CriticalEventType::HighErrorRate => if metrics.error_rate.gt_spec(
            thresholds.max_error_rate,
        ) {
            Some(
                AlertMessage::HighErrorRate {
                    rate: metrics.error_rate,
                    threshold: thresholds.max_error_rate,
                },
            )
        } else {
            None
        },
        CriticalEventType::ContractUpgrade => if metrics.contract_upgrade_events > 0 {
            Some(AlertMessage::ContractUpgrade { events: metrics.contract_upgrade_events })
        } else {
            None
        },
        CriticalEventType::ContractPaused => if metrics.contract_paused.ge_spec(
            Measure { bits: ONE },
        ) {
            Some(AlertMessage::ContractPaused)
        } else {
            None
        },
        CriticalEventType::VaultReleaseSurge => if metrics.release_count.gt_spec(
            thresholds.max_release_rate,
        ) {
            Some(
                AlertMessage::VaultReleaseSurge {
                    releases: metrics.release_count,
                    threshold: thresholds.max_release_rate,
                },
            )
        } else {
            None
        },
        CriticalEventType::HighApiLatency => if metrics.latency_p99_ms.gt_spec(
            thresholds.max_latency_p99_ms,
        ) {
            Some(
                AlertMessage::HighApiLatency {
                    latency_ms: metrics.latency_p99_ms,
                    threshold_ms: thresholds.max_latency_p99_ms,
                },
            )
        } else {
            None
        },
        CriticalEventType::CanaryRollback => if metrics.canary_rollbacks > 0 {
            Some(AlertMessage::CanaryRollback { rollbacks: metrics.canary_rollbacks })
        } else {
            None
        },
        CriticalEventType::DeploymentRollback => if metrics.deployment_rollbacks > 0 {
            Some(AlertMessage::DeploymentRollback { rollbacks: metrics.deployment_rollbacks })
        } else {
            None
        },
        CriticalEventType::CredentialLifecycleAnomaly => if metrics.credential_lifecycle_errors
            > thresholds.max_credential_errors {
            Some(
                AlertMessage::CredentialLifecycleAnomaly {
                    errors: metrics.credential_lifecycle_errors,
                    threshold: thresholds.max_credential_errors,
                },
            )
        } else {
            None
        },
        CriticalEventType::Custom(_) => None,
    }
}

/// What a rule reports of `metrics`, if it is enabled and its condition is met.
pub open spec fn breach(rule: AlertRule, metrics: CurrentMetrics) -> Option<AlertMessage> {
    if rule.enabled {
        condition(rule.event_type, rule.thresholds, metrics)
    } else {
        None
    }
}

/// What a rule reports of `metrics`, if it is enabled and its condition is met.
pub fn find_breach(rule: &AlertRule, metrics: &CurrentMetrics) -> (r: Option<AlertMessage>)
    ensures
        r == breach(*rule, *metrics),
{
    if !rule.enabled {
        return None;
    }
    let thresholds = &rule.thresholds;
    match &rule.event_type {
        CriticalEventType::HighErrorRate => {
            if metrics.error_rate.gt(&thresholds.max_error_rate) {
                Some(
                    AlertMessage::HighErrorRate {
                        rate: metrics.error_rate,
                        threshold: thresholds.max_error_rate,
                    },
                )
            } else {
                None
            }
        },
        CriticalEventType::ContractUpgrade => {
            if metrics.contract_upgrade_events > 0 {
                Some(AlertMessage::ContractUpgrade { events: metrics.contract_upgrade_events })
            } else {
                None
            }
        },
        CriticalEventType::ContractPaused => {
            if metrics.contract_paused.ge(&Measure { bits: ONE }) {
                Some(AlertMessage::ContractPaused)
            } else {
                None
            }
        },
        CriticalEventType::VaultReleaseSurge => {
            if metrics.release_count.gt(&thresholds.max_release_rate) {
                Some(
                    AlertMessage::VaultReleaseSurge {
                        releases: metrics.release_count,
                        threshold: thresholds.max_release_rate,
                    },
                )
            } else {
                None
            }
        },
        CriticalEventType::HighApiLatency => {
            if metrics.latency_p99_ms.gt(&thresholds.max_latency_p99_ms) {
                Some(
                    AlertMessage::HighApiLatency {
                        latency_ms: metrics.latency_p99_ms,
                        threshold_ms: thresholds.max_latency_p99_ms,
                    },
                )
            } else {
                None
            }
        },
        CriticalEventType::CanaryRollback => {
            if metrics.canary_rollbacks > 0 {
                Some(AlertMessage::CanaryRollback { rollbacks: metrics.canary_rollbacks })
            } else {
                None
            }
        },
        CriticalEventType::DeploymentRollback => {
            if metrics.deployment_rollbacks > 0 {
                Some(AlertMessage::DeploymentRollback { rollbacks: metrics.deployment_rollbacks })
            } else {
                None
            }
        },
        CriticalEventType::CredentialLifecycleAnomaly => {
            if metrics.credential_lifecycle_errors > thresholds.max_credential_errors {
                Some(
                    AlertMessage::CredentialLifecycleAnomaly {
                        errors: metrics.credential_lifecycle_errors,
                        threshold: thresholds.max_credential_errors,
                    },
                )
            } else {
                None
            }
        },
        CriticalEventType::Custom(_label) => None,
    }
}

/// Evaluates a rule against a snapshot of the metrics: an alert if the rule is
/// enabled and its condition is met.
pub fn evaluate_rule(rule: &AlertRule, metrics: &CurrentMetrics) -> (r: Option<FiredAlert>)
    ensures
        match r {
            Some(alert) => breach(*rule, *metrics) is Some && alert.reports(
                *rule,
                *metrics,
                breach(*rule, *metrics)->0,
            ) && is_new_id(alert.id@) && wall_clock_shows(alert.fired_at),
            None => breach(*rule, *metrics) is None,
        },
{
    match find_breach(rule, metrics) {
        None => None,
        Some(message) => {
            Some(
                FiredAlert {
                    id: new_id(),
                    rule_id: rule.id.clone(),
                    rule_name: rule.name.clone(),
                    event_type: rule.event_type.clone(),
                    severity: rule.severity,
                    message,
                    metric_snapshot: *metrics,
                    channels_notified: copy_channels(&rule.channels),
                    fired_at: utc_now(),
                    notification_sent: true,
                },
            )
        },
    }
}

/// A request for a new rule.
#[derive(Debug)]
pub struct CreateAlertRuleRequest {
    pub name: String,
    pub event_type: CriticalEventType,
    pub severity: AlertSeverity,
    pub condition_description: String,
    pub thresholds: AlertThresholds,
    pub channels: Vec<AlertChannel>,
    pub destinations: Vec<String>,
    pub enabled: bool,
}

/// Why a request for a rule is refused.
#[derive(Debug, Clone, Copy, PartialEq, Eq, Structural)]
pub enum RuleError {
    /// The name is blank.
    EmptyName,
    /// There is no notification channel.
    NoChannel,
}

impl RuleError {
    pub open spec fn message_spec(self) -> Seq<char> {
        match self {
            RuleError::EmptyName => "rule name must not be empty"@,
            RuleError::NoChannel => "at least one notification channel is required"@,
        }
    }

    /// The error in words.
    pub fn message(&self) -> (r: String)
        ensures
            r@ == self.message_spec(),
    {
        match self {
            RuleError::EmptyName => "rule name must not be empty".to_owned(),
            RuleError::NoChannel => "at least one notification channel is required".to_owned(),
        }
    }
}

/// What is wrong with a request for a rule, if anything: a blank name first.
pub open spec fn rule_fault(body: CreateAlertRuleRequest) -> Option<RuleError> {
    if trimmed(body.name@).len() == 0 {
        Some(RuleError::EmptyName)
    } else if body.channels@.len() == 0 {
        Some(RuleError::NoChannel)
    } else {
        None
    }
}

/// The rule that a request asks for.
pub open spec fn requested_rule(body: CreateAlertRuleRequest, id: Seq<char>, now: Time) -> RuleModel {
    RuleModel {
        id,
        name: body.name@,
        event_type: body.event_type,
        severity: body.severity,
        condition_description: body.condition_description@,
        thresholds: body.thresholds,
        channels: body.channels@,
        destinations: texts(body.destinations@),
        enabled: body.enabled,
        created_at: now,
    }
}

/// What a request for a rule does to the rules and what it is answered: the id
/// of the new rule, or what is wrong with the request.
pub open spec fn rule_created(
    before: Map<Seq<char>, RuleModel>,
    after: Map<Seq<char>, RuleModel>,
    body: CreateAlertRuleRequest,
    id: Seq<char>,
    now: Time,
    r: Result<String, RuleError>,
) -> bool {
    match r {
        Ok(new_id) => {
            &&& rule_fault(body) is None
            &&& new_id@ == id
            &&& after == before.insert(id, requested_rule(body, id, now))
        },
        Err(e) => rule_fault(body) == Some(e) && after == before,
    }
}

/// Creates a rule with the given id at the time `now`, and returns the id.
pub fn create_alert_rule_with(
    inner: &mut AlertRulesInner,
    body: CreateAlertRuleRequest,
    id: String,
    now: Time,
) -> (r: Result<String, RuleError>)
    requires
        old(inner).wf(),
    ensures
        final(inner).wf(),
        final(inner).fired@ == old(inner).fired@,
        rule_created(old(inner).rule_models(), final(inner).rule_models(), body, id@, now, r),
{
    if is_blank(body.name.as_str()) {
        return Err(RuleError::EmptyName);
    }
    if body.channels.is_empty() {
        return Err(RuleError::NoChannel);
    }
    let ghost before = inner.rule_models();
    let key = id.clone();
    let rule = AlertRule {
        id,
        name: body.name,
        event_type: body.event_type,
        severity: body.severity,
        condition_description: body.condition_description,
        thresholds: body.thresholds,
        channels: body.channels,
        destinations: body.destinations,
        enabled: body.enabled,
        created_at: now,
    };
    let _previous = inner.rules.insert(key.clone(), rule);
    assert(inner.rule_models() =~= before.insert(id@, requested_rule(body, id@, now)));
    Ok(key)
}

/// Creates a rule and returns its id.
pub fn create_alert_rule(inner: &mut AlertRulesInner, body: CreateAlertRuleRequest) -> (r: Result<
    String,
    RuleError,
>)
    requires
        old(inner).wf(),
    ensures
        final(inner).wf(),
        final(inner).fired@ == old(inner).fired@,
        exists|id: Seq<char>, now: Time|
            wall_clock_shows(now) && is_new_id(id) && #[trigger] rule_created(
                old(inner).rule_models(),
                final(inner).rule_models(),
                body,
                id,
                now,
                r,
            ),
{
    let id = new_id();
    let now = utc_now();
    create_alert_rule_with(inner, body, id, now)
}

/// The times at which rules were created.
pub open spec fn creation_times(rules: Seq<AlertRule>) -> Seq<i128> {
    rules.map_values(|r: AlertRule| r.created_at)
}

/// The rules in order of creation.
pub open spec fn lists_rules(listed: Seq<&AlertRule>, rules: Seq<AlertRule>) -> bool {
    exists|order: Seq<usize>| #[trigger]
        is_stable_order(creation_times(rules), false, order) && picked(rules, order, listed)
}

/// All rules, in order of creation.
pub fn list_alert_rules(inner: &AlertRulesInner) -> (r: Vec<&AlertRule>)
    requires
        inner.wf(),
    ensures
        lists_rules(r@, inner.rules.values()),
{
    let mut times: Vec<i128> = Vec::new();
    let mut i: usize = 0;
    let n = inner.rules.len();
    while i < n
        invariant
            i <= n,
            inner.wf(),
            n == inner.rules.keys().len(),
            times@ == creation_times(inner.rules.values()).take(i as int),
        decreases n - i,
    {
        times.push(inner.rules.value_at(i).created_at);
        i = i + 1;
        assert(times@ =~= creation_times(inner.rules.values()).take(i as int));
    }
    assert(times@ =~= creation_times(inner.rules.values()));
    let order = stable_order(&times, false);
    pick_values(&inner.rules, &order)
}

/// The rule of an id.
pub fn get_alert_rule<'a>(inner: &'a AlertRulesInner, id: &str) -> (r: Option<&'a AlertRule>)
    requires
        inner.wf(),
    ensures
        match r {
            Some(rule) => inner.rules@.contains_key(id@) && *rule == inner.rules@[id@],
            None => !inner.rules@.contains_key(id@),
        },
{
    inner.rules.get(id)
}

/// Deletes a rule; whether there was one.
pub fn delete_alert_rule(inner: &mut AlertRulesInner, id: &str) -> (r: bool)
    requires
        old(inner).wf(),
    ensures
        final(inner).wf(),
        final(inner).rules@ == old(inner).rules@.remove(id@),
        final(inner).fired@ == old(inner).fired@,
        r == old(inner).rules@.contains_key(id@),
{
    inner.rules.remove(id).is_some()
}

/// The outcome of an evaluation of all rules.
#[derive(Debug)]
pub struct EvaluateAlertsResponse {
    pub evaluated_rules: usize,
    pub fired_count: usize,
    pub fired_alerts: Vec<FiredAlert>,
}

/// The rules that are breached, in their order.
pub open spec fn breaching(rules: Seq<AlertRule>, metrics: CurrentMetrics) -> Seq<AlertRule> {
    rules.filter(|rule: AlertRule| breach(rule, metrics) is Some)
}

/// The alerts are those of the given rules, one for each, under ids of their
/// own.
pub open spec fn alerts_of(
    alerts: Seq<FiredAlert>,
    rules: Seq<AlertRule>,
    metrics: CurrentMetrics,
) -> bool {
    &&& alerts.len() == rules.len()
    &&& forall|i: int|
        0 <= i < rules.len() ==> (#[trigger] alerts[i]).reports(
            rules[i],
            metrics,
            breach(rules[i], metrics)->0,
        )
    &&& forall|i: int| 0 <= i < alerts.len() ==> is_new_id((#[trigger] alerts[i]).id@)
}

/// Evaluates all rules against a snapshot of the metrics. Every breached rule
/// fires an alert, which is kept and returned.
pub fn evaluate_alerts(inner: &mut AlertRulesInner, metrics: &CurrentMetrics) -> (r:
    EvaluateAlertsResponse)
    requires
        old(inner).wf(),
    ensures
        final(inner).wf(),
        final(inner).rules == old(inner).rules,
        r.evaluated_rules == old(inner).rules.values().len(),
        r.fired_count == r.fired_alerts.len(),
        alerts_of(r.fired_alerts@, breaching(old(inner).rules.values(), *metrics), *metrics),
        final(inner).fired.len() == old(inner).fired.len() + r.fired_alerts.len(),
        forall|i: int|
            0 <= i < old(inner).fired.len() ==> #[trigger] final(inner).fired[i]
                == old(inner).fired[i],
        forall|i: int|
            0 <= i < r.fired_alerts.len() ==> #[trigger] r.fired_alerts[i].same_as(
                final(inner).fired[old(inner).fired.len() + i],
            ),
{
    let ghost before = *inner;
    let ghost rules = inner.rules.values();
    let mut fired_alerts: Vec<FiredAlert> = Vec::new();
    let evaluated_rules = inner.rules.len();
    let mut i: usize = 0;
    assert(breaching(rules.take(0), *metrics) =~= Seq::empty()) by {
        reveal(Seq::filter);
    }
    while i < evaluated_rules
        invariant
            i <= evaluated_rules,
            before.wf(),
            inner.wf(),
            inner.rules == before.rules,
            rules == before.rules.values(),
            evaluated_rules == rules.len(),
            alerts_of(fired_alerts@, breaching(rules.take(i as int), *metrics), *metrics),
            inner.fired.len() == before.fired.len() + fired_alerts.len(),
            forall|j: int|
                0 <= j < before.fired.len() ==> #[trigger] inner.fired[j] == before.fired[j],
            forall|j: int|
                0 <= j < fired_alerts.len() ==> #[trigger] fired_alerts[j].same_as(
                    inner.fired[before.fired.len() + j],
                ),
        decreases evaluated_rules - i,
    {
        proof {
            reveal(Seq::filter);
            assert(rules.take(i + 1).drop_last() =~= rules.take(i as int));
            assert(rules.take(i + 1).last() == rules[i as int]);
        }
        if let Some(alert) = evaluate_rule(inner.rules.value_at(i), metrics) {
            let ghost kept = inner.fired@;
            let ghost listed = fired_alerts@;
            let copy = alert.copy();
            inner.fired.push(alert);
            fired_alerts.push(copy);
            proof {
                assert(inner.fired@ =~= kept.push(alert));
                assert(fired_alerts@ =~= listed.push(copy));
                assert forall|j: int| 0 <= j < fired_alerts.len() implies #[trigger] fired_alerts[j].same_as(
                    inner.fired[before.fired.len() + j],
                ) by {
                    if j < listed.len() {
                        assert(listed[j].same_as(kept[before.fired.len() + j]));
                    }
                }
            }
        }
        i = i + 1;
    }
    assert(rules.take(i as int) =~= rules);
    let fired_count = fired_alerts.len();
    EvaluateAlertsResponse { evaluated_rules, fired_count, fired_alerts }
}

/// The times at which alerts fired.
pub open spec fn firing_times(alerts: Seq<FiredAlert>) -> Seq<i128> {
    alerts.map_values(|a: FiredAlert| a.fired_at)
}

/// The alerts, the most recent first.
pub open spec fn lists_fired(listed: Seq<&FiredAlert>, fired: Seq<FiredAlert>) -> bool {
    exists|order: Seq<usize>| #[trigger]
        is_stable_order(firing_times(fired), true, order) && picked(fired, order, listed)
}

/// All alerts that fired, the most recent first.
pub fn list_fired_alerts(inner: &AlertRulesInner) -> (r: Vec<&FiredAlert>)
    ensures
        lists_fired(r@, inner.fired@),
{
    let mut times: Vec<i128> = Vec::new();
    let mut i: usize = 0;
    while i < inner.fired.len()
        invariant
            i <= inner.fired.len(),
            times@ == firing_times(inner.fired@).take(i as int),
        decreases inner.fired.len() - i,
    {
        times.push(inner.fired[i].fired_at);
        i = i + 1;
        assert(times@ =~= firing_times(inner.fired@).take(i as int));
    }
    assert(times@ =~= firing_times(inner.fired@));
    let order = stable_order(&times, true);
    pick(&inner.fired, &order)
}

/// A rule that is disabled or custom never fires, whatever the metrics.
pub proof fn silent_rules_never_fire(rule: AlertRule, metrics: CurrentMetrics)
    requires
        !rule.enabled || rule.event_type is Custom,
    ensures
        breach(rule, metrics) is None,
{
}

/// The default rules cover every critical event but the custom ones.
pub proof fn default_rules_cover_all_events(event: CriticalEventType)
    requires
        !(event is Custom),
    ensures
        exists|i: int| 0 <= i < DEFAULT_RULE_COUNT && (#[trigger] default_rule_at(i)).event_type == event,
{
    let _ = default_rule_at(0);
    assert(default_rule_at(0).event_type == CriticalEventType::HighErrorRate);
    assert(default_rule_at(1).event_type == CriticalEventType::ContractUpgrade);
    assert(default_rule_at(2).event_type == CriticalEventType::ContractPaused);
    assert(default_rule_at(3).event_type == CriticalEventType::VaultReleaseSurge);
    assert(default_rule_at(4).event_type == CriticalEventType::HighApiLatency);
    assert(default_rule_at(5).event_type == CriticalEventType::CanaryRollback);
    assert(default_rule_at(6).event_type == CriticalEventType::DeploymentRollback);
    assert(default_rule_at(7).event_type == CriticalEventType::CredentialLifecycleAnomaly);
}

/// An enabled rule is breached exactly where its metric exceeds the rule's own
/// threshold, and reports both figures; the rules on events are breached by any event,
/// and the one on a paused contract where the metric is one or more.
pub proof fn rules_compare_with_their_own_thresholds(rule: AlertRule, metrics: CurrentMetrics)
    requires
        rule.enabled,
    ensures
        rule.event_type is HighErrorRate ==> {
            &&& breach(rule, metrics) is Some <==> metrics.error_rate.gt_spec(
                rule.thresholds.max_error_rate,
            )
            &&& breach(rule, metrics) matches Some(m) ==> m == (AlertMessage::HighErrorRate {
                rate: metrics.error_rate,
                threshold: rule.thresholds.max_error_rate,
            })
        },
        rule.event_type is VaultReleaseSurge ==> {
            &&& breach(rule, metrics) is Some <==> metrics.release_count.gt_spec(
                rule.thresholds.max_release_rate,
            )
            &&& breach(rule, metrics) matches Some(m) ==> m == (AlertMessage::VaultReleaseSurge {
                releases: metrics.release_count,
                threshold: rule.thresholds.max_release_rate,
            })
        },
        rule.event_type is HighApiLatency ==> {
            &&& breach(rule, metrics) is Some <==> metrics.latency_p99_ms.gt_spec(
                rule.thresholds.max_latency_p99_ms,
            )
            &&& breach(rule, metrics) matches Some(m) ==> m == (AlertMessage::HighApiLatency {
                latency_ms: metrics.latency_p99_ms,
                threshold_ms: rule.thresholds.max_latency_p99_ms,
            })
        },
        rule.event_type is CredentialLifecycleAnomaly ==> {
            &&& breach(rule, metrics) is Some <==> metrics.credential_lifecycle_errors
                > rule.thresholds.max_credential_errors
            &&& breach(rule, metrics) matches Some(m) ==> m == (
            AlertMessage::CredentialLifecycleAnomaly {
                errors: metrics.credential_lifecycle_errors,
                threshold: rule.thresholds.max_credential_errors,
            })
        },
        rule.event_type is ContractUpgrade ==> breach(rule, metrics) == if metrics.contract_upgrade_events
            == 0 {
            None
        } else {
            Some(AlertMessage::ContractUpgrade { events: metrics.contract_upgrade_events })
        },
        rule.event_type is CanaryRollback ==> breach(rule, metrics) == if metrics.canary_rollbacks
            == 0 {
            None
        } else {
            Some(AlertMessage::CanaryRollback { rollbacks: metrics.canary_rollbacks })
        },
        rule.event_type is DeploymentRollback ==> breach(rule, metrics)
            == if metrics.deployment_rollbacks == 0 {
            None
        } else {
            Some(AlertMessage::DeploymentRollback { rollbacks: metrics.deployment_rollbacks })
        },
        rule.event_type is ContractPaused ==> (breach(rule, metrics) is Some
            <==> metrics.contract_paused.ge_spec(Measure { bits: 0x3FF0_0000_0000_0000 })),
{
}

/// Raising a threshold never makes a rule fire that was silent, and a metric that got
/// worse never silences one that fired.
pub proof fn firing_is_monotone(
    rule: AlertRule,
    laxer: AlertRule,
    metrics: CurrentMetrics,
    worse: CurrentMetrics,
)
    requires
        laxer.enabled == rule.enabled,
        laxer.event_type == rule.event_type,
        laxer.thresholds.max_error_rate.ge_spec(rule.thresholds.max_error_rate),
        laxer.thresholds.max_latency_p99_ms.ge_spec(rule.thresholds.max_latency_p99_ms),
        laxer.thresholds.max_release_rate.ge_spec(rule.thresholds.max_release_rate),
        laxer.thresholds.max_credential_errors >= rule.thresholds.max_credential_errors,
        worse.error_rate.ge_spec(metrics.error_rate),
        worse.latency_p99_ms.ge_spec(metrics.latency_p99_ms),
        worse.release_count.ge_spec(metrics.release_count),
        worse.contract_paused.ge_spec(metrics.contract_paused),
        worse.contract_upgrade_events >= metrics.contract_upgrade_events,
        worse.canary_rollbacks >= metrics.canary_rollbacks,
        worse.deployment_rollbacks >= metrics.deployment_rollbacks,
        worse.credential_lifecycle_errors >= metrics.credential_lifecycle_errors,
    ensures
        breach(laxer, metrics) is Some ==> breach(rule, worse) is Some,
{
}

/// The rules of which alerts come are exactly the breached ones: each breached rule has
/// its alert, which bears its id, name, severity, channels and the snapshot, and every
/// alert is that of a breached rule.
pub proof fn every_breached_rule_fires(
    alerts: Seq<FiredAlert>,
    rules: Seq<AlertRule>,
    metrics: CurrentMetrics,
    i: int,
)
    requires
        alerts_of(alerts, breaching(rules, metrics), metrics),
        0 <= i < rules.len(),
    ensures
        breach(rules[i], metrics) is Some ==> exists|j: int|
            {
                &&& 0 <= j < alerts.len()
                &&& (#[trigger] alerts[j]).rule_id@ == rules[i].id@
                &&& alerts[j].rule_name@ == rules[i].name@
                &&& alerts[j].severity == rules[i].severity
                &&& alerts[j].event_type == rules[i].event_type
                &&& alerts[j].channels_notified@ == rules[i].channels@
                &&& alerts[j].metric_snapshot == metrics
                &&& Some(alerts[j].message) == breach(rules[i], metrics)
            },
        forall|j: int|
            0 <= j < alerts.len() ==> exists|k: int|
                0 <= k < rules.len() && (#[trigger] rules[k]).enabled && breach(rules[k], metrics)
                    == Some((#[trigger] alerts[j]).message) && rules[k].id@ == alerts[j].rule_id@,
{
    let found = breaching(rules, metrics);
    rules.filter_lemma(|rule: AlertRule| breach(rule, metrics) is Some);
    if breach(rules[i], metrics) is Some {
        assert(found.contains(rules[i]));
        let j = found.index_of(rules[i]);
        assert(alerts[j].reports(found[j], metrics, breach(found[j], metrics)->0));
    }
    assert forall|j: int| 0 <= j < alerts.len() implies exists|k: int|
        0 <= k < rules.len() && (#[trigger] rules[k]).enabled && breach(rules[k], metrics) == Some(
            (#[trigger] alerts[j]).message,
        ) && rules[k].id@ == alerts[j].rule_id@ by {
        assert(alerts[j].reports(found[j], metrics, breach(found[j], metrics)->0));
        assert(breach(found[j], metrics) is Some);
        lemma_filter_contains(
            rules,
            |rule: AlertRule| breach(rule, metrics) is Some,
            found[j],
        );
        assert(found.contains(found[j]));
        let k = rules.index_of(found[j]);
        assert(rules[k] == found[j]);
    }
}

/// A rule is made where the request names it and gives a channel, with the thresholds
/// and all else that was asked for; otherwise nothing changes. Other rules stay.
pub proof fn requested_rules_are_kept(
    before: Map<Seq<char>, RuleModel>,
    after: Map<Seq<char>, RuleModel>,
    body: CreateAlertRuleRequest,
    id: Seq<char>,
    now: Time,
    r: Result<String, RuleError>,
    other: Seq<char>,
)
    requires
        rule_created(before, after, body, id, now, r),
        other != id,
    ensures
        r is Ok <==> trimmed(body.name@).len() > 0 && body.channels.len() > 0,
        r is Ok ==> {
            &&& after.contains_key(id)
            &&& after[id].name == body.name@
            &&& after[id].event_type == body.event_type
            &&& after[id].severity == body.severity
            &&& after[id].thresholds == body.thresholds
            &&& after[id].channels == body.channels@
            &&& after[id].destinations == texts(body.destinations@)
            &&& after[id].enabled == body.enabled
            &&& after[id].created_at == now
        },
        r is Err ==> after == before,
        after.contains_key(other) == before.contains_key(other),
        before.contains_key(other) ==> after[other] == before[other],
{
}

/// Every rule that is there from the start is enabled, names a channel, and fires above
/// an error rate of 5%, a latency of 2000 ms, ten releases and ten credential errors.
pub proof fn default_rules_are_ready(i: int)
    requires
        0 <= i < 8,
    ensures
        default_rule_at(i).enabled,
        default_rule_at(i).channels.len() > 0,
        default_rule_at(i).channels.contains(AlertChannel::Slack),
        default_rule_at(i).thresholds.max_error_rate == (Measure { bits: 0x3FA9_9999_9999_999A }),
        default_rule_at(i).thresholds.max_latency_p99_ms == (Measure {
            bits: 0x409F_4000_0000_0000,
        }),
        default_rule_at(i).thresholds.max_release_rate == (Measure { bits: 0x4024_0000_0000_0000 }),
        default_rule_at(i).thresholds.max_credential_errors == 10,
        default_rule_at(i).thresholds.eval_window_minutes == if default_rule_at(
            i,
        ).event_type is CredentialLifecycleAnomaly {
            15u64
        } else {
            5u64
        },
        default_rule_at(i).severity is Critical <==> {
            ||| default_rule_at(i).event_type is HighErrorRate
            ||| default_rule_at(i).event_type is ContractPaused
            ||| default_rule_at(i).event_type is CanaryRollback
            ||| default_rule_at(i).event_type is DeploymentRollback
        },
{
    assert(default_rule_at(i).channels[0] == AlertChannel::Slack);
}

/// Every rule is listed once, and none before an older one.
pub proof fn older_rules_come_first(
    listed: Seq<&AlertRule>,
    rules: Seq<AlertRule>,
    i: int,
    j: int,
    k: int,
)
    requires
        lists_rules(listed, rules),
        0 <= i < j < listed.len(),
        0 <= k < rules.len(),
    ensures
        listed.len() == rules.len(),
        listed[i].created_at <= listed[j].created_at,
        exists|n: int| 0 <= n < listed.len() && *(#[trigger] listed[n]) == rules[k],
{
    let keys = creation_times(rules);
    let order = choose|order: Seq<usize>| #[trigger]
        is_stable_order(keys, false, order) && picked(rules, order, listed);
    crate::ordering::lemma_every_item_is_picked(rules, keys, false, order, listed, k);
    assert(crate::ordering::precedes(keys, false, order[i], order[j]));
    assert(*listed[i] == rules[order[i] as int]);
    assert(*listed[j] == rules[order[j] as int]);
}

/// Every alert is listed once, and none before a more recent one.
pub proof fn recent_alerts_come_first(
    listed: Seq<&FiredAlert>,
    fired: Seq<FiredAlert>,
    i: int,
    j: int,
    k: int,
)
    requires
        lists_fired(listed, fired),
        0 <= i < j < listed.len(),
        0 <= k < fired.len(),
    ensures
        listed.len() == fired.len(),
        listed[i].fired_at >= listed[j].fired_at,
        exists|n: int| 0 <= n < listed.len() && *(#[trigger] listed[n]) == fired[k],
{
    let keys = firing_times(fired);
    let order = choose|order: Seq<usize>| #[trigger]
        is_stable_order(keys, true, order) && picked(fired, order, listed);
    crate::ordering::lemma_every_item_is_picked(fired, keys, true, order, listed, k);
    assert(crate::ordering::precedes(keys, true, order[i], order[j]));
    assert(*listed[i] == fired[order[i] as int]);
    assert(*listed[j] == fired[order[j] as int]);
}

proof fn lemma_default_rules_added(
    rules: Map<Seq<char>, RuleModel>,
    ids: Seq<Seq<char>>,
    times: Seq<Time>,
    i: int,
)
    requires
        ids.no_duplicates(),
        times.len() == ids.len(),
        0 <= i < ids.len(),
    ensures
        with_default_rules(rules, ids, times).contains_key(ids[i]),
        with_default_rules(rules, ids, times)[ids[i]] == (RuleModel {
            id: ids[i],
            created_at: times[i],
            ..default_rule_at(i)
        }),
    decreases ids.len(),
{
    if i < ids.len() - 1 {
        lemma_default_rules_added(rules, ids.drop_last(), times.drop_last(), i);
        assert(ids.drop_last()[i] == ids[i]);
        assert(times.drop_last()[i] == times[i]);
        assert(ids[i] != ids.last());
    }
}

/// Once the default rules are there, each critical event but the custom ones is watched by
/// an enabled rule. The ids that were drawn must differ, as drawn ids do.
pub proof fn every_event_is_watched(
    before: Map<Seq<char>, RuleModel>,
    after: Map<Seq<char>, RuleModel>,
    ids: Seq<Seq<char>>,
    times: Seq<Time>,
    event: CriticalEventType,
)
    requires
        seeded(before, after, ids, times),
        ids.no_duplicates(),
        !(event is Custom),
    ensures
        exists|id: Seq<char>|
            {
                &&& #[trigger] after.contains_key(id)
                &&& after[id].event_type == event
                &&& after[id].enabled
                &&& after[id].id == id
                &&& after[id].channels.len() > 0
            },
{
    default_rules_cover_all_events(event);
    let i = choose|i: int|
        0 <= i < DEFAULT_RULE_COUNT && (#[trigger] default_rule_at(i)).event_type == event;
    default_rules_are_ready(i);
    lemma_default_rules_added(before, ids, times, i);
    assert(after.contains_key(ids[i]));
}

/// An alert bears its rule's id, name, event, severity and channels, the message and the
/// snapshot of the metrics.
pub proof fn alerts_bear_their_rule(
    alert: FiredAlert,
    rule: AlertRule,
    metrics: CurrentMetrics,
    message: AlertMessage,
)
    requires
        alert.reports(rule, metrics, message),
    ensures
        alert.rule_id@ == rule.id@,
        alert.rule_name@ == rule.name@,
        alert.event_type == rule.event_type,
        alert.severity == rule.severity,
        alert.message == message,
        alert.metric_snapshot == metrics,
        alert.channels_notified@ == rule.channels@,
{
}

/// The message of an alert shows the figures that it is about.
pub proof fn messages_show_their_figures(message: AlertMessage, figure: Seq<char>, limit: Seq<char>)
    ensures
        message is HighErrorRate || message is VaultReleaseSurge || message is HighApiLatency
            ==> crate::text::occurs(figure, message.text_spec(figure, limit))
            && crate::text::occurs(limit, message.text_spec(figure, limit)),
        message matches AlertMessage::ContractUpgrade { events } ==> crate::text::occurs(
            decimal(events as nat),
            message.text_spec(figure, limit),
        ),
        message matches AlertMessage::CanaryRollback { rollbacks } ==> crate::text::occurs(
            decimal(rollbacks as nat),
            message.text_spec(figure, limit),
        ),
        message matches AlertMessage::DeploymentRollback { rollbacks } ==> crate::text::occurs(
            decimal(rollbacks as nat),
            message.text_spec(figure, limit),
        ),
        message matches AlertMessage::CredentialLifecycleAnomaly { errors, threshold }
            ==> crate::text::occurs(decimal(errors as nat), message.text_spec(figure, limit))
            && crate::text::occurs(decimal(threshold as nat), message.text_spec(figure, limit)),
{
    let text = message.text_spec(figure, limit);
    let none = Seq::<char>::empty();
    match message {
        AlertMessage::HighErrorRate { .. } => {
            let a = "Error rate "@;
            let b = "% exceeds threshold "@;
            let c = "%"@;
            assert(text =~= a + figure + (b + limit + c));
            assert(text =~= (a + figure + b) + limit + c);
            crate::text::lemma_occurs_between(a, figure, b + limit + c);
            crate::text::lemma_occurs_between(a + figure + b, limit, c);
        },
        AlertMessage::VaultReleaseSurge { .. } => {
            let b = " vault releases in evaluation window exceeds threshold "@;
            assert(text =~= none + figure + (b + limit));
            assert(text =~= (figure + b) + limit + none);
            crate::text::lemma_occurs_between(none, figure, b + limit);
            crate::text::lemma_occurs_between(figure + b, limit, none);
        },
        AlertMessage::HighApiLatency { .. } => {
            let a = "p99 latency "@;
            let b = " ms exceeds threshold "@;
            let c = " ms"@;
            assert(text =~= a + figure + (b + limit + c));
            assert(text =~= (a + figure + b) + limit + c);
            crate::text::lemma_occurs_between(a, figure, b + limit + c);
            crate::text::lemma_occurs_between(a + figure + b, limit, c);
        },
        AlertMessage::ContractUpgrade { events } => {
            let b = " contract upgrade event(s) detected in evaluation window"@;
            assert(text =~= none + decimal(events as nat) + b);
            crate::text::lemma_occurs_between(none, decimal(events as nat), b);
        },
        AlertMessage::CanaryRollback { rollbacks } => {
            let b = " canary rollback(s) triggered in evaluation window"@;
            assert(text =~= none + decimal(rollbacks as nat) + b);
            crate::text::lemma_occurs_between(none, decimal(rollbacks as nat), b);
        },
        AlertMessage::DeploymentRollback { rollbacks } => {
            let b = " automated deployment rollback(s) triggered"@;
            assert(text =~= none + decimal(rollbacks as nat) + b);
            crate::text::lemma_occurs_between(none, decimal(rollbacks as nat), b);
        },
        AlertMessage::CredentialLifecycleAnomaly { errors, threshold } => {
            let b = " credential lifecycle errors exceed threshold "@;
            let x = decimal(errors as nat);
            let y = decimal(threshold as nat);
            assert(text =~= none + x + (b + y));
            assert(text =~= (x + b) + y + none);
            crate::text::lemma_occurs_between(none, x, b + y);
            crate::text::lemma_occurs_between(x + b, y, none);
        },
        _ => {},
    }
}

} // verus!
