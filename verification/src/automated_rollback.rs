//! Automated rollback on test failure.
//!
//! A rollback plan carries the tests to run after a deployment. Running them
//! against a snapshot of the metrics either confirms the deployment or, where
//! a blocking test fails, rolls it back and records why.

use vstd::prelude::*;

use crate::clock::{utc_now, wall_clock_shows, Time};
use crate::ids::{is_new_id, new_id};
use crate::measure::Measure;
use crate::ordering::{is_stable_order, pick, pick_values, picked, stable_order};
use crate::table::Table;
use crate::text::{decimal, is_blank, join, join_texts, push_decimal, texts, trimmed};

verus! {

/// The kind of assertion a post-deployment test performs.
#[derive(Debug, Clone, Copy, PartialEq, Eq, Structural)]
pub enum TestKind {
    /// Pass when the error rate is at most the threshold.
    ErrorRateBelow,
    /// Pass when the p99 latency is at most the threshold.
    LatencyP99Below,
    /// Pass when the HTTP success rate is at least the threshold.
    HttpSuccessRateAbove,
    /// Pass when there are at least as many active vaults as the threshold.
    ActiveVaultsAbove,
    /// Always pass (smoke or connectivity test).
    AlwaysPass,
    /// Always fail (exercises the rollback path).
    AlwaysFail,
}

/// A single test in the post-deployment suite.
#[derive(Debug)]
pub struct PostDeploymentTest {
    pub name: String,
    pub kind: TestKind,
    /// Threshold for the assertion (its meaning depends on `kind`).
    pub threshold_value: Measure,
    /// Whether a failure of this test triggers a rollback. Otherwise it is
    /// recorded and does not block.
    pub blocking: bool,
}

impl Clone for PostDeploymentTest {
    fn clone(&self) -> (r: Self)
        ensures
            r == *self,
    {
        PostDeploymentTest {
            name: self.name.clone(),
            kind: self.kind,
            threshold_value: self.threshold_value,
            blocking: self.blocking,
        }
    }
}

/// The contents of a test.
pub struct TestModel {
    pub name: Seq<char>,
    pub kind: TestKind,
    pub threshold_value: Measure,
    pub blocking: bool,
}

impl PostDeploymentTest {
    pub open spec fn view(&self) -> TestModel {
        TestModel {
            name: self.name@,
            kind: self.kind,
            threshold_value: self.threshold_value,
            blocking: self.blocking,
        }
    }
}

/// Result of a single post-deployment test.
#[derive(Debug)]
pub struct TestResult {
    pub test_name: String,
    pub passed: bool,
    pub blocking: bool,
    pub actual_value: Measure,
    pub threshold_value: Measure,
}

impl Clone for TestResult {
    fn clone(&self) -> (r: Self)
        ensures
            r == *self,
    {
        TestResult {
            test_name: self.test_name.clone(),
            passed: self.passed,
            blocking: self.blocking,
            actual_value: self.actual_value,
            threshold_value: self.threshold_value,
        }
    }
}

/// The contents of a test result.
pub struct ResultModel {
    pub test_name: Seq<char>,
    pub passed: bool,
    pub blocking: bool,
    pub actual_value: Measure,
    pub threshold_value: Measure,
}

impl TestResult {
    pub open spec fn view(&self) -> ResultModel {
        ResultModel {
            test_name: self.test_name@,
            passed: self.passed,
            blocking: self.blocking,
            actual_value: self.actual_value,
            threshold_value: self.threshold_value,
        }
    }

    /// The result in words, with its two figures as rendered by the caller.
    pub fn message(&self, actual: &str, threshold: &str) -> (r: String)
        ensures
            r@ == (if self.passed {
                "PASS: "@
            } else {
                "FAIL: "@
            }) + self.test_name@ + " (actual="@ + actual@ + ", threshold="@ + threshold@ + ")"@,
    {
        let mut out = if self.passed { "PASS: ".to_owned() } else { "FAIL: ".to_owned() };
        out.append(self.test_name.as_str());
        out.append(" (actual=");
        out.append(actual);
        out.append(", threshold=");
        out.append(threshold);
        out.append(")");
        out
    }
}

/// Reason categories for a rollback.
#[derive(Debug, Clone, Copy, PartialEq, Eq, Structural)]
pub enum RollbackReason {
    PostDeploymentTestFailure,
    ManualOverride,
    HealthCheckFailure,
    MetricThresholdBreach,
    OperatorRequest,
}

impl RollbackReason {
    pub open spec fn text_spec(self) -> Seq<char> {
        match self {
            RollbackReason::PostDeploymentTestFailure => "post_deployment_test_failure"@,
            RollbackReason::ManualOverride => "manual_override"@,
            RollbackReason::HealthCheckFailure => "health_check_failure"@,
            RollbackReason::MetricThresholdBreach => "metric_threshold_breach"@,
            RollbackReason::OperatorRequest => "operator_request"@,
        }
    }

    /// The name of the reason.
    pub fn text(&self) -> (r: String)
        ensures
            r@ == self.text_spec(),
    {
        match self {
            RollbackReason::PostDeploymentTestFailure => "post_deployment_test_failure".to_owned(),
            RollbackReason::ManualOverride => "manual_override".to_owned(),
            RollbackReason::HealthCheckFailure => "health_check_failure".to_owned(),
            RollbackReason::MetricThresholdBreach => "metric_threshold_breach".to_owned(),
            RollbackReason::OperatorRequest => "operator_request".to_owned(),
        }
    }
}

/// Overall status of a rollback plan.
#[derive(Debug, Clone, Copy, PartialEq, Eq, Structural)]
pub enum RollbackPlanStatus {
    /// Tests have not been run yet.
    Pending,
    /// Tests are currently running.
    Testing,
    /// All blocking tests passed; deployment is healthy.
    Passed,
    /// A blocking test failed; rollback was executed.
    RolledBack,
    /// Rollback was manually requested.
    ManualRollback,
}

/// A single event in a rollback plan's history.
#[derive(Debug)]
pub struct RollbackEvent {
    pub timestamp: Time,
    pub description: String,
}

/// The contents of an event.
pub struct EventModel {
    pub timestamp: Time,
    pub description: Seq<char>,
}

impl RollbackEvent {
    pub open spec fn view(&self) -> EventModel {
        EventModel { timestamp: self.timestamp, description: self.description@ }
    }
}

/// A rollback plan associated with a single deployment.
#[derive(Debug)]
pub struct RollbackPlan {
    pub id: String,
    pub deployment_id: String,
    pub service: String,
    pub version: String,
    pub previous_version: String,
    pub tests: Vec<PostDeploymentTest>,
    pub status: RollbackPlanStatus,
    pub last_test_results: Vec<TestResult>,
    pub history: Vec<RollbackEvent>,
    pub created_at: Time,
    pub updated_at: Time,
}

/// The contents of a plan.
pub struct PlanModel {
    pub id: Seq<char>,
    pub deployment_id: Seq<char>,
    pub service: Seq<char>,
    pub version: Seq<char>,
    pub previous_version: Seq<char>,
    pub tests: Seq<TestModel>,
    pub status: RollbackPlanStatus,
    pub last_test_results: Seq<ResultModel>,
    pub history: Seq<EventModel>,
    pub created_at: Time,
    pub updated_at: Time,
}

/// The contents of tests.
pub open spec fn test_models(tests: Seq<PostDeploymentTest>) -> Seq<TestModel> {
    tests.map_values(|t: PostDeploymentTest| t@)
}

/// The contents of test results.
pub open spec fn result_models(results: Seq<TestResult>) -> Seq<ResultModel> {
    results.map_values(|r: TestResult| r@)
}

impl RollbackPlan {
    pub open spec fn view(&self) -> PlanModel {
        PlanModel {
            id: self.id@,
            deployment_id: self.deployment_id@,
            service: self.service@,
            version: self.version@,
            previous_version: self.previous_version@,
            tests: test_models(self.tests@),
            status: self.status,
            last_test_results: result_models(self.last_test_results@),
            history: self.history@.map_values(|e: RollbackEvent| e@),
            created_at: self.created_at,
            updated_at: self.updated_at,
        }
    }

    /// Adds an event to the history.
    fn push_event(&mut self, description: String, now: Time)
        ensures
            final(self)@ == old(self)@.with_event(description@, now),
    {
        let ghost before = self@;
        self.history.push(RollbackEvent { timestamp: now, description });
        self.updated_at = now;
        assert(self@.history =~= before.with_event(description@, now).history);
    }
}

/// A completed rollback.
#[derive(Debug)]
pub struct RollbackRecord {
    pub id: String,
    pub plan_id: String,
    pub deployment_id: String,
    pub service: String,
    pub rolled_back_version: String,
    pub previous_version: String,
    pub reason: RollbackReason,
    pub reason_detail: String,
    pub test_results: Vec<TestResult>,
    pub rolled_back_at: Time,
    /// Whether downstream alert notifications were emitted.
    pub alert_sent: bool,
}

/// The contents of a record.
pub struct RecordModel {
    pub id: Seq<char>,
    pub plan_id: Seq<char>,
    pub deployment_id: Seq<char>,
    pub service: Seq<char>,
    pub rolled_back_version: Seq<char>,
    pub previous_version: Seq<char>,
    pub reason: RollbackReason,
    pub reason_detail: Seq<char>,
    pub test_results: Seq<ResultModel>,
    pub rolled_back_at: Time,
    pub alert_sent: bool,
}

impl RollbackRecord {
    pub open spec fn view(&self) -> RecordModel {
        RecordModel {
            id: self.id@,
            plan_id: self.plan_id@,
            deployment_id: self.deployment_id@,
            service: self.service@,
            rolled_back_version: self.rolled_back_version@,
            previous_version: self.previous_version@,
            reason: self.reason,
            reason_detail: self.reason_detail@,
            test_results: result_models(self.test_results@),
            rolled_back_at: self.rolled_back_at,
            alert_sent: self.alert_sent,
        }
    }
}

/// A snapshot of the metrics of a deployment.
#[derive(Debug, Clone, Copy, PartialEq, Eq, Structural)]
pub struct DeploymentMetrics {
    pub error_rate: Measure,
    pub latency_p99_ms: Measure,
    pub http_success_rate: Measure,
    pub active_vaults: Measure,
}

/// The plans, by id, and the completed rollbacks.
pub struct RollbackStateInner {
    pub plans: Table<RollbackPlan>,
    pub history: Vec<RollbackRecord>,
}

/// The contents of the state.
pub struct StateModel {
    pub plans: Map<Seq<char>, PlanModel>,
    pub history: Seq<RecordModel>,
}

impl RollbackStateInner {
    pub open spec fn wf(&self) -> bool {
        self.plans.wf()
    }

    pub open spec fn view(&self) -> StateModel {
        StateModel {
            plans: self.plans@.map_values(|p: RollbackPlan| p@),
            history: self.history@.map_values(|r: RollbackRecord| r@),
        }
    }
}

impl Default for RollbackStateInner {
    fn default() -> (r: Self)
        ensures
            r.wf(),
            r@ == (StateModel { plans: Map::empty(), history: Seq::empty() }),
    {
        let r = RollbackStateInner { plans: Table::new(), history: Vec::new() };
        assert(r@.plans =~= Map::empty());
        assert(r@.history =~= Seq::empty());
        r
    }
}

/// The plans and rollbacks of the service.
pub struct RollbackState {
    pub store: RollbackStateInner,
}

impl RollbackState {
    pub fn new() -> (r: Self)
        ensures
            r.store.wf(),
            r.store@ == (StateModel { plans: Map::empty(), history: Seq::empty() }),
    {
        RollbackState { store: RollbackStateInner::default() }
    }
}

impl Default for RollbackState {
    fn default() -> (r: Self)
        ensures
            r.store.wf(),
            r.store@ == (StateModel { plans: Map::empty(), history: Seq::empty() }),
    {
        RollbackState::new()
    }
}

/// The IEEE-754 bits of 0.05.
pub const ERROR_RATE_LIMIT: u64 = 0x3FA9_9999_9999_999A;

/// The IEEE-754 bits of 2000.
pub const LATENCY_LIMIT_MS: u64 = 0x409F_4000_0000_0000;

/// The IEEE-754 bits of 0.95.
pub const SUCCESS_RATE_LIMIT: u64 = 0x3FEE_6666_6666_6666;

/// The tests of a plan that names none.
pub open spec fn default_tests() -> Seq<TestModel> {
    seq![
        TestModel {
            name: "error_rate_below_5pct"@,
            kind: TestKind::ErrorRateBelow,
            threshold_value: Measure { bits: ERROR_RATE_LIMIT },
            blocking: true,
        },
        TestModel {
            name: "p99_latency_below_2000ms"@,
            kind: TestKind::LatencyP99Below,
            threshold_value: Measure { bits: LATENCY_LIMIT_MS },
            blocking: true,
        },
        TestModel {
            name: "http_success_rate_above_95pct"@,
            kind: TestKind::HttpSuccessRateAbove,
            threshold_value: Measure { bits: SUCCESS_RATE_LIMIT },
            blocking: true,
        },
        TestModel {
            name: "active_vaults_smoke"@,
            kind: TestKind::AlwaysPass,
            threshold_value: Measure { bits: 0 },
            blocking: false,
        },
    ]
}

/// The tests of a plan that names none.
pub fn default_post_deployment_tests() -> (r: Vec<PostDeploymentTest>)
    ensures
        test_models(r@) == default_tests(),
{
    let mut tests: Vec<PostDeploymentTest> = Vec::new();
    tests.push(
        PostDeploymentTest {
            name: "error_rate_below_5pct".to_owned(),
            kind: TestKind::ErrorRateBelow,
            threshold_value: Measure { bits: ERROR_RATE_LIMIT },
            blocking: true,
        },
    );
    tests.push(
        PostDeploymentTest {
            name: "p99_latency_below_2000ms".to_owned(),
            kind: TestKind::LatencyP99Below,
            threshold_value: Measure { bits: LATENCY_LIMIT_MS },
            blocking: true,
        },
    );
    tests.push(
        PostDeploymentTest {
            name: "http_success_rate_above_95pct".to_owned(),
            kind: TestKind::HttpSuccessRateAbove,
            threshold_value: Measure { bits: SUCCESS_RATE_LIMIT },
            blocking: true,
        },
    );
    tests.push(
        PostDeploymentTest {
            name: "active_vaults_smoke".to_owned(),
            kind: TestKind::AlwaysPass,
            threshold_value: Measure { bits: 0 },
            blocking: false,
        },
    );
    assert(test_models(tests@) =~= default_tests());
    tests
}

/// The value that a test looks at.
pub open spec fn observed(kind: TestKind, metrics: DeploymentMetrics) -> Measure {
    match kind {
        TestKind::ErrorRateBelow => metrics.error_rate,
        TestKind::LatencyP99Below => metrics.latency_p99_ms,
        TestKind::HttpSuccessRateAbove => metrics.http_success_rate,
        TestKind::ActiveVaultsAbove => metrics.active_vaults,
        TestKind::AlwaysPass => Measure { bits: 0 },
        TestKind::AlwaysFail => Measure { bits: 0 },
    }
}

/// Whether a test passes on the value it looks at.
pub open spec fn passes(kind: TestKind, actual: Measure, threshold: Measure) -> bool {
    match kind {
        TestKind::ErrorRateBelow => threshold.ge_spec(actual),
        TestKind::LatencyP99Below => threshold.ge_spec(actual),
        TestKind::HttpSuccessRateAbove => actual.ge_spec(threshold),
        TestKind::ActiveVaultsAbove => actual.ge_spec(threshold),
        TestKind::AlwaysPass => true,
        TestKind::AlwaysFail => false,
    }
}

/// The result of a test.
pub open spec fn outcome(test: TestModel, metrics: DeploymentMetrics) -> ResultModel {
    let actual = observed(test.kind, metrics);
    ResultModel {
        test_name: test.name,
        passed: passes(test.kind, actual, test.threshold_value),
        blocking: test.blocking,
        actual_value: actual,
        threshold_value: test.threshold_value,
    }
}

/// Evaluates a single test against a snapshot of the metrics.
pub fn run_test(test: &PostDeploymentTest, metrics: &DeploymentMetrics) -> (r: TestResult)
    ensures
        r@ == outcome(test@, *metrics),
{
    let zero = Measure { bits: 0 };
    let (passed, actual) = match test.kind {
        TestKind::ErrorRateBelow => (
            test.threshold_value.ge(&metrics.error_rate),
            metrics.error_rate,
        ),
        TestKind::LatencyP99Below => (
            test.threshold_value.ge(&metrics.latency_p99_ms),
            metrics.latency_p99_ms,
        ),
        TestKind::HttpSuccessRateAbove => (
            metrics.http_success_rate.ge(&test.threshold_value),
            metrics.http_success_rate,
        ),
        TestKind::ActiveVaultsAbove => (
            metrics.active_vaults.ge(&test.threshold_value),
            metrics.active_vaults,
        ),
        TestKind::AlwaysPass => (true, zero),
        TestKind::AlwaysFail => (false, zero),
    };
    TestResult {
        test_name: test.name.clone(),
        passed,
        blocking: test.blocking,
        actual_value: actual,
        threshold_value: test.threshold_value,
    }
}

/// The results of tests, in their order.
pub open spec fn outcomes(tests: Seq<TestModel>, metrics: DeploymentMetrics) -> Seq<ResultModel> {
    tests.map_values(|t: TestModel| outcome(t, metrics))
}

/// The results that passed.
pub open spec fn passed(results: Seq<ResultModel>) -> Seq<ResultModel> {
    results.filter(|r: ResultModel| r.passed)
}

/// The results that call for a rollback: failures of blocking tests.
pub open spec fn blockers(results: Seq<ResultModel>) -> Seq<ResultModel> {
    results.filter(|r: ResultModel| !r.passed && r.blocking)
}

/// Why a plan was rolled back: the names of the blocking tests that failed.
pub open spec fn failure_detail(results: Seq<ResultModel>) -> Seq<char> {
    "blocking tests failed: "@ + join(
        blockers(results).map_values(|r: ResultModel| r.test_name),
        ", "@,
    )
}

impl PlanModel {
    /// The plan with an event added to its history.
    pub open spec fn with_event(self, description: Seq<char>, now: Time) -> PlanModel {
        PlanModel {
            history: self.history.push(EventModel { timestamp: now, description }),
            updated_at: now,
            ..self
        }
    }

    /// A plan that was rolled back cannot be tested again.
    pub open spec fn is_over(self) -> bool {
        self.status == RollbackPlanStatus::RolledBack || self.status
            == RollbackPlanStatus::ManualRollback
    }

    /// The plan after its tests were run: rolled back where a blocking test
    /// failed, passed otherwise.
    pub open spec fn tested(self, metrics: DeploymentMetrics, now: Time) -> PlanModel {
        let results = outcomes(self.tests, metrics);
        let started = PlanModel { last_test_results: results, ..self.with_event(
            "post-deployment tests started"@,
            now,
        ) };
        if blockers(results).len() > 0 {
            PlanModel { status: RollbackPlanStatus::RolledBack, ..started }.with_event(
                "automated rollback triggered: "@ + failure_detail(results),
                now,
            )
        } else {
            PlanModel { status: RollbackPlanStatus::Passed, ..started }.with_event(
                "all blocking tests passed ("@ + decimal(passed(results).len()) + "/"@ + decimal(
                    results.len(),
                ) + " total)"@,
                now,
            )
        }
    }

    /// The record of a rollback of this plan.
    pub open spec fn record(
        self,
        id: Seq<char>,
        reason: RollbackReason,
        detail: Seq<char>,
        results: Seq<ResultModel>,
        now: Time,
    ) -> RecordModel {
        RecordModel {
            id,
            plan_id: self.id,
            deployment_id: self.deployment_id,
            service: self.service,
            rolled_back_version: self.version,
            previous_version: self.previous_version,
            reason,
            reason_detail: detail,
            test_results: results,
            rolled_back_at: now,
            alert_sent: true,
        }
    }

    /// The plan after a rollback on request.
    pub open spec fn rolled_back_manually(self, detail: Seq<char>, now: Time) -> PlanModel {
        PlanModel { status: RollbackPlanStatus::ManualRollback, ..self }.with_event(
            "manual rollback triggered: "@ + detail,
            now,
        )
    }
}

/// A request for a plan.
#[derive(Debug)]
pub struct CreateRollbackPlanRequest {
    pub deployment_id: String,
    pub service: String,
    pub version: String,
    pub previous_version: String,
    /// The test suite; the default suite if absent.
    pub tests: Option<Vec<PostDeploymentTest>>,
}

/// Why a request for a plan is refused.
#[derive(Debug, Clone, Copy, PartialEq, Eq, Structural)]
pub enum PlanError {
    ServiceRequired,
    VersionsRequired,
}

impl PlanError {
    pub open spec fn message_spec(self) -> Seq<char> {
        match self {
            PlanError::ServiceRequired => "service name is required"@,
            PlanError::VersionsRequired => "version and previous_version are required"@,
        }
    }

    /// The error in words.
    pub fn message(&self) -> (r: String)
        ensures
            r@ == self.message_spec(),
    {
        match self {
            PlanError::ServiceRequired => "service name is required".to_owned(),
            PlanError::VersionsRequired => "version and previous_version are required".to_owned(),
        }
    }
}

/// What is wrong with a request for a plan, if anything.
pub open spec fn plan_fault(body: CreateRollbackPlanRequest) -> Option<PlanError> {
    if trimmed(body.service@).len() == 0 {
        Some(PlanError::ServiceRequired)
    } else if trimmed(body.version@).len() == 0 || trimmed(body.previous_version@).len() == 0 {
        Some(PlanError::VersionsRequired)
    } else {
        None
    }
}

/// The plan that a request asks for.
pub open spec fn requested_plan(
    body: CreateRollbackPlanRequest,
    id: Seq<char>,
    now: Time,
) -> PlanModel {
    let tests = match body.tests {
        Some(tests) => test_models(tests@),
        None => default_tests(),
    };
    PlanModel {
        id,
        deployment_id: body.deployment_id@,
        service: body.service@,
        version: body.version@,
        previous_version: body.previous_version@,
        tests,
        status: RollbackPlanStatus::Pending,
        last_test_results: Seq::empty(),
        history: Seq::empty(),
        created_at: now,
        updated_at: now,
    }.with_event(
        "rollback plan created for version "@ + body.version@ + "; "@ + decimal(tests.len())
            + " tests registered"@,
        now,
    )
}

/// What a request for a plan does to the state and what it is answered.
pub open spec fn plan_created(
    before: StateModel,
    after: StateModel,
    body: CreateRollbackPlanRequest,
    id: Seq<char>,
    now: Time,
    r: Result<String, PlanError>,
) -> bool {
    match r {
        Ok(new_id) => {
            &&& plan_fault(body) is None
            &&& new_id@ == id
            &&& after == (StateModel {
                plans: before.plans.insert(id, requested_plan(body, id, now)),
                history: before.history,
            })
        },
        Err(e) => plan_fault(body) == Some(e) && after == before,
    }
}

/// Registers a plan with the given id at the time `now`, and returns the id.
pub fn create_rollback_plan_with(
    state: &mut RollbackStateInner,
    body: CreateRollbackPlanRequest,
    id: String,
    now: Time,
) -> (r: Result<String, PlanError>)
    requires
        old(state).wf(),
    ensures
        final(state).wf(),
        plan_created(old(state)@, final(state)@, body, id@, now, r),
{
    if is_blank(body.service.as_str()) {
        return Err(PlanError::ServiceRequired);
    }
    if is_blank(body.version.as_str()) || is_blank(body.previous_version.as_str()) {
        return Err(PlanError::VersionsRequired);
    }
    let ghost before = state@;
    let tests = match body.tests {
        Some(tests) => tests,
        None => default_post_deployment_tests(),
    };
    let mut description = "rollback plan created for version ".to_owned();
    description.append(body.version.as_str());
    description.append("; ");
    push_decimal(&mut description, tests.len() as u128);
    description.append(" tests registered");
    let key = id.clone();
    let mut plan = RollbackPlan {
        id,
        deployment_id: body.deployment_id,
        service: body.service,
        version: body.version,
        previous_version: body.previous_version,
        tests,
        status: RollbackPlanStatus::Pending,
        last_test_results: Vec::new(),
        history: Vec::new(),
        created_at: now,
        updated_at: now,
    };
    assert(plan@.last_test_results =~= Seq::empty());
    assert(plan@.history =~= Seq::empty());
    plan.push_event(description, now);
    assert(plan@ == requested_plan(body, id@, now));
    let _previous = state.plans.insert(key.clone(), plan);
    assert(state@.plans =~= before.plans.insert(id@, requested_plan(body, id@, now)));
    Ok(key)
}

/// Registers a plan and returns its id.
pub fn create_rollback_plan(
    state: &mut RollbackStateInner,
    body: CreateRollbackPlanRequest,
) -> (r: Result<String, PlanError>)
    requires
        old(state).wf(),
    ensures
        final(state).wf(),
        exists|id: Seq<char>, now: Time|
            wall_clock_shows(now) && is_new_id(id) && #[trigger] plan_created(
                old(state)@,
                final(state)@,
                body,
                id,
                now,
                r,
            ),
{
    let id = new_id();
    let now = utc_now();
    create_rollback_plan_with(state, body, id, now)
}

/// The times at which plans were created.
pub open spec fn plan_times(plans: Seq<RollbackPlan>) -> Seq<i128> {
    plans.map_values(|p: RollbackPlan| p.created_at)
}

/// The plans, the newest first.
pub open spec fn lists_plans(listed: Seq<&RollbackPlan>, plans: Seq<RollbackPlan>) -> bool {
    exists|order: Seq<usize>| #[trigger]
        is_stable_order(plan_times(plans), true, order) && picked(plans, order, listed)
}

/// All plans, the newest first.
pub fn list_rollback_plans(state: &RollbackStateInner) -> (r: Vec<&RollbackPlan>)
    requires
        state.wf(),
    ensures
        lists_plans(r@, state.plans.values()),
{
    let mut times: Vec<i128> = Vec::new();
    let mut i: usize = 0;
    let n = state.plans.len();
    while i < n
        invariant
            i <= n,
            state.wf(),
            n == state.plans.keys().len(),
            times@ == plan_times(state.plans.values()).take(i as int),
        decreases n - i,
    {
        times.push(state.plans.value_at(i).created_at);
        i = i + 1;
        assert(times@ =~= plan_times(state.plans.values()).take(i as int));
    }
    assert(times@ =~= plan_times(state.plans.values()));
    let order = stable_order(&times, true);
    pick_values(&state.plans, &order)
}

/// The plan of an id.
pub fn get_rollback_plan<'a>(state: &'a RollbackStateInner, id: &str) -> (r: Option<&'a RollbackPlan>)
    requires
        state.wf(),
    ensures
        match r {
            Some(plan) => state.plans@.contains_key(id@) && *plan == state.plans@[id@],
            None => !state.plans@.contains_key(id@),
        },
{
    state.plans.get(id)
}

/// The outcome of running the tests of a plan.
#[derive(Debug)]
pub struct RunTestsResponse {
    pub plan_id: String,
    pub tests_run: usize,
    pub passed: usize,
    pub failed: usize,
    pub rollback_triggered: bool,
    pub results: Vec<TestResult>,
    pub status: RollbackPlanStatus,
}

/// Why the tests of a plan were not run.
#[derive(Debug, Clone, Copy, PartialEq, Eq, Structural)]
pub enum RunTestsError {
    /// There is no such plan.
    PlanNotFound,
    /// The plan has already been rolled back.
    AlreadyRolledBack { status: RollbackPlanStatus },
}

/// What running the tests of a plan does to the state and what it returns.
pub open spec fn tests_run(
    before: StateModel,
    after: StateModel,
    id: Seq<char>,
    metrics: DeploymentMetrics,
    record_id: Seq<char>,
    now: Time,
    r: Result<RunTestsResponse, RunTestsError>,
) -> bool {
    match r {
        Err(RunTestsError::PlanNotFound) => !before.plans.contains_key(id) && after == before,
        Err(RunTestsError::AlreadyRolledBack { status }) => before.plans.contains_key(id)
            && before.plans[id].is_over() && status == before.plans[id].status && after == before,
        Ok(response) => {
            let plan = before.plans[id];
            let results = outcomes(plan.tests, metrics);
            let rollback = blockers(results).len() > 0;
            &&& before.plans.contains_key(id)
            &&& !plan.is_over()
            &&& after.plans == before.plans.insert(id, plan.tested(metrics, now))
            &&& after.history == if rollback {
                before.history.push(
                    plan.record(
                        record_id,
                        RollbackReason::PostDeploymentTestFailure,
                        failure_detail(results),
                        results,
                        now,
                    ),
                )
            } else {
                before.history
            }
            &&& response.plan_id@ == id
            &&& response.tests_run == results.len()
            &&& response.passed == passed(results).len()
            &&& response.failed == results.len() - passed(results).len()
            &&& response.rollback_triggered == rollback
            &&& result_models(response.results@) == results
            &&& response.status == if rollback {
                RollbackPlanStatus::RolledBack
            } else {
                RollbackPlanStatus::Passed
            }
        },
    }
}

/// The results of all tests of a suite.
fn run_suite(tests: &Vec<PostDeploymentTest>, metrics: &DeploymentMetrics) -> (r: Vec<TestResult>)
    ensures
        result_models(r@) == outcomes(test_models(tests@), *metrics),
{
    let mut results: Vec<TestResult> = Vec::new();
    let ghost all = outcomes(test_models(tests@), *metrics);
    let mut i: usize = 0;
    while i < tests.len()
        invariant
            i <= tests.len(),
            all == outcomes(test_models(tests@), *metrics),
            result_models(results@) == all.take(i as int),
        decreases tests.len() - i,
    {
        let ghost earlier = result_models(results@);
        results.push(run_test(&tests[i], metrics));
        assert(result_models(results@) =~= earlier.push(all[i as int]));
        i = i + 1;
        assert(result_models(results@) =~= all.take(i as int));
    }
    assert(all.take(i as int) =~= all);
    results
}

/// How many results passed, and the names of the blocking tests that failed.
fn summarise(results: &Vec<TestResult>) -> (r: (usize, Vec<String>))
    ensures
        r.0 == passed(result_models(results@)).len(),
        r.0 <= results.len(),
        texts(r.1@) == blockers(result_models(results@)).map_values(|m: ResultModel| m.test_name),
        r.1.len() == blockers(result_models(results@)).len(),
{
    let ghost all = result_models(results@);
    let mut count: usize = 0;
    let mut names: Vec<String> = Vec::new();
    let mut i: usize = 0;
    proof {
        reveal(Seq::filter);
        assert(texts(names@) =~= blockers(all.take(0)).map_values(|m: ResultModel| m.test_name));
    }
    while i < results.len()
        invariant
            i <= results.len(),
            all == result_models(results@),
            count <= i,
            count == passed(all.take(i as int)).len(),
            texts(names@) == blockers(all.take(i as int)).map_values(|m: ResultModel| m.test_name),
        decreases results.len() - i,
    {
        let result = &results[i];
        let ghost earlier = texts(names@);
        proof {
            reveal(Seq::filter);
            assert(all.take(i + 1).drop_last() =~= all.take(i as int));
            assert(all.take(i + 1).last() == result@);
        }
        if result.passed {
            count = count + 1;
        }
        if !result.passed && result.blocking {
            names.push(result.test_name.clone());
            assert(texts(names@) =~= earlier.push(result.test_name@));
        }
        assert(texts(names@) =~= blockers(all.take(i + 1)).map_values(
            |m: ResultModel| m.test_name,
        ));
        i = i + 1;
    }
    assert(all.take(i as int) =~= all);
    assert(texts(names@).len() == names.len());
    (count, names)
}

/// Runs the tests of a plan at the time `now` and rolls the deployment back,
/// with the given id for the record, if a blocking test fails.
pub fn run_post_deployment_tests_with(
    state: &mut RollbackStateInner,
    id: &str,
    metrics: &DeploymentMetrics,
    record_id: String,
    now: Time,
) -> (r: Result<RunTestsResponse, RunTestsError>)
    requires
        old(state).wf(),
    ensures
        final(state).wf(),
        tests_run(old(state)@, final(state)@, id@, *metrics, record_id@, now, r),
{
    let ghost before = state@;
    match state.plans.get_mut(id) {
        None => Err(RunTestsError::PlanNotFound),
        Some(plan) => {
            let ghost model = plan@;
            if plan.status == RollbackPlanStatus::RolledBack || plan.status
                == RollbackPlanStatus::ManualRollback {
                let status = plan.status;
                assert(state@.plans =~= before.plans);
                return Err(RunTestsError::AlreadyRolledBack { status });
            }
            plan.push_event("post-deployment tests started".to_owned(), now);
            let results = run_suite(&plan.tests, metrics);
            let (count, names) = summarise(&results);
            plan.last_test_results = results.clone();
            assert(plan.last_test_results@ =~= results@);
            let tests_run = results.len();
            let rollback_triggered = !names.is_empty();
            let mut record: Option<RollbackRecord> = None;
            if rollback_triggered {
                let mut detail = "blocking tests failed: ".to_owned();
                let joined = join_texts(&names, ", ");
                detail.append(joined.as_str());
                plan.status = RollbackPlanStatus::RolledBack;
                let mut description = "automated rollback triggered: ".to_owned();
                description.append(detail.as_str());
                plan.push_event(description, now);
                let kept = results.clone();
                assert(kept@ =~= results@);
                record = Some(
                    RollbackRecord {
                        id: record_id,
                        plan_id: plan.id.clone(),
                        deployment_id: plan.deployment_id.clone(),
                        service: plan.service.clone(),
                        rolled_back_version: plan.version.clone(),
                        previous_version: plan.previous_version.clone(),
                        reason: RollbackReason::PostDeploymentTestFailure,
                        reason_detail: detail,
                        test_results: kept,
                        rolled_back_at: now,
                        alert_sent: true,
                    },
                );
            } else {
                plan.status = RollbackPlanStatus::Passed;
                let mut description = "all blocking tests passed (".to_owned();
                push_decimal(&mut description, count as u128);
                description.append("/");
                push_decimal(&mut description, tests_run as u128);
                description.append(" total)");
                plan.push_event(description, now);
            }
            let status = plan.status;
            assert(plan@ == model.tested(*metrics, now));
            assert(state@.plans =~= before.plans.insert(id@, model.tested(*metrics, now)));
            if let Some(record) = record {
                state.history.push(record);
                assert(state@.history =~= before.history.push(record@));
            }
            Ok(
                RunTestsResponse {
                    plan_id: id.to_owned(),
                    tests_run,
                    passed: count,
                    failed: tests_run - count,
                    rollback_triggered,
                    results,
                    status,
                },
            )
        },
    }
}

/// Runs the tests of a plan and rolls the deployment back if a blocking test
/// fails.
pub fn run_post_deployment_tests(
    state: &mut RollbackStateInner,
    id: &str,
    metrics: &DeploymentMetrics,
) -> (r: Result<RunTestsResponse, RunTestsError>)
    requires
        old(state).wf(),
    ensures
        final(state).wf(),
        exists|record_id: Seq<char>, now: Time|
            wall_clock_shows(now) && is_new_id(record_id) && #[trigger] tests_run(
                old(state)@,
                final(state)@,
                id@,
                *metrics,
                record_id,
                now,
                r,
            ),
{
    let record_id = new_id();
    let now = utc_now();
    run_post_deployment_tests_with(state, id, metrics, record_id, now)
}

/// What a rollback on request does to the state; whether there was a plan.
pub open spec fn rollback_triggered(
    before: StateModel,
    after: StateModel,
    id: Seq<char>,
    detail: Seq<char>,
    record_id: Seq<char>,
    now: Time,
    r: bool,
) -> bool {
    if before.plans.contains_key(id) {
        let plan = before.plans[id];
        r && after == (StateModel {
            plans: before.plans.insert(id, plan.rolled_back_manually(detail, now)),
            history: before.history.push(
                plan.record(
                    record_id,
                    RollbackReason::OperatorRequest,
                    detail,
                    Seq::empty(),
                    now,
                ),
            ),
        })
    } else {
        !r && after == before
    }
}

/// Rolls a deployment back on request at the time `now`, without running
/// tests; whether there was a plan.
pub fn trigger_rollback_with(
    state: &mut RollbackStateInner,
    id: &str,
    reason_detail: &str,
    record_id: String,
    now: Time,
) -> (r: bool)
    requires
        old(state).wf(),
    ensures
        final(state).wf(),
        rollback_triggered(
            old(state)@,
            final(state)@,
            id@,
            reason_detail@,
            record_id@,
            now,
            r,
        ),
{
    let ghost before = state@;
    match state.plans.get_mut(id) {
        None => false,
        Some(plan) => {
            let ghost model = plan@;
            plan.status = RollbackPlanStatus::ManualRollback;
            let mut description = "manual rollback triggered: ".to_owned();
            description.append(reason_detail);
            plan.push_event(description, now);
            let record = RollbackRecord {
                id: record_id,
                plan_id: plan.id.clone(),
                deployment_id: plan.deployment_id.clone(),
                service: plan.service.clone(),
                rolled_back_version: plan.version.clone(),
                previous_version: plan.previous_version.clone(),
                reason: RollbackReason::OperatorRequest,
                reason_detail: reason_detail.to_owned(),
                test_results: Vec::new(),
                rolled_back_at: now,
                alert_sent: true,
            };
            assert(record@.test_results =~= Seq::empty());
            state.history.push(record);
            assert(state@.history =~= before.history.push(record@));
            assert(state@.plans =~= before.plans.insert(
                id@,
                model.rolled_back_manually(reason_detail@, now),
            ));
            true
        },
    }
}

/// Rolls a deployment back on request, without running tests; whether there
/// was a plan.
pub fn trigger_rollback(state: &mut RollbackStateInner, id: &str, reason_detail: &str) -> (r: bool)
    requires
        old(state).wf(),
    ensures
        final(state).wf(),
        exists|record_id: Seq<char>, now: Time|
            wall_clock_shows(now) && is_new_id(record_id) && #[trigger] rollback_triggered(
                old(state)@,
                final(state)@,
                id@,
                reason_detail@,
                record_id,
                now,
                r,
            ),
{
    let record_id = new_id();
    let now = utc_now();
    trigger_rollback_with(state, id, reason_detail, record_id, now)
}

/// The times of rollbacks.
pub open spec fn record_times(records: Seq<RollbackRecord>) -> Seq<i128> {
    records.map_values(|r: RollbackRecord| r.rolled_back_at)
}

/// The rollbacks, the most recent first.
pub open spec fn lists_records(listed: Seq<&RollbackRecord>, records: Seq<RollbackRecord>) -> bool {
    exists|order: Seq<usize>| #[trigger]
        is_stable_order(record_times(records), true, order) && picked(records, order, listed)
}

/// All rollbacks, the most recent first.
pub fn list_rollback_history(state: &RollbackStateInner) -> (r: Vec<&RollbackRecord>)
    ensures
        lists_records(r@, state.history@),
{
    let mut times: Vec<i128> = Vec::new();
    let mut i: usize = 0;
    while i < state.history.len()
        invariant
            i <= state.history.len(),
            times@ == record_times(state.history@).take(i as int),
        decreases state.history.len() - i,
    {
        times.push(state.history[i].rolled_back_at);
        i = i + 1;
        assert(times@ =~= record_times(state.history@).take(i as int));
    }
    assert(times@ =~= record_times(state.history@));
    let order = stable_order(&times, true);
    pick(&state.history, &order)
}

/// A deployment is rolled back after its tests if and only if a blocking test
/// failed; failures of other tests do not matter.
pub proof fn rollback_needs_a_blocking_failure(
    plan: PlanModel,
    metrics: DeploymentMetrics,
    now: Time,
)
    ensures
        plan.tested(metrics, now).is_over() <==> exists|i: int|
            0 <= i < plan.tests.len() && (#[trigger] plan.tests[i]).blocking && !outcome(
                plan.tests[i],
                metrics,
            ).passed,
        plan.tested(metrics, now).status == RollbackPlanStatus::Passed
            || plan.tested(metrics, now).status == RollbackPlanStatus::RolledBack,
{
    let results = outcomes(plan.tests, metrics);
    lemma_blockers(results);
    if blockers(results).len() > 0 {
        let i = choose|i: int|
            0 <= i < results.len() && !(#[trigger] results[i]).passed && results[i].blocking;
        assert(results[i] == outcome(plan.tests[i], metrics));
    }
    assert forall|i: int|
        0 <= i < plan.tests.len() && (#[trigger] plan.tests[i]).blocking && !outcome(
            plan.tests[i],
            metrics,
        ).passed implies blockers(results).len() > 0 by {
        assert(results[i] == outcome(plan.tests[i], metrics));
    }
}

/// There are blockers where a result failed a blocking test.
proof fn lemma_blockers(results: Seq<ResultModel>)
    ensures
        blockers(results).len() > 0 <==> exists|i: int|
            0 <= i < results.len() && !(#[trigger] results[i]).passed && results[i].blocking,
    decreases results.len(),
{
    reveal(Seq::filter);
    if results.len() > 0 {
        let rest = results.drop_last();
        lemma_blockers(rest);
        assert(results[results.len() - 1] == results.last());
        if blockers(rest).len() > 0 {
            let i = choose|i: int|
                0 <= i < rest.len() && !(#[trigger] rest[i]).passed && rest[i].blocking;
            assert(results[i] == rest[i]);
        }
        assert forall|i: int|
            0 <= i < results.len() && !(#[trigger] results[i]).passed && results[i].blocking implies blockers(
            results,
        ).len() > 0 by {
            if i < rest.len() {
                assert(rest[i] == results[i]);
            }
        }
    }
}

/// A plan that was rolled back, by tests or on request, refuses to be tested.
pub proof fn rolled_back_plans_stay_rolled_back(
    before: StateModel,
    after: StateModel,
    id: Seq<char>,
    metrics: DeploymentMetrics,
    record_id: Seq<char>,
    now: Time,
    r: Result<RunTestsResponse, RunTestsError>,
)
    requires
        before.plans.contains_key(id),
        before.plans[id].is_over(),
        tests_run(before, after, id, metrics, record_id, now, r),
    ensures
        r == Err::<RunTestsResponse, RunTestsError>(
            RunTestsError::AlreadyRolledBack { status: before.plans[id].status },
        ),
        after == before,
{
}

/// A test passes exactly where its metric is on the right side of its threshold: an
/// error rate or a latency at most the threshold, a success rate or a number of vaults
/// at least the threshold. The result bears the metric and the threshold.
pub proof fn tests_hold_metrics_against_thresholds(test: TestModel, metrics: DeploymentMetrics)
    ensures
        test.kind == TestKind::ErrorRateBelow ==> {
            &&& outcome(test, metrics).actual_value == metrics.error_rate
            &&& outcome(test, metrics).passed <==> test.threshold_value.ge_spec(metrics.error_rate)
        },
        test.kind == TestKind::LatencyP99Below ==> {
            &&& outcome(test, metrics).actual_value == metrics.latency_p99_ms
            &&& outcome(test, metrics).passed <==> test.threshold_value.ge_spec(
                metrics.latency_p99_ms,
            )
        },
        test.kind == TestKind::HttpSuccessRateAbove ==> {
            &&& outcome(test, metrics).actual_value == metrics.http_success_rate
            &&& outcome(test, metrics).passed <==> metrics.http_success_rate.ge_spec(
                test.threshold_value,
            )
        },
        test.kind == TestKind::ActiveVaultsAbove ==> {
            &&& outcome(test, metrics).actual_value == metrics.active_vaults
            &&& outcome(test, metrics).passed <==> metrics.active_vaults.ge_spec(
                test.threshold_value,
            )
        },
        test.kind == TestKind::AlwaysPass ==> outcome(test, metrics).passed,
        test.kind == TestKind::AlwaysFail ==> !outcome(test, metrics).passed,
        outcome(test, metrics).test_name == test.name,
        outcome(test, metrics).blocking == test.blocking,
        outcome(test, metrics).threshold_value == test.threshold_value,
{
}

/// Better metrics never turn a pass into a failure: a lower error rate or latency, a
/// higher success rate or more vaults.
pub proof fn better_metrics_keep_passing(
    test: TestModel,
    metrics: DeploymentMetrics,
    better: DeploymentMetrics,
)
    requires
        metrics.error_rate.ge_spec(better.error_rate),
        metrics.latency_p99_ms.ge_spec(better.latency_p99_ms),
        better.http_success_rate.ge_spec(metrics.http_success_rate),
        better.active_vaults.ge_spec(metrics.active_vaults),
    ensures
        outcome(test, metrics).passed ==> outcome(test, better).passed,
{
}

/// Running the tests of a plan rolls the deployment back exactly where a blocking test
/// fails. The answer and the plan then say so, and a record names the deployment, the
/// versions and the reason; otherwise the plan has passed and nothing is recorded.
/// Either way one result is kept for each test, and no other plan changes.
pub proof fn failed_blocking_tests_roll_back(
    before: StateModel,
    after: StateModel,
    id: Seq<char>,
    metrics: DeploymentMetrics,
    record_id: Seq<char>,
    now: Time,
    response: RunTestsResponse,
    other: Seq<char>,
)
    requires
        tests_run(before, after, id, metrics, record_id, now, Ok(response)),
        other != id,
    ensures
        ({
            let plan = before.plans[id];
            let failing = exists|i: int|
                0 <= i < plan.tests.len() && (#[trigger] plan.tests[i]).blocking && !outcome(
                    plan.tests[i],
                    metrics,
                ).passed;
            &&& response.rollback_triggered <==> failing
            &&& failing ==> {
                let record = after.history.last();
                &&& after.plans[id].status == RollbackPlanStatus::RolledBack
                &&& response.status == RollbackPlanStatus::RolledBack
                &&& after.history.len() == before.history.len() + 1
                &&& after.history.drop_last() == before.history
                &&& record.plan_id == plan.id
                &&& record.deployment_id == plan.deployment_id
                &&& record.service == plan.service
                &&& record.rolled_back_version == plan.version
                &&& record.previous_version == plan.previous_version
                &&& record.reason == RollbackReason::PostDeploymentTestFailure
                &&& record.rolled_back_at == now
                &&& record.alert_sent
            }
            &&& !failing ==> {
                &&& after.plans[id].status == RollbackPlanStatus::Passed
                &&& response.status == RollbackPlanStatus::Passed
                &&& after.history == before.history
            }
            &&& response.tests_run == plan.tests.len()
            &&& response.passed + response.failed == response.tests_run
            &&& response.failed == 0 <==> forall|i: int|
                0 <= i < plan.tests.len() ==> outcome(
                    #[trigger] plan.tests[i],
                    metrics,
                ).passed
            &&& response.results.len() == plan.tests.len()
            &&& forall|i: int|
                0 <= i < plan.tests.len() ==> (#[trigger] response.results[i])@ == outcome(
                    plan.tests[i],
                    metrics,
                )
            &&& after.plans[id].tests == plan.tests
            &&& after.plans[id].version == plan.version
            &&& after.plans.contains_key(other) == before.plans.contains_key(other)
            &&& before.plans.contains_key(other) ==> after.plans[other] == before.plans[other]
        }),
{
    let plan = before.plans[id];
    let results = outcomes(plan.tests, metrics);
    lemma_blockers(results);
    lemma_all_passed(results);
    if blockers(results).len() > 0 {
        let i = choose|i: int|
            0 <= i < results.len() && !(#[trigger] results[i]).passed && results[i].blocking;
        assert(results[i] == outcome(plan.tests[i], metrics));
    }
    assert forall|i: int| 0 <= i < plan.tests.len() implies #[trigger] outcome(
        plan.tests[i],
        metrics,
    ) == results[i] by {}
    assert forall|i: int| 0 <= i < plan.tests.len() implies (#[trigger] response.results[i])@
        == outcome(plan.tests[i], metrics) by {
        assert(result_models(response.results@)[i] == response.results[i]@);
    }
    if forall|i: int|
        0 <= i < plan.tests.len() ==> outcome(#[trigger] plan.tests[i], metrics).passed {
        assert forall|i: int| 0 <= i < results.len() implies (#[trigger] results[i]).passed by {
            assert(results[i] == outcome(plan.tests[i], metrics));
        }
    }
    if blockers(results).len() > 0 {
        assert(after.history.drop_last() =~= before.history);
    }
}

proof fn lemma_all_passed(results: Seq<ResultModel>)
    ensures
        passed(results).len() <= results.len(),
        passed(results).len() == results.len() <==> forall|i: int|
            0 <= i < results.len() ==> (#[trigger] results[i]).passed,
    decreases results.len(),
{
    reveal(Seq::filter);
    if results.len() > 0 {
        let rest = results.drop_last();
        lemma_all_passed(rest);
        assert(results[results.len() - 1] == results.last());
        if forall|i: int| 0 <= i < results.len() ==> (#[trigger] results[i]).passed {
            assert forall|i: int| 0 <= i < rest.len() implies (#[trigger] rest[i]).passed by {
                assert(rest[i] == results[i]);
            }
        }
        if passed(results).len() == results.len() {
            assert(results.last().passed);
            assert forall|i: int| 0 <= i < results.len() implies (#[trigger] results[i]).passed by {
                if i < rest.len() {
                    assert(rest[i] == results[i]);
                }
            }
        }
    }
}

/// A rollback on request marks the plan and records the deployment and the reason that
/// was given; no other plan changes.
pub proof fn requested_rollbacks_are_recorded(
    before: StateModel,
    after: StateModel,
    id: Seq<char>,
    detail: Seq<char>,
    record_id: Seq<char>,
    now: Time,
    r: bool,
    other: Seq<char>,
)
    requires
        rollback_triggered(before, after, id, detail, record_id, now, r),
        other != id,
    ensures
        r <==> before.plans.contains_key(id),
        !r ==> after == before,
        r ==> {
            let record = after.history.last();
            &&& after.plans[id].status == RollbackPlanStatus::ManualRollback
            &&& after.history.len() == before.history.len() + 1
            &&& record.plan_id == before.plans[id].id
            &&& record.deployment_id == before.plans[id].deployment_id
            &&& record.rolled_back_version == before.plans[id].version
            &&& record.previous_version == before.plans[id].previous_version
            &&& record.reason == RollbackReason::OperatorRequest
            &&& record.reason_detail == detail
        },
        after.plans.contains_key(other) == before.plans.contains_key(other),
        before.plans.contains_key(other) ==> after.plans[other] == before.plans[other],
{
}

/// A plan is made where the service and both versions are named, as it was asked for:
/// it is pending, and has the tests that were given, or the default ones.
pub proof fn requested_plans_are_kept(
    before: StateModel,
    after: StateModel,
    body: CreateRollbackPlanRequest,
    id: Seq<char>,
    now: Time,
    r: Result<String, PlanError>,
)
    requires
        plan_created(before, after, body, id, now, r),
    ensures
        r is Ok <==> trimmed(body.service@).len() > 0 && trimmed(body.version@).len() > 0
            && trimmed(body.previous_version@).len() > 0,
        r is Err ==> after == before && (r->Err_0 is ServiceRequired <==> trimmed(
            body.service@,
        ).len() == 0),
        r is Ok ==> {
            let plan = after.plans[id];
            &&& after.plans.contains_key(id)
            &&& plan.status == RollbackPlanStatus::Pending
            &&& plan.deployment_id == body.deployment_id@
            &&& plan.service == body.service@
            &&& plan.version == body.version@
            &&& plan.previous_version == body.previous_version@
            &&& body.tests matches Some(tests) ==> plan.tests == test_models(tests@)
            &&& body.tests is None ==> plan.tests.len() == 4
            &&& plan.last_test_results.len() == 0
        },
{
}

/// The default tests pass a deployment with an error rate up to 5%, a latency up to
/// 2000 ms and a success rate from 95% on, and roll back any other.
pub proof fn default_tests_guard_deployments(plan: PlanModel, metrics: DeploymentMetrics, now: Time)
    requires
        plan.tests == default_tests(),
    ensures
        plan.tested(metrics, now).status == RollbackPlanStatus::Passed <==> {
            &&& (Measure { bits: 0x3FA9_9999_9999_999A }).ge_spec(metrics.error_rate)
            &&& (Measure { bits: 0x409F_4000_0000_0000 }).ge_spec(metrics.latency_p99_ms)
            &&& metrics.http_success_rate.ge_spec(Measure { bits: 0x3FEE_6666_6666_6666 })
        },
{
    rollback_needs_a_blocking_failure(plan, metrics, now);
    assert(plan.tests[0].kind == TestKind::ErrorRateBelow && plan.tests[0].blocking);
    assert(plan.tests[1].kind == TestKind::LatencyP99Below && plan.tests[1].blocking);
    assert(plan.tests[2].kind == TestKind::HttpSuccessRateAbove && plan.tests[2].blocking);
    assert(!plan.tests[3].blocking);
}

/// Every plan is listed once, and none before a newer one.
pub proof fn newer_plans_come_first(
    listed: Seq<&RollbackPlan>,
    plans: Seq<RollbackPlan>,
    i: int,
    j: int,
    k: int,
)
    requires
        lists_plans(listed, plans),
        0 <= i < j < listed.len(),
        0 <= k < plans.len(),
    ensures
        listed.len() == plans.len(),
        listed[i].created_at >= listed[j].created_at,
        exists|n: int| 0 <= n < listed.len() && *(#[trigger] listed[n]) == plans[k],
{
    let keys = plan_times(plans);
    let order = choose|order: Seq<usize>| #[trigger]
        is_stable_order(keys, true, order) && picked(plans, order, listed);
    crate::ordering::lemma_every_item_is_picked(plans, keys, true, order, listed, k);
    assert(crate::ordering::precedes(keys, true, order[i], order[j]));
    assert(*listed[i] == plans[order[i] as int]);
    assert(*listed[j] == plans[order[j] as int]);
}

/// Every rollback is listed once, and none before a more recent one.
pub proof fn recent_rollbacks_come_first(
    listed: Seq<&RollbackRecord>,
    records: Seq<RollbackRecord>,
    i: int,
    j: int,
    k: int,
)
    requires
        lists_records(listed, records),
        0 <= i < j < listed.len(),
        0 <= k < records.len(),
    ensures
        listed.len() == records.len(),
        listed[i].rolled_back_at >= listed[j].rolled_back_at,
        exists|n: int| 0 <= n < listed.len() && *(#[trigger] listed[n]) == records[k],
{
    let keys = record_times(records);
    let order = choose|order: Seq<usize>| #[trigger]
        is_stable_order(keys, true, order) && picked(records, order, listed);
    crate::ordering::lemma_every_item_is_picked(records, keys, true, order, listed, k);
    assert(crate::ordering::precedes(keys, true, order[i], order[j]));
    assert(*listed[i] == records[order[i] as int]);
    assert(*listed[j] == records[order[j] as int]);
}

/// The reason of an automated rollback names each blocking test that failed.
pub proof fn reasons_name_the_failed_tests(results: Seq<ResultModel>, i: int)
    requires
        0 <= i < results.len(),
        results[i].blocking,
        !results[i].passed,
    ensures
        crate::text::occurs(results[i].test_name, failure_detail(results)),
{
    let failed = blockers(results);
    crate::ordering::lemma_filter_contains(
        results,
        |r: ResultModel| !r.passed && r.blocking,
        results[i],
    );
    assert(results.contains(results[i]));
    let k = failed.index_of(results[i]);
    let names = failed.map_values(|r: ResultModel| r.test_name);
    assert(names[k] == results[i].test_name);
    crate::text::joined_texts_hold_each(names, ", "@, k);
    crate::text::patterns_stay_in_longer_texts(
        results[i].test_name,
        join(names, ", "@),
        "blocking tests failed: "@,
    );
}

} // verus!
