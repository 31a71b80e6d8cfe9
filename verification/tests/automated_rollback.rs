use ethos_protocol_backend::automated_rollback::{
    create_rollback_plan, default_post_deployment_tests, get_rollback_plan, list_rollback_history,
    list_rollback_plans, run_post_deployment_tests, run_test, trigger_rollback,
    CreateRollbackPlanRequest, DeploymentMetrics, PlanError, PostDeploymentTest,
    RollbackPlanStatus, RollbackReason, RollbackState, RunTestsError, TestKind,
};
use ethos_protocol_backend::measure::Measure;

fn measure(x: f64) -> Measure {
    Measure { bits: x.to_bits() }
}

fn healthy_metrics() -> DeploymentMetrics {
    DeploymentMetrics {
        error_rate: measure(0.01),
        latency_p99_ms: measure(200.0),
        http_success_rate: measure(0.99),
        active_vaults: measure(100.0),
    }
}

fn failing_metrics() -> DeploymentMetrics {
    DeploymentMetrics {
        error_rate: measure(0.20),
        latency_p99_ms: measure(5000.0),
        http_success_rate: measure(0.70),
        active_vaults: measure(100.0),
    }
}

fn check(name: &str, kind: TestKind, threshold: f64, blocking: bool) -> PostDeploymentTest {
    PostDeploymentTest {
        name: name.to_string(),
        kind,
        threshold_value: measure(threshold),
        blocking,
    }
}

fn plan_request(service: &str, tests: Option<Vec<PostDeploymentTest>>) -> CreateRollbackPlanRequest {
    CreateRollbackPlanRequest {
        deployment_id: "dep-1".into(),
        service: service.to_string(),
        version: "v2.0.0".into(),
        previous_version: "v1.0.0".into(),
        tests,
    }
}

fn make_plan(state: &mut RollbackState) -> String {
    create_rollback_plan(&mut state.store, plan_request("vault-api", None)).unwrap()
}

#[test]
fn run_test_error_rate_pass() {
    let t = check("err_rate", TestKind::ErrorRateBelow, 0.05, true);
    let r = run_test(&t, &healthy_metrics());
    assert!(r.passed);
}

#[test]
fn run_test_error_rate_fail() {
    let t = check("err_rate", TestKind::ErrorRateBelow, 0.05, true);
    let r = run_test(&t, &failing_metrics());
    assert!(!r.passed);
}

#[test]
fn run_test_latency_fail() {
    let t = check("latency", TestKind::LatencyP99Below, 2000.0, true);
    let r = run_test(&t, &failing_metrics());
    assert!(!r.passed);
}

#[test]
fn run_test_http_success_rate_fail() {
    let t = check("success_rate", TestKind::HttpSuccessRateAbove, 0.95, true);
    let r = run_test(&t, &failing_metrics());
    assert!(!r.passed);
}

#[test]
fn always_pass_test_passes() {
    let t = check("smoke", TestKind::AlwaysPass, 0.0, false);
    assert!(run_test(&t, &failing_metrics()).passed);
}

#[test]
fn always_fail_test_fails() {
    let t = check("force_fail", TestKind::AlwaysFail, 0.0, true);
    assert!(!run_test(&t, &healthy_metrics()).passed);
}

#[test]
fn healthy_metrics_do_not_trigger_rollback() {
    let mut state = RollbackState::new();
    let id = make_plan(&mut state);
    let resp = run_post_deployment_tests(&mut state.store, &id, &healthy_metrics()).unwrap();
    assert!(!resp.rollback_triggered);
    assert_eq!(resp.status, RollbackPlanStatus::Passed);
}

#[test]
fn failing_metrics_trigger_rollback_and_record_history() {
    let mut state = RollbackState::new();
    let id = make_plan(&mut state);
    let resp = run_post_deployment_tests(&mut state.store, &id, &failing_metrics()).unwrap();
    assert!(resp.rollback_triggered);
    assert_eq!(resp.status, RollbackPlanStatus::RolledBack);

    let history = list_rollback_history(&state.store);
    assert!(!history.is_empty());
    assert_eq!(history[0].reason, RollbackReason::PostDeploymentTestFailure);
}

#[test]
fn cannot_run_tests_on_already_rolled_back_plan() {
    let mut state = RollbackState::new();
    let id = make_plan(&mut state);
    run_post_deployment_tests(&mut state.store, &id, &failing_metrics()).unwrap();

    let result = run_post_deployment_tests(&mut state.store, &id, &healthy_metrics());
    assert_eq!(
        result.unwrap_err(),
        RunTestsError::AlreadyRolledBack { status: RollbackPlanStatus::RolledBack }
    );
}

#[test]
fn manual_rollback_records_operator_request_reason() {
    let mut state = RollbackState::new();
    let id = make_plan(&mut state);
    assert!(trigger_rollback(&mut state.store, &id, "operator observed memory leak"));

    let updated = get_rollback_plan(&state.store, &id).unwrap();
    assert_eq!(updated.status, RollbackPlanStatus::ManualRollback);

    let history = list_rollback_history(&state.store);
    assert_eq!(history[0].reason, RollbackReason::OperatorRequest);
    assert!(history[0].reason_detail.contains("memory leak"));
}

#[test]
fn non_blocking_test_failure_does_not_rollback() {
    let mut state = RollbackState::new();
    let tests =
        vec![check("non_blocking_error_rate", TestKind::ErrorRateBelow, 0.001, false)];
    let id = create_rollback_plan(&mut state.store, plan_request("vault-api", Some(tests))).unwrap();

    let resp = run_post_deployment_tests(&mut state.store, &id, &healthy_metrics()).unwrap();

    assert_eq!(resp.failed, 1);
    assert!(!resp.rollback_triggered);
    assert_eq!(resp.status, RollbackPlanStatus::Passed);
}

#[test]
fn results_name_their_figures() {
    let r = run_test(&check("err", TestKind::ErrorRateBelow, 0.05, true), &failing_metrics());
    assert_eq!(r.actual_value, measure(0.20));
    assert_eq!(r.message("0.2000", "0.0500"), "FAIL: err (actual=0.2000, threshold=0.0500)");
    let r = run_test(&check("vaults", TestKind::ActiveVaultsAbove, 100.0, true), &healthy_metrics());
    assert!(r.passed);
    assert_eq!(r.message("100", "100"), "PASS: vaults (actual=100, threshold=100)");
    // The bound itself passes.
    assert!(
        run_test(&check("e", TestKind::ErrorRateBelow, 0.01, true), &healthy_metrics()).passed
    );
}

#[test]
fn plans_are_refused_with_their_reasons() {
    let mut state = RollbackState::default();
    let blank = create_rollback_plan(&mut state.store, plan_request(" ", None)).unwrap_err();
    assert_eq!(blank, PlanError::ServiceRequired);
    assert_eq!(blank.message(), "service name is required");
    let mut request = plan_request("s", None);
    request.previous_version = "".to_string();
    let missing = create_rollback_plan(&mut state.store, request).unwrap_err();
    assert_eq!(missing, PlanError::VersionsRequired);
    assert_eq!(missing.message(), "version and previous_version are required");
    assert!(list_rollback_plans(&state.store).is_empty());
    assert_eq!(
        run_post_deployment_tests(&mut state.store, "none", &healthy_metrics()).unwrap_err(),
        RunTestsError::PlanNotFound
    );
    assert!(!trigger_rollback(&mut state.store, "none", "x"));
    assert_eq!(RollbackReason::OperatorRequest.text(), "operator_request");
}

#[test]
fn plans_without_tests_get_the_usual_ones() {
    let mut state = RollbackState::new();
    let id = make_plan(&mut state);
    let plan = get_rollback_plan(&state.store, &id).unwrap();
    assert_eq!(plan.tests.len(), default_post_deployment_tests().len());
    assert_eq!(plan.status, RollbackPlanStatus::Pending);
}
