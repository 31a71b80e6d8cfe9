use ethos_protocol_backend::health::{
    check_rpc_reachability, health_report, needs_probe, probe_timeout_secs, ProbeOutcome,
};

#[test]
fn test_rpc_not_configured_reports_ok() {
    let result = check_rpc_reachability("", ProbeOutcome::NoAnswer);
    assert_eq!(result.status, "not_configured");
    assert!(result.reachable, "empty endpoint should be treated as reachable");
    assert!(!needs_probe(""));
}

#[test]
fn test_rpc_reachable_2xx() {
    let result = check_rpc_reachability("http://node", ProbeOutcome::Answered(200));
    assert_eq!(result.status, "ok");
    assert!(result.reachable);
}

#[test]
fn test_rpc_error_response_is_degraded() {
    let result = check_rpc_reachability("http://node", ProbeOutcome::Answered(503));
    assert_eq!(result.status, "error_response");
    assert!(!result.reachable, "503 response should mark RPC as unreachable");
}

#[test]
fn test_rpc_unreachable_network_error() {
    let result = check_rpc_reachability("http://127.0.0.1:1", ProbeOutcome::NoAnswer);
    assert_eq!(result.status, "unreachable");
    assert!(!result.reachable, "refused connection should mark RPC as unreachable");
}

#[test]
fn test_health_handler_no_rpc_endpoint_is_ok() {
    let report = health_report("", ProbeOutcome::NoAnswer);
    assert_eq!(report.status, "ok");
    assert_eq!(report.endpoint, "<not configured>");
    assert_eq!(report.rpc.status, "not_configured");
    assert!(report.rpc.reachable);
}

#[test]
fn test_health_handler_rpc_up() {
    let report = health_report("http://node", ProbeOutcome::Answered(200));
    assert_eq!(report.status, "ok");
    assert!(report.rpc.reachable);
    assert_eq!(report.rpc.status, "ok");
    assert_eq!(report.endpoint, "http://node");
}

#[test]
fn test_health_handler_rpc_degraded() {
    let report = health_report("http://node", ProbeOutcome::Answered(503));
    assert_eq!(report.status, "degraded");
    assert!(!report.rpc.reachable);
    assert_eq!(report.rpc.status, "error_response");
}

#[test]
fn test_health_handler_rpc_unreachable() {
    let report = health_report("http://127.0.0.1:1", ProbeOutcome::NoAnswer);
    assert_eq!(report.status, "degraded");
    assert!(!report.rpc.reachable);
    assert_eq!(report.rpc.status, "unreachable");
}

#[test]
fn success_is_any_status_from_200_to_299() {
    for (status, ok) in [(199, false), (200, true), (299, true), (300, false)] {
        let result = check_rpc_reachability("http://node", ProbeOutcome::Answered(status));
        assert_eq!(result.reachable, ok);
    }
    let result = check_rpc_reachability("http://node", ProbeOutcome::NoClient);
    assert_eq!(result.status, "client_build_error");
    assert!(!result.reachable);
}

#[test]
fn the_timeout_comes_from_its_setting() {
    assert_eq!(probe_timeout_secs(None), 5);
    assert_eq!(probe_timeout_secs(Some("soon")), 5);
    assert_eq!(probe_timeout_secs(Some("1")), 1);
}
