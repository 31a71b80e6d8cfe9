//! The health report of the service.
//!
//! The service is healthy while it runs; where the node that it depends on
//! cannot be reached, it is degraded. A node that is not configured is not
//! missed.

use vstd::prelude::*;

use crate::text::{name_option, parse_u64, parse_unsigned};

verus! {

/// The seconds after which a probe is given up, unless set otherwise.
pub const DEFAULT_TIMEOUT_SECS: u64 = 5;

/// What a probe of the node has found.
#[derive(Debug, Clone, Copy, PartialEq, Eq, Structural)]
pub enum ProbeOutcome {
    /// No client could be made.
    NoClient,
    /// The node has answered with this HTTP status.
    Answered(u16),
    /// There was no answer.
    NoAnswer,
}

/// How the node is.
#[derive(Debug, Clone, PartialEq, Eq)]
pub struct RpcHealthResult {
    pub status: &'static str,
    pub reachable: bool,
}

/// The status in words of a probe.
pub open spec fn probe_status(outcome: ProbeOutcome) -> Seq<char> {
    match outcome {
        ProbeOutcome::NoClient => "client_build_error"@,
        ProbeOutcome::Answered(status) => if 200 <= status <= 299 {
            "ok"@
        } else {
            "error_response"@
        },
        ProbeOutcome::NoAnswer => "unreachable"@,
    }
}

/// The node answered that all is well.
pub open spec fn is_success(outcome: ProbeOutcome) -> bool {
    outcome matches ProbeOutcome::Answered(status) && 200 <= status <= 299
}

/// Whether the node has to be probed: only one that is configured.
pub fn needs_probe(endpoint: &str) -> (r: bool)
    ensures
        r == (endpoint@.len() > 0),
{
    endpoint.unicode_len() > 0
}

/// How the node is, from what a probe has found. The probe counts only for a
/// node that is configured.
pub fn check_rpc_reachability(endpoint: &str, outcome: ProbeOutcome) -> (r: RpcHealthResult)
    ensures
        endpoint@.len() == 0 ==> r.status@ == "not_configured"@ && r.reachable,
        endpoint@.len() > 0 ==> r.status@ == probe_status(outcome) && r.reachable == is_success(
            outcome,
        ),
{
    if !needs_probe(endpoint) {
        return RpcHealthResult { status: "not_configured", reachable: true };
    }
    match outcome {
        ProbeOutcome::NoClient => RpcHealthResult {
            status: "client_build_error",
            reachable: false,
        },
        ProbeOutcome::Answered(status) => {
            if 200 <= status && status <= 299 {
                RpcHealthResult { status: "ok", reachable: true }
            } else {
                RpcHealthResult { status: "error_response", reachable: false }
            }
        },
        ProbeOutcome::NoAnswer => RpcHealthResult { status: "unreachable", reachable: false },
    }
}

/// The seconds after which a probe is given up: those of the setting, where that is a
/// number.
pub open spec fn timeout_of(setting: Option<Seq<char>>) -> nat {
    match setting {
        Some(text) => match parse_unsigned(text, u64::MAX as nat) {
            Some(n) => n,
            None => DEFAULT_TIMEOUT_SECS as nat,
        },
        None => DEFAULT_TIMEOUT_SECS as nat,
    }
}

/// The seconds after which a probe is given up, from the setting.
pub fn probe_timeout_secs(setting: Option<&str>) -> (r: u64)
    ensures
        r == timeout_of(name_option(setting)),
{
    match setting {
        Some(text) => match parse_u64(text) {
            Some(n) => n,
            None => DEFAULT_TIMEOUT_SECS,
        },
        None => DEFAULT_TIMEOUT_SECS,
    }
}

/// The health report.
#[derive(Debug)]
pub struct HealthReport {
    pub status: &'static str,
    pub endpoint: String,
    pub rpc: RpcHealthResult,
}

/// The report tells what a probe of the node has found.
pub open spec fn reports_health(r: HealthReport, endpoint: Seq<char>, outcome: ProbeOutcome) -> bool {
    &&& r.status@ == if endpoint.len() == 0 || is_success(outcome) {
        "ok"@
    } else {
        "degraded"@
    }
    &&& r.endpoint@ == if endpoint.len() == 0 {
        "<not configured>"@
    } else {
        endpoint
    }
    &&& r.rpc.status@ == if endpoint.len() == 0 {
        "not_configured"@
    } else {
        probe_status(outcome)
    }
    &&& r.rpc.reachable == (endpoint.len() == 0 || is_success(outcome))
}

/// The health report, from what a probe of the node has found.
pub fn health_report(endpoint: &str, outcome: ProbeOutcome) -> (r: HealthReport)
    ensures
        reports_health(r, endpoint@, outcome),
{
    let rpc = check_rpc_reachability(endpoint, outcome);
    let status = if rpc.reachable {
        "ok"
    } else {
        "degraded"
    };
    let shown = if needs_probe(endpoint) {
        endpoint.to_owned()
    } else {
        "<not configured>".to_owned()
    };
    HealthReport { status, endpoint: shown, rpc }
}

/// The service is degraded exactly where a node is configured and has not answered with a
/// status from 200 to 299; otherwise it is well. The report tells the node's own state.
pub proof fn missing_nodes_degrade_the_service(
    r: HealthReport,
    endpoint: Seq<char>,
    outcome: ProbeOutcome,
)
    requires
        reports_health(r, endpoint, outcome),
    ensures
        ({
            let well = outcome matches ProbeOutcome::Answered(status) && 200 <= status < 300;
            &&& r.status@ == "degraded"@ <==> endpoint.len() > 0 && !well
            &&& r.status@ == "ok"@ <==> endpoint.len() == 0 || well
            &&& r.rpc.reachable <==> r.status@ == "ok"@
            &&& endpoint.len() > 0 ==> r.endpoint@ == endpoint
            &&& endpoint.len() > 0 && well ==> r.rpc.status@ == "ok"@
            &&& endpoint.len() > 0 && outcome is Answered && !well ==> r.rpc.status@
                == "error_response"@
            &&& endpoint.len() > 0 && outcome is NoAnswer ==> r.rpc.status@ == "unreachable"@
            &&& endpoint.len() > 0 && outcome is NoClient ==> r.rpc.status@
                == "client_build_error"@
            &&& endpoint.len() == 0 ==> r.rpc.status@ == "not_configured"@
        }),
{
    reveal_strlit("ok");
    reveal_strlit("degraded");
    assert("ok"@.len() != "degraded"@.len());
}

/// A probe is given up after five seconds, unless the setting is a number.
pub proof fn probes_take_five_seconds_at_most(setting: Option<Seq<char>>)
    ensures
        setting is None ==> timeout_of(setting) == 5,
        setting matches Some(text) ==> match parse_unsigned(text, u64::MAX as nat) {
            Some(n) => timeout_of(setting) == n,
            None => timeout_of(setting) == 5,
        },
{
}

} // verus!
