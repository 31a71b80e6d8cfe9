//! Disaster-recovery runbook automation.
//!
//! The highest-risk manual steps of the runbook are requested and confirmed in
//! two phases: a request hands out a confirmation token, and the step runs
//! only when the token comes back before it expires. Recovery targets, the
//! testing schedule and the incident playbooks are kept here as data.

use vstd::prelude::*;

use crate::clock::{utc_now, wall_clock_shows, Time, MINUTE, TIME_MAX, TIME_MIN};
use crate::ids::{is_new_id, new_id};
use crate::table::Table;
use crate::text::{decimal, decimal_text, texts};

verus! {

/// How long a confirmation token stays valid, in minutes.
pub const CONFIRMATION_TTL_MINUTES: i64 = 5;

/// How long a confirmation token stays valid, in nanoseconds.
pub const CONFIRMATION_TTL: i128 = 5 * MINUTE;

/// One of the manual runbook steps exposed for automation.
#[derive(Debug, Clone, Copy, PartialEq, Eq, Structural)]
pub enum DrStep {
    /// Emergency contract pause.
    PauseContract,
    /// Resume normal operation after a pause.
    UnpauseContract,
    /// Archived vault recovery.
    RestoreVault,
}

impl DrStep {
    /// Every step changes on-chain state, so all of them require a
    /// confirmation token.
    pub fn is_destructive(self) -> (r: bool)
        ensures
            r,
    {
        true
    }
}

/// A request for a step.
#[derive(Debug, Clone)]
pub struct RequestDrActionRequest {
    pub step: DrStep,
    /// Required for `RestoreVault`; ignored otherwise.
    pub vault_id: Option<u64>,
    /// Operator requesting the action, recorded for the audit log.
    pub requested_by: String,
}

/// The answer to a request: the token that confirms it.
#[derive(Debug, Clone)]
pub struct RequestDrActionResponse {
    pub step: DrStep,
    pub confirmation_token: String,
    pub expires_at: Time,
}

/// What running a step led to.
#[derive(Debug, Clone)]
pub struct DrActionResult {
    pub step: DrStep,
    pub success: bool,
    pub output: String,
    pub executed_at: Time,
}

/// A requested step that awaits its confirmation.
#[derive(Debug, Clone)]
pub struct PendingAction {
    pub step: DrStep,
    pub vault_id: Option<u64>,
    pub requested_by: String,
    pub expires_at: Time,
}

/// Why a request or a confirmation was refused: the HTTP status and a message.
#[derive(Debug, Clone)]
pub struct DrRefusal {
    pub status: u16,
    pub message: String,
}

/// The steps that await confirmation, by token.
pub struct DrAutomationState {
    pub pending: Table<PendingAction>,
}

impl DrAutomationState {
    pub open spec fn wf(&self) -> bool {
        self.pending.wf()
    }

    pub fn new() -> (r: Self)
        ensures
            r.wf(),
            r.pending@ == Map::<Seq<char>, PendingAction>::empty(),
    {
        DrAutomationState { pending: Table::new() }
    }
}

impl Default for DrAutomationState {
    fn default() -> (r: Self)
        ensures
            r.wf(),
            r.pending@ == Map::<Seq<char>, PendingAction>::empty(),
    {
        DrAutomationState::new()
    }
}

/// A request to restore a vault has to say which one.
pub open spec fn names_its_vault(body: RequestDrActionRequest) -> bool {
    body.step == DrStep::RestoreVault ==> body.vault_id is Some
}

/// The step that a request leaves pending.
pub open spec fn pending_for(body: RequestDrActionRequest, now: Time) -> PendingAction {
    PendingAction {
        step: body.step,
        vault_id: body.vault_id,
        requested_by: body.requested_by,
        expires_at: (now + CONFIRMATION_TTL) as i128,
    }
}

/// What a request does to the pending steps and what it is answered, given the
/// token and the time.
pub open spec fn requested(
    before: Map<Seq<char>, PendingAction>,
    after: Map<Seq<char>, PendingAction>,
    body: RequestDrActionRequest,
    token: Seq<char>,
    now: Time,
    r: Result<RequestDrActionResponse, DrRefusal>,
) -> bool {
    match r {
        Ok(response) => {
            &&& names_its_vault(body)
            &&& after == before.insert(token, pending_for(body, now))
            &&& response.step == body.step
            &&& response.confirmation_token@ == token
            &&& response.expires_at == now + CONFIRMATION_TTL
        },
        Err(refusal) => {
            &&& !names_its_vault(body)
            &&& after == before
            &&& refusal.status == 400
            &&& refusal.message@ == "vault_id is required for restore_vault"@
        },
    }
}

/// Requests a step with the given token at the time `now`.
pub fn request_dr_action_with(
    state: &mut DrAutomationState,
    body: RequestDrActionRequest,
    token: String,
    now: Time,
) -> (r: Result<RequestDrActionResponse, DrRefusal>)
    requires
        old(state).wf(),
        TIME_MIN <= now <= TIME_MAX,
    ensures
        final(state).wf(),
        requested(old(state).pending@, final(state).pending@, body, token@, now, r),
{
    if body.step == DrStep::RestoreVault && body.vault_id.is_none() {
        return Err(
            DrRefusal {
                status: 400,
                message: "vault_id is required for restore_vault".to_owned(),
            },
        );
    }
    let step = body.step;
    let expires_at: Time = now + CONFIRMATION_TTL;
    let confirmation_token = token.clone();
    let _previous = state.pending.insert(
        token,
        PendingAction {
            step,
            vault_id: body.vault_id,
            requested_by: body.requested_by,
            expires_at,
        },
    );
    Ok(RequestDrActionResponse { step, confirmation_token, expires_at })
}

/// Requests a step: hands out a token that has to be replayed before it
/// expires for the step to run.
pub fn request_dr_action(
    state: &mut DrAutomationState,
    body: RequestDrActionRequest,
) -> (r: Result<RequestDrActionResponse, DrRefusal>)
    requires
        old(state).wf(),
    ensures
        final(state).wf(),
        exists|token: Seq<char>, now: Time|
            wall_clock_shows(now) && is_new_id(token) && #[trigger] requested(
                old(state).pending@,
                final(state).pending@,
                body,
                token,
                now,
                r,
            ),
{
    let token = new_id();
    let now = utc_now();
    request_dr_action_with(state, body, token, now)
}

/// What a confirmation does to the pending steps and what it releases.
pub open spec fn confirmed(
    before: Map<Seq<char>, PendingAction>,
    after: Map<Seq<char>, PendingAction>,
    token: Seq<char>,
    now: Time,
    r: Result<PendingAction, DrRefusal>,
) -> bool {
    &&& after == before.remove(token)
    &&& match r {
        Ok(action) => before.contains_key(token) && action == before[token] && action.expires_at
            > now,
        Err(refusal) => {
            ||| {
                &&& before.contains_key(token)
                &&& before[token].expires_at <= now
                &&& refusal.status == 410
                &&& refusal.message@ == "confirmation token expired; request the action again"@
            }
            ||| {
                &&& !before.contains_key(token)
                &&& refusal.status == 404
                &&& refusal.message@ == "unknown or already-used confirmation token"@
            }
        },
    }
}

/// Confirms a requested step at the time `now`. The token is used up, whether
/// it releases the step or has expired.
pub fn confirm_dr_action_at(state: &mut DrAutomationState, token: &str, now: Time) -> (r: Result<
    PendingAction,
    DrRefusal,
>)
    requires
        old(state).wf(),
    ensures
        final(state).wf(),
        confirmed(old(state).pending@, final(state).pending@, token@, now, r),
{
    match state.pending.remove(token) {
        Some(action) => {
            if action.expires_at > now {
                Ok(action)
            } else {
                Err(
                    DrRefusal {
                        status: 410,
                        message: "confirmation token expired; request the action again".to_owned(),
                    },
                )
            }
        },
        None => {
            Err(
                DrRefusal {
                    status: 404,
                    message: "unknown or already-used confirmation token".to_owned(),
                },
            )
        },
    }
}

/// Confirms a requested step and releases it for execution.
pub fn confirm_dr_action(state: &mut DrAutomationState, token: &str) -> (r: Result<
    PendingAction,
    DrRefusal,
>)
    requires
        old(state).wf(),
    ensures
        final(state).wf(),
        exists|now: Time|
            wall_clock_shows(now)
                && #[trigger] confirmed(old(state).pending@, final(state).pending@, token@, now, r),
{
    let now = utc_now();
    confirm_dr_action_at(state, token, now)
}

/// A step that was requested is released by its token until the token expires.
pub proof fn requested_steps_can_be_confirmed(
    before: Map<Seq<char>, PendingAction>,
    middle: Map<Seq<char>, PendingAction>,
    after: Map<Seq<char>, PendingAction>,
    body: RequestDrActionRequest,
    token: Seq<char>,
    now: Time,
    later: Time,
    response: RequestDrActionResponse,
    r: Result<PendingAction, DrRefusal>,
)
    requires
        requested(before, middle, body, token, now, Ok(response)),
        confirmed(middle, after, token, later, r),
        later < now + CONFIRMATION_TTL,
        TIME_MIN <= now <= TIME_MAX,
    ensures
        r is Ok,
        r->Ok_0 == pending_for(body, now),
{
}

/// A token works once: confirming it again finds nothing.
pub proof fn tokens_are_single_use(
    before: Map<Seq<char>, PendingAction>,
    middle: Map<Seq<char>, PendingAction>,
    after: Map<Seq<char>, PendingAction>,
    token: Seq<char>,
    now: Time,
    later: Time,
    first: Result<PendingAction, DrRefusal>,
    second: Result<PendingAction, DrRefusal>,
)
    requires
        confirmed(before, middle, token, now, first),
        confirmed(middle, after, token, later, second),
    ensures
        second is Err,
        second->Err_0.status == 404,
        after == middle,
{
    assert(middle.remove(token) =~= middle);
}

/// The contract call of a step and its arguments.
pub open spec fn step_call(step: DrStep, vault_id: Option<u64>) -> Seq<Seq<char>> {
    match step {
        DrStep::PauseContract => seq!["pause"@],
        DrStep::UnpauseContract => seq!["unpause"@],
        DrStep::RestoreVault => seq![
            "restore_vault"@,
            "--vault_id"@,
            decimal(match vault_id {
                Some(id) => id as nat,
                None => 0,
            }),
        ],
    }
}

/// The arguments that make the command-line client run a step.
pub open spec fn invocation(
    step: DrStep,
    vault_id: Option<u64>,
    contract_id: Seq<char>,
    network: Seq<char>,
    source: Seq<char>,
) -> Seq<Seq<char>> {
    seq![
        "contract"@,
        "invoke"@,
        "--id"@,
        contract_id,
        "--network"@,
        network,
        "--source"@,
        source,
        "--"@,
    ] + step_call(step, vault_id)
}

/// The arguments that make the command-line client run a step.
pub fn step_arguments(
    step: DrStep,
    vault_id: Option<u64>,
    contract_id: &str,
    network: &str,
    source: &str,
) -> (r: Vec<String>)
    ensures
        texts(r@) == invocation(step, vault_id, contract_id@, network@, source@),
{
    let mut args: Vec<String> = Vec::new();
    args.push("contract".to_owned());
    args.push("invoke".to_owned());
    args.push("--id".to_owned());
    args.push(contract_id.to_owned());
    args.push("--network".to_owned());
    args.push(network.to_owned());
    args.push("--source".to_owned());
    args.push(source.to_owned());
    args.push("--".to_owned());
    match step {
        DrStep::PauseContract => args.push("pause".to_owned()),
        DrStep::UnpauseContract => args.push("unpause".to_owned()),
        DrStep::RestoreVault => {
            let id: u64 = match vault_id {
                Some(id) => id,
                None => 0,
            };
            args.push("restore_vault".to_owned());
            args.push("--vault_id".to_owned());
            args.push(decimal_text(id as u128));
        },
    }
    assert(texts(args@) =~= invocation(step, vault_id, contract_id@, network@, source@));
    args
}

/// What became of the command-line client.
pub enum ClientRun {
    /// It ended, with this success and these outputs.
    Finished { success: bool, stdout: String, stderr: String },
    /// It could not be started, for this reason.
    NotStarted { error: String },
}

/// The result reports what became of the client that ran a step.
pub open spec fn reports_run(
    r: DrActionResult,
    step: DrStep,
    run: ClientRun,
    executed_at: Time,
) -> bool {
    &&& r.step == step
    &&& r.executed_at == executed_at
    &&& match run {
        ClientRun::Finished { success, stdout, stderr } => r.success == success && r.output@
            == if success {
            stdout@
        } else {
            stderr@
        },
        ClientRun::NotStarted { error } => !r.success && r.output@
            == "failed to invoke stellar CLI: "@ + error@,
    }
}

/// The result of a step, from what became of the client that ran it.
pub fn execute_step(step: DrStep, run: ClientRun, executed_at: Time) -> (r: DrActionResult)
    ensures
        reports_run(r, step, run, executed_at),
{
    match run {
        ClientRun::Finished { success, stdout, stderr } => {
            DrActionResult {
                step,
                success,
                output: if success { stdout } else { stderr },
                executed_at,
            }
        },
        ClientRun::NotStarted { error } => {
            let mut output = "failed to invoke stellar CLI: ".to_owned();
            output.append(error.as_str());
            DrActionResult { step, success: false, output, executed_at }
        },
    }
}

/// Recovery time objectives (the longest acceptable time to restore service)
/// and recovery point objectives (the longest acceptable loss of data), per
/// incident priority.
#[derive(Debug, Clone)]
pub struct RtoRpoTargets {
    /// For a P0 (critical) incident: contract exploit or active fund loss.
    pub p0_rto_minutes: u32,
    pub p0_rpo_minutes: u32,
    /// For a P1 (high) incident: contract frozen.
    pub p1_rto_minutes: u32,
    pub p1_rpo_minutes: u32,
    /// For a P2 (medium) incident: degraded functionality.
    pub p2_rto_minutes: u32,
    pub p2_rpo_minutes: u32,
    /// For a P3 (low) incident: minor monitoring alert.
    pub p3_rto_minutes: u32,
    pub p3_rpo_minutes: u32,
    /// Date these targets were last reviewed (ISO-8601 date string).
    pub last_reviewed: String,
}

impl RtoRpoTargets {
    /// The current targets. The more critical the incident, the shorter both
    /// objectives.
    pub fn current() -> (r: Self)
        ensures
            r.p0_rto_minutes == 15,
            r.p0_rpo_minutes == 0,
            r.p1_rto_minutes == 60,
            r.p1_rpo_minutes == 5,
            r.p2_rto_minutes == 240,
            r.p2_rpo_minutes == 30,
            r.p3_rto_minutes == 1440,
            r.p3_rpo_minutes == 60,
            r.last_reviewed@ == "2026-09-26"@,
            r.p0_rto_minutes < r.p1_rto_minutes < r.p2_rto_minutes < r.p3_rto_minutes,
            r.p0_rpo_minutes < r.p1_rpo_minutes < r.p2_rpo_minutes < r.p3_rpo_minutes,
    {
        RtoRpoTargets {
            p0_rto_minutes: 15,
            p0_rpo_minutes: 0,
            p1_rto_minutes: 60,
            p1_rpo_minutes: 5,
            p2_rto_minutes: 240,
            p2_rpo_minutes: 30,
            p3_rto_minutes: 1440,
            p3_rpo_minutes: 60,
            last_reviewed: "2026-09-26".to_owned(),
        }
    }
}

/// How often a recovery test must be performed.
#[derive(Debug, Clone, Copy, PartialEq, Eq, Structural)]
pub enum DrTestCadence {
    Weekly,
    Monthly,
    Quarterly,
    Annually,
}

/// A scheduled recovery test.
#[derive(Debug, Clone)]
pub struct DrTestEntry {
    pub id: String,
    /// Human-readable name for this test.
    pub name: String,
    /// What this test validates.
    pub description: String,
    pub cadence: DrTestCadence,
    /// The step exercised by this test.
    pub step: DrStep,
    /// Owner or on-call rotation responsible for running this test.
    pub owner: String,
    /// Date of the last successful run (ISO-8601 date string), if known.
    pub last_run: Option<String>,
    /// Date the next run is due (ISO-8601 date string).
    pub next_due: String,
}

/// The contents of a scheduled test.
pub struct DrTestModel {
    pub id: Seq<char>,
    pub name: Seq<char>,
    pub description: Seq<char>,
    pub cadence: DrTestCadence,
    pub step: DrStep,
    pub owner: Seq<char>,
    pub last_run: Option<Seq<char>>,
    pub next_due: Seq<char>,
}

impl DrTestEntry {
    pub open spec fn view(&self) -> DrTestModel {
        DrTestModel {
            id: self.id@,
            name: self.name@,
            description: self.description@,
            cadence: self.cadence,
            step: self.step,
            owner: self.owner@,
            last_run: match self.last_run {
                Some(date) => Some(date@),
                None => None,
            },
            next_due: self.next_due@,
        }
    }
}

/// The testing schedule.
pub open spec fn schedule_model() -> Seq<DrTestModel> {
    seq![
        DrTestModel {
            id: "dr-test-001"@,
            name: "Contract pause/unpause drill"@,
            description: "Confirm that PauseContract and UnpauseContract steps execute within the RTO target on testnet and that the contract is unreachable while paused."@,
            cadence: DrTestCadence::Monthly,
            step: DrStep::PauseContract,
            owner: "on-call-operator"@,
            last_run: None,
            next_due: "2026-10-26"@,
        },
        DrTestModel {
            id: "dr-test-002"@,
            name: "Archived vault restore drill"@,
            description: "Create a test vault on testnet with a short TTL, let it expire to archive state, then trigger RestoreVault via the API and verify the vault is accessible again."@,
            cadence: DrTestCadence::Quarterly,
            step: DrStep::RestoreVault,
            owner: "on-call-operator"@,
            last_run: None,
            next_due: "2026-12-26"@,
        },
        DrTestModel {
            id: "dr-test-003"@,
            name: "Database backup restore verification"@,
            description: "Restore the latest off-chain database backup to a staging environment and verify data integrity against the most recent snapshot. Validates the RPO target."@,
            cadence: DrTestCadence::Monthly,
            step: DrStep::UnpauseContract,
            owner: "sre-team"@,
            last_run: None,
            next_due: "2026-10-26"@,
        },
        DrTestModel {
            id: "dr-test-004"@,
            name: "Admin key rotation simulation"@,
            description: "Simulate admin key compromise by rotating keys in a testnet deployment and confirming the new admin key has sole authority. Validates the key-rotation runbook section."@,
            cadence: DrTestCadence::Annually,
            step: DrStep::PauseContract,
            owner: "security-team"@,
            last_run: None,
            next_due: "2027-09-26"@,
        },
    ]
}

/// The testing schedule. All tests run against the testnet unless otherwise
/// noted.
pub fn dr_test_schedule() -> (r: Vec<DrTestEntry>)
    ensures
        r@.map_values(|e: DrTestEntry| e@) == schedule_model(),
{
    let mut schedule: Vec<DrTestEntry> = Vec::new();
    schedule.push(
        DrTestEntry {
            id: "dr-test-001".to_owned(),
            name: "Contract pause/unpause drill".to_owned(),
            description: "Confirm that PauseContract and UnpauseContract steps execute within the RTO target on testnet and that the contract is unreachable while paused.".to_owned(),
            cadence: DrTestCadence::Monthly,
            step: DrStep::PauseContract,
            owner: "on-call-operator".to_owned(),
            last_run: None,
            next_due: "2026-10-26".to_owned(),
        },
    );
    schedule.push(
        DrTestEntry {
            id: "dr-test-002".to_owned(),
            name: "Archived vault restore drill".to_owned(),
            description: "Create a test vault on testnet with a short TTL, let it expire to archive state, then trigger RestoreVault via the API and verify the vault is accessible again.".to_owned(),
            cadence: DrTestCadence::Quarterly,
            step: DrStep::RestoreVault,
            owner: "on-call-operator".to_owned(),
            last_run: None,
            next_due: "2026-12-26".to_owned(),
        },
    );
    schedule.push(
        DrTestEntry {
            id: "dr-test-003".to_owned(),
            name: "Database backup restore verification".to_owned(),
            description: "Restore the latest off-chain database backup to a staging environment and verify data integrity against the most recent snapshot. Validates the RPO target.".to_owned(),
            cadence: DrTestCadence::Monthly,
            step: DrStep::UnpauseContract,
            owner: "sre-team".to_owned(),
            last_run: None,
            next_due: "2026-10-26".to_owned(),
        },
    );
    schedule.push(
        DrTestEntry {
            id: "dr-test-004".to_owned(),
            name: "Admin key rotation simulation".to_owned(),
            description: "Simulate admin key compromise by rotating keys in a testnet deployment and confirming the new admin key has sole authority. Validates the key-rotation runbook section.".to_owned(),
            cadence: DrTestCadence::Annually,
            step: DrStep::PauseContract,
            owner: "security-team".to_owned(),
            last_run: None,
            next_due: "2027-09-26".to_owned(),
        },
    );
    assert(schedule@.map_values(|e: DrTestEntry| e@) =~= schedule_model());
    schedule
}

/// Severity classification for a playbook.
#[derive(Debug, Clone, Copy, PartialEq, Eq, Structural)]
pub enum PlaybookSeverity {
    P0,
    P1,
    P2,
    P3,
}

/// A single step in a response playbook.
#[derive(Debug, Clone)]
pub struct PlaybookStep {
    pub order: u32,
    pub action: String,
    /// Whether this step can be automated.
    pub automated: bool,
    /// The step to call if `automated` is true.
    pub dr_step: Option<DrStep>,
}

/// A complete incident response playbook for a specific scenario.
#[derive(Debug, Clone)]
pub struct IncidentPlaybook {
    pub id: String,
    pub name: String,
    pub description: String,
    pub severity: PlaybookSeverity,
    /// Trigger conditions that indicate this playbook should be activated.
    pub triggers: Vec<String>,
    pub steps: Vec<PlaybookStep>,
    /// Escalation contacts if the playbook does not resolve the incident.
    pub escalation_contacts: Vec<String>,
    /// References to related runbook sections.
    pub runbook_refs: Vec<String>,
}

/// The contents of a playbook step.
pub struct StepModel {
    pub order: nat,
    pub action: Seq<char>,
    pub automated: bool,
    pub dr_step: Option<DrStep>,
}

/// The contents of a playbook.
pub struct PlaybookModel {
    pub id: Seq<char>,
    pub name: Seq<char>,
    pub description: Seq<char>,
    pub severity: PlaybookSeverity,
    pub triggers: Seq<Seq<char>>,
    pub steps: Seq<StepModel>,
    pub escalation_contacts: Seq<Seq<char>>,
    pub runbook_refs: Seq<Seq<char>>,
}

impl PlaybookStep {
    pub open spec fn view(&self) -> StepModel {
        StepModel {
            order: self.order as nat,
            action: self.action@,
            automated: self.automated,
            dr_step: self.dr_step,
        }
    }
}

impl IncidentPlaybook {
    pub open spec fn view(&self) -> PlaybookModel {
        PlaybookModel {
            id: self.id@,
            name: self.name@,
            description: self.description@,
            severity: self.severity,
            triggers: texts(self.triggers@),
            steps: self.steps@.map_values(|s: PlaybookStep| s@),
            escalation_contacts: texts(self.escalation_contacts@),
            runbook_refs: texts(self.runbook_refs@),
        }
    }
}

impl PlaybookModel {
    /// The steps count up from one, an automated step says what to call, a
    /// critical playbook pauses the contract, and no part is missing.
    pub open spec fn well_formed(self) -> bool {
        &&& self.steps.len() > 0
        &&& self.triggers.len() > 0
        &&& self.escalation_contacts.len() > 0
        &&& self.runbook_refs.len() > 0
        &&& forall|i: int|
            0 <= i < self.steps.len() ==> (#[trigger] self.steps[i]).order == i + 1 && (
            self.steps[i].automated <==> self.steps[i].dr_step is Some)
        &&& self.severity == PlaybookSeverity::P0 ==> exists|i: int|
            0 <= i < self.steps.len() && (#[trigger] self.steps[i]).dr_step == Some(
                DrStep::PauseContract,
            )
    }
}

fn playbook_step(order: u32, action: &str, automated: bool, dr_step: Option<DrStep>) -> (r:
    PlaybookStep)
    ensures
        r@ == (StepModel { order: order as nat, action: action@, automated, dr_step }),
{
    PlaybookStep { order, action: action.to_owned(), automated, dr_step }
}

/// The playbook for: Contract exploit / active fund loss.
pub open spec fn exploit_playbook_model() -> PlaybookModel {
    PlaybookModel {
        id: "playbook-001"@,
        name: "Contract exploit / active fund loss"@,
        description: "Immediate response to a detected smart-contract exploit or active unauthorised fund movement."@,
        severity: PlaybookSeverity::P0,
        triggers: seq![
            "Unauthorised 'trigger_release' call detected"@,
            "Unexpected XLM transfer from contract address"@,
            "Security scanner alert: contract invariant violated"@,
        ],
        steps: seq![
            StepModel {
                order: 1,
                action: "Page on-call operator immediately via incident channel"@,
                automated: false,
                dr_step: None,
            },
            StepModel {
                order: 2,
                action: "Request contract pause via POST /admin/dr/actions (step: pause_contract) and confirm within 5 minutes"@,
                automated: true,
                dr_step: Some(DrStep::PauseContract),
            },
            StepModel {
                order: 3,
                action: "Capture on-chain state: run 'stellar contract invoke ... get_vault' for all affected vaults"@,
                automated: false,
                dr_step: None,
            },
            StepModel {
                order: 4,
                action: "Notify security team and Stellar SDF if ledger-level intervention is needed"@,
                automated: false,
                dr_step: None,
            },
            StepModel {
                order: 5,
                action: "Post user communication using the 'Unplanned Outage' template from the runbook"@,
                automated: false,
                dr_step: None,
            },
            StepModel {
                order: 6,
                action: "After root-cause is confirmed fixed, unpause contract via POST /admin/dr/actions (step: unpause_contract)"@,
                automated: true,
                dr_step: Some(DrStep::UnpauseContract),
            },
        ],
        escalation_contacts: seq![
            "security@ethos-protocol.example.com"@,
            "https://stellar.org/developers"@,
        ],
        runbook_refs: seq![
            "disaster-recovery-runbook.md §1"@,
            "disaster-recovery-runbook.md §6"@,
        ],
    }
}

fn exploit_playbook() -> (r: IncidentPlaybook)
    ensures
        r@ == exploit_playbook_model(),
{
    let mut triggers: Vec<String> = Vec::new();
    triggers.push("Unauthorised 'trigger_release' call detected".to_owned());
    triggers.push("Unexpected XLM transfer from contract address".to_owned());
    triggers.push("Security scanner alert: contract invariant violated".to_owned());
    let mut escalation_contacts: Vec<String> = Vec::new();
    escalation_contacts.push("security@ethos-protocol.example.com".to_owned());
    escalation_contacts.push("https://stellar.org/developers".to_owned());
    let mut runbook_refs: Vec<String> = Vec::new();
    runbook_refs.push("disaster-recovery-runbook.md §1".to_owned());
    runbook_refs.push("disaster-recovery-runbook.md §6".to_owned());
    let mut steps: Vec<PlaybookStep> = Vec::new();
    steps.push(
        playbook_step(
            1,
            "Page on-call operator immediately via incident channel",
            false,
            None,
        ),
    );
    steps.push(
        playbook_step(
            2,
            "Request contract pause via POST /admin/dr/actions (step: pause_contract) and confirm within 5 minutes",
            true,
            Some(DrStep::PauseContract),
        ),
    );
    steps.push(
        playbook_step(
            3,
            "Capture on-chain state: run 'stellar contract invoke ... get_vault' for all affected vaults",
            false,
            None,
        ),
    );
    steps.push(
        playbook_step(
            4,
            "Notify security team and Stellar SDF if ledger-level intervention is needed",
            false,
            None,
        ),
    );
    steps.push(
        playbook_step(
            5,
            "Post user communication using the 'Unplanned Outage' template from the runbook",
            false,
            None,
        ),
    );
    steps.push(
        playbook_step(
            6,
            "After root-cause is confirmed fixed, unpause contract via POST /admin/dr/actions (step: unpause_contract)",
            true,
            Some(DrStep::UnpauseContract),
        ),
    );
    let r = IncidentPlaybook {
        id: "playbook-001".to_owned(),
        name: "Contract exploit / active fund loss".to_owned(),
        description: "Immediate response to a detected smart-contract exploit or active unauthorised fund movement.".to_owned(),
        severity: PlaybookSeverity::P0,
        triggers,
        steps,
        escalation_contacts,
        runbook_refs,
    };
    assert(r@.triggers =~= exploit_playbook_model().triggers);
    assert(r@.steps =~= exploit_playbook_model().steps);
    assert(r@.escalation_contacts =~= exploit_playbook_model().escalation_contacts);
    assert(r@.runbook_refs =~= exploit_playbook_model().runbook_refs);
    r
}

/// The playbook for: Contract frozen / vaults inaccessible.
pub open spec fn frozen_contract_playbook_model() -> PlaybookModel {
    PlaybookModel {
        id: "playbook-002"@,
        name: "Contract frozen / vaults inaccessible"@,
        description: "Vault operations are reverting or the contract is unresponsive but there is no evidence of active fund loss."@,
        severity: PlaybookSeverity::P1,
        triggers: seq![
            "All 'check_in' calls returning error for > 5 minutes"@,
            "Health endpoint returning 503"@,
            "Contract 'is_paused' returning unexpected true"@,
        ],
        steps: seq![
            StepModel {
                order: 1,
                action: "Confirm contract pause state via 'stellar contract invoke ... is_paused'"@,
                automated: false,
                dr_step: None,
            },
            StepModel {
                order: 2,
                action: "If paused unexpectedly, investigate who triggered the pause (audit log)"@,
                automated: false,
                dr_step: None,
            },
            StepModel {
                order: 3,
                action: "If safe to resume, unpause via POST /admin/dr/actions (step: unpause_contract)"@,
                automated: true,
                dr_step: Some(DrStep::UnpauseContract),
            },
            StepModel {
                order: 4,
                action: "Verify vault operations resume normally on testnet before mainnet"@,
                automated: false,
                dr_step: None,
            },
        ],
        escalation_contacts: seq![
            "on-call-operator (internal channel)"@,
        ],
        runbook_refs: seq![
            "disaster-recovery-runbook.md §1"@,
        ],
    }
}

fn frozen_contract_playbook() -> (r: IncidentPlaybook)
    ensures
        r@ == frozen_contract_playbook_model(),
{
    let mut triggers: Vec<String> = Vec::new();
    triggers.push("All 'check_in' calls returning error for > 5 minutes".to_owned());
    triggers.push("Health endpoint returning 503".to_owned());
    triggers.push("Contract 'is_paused' returning unexpected true".to_owned());
    let mut escalation_contacts: Vec<String> = Vec::new();
    escalation_contacts.push("on-call-operator (internal channel)".to_owned());
    let mut runbook_refs: Vec<String> = Vec::new();
    runbook_refs.push("disaster-recovery-runbook.md §1".to_owned());
    let mut steps: Vec<PlaybookStep> = Vec::new();
    steps.push(
        playbook_step(
            1,
            "Confirm contract pause state via 'stellar contract invoke ... is_paused'",
            false,
            None,
        ),
    );
    steps.push(
        playbook_step(
            2,
            "If paused unexpectedly, investigate who triggered the pause (audit log)",
            false,
            None,
        ),
    );
    steps.push(
        playbook_step(
            3,
            "If safe to resume, unpause via POST /admin/dr/actions (step: unpause_contract)",
            true,
            Some(DrStep::UnpauseContract),
        ),
    );
    steps.push(
        playbook_step(
            4,
            "Verify vault operations resume normally on testnet before mainnet",
            false,
            None,
        ),
    );
    let r = IncidentPlaybook {
        id: "playbook-002".to_owned(),
        name: "Contract frozen / vaults inaccessible".to_owned(),
        description: "Vault operations are reverting or the contract is unresponsive but there is no evidence of active fund loss.".to_owned(),
        severity: PlaybookSeverity::P1,
        triggers,
        steps,
        escalation_contacts,
        runbook_refs,
    };
    assert(r@.triggers =~= frozen_contract_playbook_model().triggers);
    assert(r@.steps =~= frozen_contract_playbook_model().steps);
    assert(r@.escalation_contacts =~= frozen_contract_playbook_model().escalation_contacts);
    assert(r@.runbook_refs =~= frozen_contract_playbook_model().runbook_refs);
    r
}

/// The playbook for: Archived vault recovery.
pub open spec fn archived_vault_playbook_model() -> PlaybookModel {
    PlaybookModel {
        id: "playbook-003"@,
        name: "Archived vault recovery"@,
        description: "A vault's Soroban persistent entry has expired (TTL lapsed) and needs to be restored before trigger_release can proceed."@,
        severity: PlaybookSeverity::P2,
        triggers: seq![
            "trigger_release returning 'vault archived' error"@,
            "get_archived_vault_info returning Some(ArchivedVaultInfo)"@,
        ],
        steps: seq![
            StepModel {
                order: 1,
                action: "Confirm archival via 'stellar contract invoke ... get_archived_vault_info --vault_id <ID>'"@,
                automated: false,
                dr_step: None,
            },
            StepModel {
                order: 2,
                action: "Restore vault via POST /admin/dr/actions (step: restore_vault, vault_id: <ID>)"@,
                automated: true,
                dr_step: Some(DrStep::RestoreVault),
            },
            StepModel {
                order: 3,
                action: "Verify restoration via 'stellar contract invoke ... get_vault --vault_id <ID>'"@,
                automated: false,
                dr_step: None,
            },
        ],
        escalation_contacts: seq![
            "on-call-operator (internal channel)"@,
        ],
        runbook_refs: seq![
            "disaster-recovery-runbook.md §3"@,
        ],
    }
}

fn archived_vault_playbook() -> (r: IncidentPlaybook)
    ensures
        r@ == archived_vault_playbook_model(),
{
    let mut triggers: Vec<String> = Vec::new();
    triggers.push("trigger_release returning 'vault archived' error".to_owned());
    triggers.push("get_archived_vault_info returning Some(ArchivedVaultInfo)".to_owned());
    let mut escalation_contacts: Vec<String> = Vec::new();
    escalation_contacts.push("on-call-operator (internal channel)".to_owned());
    let mut runbook_refs: Vec<String> = Vec::new();
    runbook_refs.push("disaster-recovery-runbook.md §3".to_owned());
    let mut steps: Vec<PlaybookStep> = Vec::new();
    steps.push(
        playbook_step(
            1,
            "Confirm archival via 'stellar contract invoke ... get_archived_vault_info --vault_id <ID>'",
            false,
            None,
        ),
    );
    steps.push(
        playbook_step(
            2,
            "Restore vault via POST /admin/dr/actions (step: restore_vault, vault_id: <ID>)",
            true,
            Some(DrStep::RestoreVault),
        ),
    );
    steps.push(
        playbook_step(
            3,
            "Verify restoration via 'stellar contract invoke ... get_vault --vault_id <ID>'",
            false,
            None,
        ),
    );
    let r = IncidentPlaybook {
        id: "playbook-003".to_owned(),
        name: "Archived vault recovery".to_owned(),
        description: "A vault's Soroban persistent entry has expired (TTL lapsed) and needs to be restored before trigger_release can proceed.".to_owned(),
        severity: PlaybookSeverity::P2,
        triggers,
        steps,
        escalation_contacts,
        runbook_refs,
    };
    assert(r@.triggers =~= archived_vault_playbook_model().triggers);
    assert(r@.steps =~= archived_vault_playbook_model().steps);
    assert(r@.escalation_contacts =~= archived_vault_playbook_model().escalation_contacts);
    assert(r@.runbook_refs =~= archived_vault_playbook_model().runbook_refs);
    r
}

/// The playbook for: Admin key compromise.
pub open spec fn key_compromise_playbook_model() -> PlaybookModel {
    PlaybookModel {
        id: "playbook-004"@,
        name: "Admin key compromise"@,
        description: "The admin signing key is suspected to be compromised. Time-sensitive: rotate before an attacker exploits admin authority."@,
        severity: PlaybookSeverity::P0,
        triggers: seq![
            "Unexpected admin-signed transaction in ledger history"@,
            "Admin key material exposed in logs or public repository"@,
        ],
        steps: seq![
            StepModel {
                order: 1,
                action: "Immediately pause contract to prevent admin-signed exploit"@,
                automated: true,
                dr_step: Some(DrStep::PauseContract),
            },
            StepModel {
                order: 2,
                action: "Propose new admin: 'stellar contract invoke ... propose_admin --new_admin <address>'"@,
                automated: false,
                dr_step: None,
            },
            StepModel {
                order: 3,
                action: "Accept admin with new key: 'stellar contract invoke ... accept_admin'"@,
                automated: false,
                dr_step: None,
            },
            StepModel {
                order: 4,
                action: "Revoke and rotate any related secrets (API keys, DB creds) via secret rotation module"@,
                automated: false,
                dr_step: None,
            },
            StepModel {
                order: 5,
                action: "Post-incident review within 72 hours per runbook §8"@,
                automated: false,
                dr_step: None,
            },
        ],
        escalation_contacts: seq![
            "security@ethos-protocol.example.com"@,
            "External auditor (contract-specific contact)"@,
        ],
        runbook_refs: seq![
            "disaster-recovery-runbook.md §5"@,
            "disaster-recovery-runbook.md §8"@,
        ],
    }
}

fn key_compromise_playbook() -> (r: IncidentPlaybook)
    ensures
        r@ == key_compromise_playbook_model(),
{
    let mut triggers: Vec<String> = Vec::new();
    triggers.push("Unexpected admin-signed transaction in ledger history".to_owned());
    triggers.push("Admin key material exposed in logs or public repository".to_owned());
    let mut escalation_contacts: Vec<String> = Vec::new();
    escalation_contacts.push("security@ethos-protocol.example.com".to_owned());
    escalation_contacts.push("External auditor (contract-specific contact)".to_owned());
    let mut runbook_refs: Vec<String> = Vec::new();
    runbook_refs.push("disaster-recovery-runbook.md §5".to_owned());
    runbook_refs.push("disaster-recovery-runbook.md §8".to_owned());
    let mut steps: Vec<PlaybookStep> = Vec::new();
    steps.push(
        playbook_step(
            1,
            "Immediately pause contract to prevent admin-signed exploit",
            true,
            Some(DrStep::PauseContract),
        ),
    );
    steps.push(
        playbook_step(
            2,
            "Propose new admin: 'stellar contract invoke ... propose_admin --new_admin <address>'",
            false,
            None,
        ),
    );
    steps.push(
        playbook_step(
            3,
            "Accept admin with new key: 'stellar contract invoke ... accept_admin'",
            false,
            None,
        ),
    );
    steps.push(
        playbook_step(
            4,
            "Revoke and rotate any related secrets (API keys, DB creds) via secret rotation module",
            false,
            None,
        ),
    );
    steps.push(
        playbook_step(
            5,
            "Post-incident review within 72 hours per runbook §8",
            false,
            None,
        ),
    );
    let r = IncidentPlaybook {
        id: "playbook-004".to_owned(),
        name: "Admin key compromise".to_owned(),
        description: "The admin signing key is suspected to be compromised. Time-sensitive: rotate before an attacker exploits admin authority.".to_owned(),
        severity: PlaybookSeverity::P0,
        triggers,
        steps,
        escalation_contacts,
        runbook_refs,
    };
    assert(r@.triggers =~= key_compromise_playbook_model().triggers);
    assert(r@.steps =~= key_compromise_playbook_model().steps);
    assert(r@.escalation_contacts =~= key_compromise_playbook_model().escalation_contacts);
    assert(r@.runbook_refs =~= key_compromise_playbook_model().runbook_refs);
    r
}

/// The incident response playbooks.
pub open spec fn playbooks_model() -> Seq<PlaybookModel> {
    seq![
        exploit_playbook_model(),
        frozen_contract_playbook_model(),
        archived_vault_playbook_model(),
        key_compromise_playbook_model(),
    ]
}

/// The incident response playbooks.
pub fn incident_playbooks() -> (r: Vec<IncidentPlaybook>)
    ensures
        r@.map_values(|p: IncidentPlaybook| p@) == playbooks_model(),
{
    let mut playbooks: Vec<IncidentPlaybook> = Vec::new();
    playbooks.push(exploit_playbook());
    playbooks.push(frozen_contract_playbook());
    playbooks.push(archived_vault_playbook());
    playbooks.push(key_compromise_playbook());
    assert(playbooks@.map_values(|p: IncidentPlaybook| p@) =~= playbooks_model());
    playbooks
}

/// Every playbook is well formed, and no two have the same id.
pub proof fn playbooks_are_well_formed()
    ensures
        forall|i: int| 0 <= i < playbooks_model().len() ==> (#[trigger] playbooks_model()[i]).well_formed(),
        forall|i: int, j: int|
            0 <= i < j < playbooks_model().len() ==> (#[trigger] playbooks_model()[i]).id != (
            #[trigger] playbooks_model()[j]).id,
{
    reveal_strlit("playbook-001");
    reveal_strlit("playbook-002");
    reveal_strlit("playbook-003");
    reveal_strlit("playbook-004");
    let exploit = exploit_playbook_model();
    let frozen = frozen_contract_playbook_model();
    let archived = archived_vault_playbook_model();
    let keys = key_compromise_playbook_model();
    assert(exploit.steps[1].dr_step == Some(DrStep::PauseContract));
    assert(exploit.well_formed());
    assert(frozen.well_formed());
    assert(archived.well_formed());
    assert(keys.steps[0].dr_step == Some(DrStep::PauseContract));
    assert(keys.well_formed());
    assert(exploit.id[11] == '1' && frozen.id[11] == '2' && archived.id[11] == '3' && keys.id[11]
        == '4');
}

/// No two scheduled tests have the same id, and pausing and restoring are both
/// drilled.
pub proof fn schedule_is_well_formed()
    ensures
        forall|i: int, j: int|
            0 <= i < j < schedule_model().len() ==> (#[trigger] schedule_model()[i]).id != (
            #[trigger] schedule_model()[j]).id,
        exists|i: int|
            0 <= i < schedule_model().len() && (#[trigger] schedule_model()[i]).step
                == DrStep::PauseContract,
        exists|i: int|
            0 <= i < schedule_model().len() && (#[trigger] schedule_model()[i]).step
                == DrStep::RestoreVault,
{
    reveal_strlit("dr-test-001");
    reveal_strlit("dr-test-002");
    reveal_strlit("dr-test-003");
    reveal_strlit("dr-test-004");
    let s = schedule_model();
    assert(s[0].id[10] == '1' && s[1].id[10] == '2' && s[2].id[10] == '3' && s[3].id[10] == '4');
    assert(s[0].step == DrStep::PauseContract);
    assert(s[1].step == DrStep::RestoreVault);
}

/// A token releases its step for five minutes, once, and for nothing that was not
/// requested. From five minutes on it is refused as expired, a token that is not known is
/// refused as such, and in either case nothing can be confirmed with it any more.
pub proof fn tokens_are_good_for_five_minutes(
    before: Map<Seq<char>, PendingAction>,
    middle: Map<Seq<char>, PendingAction>,
    after: Map<Seq<char>, PendingAction>,
    body: RequestDrActionRequest,
    token: Seq<char>,
    now: Time,
    later: Time,
    response: RequestDrActionResponse,
    r: Result<PendingAction, DrRefusal>,
    other: Seq<char>,
)
    requires
        requested(before, middle, body, token, now, Ok(response)),
        confirmed(middle, after, token, later, r),
        TIME_MIN <= now <= TIME_MAX,
        other != token,
    ensures
        response.confirmation_token@ == token,
        response.expires_at - now == 300_000_000_000,
        r is Ok <==> later - now < 300_000_000_000,
        r matches Ok(action) ==> action.step == body.step && action.vault_id == body.vault_id
            && action.requested_by == body.requested_by,
        r matches Err(refusal) ==> refusal.status == 410,
        !after.contains_key(token),
        after.contains_key(other) == before.contains_key(other),
        before.contains_key(other) ==> after[other] == before[other],
{
}

/// A token that was never handed out, or is used up, releases nothing.
pub proof fn unknown_tokens_release_nothing(
    before: Map<Seq<char>, PendingAction>,
    after: Map<Seq<char>, PendingAction>,
    token: Seq<char>,
    now: Time,
    r: Result<PendingAction, DrRefusal>,
)
    requires
        confirmed(before, after, token, now, r),
        !before.contains_key(token),
    ensures
        r matches Err(refusal) && refusal.status == 404,
        after == before,
{
    assert(before.remove(token) =~= before);
}

/// A step is requested unless it is to restore a vault and does not say which.
pub proof fn restoring_needs_a_vault(
    before: Map<Seq<char>, PendingAction>,
    after: Map<Seq<char>, PendingAction>,
    body: RequestDrActionRequest,
    token: Seq<char>,
    now: Time,
    r: Result<RequestDrActionResponse, DrRefusal>,
)
    requires
        requested(before, after, body, token, now, r),
    ensures
        r is Err <==> body.step is RestoreVault && body.vault_id is None,
        r is Err ==> after == before,
        r matches Ok(response) ==> response.step == body.step && after.contains_key(token)
            && after[token].step == body.step,
{
}

/// Each step calls its own function of the contract, with the contract, the network and
/// the account that were given; restoring names the vault.
pub proof fn steps_call_their_own_function(
    step: DrStep,
    vault_id: Option<u64>,
    contract_id: Seq<char>,
    network: Seq<char>,
    source: Seq<char>,
)
    ensures
        ({
            let args = invocation(step, vault_id, contract_id, network, source);
            &&& args[2] == "--id"@ && args[3] == contract_id
            &&& args[4] == "--network"@ && args[5] == network
            &&& args[6] == "--source"@ && args[7] == source
            &&& args[9] == match step {
                DrStep::PauseContract => "pause"@,
                DrStep::UnpauseContract => "unpause"@,
                DrStep::RestoreVault => "restore_vault"@,
            }
            &&& step is RestoreVault ==> args.len() == 12 && args[10] == "--vault_id"@ && (
            vault_id matches Some(id) ==> args[11] == decimal(id as nat))
            &&& !(step is RestoreVault) ==> args.len() == 10
        }),
{
}

/// A step has succeeded only where the client ended well; what it wrote is shown: its
/// output then, and its errors otherwise.
pub proof fn results_show_what_the_client_wrote(
    r: DrActionResult,
    step: DrStep,
    run: ClientRun,
    executed_at: Time,
)
    requires
        reports_run(r, step, run, executed_at),
    ensures
        r.success <==> run is Finished && run->success,
        run is Finished && run->success ==> r.output@ == run->stdout@,
        run is Finished && !run->success ==> r.output@ == run->stderr@,
        r.step == step,
{
}

} // verus!
