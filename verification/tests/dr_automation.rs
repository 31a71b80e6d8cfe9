use ethos_protocol_backend::clock::{utc_now, MINUTE};
use ethos_protocol_backend::dr_automation::{
    confirm_dr_action, confirm_dr_action_at, dr_test_schedule, execute_step, incident_playbooks,
    request_dr_action, request_dr_action_with, step_arguments, ClientRun, DrAutomationState,
    DrStep, PendingAction, PlaybookSeverity, RequestDrActionRequest, RtoRpoTargets,
};

fn request(step: DrStep, vault_id: Option<u64>) -> RequestDrActionRequest {
    RequestDrActionRequest { step, vault_id, requested_by: "tester".to_string() }
}

#[test]
fn rto_rpo_p0_is_most_aggressive() {
    let targets = RtoRpoTargets::current();
    assert!(targets.p0_rto_minutes < targets.p1_rto_minutes);
    assert!(targets.p1_rto_minutes < targets.p2_rto_minutes);
    assert!(targets.p2_rto_minutes < targets.p3_rto_minutes);
}

#[test]
fn rto_rpo_p0_rpo_is_zero() {
    let targets = RtoRpoTargets::current();
    assert_eq!(targets.p0_rpo_minutes, 0);
}

#[test]
fn rto_rpo_all_fields_positive_or_zero() {
    let t = RtoRpoTargets::current();
    assert!(t.p0_rto_minutes > 0);
    assert!(t.p1_rto_minutes > 0);
    assert!(t.p1_rpo_minutes > 0);
    assert!(t.p2_rto_minutes > 0);
    assert!(t.p2_rpo_minutes > 0);
    assert!(t.p3_rto_minutes > 0);
    assert!(t.p3_rpo_minutes > 0);
}

#[test]
fn rto_rpo_last_reviewed_is_set() {
    let targets = RtoRpoTargets::current();
    assert!(!targets.last_reviewed.is_empty());
}

#[test]
fn dr_test_schedule_is_non_empty() {
    let schedule = dr_test_schedule();
    assert!(!schedule.is_empty(), "DR test schedule must not be empty");
}

#[test]
fn dr_test_schedule_all_entries_have_unique_ids() {
    let schedule = dr_test_schedule();
    let mut ids: Vec<&str> = schedule.iter().map(|e| e.id.as_str()).collect();
    ids.sort_unstable();
    ids.dedup();
    assert_eq!(ids.len(), schedule.len(), "all DR test IDs must be unique");
}

#[test]
fn dr_test_schedule_all_entries_have_names_and_owners() {
    for entry in dr_test_schedule() {
        assert!(!entry.name.is_empty(), "DR test '{}' has empty name", entry.id);
        assert!(!entry.owner.is_empty(), "DR test '{}' has empty owner", entry.id);
        assert!(!entry.next_due.is_empty(), "DR test '{}' has empty next_due", entry.id);
    }
}

#[test]
fn dr_test_schedule_includes_pause_and_restore() {
    let schedule = dr_test_schedule();
    let has_pause = schedule.iter().any(|e| e.step == DrStep::PauseContract);
    let has_restore = schedule.iter().any(|e| e.step == DrStep::RestoreVault);
    assert!(has_pause, "schedule must include a PauseContract drill");
    assert!(has_restore, "schedule must include a RestoreVault drill");
}

#[test]
fn playbooks_are_non_empty() {
    assert!(!incident_playbooks().is_empty());
}

#[test]
fn playbooks_all_have_unique_ids() {
    let playbooks = incident_playbooks();
    let mut ids: Vec<&str> = playbooks.iter().map(|p| p.id.as_str()).collect();
    ids.sort_unstable();
    ids.dedup();
    assert_eq!(ids.len(), playbooks.len(), "all playbook IDs must be unique");
}

#[test]
fn playbooks_all_have_at_least_one_step() {
    for playbook in incident_playbooks() {
        assert!(!playbook.steps.is_empty(), "playbook '{}' has no steps", playbook.id);
    }
}

#[test]
fn playbooks_steps_are_ordered_consecutively() {
    for playbook in incident_playbooks() {
        let orders: Vec<u32> = playbook.steps.iter().map(|s| s.order).collect();
        for (i, &order) in orders.iter().enumerate() {
            assert_eq!(
                order,
                (i + 1) as u32,
                "playbook '{}' step orders must start at 1 and be consecutive",
                playbook.id
            );
        }
    }
}

#[test]
fn automated_playbook_steps_have_dr_step() {
    for playbook in incident_playbooks() {
        for step in &playbook.steps {
            if step.automated {
                assert!(
                    step.dr_step.is_some(),
                    "playbook '{}' step {} is automated but has no dr_step",
                    playbook.id,
                    step.order
                );
            }
        }
    }
}

#[test]
fn playbooks_p0_includes_pause_step() {
    let p0_playbooks: Vec<_> = incident_playbooks()
        .into_iter()
        .filter(|p| p.severity == PlaybookSeverity::P0)
        .collect();
    assert!(!p0_playbooks.is_empty(), "at least one P0 playbook expected");

    for playbook in &p0_playbooks {
        let has_pause =
            playbook.steps.iter().any(|s| s.dr_step == Some(DrStep::PauseContract));
        assert!(
            has_pause,
            "P0 playbook '{}' must include a PauseContract step",
            playbook.id
        );
    }
}

#[test]
fn playbooks_all_have_escalation_contacts() {
    for playbook in incident_playbooks() {
        assert!(
            !playbook.escalation_contacts.is_empty(),
            "playbook '{}' has no escalation contacts",
            playbook.id
        );
    }
}

#[test]
fn playbooks_all_have_runbook_refs() {
    for playbook in incident_playbooks() {
        assert!(
            !playbook.runbook_refs.is_empty(),
            "playbook '{}' has no runbook_refs",
            playbook.id
        );
    }
}

#[test]
fn request_dr_action_returns_token() {
    let mut state = DrAutomationState::new();
    let result = request_dr_action(&mut state, request(DrStep::PauseContract, None)).unwrap();
    assert!(!result.confirmation_token.is_empty());
    assert!(result.expires_at > utc_now());
}

#[test]
fn restore_vault_requires_vault_id() {
    let mut state = DrAutomationState::new();
    let result = request_dr_action(&mut state, request(DrStep::RestoreVault, None));
    assert!(result.is_err());
    assert_eq!(result.unwrap_err().status, 400);
}

#[test]
fn confirm_dr_action_rejects_unknown_token() {
    let mut state = DrAutomationState::new();
    let result = confirm_dr_action(&mut state, "nonexistent-token");
    assert!(result.is_err());
    assert_eq!(result.unwrap_err().status, 404);
}

#[test]
fn confirm_dr_action_rejects_expired_token() {
    let mut state = DrAutomationState::new();
    state.pending.insert(
        "expired-token".to_string(),
        PendingAction {
            step: DrStep::PauseContract,
            vault_id: None,
            requested_by: "tester".to_string(),
            expires_at: utc_now() - 10 * MINUTE,
        },
    );

    let result = confirm_dr_action(&mut state, "expired-token");
    assert!(result.is_err());
    assert_eq!(result.unwrap_err().status, 410);
}

#[test]
fn a_token_confirms_its_step_once() {
    let mut state = DrAutomationState::default();
    let answer = request_dr_action_with(
        &mut state,
        request(DrStep::RestoreVault, Some(7)),
        "token".to_string(),
        1_000,
    )
    .unwrap();
    assert_eq!(answer.confirmation_token, "token");
    assert_eq!(answer.expires_at, 1_000 + 5 * MINUTE);
    let action = confirm_dr_action_at(&mut state, "token", 2_000).unwrap();
    assert_eq!(action.step, DrStep::RestoreVault);
    assert_eq!(action.vault_id, Some(7));
    assert_eq!(confirm_dr_action_at(&mut state, "token", 2_001).unwrap_err().status, 404);
    assert!(DrStep::PauseContract.is_destructive());
}

#[test]
fn steps_become_client_calls() {
    let args = step_arguments(DrStep::RestoreVault, Some(42), "CID", "testnet", "alice");
    assert!(args.contains(&"CID".to_string()));
    assert!(args.contains(&"testnet".to_string()));
    assert!(args.contains(&"alice".to_string()));
    assert!(args.contains(&"42".to_string()));

    let ok = execute_step(
        DrStep::PauseContract,
        ClientRun::Finished {
            success: true,
            stdout: "done".to_string(),
            stderr: "warning".to_string(),
        },
        5,
    );
    assert!(ok.success);
    assert_eq!(ok.output, "done");
    assert_eq!(ok.executed_at, 5);
    let failed = execute_step(
        DrStep::PauseContract,
        ClientRun::Finished {
            success: false,
            stdout: "done".to_string(),
            stderr: "broken".to_string(),
        },
        5,
    );
    assert!(!failed.success);
    assert_eq!(failed.output, "broken");
    let absent = execute_step(
        DrStep::PauseContract,
        ClientRun::NotStarted { error: "no such file".to_string() },
        5,
    );
    assert!(!absent.success);
    assert!(absent.output.contains("no such file"));
}
