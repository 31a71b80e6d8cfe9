use ethos_protocol_backend::materialized_views::{
    count_by_owner, status_delta, summarize, BalanceOverflow, MaterializedViewManager, VaultRow,
    OWNER_VIEW, SUMMARY_VIEW,
};

fn row(owner: &str, balance: i128, interval: u64, status: &str) -> VaultRow {
    VaultRow {
        owner: owner.to_string(),
        balance,
        check_in_interval: interval,
        status: status.to_string(),
    }
}

fn one_vault() -> Vec<VaultRow> {
    vec![row("alice", 1000, 3600, "active")]
}

#[test]
fn full_refresh_populates_summary_view() {
    let mut mgr = MaterializedViewManager::new();
    mgr.refresh_all(&one_vault()).unwrap();

    let summary = mgr.get_vault_summary().unwrap();
    assert_eq!(summary.total_vaults, 1);
    assert_eq!(summary.active_vaults, 1);
    assert_eq!(summary.released_vaults, 0);
}

#[test]
fn full_refresh_is_idempotent() {
    let mut mgr = MaterializedViewManager::new();
    mgr.refresh_all(&one_vault()).unwrap();
    let first = mgr.get_vault_summary().unwrap();
    mgr.refresh_all(&one_vault()).unwrap();
    let second = mgr.get_vault_summary().unwrap();
    assert_eq!(first.total_vaults, second.total_vaults);
    assert_eq!(first.active_vaults, second.active_vaults);
}

#[test]
fn incremental_update_tracks_status_change() {
    let mut mgr = MaterializedViewManager::new();
    mgr.refresh_all(&one_vault()).unwrap();

    mgr.apply_incremental_vault_update(Some("active"), Some("released"));

    let after = mgr.get_vault_summary().unwrap();
    assert_eq!(after.active_vaults, 0);
    assert_eq!(after.released_vaults, 1);
}

#[test]
fn incremental_insert_increments_total() {
    let mut mgr = MaterializedViewManager::new();
    mgr.refresh_all(&one_vault()).unwrap();
    let before = mgr.get_vault_summary().unwrap();

    mgr.apply_incremental_vault_update(None, Some("active"));

    let after = mgr.get_vault_summary().unwrap();
    assert_eq!(after.total_vaults, before.total_vaults + 1);
    assert_eq!(after.active_vaults, before.active_vaults + 1);
}

#[test]
fn incremental_delete_decrements_total() {
    let mut mgr = MaterializedViewManager::new();
    mgr.refresh_all(&one_vault()).unwrap();
    let before = mgr.get_vault_summary().unwrap();

    mgr.apply_incremental_vault_update(Some("active"), None);

    let after = mgr.get_vault_summary().unwrap();
    assert_eq!(after.total_vaults, (before.total_vaults - 1).max(0));
}

#[test]
fn owner_counts_populated_after_refresh() {
    let mut mgr = MaterializedViewManager::new();
    mgr.refresh_all(&one_vault()).unwrap();

    let counts = mgr.get_owner_counts();
    assert_eq!(counts.len(), 1);
    assert_eq!(counts[0].owner, "alice");
    assert_eq!(counts[0].vault_count, 1);
    assert_eq!(counts[0].active_count, 1);
}

#[test]
fn summary_counters_floor_at_zero() {
    let mut mgr = MaterializedViewManager::new();
    mgr.refresh_all(&one_vault()).unwrap();

    for _ in 0..5 {
        mgr.apply_incremental_vault_update(Some("active"), None);
    }
    let summary = mgr.get_vault_summary().unwrap();
    assert!(summary.total_vaults >= 0);
    assert!(summary.active_vaults >= 0);
}

#[test]
fn status_delta_helper_correct() {
    assert_eq!(status_delta("active", None, Some("active")), 1);
    assert_eq!(status_delta("active", Some("active"), None), -1);
    assert_eq!(status_delta("active", Some("active"), Some("released")), -1);
    assert_eq!(status_delta("released", Some("active"), Some("released")), 1);
    assert_eq!(status_delta("active", Some("active"), Some("active")), 0);
}

#[test]
fn set_refresh_interval_does_not_panic() {
    let mut mgr = MaterializedViewManager::new();
    mgr.set_refresh_interval(SUMMARY_VIEW, 60_000_000_000);
}

#[test]
fn the_summary_adds_up_balances_and_intervals() {
    let rows = vec![
        row("a", 1000, 10, "active"),
        row("b", -300, 20, "expired"),
        row("a", 50, 40, "released"),
        row("c", 0, 0, "paused"),
    ];
    let view = summarize(&rows, 9).unwrap();
    assert_eq!(view.total_vaults, 4);
    assert_eq!(view.active_vaults, 1);
    assert_eq!(view.released_vaults, 1);
    assert_eq!(view.expired_vaults, 1);
    assert_eq!(view.total_balance, 750);
    assert_eq!(view.avg_check_in_interval.numerator, 70);
    assert_eq!(view.avg_check_in_interval.denominator, 4);
    assert_eq!(view.last_refreshed_at, 9);

    let empty = summarize(&vec![], 9).unwrap();
    assert_eq!(empty.total_vaults, 0);
    assert_eq!(empty.avg_check_in_interval.numerator, 0);
    assert_eq!(empty.avg_check_in_interval.denominator, 1);
}

#[test]
fn balances_beyond_the_range_are_refused() {
    let rows = vec![row("a", i128::MAX, 1, "active"), row("a", 1, 1, "active")];
    assert!(summarize(&rows, 0).is_none());
    let mut mgr = MaterializedViewManager::new();
    assert_eq!(mgr.refresh_all(&rows), Err(BalanceOverflow));
    assert!(mgr.get_vault_summary().is_none());
    assert!(mgr.get_owner_counts().is_empty());
}

#[test]
fn owners_with_most_vaults_come_first() {
    let rows = vec![
        row("a", 1, 1, "active"),
        row("b", 1, 1, "active"),
        row("b", 1, 1, "released"),
        row("c", 1, 1, "expired"),
        row("b", 1, 1, "active"),
        row("c", 1, 1, "active"),
    ];
    let counts = count_by_owner(&rows);
    let shown: Vec<(&str, i64, i64)> = counts
        .iter()
        .map(|c| (c.owner.as_str(), c.vault_count, c.active_count))
        .collect();
    assert_eq!(shown, vec![("b", 3, 2), ("c", 2, 1), ("a", 1, 1)]);
}

#[test]
fn changes_of_single_vaults_agree_with_a_refresh() {
    let mut rows = vec![row("a", 1, 1, "active"), row("b", 1, 1, "released")];
    let mut mgr = MaterializedViewManager::new();
    mgr.refresh_all(&rows).unwrap();
    mgr.apply_incremental_vault_update(Some("released"), Some("expired"));
    mgr.apply_incremental_vault_update(None, Some("active"));
    rows[1].status = "expired".to_string();
    rows.push(row("c", 1, 1, "active"));
    let fresh = summarize(&rows, 0).unwrap();
    let kept = mgr.get_vault_summary().unwrap();
    assert_eq!(kept.total_vaults, fresh.total_vaults);
    assert_eq!(kept.active_vaults, fresh.active_vaults);
    assert_eq!(kept.released_vaults, fresh.released_vaults);
    assert_eq!(kept.expired_vaults, fresh.expired_vaults);
}

#[test]
fn views_are_due_again_after_their_interval() {
    let hour: u128 = 3_600_000_000_000;
    let mut mgr = MaterializedViewManager::new();
    assert!(mgr.is_due(SUMMARY_VIEW));
    assert!(mgr.is_due(OWNER_VIEW));
    assert!(!mgr.is_due("no_such_view"));
    mgr.set_refresh_interval(OWNER_VIEW, 7);
    mgr.refresh_due_views_at(&one_vault(), hour, 4).unwrap();
    assert!(!mgr.is_due_at(SUMMARY_VIEW, hour + 299_999_999_999));
    assert!(mgr.is_due_at(SUMMARY_VIEW, hour + 300_000_000_000));
    assert!(!mgr.is_due_at(OWNER_VIEW, hour + 6));
    assert!(mgr.is_due_at(OWNER_VIEW, hour + 7));
    assert_eq!(mgr.get_vault_summary().unwrap().last_refreshed_at, 4);
    // Only the owner view is due now.
    mgr.refresh_due_views_at(&vec![], hour + 10, 5).unwrap();
    assert_eq!(mgr.get_vault_summary().unwrap().last_refreshed_at, 4);
    assert!(mgr.get_owner_counts().is_empty());
}

#[test]
fn incremental_updates_keep_the_time_of_the_full_refresh() {
    let mut mgr = MaterializedViewManager::new();
    let rows = vec![row("alice", 1, 60, "active"), row("bob", 2, 60, "active")];
    mgr.refresh_vault_summary_at(&rows, 3, 4).unwrap();
    mgr.apply_incremental_vault_update(Some("active"), Some("expired"));
    let view = mgr.get_vault_summary().unwrap();
    assert_eq!((view.active_vaults, view.expired_vaults), (1, 1));
    assert_eq!(view.last_refreshed_at, 4);
}
