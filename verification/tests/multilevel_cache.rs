use ethos_protocol_backend::multilevel_cache::{
    DriftKind, L1Cache, MultiLevelCache, Vault, VaultStatus, VaultSummary,
};

const SECOND: u128 = 1_000_000_000;
const MILLI: u128 = 1_000_000;

fn make_vault(id: &str) -> Vault {
    Vault {
        id: id.to_string(),
        owner: "owner1".to_string(),
        beneficiary: "ben1".to_string(),
        balance: 1000,
        check_in_interval: 86400,
        last_check_in: 1_700_000_000_000_000_000,
        created_at: 1_700_000_000_000_000_000,
        status: VaultStatus::Active,
        ttl_remaining: Some(86400),
    }
}

fn make_summary(vault_id: &str) -> VaultSummary {
    VaultSummary {
        vault_id: vault_id.to_string(),
        owner: "owner1".to_string(),
        status: VaultStatus::Active,
        ttl_remaining: Some(86400),
        balance: 1000,
    }
}

#[test]
fn test_set_and_get_vault_l1_hit() {
    let mut cache = MultiLevelCache::new();
    cache.set_vault("v1", make_vault("v1"));

    let result = cache.get_vault("v1");
    assert!(result.is_some());
    assert_eq!(result.unwrap().id, "v1");

    let stats = cache.get_stats();
    assert_eq!(stats.l1.hits, 1);
}

#[test]
fn test_l2_fallback_on_l1_miss() {
    let mut cache = MultiLevelCache::with_ttls(MILLI, 60 * SECOND);
    let now = cache.now();
    cache.set_vault_at("v1", make_vault("v1"), now);

    let result = cache.get_vault_at("v1", now + 5 * MILLI);
    assert!(result.is_some());

    let stats = cache.get_stats();
    assert_eq!(stats.l1.misses, 1);
    assert_eq!(stats.l2.hits, 1);
}

#[test]
fn test_l2_promotion_to_l1() {
    let mut cache = MultiLevelCache::with_ttls(MILLI, 60 * SECOND);
    let now = cache.now();
    cache.set_vault_at("v1", make_vault("v1"), now);

    cache.get_vault_at("v1", now + 5 * MILLI);

    let stats = cache.get_stats();
    assert_eq!(stats.l2.promotions, 1);
}

#[test]
fn test_invalidate_clears_both_levels() {
    let mut cache = MultiLevelCache::new();
    cache.set_vault("v1", make_vault("v1"));

    cache.invalidate("v1");

    assert!(cache.get_vault("v1").is_none());

    let stats = cache.get_stats();
    assert_eq!(stats.l1.misses, 1);
    assert_eq!(stats.l2.misses, 1);
}

#[test]
fn test_invalidate_all_clears_both_levels() {
    let mut cache = MultiLevelCache::new();
    cache.set_vault("v1", make_vault("v1"));
    cache.set_vault("v2", make_vault("v2"));

    cache.invalidate_all();

    assert!(cache.get_vault("v1").is_none());
    assert!(cache.get_vault("v2").is_none());
}

#[test]
fn test_cache_miss_returns_none() {
    let mut cache = MultiLevelCache::new();
    assert!(cache.get_vault("nonexistent").is_none());
}

#[test]
fn test_set_and_get_ttl_remaining() {
    let mut cache = MultiLevelCache::new();
    cache.set_ttl_remaining("v1", Some(3600));

    let result = cache.get_ttl_remaining("v1");
    assert_eq!(result, Some(Some(3600)));
}

#[test]
fn test_set_and_get_summary() {
    let mut cache = MultiLevelCache::new();
    cache.set_summary("v1", make_summary("v1"));

    let result = cache.get_summary("v1");
    assert!(result.is_some());
    assert_eq!(result.unwrap().vault_id, "v1");
}

#[test]
fn test_stats_track_hits_and_misses() {
    let mut cache = MultiLevelCache::new();
    cache.set_vault("v1", make_vault("v1"));

    cache.get_vault("v1");
    cache.get_vault("missing");

    let stats = cache.get_stats();
    assert_eq!(stats.l1.hits, 1);
    assert_eq!(stats.l1.misses, 1);
}

#[test]
fn test_stats_track_live_entries() {
    let mut cache = MultiLevelCache::new();
    cache.set_vault("v1", make_vault("v1"));
    cache.set_vault("v2", make_vault("v2"));

    let stats = cache.get_stats();
    assert_eq!(stats.l1_live_entries, 2);
    assert_eq!(stats.l2_live_entries, 2);
}

#[test]
fn test_drift_detection_value_mismatch() {
    let mut cache = MultiLevelCache::new();
    let mut vault_l1 = make_vault("v1");
    vault_l1.balance = 1000;
    let mut vault_l2 = make_vault("v1");
    vault_l2.balance = 2000;

    let now = cache.now();
    cache.l1.set_vault("v1", vault_l1, 60 * SECOND, now);
    cache.l2.set_vault("v1", vault_l2, 60 * SECOND, now);

    let report = cache.verify_consistency();
    assert_eq!(report.drift_count, 1);
    assert_eq!(report.details[0].key, "v1");
    assert_eq!(report.details[0].kind, DriftKind::ValueMismatch);
    assert_eq!(
        report.details[0].description,
        "Values for 'v1' differ between L1 and L2"
    );

    let metrics = cache.drift_metrics();
    assert_eq!(metrics.total_drifts_detected, 1);
}

#[test]
fn test_drift_detection_l1_only_and_l2_only() {
    let mut cache = MultiLevelCache::new();
    let vault1 = make_vault("v1");
    let vault2 = make_vault("v2");

    let now = cache.now();
    cache.l1.set_vault("v1", vault1, 60 * SECOND, now);
    cache.l2.set_vault("v2", vault2, 60 * SECOND, now);

    let report = cache.verify_consistency();
    assert_eq!(report.drift_count, 2);

    let v1_detail = report.details.iter().find(|d| d.key == "v1").unwrap();
    let v2_detail = report.details.iter().find(|d| d.key == "v2").unwrap();

    assert_eq!(v1_detail.kind, DriftKind::L1Only);
    assert_eq!(v2_detail.kind, DriftKind::L2Only);
    assert_eq!(v1_detail.description, "Key 'v1' exists in L1 but is missing from L2");
    assert_eq!(v2_detail.description, "Key 'v2' exists in L2 but is missing from L1");
}

#[test]
fn test_auto_heal_from_source_of_truth() {
    let mut cache = MultiLevelCache::new();
    let mut vault_stale = make_vault("v1");
    vault_stale.balance = 500;
    let now = cache.now();
    cache.l1.set_vault("v1", vault_stale, 60 * SECOND, now);

    let true_vault = {
        let mut v = make_vault("v1");
        v.balance = 5000;
        v
    };

    let report = cache.verify_and_heal_consistency(|key: &str| {
        if key == "v1" {
            Some(true_vault.clone())
        } else {
            None
        }
    });

    assert_eq!(report.drift_count, 1);
    assert_eq!(report.healed_count, 1);
    assert!(report.details[0].healed);

    let now = cache.now();
    let l1_val = cache.l1.peek_vault("v1", now).unwrap();
    let l2_val = cache.l2.peek_vault("v1", now).unwrap();
    assert_eq!(l1_val.balance, 5000);
    assert_eq!(l2_val.balance, 5000);

    let fresh_report = cache.verify_consistency();
    assert_eq!(fresh_report.drift_count, 0);

    let metrics = cache.drift_metrics();
    assert_eq!(metrics.total_drifts_healed, 1);
}

#[test]
fn test_auto_heal_clears_deleted_vault_from_cache() {
    let mut cache = MultiLevelCache::new();
    let now = cache.now();
    cache.l1.set_vault("v-deleted", make_vault("v-deleted"), 60 * SECOND, now);

    let report = cache.verify_and_heal_consistency(|_: &str| None);
    assert_eq!(report.drift_count, 1);
    assert_eq!(report.healed_count, 1);

    assert!(cache.get_vault("v-deleted").is_none());
}

#[test]
fn test_drift_metrics_reporting() {
    let mut cache = MultiLevelCache::new();
    cache.reset_drift_metrics();

    let metrics_initial = cache.drift_metrics();
    assert_eq!(metrics_initial.total_verifications, 0);
    assert_eq!(metrics_initial.total_drifts_detected, 0);
    assert_eq!(metrics_initial.total_drifts_healed, 0);

    let now = cache.now();
    cache.l1.set_vault("v1", make_vault("v1"), 60 * SECOND, now);
    let true_v = make_vault("v1");
    cache.verify_and_heal_consistency(|_: &str| Some(true_v.clone()));

    let metrics_after = cache.drift_metrics();
    assert_eq!(metrics_after.total_verifications, 1);
    assert_eq!(metrics_after.total_drifts_detected, 1);
    assert_eq!(metrics_after.total_drifts_healed, 1);
    assert!(metrics_after.last_verification_at.is_some());
}

#[test]
fn healing_reports_the_balances_of_a_mismatch() {
    let mut cache = MultiLevelCache::new();
    let mut other = make_vault("v1");
    other.balance = -7;
    cache.l1.set_vault("v1", make_vault("v1"), 60 * SECOND, 0);
    cache.l2.set_vault("v1", other, 60 * SECOND, 0);
    let truth = make_vault("v1");
    let report = cache.verify_and_heal_consistency_at(|_: &str| Some(truth.clone()), 1, 5);
    assert_eq!(report.checked_at, 5);
    assert_eq!(report.checked_keys_count, 1);
    assert_eq!(
        report.details[0].description,
        "Values for 'v1' differ between L1 and L2 (balance: 1000 vs -7)"
    );
}

#[test]
fn vaults_expire_in_both_levels() {
    let mut cache = MultiLevelCache::with_ttls(10, 100);
    cache.set_vault_at("v1", make_vault("v1"), 1000);
    assert!(cache.get_vault_at("v1", 1009).is_some());
    assert!(cache.get_vault_at("v1", 1099).is_some());
    assert!(cache.get_vault_at("v1", 1150).is_none());
    // The promotion at 1099 does not outlive its own time either.
    assert_eq!(cache.get_stats().l2.misses, 1);
}

#[test]
fn a_full_first_level_drops_the_least_recent_vault() {
    let mut level = L1Cache::new(2);
    level.set_vault("a", make_vault("a"), 1000, 1);
    level.set_vault("b", make_vault("b"), 1000, 2);
    assert!(level.get_vault("a", 3).is_some());
    level.set_vault("c", make_vault("c"), 1000, 4);
    assert!(level.peek_vault("b", 5).is_none());
    assert!(level.peek_vault("a", 5).is_some());
    assert!(level.peek_vault("c", 5).is_some());
    assert_eq!(level.live_entry_count(5), 2);
}

#[test]
fn remaining_times_and_summaries_fall_back_to_the_second_level() {
    let mut cache = MultiLevelCache::with_ttls(10, 100);
    cache.set_ttl_remaining_at("v1", None, 0);
    cache.set_summary_at("v1", make_summary("v1"), 0);
    assert_eq!(cache.get_ttl_remaining_at("v1", 50), Some(None));
    assert_eq!(cache.get_summary_at("v1", 50).unwrap().owner, "owner1");
    // Both were copied to the first level.
    assert_eq!(cache.get_ttl_remaining_at("v1", 55), Some(None));
    let stats = cache.get_stats_at(55);
    assert_eq!(stats.l1.hits, 1);
    assert_eq!(stats.l2.hits, 2);
    assert_eq!(stats.l2.promotions, 0);
    assert_eq!(stats.l1_live_entries, 1);
}

#[test]
fn healing_leaves_no_drift_in_a_well_filled_cache() {
    let mut cache = MultiLevelCache::new();
    for i in 0..300 {
        let id = format!("v{i}");
        cache.set_vault_at(&id, make_vault(&id), 0);
    }
    let mut other = make_vault("v7");
    other.balance = 1;
    cache.l2.set_vault("v7", other, 60 * SECOND, 0);
    cache.l2.set_vault("extra", make_vault("extra"), 60 * SECOND, 0);
    let report = cache.verify_and_heal_consistency_at(
        |key: &str| if key == "extra" { None } else { Some(make_vault(key)) },
        1,
        5,
    );
    assert_eq!(report.checked_keys_count, 301);
    assert_eq!(report.drift_count, 2);
    assert_eq!(report.healed_count, 2);
    assert_eq!(cache.verify_consistency_at(1, 6).drift_count, 0);
    assert_eq!(cache.get_vault_at("v7", 1).unwrap().balance, 1000);
    assert!(cache.get_vault_at("extra", 1).is_none());
    assert!(cache.get_vault_at("v8", 1).is_some());
}

#[test]
fn the_default_cache_is_empty() {
    let mut cache = MultiLevelCache::default();
    assert!(cache.get_vault("v").is_none());
}
