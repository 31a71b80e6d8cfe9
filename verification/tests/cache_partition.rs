use ethos_protocol_backend::cache_partition::{
    namespaced_key, parse_namespaced_key, PartitionedCache,
};
use ethos_protocol_backend::hash_ring::ConsistentHashRing;
use ethos_protocol_backend::ratio::Ratio;

const SECOND: u128 = 1_000_000_000;
const MILLI: u128 = 1_000_000;

fn minute_cache() -> PartitionedCache {
    PartitionedCache::new(60 * SECOND)
}

fn as_float(r: Ratio) -> f64 {
    r.numerator as f64 / r.denominator as f64
}

#[test]
fn test_namespaced_key_format() {
    assert_eq!(namespaced_key("tenant_a", "vault:1"), "tenant_a:vault:1");
}

#[test]
fn test_parse_namespaced_key_valid() {
    let (tenant, key) = parse_namespaced_key("tenant_a:vault:1").unwrap();
    assert_eq!(tenant, "tenant_a");
    assert_eq!(key, "vault:1");
}

#[test]
fn test_parse_namespaced_key_no_separator() {
    assert!(parse_namespaced_key("no_separator").is_none());
}

#[test]
fn test_set_and_get_same_tenant() {
    let mut cache = minute_cache();
    cache.set("tenant_a", "k1", "value1".to_string());
    assert_eq!(cache.get("tenant_a", "k1"), Some("value1".to_string()));
}

#[test]
fn test_get_miss_on_empty_cache() {
    let mut cache = minute_cache();
    assert!(cache.get("tenant_a", "k1").is_none());
}

#[test]
fn test_tenant_isolation_different_tenants_same_key() {
    let mut cache = minute_cache();
    cache.set("tenant_a", "vault:1", "data_a".to_string());
    cache.set("tenant_b", "vault:1", "data_b".to_string());

    assert_eq!(cache.get("tenant_a", "vault:1"), Some("data_a".to_string()));
    assert_eq!(cache.get("tenant_b", "vault:1"), Some("data_b".to_string()));
}

#[test]
fn test_tenant_a_cannot_read_tenant_b_data() {
    let mut cache = minute_cache();
    cache.set("tenant_b", "secret", "sensitive".to_string());
    assert!(cache.get("tenant_a", "secret").is_none());
}

#[test]
fn test_clear_tenant_only_removes_that_tenant() {
    let mut cache = minute_cache();
    cache.set("tenant_a", "k1", "a".to_string());
    cache.set("tenant_b", "k1", "b".to_string());

    cache.clear_tenant("tenant_a");

    assert!(cache.get("tenant_a", "k1").is_none());
    assert_eq!(cache.get("tenant_b", "k1"), Some("b".to_string()));
}

#[test]
fn test_clear_all_removes_all_tenants() {
    let mut cache = minute_cache();
    cache.set("tenant_a", "k1", "a".to_string());
    cache.set("tenant_b", "k1", "b".to_string());

    cache.clear_all();

    assert!(cache.get("tenant_a", "k1").is_none());
    assert!(cache.get("tenant_b", "k1").is_none());
}

#[test]
fn test_entry_expires_after_ttl() {
    let mut cache = PartitionedCache::new(MILLI);
    cache.set_with_ttl_at("tenant_a", "k1", "value".to_string(), MILLI, 0);
    assert!(cache.get_at("tenant_a", "k1", 5 * MILLI).is_none());
}

#[test]
fn test_set_with_custom_ttl() {
    let mut cache = minute_cache();
    cache.set_with_ttl_at("tenant_a", "k1", "value".to_string(), MILLI, 0);
    assert!(cache.get_at("tenant_a", "k1", 5 * MILLI).is_none());
    cache.set_with_ttl("tenant_a", "k2", "value".to_string(), 60 * SECOND);
    assert!(cache.get("tenant_a", "k2").is_some());
}

#[test]
fn test_remove_specific_key() {
    let mut cache = minute_cache();
    cache.set("tenant_a", "k1", "v1".to_string());
    cache.set("tenant_a", "k2", "v2".to_string());

    cache.remove("tenant_a", "k1");

    assert!(cache.get("tenant_a", "k1").is_none());
    assert_eq!(cache.get("tenant_a", "k2"), Some("v2".to_string()));
}

#[test]
fn test_validate_empty_tenant_id_rejected() {
    assert!(PartitionedCache::validate_tenant_id("").is_err());
}

#[test]
fn test_validate_tenant_id_with_separator_rejected() {
    assert!(PartitionedCache::validate_tenant_id("bad:id").is_err());
}

#[test]
fn test_validate_valid_tenant_id_accepted() {
    assert!(PartitionedCache::validate_tenant_id("tenant_abc_123").is_ok());
}

#[test]
fn test_set_safe_rejects_invalid_tenant_id() {
    let mut cache = minute_cache();
    let result = cache.set_safe("bad:tenant", "k", "v".to_string());
    assert!(result.is_err());
}

#[test]
fn test_get_safe_rejects_invalid_tenant_id() {
    let mut cache = minute_cache();
    let result = cache.get_safe("bad:tenant", "k");
    assert!(result.is_err());
}

#[test]
fn test_partition_stats_none_for_unknown_tenant() {
    let cache = minute_cache();
    assert!(cache.partition_stats("unknown").is_none());
}

#[test]
fn test_partition_stats_tracks_hits_and_misses() {
    let mut cache = minute_cache();
    cache.set("tenant_a", "k1", "v".to_string());

    let _ = cache.get("tenant_a", "k1");
    let _ = cache.get("tenant_a", "missing");

    let stats = cache.partition_stats("tenant_a").unwrap();
    assert_eq!(stats.hits, 1);
    assert_eq!(stats.misses, 1);
}

#[test]
fn test_partition_stats_hit_ratio() {
    let mut cache = minute_cache();
    cache.set("tenant_a", "k1", "v".to_string());

    let _ = cache.get("tenant_a", "k1");
    let _ = cache.get("tenant_a", "k1");

    let stats = cache.partition_stats("tenant_a").unwrap();
    assert_eq!(stats.hit_ratio().map(as_float), Some(1.0));
}

#[test]
fn test_partition_stats_evictions_on_expiry() {
    let mut cache = PartitionedCache::new(MILLI);
    cache.set_with_ttl_at("tenant_a", "k1", "v".to_string(), MILLI, 0);
    let _ = cache.get_at("tenant_a", "k1", 5 * MILLI);

    let stats = cache.partition_stats("tenant_a").unwrap();
    assert_eq!(stats.evictions, 1);
}

#[test]
fn test_partition_stats_live_keys() {
    let mut cache = minute_cache();
    cache.set("tenant_a", "k1", "v1".to_string());
    cache.set("tenant_a", "k2", "v2".to_string());

    let stats = cache.partition_stats("tenant_a").unwrap();
    assert_eq!(stats.live_keys, 2);
}

#[test]
fn test_all_partition_stats_returns_all_tenants() {
    let mut cache = minute_cache();
    cache.set("tenant_a", "k1", "v".to_string());
    cache.set("tenant_b", "k1", "v".to_string());

    let all = cache.all_partition_stats();
    assert!(all.contains("tenant_a"));
    assert!(all.contains("tenant_b"));
}

#[test]
fn test_tenant_count() {
    let mut cache = minute_cache();
    assert_eq!(cache.tenant_count(), 0);
    cache.set("tenant_a", "k", "v".to_string());
    cache.set("tenant_b", "k", "v".to_string());
    assert_eq!(cache.tenant_count(), 2);
}

#[test]
fn test_stats_no_hit_ratio_when_no_accesses() {
    let mut cache = minute_cache();
    cache.set("tenant_a", "k1", "v".to_string());
    let stats = cache.partition_stats("tenant_a").unwrap();
    assert!(stats.hit_ratio().is_none());
}

#[test]
fn test_consistent_hash_ring_distribution() {
    let ring = ConsistentHashRing::with_partitions(&["p0", "p1", "p2"], 50);
    assert_eq!(ring.partition_count(), 3);
    assert_eq!(ring.partitions(), vec!["p0", "p1", "p2"]);

    let p_a = ring.get_partition("user:1001").unwrap();
    let p_b = ring.get_partition("user:1001").unwrap();
    assert_eq!(p_a, p_b);
    assert!(vec!["p0", "p1", "p2"].contains(&p_a));
}

#[test]
fn test_rebalance_on_add_partition() {
    let mut cache =
        PartitionedCache::with_consistent_partitions(&["node-1", "node-2"], 300 * SECOND);

    for i in 0..100 {
        let key = format!("key_{i}");
        cache.set_routed(&key, format!("value_{i}"));
    }

    let result = cache.add_partition_and_rebalance("node-3");
    assert_eq!(result.total_keys, 100);
    assert!(result.migrated_keys > 0, "Some keys should migrate to new partition");

    for i in 0..100 {
        let key = format!("key_{i}");
        assert_eq!(cache.get_routed(&key), Some(format!("value_{i}")));
    }
}

#[test]
fn test_rebalance_on_remove_partition() {
    let mut cache =
        PartitionedCache::with_consistent_partitions(&["pA", "pB", "pC"], 300 * SECOND);

    for i in 0..100 {
        let key = format!("item_{i}");
        cache.set_routed(&key, format!("val_{i}"));
    }

    let result = cache.remove_partition_and_rebalance("pC");
    assert_eq!(result.total_keys, 100);

    for i in 0..100 {
        let key = format!("item_{i}");
        assert_eq!(cache.get_routed(&key), Some(format!("val_{i}")));
    }
}

#[test]
fn test_minimal_key_movement() {
    let initial_partitions = &["part-1", "part-2", "part-3", "part-4"];
    let mut cache =
        PartitionedCache::with_consistent_partitions(initial_partitions, 300 * SECOND);

    let num_keys = 1000;
    for i in 0..num_keys {
        let key = format!("entity_{i}");
        cache.set_routed(&key, format!("content_{i}"));
    }

    let result = cache.add_partition_and_rebalance("part-5");
    let migrated_percentage = (result.migrated_keys as f64 / num_keys as f64) * 100.0;

    assert!(
        migrated_percentage < 35.0,
        "Consistent hashing should move ~20% of keys (got {:.2}%, expected < 35%)",
        migrated_percentage
    );

    for i in 0..num_keys {
        let key = format!("entity_{i}");
        assert_eq!(cache.get_routed(&key), Some(format!("content_{i}")));
    }
}

#[test]
fn test_partition_load_and_hot_partition_detection() {
    let mut cache =
        PartitionedCache::with_consistent_partitions(&["part-a", "part-b", "part-c"], 300 * SECOND);

    for _ in 0..10 {
        cache.set("part-a", "k", "v".into());
        let _ = cache.get("part-a", "k");
        cache.set("part-b", "k", "v".into());
        let _ = cache.get("part-b", "k");
    }

    for _ in 0..100 {
        cache.set("part-c", "k", "v".into());
        let _ = cache.get("part-c", "k");
    }

    let load_c = cache.partition_load("part-c").unwrap();
    assert!(load_c.is_hot, "part-c should be flagged as hot partition");
    assert!(as_float(load_c.load_factor) > 1.5);

    let hot = cache.hot_partitions(Ratio { numerator: 3, denominator: 2 });
    assert_eq!(hot.len(), 1);
    assert_eq!(hot[0].partition_id, "part-c");
}

#[test]
fn hot_partitions_exceed_the_threshold() {
    let mut cache = minute_cache();
    cache.set("a", "k", "1".to_string());
    cache.set("b", "k", "1".to_string());
    assert!(cache.hot_partitions(Ratio { numerator: 1, denominator: 1 }).is_empty());
    let hot = cache.hot_partitions(Ratio { numerator: 1, denominator: 2 });
    assert_eq!(hot.len(), 2);
    assert_eq!(hot[0].partition_id, "a");
    assert!(!hot[0].is_hot);
}

#[test]
fn tenant_ids_are_refused_with_their_reasons() {
    let empty = PartitionedCache::validate_tenant_id("").unwrap_err();
    let separator = PartitionedCache::validate_tenant_id("a:b").unwrap_err();
    assert_ne!(empty, separator);
    let mut cache = minute_cache();
    assert_eq!(cache.set_safe("a", "k", "v".to_string()), Ok(()));
    assert_eq!(cache.get_safe("a", "k"), Ok(Some("v".to_string())));
    assert_eq!(cache.get_safe("a:b", "k"), Err(separator));
}

#[test]
fn adding_a_partition_moves_keys_to_it_alone() {
    let mut ring = ConsistentHashRing::with_partitions(&["a", "b", "c"], 20);
    let keys: Vec<String> = (0..200).map(|i| format!("key-{i}")).collect();
    let before: Vec<String> =
        keys.iter().map(|k| ring.get_partition(k).unwrap().to_string()).collect();
    ring.add_partition("d");
    let mut moved = 0;
    for (key, old) in keys.iter().zip(before.iter()) {
        let new = ring.get_partition(key).unwrap();
        if new != old {
            assert_eq!(new, "d");
            moved += 1;
        }
    }
    assert!(moved > 0);
    ring.remove_partition("d");
    for (key, old) in keys.iter().zip(before.iter()) {
        assert_eq!(ring.get_partition(key).unwrap(), old);
    }
    assert!(ConsistentHashRing::new(5).get_partition("k").is_none());
}

#[test]
fn routed_keys_can_be_removed() {
    let mut cache = PartitionedCache::with_consistent_partitions(&["x", "y"], 60 * SECOND);
    let home = cache.set_routed("k", "v".to_string());
    assert_eq!(home, cache.partition_for_key("k"));
    assert_eq!(cache.remove_routed("k"), home);
    assert!(cache.get_routed("k").is_none());
    let mut alone = PartitionedCache::with_default_ttl();
    assert!(alone.set_routed("k", "v".to_string()).is_none());
    assert!(alone.partition_for_key("k").is_none());
    alone.add_partition("only");
    assert_eq!(alone.set_routed("k", "v".to_string()), Some("only".to_string()));
    assert_eq!(alone.all_partition_loads().len(), 1);
}

#[test]
fn removed_partitions_are_assigned_no_keys() {
    let mut cache = PartitionedCache::with_consistent_partitions(&["a", "b", "c"], 60 * SECOND);
    for i in 0..60 {
        cache.set_routed(&format!("key-{i}"), format!("value-{i}"));
    }
    let held = cache.partition_stats("b").unwrap().live_keys;
    let result = cache.remove_partition_and_rebalance("b");
    assert_eq!(result.total_keys, 60);
    assert_eq!(result.migrated_keys, held);
    assert!(result.migrations.iter().all(|m| m.from_partition == "b" && m.to_partition != "b"));
    assert_eq!(cache.partition_stats("b").unwrap().live_keys, 0);
    for i in 0..60 {
        let key = format!("key-{i}");
        assert_ne!(cache.partition_for_key(&key), Some("b".to_string()));
        assert_eq!(cache.get_routed(&key), Some(format!("value-{i}")));
    }
    assert_eq!(cache.rebalance().migrated_keys, 0);

    let grown = cache.add_partition_and_rebalance("d");
    assert!(grown.migrations.iter().all(|m| m.from_partition != "d" && m.to_partition == "d"));
    for i in 0..60 {
        assert_eq!(cache.get_routed(&format!("key-{i}")), Some(format!("value-{i}")));
    }
    for name in ["a", "c", "d"] {
        cache.remove_partition(name);
    }
    assert_eq!(cache.partition_for_key("key-1"), None);
}

#[test]
fn the_last_write_of_a_key_decides() {
    let mut cache = PartitionedCache::new(100);
    cache.set_with_ttl_at("t", "k", "first".to_string(), 50, 0);
    cache.set_with_ttl_at("other", "k", "elsewhere".to_string(), 50, 1);
    cache.set_with_ttl_at("t", "k", "second".to_string(), 10, 2);
    cache.remove("other", "k");
    cache.clear_tenant("other");
    cache.add_partition("p");
    assert_eq!(cache.get_at("t", "k", 11), Some("second".to_string()));
    assert_eq!(cache.get_at("t", "k", 12), None);
    cache.set_with_ttl_at("t", "k", "third".to_string(), 0, 13);
    assert_eq!(cache.get_at("t", "k", 13), None);
    cache.set_with_ttl_at("t", "k", "fourth".to_string(), 5, 14);
    cache.clear_all();
    assert_eq!(cache.get_at("t", "k", 14), None);
}
