use std::cell::RefCell;
use std::collections::HashMap;

use ethos_protocol_backend::json::{JsonField, JsonValue};
use ethos_protocol_backend::lazy_metadata::{
    LazyMetadataLoader, MetadataCache, MetadataCacheConfig, VaultMetadata,
};

fn note(text: &str) -> JsonValue {
    JsonValue::Object(vec![
        JsonField { name: "note".to_string(), value: JsonValue::Text(text.to_string()) },
        JsonField { name: "priority".to_string(), value: JsonValue::Number("1".to_string()) },
    ])
}

fn make_metadata(vault_id: &str) -> VaultMetadata {
    VaultMetadata {
        vault_id: vault_id.to_string(),
        fields: note("test"),
        updated_at: 1_700_000_000_000_000_000,
    }
}

/// A store of metadata in memory.
#[derive(Default)]
struct Store {
    rows: RefCell<HashMap<String, VaultMetadata>>,
    reads: RefCell<u32>,
}

impl Store {
    fn load(&self, id: &str) -> Option<VaultMetadata> {
        *self.reads.borrow_mut() += 1;
        self.rows.borrow().get(id).map(|m| m.copy())
    }

    fn upsert(&self, m: &VaultMetadata) -> Result<(), String> {
        self.rows.borrow_mut().insert(m.vault_id.clone(), m.copy());
        Ok(())
    }

    fn delete(&self, id: &str) -> Result<(), String> {
        self.rows.borrow_mut().remove(id);
        Ok(())
    }
}

#[test]
fn cache_miss_on_empty() {
    let mut cache = MetadataCache::new(MetadataCacheConfig::default());
    assert!(cache.get("vault-1").is_none());
    let (hits, misses) = cache.stats();
    assert_eq!(hits, 0);
    assert_eq!(misses, 1);
}

#[test]
fn cache_hit_after_insert() {
    let mut cache = MetadataCache::new(MetadataCacheConfig::default());
    let m = make_metadata("vault-1");
    cache.insert(m.copy());
    let result = cache.get("vault-1").unwrap();
    assert_eq!(result.vault_id, "vault-1");
    let (hits, _) = cache.stats();
    assert_eq!(hits, 1);
}

#[test]
fn cache_invalidation_removes_entry() {
    let mut cache = MetadataCache::new(MetadataCacheConfig::default());
    cache.insert(make_metadata("vault-2"));
    cache.invalidate("vault-2");
    assert!(cache.get("vault-2").is_none());
}

#[test]
fn cache_evicts_lru_when_full() {
    let config = MetadataCacheConfig { ttl: 300_000_000_000, max_entries: 2 };
    let mut cache = MetadataCache::new(config);
    cache.insert_at(make_metadata("v1"), 1);
    cache.insert_at(make_metadata("v2"), 2);
    let _ = cache.get_at("v1", 3);
    cache.insert_at(make_metadata("v3"), 4);
    assert!(cache.get_at("v2", 5).is_none(), "v2 should have been evicted");
    assert!(cache.get_at("v1", 5).is_some());
    assert!(cache.get_at("v3", 5).is_some());
}

#[test]
fn cache_clear_removes_all_entries() {
    let mut cache = MetadataCache::new(MetadataCacheConfig::default());
    cache.insert(make_metadata("v1"));
    cache.insert(make_metadata("v2"));
    cache.clear();
    assert!(cache.is_empty());
}

#[test]
fn cache_expired_entry_treated_as_miss() {
    let config = MetadataCacheConfig { ttl: 1, max_entries: 100 };
    let mut cache = MetadataCache::new(config);
    let now = cache.now();
    cache.insert_at(make_metadata("v-exp"), now);
    assert!(cache.get_at("v-exp", now + 1_000_000).is_none());
}

#[test]
fn loader_returns_none_for_missing_vault() {
    let store = Store::default();
    let mut loader = LazyMetadataLoader::new();
    assert!(loader.get("no-such-vault", |id: &str| store.load(id)).is_none());
}

#[test]
fn loader_set_then_get_roundtrip() {
    let store = Store::default();
    let mut loader = LazyMetadataLoader::new();
    let m = make_metadata("vault-rt");
    loader.set(m.copy(), |m: &VaultMetadata| store.upsert(m)).unwrap();
    let loaded = loader.get("vault-rt", |id: &str| store.load(id)).unwrap();
    assert_eq!(loaded.vault_id, "vault-rt");
    assert_eq!(loaded.fields.get("note").and_then(|v| v.as_str()), Some("test"));
}

#[test]
fn loader_caches_after_first_db_hit() {
    let store = Store::default();
    let mut loader = LazyMetadataLoader::new();
    loader.set(make_metadata("vault-c"), |m: &VaultMetadata| store.upsert(m)).unwrap();

    let _ = loader.get("vault-c", |id: &str| store.load(id));
    let _ = loader.get("vault-c", |id: &str| store.load(id));

    let (hits, _) = loader.cache().stats();
    assert!(hits >= 1, "at least one cache hit expected");
    assert_eq!(*store.reads.borrow(), 1);
}

#[test]
fn loader_delete_removes_from_db_and_cache() {
    let store = Store::default();
    let mut loader = LazyMetadataLoader::new();
    loader.set(make_metadata("vault-del"), |m: &VaultMetadata| store.upsert(m)).unwrap();
    let _ = loader.get("vault-del", |id: &str| store.load(id));
    loader.delete("vault-del", |id: &str| store.delete(id)).unwrap();
    assert!(loader.get("vault-del", |id: &str| store.load(id)).is_none());
}

#[test]
fn loader_set_overwrites_previous_metadata() {
    let store = Store::default();
    let mut loader = LazyMetadataLoader::new();
    loader.set(make_metadata("vault-ow"), |m: &VaultMetadata| store.upsert(m)).unwrap();

    let updated = VaultMetadata {
        vault_id: "vault-ow".to_string(),
        fields: note("updated"),
        updated_at: 1_700_000_000_000_000_000,
    };
    loader.set(updated, |m: &VaultMetadata| store.upsert(m)).unwrap();

    let loaded = loader.get("vault-ow", |id: &str| store.load(id)).unwrap();
    assert_eq!(loaded.fields.get("note").and_then(|v| v.as_str()), Some("updated"));
}

#[test]
fn a_refused_write_leaves_the_cache_alone() {
    let store = Store::default();
    let mut loader = LazyMetadataLoader::with_config(MetadataCacheConfig {
        ttl: 300_000_000_000,
        max_entries: 3,
    });
    loader.set(make_metadata("v"), |m: &VaultMetadata| store.upsert(m)).unwrap();
    let _ = loader.get("v", |id: &str| store.load(id));
    let refused = loader.set(make_metadata("v"), |_: &VaultMetadata| Err("locked".to_string()));
    assert_eq!(refused, Err("locked".to_string()));
    assert_eq!(loader.cache().len(), 1);
    assert!(loader.delete("v", |_: &str| Err("locked".to_string())).is_err());
    assert_eq!(loader.cache().len(), 1);
}

#[test]
fn loaded_metadata_is_dated_after_the_load() {
    let store = Store::default();
    store.upsert(&make_metadata("slow")).unwrap();
    let mut loader = LazyMetadataLoader::with_config(MetadataCacheConfig {
        ttl: 1_000_000_000,
        max_entries: 3,
    });
    // The load takes longer than the entry lives.
    let _ = loader.get("slow", |id: &str| {
        let begun = std::time::Instant::now();
        while begun.elapsed().as_millis() < 1_200 {}
        store.load(id)
    });
    let _ = loader.get("slow", |_: &str| None);
    assert_eq!(loader.cache().stats(), (1, 1));
}
