use std::collections::{HashMap, HashSet};

use base64::engine::general_purpose::STANDARD;
use base64::Engine;
use hmac::Mac;
use ethos_protocol_backend::encryption::{
    active_version_of, decrypt_optional, encrypt_optional, load_key_for_version,
    run_backfill_batch, versions_to_load, BackfillBatchResult, BackfillCursor, BackfillRecord,
    BackfillSummary,
    EncryptionError, FieldEncryptionEngine, KEY_LEN, SENSITIVE_FIELDS,
};

fn test_engine() -> FieldEncryptionEngine {
    let mut keys = HashMap::new();
    keys.insert(1, [42u8; KEY_LEN]);
    keys.insert(2, [99u8; KEY_LEN]);
    FieldEncryptionEngine::from_keys(keys, 1)
}

fn rotating_engine() -> FieldEncryptionEngine {
    let mut keys = HashMap::new();
    keys.insert(1, [7u8; KEY_LEN]);
    keys.insert(2, [8u8; KEY_LEN]);
    FieldEncryptionEngine::from_keys(keys, 2)
}

fn backfill_records(count: usize) -> Vec<BackfillRecord> {
    let mut keys = HashMap::new();
    keys.insert(1, [7u8; KEY_LEN]);
    let old_engine = FieldEncryptionEngine::from_keys(keys, 1);
    (0..count)
        .map(|i| BackfillRecord {
            id: format!("record-{i}"),
            field: old_engine.encrypt(&format!("secret-{i}")).unwrap(),
        })
        .collect()
}

#[test]
fn test_encrypt_decrypt_roundtrip() {
    let engine = test_engine();
    let plaintext = "user@example.com";
    let encrypted = engine.encrypt(plaintext).unwrap();
    assert_eq!(encrypted.key_version, 1);
    let decrypted = engine.decrypt(&encrypted).unwrap();
    assert_eq!(decrypted, plaintext);
}

#[test]
fn test_different_nonces_for_same_plaintext() {
    let engine = test_engine();
    let a = engine.encrypt("hello").unwrap();
    let b = engine.encrypt("hello").unwrap();
    assert_ne!(a.nonce, b.nonce);
    assert_ne!(a.ciphertext, b.ciphertext);
}

#[test]
fn test_tampered_ciphertext_fails() {
    let engine = test_engine();
    let mut encrypted = engine.encrypt("sensitive-data").unwrap();
    let mut bytes = STANDARD.decode(&encrypted.ciphertext).unwrap();
    bytes[0] ^= 0xFF;
    encrypted.ciphertext = STANDARD.encode(&bytes);
    let result = engine.decrypt(&encrypted);
    assert!(matches!(result, Err(EncryptionError::AuthenticationFailed)));
}

#[test]
fn test_key_rotation() {
    let engine = test_engine();
    let field = engine.encrypt("rotate me").unwrap();
    assert_eq!(field.key_version, 1);

    let (new_field, rotation_result) = engine.rotate_field(&field, 2, None).unwrap();
    assert_eq!(new_field.key_version, 2);
    assert_eq!(rotation_result.previous_version, 1);
    assert_eq!(rotation_result.new_version, 2);
    assert_eq!(rotation_result.records_re_encrypted, 1);

    let new_engine = {
        let mut keys = HashMap::new();
        keys.insert(2, [99u8; KEY_LEN]);
        FieldEncryptionEngine::from_keys(keys, 2)
    };
    let decrypted = new_engine.decrypt(&new_field).unwrap();
    assert_eq!(decrypted, "rotate me");
}

#[test]
fn test_wrong_key_version_fails() {
    let engine = test_engine();
    let mut field = engine.encrypt("secret").unwrap();
    field.key_version = 99;
    let result = engine.decrypt(&field);
    assert!(matches!(result, Err(EncryptionError::KeyNotFound(99))));
}

#[test]
fn test_encrypt_optional_none() {
    let engine = test_engine();
    assert!(encrypt_optional(&engine, None).is_none());
}

#[test]
fn test_encrypt_decrypt_optional() {
    let engine = test_engine();
    let field = encrypt_optional(&engine, Some("test")).unwrap();
    let plain = decrypt_optional(&engine, Some(&field)).unwrap();
    assert_eq!(plain, "test");
}

#[test]
fn run_backfill_batch_re_encrypts_to_active_version() {
    let engine = rotating_engine();
    let records = backfill_records(3);

    let result = run_backfill_batch(&engine, &records, BackfillCursor::default(), 10, None);

    assert!(result.done);
    assert_eq!(result.updated.len(), 3);
    assert_eq!(result.skipped_already_current, 0);
    assert!(result.failed.is_empty());
    for (id, field) in &result.updated {
        assert_eq!(field.key_version, 2);
        let index: usize = id.strip_prefix("record-").unwrap().parse().unwrap();
        assert_eq!(engine.decrypt(field).unwrap(), format!("secret-{index}"));
    }
}

#[test]
fn run_backfill_batch_skips_records_already_on_active_version() {
    let engine = rotating_engine();
    let mut records = backfill_records(2);
    records.push(BackfillRecord {
        id: "already-current".to_string(),
        field: engine.encrypt("current").unwrap(),
    });

    let result = run_backfill_batch(&engine, &records, BackfillCursor::default(), 10, None);

    assert_eq!(result.skipped_already_current, 1);
    assert_eq!(result.updated.len(), 2);
}

#[test]
fn run_backfill_batch_is_resumable_across_interruptions() {
    let engine = rotating_engine();
    let records = backfill_records(5);

    let first = run_backfill_batch(&engine, &records, BackfillCursor::default(), 2, None);
    assert!(!first.done);
    assert_eq!(first.updated.len(), 2);
    assert_eq!(first.next_cursor, BackfillCursor { offset: 2 });

    let second = run_backfill_batch(&engine, &records, first.next_cursor, 2, None);
    assert!(!second.done);
    assert_eq!(second.updated.len(), 2);
    assert_eq!(second.next_cursor, BackfillCursor { offset: 4 });

    let third = run_backfill_batch(&engine, &records, second.next_cursor, 2, None);
    assert!(third.done);
    assert_eq!(third.updated.len(), 1);

    let all_ids: HashSet<String> = [&first, &second, &third]
        .iter()
        .flat_map(|r| r.updated.iter().map(|(id, _)| id.clone()))
        .collect();
    assert_eq!(all_ids.len(), 5);
}

#[test]
fn run_backfill_drives_every_batch_to_completion() {
    let engine = rotating_engine();
    let records = backfill_records(7);

    let mut persisted_batches = 0;
    let mut summary = BackfillSummary::starting_at(BackfillCursor::default());
    loop {
        let batch = summary.next_batch(&engine, &records, 3, None);
        persisted_batches += 1;
        if batch.done {
            break;
        }
    }

    assert_eq!(summary.total_updated, 7);
    assert_eq!(summary.total_failed, 0);
    assert_eq!(summary.final_cursor, BackfillCursor { offset: 7 });
    assert_eq!(persisted_batches, 3);
}

#[test]
fn encryption_is_determined_by_key_and_nonce() {
    let engine = test_engine();
    let a = engine.encrypt_with("hello", [5u8; 12]).unwrap();
    let b = engine.encrypt_with("hello", [5u8; 12]).unwrap();
    assert_eq!(a.nonce, "BQUFBQUFBQUFBQUF");
    assert_eq!(a.ciphertext, b.ciphertext);
    // Five bytes of ciphertext and sixteen of tag.
    assert_eq!(STANDARD.decode(&a.ciphertext).unwrap().len(), 21);
    // A key of another value gives another ciphertext.
    let mut keys = HashMap::new();
    keys.insert(1, [43u8; KEY_LEN]);
    let other = FieldEncryptionEngine::from_keys(keys, 1);
    assert_ne!(other.encrypt_with("hello", [5u8; 12]).unwrap().ciphertext, a.ciphertext);
}

#[test]
fn long_texts_and_non_ascii_texts_come_back() {
    let engine = test_engine();
    for text in ["", "ü — 漢字 🦀", &"long text ".repeat(50)] {
        let field = engine.encrypt(text).unwrap();
        assert_eq!(engine.decrypt(&field).unwrap(), text);
    }
}

#[test]
fn malformed_fields_are_refused_with_their_reasons() {
    let engine = test_engine();
    let good = engine.encrypt("x").unwrap();

    let mut field = good.clone();
    field.nonce = "***".to_string();
    let e = engine.decrypt(&field).unwrap_err();
    assert!(matches!(e, EncryptionError::Base64(_)));
    assert_eq!(e.message(), "base64 decode error: Invalid symbol 42, offset 0.");

    let mut field = good.clone();
    field.nonce = STANDARD.encode([1u8; 11]);
    let e = engine.decrypt(&field).unwrap_err();
    assert_eq!(e.message(), "invalid ciphertext format: nonce must be 12 bytes, got 11");

    let mut field = good.clone();
    field.ciphertext = STANDARD.encode([1u8; 15]);
    let e = engine.decrypt(&field).unwrap_err();
    assert_eq!(
        e.message(),
        "invalid ciphertext format: ciphertext too short to contain authentication tag"
    );

    let mut field = good.clone();
    field.key_version = 7;
    let e = engine.decrypt(&field).unwrap_err();
    assert_eq!(e.message(), "key version 7 not found in environment");

    let mut field = good.clone();
    field.ciphertext = STANDARD.encode([1u8; 16]);
    let e = engine.decrypt(&field).unwrap_err();
    assert_eq!(
        e.message(),
        "authentication tag mismatch — ciphertext may have been tampered with"
    );
}

#[test]
fn sealed_bytes_that_are_no_text_are_refused() {
    // Seal the byte 0xFF by hand: XOR with the first byte of the key stream,
    // then the tag.
    let key = [42u8; KEY_LEN];
    let nonce = [3u8; 12];
    let block = |counter: u32| {
        let mut mac = <hmac::Hmac<sha2::Sha256>>::new_from_slice(&key).unwrap();
        mac.update(&nonce);
        mac.update(&counter.to_be_bytes());
        mac.finalize().into_bytes().to_vec()
    };
    let ciphertext = vec![0xFFu8 ^ block(1)[0]];
    let mut mac = <hmac::Hmac<sha2::Sha256>>::new_from_slice(&block(0)).unwrap();
    mac.update(&ciphertext);
    let tag = mac.finalize().into_bytes().to_vec();
    let mut payload = ciphertext.clone();
    payload.extend_from_slice(&tag[..16]);
    let engine = test_engine();
    let mut field = engine.encrypt_with("a", nonce).unwrap();
    field.ciphertext = STANDARD.encode(&payload);
    let e = engine.decrypt(&field).unwrap_err();
    assert_eq!(
        e.message(),
        "invalid ciphertext format: plaintext is not valid UTF-8: \
         invalid utf-8 sequence of 1 bytes from index 0"
    );
}

#[test]
fn key_stream_and_tag_follow_their_definition() {
    let key = [42u8; KEY_LEN];
    let nonce = [9u8; 12];
    let text = "thirty-two bytes and a few more than that";
    let block = |counter: u32| {
        let mut mac = <hmac::Hmac<sha2::Sha256>>::new_from_slice(&key).unwrap();
        mac.update(&nonce);
        mac.update(&counter.to_be_bytes());
        mac.finalize().into_bytes().to_vec()
    };
    let mut expected = Vec::new();
    for (i, b) in text.bytes().enumerate() {
        expected.push(b ^ block(1 + (i / 32) as u32)[i % 32]);
    }
    let mut mac = <hmac::Hmac<sha2::Sha256>>::new_from_slice(&block(0)).unwrap();
    mac.update(&expected);
    let tag = mac.finalize().into_bytes().to_vec();
    expected.extend_from_slice(&tag[..16]);
    let field = test_engine().encrypt_with(text, nonce).unwrap();
    assert_eq!(STANDARD.decode(&field.ciphertext).unwrap(), expected);
}

#[test]
fn keys_come_from_settings() {
    assert_eq!(active_version_of(None), 1);
    assert_eq!(active_version_of(Some("12")), 12);
    assert_eq!(active_version_of(Some("many")), 1);
    assert_eq!(versions_to_load(2), vec![0, 1, 2]);
    assert_eq!(versions_to_load(12), (3..=12).collect::<Vec<u32>>());

    assert_eq!(load_key_for_version(1, None).unwrap(), [0u8; 32]);
    let setting = STANDARD.encode([6u8; 32]);
    assert_eq!(load_key_for_version(1, Some(&setting)).unwrap(), [6u8; 32]);
    let short = STANDARD.encode([6u8; 31]);
    assert_eq!(
        load_key_for_version(4, Some(&short)).unwrap_err().message(),
        "invalid ciphertext format: FIELD_ENCRYPTION_KEY_4 must be a base64-encoded 32-byte key"
    );
    assert!(matches!(
        load_key_for_version(4, Some("?")),
        Err(EncryptionError::Base64(_))
    ));

    let engine =
        FieldEncryptionEngine::from_settings(1, &vec![None, Some(setting.clone())]).unwrap();
    assert_eq!(engine.active_version(), 1);
    let field = engine.encrypt("by setting").unwrap();
    let mut keys = HashMap::new();
    keys.insert(1, [6u8; 32]);
    let same = FieldEncryptionEngine::from_keys(keys, 1);
    assert_eq!(same.decrypt(&field).unwrap(), "by setting");
    assert!(FieldEncryptionEngine::from_settings(1, &vec![Some(short), None]).is_err());
}

#[test]
fn an_engine_without_its_active_key_encrypts_nothing() {
    let engine = FieldEncryptionEngine::from_keys(HashMap::new(), 3);
    assert!(matches!(engine.encrypt("x"), Err(EncryptionError::KeyNotFound(3))));
    assert!(encrypt_optional(&engine, Some("x")).is_none());
}

#[test]
fn rotation_takes_a_missing_key_from_its_setting() {
    let engine = test_engine();
    let field = engine.encrypt("moved").unwrap();
    let setting = STANDARD.encode([77u8; 32]);
    let (new_field, result) = engine.rotate_field(&field, 5, Some(&setting)).unwrap();
    assert_eq!(result.new_version, 5);
    let mut keys = HashMap::new();
    keys.insert(5, [77u8; 32]);
    let new_engine = FieldEncryptionEngine::from_keys(keys, 5);
    assert_eq!(new_engine.decrypt(&new_field).unwrap(), "moved");
    assert!(engine.rotate_field(&field, 5, Some("?")).is_err());
}

#[test]
fn records_that_cannot_be_opened_are_reported() {
    let engine = rotating_engine();
    let mut records = backfill_records(2);
    records[1].field.key_version = 9;
    let result = run_backfill_batch(&engine, &records, BackfillCursor { offset: 0 }, 5, None);
    assert_eq!(result.updated.len(), 1);
    assert_eq!(
        result.failed,
        vec![("record-1".to_string(), "key version 9 not found in environment".to_string())]
    );
    // A cursor behind the end has nothing left to do.
    let beyond = run_backfill_batch(&engine, &records, BackfillCursor { offset: 50 }, 5, None);
    assert!(beyond.done);
    assert_eq!(beyond.next_cursor, BackfillCursor { offset: 2 });
    assert!(beyond.updated.is_empty());
}

#[test]
fn sensitive_fields_are_listed() {
    assert_eq!(SENSITIVE_FIELDS.len(), 5);
    assert!(SENSITIVE_FIELDS.contains(&("two_factor_config", "secret")));
}

#[test]
fn default_runs_have_treated_nothing() {
    let batch = BackfillBatchResult::default();
    assert!(batch.updated.is_empty() && batch.failed.is_empty() && !batch.done);
    assert_eq!((batch.skipped_already_current, batch.next_cursor.offset), (0, 0));
    let summary = BackfillSummary::default();
    assert_eq!((summary.total_updated, summary.total_skipped, summary.total_failed), (0, 0, 0));
    assert!(summary.failed.is_empty());
    assert_eq!(summary.final_cursor.offset, 0);
}
