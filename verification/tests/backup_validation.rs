use ethos_protocol_backend::backup_validation::{
    to_hex, BackupChecksumRecord, BackupValidator,
};
use ethos_protocol_backend::incidents::{create_incident_store, list_incidents};

fn sqlite_magic_bytes() -> Vec<u8> {
    let mut data = b"SQLite".to_vec();
    data.extend_from_slice(b" format 3\x00");
    data
}

#[test]
fn test_empty_data_fails_integrity() {
    let result = BackupValidator::validate_backup("bk1", &[]);
    assert!(!result.valid);
    assert!(!result.integrity_ok);
    assert!(!result.restore_test_ok);
    assert!(result.error.is_some());
}

#[test]
fn test_bad_magic_fails_integrity() {
    let data = b"NOTADB\x00\x00";
    let result = BackupValidator::validate_backup("bk2", data);
    assert!(!result.valid);
    assert!(!result.integrity_ok);
}

#[test]
fn test_valid_magic_passes_integrity_and_restore() {
    let data = sqlite_magic_bytes();
    let result = BackupValidator::validate_backup("bk3", &data);
    assert!(result.integrity_ok);
    assert!(result.restore_test_ok);
    assert!(result.valid);
    assert!(result.error.is_none());
}

#[test]
fn test_validate_all_backups() {
    let backups = vec![
        ("good".to_string(), sqlite_magic_bytes()),
        ("bad".to_string(), b"garbage".to_vec()),
    ];
    let results = BackupValidator::validate_all_backups(&backups);
    assert_eq!(results.len(), 2);
    assert!(results[0].valid);
    assert!(!results[1].valid);
}

#[test]
fn a_failed_restore_is_reported() {
    let result = BackupValidator::judge_backup(
        "bk",
        &sqlite_magic_bytes(),
        Err("disk image is malformed".to_string()),
        17,
    );
    assert!(result.integrity_ok);
    assert!(!result.restore_test_ok);
    assert!(!result.valid);
    assert!(result.error.unwrap().contains("disk image is malformed"));
    assert_eq!(result.validated_at, 17);
    let empty = BackupValidator::judge_backup("bk", &[], Ok(()), 17);
    assert_eq!(empty.error, Some("backup data is empty".to_string()));
}

#[test]
fn checksums_are_sha256_in_hexadecimal() {
    assert_eq!(
        BackupValidator::compute_checksum(b"abc"),
        "ba7816bf8f01cfea414140de5dae2223b00361a396177a9cb410ff61f20015ad"
    );
    assert_eq!(to_hex(&vec![0x00, 0x0f, 0xa5]), "000fa5");
}

#[test]
fn a_wrong_checksum_opens_an_incident() {
    let data = sqlite_magic_bytes();
    let expected = BackupChecksumRecord::record("bk9", &data);
    let mut store = create_incident_store();

    let good = BackupValidator::validate_backup_with_checksum(&data, &expected, Some(&mut store));
    assert!(good.valid);
    assert_eq!(good.checksum_ok, Some(true));
    assert!(list_incidents(&store).is_empty());

    let mut corrupted = data.clone();
    corrupted.push(1);
    let bad =
        BackupValidator::validate_backup_with_checksum(&corrupted, &expected, Some(&mut store));
    assert!(!bad.valid);
    assert_eq!(bad.checksum_ok, Some(false));
    let incidents = list_incidents(&store);
    assert_eq!(incidents.len(), 1);
    assert_eq!(incidents[0].title, "Backup checksum mismatch: bk9");

    let quiet = BackupValidator::validate_backup_with_checksum(&corrupted, &expected, None);
    assert_eq!(quiet.checksum_ok, Some(false));
}
