//! Automatic validation of database backups.
//!
//! A backup must not be empty and must begin with the magic bytes of the
//! database format, and a restore must succeed. Where a checksum was recorded
//! when the backup was made, the backup must still have it; a mismatch opens
//! an incident.

use vstd::prelude::*;

use crate::clock::{utc_now, wall_clock_shows, Time};
use crate::incidents::{
    incident_models, open_incident, opened, IncidentSeverity, IncidentStatus, IncidentStore,
};
use crate::ids::is_new_id;
use crate::text::{same, text_option};

verus! {

/// The SHA-256 digest of bytes.
pub uninterp spec fn sha256(data: Seq<u8>) -> Seq<u8>;

/// `sha2::Sha256::digest`: 32 bytes that are a function of the data. Which
/// bytes they are is not stated.
#[verifier::external_body]
pub(crate) fn sha256_digest(data: &[u8]) -> (r: Vec<u8>)
    ensures
        r@ == sha256(data@),
        r@.len() == 32,
{
    <sha2::Sha256 as sha2::Digest>::digest(data).to_vec()
}

/// A connection to a database.
#[verifier::external_type_specification]
#[verifier::external_body]
pub struct ExConnection(rusqlite::Connection);

/// An error of the database.
#[verifier::external_type_specification]
#[verifier::external_body]
pub struct ExSqliteError(rusqlite::Error);

/// `rusqlite::Connection::open_in_memory`: a connection to a new database in
/// memory, or why there is none. Whether it succeeds rests on the machine.
#[verifier::external_body]
fn open_in_memory() -> (r: Result<rusqlite::Connection, rusqlite::Error>) {
    rusqlite::Connection::open_in_memory()
}

/// `rusqlite::Connection::execute_batch`: runs statements. Whether it succeeds
/// rests on the state of the database.
#[verifier::external_body]
fn execute_batch(connection: &rusqlite::Connection, sql: &str) -> (r: Result<(), rusqlite::Error>) {
    connection.execute_batch(sql)
}

/// The `Display` form of a `rusqlite::Error`.
#[verifier::external_body]
fn error_text(error: &rusqlite::Error) -> (r: String) {
    error.to_string()
}

/// The byte `b` is the `i`-th of "SQLite", with which every database begins.
pub open spec fn magic() -> Seq<u8> {
    seq![83u8, 81u8, 76u8, 105u8, 116u8, 101u8]
}

/// The data begins with the magic bytes.
pub open spec fn has_magic(data: Seq<u8>) -> bool {
    magic().is_prefix_of(data)
}

/// Outcome of a validation of a backup.
#[derive(Debug)]
pub struct BackupValidationResult {
    /// Identifier of the backup that was validated.
    pub backup_id: String,
    /// Whether every validation step passed.
    pub valid: bool,
    /// Whether the data is not empty and begins with the magic bytes.
    pub integrity_ok: bool,
    /// Whether the restore succeeded.
    pub restore_test_ok: bool,
    /// Whether the checksum matches the recorded one; `None` when none was
    /// given.
    pub checksum_ok: Option<bool>,
    /// What is wrong, when the backup is not valid.
    pub error: Option<String>,
    /// When this validation was performed.
    pub validated_at: Time,
}

/// The hexadecimal digit of a number below 16.
pub open spec fn hex_digit(n: int) -> char {
    if n < 10 {
        ((48 + n) as u8) as char
    } else {
        ((87 + n) as u8) as char
    }
}

/// The two hexadecimal digits of each byte.
pub open spec fn hex(bytes: Seq<u8>) -> Seq<char>
    decreases bytes.len(),
{
    if bytes.len() == 0 {
        Seq::empty()
    } else {
        hex(bytes.drop_last()).push(hex_digit(bytes.last() as int / 16)).push(
            hex_digit(bytes.last() as int % 16),
        )
    }
}

fn to_hex_digit(n: u8) -> (r: char)
    requires
        n < 16,
    ensures
        r == hex_digit(n as int),
{
    if n < 10 {
        (48 + n) as char
    } else {
        (87 + n) as char
    }
}

/// The two hexadecimal digits of each byte.
pub fn to_hex(bytes: &Vec<u8>) -> (r: String)
    ensures
        r@ == hex(bytes@),
{
    let mut out = String::new();
    let mut i: usize = 0;
    assert(bytes@.take(0) =~= Seq::empty());
    while i < bytes.len()
        invariant
            i <= bytes.len(),
            out@ == hex(bytes@.take(i as int)),
        decreases bytes.len() - i,
    {
        let b: u8 = bytes[i];
        proof {
            assert(bytes@.take(i + 1).drop_last() =~= bytes@.take(i as int));
            assert(bytes@.take(i + 1).last() == b);
        }
        out.push(to_hex_digit(b / 16));
        out.push(to_hex_digit(b % 16));
        i = i + 1;
    }
    assert(bytes@.take(i as int) =~= bytes@);
    out
}

/// The hexadecimal digits of different bytes differ.
pub proof fn hex_is_injective(a: Seq<u8>, b: Seq<u8>)
    requires
        hex(a) == hex(b),
    ensures
        a == b,
    decreases a.len() + b.len(),
{
    lemma_hex_len(a);
    lemma_hex_len(b);
    if a.len() > 0 {
        let x = hex(a.drop_last());
        let y = hex(b.drop_last());
        let n = hex(a).len() as int;
        assert(hex(a).take(n - 2) =~= x);
        assert(hex(b).take(n - 2) =~= y);
        hex_is_injective(a.drop_last(), b.drop_last());
        assert(hex(a)[n - 1] == hex_digit(a.last() as int % 16));
        assert(hex(b)[n - 1] == hex_digit(b.last() as int % 16));
        assert(hex(a)[n - 2] == hex_digit(a.last() as int / 16));
        assert(hex(b)[n - 2] == hex_digit(b.last() as int / 16));
        assert(a.last() == b.last());
        assert(a =~= a.drop_last().push(a.last()));
        assert(b =~= b.drop_last().push(b.last()));
    } else {
        assert(a =~= b);
    }
}

proof fn lemma_hex_len(bytes: Seq<u8>)
    ensures
        hex(bytes).len() == 2 * bytes.len(),
    decreases bytes.len(),
{
    if bytes.len() > 0 {
        lemma_hex_len(bytes.drop_last());
    }
}

/// The checksum of a backup when it was made.
#[derive(Debug)]
pub struct BackupChecksumRecord {
    pub backup_id: String,
    /// SHA-256 digest of the backup data, in hexadecimal digits.
    pub expected_checksum: String,
    pub recorded_at: Time,
}

impl BackupChecksumRecord {
    /// The record of the checksum of `data`.
    pub fn record(backup_id: &str, data: &[u8]) -> (r: Self)
        ensures
            r.backup_id@ == backup_id@,
            r.expected_checksum@ == hex(sha256(data@)),
            wall_clock_shows(r.recorded_at),
    {
        BackupChecksumRecord {
            backup_id: backup_id.to_owned(),
            expected_checksum: BackupValidator::compute_checksum(data),
            recorded_at: utc_now(),
        }
    }
}

/// When backups are validated, and what came out last.
#[derive(Debug)]
pub struct BackupValidationJob {
    /// Unique job identifier.
    pub id: String,
    /// When this job was scheduled to run next.
    pub scheduled_at: Time,
    /// When the job last ran (`None` if it has not run yet).
    pub last_run: Option<Time>,
    /// The result of the most recent validation run.
    pub last_result: Option<BackupValidationResult>,
}

/// Validates backups.
pub struct BackupValidator {}

/// The result of validating `data`, given how the restore went.
pub open spec fn is_validation(
    r: BackupValidationResult,
    backup_id: Seq<char>,
    data: Seq<u8>,
    restore: Result<(), String>,
    now: Time,
) -> bool {
    &&& r.backup_id@ == backup_id
    &&& r.validated_at == now
    &&& r.checksum_ok is None
    &&& r.integrity_ok == has_magic(data)
    &&& r.restore_test_ok == (has_magic(data) && restore is Ok)
    &&& r.valid == (has_magic(data) && restore is Ok)
    &&& text_option(r.error) == if data.len() == 0 {
        Some("backup data is empty"@)
    } else if !has_magic(data) {
        Some("backup data does not start with the SQLite magic header"@)
    } else {
        match restore {
            Ok(()) => None,
            Err(e) => Some("restore simulation failed: "@ + e@),
        }
    }
}

/// The restore went as the database says: as the query on it, or as its opening
/// where that failed. A failure is put in the words of the database.
pub closed spec fn is_outcome(r: Result<(), String>, outcome: Result<(), rusqlite::Error>) -> bool {
    match outcome {
        Ok(()) => r is Ok,
        Err(e) => r is Err && call_ensures(
            crate::backup_validation::error_text,
            (&e,),
            r->Err_0,
        ),
    }
}

/// A restore was tried, and `r` is how it went: a database was opened in memory,
/// and where that succeeded, a trivial query was run on it.
pub closed spec fn restore_tried(r: Result<(), String>) -> bool {
    exists|opened: Result<rusqlite::Connection, rusqlite::Error>| #[trigger]
        call_ensures(crate::backup_validation::open_in_memory, (), opened) && match opened {
            Ok(connection) => exists|outcome: Result<(), rusqlite::Error>| #[trigger]
                call_ensures(
                    crate::backup_validation::execute_batch,
                    (&connection, "SELECT 1;"),
                    outcome,
                ) && is_outcome(r, outcome),
            Err(e) => is_outcome(r, Err(e)),
        }
}

/// The result of validating `data`, given that a restore was tried.
pub open spec fn validates(r: BackupValidationResult, backup_id: Seq<char>, data: Seq<u8>) -> bool {
    exists|restore: Result<(), String>, now: Time|
        wall_clock_shows(now) && restore_tried(restore)
            && #[trigger] is_validation(r, backup_id, data, restore, now)
}

/// The result of validating `data` against a recorded checksum, given how the
/// restore went.
pub open spec fn is_checked_validation(
    r: BackupValidationResult,
    data: Seq<u8>,
    expected: BackupChecksumRecord,
    restore: Result<(), String>,
    now: Time,
) -> bool {
    let computed = hex(sha256(data));
    if computed == expected.expected_checksum@ {
        exists|plain: BackupValidationResult|
            {
                &&& #[trigger] is_validation(plain, expected.backup_id@, data, restore, now)
                &&& r == (BackupValidationResult { checksum_ok: Some(true), ..plain })
            }
    } else {
        exists|plain: BackupValidationResult|
            {
                &&& #[trigger] is_validation(plain, expected.backup_id@, data, restore, now)
                &&& r == (BackupValidationResult {
                    checksum_ok: Some(false),
                    valid: false,
                    error: r.error,
                    ..plain
                })
                &&& text_option(r.error) == Some(
                    "checksum mismatch: expected "@ + expected.expected_checksum@ + ", computed "@
                        + computed,
                )
            }
    }
}

/// The title of the incident on a checksum mismatch.
pub open spec fn mismatch_title(expected: BackupChecksumRecord) -> Seq<char> {
    "Backup checksum mismatch: "@ + expected.backup_id@
}

/// The description of the incident on a checksum mismatch.
pub open spec fn mismatch_description(expected: BackupChecksumRecord, computed: Seq<char>) -> Seq<char> {
    "Backup '"@ + expected.backup_id@ + "' failed checksum verification (expected "@
        + expected.expected_checksum@ + ", computed "@ + computed
        + "). This indicates possible silent corruption."@
}

impl BackupValidator {
    pub fn new() -> (r: Self) {
        BackupValidator {  }
    }

    /// Whether the data begins with the magic bytes.
    fn begins_with_magic(data: &[u8]) -> (r: bool)
        ensures
            r == has_magic(data@),
    {
        if data.len() < 6 {
            return false;
        }
        let r = data[0] == 83 && data[1] == 81 && data[2] == 76 && data[3] == 105 && data[4] == 116
            && data[5] == 101;
        proof {
            if r {
                assert(magic() =~= data@.take(6));
            } else {
                assert(magic()[0] == 83 && magic()[1] == 81 && magic()[2] == 76 && magic()[3] == 105
                    && magic()[4] == 116 && magic()[5] == 101);
            }
        }
        r
    }

    /// The result of validating `data` at the time `now`, given how the restore
    /// went.
    pub fn judge_backup(backup_id: &str, data: &[u8], restore: Result<(), String>, now: Time) -> (r:
        BackupValidationResult)
        ensures
            is_validation(r, backup_id@, data@, restore, now),
    {
        let integrity_ok = Self::begins_with_magic(data);
        let (restore_test_ok, error) = if data.len() == 0 {
            (false, Some("backup data is empty".to_owned()))
        } else if !integrity_ok {
            (
                false,
                Some("backup data does not start with the SQLite magic header".to_owned()),
            )
        } else {
            match restore {
                Ok(()) => (true, None),
                Err(e) => {
                    let mut text = "restore simulation failed: ".to_owned();
                    text.append(e.as_str());
                    (false, Some(text))
                },
            }
        };
        proof {
            if data@.len() == 0 {
                assert(!has_magic(data@));
            }
        }
        BackupValidationResult {
            backup_id: backup_id.to_owned(),
            valid: integrity_ok && restore_test_ok,
            integrity_ok,
            restore_test_ok,
            checksum_ok: None,
            error,
            validated_at: now,
        }
    }

    /// How a restore went, with a failure of the database in words.
    fn restore_outcome(outcome: Result<(), rusqlite::Error>) -> (r: Result<(), String>)
        ensures
            is_outcome(r, outcome),
    {
        match outcome {
            Ok(()) => Ok(()),
            Err(e) => Err(error_text(&e)),
        }
    }

    /// Opens a database in memory and runs a trivial query, to see that a
    /// restore can work. Whether it does rests on the machine.
    fn simulate_restore() -> (r: Result<(), String>)
        ensures
            restore_tried(r),
    {
        let outcome = match open_in_memory() {
            Ok(connection) => execute_batch(&connection, "SELECT 1;"),
            Err(e) => Err(e),
        };
        Self::restore_outcome(outcome)
    }

    /// Validates a backup.
    pub fn validate_backup(backup_id: &str, data: &[u8]) -> (r: BackupValidationResult)
        ensures
            validates(r, backup_id@, data@),
    {
        let now = utc_now();
        let restore = Self::simulate_restore();
        Self::judge_backup(backup_id, data, restore, now)
    }

    /// Validates every backup of a list; the results are in its order.
    pub fn validate_all_backups(backups: &Vec<(String, Vec<u8>)>) -> (r: Vec<BackupValidationResult>)
        ensures
            r.len() == backups.len(),
            forall|i: int|
                0 <= i < r.len() ==> validates(#[trigger] r[i], backups[i].0@, backups[i].1@),
    {
        let mut results: Vec<BackupValidationResult> = Vec::new();
        let mut i: usize = 0;
        while i < backups.len()
            invariant
                i <= backups.len(),
                results.len() == i,
                forall|j: int|
                    0 <= j < i ==> validates(#[trigger] results[j], backups[j].0@, backups[j].1@),
            decreases backups.len() - i,
        {
            let result = Self::validate_backup(backups[i].0.as_str(), backups[i].1.as_slice());
            results.push(result);
            i = i + 1;
        }
        results
    }

    /// The SHA-256 digest of `data`, in hexadecimal digits.
    pub fn compute_checksum(data: &[u8]) -> (r: String)
        ensures
            r@ == hex(sha256(data@)),
    {
        let digest = sha256_digest(data);
        to_hex(&digest)
    }

    /// The result of validating `data` against a recorded checksum at the time
    /// `now`, given how the restore went. A mismatch fails the validation
    /// whatever the other checks say.
    pub fn judge_backup_with_checksum(
        data: &[u8],
        expected: &BackupChecksumRecord,
        restore: Result<(), String>,
        now: Time,
    ) -> (r: BackupValidationResult)
        ensures
            is_checked_validation(r, data@, *expected, restore, now),
    {
        let plain = Self::judge_backup(expected.backup_id.as_str(), data, restore, now);
        let ghost model = plain;
        let mut result = plain;
        let computed = Self::compute_checksum(data);
        let matches = same(computed.as_str(), expected.expected_checksum.as_str());
        result.checksum_ok = Some(matches);
        if !matches {
            result.valid = false;
            let mut text = "checksum mismatch: expected ".to_owned();
            text.append(expected.expected_checksum.as_str());
            text.append(", computed ");
            text.append(computed.as_str());
            result.error = Some(text);
        }
        assert(is_validation(model, expected.backup_id@, data@, restore, now));
        result
    }

    /// Validates a backup against a recorded checksum. On a mismatch an
    /// incident of severity 2 is opened in the store, if one is given.
    pub fn validate_backup_with_checksum(
        data: &[u8],
        expected: &BackupChecksumRecord,
        incidents: Option<&mut IncidentStore>,
    ) -> (r: BackupValidationResult)
        requires
            incidents is Some ==> incidents->0.wf(),
        ensures
            exists|restore: Result<(), String>, now: Time|
                wall_clock_shows(now) && restore_tried(restore) && #[trigger] is_checked_validation(
                    r,
                    data@,
                    *expected,
                    restore,
                    now,
                ),
            match incidents {
                Some(store) => {
                    &&& final(store).wf()
                    &&& if hex(sha256(data@)) == expected.expected_checksum@ {
                        *final(store) == *store
                    } else {
                        mismatch_reported(*store, *final(store), *expected, hex(sha256(data@)))
                    }
                },
                None => true,
            },
    {
        let now = utc_now();
        let restore = Self::simulate_restore();
        let result = Self::judge_backup_with_checksum(data, expected, restore, now);
        if let Some(store) = incidents {
            let computed = Self::compute_checksum(data);
            if !same(computed.as_str(), expected.expected_checksum.as_str()) {
                let mut title = "Backup checksum mismatch: ".to_owned();
                title.append(expected.backup_id.as_str());
                let mut description = "Backup '".to_owned();
                description.append(expected.backup_id.as_str());
                description.append("' failed checksum verification (expected ");
                description.append(expected.expected_checksum.as_str());
                description.append(", computed ");
                description.append(computed.as_str());
                description.append("). This indicates possible silent corruption.");
                let ghost before = *store;
                let incident = open_incident(store, title, description, IncidentSeverity::Sev2);
                proof {
                    let (id, note_id, at) = choose|id: Seq<char>, note_id: Seq<char>, at: Time|
                        is_new_id(id) && is_new_id(note_id) && #[trigger] opened(
                            before,
                            *store,
                            title@,
                            description@,
                            IncidentSeverity::Sev2,
                            None,
                            id,
                            note_id,
                            at,
                            incident@,
                        );
                    assert(opened(
                        before,
                        *store,
                        mismatch_title(*expected),
                        mismatch_description(*expected, computed@),
                        IncidentSeverity::Sev2,
                        None,
                        id,
                        note_id,
                        at,
                        incident@,
                    ));
                }
            }
        }
        result
    }
}

/// An incident of severity 2 on the mismatch was opened.
pub open spec fn mismatch_reported(
    before: IncidentStore,
    after: IncidentStore,
    expected: BackupChecksumRecord,
    computed: Seq<char>,
) -> bool {
    exists|id: Seq<char>, note_id: Seq<char>, now: Time, made: crate::incidents::IncidentModel|
        wall_clock_shows(now) && #[trigger] opened(
            before,
            after,
            mismatch_title(expected),
            mismatch_description(expected, computed),
            IncidentSeverity::Sev2,
            None,
            id,
            note_id,
            now,
            made,
        )
}

impl Default for BackupValidator {
    fn default() -> (r: Self) {
        BackupValidator::new()
    }
}

/// A backup whose data is the same as when its checksum was recorded passes
/// the checksum; one whose digest differs is not valid.
pub proof fn checksums_detect_corruption(
    saved: Seq<u8>,
    data: Seq<u8>,
    record: BackupChecksumRecord,
    restore: Result<(), String>,
    now: Time,
    r: BackupValidationResult,
)
    requires
        record.expected_checksum@ == hex(sha256(saved)),
        is_checked_validation(r, data, record, restore, now),
    ensures
        data == saved ==> r.checksum_ok == Some(true),
        sha256(data) != sha256(saved) ==> r.checksum_ok == Some(false) && !r.valid,
{
    if sha256(data) != sha256(saved) {
        if hex(sha256(data)) == hex(sha256(saved)) {
            hex_is_injective(sha256(data), sha256(saved));
        }
    }
}

/// A backup is valid exactly where it begins with the letters "SQLite" and the restore
/// succeeded; where it is not, the result says what is wrong.
pub proof fn valid_backups_begin_as_databases_do(
    r: BackupValidationResult,
    backup_id: Seq<char>,
    data: Seq<u8>,
    restore: Result<(), String>,
    now: Time,
)
    requires
        is_validation(r, backup_id, data, restore, now),
    ensures
        ({
            let header = data.len() >= 6 && data[0] == 'S' as u8 && data[1] == 'Q' as u8 && data[2]
                == 'L' as u8 && data[3] == 'i' as u8 && data[4] == 't' as u8 && data[5]
                == 'e' as u8;
            &&& r.valid <==> header && restore is Ok
            &&& r.integrity_ok <==> header
            &&& r.restore_test_ok ==> restore is Ok
            &&& r.error is None <==> r.valid
            &&& r.backup_id@ == backup_id
        }),
{
    if data.len() >= 6 {
        let head = data.take(6);
        if data[0] == 83 && data[1] == 81 && data[2] == 76 && data[3] == 105 && data[4] == 116
            && data[5] == 101 {
            assert(head =~= magic());
        }
    }
    if has_magic(data) {
        assert(data[0] == magic()[0] && data[1] == magic()[1] && data[2] == magic()[2] && data[3]
            == magic()[3] && data[4] == magic()[4] && data[5] == magic()[5]);
    }
    if data.len() == 0 {
        assert(!has_magic(data));
    }
}

/// A backup that is held against a recorded checksum is valid only where it still has it,
/// whatever the other checks say, and it is then judged as without one.
pub proof fn mismatches_are_never_valid(
    r: BackupValidationResult,
    data: Seq<u8>,
    expected: BackupChecksumRecord,
    restore: Result<(), String>,
    now: Time,
)
    requires
        is_checked_validation(r, data, expected, restore, now),
    ensures
        r.checksum_ok == Some(hex(sha256(data)) == expected.expected_checksum@),
        r.valid <==> hex(sha256(data)) == expected.expected_checksum@ && has_magic(data)
            && restore is Ok,
        r.error is None <==> r.valid,
        r.backup_id@ == expected.backup_id@,
{
}

/// On a mismatch there is a new incident of the second severity that names the backup.
pub proof fn mismatches_open_incidents(
    before: IncidentStore,
    after: IncidentStore,
    expected: BackupChecksumRecord,
    computed: Seq<char>,
)
    requires
        mismatch_reported(before, after, expected, computed),
    ensures
        exists|id: Seq<char>|
            {
                &&& #[trigger] incident_models(after).contains_key(id)
                &&& incident_models(after)[id].severity == IncidentSeverity::Sev2
                &&& incident_models(after)[id].title == "Backup checksum mismatch: "@
                    + expected.backup_id@
                &&& incident_models(after)[id].status == IncidentStatus::Open
            },
{
    let (id, note_id, now, made) = choose|
        id: Seq<char>,
        note_id: Seq<char>,
        now: Time,
        made: crate::incidents::IncidentModel,
    |
        wall_clock_shows(now) && #[trigger] opened(
            before,
            after,
            mismatch_title(expected),
            mismatch_description(expected, computed),
            IncidentSeverity::Sev2,
            None,
            id,
            note_id,
            now,
            made,
        );
    assert(incident_models(after).contains_key(id));
}

/// Each byte is written as two digits, the higher one first, from 0 to 9 and from a to f.
pub proof fn bytes_are_written_as_two_digits(bytes: Seq<u8>, i: int)
    requires
        0 <= i < bytes.len(),
    ensures
        hex(bytes).len() == 2 * bytes.len(),
        ({
            let high = bytes[i] as int / 16;
            let low = bytes[i] as int % 16;
            &&& hex(bytes)[2 * i] as int == if high < 10 {
                '0' as int + high
            } else {
                'a' as int + high - 10
            }
            &&& hex(bytes)[2 * i + 1] as int == if low < 10 {
                '0' as int + low
            } else {
                'a' as int + low - 10
            }
        }),
    decreases bytes.len(),
{
    lemma_hex_len(bytes);
    let rest = bytes.drop_last();
    lemma_hex_len(rest);
    if i < rest.len() {
        bytes_are_written_as_two_digits(rest, i);
        assert(rest[i] == bytes[i]);
    }
}

} // verus!
