use std::collections::{BTreeMap, HashMap, HashSet};

use ethos_protocol_backend::distributed_tx::{
    configured_shard_count, decode_record, encode_participants, recovery_continues, shard_path,
    vote, CoordinatorRun, DistributedTransaction, DistributedTxCoordinator, DistributedTxError,
    Operation, Progress, RecoveryAction, RecoveryOutcome, ShardKey, Step, StepResult, TxLogRecord,
    TxOutcome, TxState,
};

/// A shard in memory.
#[derive(Default)]
struct Shard {
    data: HashMap<String, String>,
    prepared: HashMap<String, Vec<Operation>>,
    committed: HashSet<String>,
}

impl Shard {
    fn prepare(&mut self, tx_id: &str, ops: &[Operation]) -> StepResult {
        let seen = self.prepared.contains_key(tx_id) || self.committed.contains(tx_id);
        if !seen {
            self.prepared.insert(tx_id.to_string(), ops.to_vec());
        }
        StepResult::Voted(vote(seen))
    }

    fn commit(&mut self, tx_id: &str) -> StepResult {
        match self.prepared.remove(tx_id) {
            Some(ops) => {
                for op in ops {
                    match op {
                        Operation::Put { shard_key, value } => {
                            self.data.insert(shard_key, value);
                        }
                        Operation::Delete { shard_key } => {
                            self.data.remove(&shard_key);
                        }
                        Operation::RawSql { .. } => {}
                    }
                }
                self.committed.insert(tx_id.to_string());
                StepResult::Done
            }
            None => {
                StepResult::Failed(DistributedTxError::TransactionNotFound(tx_id.to_string()))
            }
        }
    }

    fn rollback(&mut self, tx_id: &str) -> StepResult {
        self.prepared.remove(tx_id);
        StepResult::Done
    }

    fn read(&self, key: &str) -> Option<String> {
        self.data.get(key).cloned()
    }
}

/// A log in memory: the state's name and the participants as a text.
type Log = BTreeMap<String, (String, String)>;

struct Cluster {
    coordinator: DistributedTxCoordinator,
    shards: Vec<Shard>,
    log: Log,
}

impl Cluster {
    fn new(n: usize) -> Self {
        Cluster {
            coordinator: DistributedTxCoordinator::new(n),
            shards: (0..n).map(|_| Shard::default()).collect(),
            log: Log::new(),
        }
    }

    fn record(&mut self, tx_id: &str, state: TxState, participants: &Vec<usize>) {
        self.log.insert(
            tx_id.to_string(),
            (state.as_str().to_string(), encode_participants(participants)),
        );
    }

    fn logged(&self, tx_id: &str) -> TxLogRecord {
        let (state, participants) = &self.log[tx_id];
        decode_record(tx_id, state, participants).unwrap()
    }

    fn in_flight(&self) -> Vec<TxLogRecord> {
        self.log
            .iter()
            .map(|(id, (state, participants))| decode_record(id, state, participants).unwrap())
            .filter(|r| r.state.is_in_flight())
            .collect()
    }

    fn perform(
        &mut self,
        step: Step,
        tx_id: &str,
        participants: &Vec<usize>,
        ops: &HashMap<usize, Vec<Operation>>,
    ) -> StepResult {
        match step {
            Step::Record(state) => {
                self.record(tx_id, state, participants);
                StepResult::Done
            }
            Step::Prepare(i) => {
                let list = ops.get(&i).cloned().unwrap_or_default();
                self.shards[i].prepare(tx_id, &list)
            }
            Step::Commit(i) => self.shards[i].commit(tx_id),
            Step::Rollback(i) => self.shards[i].rollback(tx_id),
        }
    }

    fn execute(&mut self, tx: &DistributedTransaction) -> Result<TxOutcome, DistributedTxError> {
        let participants = tx.participants();
        let ops: HashMap<usize, Vec<Operation>> =
            tx.shard_ops.iter().map(|s| (s.shard, s.operations.to_vec())).collect();
        let (mut run, mut step) = self.coordinator.execute(tx);
        loop {
            let result = self.perform(step, &tx.tx_id, &participants, &ops);
            match run.advance(result) {
                Progress::Do(next) => step = next,
                Progress::Finished(outcome) => return outcome,
            }
        }
    }

    fn recover(&mut self) -> Vec<RecoveryOutcome> {
        let records = self.in_flight();
        let mut outcomes = Vec::new();
        for (plan, record) in self.coordinator.recover(&records).into_iter().zip(records) {
            for step in plan.steps {
                let result =
                    self.perform(step, &record.tx_id, &record.participants, &HashMap::new());
                assert!(recovery_continues(&step, &result));
            }
            outcomes.push(plan.outcome);
        }
        outcomes
    }
}

fn put(key: &str, value: &str) -> Operation {
    Operation::Put { shard_key: key.to_string(), value: value.to_string() }
}

fn transaction(id: &str, ops: Vec<(usize, Operation)>) -> DistributedTransaction {
    let mut tx = DistributedTransaction::new(id.to_string());
    for (shard, op) in ops {
        tx.add_op(shard, op);
    }
    tx
}

#[test]
fn test_shard_key_maps_consistently() {
    let key = ShardKey::new("vault-abc".to_string());
    let idx1 = key.shard_index(4);
    let idx2 = key.shard_index(4);
    assert_eq!(idx1, idx2);
    assert!(idx1 < 4);
}

#[test]
fn test_shard_key_zero_shards_returns_zero() {
    let key = ShardKey::new("anything".to_string());
    assert_eq!(key.shard_index(0), 0);
}

#[test]
fn test_single_shard_commit() {
    let mut cluster = Cluster::new(1);
    let tx = transaction("tx-001", vec![(0, put("k1", "v1"))]);
    let outcome = cluster.execute(&tx).expect("execute");
    assert_eq!(outcome, TxOutcome::Committed);
    assert_eq!(cluster.shards[0].read("k1"), Some("v1".to_string()));
}

#[test]
fn test_multi_shard_commit() {
    let mut cluster = Cluster::new(2);
    let tx = transaction("tx-multi", vec![(0, put("key0", "val0")), (1, put("key1", "val1"))]);
    let outcome = cluster.execute(&tx).expect("execute");
    assert_eq!(outcome, TxOutcome::Committed);
    assert_eq!(cluster.shards[0].read("key0"), Some("val0".to_string()));
    assert_eq!(cluster.shards[1].read("key1"), Some("val1".to_string()));
}

#[test]
fn test_duplicate_tx_id_votes_abort() {
    let mut cluster = Cluster::new(1);
    let tx = transaction("tx-dup", vec![(0, put("k", "v"))]);
    cluster.execute(&tx).unwrap();
    let outcome2 = cluster.execute(&tx).unwrap();
    assert_eq!(outcome2, TxOutcome::RolledBack);
}

#[test]
fn test_rollback_on_abort() {
    let mut cluster = Cluster::new(2);
    cluster.shards[0].prepare("tx-force-abort", &[put("x", "y")]);

    let tx = transaction("tx-force-abort", vec![(0, put("x", "y")), (1, put("z", "w"))]);
    let outcome = cluster.execute(&tx).unwrap();
    assert_eq!(outcome, TxOutcome::RolledBack);
    assert_eq!(cluster.shards[1].read("z"), None);
}

#[test]
fn test_delete_operation() {
    let mut cluster = Cluster::new(1);
    cluster.execute(&transaction("tx-put", vec![(0, put("del-me", "some-value"))])).unwrap();
    let delete = Operation::Delete { shard_key: "del-me".to_string() };
    cluster.execute(&transaction("tx-del", vec![(0, delete)])).unwrap();
    assert_eq!(cluster.shards[0].read("del-me"), None);
}

#[test]
fn test_coordinator_shard_count() {
    let cluster = Cluster::new(3);
    assert_eq!(cluster.coordinator.shard_count(), 3);
}

#[test]
fn test_route_operation_returns_valid_index() {
    let cluster = Cluster::new(4);
    let idx = cluster.coordinator.route_operation(&put("some-key", "v"));
    assert!(idx < 4);
}

#[test]
fn raw_sql_goes_to_the_first_shard() {
    let raw = Operation::RawSql { sql: "SELECT 1".to_string() };
    for n in [1, 2, 3, 7] {
        assert_eq!(DistributedTxCoordinator::new(n).route_operation(&raw), 0);
    }
}

#[test]
fn test_rebalance_moves_keys() {
    let mut cluster = Cluster::new(3);
    let keys = ["alpha", "beta", "gamma", "delta", "epsilon"];
    for k in &keys {
        cluster.execute(&transaction(&format!("seed-{k}"), vec![(0, put(k, "v"))])).unwrap();
    }
    let rows: Vec<(String, String)> =
        cluster.shards[0].data.iter().map(|(k, v)| (k.clone(), v.clone())).collect();
    let expected: Vec<&&str> =
        keys.iter().filter(|k| ShardKey::new(k.to_string()).shard_index(3) == 2).collect();
    let rebalancing = cluster.coordinator.rebalance(&rows, 0, 2, 3).unwrap();
    let count = rebalancing.as_ref().map_or(0, |r| r.moved);
    assert_eq!(count as usize, expected.len());
    if let Some(r) = rebalancing {
        assert_eq!(cluster.execute(&r.transaction).unwrap(), TxOutcome::Committed);
    }
    for k in &keys {
        let moved = expected.contains(&k);
        assert_eq!(cluster.shards[2].read(k).is_some(), moved);
        assert_eq!(cluster.shards[0].read(k).is_some(), !moved);
    }
}

#[test]
fn test_empty_transaction_commits() {
    let mut cluster = Cluster::new(1);
    let outcome = cluster.execute(&transaction("tx-empty", vec![])).unwrap();
    assert_eq!(outcome, TxOutcome::Committed);
}

#[test]
fn test_from_env_single_shard() {
    let coordinator = DistributedTxCoordinator::new(configured_shard_count(Some("1")));
    assert_eq!(coordinator.shard_count(), 1);
    assert_eq!(configured_shard_count(None), 1);
    assert_eq!(configured_shard_count(Some("x")), 1);
    assert_eq!(configured_shard_count(Some("8")), 8);
    assert_eq!(shard_path(None, 3), ":memory:");
    assert_eq!(shard_path(Some("/data/shard"), 3), "/data/shard_3.db");
}

#[test]
fn execute_records_terminal_state_in_the_log() {
    let mut cluster = Cluster::new(2);
    let tx = transaction("tx-logged", vec![(0, put("a", "1")), (1, put("b", "2"))]);
    cluster.execute(&tx).unwrap();

    let rec = cluster.logged("tx-logged");
    assert_eq!(rec.state, TxState::Committed);
    assert_eq!(rec.participants, vec![0, 1]);
    assert!(cluster.in_flight().is_empty());
}

#[test]
fn recovery_resumes_commit_when_decision_was_durable() {
    let mut cluster = Cluster::new(2);
    let tx_id = "tx-crash-after-decision";
    cluster.shards[0].prepare(tx_id, &[put("k0", "v0")]);
    cluster.shards[1].prepare(tx_id, &[put("k1", "v1")]);
    cluster.record(tx_id, TxState::Committing, &vec![0, 1]);
    cluster.shards[0].commit(tx_id);

    let outcomes = cluster.recover();
    assert_eq!(outcomes.len(), 1);
    assert_eq!(outcomes[0].action, RecoveryAction::ResumedCommit);

    assert_eq!(cluster.shards[0].read("k0"), Some("v0".into()));
    assert_eq!(cluster.shards[1].read("k1"), Some("v1".into()));
    assert_eq!(cluster.logged(tx_id).state, TxState::Committed);
}

#[test]
fn recovery_aborts_when_no_commit_decision_was_durable() {
    let mut cluster = Cluster::new(2);
    let tx_id = "tx-crash-before-decision";
    cluster.shards[0].prepare(tx_id, &[put("z", "w")]);
    cluster.shards[1].prepare(tx_id, &[put("z", "w")]);
    cluster.record(tx_id, TxState::Prepared, &vec![0, 1]);

    let outcomes = cluster.recover();
    assert_eq!(outcomes.len(), 1);
    assert_eq!(outcomes[0].action, RecoveryAction::Compensated);

    assert_eq!(cluster.shards[0].read("z"), None);
    assert_eq!(cluster.shards[1].read("z"), None);
    assert_eq!(cluster.logged(tx_id).state, TxState::Aborted);
}

#[test]
fn recovery_is_idempotent() {
    let mut cluster = Cluster::new(1);
    let tx_id = "tx-idem";
    cluster.shards[0].prepare(tx_id, &[put("i", "1")]);
    cluster.record(tx_id, TxState::Committing, &vec![0]);

    let first = cluster.recover();
    assert_eq!(first.len(), 1);
    let second = cluster.recover();
    assert!(second.is_empty());
    assert_eq!(cluster.shards[0].read("i"), Some("1".into()));
}

#[test]
fn unknown_shards_end_a_transaction() {
    let mut cluster = Cluster::new(1);
    let tx = transaction("tx-wide", vec![(0, put("a", "1")), (5, put("b", "2"))]);
    let error = cluster.execute(&tx).unwrap_err();
    assert_eq!(error.message(), "shard 5 unavailable: index out of range");
    assert_eq!(cluster.shards[0].read("a"), None);
    // The transaction stays in flight and recovery rolls it back.
    assert_eq!(cluster.in_flight().len(), 1);
    assert_eq!(cluster.recover()[0].action, RecoveryAction::Compensated);
    assert!(cluster.shards[0].prepared.is_empty());
    let error = cluster.coordinator.rebalance(&vec![], 0, 9, 10).unwrap_err();
    assert_eq!(error.message(), "shard 9 unavailable: not found");
}

#[test]
fn a_failing_step_ends_the_run() {
    let tx = transaction("tx", vec![(0, put("a", "1"))]);
    let (mut run, step) = CoordinatorRun::begin(&tx, 1);
    assert_eq!(step, Step::Record(TxState::Preparing));
    let failure = StepResult::Failed(DistributedTxError::LogUnavailable("full".to_string()));
    match run.advance(failure) {
        Progress::Finished(Err(e)) => assert!(e.message().ends_with("full")),
        other => panic!("unexpected {:?}", other),
    }
}

#[test]
fn log_records_are_read_back() {
    let record = decode_record("t", "aborting", &encode_participants(&vec![3, 0, 12])).unwrap();
    assert_eq!(record.state, TxState::Aborting);
    assert_eq!(record.participants, vec![3, 0, 12]);
    assert!(decode_record("t", "committed", "").unwrap().participants.is_empty());
    assert!(matches!(
        decode_record("t", "unheard-of", ""),
        Err(DistributedTxError::Serialization(_))
    ));
    assert!(decode_record("t", "committed", "1,x").is_err());
    assert_eq!(TxState::from_str("prepared"), Some(TxState::Prepared));
    assert_eq!(TxState::from_str("Prepared"), None);
}

#[test]
fn shard_hashes_follow_their_definition() {
    for key in ["", "a", "vault-abc", "ключ"] {
        let hash = key.bytes().fold(14_695_981_039_346_656_037_u64, |acc, b| {
            acc.wrapping_mul(1_099_511_628_211).wrapping_add(b as u64)
        });
        assert_eq!(ShardKey::new(key.to_string()).shard_index(7), (hash % 7) as usize);
    }
}

#[test]
fn operations_become_statements() {
    let (sql, parameters) = put("k", "v").statement();
    assert_eq!(sql, "INSERT OR REPLACE INTO kv_data (shard_key, value) VALUES (?1, ?2)");
    assert_eq!(parameters, vec!["k".to_string(), "v".to_string()]);
    let (sql, parameters) = Operation::Delete { shard_key: "k".to_string() }.statement();
    assert_eq!(sql, "DELETE FROM kv_data WHERE shard_key = ?1");
    assert_eq!(parameters, vec!["k".to_string()]);
    let (sql, parameters) = Operation::RawSql { sql: "SELECT 1".to_string() }.statement();
    assert_eq!(sql, "SELECT 1");
    assert!(parameters.is_empty());
}
