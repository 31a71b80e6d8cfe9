//! What a distributed transaction does to the shards.
//!
//! A shard keeps its data, the transactions that are prepared on it and those
//! that were committed on it, and the log keeps the states of the transactions.
//! Taken through its steps over shards and a log that do what they are asked, a
//! transaction is committed everywhere or leaves every shard as it was.

use vstd::prelude::*;

use crate::distributed_tx::{
    existing, is_rebalance, migrating, moving_ops, owner, recovery_script, shards, vote_of, Answer,
    DistributedTransaction, DistributedTxError, Next, Operation, Phase, Rebalancing, RunModel, Step,
    TxOutcome, TxState, Vote,
};

verus! {

/// The contents of a shard.
pub struct ShardModel {
    pub data: Map<Seq<char>, Seq<char>>,
    /// The operations of the prepared transactions.
    pub prepared: Map<Seq<char>, Seq<Operation>>,
    pub committed: Set<Seq<char>>,
}

/// The data after the operations, in their order. What raw SQL does to the data
/// is given.
pub open spec fn applied(
    data: Map<Seq<char>, Seq<char>>,
    operations: Seq<Operation>,
    raw: spec_fn(Map<Seq<char>, Seq<char>>, Seq<char>) -> Map<Seq<char>, Seq<char>>,
) -> Map<Seq<char>, Seq<char>>
    decreases operations.len(),
{
    if operations.len() == 0 {
        data
    } else {
        let before = applied(data, operations.drop_last(), raw);
        match operations.last() {
            Operation::Put { shard_key, value } => before.insert(shard_key@, value@),
            Operation::Delete { shard_key } => before.remove(shard_key@),
            Operation::RawSql { sql } => raw(before, sql@),
        }
    }
}

impl ShardModel {
    /// The transaction is prepared or was committed here.
    pub open spec fn has_seen(self, id: Seq<char>) -> bool {
        self.prepared.contains_key(id) || self.committed.contains(id)
    }

    /// The shard with a transaction prepared.
    pub open spec fn holding(self, id: Seq<char>, operations: Seq<Operation>) -> ShardModel {
        ShardModel { prepared: self.prepared.insert(id, operations), ..self }
    }

    /// The shard without a prepared transaction.
    pub open spec fn rid_of(self, id: Seq<char>) -> ShardModel {
        ShardModel { prepared: self.prepared.remove(id), ..self }
    }

    /// The shard with the operations applied and the transaction committed.
    pub open spec fn having(
        self,
        id: Seq<char>,
        operations: Seq<Operation>,
        raw: spec_fn(Map<Seq<char>, Seq<char>>, Seq<char>) -> Map<Seq<char>, Seq<char>>,
    ) -> ShardModel {
        ShardModel {
            data: applied(self.data, operations, raw),
            prepared: self.prepared.remove(id),
            committed: self.committed.insert(id),
        }
    }
}

/// The shards and the log.
pub struct ClusterModel {
    pub shards: Seq<ShardModel>,
    pub log: Map<Seq<char>, TxState>,
}

/// The cluster after a step of a transaction, and what the step is answered. A
/// shard that has seen the transaction votes to abort; committing needs what was
/// prepared.
pub open spec fn performed(
    c: ClusterModel,
    step: Step,
    tx: DistributedTransaction,
    raw: spec_fn(Map<Seq<char>, Seq<char>>, Seq<char>) -> Map<Seq<char>, Seq<char>>,
) -> (ClusterModel, Answer) {
    let id = tx.tx_id@;
    match step {
        Step::Record(state) => (
            ClusterModel { log: c.log.insert(id, state), ..c },
            Answer::Done,
        ),
        Step::Prepare(i) => if vote_of(c.shards[i as int].has_seen(id)) == Vote::Abort {
            (c, Answer::Abort)
        } else {
            (
                ClusterModel {
                    shards: c.shards.update(
                        i as int,
                        c.shards[i as int].holding(id, tx.operations(i)),
                    ),
                    ..c
                },
                Answer::Commit,
            )
        },
        Step::Commit(i) => if c.shards[i as int].prepared.contains_key(id) {
            (
                ClusterModel {
                    shards: c.shards.update(
                        i as int,
                        c.shards[i as int].having(id, c.shards[i as int].prepared[id], raw),
                    ),
                    ..c
                },
                Answer::Done,
            )
        } else {
            (c, Answer::Failed)
        },
        Step::Rollback(i) => (
            ClusterModel {
                shards: c.shards.update(i as int, c.shards[i as int].rid_of(id)),
                ..c
            },
            Answer::Done,
        ),
    }
}

/// The cluster after the steps of a transaction from `step` on, and how the
/// transaction ended.
pub open spec fn driven(
    run: RunModel,
    step: Step,
    c: ClusterModel,
    tx: DistributedTransaction,
    raw: spec_fn(Map<Seq<char>, Seq<char>>, Seq<char>) -> Map<Seq<char>, Seq<char>>,
    fuel: nat,
) -> (ClusterModel, Next)
    decreases fuel,
{
    let (c2, answer) = performed(c, step, tx, raw);
    let (after, next) = run.next(answer);
    match next {
        Next::Do(more) => if fuel == 0 {
            (c2, next)
        } else {
            driven(after, more, c2, tx, raw, (fuel - 1) as nat)
        },
        _ => (c2, next),
    }
}

/// The shard is one of the first `n` participants.
spec fn among(tx: DistributedTransaction, n: int, i: int) -> bool {
    exists|j: int| 0 <= j < n && #[trigger] shards(tx.shard_ops@)[j] == i
}

/// The cluster in which the participants from the place `m` up to `n` hold the
/// transaction, and those before `m` are as `done` says.
spec fn between(
    c: ClusterModel,
    tx: DistributedTransaction,
    m: int,
    n: int,
    done: spec_fn(int) -> ShardModel,
    log: Map<Seq<char>, TxState>,
) -> ClusterModel {
    ClusterModel {
        shards: Seq::new(
            c.shards.len(),
            |i: int|
                if among(tx, m, i) {
                    done(i)
                } else if among(tx, n, i) {
                    c.shards[i].holding(tx.tx_id@, tx.operations(i as usize))
                } else {
                    c.shards[i]
                },
        ),
        log,
    }
}

/// The transaction names shards of the cluster only.
pub open spec fn fits(tx: DistributedTransaction, c: ClusterModel) -> bool {
    &&& tx.wf()
    &&& c.shards.len() <= usize::MAX
    &&& forall|j: int|
        0 <= j < tx.shard_ops.len() ==> (#[trigger] shards(tx.shard_ops@)[j]) < c.shards.len()
}

proof fn lemma_among(tx: DistributedTransaction, n: int)
    requires
        tx.wf(),
        0 <= n < tx.shard_ops.len(),
    ensures
        forall|i: int| #[trigger]
            among(tx, n + 1, i) <==> among(tx, n, i) || i == shards(tx.shard_ops@)[n],
        forall|m: int| m <= n ==> !#[trigger] among(tx, m, shards(tx.shard_ops@)[n] as int),
{
    let list = shards(tx.shard_ops@);
    assert forall|i: int| #[trigger] among(tx, n + 1, i) <==> among(tx, n, i) || i == list[n] by {
        if among(tx, n + 1, i) {
            let j = choose|j: int| 0 <= j < n + 1 && #[trigger] list[j] == i;
            if j < n {
                assert(among(tx, n, i));
            }
        }
        if among(tx, n, i) {
            let j = choose|j: int| 0 <= j < n && #[trigger] list[j] == i;
            assert(0 <= j < n + 1 && list[j] == i);
        }
        if i == list[n] {
            assert(0 <= n < n + 1 && list[n] == i);
        }
    }
    assert forall|m: int| m <= n implies !#[trigger] among(tx, m, list[n] as int) by {
        if among(tx, m, list[n] as int) {
            let j = choose|j: int| 0 <= j < m && #[trigger] list[j] == list[n] as int;
            assert(list[j] < list[n]);
        }
    }
}

/// The participants commit, from the place `at` on.
proof fn lemma_committing(
    run: RunModel,
    at: int,
    c: ClusterModel,
    log: Map<Seq<char>, TxState>,
    tx: DistributedTransaction,
    raw: spec_fn(Map<Seq<char>, Seq<char>>, Seq<char>) -> Map<Seq<char>, Seq<char>>,
    fuel: nat,
)
    requires
        fits(tx, c),
        run.participants == shards(tx.shard_ops@),
        run.phase == (Phase::Committing { at: at as usize }),
        run.participants.len() <= usize::MAX,
        0 <= at < run.participants.len(),
        fuel >= run.participants.len() - at,
    ensures
        ({
            let n = run.participants.len() as int;
            let done = |i: int| c.shards[i].having(tx.tx_id@, tx.operations(i as usize), raw);
            driven(
                run,
                Step::Commit(run.participants[at]),
                between(c, tx, at, n, done, log),
                tx,
                raw,
                fuel,
            ) == (
                between(c, tx, n, n, done, log.insert(tx.tx_id@, TxState::Committed)),
                Next::Ended(TxOutcome::Committed),
            )
        }),
    decreases run.participants.len() - at,
{
    let n = run.participants.len() as int;
    let id = tx.tx_id@;
    let done = |i: int| c.shards[i].having(id, tx.operations(i as usize), raw);
    let here = between(c, tx, at, n, done, log);
    let p = run.participants[at] as int;
    let step = Step::Commit(run.participants[at]);
    lemma_among(tx, at);
    assert(among(tx, n, p)) by {
        assert(run.participants[at] == p);
    }
    let ops = tx.operations(p as usize);
    assert(here.shards[p] == c.shards[p].holding(id, ops));
    let (c2, answer) = performed(here, step, tx, raw);
    assert(c.shards[p].holding(id, ops).having(id, ops, raw) == c.shards[p].having(id, ops, raw)) by {
        assert(c.shards[p].prepared.insert(id, ops).remove(id) =~= c.shards[p].prepared.remove(id));
    }
    assert(c2.shards =~= between(c, tx, at + 1, n, done, log).shards);
    assert(answer == Answer::Done);
    let (after, next) = run.next(answer);
    if at + 1 < n {
        lemma_committing(after, at + 1, c, log, tx, raw, (fuel - 1) as nat);
    } else {
        let last = Step::Record(TxState::Committed);
        assert(next == Next::Do(last));
        let (c3, end) = performed(c2, last, tx, raw);
        assert(c3 == between(c, tx, n, n, done, log.insert(id, TxState::Committed)));
        assert(after.next(end).1 == Next::Ended(TxOutcome::Committed));
        assert(driven(after, last, c2, tx, raw, (fuel - 1) as nat) == (
            c3,
            Next::Ended(TxOutcome::Committed),
        ));
    }
}

/// The participants that prepared roll back, from the place `at` on.
proof fn lemma_rolling_back(
    run: RunModel,
    at: int,
    k: int,
    c: ClusterModel,
    log: Map<Seq<char>, TxState>,
    tx: DistributedTransaction,
    raw: spec_fn(Map<Seq<char>, Seq<char>>, Seq<char>) -> Map<Seq<char>, Seq<char>>,
    fuel: nat,
)
    requires
        fits(tx, c),
        run.participants == shards(tx.shard_ops@),
        run.phase == (Phase::RollingBack { at: at as usize, prepared: k as usize }),
        run.participants.len() <= usize::MAX,
        0 <= at < k < run.participants.len(),
        forall|j: int|
            0 <= j < k ==> !c.shards[#[trigger] run.participants[j] as int].has_seen(tx.tx_id@),
        fuel >= k - at,
    ensures
        ({
            let done = |i: int| c.shards[i];
            driven(
                run,
                Step::Rollback(run.participants[at]),
                between(c, tx, at, k, done, log),
                tx,
                raw,
                fuel,
            ) == (
                ClusterModel { log: log.insert(tx.tx_id@, TxState::Aborted), ..c },
                Next::Ended(TxOutcome::RolledBack),
            )
        }),
    decreases k - at,
{
    let id = tx.tx_id@;
    let done = |i: int| c.shards[i];
    let here = between(c, tx, at, k, done, log);
    let p = run.participants[at] as int;
    let step = Step::Rollback(run.participants[at]);
    lemma_among(tx, at);
    assert(among(tx, k, p)) by {
        assert(run.participants[at] == p);
    }
    let ops = tx.operations(p as usize);
    assert(here.shards[p] == c.shards[p].holding(id, ops));
    let (c2, answer) = performed(here, step, tx, raw);
    assert(!c.shards[run.participants[at] as int].has_seen(id));
    assert(c.shards[p].holding(id, ops).rid_of(id) == c.shards[p]) by {
        assert(c.shards[p].prepared.insert(id, ops).remove(id) =~= c.shards[p].prepared);
    }
    assert(c2.shards =~= between(c, tx, at + 1, k, done, log).shards);
    let (after, next) = run.next(answer);
    if at + 1 < k {
        lemma_rolling_back(after, at + 1, k, c, log, tx, raw, (fuel - 1) as nat);
    } else {
        lemma_all_rolled_back(c, tx, k, log);
        lemma_recording_aborted(after, c2, c, log, tx, raw, (fuel - 1) as nat);
    }
}

proof fn lemma_all_rolled_back(
    c: ClusterModel,
    tx: DistributedTransaction,
    k: int,
    log: Map<Seq<char>, TxState>,
)
    ensures
        between(c, tx, k, k, |i: int| c.shards[i], log).shards == c.shards,
{
    assert(between(c, tx, k, k, |i: int| c.shards[i], log).shards =~= c.shards);
}

/// The end of an abort is recorded.
proof fn lemma_recording_aborted(
    run: RunModel,
    here: ClusterModel,
    c: ClusterModel,
    log: Map<Seq<char>, TxState>,
    tx: DistributedTransaction,
    raw: spec_fn(Map<Seq<char>, Seq<char>>, Seq<char>) -> Map<Seq<char>, Seq<char>>,
    fuel: nat,
)
    requires
        run.phase == Phase::RecordingAborted,
        here.shards == c.shards,
        here.log == log,
    ensures
        driven(run, Step::Record(TxState::Aborted), here, tx, raw, fuel) == (
            ClusterModel { log: log.insert(tx.tx_id@, TxState::Aborted), ..c },
            Next::Ended(TxOutcome::RolledBack),
        ),
{
}

/// The participants prepare, from the place `at` on; the one at `k` is the first
/// that has seen the transaction.
proof fn lemma_vetoed(
    run: RunModel,
    at: int,
    k: int,
    c: ClusterModel,
    log: Map<Seq<char>, TxState>,
    tx: DistributedTransaction,
    raw: spec_fn(Map<Seq<char>, Seq<char>>, Seq<char>) -> Map<Seq<char>, Seq<char>>,
    fuel: nat,
)
    requires
        fits(tx, c),
        run.participants == shards(tx.shard_ops@),
        run.shard_count == c.shards.len(),
        run.phase == (Phase::Preparing { at: at as usize }),
        run.participants.len() <= usize::MAX,
        0 <= at <= k < run.participants.len(),
        forall|j: int|
            0 <= j < k ==> !c.shards[#[trigger] run.participants[j] as int].has_seen(tx.tx_id@),
        c.shards[run.participants[k] as int].has_seen(tx.tx_id@),
        fuel >= 2 * k - at + 3,
    ensures
        driven(
            run,
            Step::Prepare(run.participants[at]),
            between(c, tx, 0, at, |i: int| c.shards[i], log),
            tx,
            raw,
            fuel,
        ) == (
            ClusterModel {
                log: log.insert(tx.tx_id@, TxState::Aborting).insert(tx.tx_id@, TxState::Aborted),
                ..c
            },
            Next::Ended(TxOutcome::RolledBack),
        ),
    decreases k - at,
{
    let id = tx.tx_id@;
    let done = |i: int| c.shards[i];
    let here = between(c, tx, 0, at, done, log);
    let p = run.participants[at] as int;
    let step = Step::Prepare(run.participants[at]);
    lemma_among(tx, at);
    assert(here.shards[p] == c.shards[p]);
    let (c2, answer) = performed(here, step, tx, raw);
    let (after, next) = run.next(answer);
    if at < k {
        assert(!c.shards[run.participants[at] as int].has_seen(id));
        assert(c2.shards =~= between(c, tx, 0, at + 1, done, log).shards);
        assert(run.participants[at + 1] < c.shards.len());
        lemma_vetoed(after, at + 1, k, c, log, tx, raw, (fuel - 1) as nat);
    } else {
        let record = Step::Record(TxState::Aborting);
        assert(answer == Answer::Abort && next == Next::Do(record));
        let aborting = log.insert(id, TxState::Aborting);
        let (c3, _) = performed(c2, record, tx, raw);
        assert(c3 == between(c, tx, 0, k, done, aborting));
        let (r3, n3) = after.next(Answer::Done);
        if k > 0 {
            lemma_rolling_back(r3, 0, k, c, aborting, tx, raw, (fuel - 2) as nat);
        } else {
            lemma_all_rolled_back(c, tx, 0, aborting);
            lemma_recording_aborted(r3, c3, c, aborting, tx, raw, (fuel - 2) as nat);
        }
        assert(driven(after, record, c2, tx, raw, (fuel - 1) as nat) == driven(
            r3,
            n3->Do_0,
            c3,
            tx,
            raw,
            (fuel - 2) as nat,
        ));
    }
}

/// The decision is recorded and carried out.
proof fn lemma_decided(
    run: RunModel,
    c: ClusterModel,
    log: Map<Seq<char>, TxState>,
    tx: DistributedTransaction,
    raw: spec_fn(Map<Seq<char>, Seq<char>>, Seq<char>) -> Map<Seq<char>, Seq<char>>,
    fuel: nat,
)
    requires
        fits(tx, c),
        run.participants == shards(tx.shard_ops@),
        run.phase == Phase::RecordingPrepared,
        run.participants.len() <= usize::MAX,
        fuel >= run.participants.len() + 3,
    ensures
        ({
            let n = run.participants.len() as int;
            let id = tx.tx_id@;
            let done = |i: int| c.shards[i].having(id, tx.operations(i as usize), raw);
            driven(
                run,
                Step::Record(TxState::Prepared),
                between(c, tx, 0, n, |i: int| c.shards[i], log),
                tx,
                raw,
                fuel,
            ) == (
                between(
                    c,
                    tx,
                    n,
                    n,
                    done,
                    log.insert(id, TxState::Prepared).insert(id, TxState::Committing).insert(
                        id,
                        TxState::Committed,
                    ),
                ),
                Next::Ended(TxOutcome::Committed),
            )
        }),
{
    let n = run.participants.len() as int;
    let id = tx.tx_id@;
    let done = |i: int| c.shards[i].having(id, tx.operations(i as usize), raw);
    let here = between(c, tx, 0, n, |i: int| c.shards[i], log);
    let s1 = Step::Record(TxState::Prepared);
    let s2 = Step::Record(TxState::Committing);
    let (c1, a1) = performed(here, s1, tx, raw);
    let (r1, n1) = run.next(a1);
    assert(n1 == Next::Do(s2));
    let (c2, a2) = performed(c1, s2, tx, raw);
    let (r2, n2) = r1.next(a2);
    let decided = log.insert(id, TxState::Prepared).insert(id, TxState::Committing);
    assert(c2.shards =~= between(c, tx, 0, n, done, decided).shards);
    assert(c2 == between(c, tx, 0, n, done, decided));
    assert(driven(run, s1, here, tx, raw, fuel) == driven(r1, s2, c1, tx, raw, (fuel - 1) as nat));
    assert(driven(r1, s2, c1, tx, raw, (fuel - 1) as nat) == driven(
        r2,
        n2->Do_0,
        c2,
        tx,
        raw,
        (fuel - 2) as nat,
    ));
    if n > 0 {
        lemma_committing(r2, 0, c, decided, tx, raw, (fuel - 2) as nat);
    } else {
        let s3 = Step::Record(TxState::Committed);
        let (c3, a3) = performed(c2, s3, tx, raw);
        assert(n2 == Next::Do(s3));
        assert(c3 == between(c, tx, 0, 0, done, decided.insert(id, TxState::Committed)));
        assert(r2.next(a3).1 == Next::Ended(TxOutcome::Committed));
    }
}

/// The participants prepare, from the place `at` on; none has seen the
/// transaction.
proof fn lemma_agreed(
    run: RunModel,
    at: int,
    c: ClusterModel,
    log: Map<Seq<char>, TxState>,
    tx: DistributedTransaction,
    raw: spec_fn(Map<Seq<char>, Seq<char>>, Seq<char>) -> Map<Seq<char>, Seq<char>>,
    fuel: nat,
)
    requires
        fits(tx, c),
        run.participants == shards(tx.shard_ops@),
        run.shard_count == c.shards.len(),
        run.phase == (Phase::Preparing { at: at as usize }),
        run.participants.len() <= usize::MAX,
        0 <= at < run.participants.len(),
        forall|j: int|
            0 <= j < run.participants.len() ==> !c.shards[#[trigger] run.participants[j] as int].has_seen(
                tx.tx_id@,
            ),
        fuel >= 2 * run.participants.len() - at + 4,
    ensures
        ({
            let n = run.participants.len() as int;
            let id = tx.tx_id@;
            let done = |i: int| c.shards[i].having(id, tx.operations(i as usize), raw);
            driven(
                run,
                Step::Prepare(run.participants[at]),
                between(c, tx, 0, at, |i: int| c.shards[i], log),
                tx,
                raw,
                fuel,
            ) == (
                between(
                    c,
                    tx,
                    n,
                    n,
                    done,
                    log.insert(id, TxState::Prepared).insert(id, TxState::Committing).insert(
                        id,
                        TxState::Committed,
                    ),
                ),
                Next::Ended(TxOutcome::Committed),
            )
        }),
    decreases run.participants.len() - at,
{
    let n = run.participants.len() as int;
    let id = tx.tx_id@;
    let same = |i: int| c.shards[i];
    let here = between(c, tx, 0, at, same, log);
    let p = run.participants[at] as int;
    let step = Step::Prepare(run.participants[at]);
    lemma_among(tx, at);
    assert(here.shards[p] == c.shards[p]);
    assert(!c.shards[run.participants[at] as int].has_seen(id));
    let (c2, answer) = performed(here, step, tx, raw);
    assert(c2.shards =~= between(c, tx, 0, at + 1, same, log).shards);
    assert(c2 == between(c, tx, 0, at + 1, same, log));
    let (after, next) = run.next(answer);
    if at + 1 < n {
        assert(run.participants[at + 1] < c.shards.len());
        lemma_agreed(after, at + 1, c, log, tx, raw, (fuel - 1) as nat);
    } else {
        assert(next == Next::Do(Step::Record(TxState::Prepared)));
        lemma_decided(after, c, log, tx, raw, (fuel - 1) as nat);
    }
}

/// A participant has seen the transaction.
pub open spec fn seen_by_some(tx: DistributedTransaction, c: ClusterModel) -> bool {
    exists|j: int|
        0 <= j < tx.shard_ops.len() && c.shards[#[trigger] shards(
            tx.shard_ops@,
        )[j] as int].has_seen(tx.tx_id@)
}

/// A transaction is rolled back exactly where a participant has seen it before,
/// and then every shard is as it was. Otherwise it is committed: the operations
/// of every participant are applied in their order, and no other shard changes.
/// Either way the log says so. The shards and the log must do what they are
/// asked.
pub proof fn transactions_are_atomic(
    tx: DistributedTransaction,
    c: ClusterModel,
    raw: spec_fn(Map<Seq<char>, Seq<char>>, Seq<char>) -> Map<Seq<char>, Seq<char>>,
    fuel: nat,
)
    requires
        fits(tx, c),
        fuel >= 2 * tx.shard_ops.len() + 5,
    ensures
        ({
            let id = tx.tx_id@;
            let (after, end) = driven(
                RunModel::started(shards(tx.shard_ops@), c.shards.len()),
                Step::Record(TxState::Preparing),
                c,
                tx,
                raw,
                fuel,
            );
            if seen_by_some(tx, c) {
                &&& end == Next::Ended(TxOutcome::RolledBack)
                &&& after.shards == c.shards
                &&& after.log == c.log.insert(id, TxState::Aborted)
            } else {
                &&& end == Next::Ended(TxOutcome::Committed)
                &&& committed_everywhere(after, c, tx, raw)
                &&& after.log == c.log.insert(id, TxState::Committed)
            }
        }),
{
    let id = tx.tx_id@;
    let participants = shards(tx.shard_ops@);
    let n = participants.len() as int;
    let run = RunModel::started(participants, c.shards.len());
    let first = Step::Record(TxState::Preparing);
    let (c1, a1) = performed(c, first, tx, raw);
    let (r1, n1) = run.next(a1);
    let log = c.log.insert(id, TxState::Preparing);
    let same = |i: int| c.shards[i];
    assert(c1.shards =~= between(c, tx, 0, 0, same, log).shards);
    assert(c1 == between(c, tx, 0, 0, same, log));
    if n > 0 {
        assert(participants[0] < c.shards.len());
    }
    if seen_by_some(tx, c) {
        let j = choose|j: int|
            0 <= j < tx.shard_ops.len() && c.shards[#[trigger] participants[j] as int].has_seen(id);
        let k = first_seen(tx, c, j);
        lemma_first_seen(tx, c, j);
        lemma_vetoed(r1, 0, k, c, log, tx, raw, (fuel - 1) as nat);
        assert(log.insert(id, TxState::Aborting).insert(id, TxState::Aborted) =~= c.log.insert(
            id,
            TxState::Aborted,
        ));
    } else {
        let done = |i: int| c.shards[i].having(id, tx.operations(i as usize), raw);
        let end = log.insert(id, TxState::Prepared).insert(id, TxState::Committing).insert(
            id,
            TxState::Committed,
        );
        assert forall|j: int| 0 <= j < n implies !c.shards[#[trigger] participants[j] as int].has_seen(
            id,
        ) by {}
        if n > 0 {
            lemma_agreed(r1, 0, c, log, tx, raw, (fuel - 1) as nat);
        } else {
            lemma_decided(r1, c, log, tx, raw, (fuel - 1) as nat);
        }
        assert(end =~= c.log.insert(id, TxState::Committed));
        lemma_everywhere(c, end, tx, raw);
    }
}

/// The place of the first participant up to `j` that has seen the transaction.
spec fn first_seen(tx: DistributedTransaction, c: ClusterModel, j: int) -> int
    decreases j,
{
    if j <= 0 {
        0
    } else {
        let k = first_seen(tx, c, j - 1);
        if c.shards[shards(tx.shard_ops@)[k] as int].has_seen(tx.tx_id@) {
            k
        } else {
            j
        }
    }
}

proof fn lemma_first_seen(tx: DistributedTransaction, c: ClusterModel, j: int)
    requires
        0 <= j < tx.shard_ops.len(),
    ensures
        0 <= first_seen(tx, c, j) <= j,
        forall|i: int|
            0 <= i < first_seen(tx, c, j) ==> !c.shards[#[trigger] shards(
                tx.shard_ops@,
            )[i] as int].has_seen(tx.tx_id@),
        c.shards[shards(tx.shard_ops@)[j] as int].has_seen(tx.tx_id@)
            ==> c.shards[shards(tx.shard_ops@)[first_seen(tx, c, j)] as int].has_seen(tx.tx_id@),
        !c.shards[shards(tx.shard_ops@)[first_seen(tx, c, j)] as int].has_seen(tx.tx_id@)
            ==> first_seen(tx, c, j) == j,
    decreases j,
{
    if j > 0 {
        lemma_first_seen(tx, c, j - 1);
    }
}

/// The cluster after the given steps of a transaction, whatever they are answered.
pub open spec fn carried_out(
    c: ClusterModel,
    steps: Seq<Step>,
    tx: DistributedTransaction,
    raw: spec_fn(Map<Seq<char>, Seq<char>>, Seq<char>) -> Map<Seq<char>, Seq<char>>,
) -> ClusterModel
    decreases steps.len(),
{
    if steps.len() == 0 {
        c
    } else {
        performed(carried_out(c, steps.drop_last(), tx, raw), steps.last(), tx, raw).0
    }
}

/// The run, the awaited step and the cluster after `m` steps of a transaction; no
/// step is awaited once it has ended.
pub open spec fn after_steps(
    tx: DistributedTransaction,
    c: ClusterModel,
    raw: spec_fn(Map<Seq<char>, Seq<char>>, Seq<char>) -> Map<Seq<char>, Seq<char>>,
    m: nat,
) -> (RunModel, Option<Step>, ClusterModel)
    decreases m,
{
    if m == 0 {
        (
            RunModel::started(shards(tx.shard_ops@), c.shards.len()),
            Some(Step::Record(TxState::Preparing)),
            c,
        )
    } else {
        let (run, awaited, here) = after_steps(tx, c, raw, (m - 1) as nat);
        match awaited {
            None => (run, None, here),
            Some(step) => {
                let (c2, answer) = performed(here, step, tx, raw);
                let (after, next) = run.next(answer);
                match next {
                    Next::Do(more) => (after, Some(more), c2),
                    _ => (after, None, c2),
                }
            },
        }
    }
}

/// The cluster after recovery from a crash: a transaction that stands in the log
/// unresolved is recovered; one that does not is left alone.
pub open spec fn recovered(
    c: ClusterModel,
    tx: DistributedTransaction,
    raw: spec_fn(Map<Seq<char>, Seq<char>>, Seq<char>) -> Map<Seq<char>, Seq<char>>,
) -> ClusterModel {
    let id = tx.tx_id@;
    if c.log.contains_key(id) && c.log[id].in_flight() {
        carried_out(
            c,
            recovery_script(c.log[id], shards(tx.shard_ops@), c.shards.len()),
            tx,
            raw,
        )
    } else {
        c
    }
}

/// Where a transaction that nobody has seen before stands, by the phase of its
/// run: which participants hold it and which have committed, what the log says,
/// and which step is awaited.
spec fn stands(
    run: RunModel,
    awaited: Option<Step>,
    here: ClusterModel,
    c: ClusterModel,
    tx: DistributedTransaction,
    raw: spec_fn(Map<Seq<char>, Seq<char>>, Seq<char>) -> Map<Seq<char>, Seq<char>>,
) -> bool {
    let id = tx.tx_id@;
    let list = shards(tx.shard_ops@);
    let n = list.len() as int;
    let same = |i: int| c.shards[i];
    let done = |i: int| c.shards[i].having(id, tx.operations(i as usize), raw);
    &&& run.participants == list
    &&& run.shard_count == c.shards.len()
    &&& match run.phase {
        Phase::RecordingPreparing => {
            &&& awaited == Some(Step::Record(TxState::Preparing))
            &&& here == c
        },
        Phase::Preparing { at } => {
            &&& at < n
            &&& awaited == Some(Step::Prepare(list[at as int]))
            &&& here == between(c, tx, 0, at as int, same, c.log.insert(id, TxState::Preparing))
        },
        Phase::RecordingPrepared => {
            &&& awaited == Some(Step::Record(TxState::Prepared))
            &&& here == between(c, tx, 0, n, same, c.log.insert(id, TxState::Preparing))
        },
        Phase::RecordingCommitting => {
            &&& awaited == Some(Step::Record(TxState::Committing))
            &&& here == between(c, tx, 0, n, same, c.log.insert(id, TxState::Prepared))
        },
        Phase::Committing { at } => {
            &&& at < n
            &&& awaited == Some(Step::Commit(list[at as int]))
            &&& here == between(c, tx, at as int, n, done, c.log.insert(id, TxState::Committing))
        },
        Phase::RecordingCommitted => {
            &&& awaited == Some(Step::Record(TxState::Committed))
            &&& here == between(c, tx, n, n, done, c.log.insert(id, TxState::Committing))
        },
        Phase::Over => {
            &&& awaited is None
            &&& here == between(c, tx, n, n, done, c.log.insert(id, TxState::Committed))
        },
        _ => false,
    }
}

proof fn lemma_stands(
    tx: DistributedTransaction,
    c: ClusterModel,
    raw: spec_fn(Map<Seq<char>, Seq<char>>, Seq<char>) -> Map<Seq<char>, Seq<char>>,
    m: nat,
)
    requires
        fits(tx, c),
        !seen_by_some(tx, c),
    ensures
        ({
            let (run, awaited, here) = after_steps(tx, c, raw, m);
            stands(run, awaited, here, c, tx, raw)
        }),
    decreases m,
{
    if m > 0 {
        lemma_stands(tx, c, raw, (m - 1) as nat);
        let (run, awaited, here) = after_steps(tx, c, raw, (m - 1) as nat);
        if let Some(step) = awaited {
            lemma_stands_on(run, step, here, c, tx, raw);
        }
    }
}

/// A step leads from where a transaction stands to where it stands next.
proof fn lemma_stands_on(
    run: RunModel,
    step: Step,
    here: ClusterModel,
    c: ClusterModel,
    tx: DistributedTransaction,
    raw: spec_fn(Map<Seq<char>, Seq<char>>, Seq<char>) -> Map<Seq<char>, Seq<char>>,
)
    requires
        fits(tx, c),
        !seen_by_some(tx, c),
        stands(run, Some(step), here, c, tx, raw),
    ensures
        ({
            let (c2, answer) = performed(here, step, tx, raw);
            let (after, next) = run.next(answer);
            let awaited = match next {
                Next::Do(more) => Some(more),
                _ => None,
            };
            stands(after, awaited, c2, c, tx, raw)
        }),
{
    let id = tx.tx_id@;
    let list = shards(tx.shard_ops@);
    let n = list.len() as int;
    let same = |i: int| c.shards[i];
    let done = |i: int| c.shards[i].having(id, tx.operations(i as usize), raw);
    let (c2, answer) = performed(here, step, tx, raw);
    let preparing = c.log.insert(id, TxState::Preparing);
    let prepared = c.log.insert(id, TxState::Prepared);
    let committing = c.log.insert(id, TxState::Committing);
    let committed = c.log.insert(id, TxState::Committed);
    if n > 0 {
        assert(list[0] < c.shards.len());
    }
    match run.phase {
        Phase::RecordingPreparing => {
            assert(c2.shards =~= between(c, tx, 0, 0, same, preparing).shards);
        },
        Phase::Preparing { at } => {
            let p = list[at as int] as int;
            lemma_among(tx, at as int);
            assert(here.shards[p] == c.shards[p]);
            assert(!c.shards[list[at as int] as int].has_seen(id));
            assert(c2.shards =~= between(c, tx, 0, at + 1, same, preparing).shards);
            if at + 1 < n {
                assert(list[at + 1] < c.shards.len());
            }
        },
        Phase::RecordingPrepared => {
            assert(preparing.insert(id, TxState::Prepared) =~= prepared);
        },
        Phase::RecordingCommitting => {
            assert(prepared.insert(id, TxState::Committing) =~= committing);
            assert(c2.shards =~= between(c, tx, 0, n, done, committing).shards);
        },
        Phase::Committing { at } => {
            let p = list[at as int] as int;
            let ops = tx.operations(p as usize);
            lemma_among(tx, at as int);
            assert(among(tx, n, p)) by {
                assert(list[at as int] == p);
            }
            assert(here.shards[p] == c.shards[p].holding(id, ops));
            assert(c.shards[p].holding(id, ops).having(id, ops, raw) == c.shards[p].having(
                id,
                ops,
                raw,
            )) by {
                assert(c.shards[p].prepared.insert(id, ops).remove(id)
                    =~= c.shards[p].prepared.remove(id));
            }
            assert(c2.shards =~= between(c, tx, at + 1, n, done, committing).shards);
        },
        Phase::RecordingCommitted => {
            assert(committing.insert(id, TxState::Committed) =~= committed);
        },
        _ => {},
    }
}

proof fn lemma_all_exist(list: Seq<usize>, count: nat)
    requires
        forall|j: int| 0 <= j < list.len() ==> (#[trigger] list[j]) < count,
    ensures
        existing(list, count) == list,
    decreases list.len(),
{
    if list.len() > 0 {
        let rest = list.drop_last();
        assert forall|j: int| 0 <= j < rest.len() implies (#[trigger] rest[j]) < count by {
            assert(rest[j] == list[j]);
        }
        lemma_all_exist(rest, count);
        assert(list[list.len() - 1] < count);
        assert(rest.push(list.last()) =~= list);
    } else {
        assert(existing(list, count) =~= list);
    }
}

/// Recovery carries a commit forward: participants that had committed stay as
/// they are, and the others commit.
proof fn lemma_carried_forward(
    c: ClusterModel,
    log: Map<Seq<char>, TxState>,
    tx: DistributedTransaction,
    raw: spec_fn(Map<Seq<char>, Seq<char>>, Seq<char>) -> Map<Seq<char>, Seq<char>>,
    m: int,
    j: int,
)
    requires
        fits(tx, c),
        0 <= m <= tx.shard_ops.len(),
        0 <= j <= tx.shard_ops.len(),
    ensures
        ({
            let n = tx.shard_ops.len() as int;
            let id = tx.tx_id@;
            let done = |i: int| c.shards[i].having(id, tx.operations(i as usize), raw);
            carried_out(
                between(c, tx, m, n, done, log),
                seq![Step::Record(TxState::Committing)] + shards(tx.shard_ops@).take(j).map_values(
                    |p: usize| Step::Commit(p),
                ),
                tx,
                raw,
            ) == between(
                c,
                tx,
                if m > j { m } else { j },
                n,
                done,
                log.insert(id, TxState::Committing),
            )
        }),
    decreases j,
{
    let n = tx.shard_ops.len() as int;
    let id = tx.tx_id@;
    let list = shards(tx.shard_ops@);
    let f = |p: usize| Step::Commit(p);
    let done = |i: int| c.shards[i].having(id, tx.operations(i as usize), raw);
    let start = between(c, tx, m, n, done, log);
    let now = log.insert(id, TxState::Committing);
    let first = seq![Step::Record(TxState::Committing)];
    let steps = first + list.take(j).map_values(f);
    if j == 0 {
        assert(steps =~= first);
        assert(first.drop_last() =~= Seq::<Step>::empty());
        assert(carried_out(start, first.drop_last(), tx, raw) == start);
        assert(carried_out(start, first, tx, raw) == between(c, tx, m, n, done, now));
    } else {
        lemma_carried_forward(c, log, tx, raw, m, j - 1);
        let earlier = first + list.take(j - 1).map_values(f);
        assert(steps.drop_last() =~= earlier);
        assert(steps.last() == Step::Commit(list[j - 1]));
        let k = if m > j - 1 { m } else { j - 1 };
        let here = between(c, tx, k, n, done, now);
        let p = list[j - 1] as int;
        let ops = tx.operations(p as usize);
        lemma_among(tx, j - 1);
        assert(p < c.shards.len());
        if j - 1 < m {
            assert(among(tx, m, p)) by {
                assert(list[j - 1] == p);
            }
            assert(here.shards[p] == done(p));
            assert(!here.shards[p].prepared.contains_key(id));
        } else {
            assert(among(tx, n, p)) by {
                assert(list[j - 1] == p);
            }
            assert(here.shards[p] == c.shards[p].holding(id, ops));
            assert(c.shards[p].holding(id, ops).having(id, ops, raw) == done(p)) by {
                assert(c.shards[p].prepared.insert(id, ops).remove(id)
                    =~= c.shards[p].prepared.remove(id));
            }
            assert(performed(here, Step::Commit(list[j - 1]), tx, raw).0.shards =~= between(
                c,
                tx,
                j,
                n,
                done,
                now,
            ).shards);
        }
    }
}

/// Recovery rolls back: participants that hold the transaction let go of it.
proof fn lemma_let_go(
    c: ClusterModel,
    log: Map<Seq<char>, TxState>,
    tx: DistributedTransaction,
    raw: spec_fn(Map<Seq<char>, Seq<char>>, Seq<char>) -> Map<Seq<char>, Seq<char>>,
    at: int,
    j: int,
)
    requires
        fits(tx, c),
        !seen_by_some(tx, c),
        0 <= at <= tx.shard_ops.len(),
        0 <= j <= tx.shard_ops.len(),
    ensures
        carried_out(
            between(c, tx, 0, at, |i: int| c.shards[i], log),
            seq![Step::Record(TxState::Aborting)] + shards(tx.shard_ops@).take(j).map_values(
                |p: usize| Step::Rollback(p),
            ),
            tx,
            raw,
        ) == between(c, tx, j, at, |i: int| c.shards[i], log.insert(tx.tx_id@, TxState::Aborting)),
    decreases j,
{
    let id = tx.tx_id@;
    let list = shards(tx.shard_ops@);
    let f = |p: usize| Step::Rollback(p);
    let same = |i: int| c.shards[i];
    let start = between(c, tx, 0, at, same, log);
    let now = log.insert(id, TxState::Aborting);
    let first = seq![Step::Record(TxState::Aborting)];
    let steps = first + list.take(j).map_values(f);
    if j == 0 {
        assert(steps =~= first);
        assert(first.drop_last() =~= Seq::<Step>::empty());
        assert(carried_out(start, first.drop_last(), tx, raw) == start);
        assert(carried_out(start, first, tx, raw) == between(c, tx, 0, at, same, now));
    } else {
        lemma_let_go(c, log, tx, raw, at, j - 1);
        let earlier = first + list.take(j - 1).map_values(f);
        assert(steps.drop_last() =~= earlier);
        assert(steps.last() == Step::Rollback(list[j - 1]));
        let here = between(c, tx, j - 1, at, same, now);
        let p = list[j - 1] as int;
        let ops = tx.operations(p as usize);
        lemma_among(tx, j - 1);
        assert(p < c.shards.len());
        assert(!c.shards[list[j - 1] as int].has_seen(id));
        assert(c.shards[p].holding(id, ops).rid_of(id) == c.shards[p]) by {
            assert(c.shards[p].prepared.insert(id, ops).remove(id) =~= c.shards[p].prepared);
        }
        assert(c.shards[p].rid_of(id) == c.shards[p]) by {
            assert(c.shards[p].prepared.remove(id) =~= c.shards[p].prepared);
        }
        assert(performed(here, Step::Rollback(list[j - 1]), tx, raw).0.shards =~= between(
            c,
            tx,
            j,
            at,
            same,
            now,
        ).shards);
    }
}

/// The transaction is committed on every participant, and no other shard has
/// changed.
pub open spec fn committed_everywhere(
    after: ClusterModel,
    c: ClusterModel,
    tx: DistributedTransaction,
    raw: spec_fn(Map<Seq<char>, Seq<char>>, Seq<char>) -> Map<Seq<char>, Seq<char>>,
) -> bool {
    &&& after.shards.len() == c.shards.len()
    &&& forall|i: int|
        0 <= i < c.shards.len() ==> #[trigger] after.shards[i] == if shards(
            tx.shard_ops@,
        ).contains(i as usize) {
            c.shards[i].having(tx.tx_id@, tx.operations(i as usize), raw)
        } else {
            c.shards[i]
        }
}

proof fn lemma_everywhere(
    c: ClusterModel,
    log: Map<Seq<char>, TxState>,
    tx: DistributedTransaction,
    raw: spec_fn(Map<Seq<char>, Seq<char>>, Seq<char>) -> Map<Seq<char>, Seq<char>>,
)
    requires
        fits(tx, c),
    ensures
        ({
            let n = tx.shard_ops.len() as int;
            let done = |i: int| c.shards[i].having(tx.tx_id@, tx.operations(i as usize), raw);
            committed_everywhere(between(c, tx, n, n, done, log), c, tx, raw)
        }),
{
    let list = shards(tx.shard_ops@);
    let n = tx.shard_ops.len() as int;
    let done = |i: int| c.shards[i].having(tx.tx_id@, tx.operations(i as usize), raw);
    let after = between(c, tx, n, n, done, log);
    assert forall|i: int| 0 <= i < c.shards.len() implies #[trigger] after.shards[i]
        == if list.contains(i as usize) {
        c.shards[i].having(tx.tx_id@, tx.operations(i as usize), raw)
    } else {
        c.shards[i]
    } by {
        if list.contains(i as usize) {
            let j = list.index_of(i as usize);
            assert(list[j] == i);
            assert(among(tx, n, i));
        }
        if among(tx, n, i) {
            let j = choose|j: int| 0 <= j < n && #[trigger] list[j] == i;
            assert(list[j] == i as usize);
        }
    }
}

/// Wherever the coordinator crashes, recovery brings a transaction that no
/// participant had seen before to an end: it is committed on every participant if
/// the decision to commit stood in the log, and otherwise every shard is as it was
/// before the transaction. Recovering again changes nothing.
pub proof fn crashes_are_recovered(
    tx: DistributedTransaction,
    c: ClusterModel,
    raw: spec_fn(Map<Seq<char>, Seq<char>>, Seq<char>) -> Map<Seq<char>, Seq<char>>,
    m: nat,
)
    requires
        fits(tx, c),
        !seen_by_some(tx, c),
        !c.log.contains_key(tx.tx_id@),
    ensures
        ({
            let id = tx.tx_id@;
            let crashed = after_steps(tx, c, raw, m).2;
            let after = recovered(crashed, tx, raw);
            let decided = crashed.log.contains_key(id) && (crashed.log[id] == TxState::Committing
                || crashed.log[id] == TxState::Committed);
            &&& decided ==> committed_everywhere(after, c, tx, raw) && after.log == c.log.insert(
                id,
                TxState::Committed,
            )
            &&& !decided ==> after.shards == c.shards
            &&& recovered(after, tx, raw) == after
        }),
{
    let id = tx.tx_id@;
    let list = shards(tx.shard_ops@);
    let n = list.len() as int;
    let same = |i: int| c.shards[i];
    let done = |i: int| c.shards[i].having(id, tx.operations(i as usize), raw);
    let (run, awaited, crashed) = after_steps(tx, c, raw, m);
    lemma_stands(tx, c, raw, m);
    lemma_all_exist(list, c.shards.len());
    assert(list.take(n) =~= list);
    assert(crashed.shards.len() == c.shards.len());
    match run.phase {
        Phase::RecordingPreparing => {},
        Phase::Preparing { at } => {
            lemma_recovered_by_rollback(c, crashed, TxState::Preparing, at as int, tx, raw);
        },
        Phase::RecordingPrepared => {
            lemma_recovered_by_rollback(c, crashed, TxState::Preparing, n, tx, raw);
        },
        Phase::RecordingCommitting => {
            lemma_recovered_by_rollback(c, crashed, TxState::Prepared, n, tx, raw);
        },
        Phase::Committing { at } => {
            lemma_recovered_by_commit(c, crashed, at as int, tx, raw);
        },
        Phase::RecordingCommitted => {
            lemma_recovered_by_commit(c, crashed, n, tx, raw);
        },
        _ => {
            lemma_everywhere(c, c.log.insert(id, TxState::Committed), tx, raw);
        },
    }
}

proof fn lemma_recovered_by_rollback(
    c: ClusterModel,
    crashed: ClusterModel,
    state: TxState,
    at: int,
    tx: DistributedTransaction,
    raw: spec_fn(Map<Seq<char>, Seq<char>>, Seq<char>) -> Map<Seq<char>, Seq<char>>,
)
    requires
        fits(tx, c),
        !seen_by_some(tx, c),
        0 <= at <= tx.shard_ops.len(),
        state == TxState::Preparing || state == TxState::Prepared,
        crashed == between(c, tx, 0, at, |i: int| c.shards[i], c.log.insert(tx.tx_id@, state)),
    ensures
        recovered(crashed, tx, raw).shards == c.shards,
        recovered(crashed, tx, raw).log == c.log.insert(tx.tx_id@, TxState::Aborted),
{
    let id = tx.tx_id@;
    let list = shards(tx.shard_ops@);
    let n = list.len() as int;
    let same = |i: int| c.shards[i];
    let log = c.log.insert(id, state);
    let steps = recovery_script(state, list, c.shards.len());
    let head = seq![Step::Record(TxState::Aborting)] + list.take(n).map_values(
        |p: usize| Step::Rollback(p),
    );
    lemma_all_exist(list, c.shards.len());
    assert(list.take(n) =~= list);
    lemma_let_go(c, log, tx, raw, at, n);
    assert(steps.drop_last() =~= head);
    assert(steps.last() == Step::Record(TxState::Aborted));
    let here = between(c, tx, n, at, same, log.insert(id, TxState::Aborting));
    assert(here.shards =~= c.shards) by {
        assert forall|i: int| 0 <= i < c.shards.len() implies #[trigger] here.shards[i]
            == c.shards[i] by {
            if among(tx, at, i) {
                let j = choose|j: int| 0 <= j < at && #[trigger] list[j] == i;
                assert(0 <= j < n && list[j] == i);
                assert(among(tx, n, i));
            }
        }
    }
    assert(log.insert(id, TxState::Aborting).insert(id, TxState::Aborted) =~= c.log.insert(
        id,
        TxState::Aborted,
    ));
}

proof fn lemma_recovered_by_commit(
    c: ClusterModel,
    crashed: ClusterModel,
    at: int,
    tx: DistributedTransaction,
    raw: spec_fn(Map<Seq<char>, Seq<char>>, Seq<char>) -> Map<Seq<char>, Seq<char>>,
)
    requires
        fits(tx, c),
        0 <= at <= tx.shard_ops.len(),
        ({
            let done = |i: int| c.shards[i].having(tx.tx_id@, tx.operations(i as usize), raw);
            crashed == between(
                c,
                tx,
                at,
                tx.shard_ops.len() as int,
                done,
                c.log.insert(tx.tx_id@, TxState::Committing),
            )
        }),
    ensures
        committed_everywhere(recovered(crashed, tx, raw), c, tx, raw),
        recovered(crashed, tx, raw).log == c.log.insert(tx.tx_id@, TxState::Committed),
{
    let id = tx.tx_id@;
    let list = shards(tx.shard_ops@);
    let n = list.len() as int;
    let done = |i: int| c.shards[i].having(id, tx.operations(i as usize), raw);
    let log = c.log.insert(id, TxState::Committing);
    let steps = recovery_script(TxState::Committing, list, c.shards.len());
    let head = seq![Step::Record(TxState::Committing)] + list.take(n).map_values(
        |p: usize| Step::Commit(p),
    );
    lemma_all_exist(list, c.shards.len());
    assert(list.take(n) =~= list);
    lemma_carried_forward(c, log, tx, raw, at, n);
    assert(steps.drop_last() =~= head);
    assert(steps.last() == Step::Record(TxState::Committed));
    let end = log.insert(id, TxState::Committing).insert(id, TxState::Committed);
    assert(end =~= c.log.insert(id, TxState::Committed));
    lemma_everywhere(c, end, tx, raw);
}

/// The data are those that the rows list.
pub open spec fn lists_data(rows: Seq<(String, String)>, data: Map<Seq<char>, Seq<char>>) -> bool {
    &&& forall|i: int|
        0 <= i < rows.len() ==> data.contains_key((#[trigger] rows[i]).0@) && data[rows[i].0@]
            == rows[i].1@
    &&& forall|k: Seq<char>| #[trigger] data.contains_key(k) ==> names_key(rows, rows.len(), k)
}

/// One of the first `n` rows has the key.
pub open spec fn names_key(rows: Seq<(String, String)>, n: nat, k: Seq<char>) -> bool {
    exists|i: int| 0 <= i < n && (#[trigger] rows[i]).0@ == k
}

/// The migrating rows are those of the given ones that the target owns.
proof fn lemma_migrating_rows(rows: Seq<(String, String)>, target: usize, total: nat)
    ensures
        ({
            let moves = migrating(rows, target, total);
            &&& forall|i: int|
                0 <= i < moves.len() ==> owner((#[trigger] moves[i]).0@, total) == target
                    && rows.contains(moves[i])
            &&& forall|j: int|
                0 <= j < rows.len() && owner((#[trigger] rows[j]).0@, total) == target
                    ==> moves.contains(rows[j])
        }),
    decreases rows.len(),
{
    if rows.len() > 0 {
        let rest = rows.drop_last();
        let earlier = migrating(rest, target, total);
        let moves = migrating(rows, target, total);
        lemma_migrating_rows(rest, target, total);
        assert forall|i: int| 0 <= i < moves.len() implies owner((#[trigger] moves[i]).0@, total)
            == target && rows.contains(moves[i]) by {
            if i < earlier.len() {
                assert(moves[i] == earlier[i]);
                let j = rest.index_of(earlier[i]);
                assert(rows[j] == earlier[i]);
            } else {
                assert(rows[rows.len() - 1] == rows.last());
            }
        }
        assert forall|j: int|
            0 <= j < rows.len() && owner((#[trigger] rows[j]).0@, total) == target implies moves.contains(
            rows[j],
        ) by {
            if j < rest.len() {
                assert(rest[j] == rows[j]);
                let i = earlier.index_of(rows[j]);
                assert(moves[i] == rows[j]);
            } else {
                assert(moves[moves.len() - 1] == rows[j]);
            }
        }
    }
}

/// The target after the operations for the first `n` rows.
proof fn lemma_put_rows(
    moves: Seq<(String, String)>,
    n: nat,
    source: usize,
    target: usize,
    from: Map<Seq<char>, Seq<char>>,
    data: Map<Seq<char>, Seq<char>>,
    raw: spec_fn(Map<Seq<char>, Seq<char>>, Seq<char>) -> Map<Seq<char>, Seq<char>>,
)
    requires
        n <= moves.len(),
        source != target,
        forall|i: int| 0 <= i < moves.len() ==> from[(#[trigger] moves[i]).0@] == moves[i].1@,
    ensures
        ({
            let after = applied(data, moving_ops(moves, n, source, target, target), raw);
            forall|k: Seq<char>|
                {
                    &&& #[trigger] after.contains_key(k) <==> names_key(moves, n, k)
                        || data.contains_key(k)
                    &&& names_key(moves, n, k) ==> after[k] == from[k]
                    &&& !names_key(moves, n, k) && data.contains_key(k) ==> after[k] == data[k]
                }
        }),
    decreases n,
{
    let ops = moving_ops(moves, n, source, target, target);
    let after = applied(data, ops, raw);
    if n > 0 {
        let m = (n - 1) as nat;
        let before_ops = moving_ops(moves, m, source, target, target);
        let before = applied(data, before_ops, raw);
        lemma_put_rows(moves, m, source, target, from, data, raw);
        assert(ops.drop_last() =~= before_ops);
        let key = moves[m as int].0@;
        assert(after == before.insert(key, moves[m as int].1@));
        assert forall|k: Seq<char>|
            {
                &&& #[trigger] after.contains_key(k) <==> names_key(moves, n, k)
                    || data.contains_key(k)
                &&& names_key(moves, n, k) ==> after[k] == from[k]
                &&& !names_key(moves, n, k) && data.contains_key(k) ==> after[k] == data[k]
            } by {
            assert(names_key(moves, n, k) <==> names_key(moves, m, k) || k == key) by {
                if names_key(moves, m, k) {
                    let i = choose|i: int| 0 <= i < m && (#[trigger] moves[i]).0@ == k;
                    assert(moves[i].0@ == k && i < n);
                }
                assert(moves[m as int].0@ == key);
            }
            assert(before.contains_key(k) <==> names_key(moves, m, k) || data.contains_key(k));
        }
    } else {
        assert(after == data);
    }
}

/// The source after the operations for the first `n` rows.
proof fn lemma_delete_rows(
    moves: Seq<(String, String)>,
    n: nat,
    source: usize,
    target: usize,
    data: Map<Seq<char>, Seq<char>>,
    raw: spec_fn(Map<Seq<char>, Seq<char>>, Seq<char>) -> Map<Seq<char>, Seq<char>>,
)
    requires
        n <= moves.len(),
        source != target,
    ensures
        ({
            let after = applied(data, moving_ops(moves, n, source, target, source), raw);
            forall|k: Seq<char>|
                {
                    &&& #[trigger] after.contains_key(k) <==> data.contains_key(k) && !names_key(
                        moves,
                        n,
                        k,
                    )
                    &&& after.contains_key(k) ==> after[k] == data[k]
                }
        }),
    decreases n,
{
    let ops = moving_ops(moves, n, source, target, source);
    let after = applied(data, ops, raw);
    if n > 0 {
        let m = (n - 1) as nat;
        let before_ops = moving_ops(moves, m, source, target, source);
        let before = applied(data, before_ops, raw);
        lemma_delete_rows(moves, m, source, target, data, raw);
        assert(ops.drop_last() =~= before_ops);
        let key = moves[m as int].0@;
        assert(after == before.remove(key));
        assert forall|k: Seq<char>|
            {
                &&& #[trigger] after.contains_key(k) <==> data.contains_key(k) && !names_key(
                    moves,
                    n,
                    k,
                )
                &&& after.contains_key(k) ==> after[k] == data[k]
            } by {
            assert(names_key(moves, n, k) <==> names_key(moves, m, k) || k == key) by {
                if names_key(moves, m, k) {
                    let i = choose|i: int| 0 <= i < m && (#[trigger] moves[i]).0@ == k;
                    assert(moves[i].0@ == k && i < n);
                }
                assert(moves[m as int].0@ == key);
            }
            assert(before.contains_key(k) <==> data.contains_key(k) && !names_key(moves, m, k));
        }
    } else {
        assert(after == data);
    }
}

/// Rebalancing preserves the data. Once the transaction is applied to the source and
/// to the target, every row of the source has the value that it had: on the target
/// and no longer on the source where the target owns its key under the new number of
/// shards, and on the source otherwise. The target keeps whatever else it held, the
/// source gains nothing, and no other shard takes part. The source and the target
/// must be two shards.
pub proof fn rebalancing_preserves_every_row(
    rebalancing: Rebalancing,
    rows: Seq<(String, String)>,
    shard_count: nat,
    source: usize,
    target: usize,
    new_total: nat,
    tx_id: Seq<char>,
    on_source: Map<Seq<char>, Seq<char>>,
    on_target: Map<Seq<char>, Seq<char>>,
    raw: spec_fn(Map<Seq<char>, Seq<char>>, Seq<char>) -> Map<Seq<char>, Seq<char>>,
)
    requires
        is_rebalance(
            Ok(Some(rebalancing)),
            rows,
            shard_count,
            source,
            target,
            new_total,
            tx_id,
        ),
        source != target,
        lists_data(rows, on_source),
    ensures
        ({
            let tx = rebalancing.transaction;
            let left = applied(on_source, tx.operations(source), raw);
            let reached = applied(on_target, tx.operations(target), raw);
            &&& forall|k: Seq<char>| #[trigger]
                on_source.contains_key(k) ==> if owner(k, new_total) == target {
                    &&& reached.contains_key(k)
                    &&& reached[k] == on_source[k]
                    &&& !left.contains_key(k)
                } else {
                    &&& left.contains_key(k)
                    &&& left[k] == on_source[k]
                }
            &&& forall|k: Seq<char>|
                !(on_source.contains_key(k) && owner(k, new_total) == target) ==> (
                #[trigger] reached.contains_key(k) <==> on_target.contains_key(k)) && (
                on_target.contains_key(k) ==> reached[k] == on_target[k])
            &&& forall|k: Seq<char>| #[trigger]
                left.contains_key(k) ==> on_source.contains_key(k)
            &&& forall|shard: usize|
                shard != source && shard != target ==> #[trigger] tx.operations(shard) == Seq::<
                    Operation,
                >::empty()
        }),
{
    let tx = rebalancing.transaction;
    let moves = migrating(rows, target, new_total);
    let n = moves.len();
    let left = applied(on_source, tx.operations(source), raw);
    let reached = applied(on_target, tx.operations(target), raw);
    lemma_moved_keys(rows, on_source, target, new_total);
    assert(tx.operations(source) == moving_ops(moves, n, source, target, source));
    assert(tx.operations(target) == moving_ops(moves, n, source, target, target));
    assert(forall|k: Seq<char>|
        {
            &&& #[trigger] reached.contains_key(k) <==> names_key(moves, n, k)
                || on_target.contains_key(k)
            &&& names_key(moves, n, k) ==> reached[k] == on_source[k]
            &&& !names_key(moves, n, k) && on_target.contains_key(k) ==> reached[k]
                == on_target[k]
        }) by {
        lemma_put_rows(moves, n, source, target, on_source, on_target, raw);
    }
    assert(forall|k: Seq<char>|
        {
            &&& #[trigger] left.contains_key(k) <==> on_source.contains_key(k) && !names_key(
                moves,
                n,
                k,
            )
            &&& left.contains_key(k) ==> left[k] == on_source[k]
        }) by {
        lemma_delete_rows(moves, n, source, target, on_source, raw);
    }
    assert forall|k: Seq<char>| #[trigger] on_source.contains_key(k) implies if owner(k, new_total)
        == target {
        reached.contains_key(k) && reached[k] == on_source[k] && !left.contains_key(k)
    } else {
        left.contains_key(k) && left[k] == on_source[k]
    } by {
        assert(names_key(moves, n, k) <==> owner(k, new_total) == target);
        assert(reached.contains_key(k) <==> names_key(moves, n, k) || on_target.contains_key(k));
        assert(left.contains_key(k) <==> !names_key(moves, n, k));
    }
    assert forall|shard: usize| shard != source && shard != target implies #[trigger] tx.operations(
        shard,
    ) == Seq::<Operation>::empty() by {
        lemma_no_part(moves, n, source, target, shard);
    }
}

/// The keys of the migrating rows are those that the target owns, and the rows hold
/// the values of the source.
proof fn lemma_moved_keys(
    rows: Seq<(String, String)>,
    data: Map<Seq<char>, Seq<char>>,
    target: usize,
    total: nat,
)
    requires
        lists_data(rows, data),
    ensures
        ({
            let moves = migrating(rows, target, total);
            &&& forall|i: int|
                0 <= i < moves.len() ==> data[(#[trigger] moves[i]).0@] == moves[i].1@
            &&& forall|k: Seq<char>| #[trigger]
                names_key(moves, moves.len(), k) <==> data.contains_key(k) && owner(k, total)
                    == target
        }),
{
    let moves = migrating(rows, target, total);
    lemma_migrating_rows(rows, target, total);
    assert forall|i: int| 0 <= i < moves.len() implies data[(#[trigger] moves[i]).0@] == moves[i].1@
        && data.contains_key(moves[i].0@) by {
        let j = rows.index_of(moves[i]);
        assert(rows[j] == moves[i]);
    }
    assert forall|k: Seq<char>| #[trigger] names_key(moves, moves.len(), k) <==> data.contains_key(k)
        && owner(k, total) == target by {
        if names_key(moves, moves.len(), k) {
            let i = choose|i: int| 0 <= i < moves.len() && (#[trigger] moves[i]).0@ == k;
            assert(data.contains_key(moves[i].0@));
        }
        if data.contains_key(k) && owner(k, total) == target {
            let j = choose|j: int| 0 <= j < rows.len() && (#[trigger] rows[j]).0@ == k;
            let i = moves.index_of(rows[j]);
            assert(moves[i].0@ == k);
        }
    }
}

proof fn lemma_no_part(
    moves: Seq<(String, String)>,
    n: nat,
    source: usize,
    target: usize,
    shard: usize,
)
    requires
        shard != source,
        shard != target,
    ensures
        moving_ops(moves, n, source, target, shard) == Seq::<Operation>::empty(),
    decreases n,
{
    if n > 0 {
        lemma_no_part(moves, (n - 1) as nat, source, target, shard);
    }
}

/// There is something to move exactly where the target owns a row of the source under
/// the new number of shards, and then as many rows are reported as moved as the
/// target owns. A shard that does not exist is refused.
pub proof fn rebalancing_moves_what_the_target_owns(
    r: Result<Option<Rebalancing>, DistributedTxError>,
    rows: Seq<(String, String)>,
    shard_count: nat,
    source: usize,
    target: usize,
    new_total: nat,
    tx_id: Seq<char>,
)
    requires
        is_rebalance(r, rows, shard_count, source, target, new_total, tx_id),
    ensures
        r is Err <==> source >= shard_count || target >= shard_count,
        r is Ok ==> (r->Ok_0 is Some <==> exists|i: int|
            0 <= i < rows.len() && owner((#[trigger] rows[i]).0@, new_total) == target),
        r matches Ok(Some(rebalancing)) ==> rebalancing.moved == rows.filter(
            |row: (String, String)| owner(row.0@, new_total) == target,
        ).len(),
{
    let moves = migrating(rows, target, new_total);
    lemma_migrating_rows(rows, target, new_total);
    lemma_migrating_filters(rows, target, new_total);
    if moves.len() > 0 {
        let j = rows.index_of(moves[0]);
        assert(owner(rows[j].0@, new_total) == target);
    }
}

proof fn lemma_migrating_filters(rows: Seq<(String, String)>, target: usize, total: nat)
    ensures
        migrating(rows, target, total) == rows.filter(
            |row: (String, String)| owner(row.0@, total) == target,
        ),
    decreases rows.len(),
{
    reveal(Seq::filter);
    if rows.len() > 0 {
        lemma_migrating_filters(rows.drop_last(), target, total);
    }
}

/// Once a rebalancing that no shard has seen before is carried through, each row of
/// the source is read with its value: from the target where that owns the key under
/// the new number of shards, and from the source otherwise.
pub proof fn rebalanced_rows_are_read_where_they_belong(
    rebalancing: Rebalancing,
    rows: Seq<(String, String)>,
    source: usize,
    target: usize,
    new_total: nat,
    tx_id: Seq<char>,
    c: ClusterModel,
    raw: spec_fn(Map<Seq<char>, Seq<char>>, Seq<char>) -> Map<Seq<char>, Seq<char>>,
    fuel: nat,
    k: Seq<char>,
)
    requires
        is_rebalance(
            Ok(Some(rebalancing)),
            rows,
            c.shards.len(),
            source,
            target,
            new_total,
            tx_id,
        ),
        source != target,
        lists_data(rows, c.shards[source as int].data),
        fits(rebalancing.transaction, c),
        !seen_by_some(rebalancing.transaction, c),
        fuel >= 2 * rebalancing.transaction.shard_ops.len() + 5,
        c.shards[source as int].data.contains_key(k),
    ensures
        ({
            let tx = rebalancing.transaction;
            let after = driven(
                RunModel::started(shards(tx.shard_ops@), c.shards.len()),
                Step::Record(TxState::Preparing),
                c,
                tx,
                raw,
                fuel,
            ).0;
            let home = if owner(k, new_total) == target {
                target
            } else {
                source
            };
            &&& after.shards[home as int].data.contains_key(k)
            &&& after.shards[home as int].data[k] == c.shards[source as int].data[k]
            &&& home == target ==> !after.shards[source as int].data.contains_key(k)
        }),
{
    let tx = rebalancing.transaction;
    transactions_are_atomic(tx, c, raw, fuel);
    rebalancing_preserves_every_row(
        rebalancing,
        rows,
        c.shards.len(),
        source,
        target,
        new_total,
        tx_id,
        c.shards[source as int].data,
        c.shards[target as int].data,
        raw,
    );
    let after = driven(
        RunModel::started(shards(tx.shard_ops@), c.shards.len()),
        Step::Record(TxState::Preparing),
        c,
        tx,
        raw,
        fuel,
    ).0;
    assert(after.shards[source as int].data == applied(
        c.shards[source as int].data,
        tx.operations(source),
        raw,
    ));
    assert(after.shards[target as int].data == applied(
        c.shards[target as int].data,
        tx.operations(target),
        raw,
    ));
}

/// A shard votes for a transaction exactly once: it agrees to one that it has not seen, and
/// refuses it as soon as it has prepared or committed it.
pub proof fn shards_agree_once(shard: ShardModel, id: Seq<char>, operations: Seq<Operation>)
    ensures
        vote_of(shard.has_seen(id)) == Vote::Commit <==> !shard.prepared.contains_key(id)
            && !shard.committed.contains(id),
        vote_of(shard.holding(id, operations).has_seen(id)) == Vote::Abort,
        forall|raw: spec_fn(Map<Seq<char>, Seq<char>>, Seq<char>) -> Map<Seq<char>, Seq<char>>|
            vote_of((#[trigger] shard.having(id, operations, raw)).has_seen(id)) == Vote::Abort,
        !shard.committed.contains(id) ==> vote_of(
            shard.holding(id, operations).rid_of(id).has_seen(id),
        ) == Vote::Commit,
{
}

} // verus!
