//! Distributed transactions across shards by two-phase commit.
//!
//! A coordinator asks every participating shard to prepare. If all vote to
//! commit, the decision is recorded in a durable log and every shard commits;
//! if one votes to abort, those that had prepared are rolled back. The log is
//! written before the requests that a state allows, so that after a crash
//! every transaction can be resolved: once `Committing` is recorded the
//! transaction is carried forward, before that it is rolled back.
//!
//! The coordinator is a machine that says which step comes next and takes what
//! came of it. The steps themselves, on the log and on the shards, are done by
//! its caller.

use vstd::prelude::*;
use vstd::string::StringSliceAdditionalSpecFns;

use crate::ids::{is_new_id, new_id};
use crate::text::{
    decimal, decimal_text, is_digit, join, join_texts, lemma_decimal_digits, name_option, parse_usize,
    push_decimal, read_number, reading_inverts_decimal, same, split, split_text,
    splitting_inverts_joining, texts, NumberError,
};

verus! {

/// Lifecycle of a distributed transaction as recorded in the coordinator's
/// log.
#[derive(Debug, Clone, Copy, PartialEq, Eq, Structural)]
pub enum TxState {
    Preparing,
    Prepared,
    Committing,
    Committed,
    Aborting,
    Aborted,
}

impl TxState {
    pub open spec fn name(self) -> Seq<char> {
        match self {
            TxState::Preparing => "preparing"@,
            TxState::Prepared => "prepared"@,
            TxState::Committing => "committing"@,
            TxState::Committed => "committed"@,
            TxState::Aborting => "aborting"@,
            TxState::Aborted => "aborted"@,
        }
    }

    /// The transaction is not resolved yet.
    pub open spec fn in_flight(self) -> bool {
        self != TxState::Committed && self != TxState::Aborted
    }

    /// The name of the state.
    pub fn as_str(self) -> (r: &'static str)
        ensures
            r@ == self.name(),
    {
        match self {
            TxState::Preparing => "preparing",
            TxState::Prepared => "prepared",
            TxState::Committing => "committing",
            TxState::Committed => "committed",
            TxState::Aborting => "aborting",
            TxState::Aborted => "aborted",
        }
    }

    /// The state of a name.
    pub fn from_str(s: &str) -> (r: Option<Self>)
        ensures
            match r {
                Some(state) => s@ == state.name(),
                None => forall|state: TxState| s@ != #[trigger] state.name(),
            },
    {
        if same(s, "preparing") {
            Some(TxState::Preparing)
        } else if same(s, "prepared") {
            Some(TxState::Prepared)
        } else if same(s, "committing") {
            Some(TxState::Committing)
        } else if same(s, "committed") {
            Some(TxState::Committed)
        } else if same(s, "aborting") {
            Some(TxState::Aborting)
        } else if same(s, "aborted") {
            Some(TxState::Aborted)
        } else {
            None
        }
    }

    /// Whether a transaction in this state still needs recovery work.
    pub fn is_in_flight(self) -> (r: bool)
        ensures
            r == self.in_flight(),
    {
        !(self == TxState::Committed || self == TxState::Aborted)
    }
}

/// Different states have different names.
pub proof fn state_names_are_distinct(a: TxState, b: TxState)
    requires
        a.name() == b.name(),
    ensures
        a == b,
{
    reveal_strlit("preparing");
    reveal_strlit("prepared");
    reveal_strlit("committing");
    reveal_strlit("committed");
    reveal_strlit("aborting");
    reveal_strlit("aborted");
    assert("preparing"@[6] == 'i' && "prepared"@.len() == 8 && "preparing"@.len() == 9);
    assert("committing"@.len() == 10 && "committed"@.len() == 9 && "aborting"@.len() == 8
        && "aborted"@.len() == 7);
    assert("preparing"@[0] == 'p' && "committed"@[0] == 'c');
    assert("prepared"@[0] == 'p' && "aborting"@[0] == 'a');
}

/// A transaction as recorded in the log.
#[derive(Debug)]
pub struct TxLogRecord {
    pub tx_id: String,
    pub state: TxState,
    /// Shard indices that participate in this transaction.
    pub participants: Vec<usize>,
}

#[derive(Debug)]
pub enum DistributedTxError {
    /// A shard could not be reached.
    ShardUnavailable(usize, String),
    /// The transaction ID is unknown.
    TransactionNotFound(String),
    /// Serialization of operations failed.
    Serialization(String),
    /// An operation could not be applied.
    ApplyFailed(String),
    /// The log could not be read or written.
    LogUnavailable(String),
}

impl DistributedTxError {
    pub open spec fn message_spec(&self) -> Seq<char> {
        match self {
            DistributedTxError::ShardUnavailable(id, msg) => "shard "@ + decimal(*id as nat)
                + " unavailable: "@ + msg@,
            DistributedTxError::TransactionNotFound(tx_id) => "transaction not found: "@ + tx_id@,
            DistributedTxError::Serialization(msg) => "serialization error: "@ + msg@,
            DistributedTxError::ApplyFailed(msg) => "apply failed: "@ + msg@,
            DistributedTxError::LogUnavailable(msg) => "coordinator log unavailable: "@ + msg@,
        }
    }

    /// The error in words.
    pub fn message(&self) -> (r: String)
        ensures
            r@ == self.message_spec(),
    {
        let mut out = String::new();
        match self {
            DistributedTxError::ShardUnavailable(id, msg) => {
                out.append("shard ");
                push_decimal(&mut out, *id as u128);
                out.append(" unavailable: ");
                out.append(msg.as_str());
            },
            DistributedTxError::TransactionNotFound(tx_id) => {
                out.append("transaction not found: ");
                out.append(tx_id.as_str());
            },
            DistributedTxError::Serialization(msg) => {
                out.append("serialization error: ");
                out.append(msg.as_str());
            },
            DistributedTxError::ApplyFailed(msg) => {
                out.append("apply failed: ");
                out.append(msg.as_str());
            },
            DistributedTxError::LogUnavailable(msg) => {
                out.append("coordinator log unavailable: ");
                out.append(msg.as_str());
            },
        }
        assert(out@ =~= self.message_spec());
        out
    }
}

/// The decimal digits of each number.
pub open spec fn numerals(numbers: Seq<usize>) -> Seq<Seq<char>> {
    numbers.map_values(|n: usize| decimal(n as nat))
}

/// The form in which the participants of a transaction stand in the log.
pub open spec fn participants_text(participants: Seq<usize>) -> Seq<char> {
    join(numerals(participants), seq![','])
}

/// The form in which the participants of a transaction stand in the log.
pub fn encode_participants(participants: &Vec<usize>) -> (r: String)
    ensures
        r@ == participants_text(participants@),
{
    let mut list: Vec<String> = Vec::new();
    let mut i: usize = 0;
    while i < participants.len()
        invariant
            i <= participants.len(),
            texts(list@) == numerals(participants@).take(i as int),
        decreases participants.len() - i,
    {
        let ghost earlier = texts(list@);
        list.push(decimal_text(participants[i] as u128));
        assert(texts(list@) =~= earlier.push(numerals(participants@)[i as int]));
        i = i + 1;
        assert(texts(list@) =~= numerals(participants@).take(i as int));
    }
    assert(texts(list@) =~= numerals(participants@));
    proof {
        reveal_strlit(",");
        assert(","@ =~= seq![',']);
    }
    join_texts(&list, ",")
}

/// The numbers that the first `n` texts denote, or why one of them denotes none.
pub open spec fn read_numbers(pieces: Seq<Seq<char>>, n: nat) -> Result<Seq<usize>, NumberError>
    decreases n,
{
    if n == 0 {
        Ok(Seq::empty())
    } else {
        match read_numbers(pieces, (n - 1) as nat) {
            Err(e) => Err(e),
            Ok(list) => match read_number(pieces[n - 1], usize::MAX as nat) {
                Err(e) => Err(e),
                Ok(v) => Ok(list.push(v as usize)),
            },
        }
    }
}

proof fn lemma_read_fails(pieces: Seq<Seq<char>>, n: nat, m: nat)
    requires
        n <= m,
        read_numbers(pieces, n) is Err,
    ensures
        read_numbers(pieces, m) == read_numbers(pieces, n),
    decreases m,
{
    if n < m {
        lemma_read_fails(pieces, n, (m - 1) as nat);
    }
}

/// The participants that a log entry lists, or why it cannot be read.
pub open spec fn listed_participants(text: Seq<char>) -> Result<Seq<usize>, NumberError> {
    if text.len() == 0 {
        Ok(Seq::empty())
    } else {
        read_numbers(split(text, ','), split(text, ',').len())
    }
}

/// A row of the log as a record.
pub fn decode_record(tx_id: &str, state: &str, participants: &str) -> (r: Result<
    TxLogRecord,
    DistributedTxError,
>)
    ensures
        match r {
            Ok(record) => {
                &&& record.tx_id@ == tx_id@
                &&& record.state.name() == state@
                &&& listed_participants(participants@) == Ok::<Seq<usize>, NumberError>(
                    record.participants@,
                )
            },
            Err(e) => {
                ||| (forall|s: TxState| state@ != #[trigger] s.name())
                    && e is Serialization && e->Serialization_0@ == "bad tx state: "@ + state@
                ||| (exists|s: TxState| state@ == #[trigger] s.name()) && listed_participants(
                    participants@,
                ) is Err && e is Serialization && e->Serialization_0@ == listed_participants(
                    participants@,
                )->Err_0.message_spec()
            },
        },
{
    let parsed = match TxState::from_str(state) {
        Some(s) => s,
        None => {
            let mut text = "bad tx state: ".to_owned();
            text.append(state);
            return Err(DistributedTxError::Serialization(text));
        },
    };
    let mut list: Vec<usize> = Vec::new();
    if !participants.is_empty() {
        let pieces = split_text(participants, ',');
        let ghost all = split(participants@, ',');
        let mut i: usize = 0;
        assert(list@ =~= Seq::empty());
        while i < pieces.len()
            invariant
                i <= pieces.len(),
                all == split(participants@, ','),
                texts(pieces@) == all,
                participants@.len() > 0,
                parsed.name() == state@,
                read_numbers(all, i as nat) == Ok::<Seq<usize>, NumberError>(list@),
            decreases pieces.len() - i,
        {
            assert(texts(pieces@)[i as int] == pieces[i as int]@);
            match parse_usize(pieces[i].as_str()) {
                Ok(n) => {
                    list.push(n);
                },
                Err(e) => {
                    proof {
                        lemma_read_fails(all, (i + 1) as nat, all.len());
                    }
                    return Err(DistributedTxError::Serialization(e.message()));
                },
            }
            i = i + 1;
        }
        assert(texts(pieces@).len() == pieces.len());
    }
    Ok(TxLogRecord { tx_id: tx_id.to_owned(), state: parsed, participants: list })
}

/// Numbers are read back from the digits that denote them.
proof fn lemma_reads_numerals(numbers: Seq<usize>, n: nat)
    requires
        n <= numbers.len(),
    ensures
        read_numbers(numerals(numbers), n) == Ok::<Seq<usize>, NumberError>(numbers.take(n as int)),
    decreases n,
{
    if n == 0 {
        assert(numbers.take(0) =~= Seq::empty());
    } else {
        lemma_reads_numerals(numbers, (n - 1) as nat);
        reading_inverts_decimal(numbers[n - 1] as nat, usize::MAX as nat);
        assert(numerals(numbers)[n - 1] == decimal(numbers[n - 1] as nat));
        assert(numbers.take(n as int) =~= numbers.take(n - 1).push(numbers[n - 1]));
    }
}

/// The participants of a transaction are read back from the log as they were
/// written.
pub proof fn decoding_inverts_encoding(participants: Seq<usize>)
    ensures
        listed_participants(participants_text(participants)) == Ok::<Seq<usize>, NumberError>(
            participants,
        ),
{
    let pieces = numerals(participants);
    if participants.len() == 0 {
        assert(participants =~= Seq::empty());
    } else {
        assert forall|i: int| 0 <= i < pieces.len() implies !(#[trigger] pieces[i]).contains(',') by {
            lemma_decimal_digits(participants[i] as nat);
            if pieces[i].contains(',') {
                let j = pieces[i].index_of(',');
                assert(is_digit(decimal(participants[i] as nat)[j]));
            }
        }
        splitting_inverts_joining(pieces, ',');
        lemma_reads_numerals(participants, participants.len());
        assert(participants.take(participants.len() as int) =~= participants);
        lemma_decimal_digits(participants.last() as nat);
        assert(participants_text(participants).len() > 0) by {
            assert(pieces.last() == decimal(participants.last() as nat));
        }
    }
}

/// A routing key that determines which shard owns a piece of data.
#[derive(Debug, PartialEq, Eq, Hash)]
pub struct ShardKey(pub String);

/// The hash of a key's bytes: multiply and add, modulo 2 to the 64th.
pub open spec fn key_hash(bytes: Seq<u8>) -> u64
    decreases bytes.len(),
{
    if bytes.len() == 0 {
        14_695_981_039_346_656_037u64
    } else {
        key_hash(bytes.drop_last()).wrapping_mul(1_099_511_628_211u64).wrapping_add(
            bytes.last() as u64,
        )
    }
}

/// The shard that owns a key among `total`: the key's hash modulo `total`;
/// the first one where there are none.
pub open spec fn owner(key: Seq<char>, total: nat) -> nat {
    if total == 0 {
        0
    } else {
        (key_hash(vstd::utf8::encode_utf8(key)) as int % total as int) as nat
    }
}

/// A key has one owner, which is one of the shards.
pub proof fn owner_is_a_shard(key: Seq<char>, total: nat)
    requires
        total > 0,
    ensures
        owner(key, total) < total,
{
}

impl ShardKey {
    pub fn new(s: String) -> (r: Self)
        ensures
            r.0 == s,
    {
        ShardKey(s)
    }

    /// The index of the shard that owns this key.
    pub fn shard_index(&self, total_shards: usize) -> (r: usize)
        ensures
            r == owner(self.0@, total_shards as nat),
            total_shards > 0 ==> r < total_shards,
    {
        if total_shards == 0 {
            return 0;
        }
        let bytes = self.0.as_str().as_bytes();
        let mut hash: u64 = 14_695_981_039_346_656_037;
        let mut i: usize = 0;
        assert(bytes@.take(0) =~= Seq::empty());
        while i < bytes.len()
            invariant
                i <= bytes.len(),
                hash == key_hash(bytes@.take(i as int)),
            decreases bytes.len() - i,
        {
            proof {
                assert(bytes@.take(i + 1).drop_last() =~= bytes@.take(i as int));
                assert(bytes@.take(i + 1).last() == bytes[i as int]);
            }
            hash = hash.wrapping_mul(1_099_511_628_211).wrapping_add(bytes[i] as u64);
            i = i + 1;
        }
        assert(bytes@.take(i as int) =~= bytes@);
        (hash % total_shards as u64) as usize
    }
}

/// A unit of work in a distributed transaction.
#[derive(Debug, PartialEq, Eq)]
pub enum Operation {
    /// Insert or replace a key-value pair.
    Put { shard_key: String, value: String },
    /// Delete a key-value pair.
    Delete { shard_key: String },
    /// Execute arbitrary SQL.
    RawSql { sql: String },
}

impl Clone for Operation {
    fn clone(&self) -> (r: Self)
        ensures
            r == *self,
    {
        match self {
            Operation::Put { shard_key, value } => Operation::Put {
                shard_key: shard_key.clone(),
                value: value.clone(),
            },
            Operation::Delete { shard_key } => Operation::Delete { shard_key: shard_key.clone() },
            Operation::RawSql { sql } => Operation::RawSql { sql: sql.clone() },
        }
    }
}

impl Operation {
    /// The key by which an operation is routed, if it has one; raw SQL has none.
    pub open spec fn routing_key(&self) -> Option<Seq<char>> {
        match self {
            Operation::Put { shard_key, value: _ } => Some(shard_key@),
            Operation::Delete { shard_key } => Some(shard_key@),
            Operation::RawSql { sql: _ } => None,
        }
    }

    /// The shard that the operation is routed to among `total`: the owner of its key,
    /// and the first shard for raw SQL.
    pub open spec fn shard_among(&self, total: nat) -> nat {
        match self.routing_key() {
            Some(key) => owner(key, total),
            None => 0,
        }
    }

    /// The statement that applies the operation to a shard.
    pub open spec fn statement_spec(&self) -> Seq<char> {
        match self {
            Operation::Put { .. } => "INSERT OR REPLACE INTO kv_data (shard_key, value) VALUES (?1, ?2)"@,
            Operation::Delete { .. } => "DELETE FROM kv_data WHERE shard_key = ?1"@,
            Operation::RawSql { sql } => sql@,
        }
    }

    /// The values of the statement's parameters.
    pub open spec fn parameters_spec(&self) -> Seq<Seq<char>> {
        match self {
            Operation::Put { shard_key, value } => seq![shard_key@, value@],
            Operation::Delete { shard_key } => seq![shard_key@],
            Operation::RawSql { .. } => Seq::empty(),
        }
    }

    /// The statement that applies the operation to a shard, and the values of
    /// its parameters.
    pub fn statement(&self) -> (r: (String, Vec<String>))
        ensures
            r.0@ == self.statement_spec(),
            texts(r.1@) == self.parameters_spec(),
    {
        let mut parameters: Vec<String> = Vec::new();
        let sql = match self {
            Operation::Put { shard_key, value } => {
                parameters.push(shard_key.clone());
                parameters.push(value.clone());
                "INSERT OR REPLACE INTO kv_data (shard_key, value) VALUES (?1, ?2)".to_owned()
            },
            Operation::Delete { shard_key } => {
                parameters.push(shard_key.clone());
                "DELETE FROM kv_data WHERE shard_key = ?1".to_owned()
            },
            Operation::RawSql { sql } => sql.clone(),
        };
        assert(texts(parameters@) =~= self.parameters_spec());
        (sql, parameters)
    }
}

/// What a shard answers to a request to prepare.
#[derive(Debug, Clone, Copy, PartialEq, Eq, Structural)]
pub enum Vote {
    /// Shard is ready to commit.
    Commit,
    /// Shard vetoes the transaction.
    Abort,
}

/// The vote of a shard on a transaction that it has seen or not.
pub open spec fn vote_of(already_seen: bool) -> Vote {
    if already_seen {
        Vote::Abort
    } else {
        Vote::Commit
    }
}

/// The vote of a shard: it refuses a transaction that it has prepared or
/// committed already.
pub fn vote(already_seen: bool) -> (r: Vote)
    ensures
        r == vote_of(already_seen),
{
    if already_seen {
        Vote::Abort
    } else {
        Vote::Commit
    }
}

/// The operations for one shard.
#[derive(Debug)]
pub struct ShardOps {
    pub shard: usize,
    pub operations: Vec<Operation>,
}

/// A transaction before it is submitted to the coordinator: the operations of
/// each shard, in the order of the shards.
#[derive(Debug)]
pub struct DistributedTransaction {
    /// Globally unique transaction ID.
    pub tx_id: String,
    pub shard_ops: Vec<ShardOps>,
}

/// The shards of a list of operations.
pub open spec fn shards(ops: Seq<ShardOps>) -> Seq<usize> {
    ops.map_values(|s: ShardOps| s.shard)
}

/// Each number is greater than the one before.
pub open spec fn ascending(list: Seq<usize>) -> bool {
    forall|i: int, j: int| 0 <= i < j < list.len() ==> (#[trigger] list[i]) < (#[trigger] list[j])
}

impl DistributedTransaction {
    /// Each shard is listed once, and the shards are in order.
    pub open spec fn wf(&self) -> bool {
        ascending(shards(self.shard_ops@))
    }

    /// The operations of a shard.
    pub open spec fn operations(&self, shard: usize) -> Seq<Operation> {
        if shards(self.shard_ops@).contains(shard) {
            self.shard_ops[shards(self.shard_ops@).index_of(shard)].operations@
        } else {
            Seq::empty()
        }
    }

    pub fn new(tx_id: String) -> (r: Self)
        ensures
            r.wf(),
            r.tx_id == tx_id,
            r.shard_ops.len() == 0,
            forall|shard: usize| #[trigger] r.operations(shard) == Seq::<Operation>::empty(),
    {
        DistributedTransaction { tx_id, shard_ops: Vec::new() }
    }

    /// Adds an operation for a shard.
    pub fn add_op(&mut self, shard_index: usize, op: Operation)
        requires
            old(self).wf(),
        ensures
            final(self).wf(),
            final(self).tx_id == old(self).tx_id,
            final(self).operations(shard_index) == old(self).operations(shard_index).push(op),
            forall|shard: usize|
                shard != shard_index ==> #[trigger] final(self).operations(shard) == old(
                    self,
                ).operations(shard),
            forall|shard: usize| #[trigger]
                shards(final(self).shard_ops@).contains(shard) <==> shards(
                    old(self).shard_ops@,
                ).contains(shard) || shard == shard_index,
    {
        let ghost before = *self;
        let ghost old_shards = shards(self.shard_ops@);
        let mut i: usize = 0;
        while i < self.shard_ops.len() && self.shard_ops[i].shard < shard_index
            invariant
                *self == before,
                i <= self.shard_ops.len(),
                forall|j: int| 0 <= j < i ==> (#[trigger] self.shard_ops[j]).shard < shard_index,
            decreases self.shard_ops.len() - i,
        {
            i = i + 1;
        }
        if i < self.shard_ops.len() && self.shard_ops[i].shard == shard_index {
            let ghost was = self.shard_ops[i as int].operations@;
            self.shard_ops[i].operations.push(op);
            proof {
                let now = shards(self.shard_ops@);
                assert(now =~= old_shards);
                assert(old_shards[i as int] == shard_index);
                lemma_only_place(old_shards, i as int);
                assert forall|shard: usize| shard != shard_index implies #[trigger] self.operations(
                    shard,
                ) == before.operations(shard) by {
                    if now.contains(shard) {
                        let k = now.index_of(shard);
                        assert(now[k] == shard);
                        assert(k != i);
                    }
                }
            }
        } else {
            let mut operations: Vec<Operation> = Vec::new();
            operations.push(op);
            self.shard_ops.insert(i, ShardOps { shard: shard_index, operations });
            proof {
                let now = shards(self.shard_ops@);
                assert(now =~= old_shards.insert(i as int, shard_index));
                assert forall|a: int, b: int| 0 <= a < b < now.len() implies (#[trigger] now[a]) < (
                #[trigger] now[b]) by {
                    let a2 = if a < i { a } else { a - 1 };
                    let b2 = if b < i { b } else { b - 1 };
                    if a != i {
                        assert(now[a] == old_shards[a2]);
                    }
                    if b != i {
                        assert(now[b] == old_shards[b2]);
                    }
                    if a == i {
                        assert(old_shards[b2] >= old_shards[i as int]);
                        assert(self.shard_ops[b] == before.shard_ops[b2]);
                        assert(before.shard_ops[i as int].shard == old_shards[i as int]);
                    }
                    if b == i {
                        assert(before.shard_ops[a].shard == old_shards[a]);
                    }
                }
                assert(now[i as int] == shard_index);
                lemma_only_place(now, i as int);
                assert(!old_shards.contains(shard_index)) by {
                    if old_shards.contains(shard_index) {
                        let k = old_shards.index_of(shard_index);
                        assert(old_shards[k] == shard_index);
                        assert(before.shard_ops[k].shard == shard_index);
                        if k >= i {
                            if k > i {
                                assert(old_shards[i as int] < old_shards[k]);
                            }
                            assert(before.shard_ops[i as int].shard == old_shards[i as int]);
                        }
                    }
                }
                assert(self.shard_ops[i as int].operations@ =~= Seq::empty().push(op));
                assert forall|shard: usize| shard != shard_index implies #[trigger] self.operations(
                    shard,
                ) == before.operations(shard) && now.contains(shard) == old_shards.contains(shard) by {
                    if now.contains(shard) {
                        let k = now.index_of(shard);
                        assert(now[k] == shard);
                        let k2 = if k < i { k } else { k - 1 };
                        assert(old_shards[k2] == shard);
                        lemma_only_place(old_shards, k2);
                        assert(self.shard_ops[k] == before.shard_ops[k2]);
                    }
                    if old_shards.contains(shard) {
                        let k2 = old_shards.index_of(shard);
                        let k = if k2 < i { k2 } else { k2 + 1 };
                        assert(now[k] == shard);
                    }
                }
                assert forall|shard: usize| #[trigger] now.contains(shard) <==> old_shards.contains(shard)
                    || shard == shard_index by {
                    if shard != shard_index {
                        assert(self.operations(shard) == before.operations(shard));
                    }
                }
            }
        }
    }

    /// The shards that participate, in order.
    pub fn participants(&self) -> (r: Vec<usize>)
        requires
            self.wf(),
        ensures
            r@ == shards(self.shard_ops@),
            ascending(r@),
    {
        let mut out: Vec<usize> = Vec::new();
        let mut i: usize = 0;
        while i < self.shard_ops.len()
            invariant
                i <= self.shard_ops.len(),
                out@ == shards(self.shard_ops@).take(i as int),
            decreases self.shard_ops.len() - i,
        {
            out.push(self.shard_ops[i].shard);
            i = i + 1;
            assert(out@ =~= shards(self.shard_ops@).take(i as int));
        }
        assert(out@ =~= shards(self.shard_ops@));
        out
    }
}

/// In an ascending list every number has one place.
proof fn lemma_only_place(list: Seq<usize>, i: int)
    requires
        ascending(list),
        0 <= i < list.len(),
    ensures
        list.contains(list[i]),
        list.index_of(list[i]) == i,
{
    let k = list.index_of(list[i]);
    assert(list[k] == list[i]);
    if k < i {
        assert(list[k] < list[i]);
    }
    if i < k {
        assert(list[i] < list[k]);
    }
}

/// Outcome of a distributed transaction.
#[derive(Debug, Clone, Copy, PartialEq, Eq, Structural)]
pub enum TxOutcome {
    Committed,
    RolledBack,
}

/// A step of the protocol, to be done by the caller.
#[derive(Debug, Clone, Copy, PartialEq, Eq, Structural)]
pub enum Step {
    /// Record the state of the transaction in the log.
    Record(TxState),
    /// Ask a shard to prepare.
    Prepare(usize),
    /// Ask a shard to commit.
    Commit(usize),
    /// Ask a shard to roll back.
    Rollback(usize),
}

/// What came of a step.
#[derive(Debug)]
pub enum StepResult {
    Done,
    /// The shard voted (on a request to prepare).
    Voted(Vote),
    Failed(DistributedTxError),
}

/// What comes next.
#[derive(Debug)]
pub enum Progress {
    Do(Step),
    Finished(Result<TxOutcome, DistributedTxError>),
}

/// Where a transaction stands: the step whose result is awaited.
#[derive(Debug, Clone, Copy, PartialEq, Eq, Structural)]
pub enum Phase {
    RecordingPreparing,
    /// The participant at this place is asked to prepare.
    Preparing { at: usize },
    /// So many participants had prepared when one voted to abort.
    RecordingAborting { prepared: usize },
    RollingBack { at: usize, prepared: usize },
    RecordingAborted,
    RecordingPrepared,
    RecordingCommitting,
    /// The participant at this place is asked to commit.
    Committing { at: usize },
    RecordingCommitted,
    Over,
}

/// What came of a step, but for the error.
#[derive(PartialEq, Eq, Structural)]
pub enum Answer {
    Done,
    Commit,
    Abort,
    Failed,
}

impl StepResult {
    pub open spec fn view(&self) -> Answer {
        match self {
            StepResult::Done => Answer::Done,
            StepResult::Voted(Vote::Commit) => Answer::Commit,
            StepResult::Voted(Vote::Abort) => Answer::Abort,
            StepResult::Failed(_) => Answer::Failed,
        }
    }
}

/// What comes next, but for errors that are passed on.
pub enum Next {
    Do(Step),
    Ended(TxOutcome),
    /// The transaction names a shard that does not exist.
    NoSuchShard(usize),
    /// The error of the last step ends the transaction.
    PassOn,
}

/// A transaction in progress.
pub struct RunModel {
    pub participants: Seq<usize>,
    pub shard_count: nat,
    pub phase: Phase,
    /// The state that stands in the log.
    pub recorded: Option<TxState>,
    /// How many participants voted to commit.
    pub commit_votes: nat,
}

impl RunModel {
    /// A transaction at its start: nothing is recorded yet.
    pub open spec fn started(participants: Seq<usize>, shard_count: nat) -> RunModel {
        RunModel {
            participants,
            shard_count,
            phase: Phase::RecordingPreparing,
            recorded: None,
            commit_votes: 0,
        }
    }

    pub open spec fn in_phase(self, phase: Phase) -> RunModel {
        RunModel { phase, ..self }
    }

    pub open spec fn recording(self, state: TxState) -> RunModel {
        RunModel { recorded: Some(state), ..self }
    }

    /// Asks the participant at a place to prepare, or records that all have.
    pub open spec fn prepare_from(self, at: nat) -> (RunModel, Next) {
        if at >= self.participants.len() {
            (self.in_phase(Phase::RecordingPrepared), Next::Do(Step::Record(TxState::Prepared)))
        } else if self.participants[at as int] >= self.shard_count {
            (self.in_phase(Phase::Over), Next::NoSuchShard(self.participants[at as int]))
        } else {
            (
                self.in_phase(Phase::Preparing { at: at as usize }),
                Next::Do(Step::Prepare(self.participants[at as int])),
            )
        }
    }

    /// Asks the participant at a place to roll back, or records that all have.
    pub open spec fn roll_back_from(self, at: nat, prepared: nat) -> (RunModel, Next) {
        if at >= prepared {
            (self.in_phase(Phase::RecordingAborted), Next::Do(Step::Record(TxState::Aborted)))
        } else {
            (
                self.in_phase(Phase::RollingBack { at: at as usize, prepared: prepared as usize }),
                Next::Do(Step::Rollback(self.participants[at as int])),
            )
        }
    }

    /// Asks the participant at a place to commit, or records that all have.
    pub open spec fn commit_from(self, at: nat) -> (RunModel, Next) {
        if at >= self.participants.len() {
            (self.in_phase(Phase::RecordingCommitted), Next::Do(Step::Record(TxState::Committed)))
        } else {
            (
                self.in_phase(Phase::Committing { at: at as usize }),
                Next::Do(Step::Commit(self.participants[at as int])),
            )
        }
    }

    /// Whether the answer is one that the awaited step can give.
    pub open spec fn awaits(self, answer: Answer) -> bool {
        match self.phase {
            Phase::Preparing { .. } => answer != Answer::Done,
            Phase::Over => false,
            _ => answer == Answer::Done || answer == Answer::Failed,
        }
    }

    /// What follows from the answer to the awaited step. Failures end the
    /// transaction, but for those of rollbacks, which are ignored.
    pub open spec fn next(self, answer: Answer) -> (RunModel, Next) {
        match self.phase {
            Phase::RollingBack { at, prepared } => self.roll_back_from(
                (at + 1) as nat,
                prepared as nat,
            ),
            _ => if answer == Answer::Failed {
                (self.in_phase(Phase::Over), Next::PassOn)
            } else {
                match self.phase {
                    Phase::RecordingPreparing => self.recording(TxState::Preparing).prepare_from(0),
                    Phase::Preparing { at } => if answer == Answer::Commit {
                        RunModel {
                            commit_votes: self.commit_votes + 1,
                            ..self
                        }.prepare_from((at + 1) as nat)
                    } else {
                        (
                            self.in_phase(Phase::RecordingAborting { prepared: at }),
                            Next::Do(Step::Record(TxState::Aborting)),
                        )
                    },
                    Phase::RecordingAborting { prepared } => self.recording(
                        TxState::Aborting,
                    ).roll_back_from(0, prepared as nat),
                    Phase::RecordingAborted => (
                        self.recording(TxState::Aborted).in_phase(Phase::Over),
                        Next::Ended(TxOutcome::RolledBack),
                    ),
                    Phase::RecordingPrepared => (
                        self.recording(TxState::Prepared).in_phase(Phase::RecordingCommitting),
                        Next::Do(Step::Record(TxState::Committing)),
                    ),
                    Phase::RecordingCommitting => self.recording(TxState::Committing).commit_from(
                        0,
                    ),
                    Phase::Committing { at } => self.commit_from((at + 1) as nat),
                    _ => (
                        self.recording(TxState::Committed).in_phase(Phase::Over),
                        Next::Ended(TxOutcome::Committed),
                    ),
                }
            },
        }
    }

    /// The place that a phase speaks of is one of the participants; the votes
    /// are counted; and from the decision on everything rests on it: all
    /// participants voted to commit, and the commit is recorded before a shard
    /// is asked for it.
    pub open spec fn consistent(self) -> bool {
        let n = self.participants.len();
        &&& n <= usize::MAX
        &&& match self.phase {
            Phase::RecordingPreparing => self.commit_votes == 0 && self.recorded is None,
            Phase::Preparing { at } => at < n && self.commit_votes == at && self.recorded == Some(
                TxState::Preparing,
            ),
            Phase::RecordingAborting { prepared } => prepared < n && self.commit_votes == prepared
                && self.recorded == Some(TxState::Preparing),
            Phase::RollingBack { at, prepared } => at < prepared < n && self.commit_votes
                == prepared && self.recorded == Some(TxState::Aborting),
            Phase::RecordingAborted => self.commit_votes < n && self.recorded == Some(
                TxState::Aborting,
            ),
            Phase::RecordingPrepared => self.commit_votes == n && self.recorded == Some(
                TxState::Preparing,
            ),
            Phase::RecordingCommitting => self.commit_votes == n && self.recorded == Some(
                TxState::Prepared,
            ),
            Phase::Committing { at } => at < n && self.commit_votes == n && self.recorded == Some(
                TxState::Committing,
            ),
            Phase::RecordingCommitted => self.commit_votes == n && self.recorded == Some(
                TxState::Committing,
            ),
            Phase::Over => true,
        }
    }
}

/// A transaction in progress.
#[derive(Debug)]
pub struct CoordinatorRun {
    participants: Vec<usize>,
    shard_count: usize,
    phase: Phase,
    recorded: Option<TxState>,
    commit_votes: usize,
}

/// The progress is the one that the model prescribes; `result` is what came of
/// the last step.
pub open spec fn follows(progress: Progress, next: Next, result: StepResult) -> bool {
    match next {
        Next::Do(step) => progress == Progress::Do(step),
        Next::Ended(outcome) => progress is Finished && progress->Finished_0 == Ok::<
            TxOutcome,
            DistributedTxError,
        >(outcome),
        Next::NoSuchShard(shard) => {
            &&& progress is Finished
            &&& progress->Finished_0 is Err
            &&& progress->Finished_0->Err_0 is ShardUnavailable
            &&& progress->Finished_0->Err_0->ShardUnavailable_0 == shard
            &&& progress->Finished_0->Err_0->ShardUnavailable_1@ == "index out of range"@
        },
        Next::PassOn => {
            &&& result is Failed
            &&& progress is Finished
            &&& progress->Finished_0 == Err::<TxOutcome, DistributedTxError>(result->Failed_0)
        },
    }
}

impl CoordinatorRun {
    pub closed spec fn view(&self) -> RunModel {
        RunModel {
            participants: self.participants@,
            shard_count: self.shard_count as nat,
            phase: self.phase,
            recorded: self.recorded,
            commit_votes: self.commit_votes as nat,
        }
    }

    /// Starts a transaction among `shard_count` shards. The first step is to
    /// record that it is being prepared.
    pub fn begin(tx: &DistributedTransaction, shard_count: usize) -> (r: (CoordinatorRun, Step))
        requires
            tx.wf(),
        ensures
            r.0@ == RunModel::started(shards(tx.shard_ops@), shard_count as nat),
            r.0@.consistent(),
            r.1 == Step::Record(TxState::Preparing),
    {
        let participants = tx.participants();
        assert(participants@.len() == participants.len());
        (
            CoordinatorRun {
                participants,
                shard_count,
                phase: Phase::RecordingPreparing,
                recorded: None,
                commit_votes: 0,
            },
            Step::Record(TxState::Preparing),
        )
    }

    fn prepare_from(&mut self, at: usize) -> (r: Progress)
        requires
            at <= old(self)@.participants.len(),
        ensures
            ({
                let (after, next) = old(self)@.prepare_from(at as nat);
                final(self)@ == after && follows(r, next, StepResult::Done)
            }),
    {
        if at >= self.participants.len() {
            self.phase = Phase::RecordingPrepared;
            Progress::Do(Step::Record(TxState::Prepared))
        } else {
            let shard = self.participants[at];
            if shard >= self.shard_count {
                self.phase = Phase::Over;
                Progress::Finished(
                    Err(
                        DistributedTxError::ShardUnavailable(
                            shard,
                            "index out of range".to_owned(),
                        ),
                    ),
                )
            } else {
                self.phase = Phase::Preparing { at };
                Progress::Do(Step::Prepare(shard))
            }
        }
    }

    fn roll_back_from(&mut self, at: usize, prepared: usize) -> (r: Progress)
        requires
            at <= prepared < old(self)@.participants.len(),
        ensures
            ({
                let (after, next) = old(self)@.roll_back_from(at as nat, prepared as nat);
                final(self)@ == after && follows(r, next, StepResult::Done)
            }),
    {
        if at >= prepared {
            self.phase = Phase::RecordingAborted;
            Progress::Do(Step::Record(TxState::Aborted))
        } else {
            self.phase = Phase::RollingBack { at, prepared };
            Progress::Do(Step::Rollback(self.participants[at]))
        }
    }

    fn commit_from(&mut self, at: usize) -> (r: Progress)
        requires
            at <= old(self)@.participants.len(),
        ensures
            ({
                let (after, next) = old(self)@.commit_from(at as nat);
                final(self)@ == after && follows(r, next, StepResult::Done)
            }),
    {
        if at >= self.participants.len() {
            self.phase = Phase::RecordingCommitted;
            Progress::Do(Step::Record(TxState::Committed))
        } else {
            self.phase = Phase::Committing { at };
            Progress::Do(Step::Commit(self.participants[at]))
        }
    }

    /// Takes what came of the last step, and says what comes next.
    pub fn advance(&mut self, result: StepResult) -> (r: Progress)
        requires
            old(self)@.consistent(),
            old(self)@.awaits(result@),
        ensures
            final(self)@.consistent(),
            final(self)@ == old(self)@.next(result@).0,
            follows(r, old(self)@.next(result@).1, result),
    {
        if let Phase::RollingBack { at, prepared } = self.phase {
            return self.roll_back_from(at + 1, prepared);
        }
        let vote = match result {
            StepResult::Failed(e) => {
                self.phase = Phase::Over;
                return Progress::Finished(Err(e));
            },
            StepResult::Voted(vote) => vote,
            StepResult::Done => Vote::Commit,
        };
        match self.phase {
            Phase::RecordingPreparing => {
                self.recorded = Some(TxState::Preparing);
                self.prepare_from(0)
            },
            Phase::Preparing { at } => match vote {
                Vote::Commit => {
                    self.commit_votes = self.commit_votes + 1;
                    self.prepare_from(at + 1)
                },
                Vote::Abort => {
                    self.phase = Phase::RecordingAborting { prepared: at };
                    Progress::Do(Step::Record(TxState::Aborting))
                },
            },
            Phase::RecordingAborting { prepared } => {
                self.recorded = Some(TxState::Aborting);
                self.roll_back_from(0, prepared)
            },
            Phase::RecordingAborted => {
                self.recorded = Some(TxState::Aborted);
                self.phase = Phase::Over;
                Progress::Finished(Ok(TxOutcome::RolledBack))
            },
            Phase::RecordingPrepared => {
                self.recorded = Some(TxState::Prepared);
                self.phase = Phase::RecordingCommitting;
                Progress::Do(Step::Record(TxState::Committing))
            },
            Phase::RecordingCommitting => {
                self.recorded = Some(TxState::Committing);
                self.commit_from(0)
            },
            Phase::Committing { at } => self.commit_from(at + 1),
            _ => {
                self.recorded = Some(TxState::Committed);
                self.phase = Phase::Over;
                Progress::Finished(Ok(TxOutcome::Committed))
            },
        }
    }
}

/// What recovery does with a transaction.
#[derive(Debug, Clone, Copy, PartialEq, Eq, Structural)]
pub enum RecoveryAction {
    /// The commit was decided: it is asked of all participants again.
    ResumedCommit,
    /// No commit was decided: the participants are rolled back.
    Compensated,
}

/// Outcome of recovering a transaction.
#[derive(Debug, PartialEq, Eq)]
pub struct RecoveryOutcome {
    pub tx_id: String,
    pub action: RecoveryAction,
}

/// What recovery does with a transaction that stands in the log in a state:
/// the recorded decision to commit is carried forward, anything else is
/// rolled back.
pub open spec fn recovery_action(state: TxState) -> RecoveryAction {
    if state == TxState::Committing || state == TxState::Committed {
        RecoveryAction::ResumedCommit
    } else {
        RecoveryAction::Compensated
    }
}

/// The participants that exist, in their order.
pub open spec fn existing(participants: Seq<usize>, shard_count: nat) -> Seq<usize>
    decreases participants.len(),
{
    if participants.len() == 0 {
        Seq::empty()
    } else if participants.last() < shard_count {
        existing(participants.drop_last(), shard_count).push(participants.last())
    } else {
        existing(participants.drop_last(), shard_count)
    }
}

/// The steps that recover a transaction.
pub open spec fn recovery_script(
    state: TxState,
    participants: Seq<usize>,
    shard_count: nat,
) -> Seq<Step> {
    let there = existing(participants, shard_count);
    match recovery_action(state) {
        RecoveryAction::ResumedCommit => seq![Step::Record(TxState::Committing)] + there.map_values(
            |p: usize| Step::Commit(p),
        ) + seq![Step::Record(TxState::Committed)],
        RecoveryAction::Compensated => seq![Step::Record(TxState::Aborting)] + there.map_values(
            |p: usize| Step::Rollback(p),
        ) + seq![Step::Record(TxState::Aborted)],
    }
}

/// How a transaction is recovered.
#[derive(Debug)]
pub struct RecoveryPlan {
    pub outcome: RecoveryOutcome,
    pub steps: Vec<Step>,
}

impl RecoveryPlan {
    /// This is how the recorded transaction is recovered.
    pub open spec fn recovers(&self, record: TxLogRecord, shard_count: nat) -> bool {
        &&& self.outcome.tx_id@ == record.tx_id@
        &&& self.outcome.action == recovery_action(record.state)
        &&& self.steps@ == recovery_script(record.state, record.participants@, shard_count)
    }
}

/// Recovery goes on after the step.
pub open spec fn goes_on(step: Step, result: StepResult) -> bool {
    match step {
        Step::Rollback(_) => true,
        Step::Commit(_) => match result {
            StepResult::Failed(e) => e is TransactionNotFound,
            _ => true,
        },
        _ => !(result is Failed),
    }
}

/// Whether recovery goes on after a step: a log that cannot be written ends
/// it, and so does a commit that fails, unless the shard does not know the
/// transaction any more (it had committed before the crash); rollbacks may
/// fail.
pub fn recovery_continues(step: &Step, result: &StepResult) -> (r: bool)
    ensures
        r == goes_on(*step, *result),
{
    match step {
        Step::Rollback(_) => true,
        Step::Commit(_) => match result {
            StepResult::Failed(DistributedTxError::TransactionNotFound(_)) => true,
            StepResult::Failed(_) => false,
            _ => true,
        },
        _ => match result {
            StepResult::Failed(_) => false,
            _ => true,
        },
    }
}

/// The rows that are owned by `target` among `total` shards, in their order.
pub open spec fn migrating(rows: Seq<(String, String)>, target: usize, total: nat) -> Seq<
    (String, String),
>
    decreases rows.len(),
{
    if rows.len() == 0 {
        Seq::empty()
    } else if owner(rows.last().0@, total) == target {
        migrating(rows.drop_last(), target, total).push(rows.last())
    } else {
        migrating(rows.drop_last(), target, total)
    }
}

/// The operations on a shard that move the first `n` rows from `source` to
/// `target`: each is put on the one and deleted from the other.
pub open spec fn moving_ops(
    rows: Seq<(String, String)>,
    n: nat,
    source: usize,
    target: usize,
    shard: usize,
) -> Seq<Operation>
    decreases n,
{
    if n == 0 {
        Seq::empty()
    } else {
        let (key, value) = rows[n - 1];
        let before = moving_ops(rows, (n - 1) as nat, source, target, shard);
        let put = if shard == target {
            before.push(Operation::Put { shard_key: key, value })
        } else {
            before
        };
        if shard == source {
            put.push(Operation::Delete { shard_key: key })
        } else {
            put
        }
    }
}

/// A rebalancing: the transaction that moves the rows, and how many it moves.
#[derive(Debug)]
pub struct Rebalancing {
    pub transaction: DistributedTransaction,
    pub moved: u64,
}

/// What a rebalancing amounts to, given the rows of the source shard.
pub open spec fn is_rebalance(
    r: Result<Option<Rebalancing>, DistributedTxError>,
    rows: Seq<(String, String)>,
    shard_count: nat,
    source: usize,
    target: usize,
    new_total: nat,
    tx_id: Seq<char>,
) -> bool {
    let moves = migrating(rows, target, new_total);
    match r {
        Err(e) => {
            &&& e is ShardUnavailable
            &&& e->ShardUnavailable_0 == if source >= shard_count {
                source
            } else {
                target
            }
            &&& e->ShardUnavailable_1@ == "not found"@
            &&& source >= shard_count || target >= shard_count
        },
        Ok(None) => source < shard_count && target < shard_count && moves.len() == 0,
        Ok(Some(rebalancing)) => {
            let tx = rebalancing.transaction;
            &&& source < shard_count
            &&& target < shard_count
            &&& moves.len() > 0
            &&& rebalancing.moved == moves.len()
            &&& tx.wf()
            &&& tx.tx_id@ == tx_id
            &&& forall|shard: usize| #[trigger]
                tx.operations(shard) == moving_ops(moves, moves.len(), source, target, shard)
        },
    }
}

/// The coordinator of distributed transactions among a number of shards.
#[derive(Debug)]
pub struct DistributedTxCoordinator {
    shard_count: usize,
}

/// The number of shards that a setting gives: 1 where there is none, or it is
/// no number.
pub fn configured_shard_count(setting: Option<&str>) -> (r: usize)
    ensures
        r == match name_option(setting) {
            Some(text) => match read_number(text, usize::MAX as nat) {
                Ok(n) => n as usize,
                Err(_) => 1usize,
            },
            None => 1usize,
        },
{
    match setting {
        Some(text) => match parse_usize(text) {
            Ok(n) => n,
            Err(_) => 1,
        },
        None => 1,
    }
}

/// Where the data of a shard is kept: in a file whose name the setting begins,
/// or in memory where there is no setting.
pub fn shard_path(prefix: Option<&str>, shard: usize) -> (r: String)
    ensures
        r@ == match name_option(prefix) {
            Some(text) => text + "_"@ + decimal(shard as nat) + ".db"@,
            None => ":memory:"@,
        },
{
    match prefix {
        Some(text) => {
            let mut path = text.to_owned();
            path.append("_");
            push_decimal(&mut path, shard as u128);
            path.append(".db");
            path
        },
        None => ":memory:".to_owned(),
    }
}

impl DistributedTxCoordinator {
    pub closed spec fn count(&self) -> nat {
        self.shard_count as nat
    }

    pub fn new(shard_count: usize) -> (r: Self)
        ensures
            r.count() == shard_count,
    {
        DistributedTxCoordinator { shard_count }
    }

    /// Number of shards managed by this coordinator.
    pub fn shard_count(&self) -> (r: usize)
        ensures
            r == self.count(),
    {
        self.shard_count
    }

    /// The shard that an operation is routed to: the owner of its key, and the
    /// first shard for raw SQL.
    pub fn route_operation(&self, op: &Operation) -> (r: usize)
        ensures
            r == op.shard_among(self.count()),
            self.count() > 0 ==> r < self.count(),
    {
        let key = match op {
            Operation::Put { shard_key, value: _ } => shard_key.clone(),
            Operation::Delete { shard_key } => shard_key.clone(),
            Operation::RawSql { sql: _ } => {
                return 0;
            },
        };
        ShardKey::new(key).shard_index(self.shard_count)
    }

    /// Starts a transaction: its run, and the first step.
    pub fn execute(&self, tx: &DistributedTransaction) -> (r: (CoordinatorRun, Step))
        requires
            tx.wf(),
        ensures
            r.0@ == RunModel::started(shards(tx.shard_ops@), self.count()),
            r.0@.consistent(),
            r.1 == Step::Record(TxState::Preparing),
    {
        CoordinatorRun::begin(tx, self.shard_count)
    }

    /// How a recorded transaction is recovered.
    fn recover_one(&self, record: &TxLogRecord) -> (r: RecoveryPlan)
        ensures
            r.recovers(*record, self.count()),
    {
        let resume = record.state == TxState::Committing || record.state == TxState::Committed;
        let ghost n = self.count();
        let ghost all = record.participants@;
        let ghost f = |p: usize| if resume { Step::Commit(p) } else { Step::Rollback(p) };
        let first = if resume { TxState::Committing } else { TxState::Aborting };
        let last = if resume { TxState::Committed } else { TxState::Aborted };
        let mut steps: Vec<Step> = Vec::new();
        steps.push(Step::Record(first));
        let mut i: usize = 0;
        assert(all.take(0) =~= Seq::empty());
        assert(steps@ =~= seq![Step::Record(first)] + existing(all.take(0), n).map_values(f));
        while i < record.participants.len()
            invariant
                i <= record.participants.len(),
                n == self.count(),
                all == record.participants@,
                f == (|p: usize| if resume { Step::Commit(p) } else { Step::Rollback(p) }),
                steps@ == seq![Step::Record(first)] + existing(all.take(i as int), n).map_values(f),
            decreases record.participants.len() - i,
        {
            let shard = record.participants[i];
            let ghost earlier = existing(all.take(i as int), n);
            proof {
                assert(all.take(i + 1).drop_last() =~= all.take(i as int));
                assert(all.take(i + 1).last() == shard);
            }
            if shard < self.shard_count {
                steps.push(if resume { Step::Commit(shard) } else { Step::Rollback(shard) });
                assert(earlier.push(shard).map_values(f) =~= earlier.map_values(f).push(f(shard)));
            }
            assert(steps@ =~= seq![Step::Record(first)] + existing(
                all.take(i + 1),
                n,
            ).map_values(f));
            i = i + 1;
        }
        assert(all.take(i as int) =~= all);
        steps.push(Step::Record(last));
        assert(steps@ =~= recovery_script(record.state, all, n));
        let action = if resume {
            RecoveryAction::ResumedCommit
        } else {
            RecoveryAction::Compensated
        };
        RecoveryPlan {
            outcome: RecoveryOutcome { tx_id: record.tx_id.clone(), action },
            steps,
        }
    }

    /// How the transactions that were in flight are recovered, in their order.
    pub fn recover(&self, in_flight: &Vec<TxLogRecord>) -> (r: Vec<RecoveryPlan>)
        ensures
            r.len() == in_flight.len(),
            forall|i: int|
                0 <= i < r.len() ==> (#[trigger] r[i]).recovers(in_flight[i], self.count()),
    {
        let mut plans: Vec<RecoveryPlan> = Vec::new();
        let mut i: usize = 0;
        while i < in_flight.len()
            invariant
                i <= in_flight.len(),
                plans.len() == i,
                forall|j: int|
                    0 <= j < i ==> (#[trigger] plans[j]).recovers(in_flight[j], self.count()),
            decreases in_flight.len() - i,
        {
            plans.push(self.recover_one(&in_flight[i]));
            i = i + 1;
        }
        plans
    }

    /// The transaction, with the given id, that moves the rows of the source
    /// shard that the target shard owns under the new number of shards. `None`
    /// if there are none.
    pub fn rebalance_with(
        &self,
        rows: &Vec<(String, String)>,
        source_shard: usize,
        target_shard: usize,
        new_total_shards: usize,
        tx_id: String,
    ) -> (r: Result<Option<Rebalancing>, DistributedTxError>)
        ensures
            is_rebalance(
                r,
                rows@,
                self.count(),
                source_shard,
                target_shard,
                new_total_shards as nat,
                tx_id@,
            ),
    {
        if source_shard >= self.shard_count {
            return Err(
                DistributedTxError::ShardUnavailable(source_shard, "not found".to_owned()),
            );
        }
        if target_shard >= self.shard_count {
            return Err(
                DistributedTxError::ShardUnavailable(target_shard, "not found".to_owned()),
            );
        }
        let ghost total = new_total_shards as nat;
        let mut tx = DistributedTransaction::new(tx_id);
        let mut moved: usize = 0;
        let mut i: usize = 0;
        assert(rows@.take(0) =~= Seq::empty());
        while i < rows.len()
            invariant
                i <= rows.len(),
                moved <= i,
                total == new_total_shards,
                tx.wf(),
                tx.tx_id@ == tx_id@,
                moved == migrating(rows@.take(i as int), target_shard, total).len(),
                forall|shard: usize| #[trigger]
                    tx.operations(shard) == moving_ops(
                        migrating(rows@.take(i as int), target_shard, total),
                        moved as nat,
                        source_shard,
                        target_shard,
                        shard,
                    ),
            decreases rows.len() - i,
        {
            let key = rows[i].0.clone();
            let value = rows[i].1.clone();
            let ghost earlier = migrating(rows@.take(i as int), target_shard, total);
            let ghost now = migrating(rows@.take(i + 1), target_shard, total);
            proof {
                assert(rows@.take(i + 1).drop_last() =~= rows@.take(i as int));
                assert(rows@.take(i + 1).last() == rows[i as int]);
            }
            if ShardKey::new(key.clone()).shard_index(new_total_shards) == target_shard {
                tx.add_op(target_shard, Operation::Put { shard_key: key.clone(), value });
                tx.add_op(source_shard, Operation::Delete { shard_key: key });
                moved = moved + 1;
                proof {
                    assert(now == earlier.push(rows[i as int]));
                    assert forall|shard: usize| #[trigger] tx.operations(shard) == moving_ops(
                        now,
                        moved as nat,
                        source_shard,
                        target_shard,
                        shard,
                    ) by {
                        lemma_moving_prefix(
                            earlier,
                            now,
                            earlier.len(),
                            source_shard,
                            target_shard,
                            shard,
                        );
                        assert(now[moved - 1] == rows[i as int]);
                    }
                }
            }
            i = i + 1;
        }
        assert(rows@.take(i as int) =~= rows@);
        if moved == 0 {
            Ok(None)
        } else {
            Ok(Some(Rebalancing { transaction: tx, moved: moved as u64 }))
        }
    }

    /// The transaction that moves the rows of the source shard that the target
    /// shard owns under the new number of shards, and how many they are. `None` if
    /// there are none.
    pub fn rebalance(
        &self,
        rows: &Vec<(String, String)>,
        source_shard: usize,
        target_shard: usize,
        new_total_shards: usize,
    ) -> (r: Result<Option<Rebalancing>, DistributedTxError>)
        ensures
            exists|tx_id: Seq<char>|
                is_new_id(tx_id) && #[trigger] is_rebalance(
                    r,
                    rows@,
                    self.count(),
                    source_shard,
                    target_shard,
                    new_total_shards as nat,
                    tx_id,
                ),
    {
        let tx_id = new_id();
        self.rebalance_with(rows, source_shard, target_shard, new_total_shards, tx_id)
    }
}

/// The operations for the first rows depend on those rows alone.
proof fn lemma_moving_prefix(
    a: Seq<(String, String)>,
    b: Seq<(String, String)>,
    n: nat,
    source: usize,
    target: usize,
    shard: usize,
)
    requires
        n <= a.len(),
        n <= b.len(),
        forall|i: int| 0 <= i < n ==> a[i] == b[i],
    ensures
        moving_ops(a, n, source, target, shard) == moving_ops(b, n, source, target, shard),
    decreases n,
{
    if n > 0 {
        lemma_moving_prefix(a, b, (n - 1) as nat, source, target, shard);
    }
}

/// A shard is asked to commit only after every participant voted to commit and
/// the decision stands in the log.
pub proof fn commits_follow_the_decision(run: RunModel, answer: Answer, shard: usize)
    requires
        run.consistent(),
        run.awaits(answer),
        run.next(answer).1 == Next::Do(Step::Commit(shard)),
    ensures
        run.next(answer).0.recorded == Some(TxState::Committing),
        run.next(answer).0.commit_votes == run.participants.len(),
{
}

/// A shard is asked to roll back only where not every participant voted to
/// commit, and it is one of those that had prepared.
pub proof fn rollbacks_follow_an_abort(run: RunModel, answer: Answer, shard: usize)
    requires
        run.consistent(),
        run.awaits(answer),
        run.next(answer).1 == Next::Do(Step::Rollback(shard)),
    ensures
        run.next(answer).0.recorded == Some(TxState::Aborting),
        run.next(answer).0.commit_votes < run.participants.len(),
        exists|i: int|
            0 <= i < run.next(answer).0.commit_votes && #[trigger] run.participants[i] == shard,
{
    let after = run.next(answer).0;
    match after.phase {
        Phase::RollingBack { at, prepared } => {
            assert(run.participants[at as int] == shard);
        },
        _ => {},
    }
}

/// The outcome is what the log says: a transaction ends as committed or rolled
/// back only when that stands in the log.
pub proof fn outcomes_are_recorded(run: RunModel, answer: Answer, outcome: TxOutcome)
    requires
        run.consistent(),
        run.awaits(answer),
        run.next(answer).1 == Next::Ended(outcome),
    ensures
        outcome == TxOutcome::Committed ==> run.next(answer).0.recorded == Some(TxState::Committed)
            && run.commit_votes == run.participants.len(),
        outcome == TxOutcome::RolledBack ==> run.next(answer).0.recorded == Some(TxState::Aborted)
            && run.commit_votes < run.participants.len(),
{
}

/// After a crash recovery decides as the transaction had: it resumes the
/// commit of one whose shards may have been asked to commit, and compensates
/// one whose shards may have been asked to roll back.
pub proof fn recovery_agrees_with_the_decision(run: RunModel)
    requires
        run.consistent(),
        run.recorded is Some,
    ensures
        run.phase is Committing || run.phase is RecordingCommitted ==> recovery_action(
            run.recorded->0,
        ) == RecoveryAction::ResumedCommit,
        run.phase is RollingBack || run.phase is RecordingAborted || run.phase is Preparing
            || run.phase is RecordingPrepared || run.phase is RecordingCommitting
            ==> recovery_action(run.recorded->0) == RecoveryAction::Compensated,
{
}

/// Recovery resolves a transaction: its last step records a state that needs
/// no recovery, so that recovering twice changes nothing more.
pub proof fn recovery_resolves(state: TxState, participants: Seq<usize>, shard_count: nat)
    ensures
        ({
            let steps = recovery_script(state, participants, shard_count);
            &&& steps.last() is Record
            &&& !steps.last()->Record_0.in_flight()
            &&& recovery_action(steps.last()->Record_0) == recovery_action(state)
        }),
{
}

/// The steps that follow, where `answers` says what each step is answered.
pub open spec fn trace(
    run: RunModel,
    step: Step,
    answers: spec_fn(Step) -> Answer,
    fuel: nat,
) -> Seq<Step>
    decreases fuel,
{
    let (after, next) = run.next(answers(step));
    match next {
        Next::Do(more) => if fuel == 0 {
            seq![step]
        } else {
            seq![step] + trace(after, more, answers, (fuel - 1) as nat)
        },
        _ => seq![step],
    }
}

/// The steps of a transaction on which all agree.
pub open spec fn commit_script(participants: Seq<usize>) -> Seq<Step> {
    seq![Step::Record(TxState::Preparing)] + participants.map_values(|p: usize| Step::Prepare(p))
        + seq![Step::Record(TxState::Prepared), Step::Record(TxState::Committing)]
        + participants.map_values(|p: usize| Step::Commit(p)) + seq![
        Step::Record(TxState::Committed),
    ]
}

/// Every request to prepare is answered by a vote to commit, and every other
/// step succeeds.
pub open spec fn all_agree(answers: spec_fn(Step) -> Answer) -> bool {
    forall|step: Step|
        #[trigger] answers(step) == if step is Prepare {
            Answer::Commit
        } else {
            Answer::Done
        }
}

proof fn lemma_commit_trace(run: RunModel, at: int, answers: spec_fn(Step) -> Answer, fuel: nat)
    requires
        run.consistent(),
        run.phase == (Phase::Committing { at: at as usize }),
        0 <= at < run.participants.len(),
        all_agree(answers),
        fuel >= run.participants.len() - at,
    ensures
        trace(run, Step::Commit(run.participants[at]), answers, fuel) == run.participants.skip(
            at,
        ).map_values(|p: usize| Step::Commit(p)) + seq![Step::Record(TxState::Committed)],
    decreases run.participants.len() - at,
{
    let f = |p: usize| Step::Commit(p);
    let step = Step::Commit(run.participants[at]);
    assert(answers(step) == Answer::Done);
    let (after, next) = run.next(Answer::Done);
    let rest = run.participants.skip(at);
    if at + 1 < run.participants.len() {
        lemma_commit_trace(after, at + 1, answers, (fuel - 1) as nat);
        let tail = run.participants.skip(at + 1).map_values(f) + seq![
            Step::Record(TxState::Committed),
        ];
        assert(rest.map_values(f) =~= seq![step] + run.participants.skip(at + 1).map_values(f));
        assert(trace(run, step, answers, fuel) == seq![step] + tail);
        assert(seq![step] + tail =~= rest.map_values(f) + seq![Step::Record(TxState::Committed)]);
    } else {
        let last = Step::Record(TxState::Committed);
        assert(answers(last) == Answer::Done);
        assert(next == Next::Do(last));
        assert(after.next(Answer::Done).1 == Next::Ended(TxOutcome::Committed));
        assert(trace(after, last, answers, (fuel - 1) as nat) == seq![last]);
        assert(rest.map_values(f) =~= seq![step]);
        assert(trace(run, step, answers, fuel) =~= rest.map_values(f) + seq![last]);
    }
}

/// The steps from the record of the decision on.
proof fn lemma_decided_trace(run: RunModel, answers: spec_fn(Step) -> Answer, fuel: nat)
    requires
        run.consistent(),
        run.phase == Phase::RecordingPrepared,
        all_agree(answers),
        fuel >= run.participants.len() + 3,
    ensures
        trace(run, Step::Record(TxState::Prepared), answers, fuel) == seq![
            Step::Record(TxState::Prepared),
            Step::Record(TxState::Committing),
        ] + run.participants.map_values(|p: usize| Step::Commit(p)) + seq![
            Step::Record(TxState::Committed),
        ],
{
    let f = |p: usize| Step::Commit(p);
    let s1 = Step::Record(TxState::Prepared);
    let s2 = Step::Record(TxState::Committing);
    let s3 = Step::Record(TxState::Committed);
    assert(answers(s1) == Answer::Done && answers(s2) == Answer::Done && answers(s3)
        == Answer::Done);
    let (r1, n1) = run.next(Answer::Done);
    let (r2, n2) = r1.next(Answer::Done);
    assert(n1 == Next::Do(s2));
    let tail = trace(r1, s2, answers, (fuel - 1) as nat);
    if run.participants.len() > 0 {
        let c = Step::Commit(run.participants[0]);
        assert(n2 == Next::Do(c));
        lemma_commit_trace(r2, 0, answers, (fuel - 2) as nat);
        assert(run.participants.skip(0) =~= run.participants);
        assert(tail =~= seq![s2] + (run.participants.map_values(f) + seq![s3]));
    } else {
        assert(n2 == Next::Do(s3));
        assert(r2.next(Answer::Done).1 == Next::Ended(TxOutcome::Committed));
        assert(trace(r2, s3, answers, (fuel - 2) as nat) == seq![s3]);
        assert(run.participants.map_values(f) =~= Seq::empty());
        assert(tail =~= seq![s2] + (run.participants.map_values(f) + seq![s3]));
    }
    assert(trace(run, s1, answers, fuel) =~= seq![s1, s2] + run.participants.map_values(f) + seq![
        s3,
    ]);
}

proof fn lemma_prepare_trace(run: RunModel, at: int, answers: spec_fn(Step) -> Answer, fuel: nat)
    requires
        run.consistent(),
        run.phase == (Phase::Preparing { at: at as usize }),
        0 <= at < run.participants.len(),
        forall|i: int|
            0 <= i < run.participants.len() ==> (#[trigger] run.participants[i]) < run.shard_count,
        all_agree(answers),
        fuel >= 2 * run.participants.len() - at + 4,
    ensures
        trace(run, Step::Prepare(run.participants[at]), answers, fuel) == run.participants.skip(
            at,
        ).map_values(|p: usize| Step::Prepare(p)) + seq![
            Step::Record(TxState::Prepared),
            Step::Record(TxState::Committing),
        ] + run.participants.map_values(|p: usize| Step::Commit(p)) + seq![
            Step::Record(TxState::Committed),
        ],
    decreases run.participants.len() - at,
{
    let f = |p: usize| Step::Prepare(p);
    let g = |p: usize| Step::Commit(p);
    let step = Step::Prepare(run.participants[at]);
    assert(answers(step) == Answer::Commit);
    let (after, next) = run.next(Answer::Commit);
    let rest = run.participants.skip(at);
    let end = seq![Step::Record(TxState::Prepared), Step::Record(TxState::Committing)]
        + run.participants.map_values(g) + seq![Step::Record(TxState::Committed)];
    if at + 1 < run.participants.len() {
        lemma_prepare_trace(after, at + 1, answers, (fuel - 1) as nat);
        let more = run.participants.skip(at + 1).map_values(f);
        assert(rest.map_values(f) =~= seq![step] + more);
        assert(trace(run, step, answers, fuel) =~= rest.map_values(f) + seq![
            Step::Record(TxState::Prepared),
            Step::Record(TxState::Committing),
        ] + run.participants.map_values(g) + seq![Step::Record(TxState::Committed)]);
    } else {
        assert(next == Next::Do(Step::Record(TxState::Prepared)));
        lemma_decided_trace(after, answers, (fuel - 1) as nat);
        assert(rest.map_values(f) =~= seq![step]);
        assert(trace(run, step, answers, fuel) =~= rest.map_values(f) + seq![
            Step::Record(TxState::Prepared),
            Step::Record(TxState::Committing),
        ] + run.participants.map_values(g) + seq![Step::Record(TxState::Committed)]);
    }
}

/// A transaction on which all agree goes through the whole protocol in order:
/// the intent is recorded, every participant prepares, the decision is
/// recorded, every participant commits, and the end is recorded.
pub proof fn agreed_transactions_commit(
    participants: Seq<usize>,
    shard_count: nat,
    answers: spec_fn(Step) -> Answer,
    fuel: nat,
)
    requires
        participants.len() <= usize::MAX,
        forall|i: int| 0 <= i < participants.len() ==> (#[trigger] participants[i]) < shard_count,
        all_agree(answers),
        fuel >= 2 * participants.len() + 5,
    ensures
        trace(
            RunModel::started(participants, shard_count),
            Step::Record(TxState::Preparing),
            answers,
            fuel,
        ) == commit_script(participants),
{
    let run = RunModel::started(participants, shard_count);
    let step = Step::Record(TxState::Preparing);
    let f = |p: usize| Step::Prepare(p);
    assert(answers(step) == Answer::Done);
    let (after, next) = run.next(Answer::Done);
    if participants.len() > 0 {
        assert(participants[0] < shard_count);
        lemma_prepare_trace(after, 0, answers, (fuel - 1) as nat);
        assert(participants.skip(0) =~= participants);
    } else {
        lemma_decided_trace(after, answers, (fuel - 1) as nat);
        assert(participants.map_values(f) =~= Seq::empty());
    }
    assert(trace(run, step, answers, fuel) =~= commit_script(participants));
}

/// The steps of a transaction that the participant at the place `k` vetoes.
pub open spec fn abort_script(participants: Seq<usize>, k: int) -> Seq<Step> {
    seq![Step::Record(TxState::Preparing)] + participants.take(k + 1).map_values(
        |p: usize| Step::Prepare(p),
    ) + seq![Step::Record(TxState::Aborting)] + participants.take(k).map_values(
        |p: usize| Step::Rollback(p),
    ) + seq![Step::Record(TxState::Aborted)]
}

/// The participant at the place `k` is the first to vote to abort, and the log
/// can be written; rollbacks may fail.
pub open spec fn vetoed_at(
    answers: spec_fn(Step) -> Answer,
    participants: Seq<usize>,
    k: int,
) -> bool {
    &&& 0 <= k < participants.len()
    &&& forall|i: int|
        0 <= i < k ==> answers(Step::Prepare(#[trigger] participants[i])) == Answer::Commit
    &&& answers(Step::Prepare(participants[k])) == Answer::Abort
    &&& forall|state: TxState| #[trigger] answers(Step::Record(state)) == Answer::Done
}

proof fn lemma_rollback_trace(
    run: RunModel,
    at: int,
    k: int,
    answers: spec_fn(Step) -> Answer,
    fuel: nat,
)
    requires
        run.consistent(),
        run.phase == (Phase::RollingBack { at: at as usize, prepared: k as usize }),
        0 <= at < k < run.participants.len(),
        vetoed_at(answers, run.participants, k),
        fuel >= k - at,
    ensures
        trace(run, Step::Rollback(run.participants[at]), answers, fuel) == run.participants.subrange(
            at,
            k,
        ).map_values(|p: usize| Step::Rollback(p)) + seq![Step::Record(TxState::Aborted)],
    decreases k - at,
{
    let f = |p: usize| Step::Rollback(p);
    let step = Step::Rollback(run.participants[at]);
    let last = Step::Record(TxState::Aborted);
    let (after, next) = run.next(answers(step));
    let rest = run.participants.subrange(at, k);
    if at + 1 < k {
        lemma_rollback_trace(after, at + 1, k, answers, (fuel - 1) as nat);
        assert(rest.map_values(f) =~= seq![step] + run.participants.subrange(
            at + 1,
            k,
        ).map_values(f));
        assert(trace(run, step, answers, fuel) =~= rest.map_values(f) + seq![last]);
    } else {
        assert(next == Next::Do(last));
        assert(answers(last) == Answer::Done);
        assert(after.next(Answer::Done).1 == Next::Ended(TxOutcome::RolledBack));
        assert(trace(after, last, answers, (fuel - 1) as nat) == seq![last]);
        assert(rest.map_values(f) =~= seq![step]);
        assert(trace(run, step, answers, fuel) =~= rest.map_values(f) + seq![last]);
    }
}

proof fn lemma_veto_trace(
    run: RunModel,
    at: int,
    k: int,
    answers: spec_fn(Step) -> Answer,
    fuel: nat,
)
    requires
        run.consistent(),
        run.phase == (Phase::Preparing { at: at as usize }),
        0 <= at <= k < run.participants.len(),
        forall|i: int|
            0 <= i <= k ==> (#[trigger] run.participants[i]) < run.shard_count,
        vetoed_at(answers, run.participants, k),
        fuel >= 2 * k - at + 4,
    ensures
        trace(run, Step::Prepare(run.participants[at]), answers, fuel) == run.participants.subrange(
            at,
            k + 1,
        ).map_values(|p: usize| Step::Prepare(p)) + seq![Step::Record(TxState::Aborting)]
            + run.participants.take(k).map_values(|p: usize| Step::Rollback(p)) + seq![
            Step::Record(TxState::Aborted),
        ],
    decreases k - at,
{
    let f = |p: usize| Step::Prepare(p);
    let g = |p: usize| Step::Rollback(p);
    let step = Step::Prepare(run.participants[at]);
    let s1 = Step::Record(TxState::Aborting);
    let s2 = Step::Record(TxState::Aborted);
    let rest = run.participants.subrange(at, k + 1);
    if at < k {
        assert(answers(step) == Answer::Commit);
        let (after, next) = run.next(Answer::Commit);
        assert(run.participants[at + 1] < run.shard_count);
        lemma_veto_trace(after, at + 1, k, answers, (fuel - 1) as nat);
        assert(rest.map_values(f) =~= seq![step] + run.participants.subrange(
            at + 1,
            k + 1,
        ).map_values(f));
        assert(trace(run, step, answers, fuel) =~= rest.map_values(f) + seq![s1]
            + run.participants.take(k).map_values(g) + seq![s2]);
    } else {
        let (r1, n1) = run.next(Answer::Abort);
        assert(n1 == Next::Do(s1));
        assert(answers(s1) == Answer::Done && answers(s2) == Answer::Done);
        let (r2, n2) = r1.next(Answer::Done);
        assert(rest.map_values(f) =~= seq![step]);
        let tail = trace(r1, s1, answers, (fuel - 1) as nat);
        if k > 0 {
            lemma_rollback_trace(r2, 0, k, answers, (fuel - 2) as nat);
            assert(run.participants.subrange(0, k) =~= run.participants.take(k));
            assert(tail =~= seq![s1] + (run.participants.take(k).map_values(g) + seq![s2]));
        } else {
            assert(n2 == Next::Do(s2));
            assert(r2.next(Answer::Done).1 == Next::Ended(TxOutcome::RolledBack));
            assert(trace(r2, s2, answers, (fuel - 2) as nat) == seq![s2]);
            assert(run.participants.take(k).map_values(g) =~= Seq::empty());
            assert(tail =~= seq![s1] + (run.participants.take(k).map_values(g) + seq![s2]));
        }
        assert(trace(run, step, answers, fuel) =~= rest.map_values(f) + seq![s1]
            + run.participants.take(k).map_values(g) + seq![s2]);
    }
}

/// A transaction that a participant vetoes is rolled back: the participants
/// that had prepared are asked to roll back, no other is asked anything, and
/// none is asked to commit.
pub proof fn vetoed_transactions_roll_back(
    participants: Seq<usize>,
    shard_count: nat,
    k: int,
    answers: spec_fn(Step) -> Answer,
    fuel: nat,
)
    requires
        participants.len() <= usize::MAX,
        vetoed_at(answers, participants, k),
        forall|i: int| 0 <= i <= k ==> (#[trigger] participants[i]) < shard_count,
        fuel >= 2 * k + 5,
    ensures
        trace(
            RunModel::started(participants, shard_count),
            Step::Record(TxState::Preparing),
            answers,
            fuel,
        ) == abort_script(participants, k),
{
    let run = RunModel::started(participants, shard_count);
    let step = Step::Record(TxState::Preparing);
    assert(answers(step) == Answer::Done);
    let (after, next) = run.next(Answer::Done);
    assert(participants[0] < shard_count);
    lemma_veto_trace(after, 0, k, answers, (fuel - 1) as nat);
    assert(participants.subrange(0, k + 1) =~= participants.take(k + 1));
    assert(trace(run, step, answers, fuel) =~= abort_script(participants, k));
}

/// The hash of a key starts from the offset of FNV and takes in one byte after the other:
/// multiplied by the prime of FNV, with the byte added, modulo 2 to the 64th.
pub proof fn hashes_take_in_byte_after_byte(bytes: Seq<u8>, byte: u8)
    ensures
        key_hash(Seq::<u8>::empty()) == 0xCBF2_9CE4_8422_2325,
        key_hash(bytes.push(byte)) as int == (key_hash(bytes) * 0x100_0000_01B3 + byte)
            % 0x1_0000_0000_0000_0000,
{
    assert(bytes.push(byte).drop_last() =~= bytes);
    let h = key_hash(bytes) as int;
    let p = h * 1_099_511_628_211 % 0x1_0000_0000_0000_0000;
    assert((p + byte) % 0x1_0000_0000_0000_0000 == (h * 1_099_511_628_211 + byte)
        % 0x1_0000_0000_0000_0000) by {
        vstd::arithmetic::div_mod::lemma_add_mod_noop_right(
            byte as int,
            h * 1_099_511_628_211,
            0x1_0000_0000_0000_0000,
        );
    }
}

/// The owner of a key is what remains of its hash when the shards are counted off.
pub proof fn owners_are_counted_off(key: Seq<char>, total: nat)
    requires
        total > 0,
    ensures
        owner(key, total) < total,
        exists|n: int| key_hash(vstd::utf8::encode_utf8(key)) == #[trigger] (n * total) + owner(
            key,
            total,
        ),
{
    let h = key_hash(vstd::utf8::encode_utf8(key)) as int;
    vstd::arithmetic::div_mod::lemma_fundamental_div_mod(h, total as int);
    vstd::arithmetic::mul::lemma_mul_is_commutative(total as int, h / total as int);
    assert(h == (h / total as int) * total + owner(key, total));
}

/// A transaction is carried forward after a crash exactly where the decision to commit
/// stands in the log; only participants that exist are asked, each once and in order, and
/// all of them are.
pub proof fn recovery_carries_decisions_forward(
    plan: RecoveryPlan,
    record: TxLogRecord,
    shard_count: nat,
    shard: usize,
)
    requires
        plan.recovers(record, shard_count),
    ensures
        ({
            let decided = record.state == TxState::Committing || record.state
                == TxState::Committed;
            let asked = record.participants@.contains(shard) && shard < shard_count;
            &&& plan.outcome.tx_id@ == record.tx_id@
            &&& plan.outcome.action is ResumedCommit <==> decided
            &&& decided ==> (plan.steps@.contains(Step::Commit(shard)) <==> asked)
            &&& decided ==> !plan.steps@.contains(Step::Rollback(shard))
            &&& !decided ==> (plan.steps@.contains(Step::Rollback(shard)) <==> asked)
            &&& !decided ==> !plan.steps@.contains(Step::Commit(shard))
            &&& !plan.steps@.contains(Step::Prepare(shard))
            &&& plan.steps@.last() == Step::Record(
                if decided {
                    TxState::Committed
                } else {
                    TxState::Aborted
                },
            )
        }),
{
    let there = existing(record.participants@, shard_count);
    lemma_existing(record.participants@, shard_count, shard);
    let steps = plan.steps@;
    let n = there.len() as int;
    assert(steps.len() == n + 2);
    assert forall|i: int| 0 < i < n + 1 implies #[trigger] steps[i] == (match recovery_action(
        record.state,
    ) {
        RecoveryAction::ResumedCommit => Step::Commit(there[i - 1]),
        RecoveryAction::Compensated => Step::Rollback(there[i - 1]),
    }) by {}
    if there.contains(shard) {
        let i = there.index_of(shard);
        assert(steps[i + 1] == (match recovery_action(record.state) {
            RecoveryAction::ResumedCommit => Step::Commit(shard),
            RecoveryAction::Compensated => Step::Rollback(shard),
        }));
    }
    assert(steps[0] is Record);
    assert(steps[n + 1] is Record);
    if steps.contains(Step::Commit(shard)) {
        let i = steps.index_of(Step::Commit(shard));
        assert(there.contains(there[i - 1]));
    }
    if steps.contains(Step::Rollback(shard)) {
        let i = steps.index_of(Step::Rollback(shard));
        assert(there.contains(there[i - 1]));
    }
    if steps.contains(Step::Prepare(shard)) {
        let i = steps.index_of(Step::Prepare(shard));
    }
}

proof fn lemma_existing(participants: Seq<usize>, shard_count: nat, shard: usize)
    ensures
        existing(participants, shard_count).contains(shard) <==> participants.contains(shard)
            && shard < shard_count,
    decreases participants.len(),
{
    if participants.len() > 0 {
        let rest = participants.drop_last();
        let kept = existing(rest, shard_count);
        lemma_existing(rest, shard_count, shard);
        if participants.contains(shard) {
            let i = participants.index_of(shard);
            if i < rest.len() {
                assert(rest[i] == shard);
            }
        }
        if rest.contains(shard) {
            assert(participants[rest.index_of(shard)] == shard);
        }
        assert(participants[participants.len() - 1] == participants.last());
        let all = existing(participants, shard_count);
        if kept.contains(shard) {
            assert(all[kept.index_of(shard)] == shard);
        }
        if all.contains(shard) {
            let i = all.index_of(shard);
            if i < kept.len() {
                assert(kept[i] == shard);
            }
        }
        if participants.last() < shard_count {
            assert(all[all.len() - 1] == participants.last());
        }
    }
}

/// All operations on a key go to one shard, which is the one that rebalancing takes for the
/// owner of the key; raw SQL goes to the first shard.
pub proof fn operations_follow_their_key(
    key: String,
    value: String,
    sql: String,
    total: nat,
)
    ensures
        (Operation::Put { shard_key: key, value }).shard_among(total) == owner(key@, total),
        (Operation::Delete { shard_key: key }).shard_among(total) == owner(key@, total),
        (Operation::RawSql { sql }).shard_among(total) == 0,
        total > 0 ==> owner(key@, total) < total,
{
}

/// Recovery stops exactly where the log cannot be written, or where a shard cannot commit
/// for any other reason than that it does not know the transaction any more.
pub proof fn recovery_stops_at_failures(step: Step, result: StepResult)
    ensures
        !(result is Failed) ==> goes_on(step, result),
        result is Failed && step is Record ==> !goes_on(step, result),
        result is Failed && step is Commit ==> (goes_on(step, result)
            <==> result->Failed_0 is TransactionNotFound),
        step is Rollback ==> goes_on(step, result),
{
}

/// A put stores its value under its key, a deletion names its key, and raw SQL is run as it
/// is, without parameters.
pub proof fn statements_carry_their_operation(key: String, value: String, sql: String)
    ensures
        (Operation::Put { shard_key: key, value }).parameters_spec() == seq![key@, value@],
        (Operation::Delete { shard_key: key }).parameters_spec() == seq![key@],
        (Operation::RawSql { sql }).parameters_spec().len() == 0,
        (Operation::RawSql { sql }).statement_spec() == sql@,
        (Operation::Put { shard_key: key, value }).statement_spec() != (Operation::Delete {
            shard_key: key,
        }).statement_spec(),
{
    reveal_strlit("INSERT OR REPLACE INTO kv_data (shard_key, value) VALUES (?1, ?2)");
    reveal_strlit("DELETE FROM kv_data WHERE shard_key = ?1");
    assert("INSERT OR REPLACE INTO kv_data (shard_key, value) VALUES (?1, ?2)"@.len()
        != "DELETE FROM kv_data WHERE shard_key = ?1"@.len());
}

} // verus!
