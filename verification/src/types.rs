//! The store, its records, the operation enum, and the transaction queue.
//!
//! `Database` is modelled by [`DbModel`]: the next-key counter together with a
//! map from key to record payload. Every operation's contract is stated over
//! that model. A key is *valid* iff it lies in `[1, next_key)`; a valid key
//! may still be absent from the record map once deleted — the counter never
//! decreases and keys are never reused.

use crate::errors::DatabaseErrors;
use crate::errors::TransactionErrors;
use std::collections::HashMap;
use vstd::prelude::*;

verus! {

broadcast use vstd::std_specs::hash::group_hash_axioms;

/// A record payload. Identity is assigned by the store, not carried here.
#[derive(Clone, Debug)]
pub struct Data {
    pub item: String,
}

impl View for Data {
    type V = Seq<char>;

    open spec fn view(&self) -> Seq<char> {
        self.item@
    }
}

impl Data {
    /// Wraps a payload string as a record.
    pub fn new(item: String) -> (d: Data)
        ensures
            d.item == item,
    {
        Data { item }
    }
}

/// One pending mutation, queued by a transaction and applied at commit time.
#[derive(Debug)]
pub enum DatabaseOperations {
    Insert(String),
    Update(u32, String),
    Delete(u32),
}

/// The mathematical model of a [`Database`]: the next-key counter and the
/// map from valid, live keys to record payloads.
#[verifier::ext_equal]
pub ghost struct DbModel {
    pub next_key: u32,
    pub records: Map<u32, Seq<char>>,
}

/// A key is valid iff it lies in `[1, next_key)`; deletion does not
/// invalidate a key, so a valid key may be absent from `records`.
pub open spec fn valid_key(m: DbModel, key: u32) -> bool {
    1 <= key && key < m.next_key
}

/// Whether one operation succeeds against model `m`: an insert needs a free
/// counter value, an update needs a live record, a delete needs a valid key
/// (deleting an already-deleted valid key succeeds).
pub open spec fn op_ok(m: DbModel, op: DatabaseOperations) -> bool {
    match op {
        DatabaseOperations::Insert(_) => m.next_key < u32::MAX,
        DatabaseOperations::Update(key, _) => valid_key(m, key) && m.records.contains_key(key),
        DatabaseOperations::Delete(key) => valid_key(m, key),
    }
}

/// The model after one successful operation.
pub open spec fn apply_op(m: DbModel, op: DatabaseOperations) -> DbModel
    recommends
        op_ok(m, op),
{
    match op {
        DatabaseOperations::Insert(payload) => DbModel {
            next_key: (m.next_key + 1) as u32,
            records: m.records.insert(m.next_key, payload@),
        },
        DatabaseOperations::Update(key, payload) => DbModel {
            next_key: m.next_key,
            records: m.records.insert(key, payload@),
        },
        DatabaseOperations::Delete(key) => DbModel {
            next_key: m.next_key,
            records: m.records.remove(key),
        },
    }
}

/// What a lookup of `key` against model `m` returns: the payload for a live
/// key, `InvalidKeyError` out of range, `KeyNotFound` for a deleted key.
pub open spec fn lookup(m: DbModel, key: u32) -> Result<Seq<char>, DatabaseErrors> {
    if !valid_key(m, key) {
        Err(DatabaseErrors::InvalidKeyError)
    } else if !m.records.contains_key(key) {
        Err(DatabaseErrors::KeyNotFound)
    } else {
        Ok(m.records[key])
    }
}

/// The model of a freshly created store: counter at 1, no records.
pub open spec fn fresh_model() -> DbModel {
    DbModel { next_key: 1, records: Map::empty() }
}

/// The keyed record container with its auto-incrementing key counter.
///
/// The fields are public so that contracts and callers can speak about them;
/// the intended shared-between-tasks deployment wraps one `Database` in a
/// reference-counted readers-writer lock outside this library, which keeps
/// each `&mut self` operation a single critical section.
pub struct Database {
    /// The next key to assign; strictly increasing from 1, never reused.
    pub primary_key: u32,
    /// The live records, keyed by assigned key.
    pub storage: HashMap<u32, Data>,
}

impl View for Database {
    type V = DbModel;

    open spec fn view(&self) -> DbModel {
        DbModel {
            next_key: self.primary_key,
            records: self.storage@.map_values(|d: Data| d@),
        }
    }
}

impl Database {
    /// A fresh store: counter at 1, no records.
    pub fn new() -> (db: Database)
        ensures
            db@ == fresh_model(),
    {
        let db = Database { primary_key: 1, storage: HashMap::new() };
        proof {
            assert(db@.records =~= Map::<u32, Seq<char>>::empty());
            assert(db@ =~= fresh_model());
        }
        db
    }

    /// Stores `data` under the current counter value and advances the counter.
    /// Returns the assigned key. Fails only when the counter is exhausted,
    /// which is fatal for this store; the store is then unchanged.
    pub fn insert_data(&mut self, data: String) -> (r: Result<u32, DatabaseErrors>)
        ensures
            old(self).primary_key < u32::MAX ==> {
                &&& r == Ok::<u32, DatabaseErrors>(old(self).primary_key)
                &&& final(self)@.next_key == old(self)@.next_key + 1
                &&& final(self)@.records == old(self)@.records.insert(old(self).primary_key, data@)
            },
            old(self).primary_key == u32::MAX ==> {
                &&& r == Err::<u32, DatabaseErrors>(DatabaseErrors::PrimaryKeyIncreaseFailed)
                &&& *final(self) == *old(self)
            },
    {
        if self.primary_key == u32::MAX {
            return Err(DatabaseErrors::PrimaryKeyIncreaseFailed);
        }
        let key = self.primary_key;
        self.storage.insert(key, Data::new(data));
        self.primary_key = key + 1;
        proof {
            assert(self@.records =~= old(self)@.records.insert(key, data@));
        }
        Ok(key)
    }

    /// Returns a copy of the record under `key`, exactly as [`lookup`] says:
    /// `InvalidKeyError` for a key outside `[1, next_key)`, `KeyNotFound` for
    /// a valid but deleted key.
    pub fn get_data(&self, key: u32) -> (r: Result<Data, DatabaseErrors>)
        ensures
            (match r {
                Ok(d) => Ok::<Seq<char>, DatabaseErrors>(d@),
                Err(e) => Err(e),
            }) == lookup(self@, key),
    {
        if key == 0 || key >= self.primary_key {
            return Err(DatabaseErrors::InvalidKeyError);
        }
        match self.storage.get(&key) {
            Some(d) => Ok(Data { item: d.item.clone() }),
            None => Err(DatabaseErrors::KeyNotFound),
        }
    }

    /// Replaces the payload under `key` in place. The counter is untouched;
    /// `InvalidKeyError` out of range, `KeyNotFound` for a deleted key, and
    /// in either failure the store is unchanged.
    pub fn update_data(&mut self, key: u32, update: String) -> (r: Result<(), DatabaseErrors>)
        ensures
            valid_key(old(self)@, key) && old(self)@.records.contains_key(key) ==> {
                &&& r == Ok::<(), DatabaseErrors>(())
                &&& final(self)@.next_key == old(self)@.next_key
                &&& final(self)@.records == old(self)@.records.insert(key, update@)
            },
            !valid_key(old(self)@, key) ==> {
                &&& r == Err::<(), DatabaseErrors>(DatabaseErrors::InvalidKeyError)
                &&& *final(self) == *old(self)
            },
            valid_key(old(self)@, key) && !old(self)@.records.contains_key(key) ==> {
                &&& r == Err::<(), DatabaseErrors>(DatabaseErrors::KeyNotFound)
                &&& *final(self) == *old(self)
            },
    {
        if key == 0 || key >= self.primary_key {
            return Err(DatabaseErrors::InvalidKeyError);
        }
        if !self.storage.contains_key(&key) {
            return Err(DatabaseErrors::KeyNotFound);
        }
        self.storage.insert(key, Data::new(update));
        proof {
            assert(self@.records =~= old(self)@.records.insert(key, update@));
        }
        Ok(())
    }

    /// Removes the record under `key` if present; idempotent on a valid but
    /// already-deleted key. `InvalidKeyError` out of range, and the store is
    /// then unchanged. The counter is untouched: the key stays valid.
    pub fn delete_data(&mut self, key: u32) -> (r: Result<(), DatabaseErrors>)
        ensures
            valid_key(old(self)@, key) ==> {
                &&& r == Ok::<(), DatabaseErrors>(())
                &&& final(self)@.next_key == old(self)@.next_key
                &&& final(self)@.records == old(self)@.records.remove(key)
            },
            !valid_key(old(self)@, key) ==> {
                &&& r == Err::<(), DatabaseErrors>(DatabaseErrors::InvalidKeyError)
                &&& *final(self) == *old(self)
            },
    {
        if key == 0 || key >= self.primary_key {
            return Err(DatabaseErrors::InvalidKeyError);
        }
        self.storage.remove(&key);
        proof {
            assert(self@.records =~= old(self)@.records.remove(key));
        }
        Ok(())
    }
}

/// The transaction-level error that names the class of a failed operation.
pub open spec fn op_error(op: DatabaseOperations) -> TransactionErrors {
    match op {
        DatabaseOperations::Insert(_) => TransactionErrors::ErrorInInsertingData,
        DatabaseOperations::Update(_, _) => TransactionErrors::ErrorUpdatingTheDatabase,
        DatabaseOperations::Delete(_) => TransactionErrors::ErrorInDeletingData,
    }
}

/// The model after replaying `ops` in order, stopping before the first
/// operation that fails: earlier effects remain, the failing operation and
/// everything after it are not applied.
pub open spec fn replay(m: DbModel, ops: Seq<DatabaseOperations>) -> DbModel
    decreases ops.len(),
{
    if ops.len() == 0 {
        m
    } else if op_ok(m, ops[0]) {
        replay(apply_op(m, ops[0]), ops.drop_first())
    } else {
        m
    }
}

/// Whether every operation of `ops`, replayed in order, succeeds.
pub open spec fn replay_ok(m: DbModel, ops: Seq<DatabaseOperations>) -> bool
    decreases ops.len(),
{
    ops.len() == 0 || (op_ok(m, ops[0]) && replay_ok(apply_op(m, ops[0]), ops.drop_first()))
}

/// The error reported for the first operation of `ops` that fails during a
/// replay from `m`; meaningful only when `!replay_ok(m, ops)`.
pub open spec fn replay_error(m: DbModel, ops: Seq<DatabaseOperations>) -> TransactionErrors
    recommends
        !replay_ok(m, ops),
    decreases ops.len(),
{
    if ops.len() == 0 {
        TransactionErrors::InvalidOperation
    } else if !op_ok(m, ops[0]) {
        op_error(ops[0])
    } else {
        replay_error(apply_op(m, ops[0]), ops.drop_first())
    }
}

/// Replaying `pre + post` is replaying `pre` and then `post`, provided every
/// operation of `pre` succeeds; success and the reported error decompose the
/// same way.
pub proof fn lemma_replay_append(
    m: DbModel,
    pre: Seq<DatabaseOperations>,
    post: Seq<DatabaseOperations>,
)
    requires
        replay_ok(m, pre),
    ensures
        replay(m, pre + post) == replay(replay(m, pre), post),
        replay_ok(m, pre + post) == replay_ok(replay(m, pre), post),
        !replay_ok(m, pre + post) ==> replay_error(m, pre + post) == replay_error(
            replay(m, pre),
            post,
        ),
    decreases pre.len(),
{
    if pre.len() == 0 {
        assert(pre + post =~= post);
    } else {
        assert((pre + post)[0] == pre[0]);
        assert((pre + post).drop_first() =~= pre.drop_first() + post);
        lemma_replay_append(apply_op(m, pre[0]), pre.drop_first(), post);
    }
}

/// Extending a fully successful replay by one operation that succeeds
/// against the replayed model applies that operation last.
pub proof fn lemma_replay_snoc(m: DbModel, ops: Seq<DatabaseOperations>, op: DatabaseOperations)
    requires
        replay_ok(m, ops),
        op_ok(replay(m, ops), op),
    ensures
        replay_ok(m, ops.push(op)),
        replay(m, ops.push(op)) == apply_op(replay(m, ops), op),
    decreases ops.len(),
{
    let s = ops.push(op);
    if ops.len() == 0 {
        assert(s[0] == op);
        assert(s.drop_first().len() == 0);
        assert(replay(apply_op(m, op), s.drop_first()) == apply_op(m, op));
        assert(replay(m, s) == apply_op(m, op));
        assert(replay_ok(apply_op(m, op), s.drop_first()));
        assert(replay_ok(m, s));
    } else {
        assert(s[0] == ops[0]);
        assert(s.drop_first() =~= ops.drop_first().push(op));
        lemma_replay_snoc(apply_op(m, ops[0]), ops.drop_first(), op);
        assert(replay(m, s) == replay(apply_op(m, ops[0]), s.drop_first()));
        assert(replay_ok(m, s));
    }
}

/// The lifecycle of a [`Transaction`]: it starts `New` and ends permanently
/// in `Commited` or `RolledBack`.
#[derive(Clone, Copy, Debug, PartialEq, Eq, Structural)]
pub enum TransactionState {
    New,
    RolledBack,
    Commited,
}

/// A client-side buffer of pending operations, applied to a store as an
/// ordered batch by [`Transaction::commit_changes`].
///
/// Commit is *not* atomic against the store: operations applied before the
/// first failure remain applied; only the transaction's own queue and state
/// roll back. Callers must not assume all-or-nothing visibility in the store.
pub struct Transaction {
    /// The FIFO queue of pending operations, consumed from the front.
    pub operations: Vec<DatabaseOperations>,
    /// The lifecycle state; `Commited` and `RolledBack` are absorbing.
    pub tx_state: TransactionState,
}

/// Applies one operation to the store: `Ok` with exactly the [`apply_op`]
/// effect when [`op_ok`] holds, otherwise the [`op_error`] of the operation's
/// class with the store unchanged.
fn apply_one(database: &mut Database, op: &DatabaseOperations) -> (r: Result<(), TransactionErrors>)
    ensures
        op_ok(old(database)@, *op) ==> {
            &&& r == Ok::<(), TransactionErrors>(())
            &&& final(database)@ == apply_op(old(database)@, *op)
        },
        !op_ok(old(database)@, *op) ==> {
            &&& r == Err::<(), TransactionErrors>(op_error(*op))
            &&& *final(database) == *old(database)
        },
{
    match op {
        DatabaseOperations::Insert(data) => match database.insert_data(data.clone()) {
            Ok(_) => {
                proof {
                    assert(database@ =~= apply_op(old(database)@, *op));
                }
                Ok(())
            },
            Err(_) => Err(TransactionErrors::ErrorInInsertingData),
        },
        DatabaseOperations::Update(key, data) => match database.update_data(*key, data.clone()) {
            Ok(_) => {
                proof {
                    assert(database@ =~= apply_op(old(database)@, *op));
                }
                Ok(())
            },
            Err(_) => Err(TransactionErrors::ErrorUpdatingTheDatabase),
        },
        DatabaseOperations::Delete(key) => match database.delete_data(*key) {
            Ok(_) => {
                proof {
                    assert(database@ =~= apply_op(old(database)@, *op));
                }
                Ok(())
            },
            Err(_) => Err(TransactionErrors::ErrorInDeletingData),
        },
    }
}

impl Transaction {
    /// A fresh transaction: empty queue, state `New`.
    pub fn new() -> (t: Transaction)
        ensures
            t.operations@ == Seq::<DatabaseOperations>::empty(),
            t.tx_state == TransactionState::New,
    {
        Transaction { operations: Vec::new(), tx_state: TransactionState::New }
    }

    /// Appends `operation` to the tail of the queue. Permitted only in state
    /// `New`; otherwise fails with `NotNewTransaction` and leaves the
    /// transaction unchanged. Touches no store.
    pub fn add_operation(&mut self, operation: DatabaseOperations) -> (r: Result<
        (),
        TransactionErrors,
    >)
        ensures
            old(self).tx_state == TransactionState::New ==> {
                &&& r == Ok::<(), TransactionErrors>(())
                &&& final(self).operations@ == old(self).operations@.push(operation)
                &&& final(self).tx_state == TransactionState::New
            },
            old(self).tx_state != TransactionState::New ==> {
                &&& r == Err::<(), TransactionErrors>(TransactionErrors::NotNewTransaction)
                &&& *final(self) == *old(self)
            },
    {
        if self.tx_state != TransactionState::New {
            return Err(TransactionErrors::NotNewTransaction);
        }
        self.operations.push(operation);
        Ok(())
    }

    /// Replays the queued operations against `database` in submission order,
    /// exactly as [`replay`] says: each operation is applied and dequeued in
    /// turn; on the first failure the transaction rolls itself back (queue
    /// emptied, state `RolledBack`) and reports the failing operation's
    /// class, while the store keeps every effect applied so far. If all
    /// succeed the state becomes `Commited`. Permitted only in state `New`;
    /// otherwise fails with `NotNewTransaction` and changes nothing.
    pub fn commit_changes(&mut self, database: &mut Database) -> (r: Result<
        (),
        TransactionErrors,
    >)
        ensures
            old(self).tx_state != TransactionState::New ==> {
                &&& r == Err::<(), TransactionErrors>(TransactionErrors::NotNewTransaction)
                &&& *final(self) == *old(self)
                &&& *final(database) == *old(database)
            },
            old(self).tx_state == TransactionState::New ==> {
                &&& final(database)@ == replay(old(database)@, old(self).operations@)
                &&& final(self).operations@ == Seq::<DatabaseOperations>::empty()
                &&& replay_ok(old(database)@, old(self).operations@) ==> {
                    &&& r == Ok::<(), TransactionErrors>(())
                    &&& final(self).tx_state == TransactionState::Commited
                }
                &&& !replay_ok(old(database)@, old(self).operations@) ==> {
                    &&& r == Err::<(), TransactionErrors>(
                        replay_error(old(database)@, old(self).operations@),
                    )
                    &&& final(self).tx_state == TransactionState::RolledBack
                }
            },
    {
        if self.tx_state != TransactionState::New {
            return Err(TransactionErrors::NotNewTransaction);
        }
        let ghost m0 = database@;
        let ghost ops0 = self.operations@;
        let ghost mut done: Seq<DatabaseOperations> = Seq::empty();
        proof {
            assert(ops0 =~= done + self.operations@);
        }
        while self.operations.len() > 0
            invariant
                old(self).tx_state == TransactionState::New,
                m0 == old(database)@,
                ops0 == old(self).operations@,
                self.tx_state == TransactionState::New,
                ops0 == done + self.operations@,
                replay_ok(m0, done),
                database@ == replay(m0, done),
            decreases self.operations.len(),
        {
            let ghost dbm = database@;
            let ghost op = self.operations@[0];
            let ghost rest = self.operations@;
            let outcome = apply_one(database, &self.operations[0]);
            match outcome {
                Ok(_) => {
                    proof {
                        lemma_replay_snoc(m0, done, op);
                        done = done.push(op);
                    }
                    let _ = self.operations.remove(0);
                    proof {
                        assert(ops0 =~= done + self.operations@);
                    }
                },
                Err(e) => {
                    let _ = self.roll_back();
                    proof {
                        lemma_replay_append(m0, done, rest);
                        assert(replay(dbm, rest) == dbm);
                        assert(!replay_ok(dbm, rest));
                        assert(replay_error(dbm, rest) == op_error(op));
                    }
                    return Err(e);
                },
            }
        }
        proof {
            assert(done =~= ops0);
        }
        self.tx_state = TransactionState::Commited;
        Ok(())
    }

    /// Abandons the transaction: the queue is cleared unconditionally and a
    /// `New` transaction moves to `RolledBack`. The terminal states are
    /// absorbing, so calling this again from `RolledBack` — or at all from
    /// `Commited` — is a harmless no-op on the state; it always succeeds.
    pub fn roll_back(&mut self) -> (r: Result<(), TransactionErrors>)
        ensures
            r == Ok::<(), TransactionErrors>(()),
            final(self).operations@ == Seq::<DatabaseOperations>::empty(),
            final(self).tx_state == (if old(self).tx_state == TransactionState::Commited {
                TransactionState::Commited
            } else {
                TransactionState::RolledBack
            }),
    {
        self.operations.clear();
        if self.tx_state != TransactionState::Commited {
            self.tx_state = TransactionState::RolledBack;
        }
        Ok(())
    }
}

} // verus!
