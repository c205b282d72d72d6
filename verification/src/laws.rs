//! The library's laws, proved over the store model: consecutive key
//! assignment, insert/get round-trips, delete semantics, and the absence of
//! lost updates across operations on disjoint keys.

use crate::errors::DatabaseErrors;
use crate::types::apply_op;
use crate::types::fresh_model;
use crate::types::lemma_replay_append;
use crate::types::lookup;
use crate::types::op_ok;
use crate::types::replay;
use crate::types::replay_ok;
use crate::types::valid_key;
use crate::types::DatabaseOperations;
use crate::types::DbModel;
use vstd::prelude::*;

verus! {

/// Whether every operation of `ops` is an insert.
pub open spec fn all_inserts(ops: Seq<DatabaseOperations>) -> bool {
    forall|i: int| 0 <= i < ops.len() ==> ops[i] is Insert
}

/// The payload carried by an insert operation.
pub open spec fn insert_payload(op: DatabaseOperations) -> Seq<char>
    recommends
        op is Insert,
{
    match op {
        DatabaseOperations::Insert(payload) => payload@,
        _ => Seq::empty(),
    }
}

/// Replaying a sequence of inserts extends the record map by exactly the
/// next consecutive keys, in submission order, and touches nothing else.
pub proof fn lemma_inserts_extend(m: DbModel, ops: Seq<DatabaseOperations>)
    requires
        all_inserts(ops),
        m.next_key + ops.len() <= u32::MAX,
    ensures
        replay_ok(m, ops),
        replay(m, ops).next_key == m.next_key + ops.len(),
        forall|k: u32|
            #[trigger] replay(m, ops).records.contains_key(k) <==> (m.records.contains_key(k) || (
            m.next_key <= k < m.next_key + ops.len())),
        forall|i: int|
            0 <= i < ops.len() ==> replay(m, ops).records[((m.next_key + i) as u32)]
                == insert_payload(ops[i]),
        forall|k: u32|
            k < m.next_key && #[trigger] m.records.contains_key(k) ==> replay(m, ops).records[k]
                == m.records[k],
    decreases ops.len(),
{
    if ops.len() > 0 {
        let m2 = apply_op(m, ops[0]);
        assert(op_ok(m, ops[0]));
        lemma_inserts_extend(m2, ops.drop_first());
        assert(replay(m, ops) == replay(m2, ops.drop_first()));
        assert forall|i: int| 0 <= i < ops.len() implies replay(m, ops).records[((m.next_key
            + i) as u32)] == insert_payload(ops[i]) by {
            if i == 0 {
                assert(m2.records.contains_key(m.next_key));
                assert(replay(m2, ops.drop_first()).records[m.next_key]
                    == m2.records[m.next_key]);
            } else {
                assert(ops.drop_first()[i - 1] == ops[i]);
                assert(replay(m2, ops.drop_first()).records[((m2.next_key + (i - 1)) as u32)]
                    == insert_payload(ops.drop_first()[i - 1]));
            }
        }
        assert forall|k: u32|
            k < m.next_key && #[trigger] m.records.contains_key(k) implies replay(
            m,
            ops,
        ).records[k] == m.records[k] by {
            assert(m2.records.contains_key(k));
            assert(m2.records[k] == m.records[k]);
        }
    }
}

/// For every sequence of N inserts on a fresh store, all N succeed and the
/// assigned keys are exactly `1..=N`, with no gaps or repeats, and key `i`
/// holds the payload of the `i`-th insert.
pub proof fn lemma_fresh_inserts_assign_consecutive_keys(ops: Seq<DatabaseOperations>)
    requires
        all_inserts(ops),
        1 + ops.len() <= u32::MAX,
    ensures
        replay_ok(fresh_model(), ops),
        replay(fresh_model(), ops).next_key == 1 + ops.len(),
        forall|k: u32|
            #[trigger] replay(fresh_model(), ops).records.contains_key(k) <==> (1 <= k && k
                <= ops.len()),
        forall|i: int|
            0 <= i < ops.len() ==> replay(fresh_model(), ops).records[((1 + i) as u32)]
                == insert_payload(ops[i]),
{
    lemma_inserts_extend(fresh_model(), ops);
}

/// Round-trip: a successful insert assigns the counter value as key, and a
/// lookup of that key afterwards yields the inserted payload unchanged.
pub proof fn lemma_insert_get_round_trip(m: DbModel, payload: String)
    requires
        1 <= m.next_key < u32::MAX,
    ensures
        lookup(apply_op(m, DatabaseOperations::Insert(payload)), m.next_key) == Ok::<
            Seq<char>,
            DatabaseErrors,
        >(payload@),
{
}

/// A lookup after a delete of a valid key always fails: the key stays valid
/// but its record is gone.
pub proof fn lemma_delete_then_get_fails(m: DbModel, key: u32)
    requires
        valid_key(m, key),
    ensures
        lookup(apply_op(m, DatabaseOperations::Delete(key)), key) == Err::<
            Seq<char>,
            DatabaseErrors,
        >(DatabaseErrors::KeyNotFound),
{
}

/// Deleting a valid key is idempotent: a second delete of the same key still
/// succeeds and changes nothing further.
pub proof fn lemma_delete_idempotent(m: DbModel, key: u32)
    requires
        valid_key(m, key),
    ensures
        op_ok(apply_op(m, DatabaseOperations::Delete(key)), DatabaseOperations::Delete(key)),
        apply_op(apply_op(m, DatabaseOperations::Delete(key)), DatabaseOperations::Delete(key))
            == apply_op(m, DatabaseOperations::Delete(key)),
{
    assert(apply_op(apply_op(m, DatabaseOperations::Delete(key)), DatabaseOperations::Delete(key))
        =~= apply_op(m, DatabaseOperations::Delete(key)));
}

/// The key an operation addresses; inserts address none (the store assigns
/// their key).
pub open spec fn op_key(op: DatabaseOperations) -> Option<u32> {
    match op {
        DatabaseOperations::Insert(_) => None,
        DatabaseOperations::Update(key, _) => Some(key),
        DatabaseOperations::Delete(key) => Some(key),
    }
}

/// Whether every operation of `ops` addresses a key (no inserts).
pub open spec fn keyed_ops(ops: Seq<DatabaseOperations>) -> bool {
    forall|i: int| 0 <= i < ops.len() ==> #[trigger] op_key(ops[i]) is Some
}

/// Whether no operation of `ops` addresses `key`.
pub open spec fn avoids_key(ops: Seq<DatabaseOperations>, key: u32) -> bool {
    forall|i: int| 0 <= i < ops.len() ==> #[trigger] op_key(ops[i]) != Some(key)
}

/// A batch of keyed operations that never addresses `key` leaves the
/// counter and the record at `key` exactly as they were.
pub proof fn lemma_keyed_batch_preserves_other_keys(
    m: DbModel,
    ops: Seq<DatabaseOperations>,
    key: u32,
)
    requires
        keyed_ops(ops),
        avoids_key(ops, key),
    ensures
        replay(m, ops).next_key == m.next_key,
        replay(m, ops).records.contains_key(key) == m.records.contains_key(key),
        m.records.contains_key(key) ==> replay(m, ops).records[key] == m.records[key],
    decreases ops.len(),
{
    if ops.len() > 0 && op_ok(m, ops[0]) {
        assert(op_key(ops[0]) is Some);
        assert(op_key(ops[0]) != Some(key));
        let m2 = apply_op(m, ops[0]);
        assert(m2.next_key == m.next_key);
        assert(m2.records.contains_key(key) == m.records.contains_key(key));
        assert(m.records.contains_key(key) ==> m2.records[key] == m.records[key]);
        assert(forall|i: int|
            0 <= i < ops.drop_first().len() ==> #[trigger] op_key(ops.drop_first()[i]) == op_key(
                ops[i + 1],
            ));
        lemma_keyed_batch_preserves_other_keys(m2, ops.drop_first(), key);
        assert(replay(m, ops) == replay(m2, ops.drop_first()));
    }
}

/// No lost update across disjoint key ranges: after one batch commits, a
/// second batch of keyed operations that stays off `key` leaves the first
/// batch's record at `key` exactly in place.
pub proof fn lemma_disjoint_batches_keep_updates(
    m: DbModel,
    first: Seq<DatabaseOperations>,
    second: Seq<DatabaseOperations>,
    key: u32,
)
    requires
        replay_ok(m, first),
        keyed_ops(second),
        avoids_key(second, key),
    ensures
        replay(m, first + second).records.contains_key(key) == replay(
            m,
            first,
        ).records.contains_key(key),
        replay(m, first).records.contains_key(key) ==> replay(m, first + second).records[key]
            == replay(m, first).records[key],
{
    lemma_replay_append(m, first, second);
    lemma_keyed_batch_preserves_other_keys(replay(m, first), second, key);
}

/// Whether no operation of `a` addresses the same key as an operation of
/// `b`.
pub open spec fn disjoint_op_keys(a: Seq<DatabaseOperations>, b: Seq<DatabaseOperations>) -> bool {
    forall|i: int, j: int|
        0 <= i < a.len() && 0 <= j < b.len() ==> #[trigger] op_key(a[i]) != #[trigger] op_key(b[j])
}

/// Whether `c` interleaves the operations of `a` and `b`, keeping each
/// one's internal order.
pub open spec fn is_interleaving(
    c: Seq<DatabaseOperations>,
    a: Seq<DatabaseOperations>,
    b: Seq<DatabaseOperations>,
) -> bool
    decreases c.len(),
{
    if a.len() == 0 {
        c == b
    } else if b.len() == 0 {
        c == a
    } else if c.len() == 0 {
        false
    } else {
        (c[0] == a[0] && is_interleaving(c.drop_first(), a.drop_first(), b)) || (c[0] == b[0]
            && is_interleaving(c.drop_first(), a, b.drop_first()))
    }
}

/// One keyed operation commutes with a whole batch of keyed operations that
/// stays off its key: it still succeeds after the batch, the batch still
/// succeeds after it, and the store ends the same either way.
pub proof fn lemma_disjoint_op_batch_commute(
    m: DbModel,
    op: DatabaseOperations,
    key: u32,
    batch: Seq<DatabaseOperations>,
)
    requires
        op_key(op) == Some(key),
        keyed_ops(batch),
        avoids_key(batch, key),
        op_ok(m, op),
        replay_ok(m, batch),
    ensures
        op_ok(replay(m, batch), op),
        replay_ok(apply_op(m, op), batch),
        replay(apply_op(m, op), batch) == apply_op(replay(m, batch), op),
    decreases batch.len(),
{
    if batch.len() > 0 {
        let b0 = batch[0];
        assert(op_key(b0) is Some);
        assert(op_key(b0) != Some(key));
        lemma_disjoint_keyed_ops_commute(m, op, b0);
        assert(forall|i: int|
            0 <= i < batch.drop_first().len() ==> #[trigger] op_key(batch.drop_first()[i])
                == op_key(batch[i + 1]));
        lemma_disjoint_op_batch_commute(apply_op(m, b0), op, key, batch.drop_first());
        assert(replay(m, batch) == replay(apply_op(m, b0), batch.drop_first()));
        assert(replay(apply_op(m, op), batch) == replay(
            apply_op(apply_op(m, op), b0),
            batch.drop_first(),
        ));
        assert(apply_op(apply_op(m, op), b0) == apply_op(apply_op(m, b0), op));
    }
}

/// No lost update under interleaving: however the operations of two
/// committable batches on disjoint keys interleave, the interleaving
/// succeeds as a whole and reaches exactly the store that running the two
/// batches back to back reaches.
pub proof fn lemma_interleaved_disjoint_batches(
    m: DbModel,
    c: Seq<DatabaseOperations>,
    a: Seq<DatabaseOperations>,
    b: Seq<DatabaseOperations>,
)
    requires
        is_interleaving(c, a, b),
        keyed_ops(a),
        keyed_ops(b),
        disjoint_op_keys(a, b),
        replay_ok(m, a),
        replay_ok(m, b),
    ensures
        replay_ok(m, c),
        replay(m, c) == replay(replay(m, a), b),
    decreases c.len(),
{
    if a.len() == 0 {
        assert(c == b);
    } else if b.len() == 0 {
        assert(c == a);
    } else if c[0] == a[0] && is_interleaving(c.drop_first(), a.drop_first(), b) {
        assert(op_ok(m, a[0]));
        assert(op_key(a[0]) is Some);
        let key = op_key(a[0])->Some_0;
        assert forall|j: int| 0 <= j < b.len() implies #[trigger] op_key(b[j]) != Some(key) by {
            assert(op_key(a[0]) != op_key(b[j]));
        }
        lemma_disjoint_op_batch_commute(m, a[0], key, b);
        let m2 = apply_op(m, a[0]);
        assert(forall|i: int|
            0 <= i < a.drop_first().len() ==> #[trigger] op_key(a.drop_first()[i]) == op_key(
                a[i + 1],
            ));
        lemma_interleaved_disjoint_batches(m2, c.drop_first(), a.drop_first(), b);
        assert(replay(m, c) == replay(m2, c.drop_first()));
        assert(replay(m2, a.drop_first()) == replay(m, a));
    } else {
        assert(c[0] == b[0] && is_interleaving(c.drop_first(), a, b.drop_first()));
        assert(op_ok(m, b[0]));
        assert(op_key(b[0]) is Some);
        let key = op_key(b[0])->Some_0;
        assert forall|i: int| 0 <= i < a.len() implies #[trigger] op_key(a[i]) != Some(key) by {
            assert(op_key(a[i]) != op_key(b[0]));
        }
        lemma_disjoint_op_batch_commute(m, b[0], key, a);
        let m2 = apply_op(m, b[0]);
        assert(forall|j: int|
            0 <= j < b.drop_first().len() ==> #[trigger] op_key(b.drop_first()[j]) == op_key(
                b[j + 1],
            ));
        lemma_interleaved_disjoint_batches(m2, c.drop_first(), a, b.drop_first());
        assert(replay(m, c) == replay(m2, c.drop_first()));
        assert(replay(m2, a) == apply_op(replay(m, a), b[0]));
        assert(replay(replay(m, a), b) == replay(
            apply_op(replay(m, a), b[0]),
            b.drop_first(),
        ));
    }
}

/// No lost writes across disjoint keys: two keyed operations on distinct
/// keys both succeed in either order and reach the same store, so neither
/// interleaving loses the other's effect.
pub proof fn lemma_disjoint_keyed_ops_commute(
    m: DbModel,
    a: DatabaseOperations,
    b: DatabaseOperations,
)
    requires
        op_key(a) is Some,
        op_key(b) is Some,
        op_key(a) != op_key(b),
        op_ok(m, a),
        op_ok(m, b),
    ensures
        op_ok(apply_op(m, a), b),
        op_ok(apply_op(m, b), a),
        apply_op(apply_op(m, a), b) == apply_op(apply_op(m, b), a),
{
    assert(apply_op(apply_op(m, a), b).records =~= apply_op(apply_op(m, b), a).records);
    assert(apply_op(apply_op(m, a), b) =~= apply_op(apply_op(m, b), a));
}

} // verus!
