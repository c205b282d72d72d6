//! Error taxonomy: store-level errors and transaction-level errors.

use vstd::prelude::*;

verus! {

/// Errors returned by the store's own operations.
#[derive(Clone, Copy, Debug, PartialEq, Eq, Structural)]
pub enum DatabaseErrors {
    /// The key lies outside the valid range `[1, next_key)`.
    InvalidKeyError,
    /// The key is in range but no record is currently stored under it.
    KeyNotFound,
    /// The key counter is exhausted; the store can accept no further inserts.
    PrimaryKeyIncreaseFailed,
}

/// Errors returned by transaction operations.
#[derive(Clone, Copy, Debug, PartialEq, Eq, Structural)]
pub enum TransactionErrors {
    /// The transaction has left the `New` state; no further operations or
    /// commits are permitted.
    NotNewTransaction,
    /// An operation that the transaction cannot carry out.
    InvalidOperation,
    /// An insert failed during commit; the transaction was rolled back.
    ErrorInInsertingData,
    /// An update failed during commit; the transaction was rolled back.
    ErrorUpdatingTheDatabase,
    /// A delete failed during commit; the transaction was rolled back.
    ErrorInDeletingData,
}

} // verus!
