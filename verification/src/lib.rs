//! A minimal in-process key-value store with queued transactions.
//!
//! [`types::Database`] maps auto-assigned integer keys to records and owns the
//! next-key counter; [`types::Transaction`] buffers a FIFO queue of mutating
//! operations and applies them to a `Database` in submission order on commit,
//! abandoning the remainder of the queue on the first failure. Every operation
//! carries a contract over the store's mathematical model, and the library's
//! laws (key assignment, round-trips, idempotent deletes, commutation of
//! key-disjoint operations) are proved in [`laws`].

pub mod errors;
pub mod laws;
pub mod types;
