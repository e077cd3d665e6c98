//! A minimal append-only ledger: transactions are batched into hash-linked
//! blocks, and each accepted block moves account balances and the chain head
//! in one atomic write to a key-value store.
//!
//! The ledger is single-writer: a `Ledger` must be driven by one caller at a
//! time.

pub mod codec;
pub mod transaction;
pub mod block;
pub mod store;
pub mod ledger;
pub mod laws;
