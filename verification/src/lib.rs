//! An in-memory payments ledger: accounts keyed by name, deposits,
//! withdrawals, transfers, freezing, an audit trail of transactions and
//! atomic batches.
//!
//! `easy` is the basic ledger, `hard` the audited one with withdrawals,
//! transaction identifiers, history and batches. Both keep their accounts
//! in the table of `accounts`.
pub mod accounts;
pub mod easy;
pub mod hard;
