//! An in-memory ledger of per-account balances.
//!
//! The ledger tracks a table from account identifiers to unsigned 64-bit
//! balances and records every successful balance change as an immutable
//! transaction record. Replaying the full sequence of returned records
//! against an empty table reproduces the final balances exactly; failing
//! operations leave the table untouched.

pub mod accounts;
pub mod errors;
pub mod tx;
