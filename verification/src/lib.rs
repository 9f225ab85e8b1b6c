//! A verified ledger snapshot engine for a personal finance tracker.
//!
//! State is a chronological transaction log plus a per-method table of
//! monthly running-balance snapshots, one row per calendar month of the
//! configured span and one terminal all-time row. Adding a transaction
//! propagates its signed per-method delta forward through every snapshot
//! row from its month on; deleting reverses that propagation exactly.
//! All amounts are exact integer cents; balances are queried in O(1)
//! from the materialized rows.

pub mod dates;
pub mod errors;
pub mod laws;
pub mod ledger;
pub mod money;
