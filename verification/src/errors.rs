//! Error taxonomy of the ledger engine.
//!
//! Malformed input is rejected before any mutation and reported with the
//! field at fault; unknown transaction ids and dates outside the configured
//! month span are reported by their own variants.

use vstd::prelude::*;

verus! {

/// The input field a validation failure points at.
#[derive(Clone, Copy, Debug, PartialEq, Eq, Structural)]
pub enum FaultField {
    /// The date string is malformed.
    Date,
    /// The method descriptor is malformed or names an unregistered method.
    Method,
    /// The amount string is malformed, non-positive, or not representable.
    Amount,
    /// The transaction kind is not one of Income, Expense, Transfer.
    Kind,
}

/// What a ledger operation can fail with.
#[derive(Clone, Copy, Debug, PartialEq, Eq, Structural)]
pub enum LedgerError {
    /// Malformed input, rejected before any mutation; carries the field at fault.
    Validation(FaultField),
    /// No live transaction carries the requested id.
    NotFound,
    /// The date falls outside the configured span of months, or the span is empty.
    OutOfRange,
}

} // verus!
