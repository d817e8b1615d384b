//! The ways in which a ledger operation fails.

use vstd::prelude::*;

verus! {

/// Why a transfer was refused.
#[derive(Clone, Copy, Debug, PartialEq, Eq, Structural)]
pub enum Error {
    /// The caller holds less than the amount to be moved.
    InsufficientBalance,
}

} // verus!
