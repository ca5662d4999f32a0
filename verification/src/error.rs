//! The ways in which a ledger operation can fail.

use vstd::prelude::*;

verus! {

/// Why an operation was refused. A refused operation changes nothing.
#[derive(Debug, Clone, Copy, PartialEq, Eq, Structural)]
pub enum LedgerError {
    /// The artwork or token identifier is already taken.
    AlreadyExists,
    /// The artwork, token or account is not known to the ledger.
    NotFound,
    /// The caller is neither the owner nor a valid delegate.
    Unauthorized,
    /// The request itself is malformed: too many royalty recipients, an
    /// artwork with no shares, or a transfer to oneself.
    InvalidInput,
    /// The stored state does not allow the operation: royalties above the
    /// whole, or an approval counter that cannot advance.
    InvalidState,
    /// The payout would have more recipients than the caller allows.
    PayoutTooLarge,
    /// The attached payment does not cover the storage that would be added.
    InsufficientDeposit,
    /// The ledger has already been initialised.
    AlreadyInitialized,
}

} // verus!
