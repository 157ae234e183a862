//! The ways in which a request can fail.

use vstd::prelude::*;

verus! {

/// Why a request was turned down.
#[derive(Clone, Copy, Debug, PartialEq, Eq, Structural)]
pub enum ContractError {
    /// No viewing key is on record for the account, or the one presented is
    /// not the one on record. The caller is not told which.
    Unauthorized,
    /// The viewing key was right, but the caller asked for the messages of
    /// an account other than its own.
    PermissionDenied,
    /// A log has no entry at the position asked for.
    NotFound,
    /// The store holds a record that cannot be read back, or cannot take
    /// another one.
    StorageFault,
    /// An address has no canonical form that can name an account.
    InvalidAddress,
}

} // verus!
