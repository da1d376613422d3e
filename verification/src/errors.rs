//! Failure reasons reported by the ledger operations.
//!
//! Every failure is fatal to the invoking operation: an operation that
//! returns an error leaves the ledger exactly as it found it.

use vstd::prelude::*;

verus! {

/// Failure reasons of the fungible ledger.
#[derive(Clone, Copy, Debug, PartialEq, Eq)]
pub enum FungibleTokenError {
    /// The account from which tokens are to be transferred holds fewer
    /// tokens than requested.
    InsufficientBalance,
    /// The spender's allowance is smaller than the requested amount.
    InsufficientAllowance,
    /// An invalid expiry ledger was supplied when setting an allowance.
    InvalidLiveUntilLedger,
    /// An input that must be non-negative was negative.
    LessThanZero,
    /// Adding two values overflowed.
    MathOverflow,
    /// The token metadata was read before being set.
    UnsetMetadata,
    /// The operation would have raised the total supply above the cap.
    ExceededCap,
    /// The supplied cap is not a valid cap value.
    InvalidCap,
    /// The cap was read before being set.
    CapNotSet,
}

/// Failure reasons of the non-fungible ledgers.
#[derive(Clone, Copy, Debug, PartialEq, Eq)]
pub enum NonFungibleTokenError {
    /// The queried token does not exist (never minted, or burned).
    NonExistentToken,
    /// The claimed owner does not own the token.
    IncorrectOwner,
    /// The spender has neither a live per-token approval nor a live
    /// operator approval for the token's owner.
    InsufficientApproval,
    /// The approver is neither the token's owner nor a live operator.
    InvalidApprover,
    /// An invalid expiry ledger was supplied when setting an approval.
    InvalidLiveUntilLedger,
    /// Adding two values overflowed.
    MathOverflow,
    /// All possible token identifiers are already in use.
    TokenIDsAreDepleted,
    /// A token with the given identifier already exists.
    TokenIDInUse,
    /// The token does not appear in its owner's enumeration list.
    TokenNotFoundInOwnerList,
    /// The token does not appear in the global enumeration list.
    TokenNotFoundInGlobalList,
    /// The collection metadata was read before being set.
    UnsetMetadata,
    /// The base URI is longer than the maximum allowed.
    BaseUriMaxLenExceeded,
}

/// Failure reasons of the upgrade and migration state machine.
#[derive(Clone, Copy, Debug, PartialEq, Eq)]
pub enum UpgradeableError {
    /// Migration was attempted in a state that does not allow it.
    MigrationNotAllowed,
    /// Rollback was attempted in a state that does not allow it.
    RollbackNotAllowed,
}

} // verus!
