//! A time-locked custodial escrow.
//!
//! A depositor locks a quantity of a fungible asset for a named beneficiary;
//! the asset becomes claimable only once a fixed timestamp is reached.  The
//! funds are held in a vault owned by a control address derived
//! deterministically from the agreement's identifying tuple (initializer,
//! beneficiary, asset type, release time), never by a held secret key: the
//! release operation re-derives that address from the stored record and
//! proves its authority structurally.
//!
//! `addr` derives the record storage and control addresses; `ledger` models
//! the persistent store of sub-accounts and records with its well-formedness
//! invariant; `ops` holds the two operations, `initialize` and `release`,
//! with their exact outcome classification and balance effects.

use vstd::prelude::*;

pub mod addr;
pub mod ledger;
pub mod ops;

verus! {

/// Failure modes of the escrow operations. Every precondition violation
/// aborts the whole operation with one of these specific kinds.
#[derive(Clone, Copy, Debug, PartialEq, Eq, Structural)]
pub enum EscrowError {
    /// Duplicate initialization for the same identifying tuple.
    RecordAlreadyExists,
    /// The depositor lacks the amount being locked.
    InsufficientFunds,
    /// A supplied sub-account's asset type disagrees with the record's.
    AssetTypeMismatch,
    /// The vault's control address does not match the derived one.
    UnauthorizedVault,
    /// Release attempted before the stored release time.
    TimelockNotReached,
    /// Address derivation found no usable control address (negligible).
    AddressDerivationExhausted,
}

/// The time gate of the release operation: release is permitted exactly
/// when the current time has reached the stored release time.
pub fn timelock_reached(current_time: i64, release_ts: i64) -> (r: bool)
    ensures
        r == (current_time >= release_ts),
{
    current_time >= release_ts
}

} // verus!
