//! Error kinds returned by the core operations.
//!
//! Every component returns structured failures; rendering them for a
//! user or a log belongs to the callers outside this crate.

use vstd::prelude::*;

verus! {

/// Failure of a lock or unlock attempt on the shared account.
#[derive(Clone, Copy, Debug, PartialEq, Eq, Structural)]
pub enum LockError {
    /// The caller already holds the lock.
    AlreadyLocked,
    /// Another user holds the lock and no reservation entitles the caller.
    HeldByOther,
    /// A reservation owned by another user pre-empts the account.
    AccountReserved,
    /// Unlock was requested while nobody holds the lock.
    NotLocked,
}

/// Failure of a buy or sell request against the transaction ledger.
#[derive(Clone, Copy, Debug, PartialEq, Eq, Structural)]
pub enum TradeError {
    /// The caller does not hold the account lock.
    NotClockedIn,
    /// The current transaction's state forbids the request:
    /// buying while the buy leg is settled or an order is outstanding,
    /// or selling while the buy leg is not settled.
    ActiveTransaction,
}

/// Failure of a configuration store lookup or update.
#[derive(Clone, Copy, Debug, PartialEq, Eq, Structural)]
pub enum ConfigError {
    /// No entry exists for the requested section and key.
    MissingEntry,
    /// The supplied value does not parse as the entry's declared type.
    TypeMismatch,
}

} // verus!
