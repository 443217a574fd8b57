use vstd::prelude::*;

verus! {

/// Errors of the account history: layout checks, region checks, the clock
/// check of a push, authority checks and the close lifecycle.
#[derive(Debug, Clone, Copy, PartialEq, Eq, Structural)]
pub enum AccountHistoryProgramError {
    /// The buffer does not start with the account history tag.
    InvalidAccountTag,
    /// The buffer is too short, or its length or header does not describe a
    /// well-formed history.
    InvalidDataType,
    /// The watched account handed in is not the one the history records.
    NotCorrectAccount,
    /// The data regions are not non-empty, ordered and disjoint, or too many.
    InvalidDataRegions,
    /// The clock has not advanced far enough since the most recent entry.
    NotNewSlot,
    /// The signer is not the update authority.
    NotUpdateAuthority,
    /// The signer is not the close authority.
    NotCloseAuthority,
    /// Closing has started: no further entries are accepted.
    AccountBeingClosed,
    /// The close delay has not elapsed yet.
    CannotCloseYet,
    /// Closing was never initiated.
    CloseNotInitiated,
}

/// Errors of the oracle price history.
#[derive(Debug, Clone, Copy, PartialEq, Eq, Structural)]
pub enum OracleHistoryProgramError {
    /// The oracle account handed in is not the one the history records.
    InvalidOracleAddress,
    /// The oracle account data is not a valid Pyth price account.
    InvalidOracleDataPyth,
    /// The price is not newer than the most recent one.
    NotNewSlot,
    /// The history was already initialized.
    AlreadyInitialized,
}

} // verus!
