//! The closed error taxonomy of the log-chain protocol.
//!
//! Every precondition failure is reported as exactly one of these
//! variants, so callers can branch programmatically; no operation ever
//! downgrades or rewraps another operation's error.

use vstd::prelude::*;

verus! {

/// One variant per root cause, reported before any state is mutated.
#[derive(Clone, Copy, Debug, PartialEq, Eq, Structural)]
pub enum LogChainError {
    /// `server_id` is longer than 32 bytes.
    ServerIdTooLong,
    /// `description` is longer than 100 bytes.
    DescriptionTooLong,
    /// The stake offered at registration is below the required minimum.
    InsufficientStake,
    /// A server with the same `server_id` already exists.
    AlreadyRegistered,
    /// No server with the given `server_id` exists.
    ServerNotFound,
    /// The server has been deactivated; append and anchor are rejected.
    ServerInactive,
    /// The server is already inactive, so deactivation has no effect.
    AlreadyInactive,
    /// `batch_id` does not equal the trail's expected `next_batch_id`.
    InvalidBatchSequence,
    /// `log_count` is zero or above the per-batch maximum.
    InvalidLogCount,
    /// The caller's authority does not match the stored authority.
    Unauthorized,
    /// The entry payload is larger than 1024 bytes.
    EntryTooLarge,
    /// The entry does not belong to the given server.
    EntryServerMismatch,
    /// Fewer entries exist than the batch claims to cover.
    InsufficientEntries,
    /// No checkpoint trail exists for the given server.
    TrailNotFound,
}

} // verus!
