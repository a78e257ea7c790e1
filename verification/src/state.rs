//! The records of the protocol: server identities, chained log entries,
//! checkpoint trails, and the notifications emitted on success.
//!
//! A [`ServerRecord`] bundles one server's identity with its entries and
//! its (at most one) live checkpoint trail; well-formedness is stated on
//! the record itself ([`ServerRecord::wf`]) so that every operation can
//! be shown to preserve it.

use crate::hashing::genesis;
use crate::hashing::sha256_of;
use vstd::prelude::*;

verus! {

/// An opaque, equality-comparable identity token.  The surrounding
/// runtime authenticates callers; the protocol only ever compares these
/// tokens for equality against a stored authority.
#[derive(Clone, Copy, Debug, PartialEq, Eq, Structural)]
pub struct AuthorityId {
    pub value: u64,
}

/// A registered log-producing server: the rolling head of its hash
/// chain and the counters that keep appends contiguous.
pub struct ServerAccount {
    /// The identity permitted to mutate this server's state.
    pub authority: AuthorityId,
    /// Stable external name, at most 32 bytes, immutable after creation.
    pub server_id: Vec<u8>,
    /// Informational, at most 100 bytes.
    pub description: Vec<u8>,
    /// Once false, append, anchor and deactivate are rejected.
    pub is_active: bool,
    /// Registration time, informational.
    pub registered_at: i64,
    /// Collateral recorded at registration.
    pub stake: u64,
    /// Total entries ever appended; increases by exactly 1 per append.
    pub entry_count: u64,
    /// Hash of the most recently appended entry, or the genesis value
    /// before any entry exists.
    pub last_entry_hash: [u8; 32],
    /// Advisory bookkeeping sequence number of the last anchor.
    pub last_anchor_slot: u64,
}

/// One immutable entry of a server's hash chain.
pub struct LogEntry {
    /// The `server_id` of the owning server.
    pub server: Vec<u8>,
    /// Position in the chain: 0-based, contiguous, no gaps.
    pub entry_index: u64,
    /// Creation time, informational.
    pub timestamp: i64,
    /// Chained hash: the digest of `previous_hash` followed by the payload.
    pub entry_hash: [u8; 32],
    /// The server's chain head immediately before this entry was
    /// appended: the prior entry's `entry_hash`, or genesis for index 0.
    pub previous_hash: [u8; 32],
    /// Digest of the raw payload alone.
    pub data_hash: [u8; 32],
}

/// The single live checkpoint of a server: a point-in-time attestation,
/// updated in place on each anchor, not a history of past checkpoints.
pub struct AuditTrail {
    /// The `server_id` of the chain this checkpoint attests.
    pub server: Vec<u8>,
    /// Strictly sequential, starting at 0, no gaps, no reuse.
    pub batch_id: u64,
    /// `batch_id + 1`, cached for the next call's sequence check.
    pub next_batch_id: u64,
    /// Snapshot of the server's chain head at commit time.
    pub root_hash: [u8; 32],
    /// Entries newly covered by this checkpoint.
    pub entries_in_batch: u64,
    /// Cumulative entries covered by all checkpoints; never exceeds the
    /// server's `entry_count`.
    pub entries_anchored: u64,
    /// Commit time, informational.
    pub timestamp: i64,
    /// The identity that committed this checkpoint.
    pub authority: AuthorityId,
    /// Sequence counter at commit time, informational.
    pub anchor_slot: u64,
}

/// Notification of a successful append.
#[derive(Debug, PartialEq, Eq)]
pub struct LogEntryAdded {
    pub server: Vec<u8>,
    pub entry_index: u64,
    pub entry_hash: [u8; 32],
    pub timestamp: i64,
}

/// Notification of a successful anchor.
#[derive(Debug, PartialEq, Eq)]
pub struct RootAnchored {
    pub server: Vec<u8>,
    pub batch_id: u64,
    pub root_hash: [u8; 32],
    pub entries_in_batch: u64,
    pub entries_anchored: u64,
    pub timestamp: i64,
}

/// Attestation of a successful verification query.
#[derive(Debug, PartialEq, Eq)]
pub struct EntryVerified {
    pub server: Vec<u8>,
    pub entry_index: u64,
    pub entry_hash: [u8; 32],
    pub verified_at: i64,
}

/// One server together with its chain and its live checkpoint.
pub struct ServerRecord {
    pub account: ServerAccount,
    /// The entries appended so far, in append order.
    pub entries: Vec<LogEntry>,
    /// The live checkpoint, if one has been anchored and not closed.
    pub trail: Option<AuditTrail>,
    /// Ghost log of the raw payloads, one per entry in append order;
    /// entries only ever store their digests.
    pub payloads: Ghost<Seq<Seq<u8>>>,
}

/// Every stored hash of the record is reproduced by recomputing the
/// digest from the payload that was appended: `entry_hash` is the
/// digest of `previous_hash` followed by the payload, and `data_hash`
/// the digest of the payload alone.
pub open spec fn payload_integrity(rec: ServerRecord) -> bool {
    &&& rec.payloads@.len() == rec.entries@.len()
    &&& forall|i: int|
        0 <= i < rec.entries@.len() ==> (#[trigger] rec.entries@[i]).entry_hash@ == sha256_of(
            rec.entries@[i].previous_hash@ + rec.payloads@[i],
        )
    &&& forall|i: int|
        0 <= i < rec.entries@.len() ==> (#[trigger] rec.entries@[i]).data_hash@ == sha256_of(
            rec.payloads@[i],
        )
}

/// Well-formedness of a live checkpoint against its server's account.
pub open spec fn trail_wf(t: AuditTrail, account: ServerAccount) -> bool {
    &&& t.server@ == account.server_id@
    &&& t.next_batch_id == t.batch_id + 1
    &&& 0 < t.entries_in_batch <= t.entries_anchored
    &&& t.entries_anchored <= account.entry_count
}

impl ServerRecord {
    /// Well-formedness of one server's record: bounded identifiers, a
    /// contiguous 0-based chain whose links match, a chain head that is
    /// the last entry's hash (or genesis), and a consistent trail.
    pub open spec fn wf(self) -> bool {
        &&& self.account.server_id@.len() <= 32
        &&& self.account.description@.len() <= 100
        &&& self.account.entry_count == self.entries@.len()
        &&& forall|i: int|
            0 <= i < self.entries@.len() ==> (#[trigger] self.entries@[i]).entry_index == i
        &&& forall|i: int|
            0 <= i < self.entries@.len()
                ==> (#[trigger] self.entries@[i]).server@ == self.account.server_id@
        &&& forall|i: int|
            1 <= i < self.entries@.len()
                ==> (#[trigger] self.entries@[i]).previous_hash@ == self.entries@[i - 1].entry_hash@
        &&& (self.entries@.len() > 0 ==> self.entries@[0].previous_hash@ == genesis())
        &&& (self.entries@.len() == 0 ==> self.account.last_entry_hash@ == genesis())
        &&& (self.entries@.len() > 0 ==> self.account.last_entry_hash@ == self.entries@[self.entries@.len()
            - 1].entry_hash@)
        &&& (self.trail matches Some(t) ==> trail_wf(t, self.account))
    }

    /// The batch identifier the next anchor call must present: the
    /// trail's cached successor, or 0 when no trail exists yet.
    pub open spec fn next_batch_id(self) -> u64 {
        match self.trail {
            Some(t) => t.next_batch_id,
            None => 0,
        }
    }

    /// Entries already covered by checkpoints: the trail's cumulative
    /// count, or 0 when no trail exists yet.
    pub open spec fn entries_anchored(self) -> u64 {
        match self.trail {
            Some(t) => t.entries_anchored,
            None => 0,
        }
    }
}

} // verus!
