//! The log-chain state machine: registration, chained appends, batch
//! anchoring, verification queries, and deactivation.
//!
//! [`LogChainState`] plays the role of the keyed record store: one
//! record per registered server, keyed by its `server_id`.  Every
//! operation checks all of its preconditions before mutating anything,
//! so a failing call leaves the state unchanged.

use crate::errors::LogChainError;
use crate::hashing::bytes_eq;
use crate::hashing::copy_bytes;
use crate::hashing::genesis;
use crate::hashing::genesis_hash;
use crate::hashing::hash_bytes;
use crate::hashing::hash_chained;
use crate::hashing::sha256_of;
use crate::state::AuditTrail;
use crate::state::AuthorityId;
use crate::state::EntryVerified;
use crate::state::LogEntry;
use crate::state::LogEntryAdded;
use crate::state::RootAnchored;
use crate::state::ServerAccount;
use crate::state::ServerRecord;
use crate::state::payload_integrity;
use crate::state::trail_wf;
use vstd::prelude::*;

verus! {

/// The maximum `server_id` length in bytes.
pub const MAX_SERVER_ID_LEN: usize = 32;

/// The maximum `description` length in bytes.
pub const MAX_DESCRIPTION_LEN: usize = 100;

/// The maximum entry payload length in bytes.
pub const MAX_ENTRY_DATA_LEN: usize = 1024;

/// The maximum number of entries one batch may cover.
pub const MAX_LOG_COUNT: u64 = 10000;

/// The minimum collateral a registering caller must demonstrate.
pub const MIN_STAKE: u64 = 100_000_000;

/// All registered servers, each with its chain and live checkpoint.
pub struct LogChainState {
    pub servers: Vec<ServerRecord>,
}

/// What a just-registered record looks like: the given identity, an
/// empty chain at the genesis head, active, and no trail yet.
pub open spec fn fresh_record(
    rec: ServerRecord,
    server_id: Seq<u8>,
    description: Seq<u8>,
    authority: AuthorityId,
    stake: u64,
    now: i64,
) -> bool {
    &&& rec.account.authority == authority
    &&& rec.account.server_id@ == server_id
    &&& rec.account.description@ == description
    &&& rec.account.is_active
    &&& rec.account.registered_at == now
    &&& rec.account.stake == stake
    &&& rec.account.entry_count == 0
    &&& rec.account.last_entry_hash@ == genesis()
    &&& rec.account.last_anchor_slot == 0
    &&& rec.entries@.len() == 0
    &&& rec.trail is None
    &&& rec.payloads@.len() == 0
}

/// Chain integrity over the whole state: every server's stored hashes
/// are reproduced by recomputing the digests from its payload log.
/// Holds of the empty state and is preserved by every operation.
pub open spec fn chain_integrity(s: LogChainState) -> bool {
    forall|i: int| 0 <= i < s.servers@.len() ==> payload_integrity(#[trigger] s.servers@[i])
}

/// The given record with its activity gate closed and everything else
/// untouched.
pub open spec fn deactivated(rec: ServerRecord) -> ServerRecord {
    ServerRecord { account: ServerAccount { is_active: false, ..rec.account }, ..rec }
}

/// In a well-formed state, an index whose record carries `id` is the
/// unique one that the spec-level lookup denotes.
pub proof fn lemma_index_unique(s: LogChainState, id: Seq<u8>, i: int)
    requires
        s.wf(),
        0 <= i < s.servers@.len(),
        s.servers@[i].account.server_id@ == id,
    ensures
        s.has_server(id),
        s.index_of(id) == i,
        s.server_at(id) == s.servers@[i],
{
    assert(s.has_server(id));
    let j = s.index_of(id);
    assert(0 <= j < s.servers@.len() && s.servers@[j].account.server_id@ == id);
    if i != j {
        if i < j {
            assert(s.servers@[i].account.server_id@ != s.servers@[j].account.server_id@);
        } else {
            assert(s.servers@[j].account.server_id@ != s.servers@[i].account.server_id@);
        }
    }
}

/// What the entry appended to `rec` (the record as it stood before the
/// append) looks like: it sits at the old `entry_count`, links to the
/// old chain head, and carries the chained and content digests of the
/// payload.
pub open spec fn appended_entry(rec: ServerRecord, entry_data: Seq<u8>, now: i64, e: LogEntry) -> bool {
    &&& e.server@ == rec.account.server_id@
    &&& e.entry_index == rec.account.entry_count
    &&& e.timestamp == now
    &&& e.previous_hash@ == rec.account.last_entry_hash@
    &&& e.entry_hash@ == sha256_of(rec.account.last_entry_hash@ + entry_data)
    &&& e.data_hash@ == sha256_of(entry_data)
}

/// Deactivation is irreversible: a server inactive before an operation
/// is still there, under the same id, and still inactive after it.
pub open spec fn inactive_preserved(pre: LogChainState, post: LogChainState) -> bool {
    &&& post.servers@.len() >= pre.servers@.len()
    &&& forall|i: int|
        0 <= i < pre.servers@.len() && !(#[trigger] pre.servers@[i]).account.is_active
            ==> post.servers@[i].account.server_id@ == pre.servers@[i].account.server_id@
            && !post.servers@[i].account.is_active
}

impl LogChainState {
    /// Well-formedness: every record is well-formed and server ids are
    /// unique.
    pub open spec fn wf(self) -> bool {
        &&& forall|i: int| 0 <= i < self.servers@.len() ==> (#[trigger] self.servers@[i]).wf()
        &&& forall|i: int, j: int|
            0 <= i < j < self.servers@.len()
                ==> (#[trigger] self.servers@[i]).account.server_id@ != (
            #[trigger] self.servers@[j]).account.server_id@
    }

    /// Whether a server with the given id is registered.
    pub open spec fn has_server(self, id: Seq<u8>) -> bool {
        exists|i: int|
            0 <= i < self.servers@.len() && (#[trigger] self.servers@[i]).account.server_id@ == id
    }

    /// The index of the server with the given id (meaningful only when
    /// `has_server(id)` holds; unique by well-formedness).
    pub open spec fn index_of(self, id: Seq<u8>) -> int {
        choose|i: int|
            0 <= i < self.servers@.len() && (#[trigger] self.servers@[i]).account.server_id@ == id
    }

    /// The record of the server with the given id.
    pub open spec fn server_at(self, id: Seq<u8>) -> ServerRecord {
        self.servers@[self.index_of(id)]
    }

    /// The entry count of the server with the given id, or 0 when no
    /// such server exists.
    pub open spec fn entry_count_of(self, id: Seq<u8>) -> u64 {
        if self.has_server(id) {
            self.server_at(id).account.entry_count
        } else {
            0
        }
    }

    /// The batch id the next anchor for this server must present, or 0
    /// when no such server exists.
    pub open spec fn next_batch_id_of(self, id: Seq<u8>) -> u64 {
        if self.has_server(id) {
            self.server_at(id).next_batch_id()
        } else {
            0
        }
    }

    /// An empty state: no servers registered.
    pub fn new() -> (s: Self)
        ensures
            s.wf(),
            chain_integrity(s),
            s.servers@.len() == 0,
            forall|id: Seq<u8>| !s.has_server(id),
    {
        LogChainState { servers: Vec::new() }
    }

    /// How `register_server` decides: the first failing check, or
    /// `None` when the registration must succeed.
    pub open spec fn register_outcome(
        self,
        server_id: Seq<u8>,
        description: Seq<u8>,
        stake: u64,
    ) -> Option<LogChainError> {
        if server_id.len() > MAX_SERVER_ID_LEN {
            Some(LogChainError::ServerIdTooLong)
        } else if description.len() > MAX_DESCRIPTION_LEN {
            Some(LogChainError::DescriptionTooLong)
        } else if stake < MIN_STAKE {
            Some(LogChainError::InsufficientStake)
        } else if self.has_server(server_id) {
            Some(LogChainError::AlreadyRegistered)
        } else {
            None
        }
    }

    /// How `deactivate_server` decides: the first failing check, or
    /// `None` when the deactivation must succeed.
    pub open spec fn deactivate_outcome(
        self,
        server_id: Seq<u8>,
        authority: AuthorityId,
    ) -> Option<LogChainError> {
        if !self.has_server(server_id) {
            Some(LogChainError::ServerNotFound)
        } else if self.server_at(server_id).account.authority != authority {
            Some(LogChainError::Unauthorized)
        } else if !self.server_at(server_id).account.is_active {
            Some(LogChainError::AlreadyInactive)
        } else {
            None
        }
    }

    /// Registers a new server keyed by `server_id`, with an empty chain
    /// whose head is the genesis value.  Rejects oversized identifiers,
    /// insufficient stake, and an already-taken id, in that order,
    /// without touching the state.
    pub fn register_server(
        &mut self,
        server_id: Vec<u8>,
        description: Vec<u8>,
        authority: AuthorityId,
        stake: u64,
        now: i64,
    ) -> (r: Result<(), LogChainError>)
        requires
            old(self).wf(),
        ensures
            final(self).wf(),
            inactive_preserved(*old(self), *final(self)),
            chain_integrity(*old(self)) ==> chain_integrity(*final(self)),
            (match old(self).register_outcome(server_id@, description@, stake) {
                Some(e) => r == Err::<(), LogChainError>(e) && *final(self) == *old(self),
                None => {
                    &&& r == Ok::<(), LogChainError>(())
                    &&& final(self).servers@.len() == old(self).servers@.len() + 1
                    &&& (forall|j: int|
                        0 <= j < old(self).servers@.len() ==> final(self).servers@[j] == old(
                            self,
                        ).servers@[j])
                    &&& fresh_record(
                        final(self).servers@.last(),
                        server_id@,
                        description@,
                        authority,
                        stake,
                        now,
                    )
                    &&& final(self).has_server(server_id@)
                    &&& final(self).index_of(server_id@) == old(self).servers@.len()
                    &&& final(self).server_at(server_id@) == final(self).servers@.last()
                },
            }),
    {
        if server_id.len() > MAX_SERVER_ID_LEN {
            return Err(LogChainError::ServerIdTooLong);
        }
        if description.len() > MAX_DESCRIPTION_LEN {
            return Err(LogChainError::DescriptionTooLong);
        }
        if stake < MIN_STAKE {
            return Err(LogChainError::InsufficientStake);
        }
        match self.find_server(server_id.as_slice()) {
            Some(_) => {
                return Err(LogChainError::AlreadyRegistered);
            },
            None => {},
        }
        let account = ServerAccount {
            authority,
            server_id,
            description,
            is_active: true,
            registered_at: now,
            stake,
            entry_count: 0,
            last_entry_hash: genesis_hash(),
            last_anchor_slot: 0,
        };
        let rec = ServerRecord {
            account,
            entries: Vec::new(),
            trail: None,
            payloads: Ghost(Seq::empty()),
        };
        self.servers.push(rec);
        proof {
            let olds = old(self).servers@;
            let news = self.servers@;
            assert(news.last().account.server_id@ == server_id@);
            assert forall|i: int, j: int|
                0 <= i < j < news.len() implies (#[trigger] news[i]).account.server_id@ != (
            #[trigger] news[j]).account.server_id@ by {
                if j < olds.len() {
                    assert(olds[i].account.server_id@ != olds[j].account.server_id@);
                } else {
                    assert(olds[i].account.server_id@ != server_id@);
                }
            }
            lemma_index_unique(*self, server_id@, olds.len() as int);
            if chain_integrity(*old(self)) {
                assert forall|i: int| 0 <= i < news.len() implies payload_integrity(
                    #[trigger] news[i],
                ) by {
                    if i < olds.len() {
                        assert(payload_integrity(olds[i]));
                    }
                }
            }
        }
        Ok(())
    }

    /// Marks the server inactive, which makes every later append,
    /// anchor and deactivation fail.  Rejects an unknown id, a
    /// mismatched authority, and a server that is already inactive, in
    /// that order, without touching the state.  Irreversible: nothing
    /// sets a server active again.
    pub fn deactivate_server(&mut self, server_id: &[u8], authority: AuthorityId) -> (r: Result<
        (),
        LogChainError,
    >)
        requires
            old(self).wf(),
        ensures
            final(self).wf(),
            inactive_preserved(*old(self), *final(self)),
            chain_integrity(*old(self)) ==> chain_integrity(*final(self)),
            (match old(self).deactivate_outcome(server_id@, authority) {
                Some(e) => r == Err::<(), LogChainError>(e) && *final(self) == *old(self),
                None => {
                    &&& r == Ok::<(), LogChainError>(())
                    &&& final(self).servers@.len() == old(self).servers@.len()
                    &&& (forall|j: int|
                        0 <= j < old(self).servers@.len() && j != old(self).index_of(server_id@)
                            ==> final(self).servers@[j] == old(self).servers@[j])
                    &&& final(self).has_server(server_id@)
                    &&& final(self).server_at(server_id@) == deactivated(
                        old(self).server_at(server_id@),
                    )
                },
            }),
    {
        let k = match self.find_server(server_id) {
            None => {
                return Err(LogChainError::ServerNotFound);
            },
            Some(k) => k,
        };
        if self.servers[k].account.authority.value != authority.value {
            return Err(LogChainError::Unauthorized);
        }
        if !self.servers[k].account.is_active {
            return Err(LogChainError::AlreadyInactive);
        }
        self.servers[k].account.is_active = false;
        proof {
            let pre = *old(self);
            let post = *self;
            assert(post.servers@[k as int] == deactivated(pre.servers@[k as int]));
            assert forall|i: int| 0 <= i < post.servers@.len() implies (
            #[trigger] post.servers@[i]).wf() by {
                assert(pre.servers@[i].wf());
            }
            assert forall|i: int, j: int|
                0 <= i < j < post.servers@.len() implies (
            #[trigger] post.servers@[i]).account.server_id@ != (
            #[trigger] post.servers@[j]).account.server_id@ by {
                assert(pre.servers@[i].account.server_id@ != pre.servers@[j].account.server_id@);
            }
            lemma_index_unique(post, server_id@, k as int);
            if chain_integrity(pre) {
                assert forall|i: int| 0 <= i < post.servers@.len() implies payload_integrity(
                    #[trigger] post.servers@[i],
                ) by {
                    assert(payload_integrity(pre.servers@[i]));
                }
            }
        }
        Ok(())
    }

    /// How `add_log_entry` decides: the first failing check, or `None`
    /// when the append must succeed.
    pub open spec fn append_outcome(
        self,
        server_id: Seq<u8>,
        entry_data: Seq<u8>,
        authority: AuthorityId,
    ) -> Option<LogChainError> {
        if !self.has_server(server_id) {
            Some(LogChainError::ServerNotFound)
        } else if !self.server_at(server_id).account.is_active {
            Some(LogChainError::ServerInactive)
        } else if self.server_at(server_id).account.authority != authority {
            Some(LogChainError::Unauthorized)
        } else if entry_data.len() > MAX_ENTRY_DATA_LEN {
            Some(LogChainError::EntryTooLarge)
        } else {
            None
        }
    }

    /// How `anchor_batch` decides: the first failing check, or `None`
    /// when the anchor must succeed.
    pub open spec fn anchor_outcome(
        self,
        server_id: Seq<u8>,
        batch_id: u64,
        log_count: u64,
        authority: AuthorityId,
    ) -> Option<LogChainError> {
        if !self.has_server(server_id) {
            Some(LogChainError::ServerNotFound)
        } else if !self.server_at(server_id).account.is_active {
            Some(LogChainError::ServerInactive)
        } else if self.server_at(server_id).account.authority != authority {
            Some(LogChainError::Unauthorized)
        } else if batch_id != self.server_at(server_id).next_batch_id() {
            Some(LogChainError::InvalidBatchSequence)
        } else if log_count == 0 || log_count > MAX_LOG_COUNT {
            Some(LogChainError::InvalidLogCount)
        } else if self.server_at(server_id).account.entry_count < self.server_at(
            server_id,
        ).entries_anchored() + log_count {
            Some(LogChainError::InsufficientEntries)
        } else {
            None
        }
    }

    /// Appends one entry to the server's chain.  On success the new
    /// entry commits, through its chained hash, to the whole chain
    /// before it: its `previous_hash` is the old chain head, its
    /// `entry_hash` the digest of that head followed by the payload,
    /// and the server's head and count advance accordingly.
    pub fn add_log_entry(
        &mut self,
        server_id: &[u8],
        entry_data: Vec<u8>,
        authority: AuthorityId,
        now: i64,
    ) -> (r: Result<LogEntryAdded, LogChainError>)
        requires
            old(self).wf(),
            old(self).entry_count_of(server_id@) < u64::MAX,
        ensures
            final(self).wf(),
            inactive_preserved(*old(self), *final(self)),
            chain_integrity(*old(self)) ==> chain_integrity(*final(self)),
            (match old(self).append_outcome(server_id@, entry_data@, authority) {
                Some(e) => r == Err::<LogEntryAdded, LogChainError>(e) && *final(self) == *old(
                    self,
                ),
                None => {
                    let pre_rec = old(self).server_at(server_id@);
                    let post_rec = final(self).server_at(server_id@);
                    &&& final(self).servers@.len() == old(self).servers@.len()
                    &&& (forall|j: int|
                        0 <= j < old(self).servers@.len() && j != old(self).index_of(server_id@)
                            ==> final(self).servers@[j] == old(self).servers@[j])
                    &&& final(self).has_server(server_id@)
                    &&& final(self).index_of(server_id@) == old(self).index_of(server_id@)
                    &&& post_rec.account.authority == pre_rec.account.authority
                    &&& post_rec.account.server_id@ == pre_rec.account.server_id@
                    &&& post_rec.account.description@ == pre_rec.account.description@
                    &&& post_rec.account.is_active == pre_rec.account.is_active
                    &&& post_rec.account.registered_at == pre_rec.account.registered_at
                    &&& post_rec.account.stake == pre_rec.account.stake
                    &&& post_rec.account.last_anchor_slot == pre_rec.account.last_anchor_slot
                    &&& post_rec.account.entry_count == pre_rec.account.entry_count + 1
                    &&& post_rec.account.last_entry_hash@ == sha256_of(
                        pre_rec.account.last_entry_hash@ + entry_data@,
                    )
                    &&& post_rec.trail == pre_rec.trail
                    &&& post_rec.payloads@ == pre_rec.payloads@.push(entry_data@)
                    &&& post_rec.entries@.len() == pre_rec.entries@.len() + 1
                    &&& post_rec.entries@ == pre_rec.entries@.push(post_rec.entries@.last())
                    &&& appended_entry(pre_rec, entry_data@, now, post_rec.entries@.last())
                    &&& (r matches Ok(ev) && ev.server@ == server_id@ && ev.entry_index
                        == pre_rec.account.entry_count && ev.entry_hash@ == sha256_of(
                        pre_rec.account.last_entry_hash@ + entry_data@,
                    ) && ev.timestamp == now)
                },
            }),
    {
        let k = match self.find_server(server_id) {
            None => {
                return Err(LogChainError::ServerNotFound);
            },
            Some(k) => k,
        };
        if !self.servers[k].account.is_active {
            return Err(LogChainError::ServerInactive);
        }
        if self.servers[k].account.authority.value != authority.value {
            return Err(LogChainError::Unauthorized);
        }
        if entry_data.len() > MAX_ENTRY_DATA_LEN {
            return Err(LogChainError::EntryTooLarge);
        }
        let prev = self.servers[k].account.last_entry_hash;
        let entry_hash = hash_chained(&prev, entry_data.as_slice());
        let data_hash = hash_bytes(entry_data.as_slice());
        let index = self.servers[k].account.entry_count;
        let ghost pre_payloads = self.servers@[k as int].payloads@;
        let entry = LogEntry {
            server: copy_bytes(server_id),
            entry_index: index,
            timestamp: now,
            entry_hash,
            previous_hash: prev,
            data_hash,
        };
        self.servers[k].entries.push(entry);
        self.servers[k].account.last_entry_hash = entry_hash;
        self.servers[k].account.entry_count = index + 1;
        self.servers[k].payloads = Ghost(pre_payloads.push(entry_data@));
        proof {
            let pre = *old(self);
            let post = *self;
            let pre_rec = pre.servers@[k as int];
            let post_rec = post.servers@[k as int];
            assert(post_rec.entries@ == pre_rec.entries@.push(post_rec.entries@.last()));
            assert(post_rec.wf()) by {
                assert forall|i: int| 0 <= i < post_rec.entries@.len() implies (
                #[trigger] post_rec.entries@[i]).entry_index == i by {
                    if i < pre_rec.entries@.len() {
                        assert(pre_rec.entries@[i].entry_index == i);
                    }
                }
                assert forall|i: int| 0 <= i < post_rec.entries@.len() implies (
                #[trigger] post_rec.entries@[i]).server@ == post_rec.account.server_id@ by {
                    if i < pre_rec.entries@.len() {
                        assert(pre_rec.entries@[i].server@ == pre_rec.account.server_id@);
                    }
                }
                assert forall|i: int| 1 <= i < post_rec.entries@.len() implies (
                #[trigger] post_rec.entries@[i]).previous_hash@ == post_rec.entries@[i
                    - 1].entry_hash@ by {
                    if i < pre_rec.entries@.len() {
                        assert(pre_rec.entries@[i].previous_hash@ == pre_rec.entries@[i
                            - 1].entry_hash@);
                    }
                }
            }
            assert forall|i: int| 0 <= i < post.servers@.len() implies (
            #[trigger] post.servers@[i]).wf() by {
                if i != k as int {
                    assert(pre.servers@[i].wf());
                }
            }
            assert forall|i: int, j: int|
                0 <= i < j < post.servers@.len() implies (
            #[trigger] post.servers@[i]).account.server_id@ != (
            #[trigger] post.servers@[j]).account.server_id@ by {
                assert(pre.servers@[i].account.server_id@ != pre.servers@[j].account.server_id@);
            }
            lemma_index_unique(post, server_id@, k as int);
            if chain_integrity(pre) {
                assert forall|i: int| 0 <= i < post.servers@.len() implies payload_integrity(
                    #[trigger] post.servers@[i],
                ) by {
                    assert(payload_integrity(pre.servers@[i]));
                    if i == k as int {
                        assert forall|j: int| 0 <= j < post_rec.entries@.len() implies (
                        #[trigger] post_rec.entries@[j]).entry_hash@ == sha256_of(
                            post_rec.entries@[j].previous_hash@ + post_rec.payloads@[j],
                        ) && post_rec.entries@[j].data_hash@ == sha256_of(
                            post_rec.payloads@[j],
                        ) by {
                            if j < pre_rec.entries@.len() {
                                assert(pre_rec.entries@[j].entry_hash@ == sha256_of(
                                    pre_rec.entries@[j].previous_hash@ + pre_rec.payloads@[j],
                                ));
                                assert(pre_rec.entries@[j].data_hash@ == sha256_of(
                                    pre_rec.payloads@[j],
                                ));
                            }
                        }
                    }
                }
            }
        }
        Ok(LogEntryAdded {
            server: copy_bytes(server_id),
            entry_index: index,
            entry_hash,
            timestamp: now,
        })
    }

    /// Commits a checkpoint for the server: snapshots the current chain
    /// head as `root_hash`, records the count of newly covered entries,
    /// and advances the strictly sequential batch counter.  The server
    /// account itself is read, never written.
    pub fn anchor_batch(
        &mut self,
        server_id: &[u8],
        batch_id: u64,
        log_count: u64,
        authority: AuthorityId,
        now: i64,
        slot: u64,
    ) -> (r: Result<RootAnchored, LogChainError>)
        requires
            old(self).wf(),
            old(self).next_batch_id_of(server_id@) < u64::MAX,
        ensures
            final(self).wf(),
            inactive_preserved(*old(self), *final(self)),
            chain_integrity(*old(self)) ==> chain_integrity(*final(self)),
            (match old(self).anchor_outcome(server_id@, batch_id, log_count, authority) {
                Some(e) => r == Err::<RootAnchored, LogChainError>(e) && *final(self) == *old(
                    self,
                ),
                None => {
                    let pre_rec = old(self).server_at(server_id@);
                    let post_rec = final(self).server_at(server_id@);
                    &&& final(self).servers@.len() == old(self).servers@.len()
                    &&& (forall|j: int|
                        0 <= j < old(self).servers@.len() && j != old(self).index_of(server_id@)
                            ==> final(self).servers@[j] == old(self).servers@[j])
                    &&& final(self).has_server(server_id@)
                    &&& final(self).index_of(server_id@) == old(self).index_of(server_id@)
                    &&& post_rec.account == pre_rec.account
                    &&& post_rec.entries == pre_rec.entries
                    &&& post_rec.payloads == pre_rec.payloads
                    &&& (post_rec.trail matches Some(t) && {
                        &&& t.server@ == server_id@
                        &&& t.batch_id == batch_id
                        &&& t.next_batch_id == batch_id + 1
                        &&& t.root_hash@ == pre_rec.account.last_entry_hash@
                        &&& t.entries_in_batch == log_count
                        &&& t.entries_anchored == pre_rec.entries_anchored() + log_count
                        &&& t.timestamp == now
                        &&& t.authority == authority
                        &&& t.anchor_slot == slot
                    })
                    &&& (r matches Ok(ev) && ev.server@ == server_id@ && ev.batch_id == batch_id
                        && ev.root_hash@ == pre_rec.account.last_entry_hash@ && ev.entries_in_batch
                        == log_count && ev.entries_anchored == pre_rec.entries_anchored()
                        + log_count && ev.timestamp == now)
                },
            }),
    {
        let k = match self.find_server(server_id) {
            None => {
                return Err(LogChainError::ServerNotFound);
            },
            Some(k) => k,
        };
        if !self.servers[k].account.is_active {
            return Err(LogChainError::ServerInactive);
        }
        if self.servers[k].account.authority.value != authority.value {
            return Err(LogChainError::Unauthorized);
        }
        let next = match &self.servers[k].trail {
            Some(t) => t.next_batch_id,
            None => 0,
        };
        if batch_id != next {
            return Err(LogChainError::InvalidBatchSequence);
        }
        if log_count == 0 || log_count > MAX_LOG_COUNT {
            return Err(LogChainError::InvalidLogCount);
        }
        let anchored = match &self.servers[k].trail {
            Some(t) => t.entries_anchored,
            None => 0,
        };
        let count = self.servers[k].account.entry_count;
        proof {
            assert(self.servers@[k as int].wf());
        }
        if count - anchored < log_count {
            return Err(LogChainError::InsufficientEntries);
        }
        let head = self.servers[k].account.last_entry_hash;
        let trail = AuditTrail {
            server: copy_bytes(server_id),
            batch_id,
            next_batch_id: batch_id + 1,
            root_hash: head,
            entries_in_batch: log_count,
            entries_anchored: anchored + log_count,
            timestamp: now,
            authority,
            anchor_slot: slot,
        };
        self.servers[k].trail = Some(trail);
        proof {
            let pre = *old(self);
            let post = *self;
            assert forall|i: int| 0 <= i < post.servers@.len() implies (
            #[trigger] post.servers@[i]).wf() by {
                if i != k as int {
                    assert(pre.servers@[i].wf());
                } else {
                    assert(pre.servers@[i].wf());
                    assert(trail_wf(post.servers@[i].trail->Some_0, post.servers@[i].account));
                }
            }
            assert forall|i: int, j: int|
                0 <= i < j < post.servers@.len() implies (
            #[trigger] post.servers@[i]).account.server_id@ != (
            #[trigger] post.servers@[j]).account.server_id@ by {
                assert(pre.servers@[i].account.server_id@ != pre.servers@[j].account.server_id@);
            }
            lemma_index_unique(post, server_id@, k as int);
            if chain_integrity(pre) {
                assert forall|i: int| 0 <= i < post.servers@.len() implies payload_integrity(
                    #[trigger] post.servers@[i],
                ) by {
                    assert(payload_integrity(pre.servers@[i]));
                }
            }
        }
        Ok(RootAnchored {
            server: copy_bytes(server_id),
            batch_id,
            root_hash: head,
            entries_in_batch: log_count,
            entries_anchored: anchored + log_count,
            timestamp: now,
        })
    }

    /// How `verify_entry` decides: the first failing check, or `None`
    /// when the query must succeed.
    pub open spec fn verify_outcome(self, server_id: Seq<u8>, entry_server: Seq<u8>) -> Option<
        LogChainError,
    > {
        if !self.has_server(server_id) {
            Some(LogChainError::ServerNotFound)
        } else if entry_server != server_id {
            Some(LogChainError::EntryServerMismatch)
        } else if !self.server_at(server_id).account.is_active {
            Some(LogChainError::ServerInactive)
        } else {
            None
        }
    }

    /// How `close_trail` decides: the first failing check, or `None`
    /// when the close must succeed.
    pub open spec fn close_outcome(self, server_id: Seq<u8>, authority: AuthorityId) -> Option<
        LogChainError,
    > {
        if !self.has_server(server_id) {
            Some(LogChainError::ServerNotFound)
        } else {
            match self.server_at(server_id).trail {
                None => Some(LogChainError::TrailNotFound),
                Some(t) => if t.authority != authority {
                    Some(LogChainError::Unauthorized)
                } else {
                    None
                },
            }
        }
    }

    /// Confirms that a stored entry is consistent with its server's
    /// current state: the entry belongs to the named server and the
    /// server is still active.  Read-only: no cryptographic
    /// recomputation of the chain is performed.
    pub fn verify_entry(&self, entry: &LogEntry, server_id: &[u8], now: i64) -> (r: Result<
        EntryVerified,
        LogChainError,
    >)
        requires
            self.wf(),
        ensures
            (match self.verify_outcome(server_id@, entry.server@) {
                Some(e) => r == Err::<EntryVerified, LogChainError>(e),
                None => (r matches Ok(ev) && ev.server@ == server_id@ && ev.entry_index
                    == entry.entry_index && ev.entry_hash == entry.entry_hash && ev.verified_at
                    == now),
            }),
    {
        let k = match self.find_server(server_id) {
            None => {
                return Err(LogChainError::ServerNotFound);
            },
            Some(k) => k,
        };
        if !bytes_eq(entry.server.as_slice(), server_id) {
            return Err(LogChainError::EntryServerMismatch);
        }
        if !self.servers[k].account.is_active {
            return Err(LogChainError::ServerInactive);
        }
        Ok(EntryVerified {
            server: copy_bytes(server_id),
            entry_index: entry.entry_index,
            entry_hash: entry.entry_hash,
            verified_at: now,
        })
    }

    /// Reclaims the server's live checkpoint record.  Only the trail's
    /// recorded authority may close it; the server account and the
    /// chain itself are untouched.
    pub fn close_trail(&mut self, server_id: &[u8], authority: AuthorityId) -> (r: Result<
        (),
        LogChainError,
    >)
        requires
            old(self).wf(),
        ensures
            final(self).wf(),
            inactive_preserved(*old(self), *final(self)),
            chain_integrity(*old(self)) ==> chain_integrity(*final(self)),
            (match old(self).close_outcome(server_id@, authority) {
                Some(e) => r == Err::<(), LogChainError>(e) && *final(self) == *old(self),
                None => {
                    let pre_rec = old(self).server_at(server_id@);
                    let post_rec = final(self).server_at(server_id@);
                    &&& r == Ok::<(), LogChainError>(())
                    &&& final(self).servers@.len() == old(self).servers@.len()
                    &&& (forall|j: int|
                        0 <= j < old(self).servers@.len() && j != old(self).index_of(server_id@)
                            ==> final(self).servers@[j] == old(self).servers@[j])
                    &&& final(self).has_server(server_id@)
                    &&& final(self).index_of(server_id@) == old(self).index_of(server_id@)
                    &&& post_rec.account == pre_rec.account
                    &&& post_rec.entries == pre_rec.entries
                    &&& post_rec.payloads == pre_rec.payloads
                    &&& post_rec.trail is None
                },
            }),
    {
        let k = match self.find_server(server_id) {
            None => {
                return Err(LogChainError::ServerNotFound);
            },
            Some(k) => k,
        };
        let trail_authority = match &self.servers[k].trail {
            None => {
                return Err(LogChainError::TrailNotFound);
            },
            Some(t) => t.authority,
        };
        if trail_authority.value != authority.value {
            return Err(LogChainError::Unauthorized);
        }
        self.servers[k].trail = None;
        proof {
            let pre = *old(self);
            let post = *self;
            assert forall|i: int| 0 <= i < post.servers@.len() implies (
            #[trigger] post.servers@[i]).wf() by {
                assert(pre.servers@[i].wf());
            }
            assert forall|i: int, j: int|
                0 <= i < j < post.servers@.len() implies (
            #[trigger] post.servers@[i]).account.server_id@ != (
            #[trigger] post.servers@[j]).account.server_id@ by {
                assert(pre.servers@[i].account.server_id@ != pre.servers@[j].account.server_id@);
            }
            lemma_index_unique(post, server_id@, k as int);
            if chain_integrity(pre) {
                assert forall|i: int| 0 <= i < post.servers@.len() implies payload_integrity(
                    #[trigger] post.servers@[i],
                ) by {
                    assert(payload_integrity(pre.servers@[i]));
                }
            }
        }
        Ok(())
    }

    /// The number of registered servers.
    pub fn server_count(&self) -> (n: usize)
        ensures
            n == self.servers@.len(),
    {
        self.servers.len()
    }

    /// The account of the server with the given id, if one exists.
    pub fn get_server(&self, server_id: &[u8]) -> (r: Option<&ServerAccount>)
        requires
            self.wf(),
        ensures
            (r matches Some(a) ==> self.has_server(server_id@) && *a == self.server_at(
                server_id@,
            ).account),
            (r is None ==> !self.has_server(server_id@)),
    {
        match self.find_server(server_id) {
            Some(k) => Some(&self.servers[k].account),
            None => None,
        }
    }

    /// The entry at `index` of the server's chain, if both exist.
    #[verifier::rlimit(50)]
    pub fn get_entry(&self, server_id: &[u8], index: u64) -> (r: Option<&LogEntry>)
        requires
            self.wf(),
        ensures
            (r matches Some(e) ==> self.has_server(server_id@) && index < self.server_at(
                server_id@,
            ).entries@.len() && *e == self.server_at(server_id@).entries@[index as int]),
            (r is None ==> !self.has_server(server_id@) || index >= self.entry_count_of(
                server_id@,
            )),
    {
        match self.find_server(server_id) {
            Some(k) => {
                proof {
                    assert(self.servers@[k as int].wf());
                    assert(self.servers@[k as int].entries.len() == self.servers@[
                        k as int].entries@.len());
                    assert(self.server_at(server_id@) == self.servers@[k as int]);
                }
                if index < self.servers[k].account.entry_count {
                    Some(&self.servers[k].entries[index as usize])
                } else {
                    None
                }
            },
            None => None,
        }
    }

    /// The live checkpoint of the server, if one exists.
    pub fn get_trail(&self, server_id: &[u8]) -> (r: Option<&AuditTrail>)
        requires
            self.wf(),
        ensures
            (r matches Some(t) ==> self.has_server(server_id@) && self.server_at(server_id@).trail
                == Some(*t)),
            (r is None ==> !self.has_server(server_id@) || self.server_at(server_id@).trail
                is None),
    {
        match self.find_server(server_id) {
            Some(k) => {
                match &self.servers[k].trail {
                    Some(t) => Some(t),
                    None => None,
                }
            },
            None => None,
        }
    }

    /// Looks a server up by id: `Some(i)` exactly when a record with
    /// that id exists, at the (unique) index `i`.
    fn find_server(&self, server_id: &[u8]) -> (r: Option<usize>)
        requires
            self.wf(),
        ensures
            (r matches Some(i) ==> 0 <= i < self.servers@.len()
                && self.servers@[i as int].account.server_id@ == server_id@ && self.has_server(
                server_id@,
            ) && self.index_of(server_id@) == i),
            (r is None ==> !self.has_server(server_id@)),
    {
        let n = self.servers.len();
        let mut k: usize = 0;
        while k < n
            invariant
                self.wf(),
                n == self.servers@.len(),
                k <= n,
                forall|j: int|
                    0 <= j < k ==> (#[trigger] self.servers@[j]).account.server_id@ != server_id@,
            decreases n - k,
        {
            if bytes_eq(self.servers[k].account.server_id.as_slice(), server_id) {
                proof {
                    let i = self.index_of(server_id@);
                    assert(self.servers@[k as int].account.server_id@ == server_id@);
                    assert(0 <= i < self.servers@.len()
                        && self.servers@[i].account.server_id@ == server_id@);
                    if i != k as int {
                        assert(self.servers@[i].account.server_id@ != self.servers@[
                            k as int].account.server_id@);
                    }
                }
                return Some(k);
            }
            k += 1;
        }
        None
    }
}

} // verus!
