//! The protocol's standing guarantees, stated as proof functions over
//! any well-formed state.
//!
//! Together with the operations' own contracts these pin the protocol
//! down: every reachable state keeps each server's chain contiguous and
//! hash-linked, its head equal to the last entry's hash, and its
//! checkpoint within the chain's bounds.  The per-entry hash derivation
//! itself — that `entry_hash` is the digest of `previous_hash` followed
//! by the payload — is the `ensures` of `add_log_entry`.

use crate::chain::LogChainState;
use crate::chain::chain_integrity;
use crate::hashing::genesis;
use crate::hashing::sha256_of;
use vstd::prelude::*;

verus! {

/// Chain integrity, hash derivation: in any reachable state (one built
/// by the operations, which establish and preserve `chain_integrity`),
/// recomputing the digest of `previous_hash` followed by the appended
/// payload reproduces every stored `entry_hash`, and the digest of the
/// payload alone reproduces every stored `data_hash`.
pub proof fn lemma_hash_recomputation(s: LogChainState, id: Seq<u8>, i: int)
    requires
        s.wf(),
        chain_integrity(s),
        s.has_server(id),
        0 <= i < s.server_at(id).entries@.len(),
    ensures
        s.server_at(id).entries@[i].entry_hash@ == sha256_of(
            s.server_at(id).entries@[i].previous_hash@ + s.server_at(id).payloads@[i],
        ),
        s.server_at(id).entries@[i].data_hash@ == sha256_of(s.server_at(id).payloads@[i]),
{
    let k = s.index_of(id);
    assert(0 <= k < s.servers@.len() && s.servers@[k].account.server_id@ == id);
    assert(crate::state::payload_integrity(s.servers@[k]));
}

/// Chain integrity: in any well-formed state, every entry links to its
/// predecessor — entry 0 links to the genesis value, and entry `i > 0`
/// carries the previous entry's `entry_hash` as its `previous_hash`.
pub proof fn lemma_chain_links(s: LogChainState, id: Seq<u8>, i: int)
    requires
        s.wf(),
        s.has_server(id),
        0 <= i < s.server_at(id).entries@.len(),
    ensures
        i == 0 ==> s.server_at(id).entries@[i].previous_hash@ == genesis(),
        i > 0 ==> s.server_at(id).entries@[i].previous_hash@ == s.server_at(id).entries@[i
            - 1].entry_hash@,
{
    let k = s.index_of(id);
    assert(0 <= k < s.servers@.len() && s.servers@[k].account.server_id@ == id);
    assert(s.servers@[k].wf());
}

/// Chain head: in any well-formed state, a server's `last_entry_hash`
/// is the hash of its most recent entry, or the genesis value while no
/// entry exists.
pub proof fn lemma_chain_head(s: LogChainState, id: Seq<u8>)
    requires
        s.wf(),
        s.has_server(id),
    ensures
        s.server_at(id).entries@.len() == 0 ==> s.server_at(id).account.last_entry_hash@
            == genesis(),
        s.server_at(id).entries@.len() > 0 ==> s.server_at(id).account.last_entry_hash@
            == s.server_at(id).entries@.last().entry_hash@,
{
    let k = s.index_of(id);
    assert(0 <= k < s.servers@.len() && s.servers@[k].account.server_id@ == id);
    assert(s.servers@[k].wf());
}

/// Contiguity: in any well-formed state, a server's entries sit at
/// indices 0, 1, …, `entry_count` − 1, with no gaps and no repeats.
pub proof fn lemma_contiguity(s: LogChainState, id: Seq<u8>, i: int)
    requires
        s.wf(),
        s.has_server(id),
        0 <= i < s.server_at(id).entries@.len(),
    ensures
        s.server_at(id).entries@.len() == s.server_at(id).account.entry_count,
        s.server_at(id).entries@[i].entry_index == i,
{
    let k = s.index_of(id);
    assert(0 <= k < s.servers@.len() && s.servers@[k].account.server_id@ == id);
    assert(s.servers@[k].wf());
}

/// Anchor bound: in any well-formed state, a live checkpoint never
/// claims more anchored entries than the chain holds, and its batch
/// counter caches exactly the successor of the committed batch id.
pub proof fn lemma_trail_bounds(s: LogChainState, id: Seq<u8>)
    requires
        s.wf(),
        s.has_server(id),
        s.server_at(id).trail is Some,
    ensures
        s.server_at(id).trail->Some_0.entries_anchored <= s.server_at(id).account.entry_count,
        s.server_at(id).trail->Some_0.entries_in_batch <= s.server_at(
            id,
        ).trail->Some_0.entries_anchored,
        s.server_at(id).trail->Some_0.next_batch_id == s.server_at(id).trail->Some_0.batch_id + 1,
{
    let k = s.index_of(id);
    assert(0 <= k < s.servers@.len() && s.servers@[k].account.server_id@ == id);
    assert(s.servers@[k].wf());
}

} // verus!
