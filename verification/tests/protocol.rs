use logchain::chain::LogChainState;
use logchain::chain::MAX_LOG_COUNT;
use logchain::chain::MIN_STAKE;
use logchain::errors::LogChainError;
use logchain::state::AuthorityId;
use logchain::state::LogEntry;
use sha2::Digest;
use sha2::Sha256;

fn auth(value: u64) -> AuthorityId {
    AuthorityId { value }
}

fn sha256_pair(prefix: &[u8], data: &[u8]) -> [u8; 32] {
    let mut hasher = Sha256::new();
    hasher.update(prefix);
    hasher.update(data);
    let digest = hasher.finalize();
    digest.as_slice().try_into().unwrap()
}

fn registered(server_id: &[u8]) -> LogChainState {
    let mut s = LogChainState::new();
    s.register_server(server_id.to_vec(), b"test server".to_vec(), auth(1), MIN_STAKE, 100)
        .unwrap();
    s
}

#[test]
fn register_creates_fresh_server() {
    let s = registered(b"srv-1");
    assert_eq!(s.server_count(), 1);
    let account = s.get_server(b"srv-1").unwrap();
    assert_eq!(account.server_id, b"srv-1".to_vec());
    assert_eq!(account.description, b"test server".to_vec());
    assert_eq!(account.authority, auth(1));
    assert!(account.is_active);
    assert_eq!(account.registered_at, 100);
    assert_eq!(account.stake, MIN_STAKE);
    assert_eq!(account.entry_count, 0);
    assert_eq!(account.last_entry_hash, [0u8; 32]);
    assert_eq!(account.last_anchor_slot, 0);
    assert!(s.get_trail(b"srv-1").is_none());
}

#[test]
fn register_rejects_long_server_id() {
    let mut s = LogChainState::new();
    let r = s.register_server(vec![7u8; 33], Vec::new(), auth(1), MIN_STAKE, 0);
    assert_eq!(r, Err(LogChainError::ServerIdTooLong));
    assert_eq!(s.server_count(), 0);
    // 32 bytes is within bounds.
    assert_eq!(s.register_server(vec![7u8; 32], Vec::new(), auth(1), MIN_STAKE, 0), Ok(()));
}

#[test]
fn register_rejects_long_description() {
    let mut s = LogChainState::new();
    let r = s.register_server(b"srv".to_vec(), vec![0u8; 101], auth(1), MIN_STAKE, 0);
    assert_eq!(r, Err(LogChainError::DescriptionTooLong));
    // 100 bytes is within bounds.
    assert_eq!(s.register_server(b"srv".to_vec(), vec![0u8; 100], auth(1), MIN_STAKE, 0), Ok(()));
}

#[test]
fn register_rejects_insufficient_stake() {
    let mut s = LogChainState::new();
    let r = s.register_server(b"srv".to_vec(), Vec::new(), auth(1), MIN_STAKE - 1, 0);
    assert_eq!(r, Err(LogChainError::InsufficientStake));
    assert_eq!(s.server_count(), 0);
}

#[test]
fn register_twice_rejects_and_preserves_original() {
    let mut s = registered(b"srv-1");
    let r = s.register_server(b"srv-1".to_vec(), b"other".to_vec(), auth(9), MIN_STAKE, 999);
    assert_eq!(r, Err(LogChainError::AlreadyRegistered));
    assert_eq!(s.server_count(), 1);
    let account = s.get_server(b"srv-1").unwrap();
    assert_eq!(account.description, b"test server".to_vec());
    assert_eq!(account.authority, auth(1));
    assert_eq!(account.registered_at, 100);
}

#[test]
fn append_builds_hash_chain() {
    let mut s = registered(b"srv-1");
    let ev0 = s.add_log_entry(b"srv-1", b"login".to_vec(), auth(1), 101).unwrap();
    let ev1 = s.add_log_entry(b"srv-1", b"logout".to_vec(), auth(1), 102).unwrap();

    let hash0 = sha256_pair(&[0u8; 32], b"login");
    let hash1 = sha256_pair(&hash0, b"logout");
    assert_eq!(ev0.entry_index, 0);
    assert_eq!(ev0.entry_hash, hash0);
    assert_eq!(ev0.server, b"srv-1".to_vec());
    assert_eq!(ev0.timestamp, 101);
    assert_eq!(ev1.entry_index, 1);
    assert_eq!(ev1.entry_hash, hash1);

    let e0 = s.get_entry(b"srv-1", 0).unwrap();
    assert_eq!(e0.previous_hash, [0u8; 32]);
    assert_eq!(e0.entry_hash, hash0);
    assert_eq!(e0.data_hash, sha256_pair(b"", b"login"));
    assert_eq!(e0.timestamp, 101);
    let e1 = s.get_entry(b"srv-1", 1).unwrap();
    assert_eq!(e1.previous_hash, hash0);
    assert_eq!(e1.entry_hash, hash1);
    assert_eq!(e1.data_hash, sha256_pair(b"", b"logout"));

    let account = s.get_server(b"srv-1").unwrap();
    assert_eq!(account.entry_count, 2);
    assert_eq!(account.last_entry_hash, hash1);
}

#[test]
fn chain_recomputes_from_stored_entries() {
    let mut s = registered(b"srv-1");
    let payloads: [&[u8]; 4] = [b"a", b"bb", b"", b"dddd"];
    for (i, p) in payloads.iter().enumerate() {
        s.add_log_entry(b"srv-1", p.to_vec(), auth(1), i as i64).unwrap();
    }
    // Replaying the derivation over the stored entries reproduces every
    // stored hash, and each entry links to its predecessor.
    let mut head = [0u8; 32];
    for (i, p) in payloads.iter().enumerate() {
        let e = s.get_entry(b"srv-1", i as u64).unwrap();
        assert_eq!(e.entry_index, i as u64);
        assert_eq!(e.previous_hash, head);
        assert_eq!(e.entry_hash, sha256_pair(&head, p));
        assert_eq!(e.data_hash, sha256_pair(b"", p));
        head = e.entry_hash;
    }
    assert_eq!(s.get_server(b"srv-1").unwrap().last_entry_hash, head);
    assert!(s.get_entry(b"srv-1", 4).is_none());
}

#[test]
fn append_rejects_oversized_payload() {
    let mut s = registered(b"srv-1");
    let r = s.add_log_entry(b"srv-1", vec![0u8; 1025], auth(1), 0);
    assert_eq!(r.unwrap_err(), LogChainError::EntryTooLarge);
    assert_eq!(s.get_server(b"srv-1").unwrap().entry_count, 0);
    // 1024 bytes is within bounds.
    assert!(s.add_log_entry(b"srv-1", vec![0u8; 1024], auth(1), 0).is_ok());
}

#[test]
fn append_rejects_wrong_authority() {
    let mut s = registered(b"srv-1");
    let r = s.add_log_entry(b"srv-1", b"x".to_vec(), auth(2), 0);
    assert_eq!(r.unwrap_err(), LogChainError::Unauthorized);
}

#[test]
fn append_rejects_unknown_server() {
    let mut s = registered(b"srv-1");
    let r = s.add_log_entry(b"srv-2", b"x".to_vec(), auth(1), 0);
    assert_eq!(r.unwrap_err(), LogChainError::ServerNotFound);
}

#[test]
fn anchor_scenario() {
    let mut s = registered(b"srv-1");
    s.add_log_entry(b"srv-1", b"login".to_vec(), auth(1), 101).unwrap();
    let ev1 = s.add_log_entry(b"srv-1", b"logout".to_vec(), auth(1), 102).unwrap();

    let anchored = s.anchor_batch(b"srv-1", 0, 2, auth(1), 200, 5000).unwrap();
    assert_eq!(anchored.batch_id, 0);
    assert_eq!(anchored.entries_in_batch, 2);
    assert_eq!(anchored.entries_anchored, 2);
    assert_eq!(anchored.root_hash, ev1.entry_hash);
    assert_eq!(anchored.timestamp, 200);

    let trail = s.get_trail(b"srv-1").unwrap();
    assert_eq!(trail.batch_id, 0);
    assert_eq!(trail.next_batch_id, 1);
    assert_eq!(trail.root_hash, ev1.entry_hash);
    assert_eq!(trail.entries_anchored, 2);
    assert_eq!(trail.authority, auth(1));
    assert_eq!(trail.anchor_slot, 5000);

    // Re-using the committed batch id fails: the next expected id is 1.
    let r = s.anchor_batch(b"srv-1", 0, 1, auth(1), 201, 5001);
    assert_eq!(r.unwrap_err(), LogChainError::InvalidBatchSequence);

    // Anchoring more entries than exist fails.
    let r = s.anchor_batch(b"srv-1", 1, 1000, auth(1), 202, 5002);
    assert_eq!(r.unwrap_err(), LogChainError::InsufficientEntries);
}

#[test]
fn anchor_requires_sequential_batch_ids() {
    let mut s = registered(b"srv-1");
    s.add_log_entry(b"srv-1", b"x".to_vec(), auth(1), 0).unwrap();
    // The first anchor must use batch id 0.
    let r = s.anchor_batch(b"srv-1", 1, 1, auth(1), 0, 0);
    assert_eq!(r.unwrap_err(), LogChainError::InvalidBatchSequence);
    s.anchor_batch(b"srv-1", 0, 1, auth(1), 0, 0).unwrap();
    // Skipping ahead fails; the exact successor succeeds.
    s.add_log_entry(b"srv-1", b"y".to_vec(), auth(1), 0).unwrap();
    let r = s.anchor_batch(b"srv-1", 2, 1, auth(1), 0, 0);
    assert_eq!(r.unwrap_err(), LogChainError::InvalidBatchSequence);
    let anchored = s.anchor_batch(b"srv-1", 1, 1, auth(1), 0, 0).unwrap();
    assert_eq!(anchored.entries_anchored, 2);
}

#[test]
fn anchor_bound_is_exact() {
    let mut s = registered(b"srv-1");
    for i in 0..3 {
        s.add_log_entry(b"srv-1", b"x".to_vec(), auth(1), i).unwrap();
    }
    // entries_anchored + log_count > entry_count fails ...
    let r = s.anchor_batch(b"srv-1", 0, 4, auth(1), 0, 0);
    assert_eq!(r.unwrap_err(), LogChainError::InsufficientEntries);
    // ... and log_count == entry_count - entries_anchored succeeds.
    s.anchor_batch(b"srv-1", 0, 3, auth(1), 0, 0).unwrap();
    // Nothing new appended: even one more entry is too many ...
    let r = s.anchor_batch(b"srv-1", 1, 1, auth(1), 0, 0);
    assert_eq!(r.unwrap_err(), LogChainError::InsufficientEntries);
    // ... until an append makes the count sufficient again.
    s.add_log_entry(b"srv-1", b"y".to_vec(), auth(1), 9).unwrap();
    let anchored = s.anchor_batch(b"srv-1", 1, 1, auth(1), 0, 0).unwrap();
    assert_eq!(anchored.entries_anchored, 4);
}

#[test]
fn anchor_rejects_bad_log_count() {
    let mut s = registered(b"srv-1");
    s.add_log_entry(b"srv-1", b"x".to_vec(), auth(1), 0).unwrap();
    assert_eq!(
        s.anchor_batch(b"srv-1", 0, 0, auth(1), 0, 0).unwrap_err(),
        LogChainError::InvalidLogCount
    );
    assert_eq!(
        s.anchor_batch(b"srv-1", 0, MAX_LOG_COUNT + 1, auth(1), 0, 0).unwrap_err(),
        LogChainError::InvalidLogCount
    );
}

#[test]
fn anchor_rejects_wrong_authority_and_unknown_server() {
    let mut s = registered(b"srv-1");
    s.add_log_entry(b"srv-1", b"x".to_vec(), auth(1), 0).unwrap();
    assert_eq!(
        s.anchor_batch(b"srv-1", 0, 1, auth(2), 0, 0).unwrap_err(),
        LogChainError::Unauthorized
    );
    assert_eq!(
        s.anchor_batch(b"nope", 0, 1, auth(1), 0, 0).unwrap_err(),
        LogChainError::ServerNotFound
    );
}

#[test]
fn close_trail_reclaims_checkpoint() {
    let mut s = registered(b"srv-1");
    s.add_log_entry(b"srv-1", b"x".to_vec(), auth(1), 0).unwrap();
    assert_eq!(s.close_trail(b"srv-1", auth(1)).unwrap_err(), LogChainError::TrailNotFound);
    s.anchor_batch(b"srv-1", 0, 1, auth(1), 0, 0).unwrap();
    assert_eq!(s.close_trail(b"srv-1", auth(2)).unwrap_err(), LogChainError::Unauthorized);
    assert!(s.get_trail(b"srv-1").is_some());
    s.close_trail(b"srv-1", auth(1)).unwrap();
    assert!(s.get_trail(b"srv-1").is_none());
    // The chain itself is untouched.
    assert_eq!(s.get_server(b"srv-1").unwrap().entry_count, 1);
    // A fresh trail restarts the batch sequence at 0.
    s.add_log_entry(b"srv-1", b"y".to_vec(), auth(1), 0).unwrap();
    let anchored = s.anchor_batch(b"srv-1", 0, 1, auth(1), 0, 0).unwrap();
    assert_eq!(anchored.batch_id, 0);
    assert_eq!(anchored.entries_anchored, 1);
}

#[test]
fn close_trail_unknown_server() {
    let mut s = LogChainState::new();
    assert_eq!(s.close_trail(b"srv-1", auth(1)).unwrap_err(), LogChainError::ServerNotFound);
}

#[test]
fn verify_entry_attests_consistency() {
    let mut s = registered(b"srv-1");
    s.add_log_entry(b"srv-1", b"login".to_vec(), auth(1), 101).unwrap();
    let entry = s.get_entry(b"srv-1", 0).unwrap();
    let attestation = s.verify_entry(entry, b"srv-1", 300).unwrap();
    assert_eq!(attestation.server, b"srv-1".to_vec());
    assert_eq!(attestation.entry_index, 0);
    assert_eq!(attestation.entry_hash, entry.entry_hash);
    assert_eq!(attestation.verified_at, 300);
}

#[test]
fn verify_entry_rejects_mismatched_server() {
    let mut s = registered(b"srv-1");
    s.register_server(b"srv-2".to_vec(), Vec::new(), auth(2), MIN_STAKE, 0).unwrap();
    s.add_log_entry(b"srv-2", b"x".to_vec(), auth(2), 0).unwrap();
    let foreign = LogEntry {
        server: b"srv-2".to_vec(),
        entry_index: 0,
        timestamp: 0,
        entry_hash: [1u8; 32],
        previous_hash: [0u8; 32],
        data_hash: [2u8; 32],
    };
    let r = s.verify_entry(&foreign, b"srv-1", 0);
    assert_eq!(r.unwrap_err(), LogChainError::EntryServerMismatch);
}

#[test]
fn deactivate_gates_every_mutation() {
    let mut s = registered(b"srv-1");
    s.add_log_entry(b"srv-1", b"x".to_vec(), auth(1), 0).unwrap();
    assert_eq!(s.deactivate_server(b"srv-1", auth(2)).unwrap_err(), LogChainError::Unauthorized);
    s.deactivate_server(b"srv-1", auth(1)).unwrap();
    assert!(!s.get_server(b"srv-1").unwrap().is_active);

    assert_eq!(
        s.add_log_entry(b"srv-1", b"y".to_vec(), auth(1), 0).unwrap_err(),
        LogChainError::ServerInactive
    );
    assert_eq!(
        s.anchor_batch(b"srv-1", 0, 1, auth(1), 0, 0).unwrap_err(),
        LogChainError::ServerInactive
    );
    assert_eq!(s.deactivate_server(b"srv-1", auth(1)).unwrap_err(), LogChainError::AlreadyInactive);

    // The chain that existed before deactivation is still readable, and
    // verification reports the inactivity.
    let entry = s.get_entry(b"srv-1", 0).unwrap();
    assert_eq!(entry.entry_index, 0);
    let r = s.verify_entry(entry, b"srv-1", 0);
    assert_eq!(r.unwrap_err(), LogChainError::ServerInactive);
}

#[test]
fn close_trail_is_not_gated_by_inactivity() {
    // Closing a checkpoint only checks the trail's authority, so it
    // still works after the server is deactivated.
    let mut s = registered(b"srv-1");
    s.add_log_entry(b"srv-1", b"x".to_vec(), auth(1), 0).unwrap();
    s.anchor_batch(b"srv-1", 0, 1, auth(1), 0, 0).unwrap();
    s.deactivate_server(b"srv-1", auth(1)).unwrap();
    assert_eq!(s.close_trail(b"srv-1", auth(1)), Ok(()));
    assert!(s.get_trail(b"srv-1").is_none());
}

#[test]
fn deactivate_unknown_server() {
    let mut s = LogChainState::new();
    assert_eq!(s.deactivate_server(b"srv-1", auth(1)).unwrap_err(), LogChainError::ServerNotFound);
}

#[test]
fn servers_are_independent() {
    let mut s = registered(b"srv-1");
    s.register_server(b"srv-2".to_vec(), Vec::new(), auth(2), MIN_STAKE, 0).unwrap();
    s.add_log_entry(b"srv-1", b"a".to_vec(), auth(1), 0).unwrap();
    s.add_log_entry(b"srv-2", b"b".to_vec(), auth(2), 0).unwrap();
    s.deactivate_server(b"srv-2", auth(2)).unwrap();
    // srv-1 is unaffected by srv-2's deactivation.
    assert!(s.get_server(b"srv-1").unwrap().is_active);
    s.add_log_entry(b"srv-1", b"c".to_vec(), auth(1), 0).unwrap();
    assert_eq!(s.get_server(b"srv-1").unwrap().entry_count, 2);
    assert_eq!(s.get_server(b"srv-2").unwrap().entry_count, 1);
}

#[test]
fn hashing_matches_reference_digest() {
    // The library's digest helpers agree with sha2 run directly.
    let data = b"some payload";
    assert_eq!(logchain::hashing::hash_bytes(data), sha256_pair(b"", data));
    let prev = [3u8; 32];
    let mut hasher = Sha256::new();
    hasher.update(prev);
    hasher.update(data);
    let expected: [u8; 32] = hasher.finalize().as_slice().try_into().unwrap();
    assert_eq!(logchain::hashing::hash_chained(&prev, data), expected);
    // A known digest: SHA-256 of the empty string.
    let empty = logchain::hashing::hash_bytes(b"");
    assert_eq!(
        empty[..4],
        [0xe3, 0xb0, 0xc4, 0x42]
    );
}

#[test]
fn byte_helpers() {
    assert!(logchain::hashing::bytes_eq(b"abc", b"abc"));
    assert!(!logchain::hashing::bytes_eq(b"abc", b"abd"));
    assert!(!logchain::hashing::bytes_eq(b"abc", b"ab"));
    assert!(logchain::hashing::bytes_eq(b"", b""));
    assert_eq!(logchain::hashing::copy_bytes(b"xyz"), b"xyz".to_vec());
    assert_eq!(logchain::hashing::genesis_hash(), [0u8; 32]);
}

#[test]
fn empty_payload_is_chained_like_any_other() {
    let mut s = registered(b"srv-1");
    let ev = s.add_log_entry(b"srv-1", Vec::new(), auth(1), 0).unwrap();
    assert_eq!(ev.entry_hash, sha256_pair(&[0u8; 32], b""));
    let e = s.get_entry(b"srv-1", 0).unwrap();
    // SHA-256 of the empty payload, independently of chain position.
    let empty_digest: [u8; 32] = Sha256::digest(b"").as_slice().try_into().unwrap();
    assert_eq!(e.data_hash, empty_digest);
}
