use mobile_storage::{ChannelState, MobileOptimizedStorage, StateProof, StorageError};
use sha2::{Digest, Sha256};

fn id(b: u8) -> [u8; 32] {
    [b; 32]
}

fn proof_at(ts: u64) -> StateProof {
    StateProof { timestamp: ts }
}

fn meta(n: u64) -> serde_json::Value {
    serde_json::Value::from(n)
}

fn state(b: u8) -> ChannelState {
    ChannelState { encoded: vec![b] }
}

fn store(s: &mut MobileOptimizedStorage, c: u8, old: u8, new: u8, ts: u64) {
    let r = s.store_transaction(id(c), id(old), id(new), proof_at(ts), meta(ts));
    assert_eq!(r, Ok(()));
}

#[test]
fn new_store_is_empty() {
    let s = MobileOptimizedStorage::new(3, 3600);
    assert_eq!(s.compression_threshold(), 3);
    assert_eq!(s.retention_period(), 3600);
    assert_eq!(s.history_len(&id(1)), 0);
    assert_eq!(s.buffered_len(&id(1)), 0);
    assert_eq!(s.channel_root(&id(1)), [0u8; 32]);
}

#[test]
fn threshold_three_compacts_on_third_store() {
    let mut s = MobileOptimizedStorage::new(3, 3600);
    store(&mut s, 0xC, 0, 1, 100);
    store(&mut s, 0xC, 1, 2, 101);
    store(&mut s, 0xC, 2, 3, 102);
    assert_eq!(s.history_len(&id(0xC)), 4);
    assert_eq!(s.buffered_len(&id(0xC)), 0);
    let h = s.history(&id(0xC));
    let summary = h[2];
    assert_eq!(summary.old_commitment, id(0));
    assert_eq!(summary.new_commitment, id(3));
    assert_eq!(summary.timestamp, 102);
    assert_eq!(h[3].old_commitment, id(2));
    assert_eq!(h[3].new_commitment, id(3));
}

#[test]
fn stores_under_threshold_grow_history_and_buffer() {
    let mut s = MobileOptimizedStorage::new(10, 0);
    for i in 0..4u8 {
        store(&mut s, 5, i, i + 1, i as u64);
    }
    assert_eq!(s.history_len(&id(5)), 4);
    assert_eq!(s.buffered_len(&id(5)), 4);
}

#[test]
fn compaction_empties_buffer_then_buffer_refills() {
    let mut s = MobileOptimizedStorage::new(2, 0);
    store(&mut s, 1, 0, 1, 1);
    assert_eq!((s.history_len(&id(1)), s.buffered_len(&id(1))), (1, 1));
    store(&mut s, 1, 1, 2, 2);
    assert_eq!((s.history_len(&id(1)), s.buffered_len(&id(1))), (3, 0));
    store(&mut s, 1, 2, 3, 3);
    assert_eq!((s.history_len(&id(1)), s.buffered_len(&id(1))), (4, 1));
}

#[test]
fn threshold_one_compacts_every_store() {
    let mut s = MobileOptimizedStorage::new(1, 0);
    store(&mut s, 1, 0, 1, 1);
    assert_eq!((s.history_len(&id(1)), s.buffered_len(&id(1))), (2, 0));
    store(&mut s, 1, 1, 2, 2);
    assert_eq!((s.history_len(&id(1)), s.buffered_len(&id(1))), (4, 0));
}

#[test]
fn channels_are_independent() {
    let mut s = MobileOptimizedStorage::new(3, 0);
    store(&mut s, 1, 0, 1, 1);
    store(&mut s, 2, 0, 1, 1);
    store(&mut s, 1, 1, 2, 2);
    assert_eq!(s.history_len(&id(1)), 2);
    assert_eq!(s.history_len(&id(2)), 1);
    assert_eq!(s.buffered_len(&id(2)), 1);
}

#[test]
fn record_binds_metadata_digest_and_prior_root() {
    let mut s = MobileOptimizedStorage::new(10, 0);
    let m = meta(77);
    let encoded = serde_json::to_vec(&m).unwrap();
    let digest = Sha256::digest(&encoded);
    let r = s.store_transaction(id(1), id(0), id(1), proof_at(5), m);
    assert_eq!(r, Ok(()));
    let first = s.history(&id(1))[0];
    assert_eq!(&first.metadata_hash[..], &digest[..]);
    assert_eq!(first.merkle_root, [0u8; 32]);
    let root_after_first = s.channel_root(&id(1));
    assert_eq!(root_after_first, [0u8; 32]);
    store(&mut s, 1, 1, 2, 6);
    assert_eq!(s.history(&id(1))[1].merkle_root, root_after_first);
}

#[test]
fn encoded_store_digests_given_bytes() {
    let mut s = MobileOptimizedStorage::new(10, 0);
    s.store_encoded_transaction(id(1), id(0), id(1), proof_at(5), b"abc");
    let expected = Sha256::digest(b"abc");
    assert_eq!(&s.history(&id(1))[0].metadata_hash[..], &expected[..]);
}

#[test]
fn sixth_channel_evicts_least_recent() {
    let mut s = MobileOptimizedStorage::new(3, 0);
    for c in 1..=5u8 {
        s.cache_channel_state(id(c), state(c));
    }
    s.cache_channel_state(id(6), state(6));
    assert_eq!(s.channel_state(&id(1)), None);
    for c in 2..=6u8 {
        assert_eq!(s.channel_state(&id(c)), Some(state(c)));
    }
}

#[test]
fn reading_a_channel_refreshes_it() {
    let mut s = MobileOptimizedStorage::new(3, 0);
    for c in 1..=5u8 {
        s.cache_channel_state(id(c), state(c));
    }
    assert_eq!(s.channel_state(&id(1)), Some(state(1)));
    s.cache_channel_state(id(6), state(6));
    assert_eq!(s.channel_state(&id(2)), None);
    assert_eq!(s.channel_state(&id(1)), Some(state(1)));
}

#[test]
fn storage_error_variants_are_distinct() {
    assert_ne!(StorageError::TransactionTooOld, StorageError::StorageLimitExceeded);
    assert_eq!(StorageError::Other("x".to_string()), StorageError::Other("x".to_string()));
}
