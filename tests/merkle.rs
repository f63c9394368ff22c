use mobile_storage::{
    compute_merkle_root, compute_merkle_root_helper, hash_pair, serialize_metadata,
    summarize_batch, ColdStore, CompressedTransaction,
};
use sha2::{Digest, Sha256};

fn leaf(b: u8) -> [u8; 32] {
    [b; 32]
}

fn sha(data: &[u8]) -> [u8; 32] {
    let out = Sha256::digest(data);
    let mut h = [0u8; 32];
    h.copy_from_slice(&out);
    h
}

fn record(ts: u64, old: u8, new: u8, root: [u8; 32]) -> CompressedTransaction {
    CompressedTransaction {
        timestamp: ts,
        old_commitment: [old; 32],
        new_commitment: [new; 32],
        metadata_hash: [0xEE; 32],
        merkle_root: root,
    }
}

#[test]
fn hash_pair_is_digest_of_concatenation() {
    let mut both = Vec::new();
    both.extend_from_slice(&leaf(1));
    both.extend_from_slice(&leaf(2));
    assert_eq!(hash_pair(leaf(1), leaf(2)), sha(&both));
    assert_ne!(hash_pair(leaf(1), leaf(2)), leaf(1));
}

#[test]
fn hash_pair_is_order_sensitive() {
    assert_ne!(hash_pair(leaf(1), leaf(2)), hash_pair(leaf(2), leaf(1)));
}

#[test]
fn hash_pair_of_empty_digest_known_value() {
    // SHA-256 of 64 zero bytes.
    let expected = [
        0xf5, 0xa5, 0xfd, 0x42, 0xd1, 0x6a, 0x20, 0x30, 0x27, 0x98, 0xef, 0x6e, 0xd3, 0x09, 0x97,
        0x9b, 0x43, 0x00, 0x3d, 0x23, 0x20, 0xd9, 0xf0, 0xe8, 0xea, 0x98, 0x31, 0xa9, 0x27, 0x59,
        0xfb, 0x4b,
    ];
    assert_eq!(hash_pair([0u8; 32], [0u8; 32]), expected);
}

#[test]
fn merkle_root_of_no_leaves_is_zero() {
    assert_eq!(compute_merkle_root_helper(Vec::new()), [0u8; 32]);
}

#[test]
fn merkle_root_of_one_leaf_is_the_leaf() {
    assert_eq!(compute_merkle_root_helper(vec![leaf(7)]), leaf(7));
}

#[test]
fn merkle_root_of_two_leaves() {
    assert_eq!(compute_merkle_root_helper(vec![leaf(1), leaf(2)]), hash_pair(leaf(1), leaf(2)));
}

#[test]
fn merkle_root_pads_odd_level_with_last_leaf() {
    let (a, b, c) = (leaf(1), leaf(2), leaf(3));
    let expected = hash_pair(hash_pair(a, b), hash_pair(c, c));
    assert_eq!(compute_merkle_root_helper(vec![a, b, c]), expected);
}

#[test]
fn merkle_root_of_five_leaves() {
    let l: Vec<[u8; 32]> = (1..=5).map(leaf).collect();
    let first_pair = hash_pair(l[0], l[1]);
    let second_pair = hash_pair(l[2], l[3]);
    let last_pair = hash_pair(l[4], l[4]);
    let expected = hash_pair(hash_pair(first_pair, second_pair), hash_pair(last_pair, last_pair));
    assert_eq!(compute_merkle_root_helper(l), expected);
}

#[test]
fn merkle_root_is_deterministic() {
    let l = vec![leaf(4), leaf(5), leaf(6), leaf(7)];
    assert_eq!(compute_merkle_root_helper(l.clone()), compute_merkle_root_helper(l));
}

#[test]
fn merkle_root_depends_on_order() {
    let forward = compute_merkle_root_helper(vec![leaf(1), leaf(2), leaf(3)]);
    let reversed = compute_merkle_root_helper(vec![leaf(3), leaf(2), leaf(1)]);
    assert_ne!(forward, reversed);
}

#[test]
fn channel_root_of_unknown_channel_is_zero() {
    let store = ColdStore::new();
    assert_eq!(compute_merkle_root(&store, &leaf(9)), [0u8; 32]);
}

#[test]
fn channel_root_uses_stored_roots_of_that_channel() {
    let mut store = ColdStore::new();
    store.append(leaf(9), record(1, 0, 1, leaf(0xA1)));
    store.append(leaf(8), record(1, 0, 1, leaf(0xB1)));
    store.append(leaf(9), record(2, 1, 2, leaf(0xA2)));
    assert_eq!(
        compute_merkle_root(&store, &leaf(9)),
        hash_pair(leaf(0xA1), leaf(0xA2))
    );
    assert_eq!(compute_merkle_root(&store, &leaf(8)), leaf(0xB1));
    assert_eq!(store.len_of(&leaf(9)), 2);
    assert_eq!(store.records_of(&leaf(9))[1].timestamp, 2);
}

fn json_array(b: u8) -> String {
    let items: Vec<String> = (0..32).map(|_| b.to_string()).collect();
    format!("[{}]", items.join(","))
}

#[test]
fn batch_encoding_of_no_records_is_empty_array() {
    assert_eq!(serialize_metadata(&Vec::new()), b"[]".to_vec());
}

#[test]
fn batch_encoding_is_json_array_of_records() {
    let t = record(1234567890, 1, 2, leaf(3));
    let u = record(0, 255, 10, leaf(0));
    let one = |r: &CompressedTransaction, o: u8, n: u8, root: u8| {
        format!(
            "{{\"timestamp\":{},\"old_commitment\":{},\"new_commitment\":{},\"metadata_hash\":{},\"merkle_root\":{}}}",
            r.timestamp,
            json_array(o),
            json_array(n),
            json_array(0xEE),
            json_array(root)
        )
    };
    let expected = format!("[{},{}]", one(&t, 1, 2, 3), one(&u, 255, 10, 0));
    assert_eq!(String::from_utf8(serialize_metadata(&vec![t, u])).unwrap(), expected);
    assert!(expected.starts_with("[{\"timestamp\":1234567890,\"old_commitment\":[1,1,"));
    assert!(expected.contains("\"metadata_hash\":[238,238,"));
}

#[test]
fn summary_spans_the_batch() {
    let batch = vec![record(10, 0, 1, leaf(0)), record(11, 1, 2, leaf(5)), record(12, 2, 3, leaf(6))];
    let s = summarize_batch(&batch, leaf(0x42));
    assert_eq!(s.timestamp, 12);
    assert_eq!(s.old_commitment, [0u8; 32]);
    assert_eq!(s.new_commitment, [3u8; 32]);
    assert_eq!(s.merkle_root, leaf(0x42));
    assert_eq!(s.metadata_hash, sha(&serialize_metadata(&batch)));
}
