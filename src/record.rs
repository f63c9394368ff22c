use crate::hash::{sha256_hash, sha256_of, Bytes32};
use vstd::prelude::*;

verus! {

/// A committed state transition, or the summary of a batch of them.
#[derive(Clone, Copy, Debug, PartialEq, Eq)]
pub struct CompressedTransaction {
    pub timestamp: u64,
    pub old_commitment: Bytes32,
    pub new_commitment: Bytes32,
    pub metadata_hash: Bytes32,
    /// The root of the channel's history as it stood when this record was built.
    pub merkle_root: Bytes32,
}

/// A record with its digests as byte sequences.
pub ghost struct TxView {
    pub timestamp: u64,
    pub old_commitment: Seq<u8>,
    pub new_commitment: Seq<u8>,
    pub metadata_hash: Seq<u8>,
    pub merkle_root: Seq<u8>,
}

impl View for CompressedTransaction {
    type V = TxView;

    open spec fn view(&self) -> TxView {
        TxView {
            timestamp: self.timestamp,
            old_commitment: self.old_commitment@,
            new_commitment: self.new_commitment@,
            metadata_hash: self.metadata_hash@,
            merkle_root: self.merkle_root@,
        }
    }
}

/// The records of a list as views.
pub open spec fn tx_views(txs: Seq<CompressedTransaction>) -> Seq<TxView> {
    txs.map_values(|t: CompressedTransaction| t@)
}

/// The decimal digits of `n`, most significant first.
pub open spec fn decimal(n: nat) -> Seq<u8>
    decreases n,
{
    if n < 10 {
        seq![(48 + n) as u8]
    } else {
        decimal(n / 10) + seq![(48 + n % 10) as u8]
    }
}

/// The bytes as decimal numbers separated by commas.
pub open spec fn json_numbers(b: Seq<u8>) -> Seq<u8>
    decreases b.len(),
{
    if b.len() == 0 {
        Seq::empty()
    } else if b.len() == 1 {
        decimal(b[0] as nat)
    } else {
        json_numbers(b.drop_last()) + seq![44u8] + decimal(b.last() as nat)
    }
}

/// A digest as a JSON array of numbers.
pub open spec fn json_byte_array(b: Seq<u8>) -> Seq<u8> {
    seq![91u8] + json_numbers(b) + seq![93u8]
}

/// The bytes of `{"timestamp":`.
pub open spec fn timestamp_key() -> Seq<u8> {
    seq![123u8, 34u8, 116u8, 105u8, 109u8, 101u8, 115u8, 116u8, 97u8, 109u8, 112u8, 34u8, 58u8]
}

/// The bytes of `,"old_commitment":`.
pub open spec fn old_commitment_key() -> Seq<u8> {
    seq![44u8, 34u8, 111u8, 108u8, 100u8, 95u8, 99u8, 111u8, 109u8, 109u8, 105u8, 116u8, 109u8, 101u8, 110u8, 116u8, 34u8, 58u8]
}

/// The bytes of `,"new_commitment":`.
pub open spec fn new_commitment_key() -> Seq<u8> {
    seq![44u8, 34u8, 110u8, 101u8, 119u8, 95u8, 99u8, 111u8, 109u8, 109u8, 105u8, 116u8, 109u8, 101u8, 110u8, 116u8, 34u8, 58u8]
}

/// The bytes of `,"metadata_hash":`.
pub open spec fn metadata_hash_key() -> Seq<u8> {
    seq![44u8, 34u8, 109u8, 101u8, 116u8, 97u8, 100u8, 97u8, 116u8, 97u8, 95u8, 104u8, 97u8, 115u8, 104u8, 34u8, 58u8]
}

/// The bytes of `,"merkle_root":`.
pub open spec fn merkle_root_key() -> Seq<u8> {
    seq![44u8, 34u8, 109u8, 101u8, 114u8, 107u8, 108u8, 101u8, 95u8, 114u8, 111u8, 111u8, 116u8, 34u8, 58u8]
}

/// A record as a JSON object, its fields in declaration order, without whitespace.
pub open spec fn json_record(t: TxView) -> Seq<u8> {
    timestamp_key() + decimal(t.timestamp as nat) + old_commitment_key() + json_byte_array(
        t.old_commitment,
    ) + new_commitment_key() + json_byte_array(t.new_commitment) + metadata_hash_key()
        + json_byte_array(t.metadata_hash) + merkle_root_key() + json_byte_array(t.merkle_root)
        + seq![125u8]
}

/// The records as JSON objects separated by commas.
pub open spec fn json_records(batch: Seq<TxView>) -> Seq<u8>
    decreases batch.len(),
{
    if batch.len() == 0 {
        Seq::empty()
    } else if batch.len() == 1 {
        json_record(batch[0])
    } else {
        json_records(batch.drop_last()) + seq![44u8] + json_record(batch.last())
    }
}

/// A batch as a JSON array of records.
pub open spec fn json_of_batch(batch: Seq<TxView>) -> Seq<u8> {
    seq![91u8] + json_records(batch) + seq![93u8]
}

/// The record that stands for a non-empty batch: the first record's old
/// commitment, the last record's time and new commitment, the digest of the
/// batch's encoding, and the given root.
pub open spec fn summary_of(batch: Seq<TxView>, root: Seq<u8>) -> TxView {
    TxView {
        timestamp: batch.last().timestamp,
        old_commitment: batch[0].old_commitment,
        new_commitment: batch.last().new_commitment,
        metadata_hash: sha256_of(json_of_batch(batch)),
        merkle_root: root,
    }
}

/// Appends the 32 bytes of `b` to `out`.
pub(crate) fn append_bytes32(out: &mut Vec<u8>, b: &[u8; 32])
    ensures
        final(out)@ == old(out)@ + b@,
{
    let ghost start = out@;
    let mut i: usize = 0;
    while i < 32
        invariant
            i <= 32,
            b@.len() == 32,
            out@ == start + b@.take(i as int),
        decreases 32 - i,
    {
        out.push(b[i]);
        i += 1;
        assert(b@.take(i as int) =~= b@.take(i - 1 as int).push(b@[i - 1 as int]));
    }
    assert(b@.take(32) =~= b@);
}

/// Appends the decimal digits of `n` to `out`.
fn append_decimal(out: &mut Vec<u8>, n: u64)
    ensures
        final(out)@ == old(out)@ + decimal(n as nat),
    decreases n,
{
    let ghost start = out@;
    if n >= 10 {
        append_decimal(out, n / 10);
    }
    out.push((48 + n % 10) as u8);
    assert(out@ =~= start + decimal(n as nat));
}

/// Appends the bytes of `s` to `out`.
fn append_slice(out: &mut Vec<u8>, s: &[u8])
    ensures
        final(out)@ == old(out)@ + s@,
{
    let ghost start = out@;
    let mut i: usize = 0;
    while i < s.len()
        invariant
            i <= s@.len(),
            out@ == start + s@.take(i as int),
        decreases s.len() - i,
    {
        out.push(s[i]);
        i += 1;
        assert(s@.take(i as int) =~= s@.take(i - 1 as int).push(s@[i - 1 as int]));
    }
    assert(s@.take(s@.len() as int) =~= s@);
}

/// Appends a digest as a JSON array of numbers.
fn append_json_byte_array(out: &mut Vec<u8>, b: &[u8; 32])
    ensures
        final(out)@ == old(out)@ + json_byte_array(b@),
{
    let ghost start = out@;
    out.push(91u8);
    let mut i: usize = 0;
    while i < 32
        invariant
            i <= 32,
            b@.len() == 32,
            out@ == start + seq![91u8] + json_numbers(b@.take(i as int)),
        decreases 32 - i,
    {
        let ghost prev = out@;
        if i > 0 {
            out.push(44u8);
        }
        append_decimal(out, b[i] as u64);
        let ghost t = b@.take(i + 1 as int);
        assert(t.drop_last() =~= b@.take(i as int));
        if i == 0 {
            assert(json_numbers(b@.take(0)) =~= Seq::<u8>::empty());
            assert(out@ =~= start + seq![91u8] + json_numbers(t));
        } else {
            assert(out@ =~= start + seq![91u8] + json_numbers(t));
        }
        i += 1;
    }
    assert(b@.take(32) =~= b@);
    out.push(93u8);
    assert(out@ =~= start + json_byte_array(b@));
}

/// Appends one record as a JSON object.
fn append_json_record(out: &mut Vec<u8>, t: &CompressedTransaction)
    ensures
        final(out)@ == old(out)@ + json_record(t@),
{
    let ghost start = out@;
    let key: [u8; 13] = [123, 34, 116, 105, 109, 101, 115, 116, 97, 109, 112, 34, 58];
    assert(key@ =~= timestamp_key());
    append_slice(out, key.as_slice());
    append_decimal(out, t.timestamp);
    let key: [u8; 18] = [44, 34, 111, 108, 100, 95, 99, 111, 109, 109, 105, 116, 109, 101, 110, 116, 34, 58];
    assert(key@ =~= old_commitment_key());
    append_slice(out, key.as_slice());
    append_json_byte_array(out, &t.old_commitment);
    let key: [u8; 18] = [44, 34, 110, 101, 119, 95, 99, 111, 109, 109, 105, 116, 109, 101, 110, 116, 34, 58];
    assert(key@ =~= new_commitment_key());
    append_slice(out, key.as_slice());
    append_json_byte_array(out, &t.new_commitment);
    let key: [u8; 17] = [44, 34, 109, 101, 116, 97, 100, 97, 116, 97, 95, 104, 97, 115, 104, 34, 58];
    assert(key@ =~= metadata_hash_key());
    append_slice(out, key.as_slice());
    append_json_byte_array(out, &t.metadata_hash);
    let key: [u8; 15] = [44, 34, 109, 101, 114, 107, 108, 101, 95, 114, 111, 111, 116, 34, 58];
    assert(key@ =~= merkle_root_key());
    append_slice(out, key.as_slice());
    append_json_byte_array(out, &t.merkle_root);
    out.push(125u8);
    assert(out@ =~= start + json_record(t@));
}

/// Encodes a batch of records for digesting: a JSON array of the records in
/// order, each an object with its fields in declaration order, the timestamp
/// as a number and each digest as an array of numbers, without whitespace.
pub fn serialize_metadata(txs: &Vec<CompressedTransaction>) -> (r: Vec<u8>)
    ensures
        r@ == json_of_batch(tx_views(txs@)),
{
    let mut out: Vec<u8> = Vec::new();
    out.push(91u8);
    let mut i: usize = 0;
    while i < txs.len()
        invariant
            i <= txs.len(),
            out@ == seq![91u8] + json_records(tx_views(txs@.take(i as int))),
        decreases txs.len() - i,
    {
        let ghost prev = out@;
        if i > 0 {
            out.push(44u8);
        }
        append_json_record(&mut out, &txs[i]);
        let ghost next = tx_views(txs@.take(i + 1 as int));
        assert(next.drop_last() =~= tx_views(txs@.take(i as int)));
        if i == 0 {
            assert(json_records(tx_views(txs@.take(0))) =~= Seq::<u8>::empty());
        }
        assert(out@ =~= seq![91u8] + json_records(next));
        i += 1;
    }
    assert(txs@.take(txs.len() as int) =~= txs@);
    out.push(93u8);
    assert(out@ =~= json_of_batch(tx_views(txs@)));
    out
}

/// Builds the record that stands for a non-empty batch, bound to `root`.
pub fn summarize_batch(batch: &Vec<CompressedTransaction>, root: Bytes32) -> (r:
    CompressedTransaction)
    requires
        batch.len() > 0,
    ensures
        r@ == summary_of(tx_views(batch@), root@),
{
    let first = batch[0];
    let last = batch[batch.len() - 1];
    let encoded = serialize_metadata(batch);
    let digest = sha256_hash(encoded.as_slice());
    CompressedTransaction {
        timestamp: last.timestamp,
        old_commitment: first.old_commitment,
        new_commitment: last.new_commitment,
        metadata_hash: digest,
        merkle_root: root,
    }
}

} // verus!
