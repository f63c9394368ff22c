use crate::cold::{channel_root, compute_merkle_root, history_of, ColdStore};
use crate::hash::{sha256_hash, sha256_of, Bytes32};
use crate::hot::{
    active_capacity, active_entries, active_get, active_put, lemma_lru_put_fresh, lemma_lru_remove,
    lru_lookup, lru_put, lru_remove, lru_touch, lru_wf, new_active_cache, new_recent_cache, recent_capacity, recent_entries,
    recent_peek, recent_pop, recent_put, ChannelState,
};
use crate::record::{summarize_batch, summary_of, tx_views, CompressedTransaction, TxView};
use lru::LruCache;
use vstd::prelude::*;

verus! {

/// How many channels' live state the hot tier keeps.
pub const ACTIVE_CAPACITY: usize = 5;

/// How many channels' transaction buffers the hot tier keeps.
pub const RECENT_CAPACITY: usize = 100;

/// Errors of storage operations.
#[derive(Debug, PartialEq, Eq)]
pub enum StorageError {
    /// A transaction older than the retention period.
    TransactionTooOld,
    /// A write beyond the store's size limit.
    StorageLimitExceeded,
    /// Any other failure, described.
    Other(String),
}

/// The proof accompanying a state transition; only its time is consumed here.
#[derive(Clone, Copy, Debug, PartialEq, Eq)]
pub struct StateProof {
    pub timestamp: u64,
}

#[verifier::external_type_specification]
#[verifier::external_body]
pub struct ExJsonValue(serde_json::Value);

#[verifier::external_type_specification]
#[verifier::external_body]
pub struct ExJsonError(serde_json::Error);

/// Relies on `serde_json::to_vec`: the JSON encoding of the metadata. A `Value`
/// serializes with string map keys only, into a `Vec`, so the encoding succeeds.
#[verifier::external_body]
fn encode_metadata(v: &serde_json::Value) -> (r: Result<Vec<u8>, serde_json::Error>)
    ensures
        r is Ok,
{
    serde_json::to_vec(v)
}

/// Relies on `serde_json::Error`'s `Display`: a description of the failure.
#[verifier::external_body]
fn describe_json_error(e: &serde_json::Error) -> (r: String) {
    e.to_string()
}

/// The engine's state as values.
pub ghost struct StorageView {
    /// Live channel state, least recently used first.
    pub active: Seq<(Seq<u8>, ChannelState)>,
    /// Per-channel buffers of records not yet compacted, least recently used first.
    pub recent: Seq<(Seq<u8>, Seq<TxView>)>,
    /// Every channel's full history.
    pub history: Map<Seq<u8>, Seq<TxView>>,
    /// The last committed root of each channel, kept for a root index.
    pub roots: Seq<(Bytes32, Bytes32)>,
    pub threshold: nat,
    pub retention: nat,
}

/// The state after compacting a channel: its buffer leaves the hot tier and,
/// when it held records, their summary is appended to the channel's history.
pub open spec fn compacted(v: StorageView, c: Seq<u8>) -> StorageView {
    match lru_lookup(v.recent, c) {
        Some(batch) => StorageView {
            recent: lru_remove(v.recent, c),
            history: if batch.len() > 0 {
                v.history.insert(
                    c,
                    history_of(v.history, c).push(summary_of(batch, channel_root(v.history, c))),
                )
            } else {
                v.history
            },
            ..v
        },
        None => v,
    }
}

/// The number of records buffered for a channel in the hot tier.
pub open spec fn buffered_count(v: StorageView, c: Seq<u8>) -> nat {
    match lru_lookup(v.recent, c) {
        Some(b) => b.len(),
        None => 0,
    }
}

/// The channel's buffer with `t` appended.
pub open spec fn grown_buffer(v: StorageView, c: Seq<u8>, t: TxView) -> Seq<TxView> {
    match lru_lookup(v.recent, c) {
        Some(b) => b.push(t),
        None => seq![t],
    }
}

/// The state after storing `t` for channel `c`: `t` joins the channel's buffer,
/// which becomes the most recent; a buffer that reaches the threshold is
/// compacted; then `t` is appended to the channel's history.
pub open spec fn after_store(v: StorageView, c: Seq<u8>, t: TxView) -> StorageView {
    let buffer = grown_buffer(v, c, t);
    let buffered = StorageView {
        recent: lru_put(lru_remove(v.recent, c), RECENT_CAPACITY as nat, c, buffer),
        ..v
    };
    let settled = if buffer.len() >= v.threshold {
        compacted(buffered, c)
    } else {
        buffered
    };
    StorageView {
        history: settled.history.insert(c, history_of(settled.history, c).push(t)),
        ..settled
    }
}

/// The record stored for a transition: its root is the channel's root before
/// the record itself is appended.
pub open spec fn new_record(
    v: StorageView,
    c: Seq<u8>,
    timestamp: u64,
    old_commitment: Seq<u8>,
    new_commitment: Seq<u8>,
    metadata_hash: Seq<u8>,
) -> TxView {
    TxView {
        timestamp,
        old_commitment,
        new_commitment,
        metadata_hash,
        merkle_root: channel_root(v.history, c),
    }
}

/// The state after storing, in order, transitions of one channel given as
/// (timestamp, old commitment, new commitment, metadata digest).
pub open spec fn store_sequence(
    v: StorageView,
    c: Seq<u8>,
    steps: Seq<(u64, Seq<u8>, Seq<u8>, Seq<u8>)>,
) -> StorageView
    decreases steps.len(),
{
    if steps.len() == 0 {
        v
    } else {
        let prev = store_sequence(v, c, steps.drop_last());
        let s = steps.last();
        after_store(prev, c, new_record(prev, c, s.0, s.1, s.2, s.3))
    }
}

/// A store that leaves the channel's buffer under the threshold appends the
/// record to the channel's history and to its buffer.
pub proof fn lemma_store_appends(v: StorageView, c: Seq<u8>, t: TxView)
    requires
        lru_wf(v.recent, RECENT_CAPACITY as nat),
        buffered_count(v, c) + 1 < v.threshold,
    ensures
        history_of(after_store(v, c, t).history, c) == history_of(v.history, c).push(t),
        buffered_count(after_store(v, c, t), c) == buffered_count(v, c) + 1,
        lru_wf(after_store(v, c, t).recent, RECENT_CAPACITY as nat),
        after_store(v, c, t).threshold == v.threshold,
{
    lemma_lru_remove(v.recent, RECENT_CAPACITY as nat, c);
    lemma_lru_put_fresh(
        lru_remove(v.recent, c),
        RECENT_CAPACITY as nat,
        c,
        grown_buffer(v, c, t),
    );
}

/// After N stores for one channel that keep its buffer under the threshold,
/// the channel's history has grown by N records and its buffer holds N more.
pub proof fn lemma_append_growth(
    v: StorageView,
    c: Seq<u8>,
    steps: Seq<(u64, Seq<u8>, Seq<u8>, Seq<u8>)>,
)
    requires
        lru_wf(v.recent, RECENT_CAPACITY as nat),
        buffered_count(v, c) + steps.len() < v.threshold,
    ensures
        history_of(store_sequence(v, c, steps).history, c).len() == history_of(v.history, c).len()
            + steps.len(),
        buffered_count(store_sequence(v, c, steps), c) == buffered_count(v, c) + steps.len(),
        lru_wf(store_sequence(v, c, steps).recent, RECENT_CAPACITY as nat),
        store_sequence(v, c, steps).threshold == v.threshold,
    decreases steps.len(),
{
    if steps.len() > 0 {
        lemma_append_growth(v, c, steps.drop_last());
        let prev = store_sequence(v, c, steps.drop_last());
        let s = steps.last();
        lemma_store_appends(prev, c, new_record(prev, c, s.0, s.1, s.2, s.3));
    }
}

/// A store that brings the channel's buffer to the threshold empties the
/// buffer, and appends to the history the batch's summary and then the record.
pub proof fn lemma_store_compacts(v: StorageView, c: Seq<u8>, t: TxView)
    requires
        lru_wf(v.recent, RECENT_CAPACITY as nat),
        buffered_count(v, c) + 1 >= v.threshold,
    ensures
        lru_lookup(after_store(v, c, t).recent, c) is None,
        history_of(after_store(v, c, t).history, c) == history_of(v.history, c).push(
            summary_of(grown_buffer(v, c, t), channel_root(v.history, c)),
        ).push(t),
        lru_wf(after_store(v, c, t).recent, RECENT_CAPACITY as nat),
{
    let b = grown_buffer(v, c, t);
    lemma_lru_remove(v.recent, RECENT_CAPACITY as nat, c);
    lemma_lru_put_fresh(lru_remove(v.recent, c), RECENT_CAPACITY as nat, c, b);
    let put = lru_put(lru_remove(v.recent, c), RECENT_CAPACITY as nat, c, b);
    lemma_lru_remove(put, RECENT_CAPACITY as nat, c);
}

/// Hybrid hot/cold storage for state channels.
pub struct MobileOptimizedStorage {
    active_channels: LruCache<Bytes32, ChannelState>,
    recent_transactions: LruCache<Bytes32, Vec<CompressedTransaction>>,
    transaction_history: ColdStore,
    /// Index of each channel's last committed root; reserved for a root index,
    /// nothing writes it yet.
    channel_roots: Vec<(Bytes32, Bytes32)>,
    /// Buffered records that trigger a compaction.
    compression_threshold: usize,
    /// Seconds of history to keep; stored for a pruning policy.
    retention_period: u64,
}

impl MobileOptimizedStorage {
    pub closed spec fn view(&self) -> StorageView {
        StorageView {
            active: active_entries(self.active_channels),
            recent: recent_entries(self.recent_transactions),
            history: self.transaction_history@,
            roots: self.channel_roots@,
            threshold: self.compression_threshold as nat,
            retention: self.retention_period as nat,
        }
    }

    pub closed spec fn wf(&self) -> bool {
        &&& active_capacity(self.active_channels) == ACTIVE_CAPACITY
        &&& recent_capacity(self.recent_transactions) == RECENT_CAPACITY
        &&& lru_wf(active_entries(self.active_channels), ACTIVE_CAPACITY as nat)
        &&& lru_wf(recent_entries(self.recent_transactions), RECENT_CAPACITY as nat)
        &&& self.transaction_history.wf()
    }

    /// A well-formed store's caches hold each channel at most once and no more
    /// entries than their capacities.
    pub proof fn lemma_caches_wf(&self)
        requires
            self.wf(),
        ensures
            lru_wf(self@.active, ACTIVE_CAPACITY as nat),
            lru_wf(self@.recent, RECENT_CAPACITY as nat),
    {
    }

    /// Creates an empty store.
    pub fn new(compression_threshold: usize, retention_period: u64) -> (r: Self)
        ensures
            r.wf(),
            r@ == (StorageView {
                active: Seq::empty(),
                recent: Seq::empty(),
                history: Map::empty(),
                roots: Seq::empty(),
                threshold: compression_threshold as nat,
                retention: retention_period as nat,
            }),
    {
        MobileOptimizedStorage {
            active_channels: new_active_cache(ACTIVE_CAPACITY),
            recent_transactions: new_recent_cache(RECENT_CAPACITY),
            transaction_history: ColdStore::new(),
            channel_roots: Vec::new(),
            compression_threshold,
            retention_period,
        }
    }

    /// Folds a channel's buffered records into one summary appended to its history.
    fn compress_transactions(&mut self, channel_id: Bytes32)
        requires
            old(self).wf(),
        ensures
            final(self).wf(),
            final(self)@ == compacted(old(self)@, channel_id@),
    {
        match recent_pop(&mut self.recent_transactions, &channel_id) {
            None => {},
            Some(batch) => {
                if batch.len() > 0 {
                    let root = compute_merkle_root(&self.transaction_history, &channel_id);
                    let summary = summarize_batch(&batch, root);
                    self.transaction_history.append(channel_id, summary);
                }
            },
        }
    }

    /// Stores a transition whose metadata is already encoded, compacting the
    /// channel's buffer once it reaches the threshold.
    pub fn store_encoded_transaction(
        &mut self,
        channel_id: Bytes32,
        old_commitment: Bytes32,
        new_commitment: Bytes32,
        proof: StateProof,
        metadata: &[u8],
    )
        requires
            old(self).wf(),
        ensures
            final(self).wf(),
            final(self)@ == after_store(
                old(self)@,
                channel_id@,
                new_record(
                    old(self)@,
                    channel_id@,
                    proof.timestamp,
                    old_commitment@,
                    new_commitment@,
                    sha256_of(metadata@),
                ),
            ),
    {
        let ghost pre = self@;
        let metadata_hash = sha256_hash(metadata);
        let merkle_root = compute_merkle_root(&self.transaction_history, &channel_id);
        let tx = CompressedTransaction {
            timestamp: proof.timestamp,
            old_commitment,
            new_commitment,
            metadata_hash,
            merkle_root,
        };
        let mut buffer = match recent_pop(&mut self.recent_transactions, &channel_id) {
            Some(b) => b,
            None => Vec::new(),
        };
        buffer.push(tx);
        assert(tx_views(buffer@) =~= grown_buffer(pre, channel_id@, tx@));
        let n = buffer.len();
        recent_put(&mut self.recent_transactions, channel_id, buffer);
        if n >= self.compression_threshold {
            self.compress_transactions(channel_id);
        }
        self.transaction_history.append(channel_id, tx);
    }

    /// Stores a transition: digests the metadata's JSON encoding, then stores
    /// as `store_encoded_transaction` does. Encoding a JSON value cannot fail,
    /// so the call succeeds; were it to fail, the store would stay as it was
    /// and the error would be `Other`.
    pub fn store_transaction(
        &mut self,
        channel_id: Bytes32,
        old_commitment: Bytes32,
        new_commitment: Bytes32,
        proof: StateProof,
        metadata: serde_json::Value,
    ) -> (r: Result<(), StorageError>)
        requires
            old(self).wf(),
        ensures
            final(self).wf(),
            r is Ok,
            r is Err ==> final(self)@ == old(self)@ && r matches Err(StorageError::Other(_)),
            r is Ok ==> exists|encoded: Seq<u8>|
                final(self)@ == after_store(
                    old(self)@,
                    channel_id@,
                    new_record(
                        old(self)@,
                        channel_id@,
                        proof.timestamp,
                        old_commitment@,
                        new_commitment@,
                        #[trigger] sha256_of(encoded),
                    ),
                ),
    {
        match encode_metadata(&metadata) {
            Err(e) => Err(StorageError::Other(describe_json_error(&e))),
            Ok(encoded) => {
                self.store_encoded_transaction(
                    channel_id,
                    old_commitment,
                    new_commitment,
                    proof,
                    encoded.as_slice(),
                );
                Ok(())
            },
        }
    }

    /// Caches a channel's live state as its most recent entry, evicting the
    /// least recently used channel when the cache is full.
    pub fn cache_channel_state(&mut self, channel_id: Bytes32, state: ChannelState)
        requires
            old(self).wf(),
        ensures
            final(self).wf(),
            final(self)@ == (StorageView {
                active: lru_put(old(self)@.active, ACTIVE_CAPACITY as nat, channel_id@, state),
                ..old(self)@
            }),
    {
        active_put(&mut self.active_channels, channel_id, state);
    }

    /// A channel's cached live state; reading it makes it the most recent entry.
    pub fn channel_state(&mut self, channel_id: &Bytes32) -> (r: Option<ChannelState>)
        requires
            old(self).wf(),
        ensures
            final(self).wf(),
            r == lru_lookup(old(self)@.active, channel_id@),
            final(self)@ == (StorageView {
                active: lru_touch(old(self)@.active, channel_id@),
                ..old(self)@
            }),
    {
        active_get(&mut self.active_channels, channel_id)
    }

    /// The number of records in a channel's history.
    pub fn history_len(&self, channel_id: &Bytes32) -> (r: usize)
        requires
            self.wf(),
        ensures
            r == history_of(self@.history, channel_id@).len(),
    {
        self.transaction_history.len_of(channel_id)
    }

    /// A channel's full history.
    pub fn history(&self, channel_id: &Bytes32) -> (r: Vec<CompressedTransaction>)
        requires
            self.wf(),
        ensures
            tx_views(r@) == history_of(self@.history, channel_id@),
    {
        self.transaction_history.records_of(channel_id)
    }

    /// The channel's current root over its history.
    pub fn channel_root(&self, channel_id: &Bytes32) -> (r: Bytes32)
        requires
            self.wf(),
        ensures
            r@ == channel_root(self@.history, channel_id@),
    {
        compute_merkle_root(&self.transaction_history, channel_id)
    }

    /// The number of records buffered in the hot tier for a channel, without
    /// changing its recency.
    pub fn buffered_len(&self, channel_id: &Bytes32) -> (r: usize)
        requires
            self.wf(),
        ensures
            r == buffered_count(self@, channel_id@),
    {
        match recent_peek(&self.recent_transactions, channel_id) {
            Some(b) => b.len(),
            None => 0,
        }
    }

    pub fn compression_threshold(&self) -> (r: usize)
        ensures
            r == self@.threshold,
    {
        self.compression_threshold
    }

    pub fn retention_period(&self) -> (r: u64)
        ensures
            r == self@.retention,
    {
        self.retention_period
    }
}

} // verus!
