use crate::hash::Bytes32;
use crate::merkle::{compute_merkle_root_helper, merkle_root};
use crate::record::{tx_views, CompressedTransaction, TxView};
use vstd::prelude::*;

verus! {

/// The full history of one channel.
pub struct ChannelHistory {
    pub channel_id: Bytes32,
    pub records: Vec<CompressedTransaction>,
}

/// The unbounded tier: every channel's full ordered history.
pub struct ColdStore {
    entries: Vec<ChannelHistory>,
}

/// The entries as pairs of channel id and history.
pub open spec fn entry_views(entries: Seq<ChannelHistory>) -> Seq<(Seq<u8>, Seq<TxView>)> {
    entries.map_values(|e: ChannelHistory| (e.channel_id@, tx_views(e.records@)))
}

/// No channel id occurs twice.
pub open spec fn keys_unique(s: Seq<(Seq<u8>, Seq<TxView>)>) -> bool {
    forall|i: int, j: int| 0 <= i < j < s.len() ==> s[i].0 != s[j].0
}

/// The map from channel id to history that a list of unique entries holds.
pub open spec fn history_map(s: Seq<(Seq<u8>, Seq<TxView>)>) -> Map<Seq<u8>, Seq<TxView>>
    decreases s.len(),
{
    if s.len() == 0 {
        Map::empty()
    } else {
        history_map(s.drop_last()).insert(s.last().0, s.last().1)
    }
}

/// A channel's history, empty where the channel has none.
pub open spec fn history_of(m: Map<Seq<u8>, Seq<TxView>>, c: Seq<u8>) -> Seq<TxView> {
    if m.contains_key(c) {
        m[c]
    } else {
        Seq::empty()
    }
}

/// The Merkle roots stored in a history's records, in order.
pub open spec fn stored_roots(h: Seq<TxView>) -> Seq<Seq<u8>> {
    h.map_values(|t: TxView| t.merkle_root)
}

/// A channel's current root: the Merkle root over the roots its records hold.
pub open spec fn channel_root(m: Map<Seq<u8>, Seq<TxView>>, c: Seq<u8>) -> Seq<u8> {
    merkle_root(stored_roots(history_of(m, c)))
}

proof fn lemma_map_lookup(s: Seq<(Seq<u8>, Seq<TxView>)>, i: int)
    requires
        keys_unique(s),
        0 <= i < s.len(),
    ensures
        history_map(s).contains_key(s[i].0),
        history_map(s)[s[i].0] == s[i].1,
    decreases s.len(),
{
    if i < s.len() - 1 {
        lemma_map_lookup(s.drop_last(), i);
    }
}

proof fn lemma_map_absent(s: Seq<(Seq<u8>, Seq<TxView>)>, c: Seq<u8>)
    requires
        forall|i: int| 0 <= i < s.len() ==> s[i].0 != c,
    ensures
        !history_map(s).contains_key(c),
    decreases s.len(),
{
    if s.len() > 0 {
        lemma_map_absent(s.drop_last(), c);
    }
}

proof fn lemma_map_update(s: Seq<(Seq<u8>, Seq<TxView>)>, i: int, v: Seq<TxView>)
    requires
        keys_unique(s),
        0 <= i < s.len(),
    ensures
        history_map(s.update(i, (s[i].0, v))) == history_map(s).insert(s[i].0, v),
    decreases s.len(),
{
    let t = s.update(i, (s[i].0, v));
    if i == s.len() - 1 {
        assert(t.drop_last() =~= s.drop_last());
        assert(history_map(t) =~= history_map(s).insert(s[i].0, v));
    } else {
        assert(t.drop_last() =~= s.drop_last().update(i, (s[i].0, v)));
        lemma_map_update(s.drop_last(), i, v);
        assert(history_map(t) =~= history_map(s).insert(s[i].0, v));
    }
}

/// A channel's current root: the Merkle root over the roots stored in its
/// history's records, or the zero root where it has none.
pub fn compute_merkle_root(transaction_history: &ColdStore, channel_id: &Bytes32) -> (r: Bytes32)
    requires
        transaction_history.wf(),
    ensures
        r@ == channel_root(transaction_history@, channel_id@),
{
    let leaves = transaction_history.roots_of(channel_id);
    compute_merkle_root_helper(leaves)
}

/// Whether two ids are byte for byte equal.
fn bytes32_eq(a: &Bytes32, b: &Bytes32) -> (r: bool)
    ensures
        r == (a@ == b@),
{
    let mut i: usize = 0;
    while i < 32
        invariant
            i <= 32,
            a@.len() == 32,
            b@.len() == 32,
            forall|j: int| 0 <= j < i ==> a@[j] == b@[j],
        decreases 32 - i,
    {
        if a[i] != b[i] {
            return false;
        }
        i += 1;
    }
    assert(a@ =~= b@);
    true
}

impl ColdStore {
    /// The histories as a map from channel id.
    pub closed spec fn view(&self) -> Map<Seq<u8>, Seq<TxView>> {
        history_map(entry_views(self.entries@))
    }

    pub closed spec fn wf(&self) -> bool {
        keys_unique(entry_views(self.entries@))
    }

    pub fn new() -> (r: ColdStore)
        ensures
            r.wf(),
            r@ == Map::<Seq<u8>, Seq<TxView>>::empty(),
    {
        ColdStore { entries: Vec::new() }
    }

    /// The position of a channel's entry.
    fn find(&self, c: &Bytes32) -> (r: Option<usize>)
        requires
            self.wf(),
        ensures
            r matches Some(i) ==> i < self.entries@.len() && self.entries@[i as int].channel_id@
                == c@,
            r is None ==> !self@.contains_key(c@),
    {
        let ghost ev = entry_views(self.entries@);
        let mut i: usize = 0;
        while i < self.entries.len()
            invariant
                i <= self.entries@.len(),
                ev == entry_views(self.entries@),
                forall|j: int| 0 <= j < i ==> ev[j].0 != c@,
            decreases self.entries.len() - i,
        {
            if bytes32_eq(&self.entries[i].channel_id, c) {
                return Some(i);
            }
            i += 1;
        }
        proof {
            lemma_map_absent(ev, c@);
        }
        None
    }

    /// The Merkle roots stored in a channel's records, in order.
    pub fn roots_of(&self, c: &Bytes32) -> (r: Vec<Bytes32>)
        requires
            self.wf(),
        ensures
            r@.map_values(|x: Bytes32| x@) == stored_roots(history_of(self@, c@)),
    {
        let mut out: Vec<Bytes32> = Vec::new();
        match self.find(c) {
            None => {
                assert(out@.map_values(|x: Bytes32| x@) =~= stored_roots(history_of(self@, c@)));
            },
            Some(k) => {
                let ghost ev = entry_views(self.entries@);
                proof {
                    lemma_map_lookup(ev, k as int);
                }
                let recs = &self.entries[k].records;
                let mut i: usize = 0;
                while i < recs.len()
                    invariant
                        i <= recs@.len(),
                        out@.len() == i,
                        forall|j: int|
                            0 <= j < i ==> (#[trigger] out@[j])@ == recs@[j].merkle_root@,
                    decreases recs.len() - i,
                {
                    out.push(recs[i].merkle_root);
                    i += 1;
                }
                assert(out@.map_values(|x: Bytes32| x@) =~= stored_roots(history_of(self@, c@)));
            },
        }
        out
    }

    /// The number of records in a channel's history.
    pub fn len_of(&self, c: &Bytes32) -> (r: usize)
        requires
            self.wf(),
        ensures
            r == history_of(self@, c@).len(),
    {
        match self.find(c) {
            None => 0,
            Some(k) => {
                proof {
                    lemma_map_lookup(entry_views(self.entries@), k as int);
                }
                self.entries[k].records.len()
            },
        }
    }

    /// A copy of a channel's history.
    pub fn records_of(&self, c: &Bytes32) -> (r: Vec<CompressedTransaction>)
        requires
            self.wf(),
        ensures
            tx_views(r@) == history_of(self@, c@),
    {
        match self.find(c) {
            None => {
                let r: Vec<CompressedTransaction> = Vec::new();
                assert(tx_views(r@) =~= Seq::<TxView>::empty());
                r
            },
            Some(k) => {
                proof {
                    lemma_map_lookup(entry_views(self.entries@), k as int);
                }
                let recs = &self.entries[k].records;
                let mut out: Vec<CompressedTransaction> = Vec::new();
                let mut i: usize = 0;
                while i < recs.len()
                    invariant
                        i <= recs@.len(),
                        out@ == recs@.take(i as int),
                    decreases recs.len() - i,
                {
                    out.push(recs[i]);
                    i += 1;
                    assert(out@ =~= recs@.take(i as int));
                }
                assert(recs@.take(recs@.len() as int) =~= recs@);
                out
            },
        }
    }

    /// Appends a record to a channel's history, creating the history if needed.
    pub fn append(&mut self, c: Bytes32, t: CompressedTransaction)
        requires
            old(self).wf(),
        ensures
            final(self).wf(),
            final(self)@ == old(self)@.insert(c@, history_of(old(self)@, c@).push(t@)),
    {
        let ghost ev = entry_views(self.entries@);
        match self.find(&c) {
            Some(k) => {
                proof {
                    lemma_map_lookup(ev, k as int);
                    lemma_map_update(ev, k as int, ev[k as int].1.push(t@));
                }
                let ghost before = self.entries@;
                self.entries[k].records.push(t);
                assert(self.entries@[k as int].records@ == before[k as int].records@.push(t));
                assert(tx_views(self.entries@[k as int].records@) =~= ev[k as int].1.push(t@));
                assert(entry_views(self.entries@) =~= ev.update(
                    k as int,
                    (ev[k as int].0, ev[k as int].1.push(t@)),
                ));
                let ghost nv = entry_views(self.entries@);
                assert forall|i: int, j: int| 0 <= i < j < nv.len() implies nv[i].0 != nv[j].0 by {
                    assert(ev[i].0 != ev[j].0);
                }
            },
            None => {
                let mut recs: Vec<CompressedTransaction> = Vec::new();
                recs.push(t);
                self.entries.push(ChannelHistory { channel_id: c, records: recs });
                let ghost nv = entry_views(self.entries@);
                assert(nv.drop_last() =~= ev);
                assert(nv.last().1 =~= seq![t@]);
                assert(history_of(old(self)@, c@).push(t@) =~= seq![t@]);
                assert forall|i: int| 0 <= i < ev.len() implies ev[i].0 != c@ by {
                    if ev[i].0 == c@ {
                        lemma_map_lookup(ev, i);
                    }
                }
                assert forall|i: int, j: int| 0 <= i < j < nv.len() implies nv[i].0 != nv[j].0 by {
                    if j == ev.len() {
                        assert(nv[i] == ev[i]);
                    } else {
                        assert(nv[i] == ev[i] && nv[j] == ev[j]);
                    }
                }
            },
        }
    }
}

} // verus!
