use crate::hash::Bytes32;
use crate::record::{tx_views, CompressedTransaction, TxView};
use lru::LruCache;
use vstd::prelude::*;

verus! {

/// A channel's live state, held opaquely as its encoding.
#[derive(Clone, Debug, PartialEq, Eq)]
pub struct ChannelState {
    pub encoded: Vec<u8>,
}

#[verifier::external_type_specification]
#[verifier::external_body]
#[verifier::reject_recursive_types(K)]
#[verifier::reject_recursive_types(V)]
#[verifier::reject_recursive_types(S)]
pub struct ExLruCache<K, V, S>(LruCache<K, V, S>);

#[verifier::external_type_specification]
#[verifier::external_body]
pub struct ExLruHasher(lru::DefaultHasher);

/// What a cache of channel states holds, least recently used first.
pub uninterp spec fn active_entries(c: LruCache<Bytes32, ChannelState>) -> Seq<(Seq<u8>, ChannelState)>;

/// The capacity a cache of channel states was made with.
pub uninterp spec fn active_capacity(c: LruCache<Bytes32, ChannelState>) -> nat;

/// What a cache of transaction buffers holds, least recently used first.
pub uninterp spec fn recent_entries(c: LruCache<Bytes32, Vec<CompressedTransaction>>) -> Seq<
    (Seq<u8>, Seq<TxView>),
>;

/// The capacity a cache of transaction buffers was made with.
pub uninterp spec fn recent_capacity(c: LruCache<Bytes32, Vec<CompressedTransaction>>) -> nat;

/// Whether a key is cached.
pub open spec fn lru_has<V>(s: Seq<(Seq<u8>, V)>, k: Seq<u8>) -> bool {
    exists|i: int| 0 <= i < s.len() && s[i].0 == k
}

/// The position of a cached key.
pub open spec fn lru_index<V>(s: Seq<(Seq<u8>, V)>, k: Seq<u8>) -> int {
    choose|i: int| 0 <= i < s.len() && s[i].0 == k
}

/// A cache's contents are well formed: no key twice, no more than `cap` entries.
pub open spec fn lru_wf<V>(s: Seq<(Seq<u8>, V)>, cap: nat) -> bool {
    &&& s.len() <= cap
    &&& forall|i: int, j: int| 0 <= i < j < s.len() ==> s[i].0 != s[j].0
}

/// The value cached under a key.
pub open spec fn lru_lookup<V>(s: Seq<(Seq<u8>, V)>, k: Seq<u8>) -> Option<V> {
    if lru_has(s, k) {
        Some(s[lru_index(s, k)].1)
    } else {
        None
    }
}

/// The contents without a key.
pub open spec fn lru_remove<V>(s: Seq<(Seq<u8>, V)>, k: Seq<u8>) -> Seq<(Seq<u8>, V)> {
    if lru_has(s, k) {
        s.remove(lru_index(s, k))
    } else {
        s
    }
}

/// The contents after `put`: the key becomes the most recent entry; a new key
/// in a full cache evicts the least recent one.
pub open spec fn lru_put<V>(s: Seq<(Seq<u8>, V)>, cap: nat, k: Seq<u8>, v: V) -> Seq<
    (Seq<u8>, V),
> {
    if lru_has(s, k) {
        lru_remove(s, k).push((k, v))
    } else if s.len() >= cap {
        s.drop_first().push((k, v))
    } else {
        s.push((k, v))
    }
}

/// The contents after reading a key: a cached key becomes the most recent.
pub open spec fn lru_touch<V>(s: Seq<(Seq<u8>, V)>, k: Seq<u8>) -> Seq<(Seq<u8>, V)> {
    if lru_has(s, k) {
        lru_remove(s, k).push((k, s[lru_index(s, k)].1))
    } else {
        s
    }
}

/// Removing a key from well-formed contents leaves exactly the other keys.
pub proof fn lemma_lru_remove<V>(s: Seq<(Seq<u8>, V)>, cap: nat, k: Seq<u8>)
    requires
        lru_wf(s, cap),
    ensures
        lru_wf(lru_remove(s, k), cap),
        !lru_has(lru_remove(s, k), k),
        lru_remove(s, k).len() == if lru_has(s, k) {
            s.len() - 1
        } else {
            s.len() as int
        },
        forall|j: Seq<u8>| j != k ==> (lru_has(lru_remove(s, k), j) <==> lru_has(s, j)),
{
    if lru_has(s, k) {
        let i = lru_index(s, k);
        let r = s.remove(i);
        assert forall|m: int| 0 <= m < r.len() implies r[m] == (if m < i {
            s[m]
        } else {
            s[m + 1]
        }) by {}
        assert forall|j: Seq<u8>| j != k && lru_has(s, j) implies lru_has(r, j) by {
            let w = choose|w: int| 0 <= w < s.len() && s[w].0 == j;
            if w < i {
                assert(r[w].0 == j);
            } else {
                assert(r[w - 1].0 == j);
            }
        }
    }
}

/// Putting a key that is not cached makes it the most recent entry, with its value.
pub proof fn lemma_lru_put_fresh<V>(s: Seq<(Seq<u8>, V)>, cap: nat, k: Seq<u8>, v: V)
    requires
        lru_wf(s, cap),
        cap > 0,
        !lru_has(s, k),
    ensures
        lru_wf(lru_put(s, cap, k, v), cap),
        lru_put(s, cap, k, v).last() == (k, v),
        lru_lookup(lru_put(s, cap, k, v), k) == Some(v),
{
    let p = lru_put(s, cap, k, v);
    assert(p[p.len() - 1].0 == k);
    assert forall|i: int, j: int| 0 <= i < j < p.len() implies p[i].0 != p[j].0 by {
        if s.len() >= cap {
            assert(p[i] == s[i + 1]);
            if j < p.len() - 1 {
                assert(p[j] == s[j + 1]);
            }
        } else {
            assert(p[i] == s[i]);
        }
    }
}

/// In a full cache, a new key evicts the least recently used entry and keeps
/// every other one.
pub proof fn lemma_lru_put_evicts_oldest<V>(s: Seq<(Seq<u8>, V)>, cap: nat, k: Seq<u8>, v: V)
    requires
        lru_wf(s, cap),
        cap > 0,
        s.len() == cap,
        !lru_has(s, k),
    ensures
        !lru_has(lru_put(s, cap, k, v), s[0].0),
        forall|i: int| 1 <= i < s.len() ==> lru_has(lru_put(s, cap, k, v), #[trigger] s[i].0),
        lru_lookup(lru_put(s, cap, k, v), k) == Some(v),
{
    lemma_lru_put_fresh(s, cap, k, v);
    let p = lru_put(s, cap, k, v);
    assert forall|i: int| 1 <= i < s.len() implies lru_has(p, #[trigger] s[i].0) by {
        assert(p[i - 1] == s[i]);
    }
    if lru_has(p, s[0].0) {
        let w = choose|w: int| 0 <= w < p.len() && p[w].0 == s[0].0;
        if w < p.len() - 1 {
            assert(p[w] == s[w + 1]);
        } else {
            assert(s[0].0 == k);
        }
    }
}

/// Reading a cached key makes it the most recent entry and keeps every key.
pub proof fn lemma_lru_touch_refreshes<V>(s: Seq<(Seq<u8>, V)>, cap: nat, k: Seq<u8>)
    requires
        lru_wf(s, cap),
        lru_has(s, k),
    ensures
        lru_wf(lru_touch(s, k), cap),
        lru_touch(s, k).len() == s.len(),
        lru_touch(s, k).last().0 == k,
        forall|j: Seq<u8>| lru_has(lru_touch(s, k), j) <==> lru_has(s, j),
{
    lemma_lru_remove(s, cap, k);
    let r = lru_remove(s, k);
    let t = lru_touch(s, k);
    assert(t == r.push((k, s[lru_index(s, k)].1)));
    assert forall|i: int, j: int| 0 <= i < j < t.len() implies t[i].0 != t[j].0 by {
        if j == t.len() - 1 {
            assert(t[i] == r[i]);
            assert(lru_has(r, t[i].0));
        } else {
            assert(t[i] == r[i] && t[j] == r[j]);
        }
    }
    assert forall|j: Seq<u8>| lru_has(t, j) <==> lru_has(s, j) by {
        if j != k {
            if lru_has(r, j) {
                let w = choose|w: int| 0 <= w < r.len() && r[w].0 == j;
                assert(t[w] == r[w]);
            }
            if lru_has(t, j) {
                let w = choose|w: int| 0 <= w < t.len() && t[w].0 == j;
                assert(t[w] == r[w]);
            }
        } else {
            assert(t[t.len() - 1].0 == k);
        }
    }
}

/// Relies on `lru::LruCache::new`: an empty cache holding at most `cap` entries.
#[verifier::external_body]
pub(crate) fn new_active_cache(cap: usize) -> (r: LruCache<Bytes32, ChannelState>)
    requires
        cap > 0,
    ensures
        active_entries(r) == Seq::<(Seq<u8>, ChannelState)>::empty(),
        active_capacity(r) == cap,
{
    LruCache::new(std::num::NonZeroUsize::new(cap).unwrap())
}

/// Relies on `lru::LruCache::put`: the key's entry becomes the most recent,
/// replacing its value or, in a full cache, evicting the least recent entry.
#[verifier::external_body]
pub(crate) fn active_put(c: &mut LruCache<Bytes32, ChannelState>, k: Bytes32, v: ChannelState)
    ensures
        active_entries(*final(c)) == lru_put(active_entries(*old(c)), active_capacity(*old(c)), k@, v),
        active_capacity(*final(c)) == active_capacity(*old(c)),
        lru_wf(active_entries(*final(c)), active_capacity(*final(c))),
{
    c.put(k, v);
}

/// Relies on `lru::LruCache::get`: the cached value, whose entry becomes the
/// most recent; the value is handed out as a clone.
#[verifier::external_body]
pub(crate) fn active_get(c: &mut LruCache<Bytes32, ChannelState>, k: &Bytes32) -> (r: Option<
    ChannelState,
>)
    ensures
        r == lru_lookup(active_entries(*old(c)), k@),
        active_entries(*final(c)) == lru_touch(active_entries(*old(c)), k@),
        active_capacity(*final(c)) == active_capacity(*old(c)),
        lru_wf(active_entries(*final(c)), active_capacity(*final(c))),
{
    c.get(k).cloned()
}

/// Relies on `lru::LruCache::new`: an empty cache holding at most `cap` entries.
#[verifier::external_body]
pub(crate) fn new_recent_cache(cap: usize) -> (r: LruCache<Bytes32, Vec<CompressedTransaction>>)
    requires
        cap > 0,
    ensures
        recent_entries(r) == Seq::<(Seq<u8>, Seq<TxView>)>::empty(),
        recent_capacity(r) == cap,
{
    LruCache::new(std::num::NonZeroUsize::new(cap).unwrap())
}

/// Relies on `lru::LruCache::put`: the key's entry becomes the most recent,
/// replacing its value or, in a full cache, evicting the least recent entry.
#[verifier::external_body]
pub(crate) fn recent_put(
    c: &mut LruCache<Bytes32, Vec<CompressedTransaction>>,
    k: Bytes32,
    v: Vec<CompressedTransaction>,
)
    ensures
        recent_entries(*final(c)) == lru_put(
            recent_entries(*old(c)),
            recent_capacity(*old(c)),
            k@,
            tx_views(v@),
        ),
        recent_capacity(*final(c)) == recent_capacity(*old(c)),
        lru_wf(recent_entries(*final(c)), recent_capacity(*final(c))),
{
    c.put(k, v);
}

/// Relies on `lru::LruCache::pop`: removes the key's entry and hands back its value.
#[verifier::external_body]
pub(crate) fn recent_pop(c: &mut LruCache<Bytes32, Vec<CompressedTransaction>>, k: &Bytes32) -> (r:
    Option<Vec<CompressedTransaction>>)
    ensures
        r is None <==> !lru_has(recent_entries(*old(c)), k@),
        r matches Some(v) ==> lru_lookup(recent_entries(*old(c)), k@) == Some(tx_views(v@)),
        recent_entries(*final(c)) == lru_remove(recent_entries(*old(c)), k@),
        recent_capacity(*final(c)) == recent_capacity(*old(c)),
        lru_wf(recent_entries(*final(c)), recent_capacity(*final(c))),
{
    c.pop(k)
}

/// Relies on `lru::LruCache::peek`: the cached value, leaving the order as it is.
#[verifier::external_body]
pub(crate) fn recent_peek<'a>(c: &'a LruCache<Bytes32, Vec<CompressedTransaction>>, k: &Bytes32) -> (r:
    Option<&'a Vec<CompressedTransaction>>)
    ensures
        r is None <==> !lru_has(recent_entries(*c), k@),
        r matches Some(v) ==> lru_lookup(recent_entries(*c), k@) == Some(tx_views(v@)),
{
    c.peek(k)
}

} // verus!
