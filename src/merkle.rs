use crate::hash::{hash_pair, pair_hash};
use vstd::prelude::*;

verus! {

/// The all-zero root, reserved to mean "no history".
pub open spec fn zero_root() -> Seq<u8> {
    Seq::new(32, |i: int| 0u8)
}

/// One level up the tree: consecutive nodes are paired left to right, and an
/// odd last node is paired with itself.
pub open spec fn next_level(level: Seq<Seq<u8>>) -> Seq<Seq<u8>> {
    Seq::new(
        ((level.len() + 1) / 2) as nat,
        |i: int|
            pair_hash(
                level[2 * i],
                if 2 * i + 1 < level.len() {
                    level[2 * i + 1]
                } else {
                    level[2 * i]
                },
            ),
    )
}

/// The Merkle root of an ordered list of leaves.
pub open spec fn merkle_root(leaves: Seq<Seq<u8>>) -> Seq<u8>
    decreases leaves.len(),
{
    if leaves.len() == 0 {
        zero_root()
    } else if leaves.len() == 1 {
        leaves[0]
    } else {
        merkle_root(next_level(leaves))
    }
}

/// The leaves as byte sequences.
pub open spec fn leaf_views(leaves: Seq<[u8; 32]>) -> Seq<Seq<u8>> {
    leaves.map_values(|x: [u8; 32]| x@)
}

/// Computes the Merkle root of a list of leaves.
pub fn compute_merkle_root_helper(leaves: Vec<[u8; 32]>) -> (r: [u8; 32])
    ensures
        r@ == merkle_root(leaf_views(leaves@)),
{
    if leaves.len() == 0 {
        let zero = [0u8; 32];
        assert(zero@ =~= zero_root());
        return zero;
    }
    let ghost target = merkle_root(leaf_views(leaves@));
    let mut level = leaves;
    while level.len() > 1
        invariant
            level.len() >= 1,
            merkle_root(leaf_views(level@)) == target,
        decreases level.len(),
    {
        let ghost before = leaf_views(level@);
        if level.len() % 2 != 0 {
            let last = level[level.len() - 1];
            level.push(last);
        }
        let half = level.len() / 2;
        let mut next: Vec<[u8; 32]> = Vec::new();
        let mut i: usize = 0;
        while i < half
            invariant
                half * 2 == level.len(),
                i <= half,
                next@.len() == i,
                forall|j: int|
                    0 <= j < i ==> #[trigger] next@[j]@ == pair_hash(
                        level@[2 * j]@,
                        level@[2 * j + 1]@,
                    ),
            decreases half - i,
        {
            let h = hash_pair(level[2 * i], level[2 * i + 1]);
            next.push(h);
            i += 1;
        }
        assert(leaf_views(next@) =~= next_level(before));
        level = next;
    }
    level[0]
}

/// The root is a function of the leaf sequence: equal leaves give equal roots.
pub proof fn lemma_merkle_root_deterministic(a: Seq<Seq<u8>>, b: Seq<Seq<u8>>)
    requires
        a == b,
    ensures
        merkle_root(a) == merkle_root(b),
{
}

/// No leaves give the zero root, and a single leaf is its own root.
pub proof fn lemma_merkle_root_empty_and_single(x: Seq<u8>)
    ensures
        merkle_root(Seq::empty()) == zero_root(),
        merkle_root(seq![x]) == x,
{
}

/// With three leaves the odd last leaf is paired with itself.
pub proof fn lemma_merkle_root_three(a: Seq<u8>, b: Seq<u8>, c: Seq<u8>)
    ensures
        merkle_root(seq![a, b, c]) == pair_hash(pair_hash(a, b), pair_hash(c, c)),
{
    let first = next_level(seq![a, b, c]);
    assert(first =~= seq![pair_hash(a, b), pair_hash(c, c)]);
    let second = next_level(first);
    assert(second =~= seq![pair_hash(pair_hash(a, b), pair_hash(c, c))]);
    assert(merkle_root(second) == second[0]);
    assert(merkle_root(first) == merkle_root(second));
    assert(merkle_root(seq![a, b, c]) == merkle_root(first));
}

} // verus!
