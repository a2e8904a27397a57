//! Multiproofs: the sibling hashes that authenticate a set of leaves
//! against the root, each shared path counted once.

use crate::gindex::{
    is_ancestor_or_self, is_leaf, is_leaf_index, pow2_u64, sibling, spec_sibling,
    GeneralizedIndex, MAX_DEPTH,
};
use crate::hash::Hash32;
use crate::tree::{hashes_view, node_hash, MerkleError, MerkleTree};
use vstd::arithmetic::power2::{
    lemma2_to64, lemma_pow2_pos, lemma_pow2_strictly_increases, lemma_pow2_unfold, pow2,
};
use vstd::prelude::*;

verus! {

/// The hashes at `indices`, in the same order. `indices` holds the proof
/// indices in ascending order.
#[derive(Debug, Clone, PartialEq, Eq)]
pub struct Multiproof {
    pub indices: Vec<GeneralizedIndex>,
    pub hashes: Vec<Hash32>,
}

/// The set of the indices that a sequence holds.
pub open spec fn index_set(s: Seq<u64>) -> Set<int> {
    Set::new(|p: int| exists|k: int| 0 <= k < s.len() && #[trigger] s[k] == p)
}

/// Node `a` lies on the path from some target up to the root, the target
/// itself included.
pub open spec fn on_target_path(targets: Set<int>, a: int) -> bool {
    exists|t: int| targets.contains(t) && #[trigger] is_ancestor_or_self(a, t)
}

/// The proof indices for a set of targets: the nodes off every target's path
/// whose sibling is on one.
pub open spec fn proof_index_set(targets: Set<int>) -> Set<int> {
    Set::new(
        |p: int| 2 <= p && !on_target_path(targets, p) && on_target_path(targets, spec_sibling(p)),
    )
}

/// Each index is above the one before it.
pub open spec fn strictly_ascending(s: Seq<u64>) -> bool {
    forall|a: int, b: int| 0 <= a < b < s.len() ==> s[a] < s[b]
}

/// Every entry addresses a leaf of a tree of the given depth.
pub open spec fn all_leaves(s: Seq<u64>, depth: nat) -> bool {
    forall|k: int| 0 <= k < s.len() ==> is_leaf_index(#[trigger] s[k] as int, depth)
}

/// Every index has the root on its path.
pub proof fn lemma_root_is_ancestor(i: int)
    requires
        1 <= i,
    ensures
        is_ancestor_or_self(1, i),
    decreases i,
{
    if i > 1 {
        lemma_root_is_ancestor(i / 2);
    }
}

/// A node is on the path of `t` exactly when it is `t` or one of its
/// children is on that path.
pub proof fn lemma_ancestor_through_child(a: int, t: int)
    requires
        1 <= a,
    ensures
        is_ancestor_or_self(a, t) <==> (t == a || is_ancestor_or_self(2 * a, t)
            || is_ancestor_or_self(2 * a + 1, t)),
    decreases t,
{
    if t > a {
        assert(is_ancestor_or_self(a, t) == is_ancestor_or_self(a, t / 2));
        if t >= 2 * a + 2 {
            lemma_ancestor_through_child(a, t / 2);
            assert(is_ancestor_or_self(2 * a, t) == is_ancestor_or_self(2 * a, t / 2));
            assert(is_ancestor_or_self(2 * a + 1, t) == is_ancestor_or_self(2 * a + 1, t / 2));
        } else if t < 2 * a {
            assert(!is_ancestor_or_self(a, t / 2));
        } else {
            assert(t / 2 == a);
            assert(is_ancestor_or_self(a, a));
        }
    }
}

/// An ancestor is never below its descendant.
pub proof fn lemma_ancestor_le(a: int, t: int)
    requires
        is_ancestor_or_self(a, t),
    ensures
        1 <= a <= t,
    decreases t,
{
    if t > a {
        lemma_ancestor_le(a, t / 2);
    }
}

/// Every member of `targets` is a leaf of a tree of the given depth.
pub open spec fn leaf_targets(targets: Set<int>, depth: nat) -> bool {
    forall|t: int| targets.contains(t) ==> is_leaf_index(t, depth)
}

/// Among leaves, only a target is on a target's path.
pub proof fn lemma_leaf_on_path_is_target(targets: Set<int>, depth: nat, a: int)
    requires
        leaf_targets(targets, depth),
        is_leaf_index(a, depth),
    ensures
        on_target_path(targets, a) <==> targets.contains(a),
{
    lemma_pow2_pos(depth);
    lemma_pow2_unfold(depth + 1);
    if on_target_path(targets, a) {
        let t = choose|t: int| targets.contains(t) && #[trigger] is_ancestor_or_self(a, t);
        if t > a {
            assert(!is_ancestor_or_self(a, t / 2));
        }
    }
    if targets.contains(a) {
        assert(is_ancestor_or_self(a, a));
    }
}

/// An inner node is on a target's path exactly when one of its children is.
pub proof fn lemma_inner_on_path(targets: Set<int>, depth: nat, a: int)
    requires
        leaf_targets(targets, depth),
        1 <= a < pow2(depth),
    ensures
        on_target_path(targets, a) <==> (on_target_path(targets, 2 * a) || on_target_path(
            targets,
            2 * a + 1,
        )),
{
    if on_target_path(targets, a) {
        let t = choose|t: int| targets.contains(t) && #[trigger] is_ancestor_or_self(a, t);
        lemma_ancestor_through_child(a, t);
    }
    if on_target_path(targets, 2 * a) {
        let t = choose|t: int| targets.contains(t) && #[trigger] is_ancestor_or_self(2 * a, t);
        lemma_ancestor_through_child(a, t);
    }
    if on_target_path(targets, 2 * a + 1) {
        let t = choose|t: int|
            targets.contains(t) && #[trigger] is_ancestor_or_self(2 * a + 1, t);
        lemma_ancestor_through_child(a, t);
    }
}

/// Every proof index addresses a node of the tree below the root.
pub proof fn lemma_proof_index_in_tree(targets: Set<int>, depth: nat, p: int)
    requires
        leaf_targets(targets, depth),
        proof_index_set(targets).contains(p),
    ensures
        2 <= p < pow2(depth + 1),
{
    let s = spec_sibling(p);
    let t = choose|t: int| targets.contains(t) && #[trigger] is_ancestor_or_self(s, t);
    lemma_ancestor_le(s, t);
    lemma_pow2_unfold(depth + 1);
}

/// `x` is among the first `n` entries of `s`.
pub open spec fn prefix_has(s: Seq<u64>, n: int, x: int) -> bool {
    exists|k: int| 0 <= k < n && #[trigger] s[k] == x
}

/// What makes `indices` and `hashes` the multiproof for `targets` in the
/// tree over `leaves`: the indices are the proof indices in ascending order,
/// and each hash is the tree's node at its index.
pub open spec fn generated(
    leaves: Seq<Seq<u8>>,
    depth: nat,
    targets: Seq<u64>,
    indices: Seq<u64>,
    hashes: Seq<Seq<u8>>,
) -> bool {
    &&& strictly_ascending(indices)
    &&& index_set(indices) == proof_index_set(index_set(targets))
    &&& hashes.len() == indices.len()
    &&& forall|k: int|
        0 <= k < indices.len() ==> #[trigger] hashes[k] == node_hash(
            leaves,
            depth,
            indices[k] as int,
        )
}

/// Two ascending lists of the same indices are one list.
pub proof fn lemma_ascending_unique(a: Seq<u64>, b: Seq<u64>)
    requires
        strictly_ascending(a),
        strictly_ascending(b),
        index_set(a) == index_set(b),
    ensures
        a == b,
    decreases a.len(),
{
    if a.len() == 0 {
        if b.len() > 0 {
            assert(index_set(b).contains(b[0] as int));
            let w = choose|w: int| 0 <= w < a.len() && #[trigger] a[w] == b[0];
        }
        assert(a =~= b);
    } else {
        let x = a.last();
        assert(a[a.len() - 1] == x);
        assert(index_set(a).contains(x as int));
        let at = choose|w: int| 0 <= w < b.len() && #[trigger] b[w] == x;
        let y = b.last();
        assert(b[b.len() - 1] == y);
        assert(index_set(b).contains(y as int));
        let bt = choose|w: int| 0 <= w < a.len() && #[trigger] a[w] == y;
        assert(x == y) by {
            if at < b.len() - 1 {
                assert(b[at] < b[b.len() - 1]);
            }
            if bt < a.len() - 1 {
                assert(a[bt] < a[a.len() - 1]);
            }
        }
        let a0 = a.drop_last();
        let b0 = b.drop_last();
        assert forall|p: int| index_set(a0).contains(p) <==> index_set(b0).contains(p) by {
            if index_set(a0).contains(p) {
                let w = choose|w: int| 0 <= w < a0.len() && #[trigger] a0[w] == p;
                assert(a[w] == p && a[w] < a[a.len() - 1]);
                assert(index_set(a).contains(p));
                let v = choose|v: int| 0 <= v < b.len() && #[trigger] b[v] == p;
                assert(v < b.len() - 1);
                assert(b0[v] == p);
            }
            if index_set(b0).contains(p) {
                let w = choose|w: int| 0 <= w < b0.len() && #[trigger] b0[w] == p;
                assert(b[w] == p && b[w] < b[b.len() - 1]);
                assert(index_set(b).contains(p));
                let v = choose|v: int| 0 <= v < a.len() && #[trigger] a[v] == p;
                assert(v < a.len() - 1);
                assert(a0[v] == p);
            }
        }
        assert(index_set(a0) =~= index_set(b0));
        lemma_ascending_unique(a0, b0);
        assert(a =~= a0.push(x));
        assert(b =~= b0.push(y));
    }
}

/// There is one multiproof for a set of targets in a tree: what `generated`
/// says of two proofs makes them the same proof.
pub proof fn lemma_generated_unique(
    leaves: Seq<Seq<u8>>,
    depth: nat,
    targets: Seq<u64>,
    indices: Seq<u64>,
    hashes: Seq<Seq<u8>>,
    other_indices: Seq<u64>,
    other_hashes: Seq<Seq<u8>>,
)
    requires
        generated(leaves, depth, targets, indices, hashes),
        generated(leaves, depth, targets, other_indices, other_hashes),
    ensures
        indices == other_indices,
        hashes == other_hashes,
{
    lemma_ascending_unique(indices, other_indices);
    assert(hashes =~= other_hashes);
}

/// Why `generate` refuses, if it does: a depth that is not the tree's, then
/// an empty target set, then a target that is no leaf.
pub open spec fn generate_refusal(tree_depth: nat, targets: Seq<u64>, depth: nat) -> Option<
    MerkleError,
> {
    if depth != tree_depth {
        Some(MerkleError::InvalidDepth)
    } else if targets.len() == 0 {
        Some(MerkleError::EmptyTargetSet)
    } else if !all_leaves(targets, depth) {
        Some(MerkleError::IndexOutOfRange)
    } else {
        None
    }
}

/// For each node of the tree, whether it is on the path of some target.
fn mark_paths(targets: &Vec<GeneralizedIndex>, depth: u32) -> (marks: Vec<bool>)
    requires
        depth <= MAX_DEPTH,
        all_leaves(targets@, depth as nat),
    ensures
        marks@.len() == pow2(depth as nat + 1),
        forall|j: int|
            1 <= j < marks@.len() ==> #[trigger] marks@[j] == on_target_path(
                index_set(targets@),
                j,
            ),
{
    proof {
        lemma2_to64();
        lemma_pow2_unfold(depth as nat + 1);
        if depth < 30 {
            lemma_pow2_strictly_increases(depth as nat, 30);
        }
    }
    let ghost d = depth as nat;
    let ghost goal = index_set(targets@);
    let width: usize = pow2_u64(depth) as usize;
    let mut marks: Vec<bool> = Vec::new();
    let mut n: usize = 0;
    while n < 2 * width
        invariant
            n <= 2 * width,
            width <= 0x4000_0000,
            marks@.len() == n,
            forall|j: int| 0 <= j < n ==> !(#[trigger] marks@[j]),
        decreases 2 * width - n,
    {
        marks.push(false);
        n = n + 1;
    }
    let mut k: usize = 0;
    while k < targets.len()
        invariant
            k <= targets@.len(),
            width == pow2(d),
            width <= 0x4000_0000,
            marks@.len() == 2 * width,
            pow2(d + 1) == 2 * width,
            all_leaves(targets@, d),
            forall|j: int|
                0 <= j < 2 * width ==> #[trigger] marks@[j] == (width <= j && prefix_has(
                    targets@,
                    k as int,
                    j,
                )),
        decreases targets@.len() - k,
    {
        let t: u64 = targets[k];
        assert(is_leaf_index(targets@[k as int] as int, d));
        marks.set(t as usize, true);
        k = k + 1;
        assert forall|j: int| 0 <= j < 2 * width implies #[trigger] marks@[j] == (width <= j
            && prefix_has(targets@, k as int, j)) by {
            if prefix_has(targets@, k as int, j) {
                let w = choose|w: int| 0 <= w < k && #[trigger] targets@[w] == j;
                if w < k - 1 {
                    assert(prefix_has(targets@, k - 1, j));
                }
            }
            if prefix_has(targets@, k - 1, j) {
                let w = choose|w: int| 0 <= w < k - 1 && #[trigger] targets@[w] == j;
                assert(0 <= w < k && targets@[w] == j);
            }
            if j == t {
                assert(targets@[k - 1] == j);
            }
        }
    }
    proof {
        assert(leaf_targets(goal, d)) by {
            assert forall|t: int| goal.contains(t) implies is_leaf_index(t, d) by {
                let w = choose|w: int| 0 <= w < targets@.len() && #[trigger] targets@[w] == t;
                assert(is_leaf_index(targets@[w] as int, d));
            }
        }
        assert forall|j: int| width <= j < 2 * width implies #[trigger] marks@[j]
            == on_target_path(goal, j) by {
            lemma_leaf_on_path_is_target(goal, d, j);
            assert(goal.contains(j) == prefix_has(targets@, targets@.len() as int, j));
        }
    }
    let mut i: usize = width;
    while i > 1
        invariant
            1 <= i <= width,
            width == pow2(d),
            width <= 0x4000_0000,
            marks@.len() == 2 * width,
            leaf_targets(goal, d),
            forall|j: int|
                i <= j < 2 * width ==> #[trigger] marks@[j] == on_target_path(goal, j),
        decreases i,
    {
        i = i - 1;
        let either: bool = marks[2 * i] || marks[2 * i + 1];
        proof {
            lemma_inner_on_path(goal, d, i as int);
        }
        marks.set(i, either);
    }
    marks
}

/// Whether every entry of `targets` is a leaf of a tree of the given depth.
pub(crate) fn check_leaves(targets: &Vec<GeneralizedIndex>, depth: u32) -> (out: bool)
    ensures
        out == all_leaves(targets@, depth as nat),
{
    let mut k: usize = 0;
    while k < targets.len()
        invariant
            k <= targets@.len(),
            forall|j: int|
                0 <= j < k ==> is_leaf_index(#[trigger] targets@[j] as int, depth as nat),
        decreases targets@.len() - k,
    {
        if !is_leaf(targets[k], depth) {
            return false;
        }
        k = k + 1;
    }
    true
}

/// Makes the multiproof for `targets` in `tree`: the hashes of the nodes
/// that are off every target's path while their sibling is on one, in
/// ascending order of index.
///
/// Fails with `InvalidDepth` when `depth` is not the tree's depth, with
/// `EmptyTargetSet` when there is no target, and with `IndexOutOfRange` when
/// a target is not a leaf, that is outside `[2^depth, 2^(depth + 1))`.
pub fn generate(tree: &MerkleTree, targets: &Vec<GeneralizedIndex>, depth: u32) -> (out: Result<
    Multiproof,
    MerkleError,
>)
    ensures
        match out {
            Ok(proof) => {
                &&& generate_refusal(tree.spec_depth(), targets@, depth as nat) is None
                &&& generated(
                    tree.leaves(),
                    depth as nat,
                    targets@,
                    proof.indices@,
                    hashes_view(proof.hashes@),
                )
            },
            Err(e) => generate_refusal(tree.spec_depth(), targets@, depth as nat) == Some(e),
        },
{
    if depth != tree.depth() {
        return Err(MerkleError::InvalidDepth);
    }
    if targets.len() == 0 {
        return Err(MerkleError::EmptyTargetSet);
    }
    if !check_leaves(targets, depth) {
        return Err(MerkleError::IndexOutOfRange);
    }
    proof {
        lemma2_to64();
        lemma_pow2_unfold(depth as nat + 1);
        if depth < 30 {
            lemma_pow2_strictly_increases(depth as nat, 30);
        }
    }
    let ghost d = depth as nat;
    let ghost goal = index_set(targets@);
    let marks = mark_paths(targets, depth);
    let width: u64 = pow2_u64(depth);
    let mut indices: Vec<GeneralizedIndex> = Vec::new();
    let mut hashes: Vec<Hash32> = Vec::new();
    let mut p: u64 = 2;
    while p < 2 * width
        invariant
            2 <= p,
            p <= 2 * width || p == 2,
            width == pow2(d),
            width <= 0x4000_0000,
            pow2(d + 1) == 2 * width,
            tree.spec_depth() == d,
            marks@.len() == 2 * width,
            forall|j: int|
                1 <= j < marks@.len() ==> #[trigger] marks@[j] == on_target_path(goal, j),
            strictly_ascending(indices@),
            hashes@.len() == indices@.len(),
            forall|k: int| 0 <= k < indices@.len() ==> 2 <= #[trigger] indices@[k] < p,
            forall|q: int|
                2 <= q < p ==> (proof_index_set(goal).contains(q) <==> prefix_has(
                    indices@,
                    indices@.len() as int,
                    q,
                )),
            forall|k: int|
                0 <= k < indices@.len() ==> (#[trigger] hashes@[k])@ == node_hash(
                    tree.leaves(),
                    d,
                    indices@[k] as int,
                ),
        decreases 2 * width - p,
    {
        let other: u64 = sibling(p);
        let ghost before = indices@;
        if !marks[p as usize] && marks[other as usize] {
            match tree.node_at(p) {
                Ok(h) => {
                    indices.push(p);
                    hashes.push(h);
                },
                Err(_) => {
                    assert(false);
                },
            }
            assert(indices@[before.len() as int] == p);
        }
        proof {
            assert forall|q: int| 2 <= q < p + 1 implies (proof_index_set(goal).contains(q)
                <==> prefix_has(indices@, indices@.len() as int, q)) by {
                if prefix_has(before, before.len() as int, q) {
                    let w = choose|w: int| 0 <= w < before.len() && #[trigger] before[w] == q;
                    assert(indices@[w] == q);
                }
                if prefix_has(indices@, indices@.len() as int, q) {
                    let w = choose|w: int| 0 <= w < indices@.len() && #[trigger] indices@[w] == q;
                    if w < before.len() {
                        assert(before[w] == q);
                    }
                }
            }
        }
        p = p + 1;
    }
    proof {
        assert(leaf_targets(goal, d)) by {
            assert forall|t: int| goal.contains(t) implies is_leaf_index(t, d) by {
                let w = choose|w: int| 0 <= w < targets@.len() && #[trigger] targets@[w] == t;
                assert(is_leaf_index(targets@[w] as int, d));
            }
        }
        assert forall|q: int| proof_index_set(goal).contains(q) <==> index_set(indices@).contains(
            q,
        ) by {
            if proof_index_set(goal).contains(q) {
                lemma_proof_index_in_tree(goal, d, q);
            }
        }
        assert(index_set(indices@) =~= proof_index_set(goal));
    }
    Ok(Multiproof { indices, hashes })
}

} // verus!
