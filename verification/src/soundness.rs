//! What ties generation and verification together.

use crate::gindex::{in_tree, is_ancestor_or_self, is_leaf_index, spec_sibling};
use crate::hash::sha256_digest;
use crate::multiproof::{
    all_leaves, generated, index_set, leaf_targets, lemma_ancestor_le,
    lemma_ancestor_through_child, lemma_inner_on_path, lemma_leaf_on_path_is_target,
    lemma_proof_index_in_tree, lemma_root_is_ancestor, on_target_path, prefix_has,
    proof_index_set, strictly_ascending,
};
use crate::proof_check::{
    distinct, lemma_ancestor_step, position_of, reconstruct, verify_spec,
};
use crate::tree::{node_hash, root_hash};
use vstd::arithmetic::power2::{
    lemma2_to64, lemma_pow2_pos, lemma_pow2_strictly_increases, lemma_pow2_unfold, pow2,
};
use vstd::prelude::*;

verus! {

/// The claimed values are the tree's own: each is the node at its target.
pub open spec fn claims_actual(
    leaves: Seq<Seq<u8>>,
    depth: nat,
    targets: Seq<u64>,
    claimed: Seq<Seq<u8>>,
) -> bool {
    &&& claimed.len() == targets.len()
    &&& forall|k: int|
        0 <= k < targets.len() ==> #[trigger] claimed[k] == node_hash(
            leaves,
            depth,
            targets[k] as int,
        )
}

/// The members of `index_set(targets)` are leaves when the entries of `targets` are.
pub proof fn lemma_leaf_targets(targets: Seq<u64>, depth: nat)
    requires
        all_leaves(targets, depth),
    ensures
        leaf_targets(index_set(targets), depth),
{
    assert forall|t: int| index_set(targets).contains(t) implies is_leaf_index(t, depth) by {
        let w = choose|w: int| 0 <= w < targets.len() && #[trigger] targets[w] == t;
        assert(is_leaf_index(targets[w] as int, depth));
    }
}

/// With the tree's own values claimed and the tree's own proof, each node
/// on a target's path, and each proof node, is recomputed as the tree has it.
proof fn lemma_reconstruct_matches(
    leaves: Seq<Seq<u8>>,
    depth: nat,
    targets: Seq<u64>,
    claimed: Seq<Seq<u8>>,
    indices: Seq<u64>,
    hashes: Seq<Seq<u8>>,
    i: int,
)
    requires
        all_leaves(targets, depth),
        claims_actual(leaves, depth, targets, claimed),
        generated(leaves, depth, targets, indices, hashes),
        in_tree(i, depth),
        on_target_path(index_set(targets), i) || proof_index_set(index_set(targets)).contains(i),
    ensures
        reconstruct(targets, claimed, indices, hashes, depth, i) == Some(
            node_hash(leaves, depth, i),
        ),
    decreases pow2(depth + 1) - i,
{
    let goal = index_set(targets);
    lemma_leaf_targets(targets, depth);
    lemma_pow2_unfold(depth + 1);
    if prefix_has(targets, targets.len() as int, i) {
        let k = position_of(targets, i);
        assert(claimed[k] == node_hash(leaves, depth, targets[k] as int));
    } else if prefix_has(indices, indices.len() as int, i) {
        let k = position_of(indices, i);
        assert(hashes[k] == node_hash(leaves, depth, indices[k] as int));
    } else {
        assert(!index_set(indices).contains(i));
        assert(on_target_path(goal, i));
        assert(!goal.contains(i));
        if i >= pow2(depth) {
            lemma_leaf_on_path_is_target(goal, depth, i);
        }
        lemma_inner_on_path(goal, depth, i);
        let l = 2 * i;
        let r = 2 * i + 1;
        assert(spec_sibling(l) == r && spec_sibling(r) == l);
        lemma_reconstruct_matches(leaves, depth, targets, claimed, indices, hashes, l);
        lemma_reconstruct_matches(leaves, depth, targets, claimed, indices, hashes, r);
    }
}

/// A multiproof generated from a tree verifies against that tree's root when
/// the claimed values are the tree's own leaves at the targets.
///
/// `asked` is the target list the proof was generated for; `targets` lists
/// the same set without repetition, as verification wants it.
pub proof fn lemma_generated_proof_verifies(
    leaves: Seq<Seq<u8>>,
    depth: nat,
    asked: Seq<u64>,
    targets: Seq<u64>,
    claimed: Seq<Seq<u8>>,
    indices: Seq<u64>,
    hashes: Seq<Seq<u8>>,
)
    requires
        targets.len() > 0,
        all_leaves(targets, depth),
        distinct(targets),
        index_set(asked) == index_set(targets),
        claims_actual(leaves, depth, targets, claimed),
        generated(leaves, depth, asked, indices, hashes),
    ensures
        verify_spec(root_hash(leaves, depth), targets, claimed, indices, hashes, depth),
{
    let goal = index_set(targets);
    assert(goal.contains(targets[0] as int));
    assert(is_leaf_index(targets[0] as int, depth));
    lemma_pow2_pos(depth);
    lemma_root_is_ancestor(targets[0] as int);
    assert(on_target_path(goal, 1));
    lemma_pow2_strictly_increases(0, depth + 1);
    lemma2_to64();
    lemma_reconstruct_matches(leaves, depth, targets, claimed, indices, hashes, 1);
}

/// Two different byte strings with one SHA-256 digest.
pub open spec fn hash_collision() -> bool {
    exists|a: Seq<u8>, b: Seq<u8>|
        a != b && #[trigger] sha256_digest(a) == #[trigger] sha256_digest(b)
}

/// Every value is 32 bytes long, as the view of a hash value is.
pub open spec fn all_hash_sized(values: Seq<Seq<u8>>) -> bool {
    forall|k: int| 0 <= k < values.len() ==> (#[trigger] values[k]).len() == 32
}

/// The proof's hashes are the tree's own: each is the node at its index.
pub open spec fn proof_actual(
    leaves: Seq<Seq<u8>>,
    depth: nat,
    indices: Seq<u64>,
    hashes: Seq<Seq<u8>>,
) -> bool {
    &&& hashes.len() == indices.len()
    &&& forall|j: int|
        0 <= j < indices.len() ==> #[trigger] hashes[j] == node_hash(
            leaves,
            depth,
            indices[j] as int,
        )
}

/// An ancestor's ancestor is an ancestor.
pub proof fn lemma_ancestor_transitive(a: int, b: int, c: int)
    requires
        is_ancestor_or_self(a, b),
        is_ancestor_or_self(b, c),
    ensures
        is_ancestor_or_self(a, c),
    decreases c,
{
    lemma_ancestor_le(a, b);
    if c > b {
        lemma_ancestor_transitive(a, b, c / 2);
    }
}

/// Every node of a tree over 32-byte leaves holds 32 bytes.
pub proof fn lemma_node_hash_len(leaves: Seq<Seq<u8>>, depth: nat, i: int)
    requires
        all_hash_sized(leaves),
        1 <= i,
    ensures
        node_hash(leaves, depth, i).len() == 32,
{
    if i >= pow2(depth) {
        let pos = i - pow2(depth);
        if 0 <= pos < leaves.len() {
            assert(leaves[pos].len() == 32);
        }
    }
}

/// Whatever is recomputed from 32-byte values is 32 bytes long.
proof fn lemma_reconstruct_len(
    targets: Seq<u64>,
    claimed: Seq<Seq<u8>>,
    indices: Seq<u64>,
    hashes: Seq<Seq<u8>>,
    depth: nat,
    i: int,
)
    requires
        claimed.len() == targets.len(),
        hashes.len() == indices.len(),
        all_hash_sized(claimed),
        all_hash_sized(hashes),
        1 <= i,
    ensures
        reconstruct(targets, claimed, indices, hashes, depth, i) matches Some(v) ==> v.len() == 32,
{
    if prefix_has(targets, targets.len() as int, i) {
        let k = position_of(targets, i);
        assert(claimed[k].len() == 32);
    } else if prefix_has(indices, indices.len() as int, i) {
        let k = position_of(indices, i);
        assert(hashes[k].len() == 32);
    }
}

/// Among the nodes at or below the last level, a node is on the path of a
/// leaf only where it is that leaf.
proof fn lemma_leaf_level_path(depth: nat, a: int, t: int)
    requires
        pow2(depth) <= a,
        t < pow2(depth + 1),
        is_ancestor_or_self(a, t),
    ensures
        a == t,
{
    lemma_pow2_unfold(depth + 1);
    if t > a {
        assert(is_ancestor_or_self(a, t / 2));
        lemma_ancestor_le(a, t / 2);
    }
}

/// What an accepted proof fixes about the claims and the proof's hashes.
pub open spec fn proof_shape(
    targets: Seq<u64>,
    claimed: Seq<Seq<u8>>,
    indices: Seq<u64>,
    hashes: Seq<Seq<u8>>,
    depth: nat,
) -> bool {
    &&& claimed.len() == targets.len()
    &&& all_leaves(targets, depth)
    &&& distinct(targets)
    &&& hashes.len() == indices.len()
    &&& strictly_ascending(indices)
    &&& index_set(indices) == proof_index_set(index_set(targets))
}

/// Where no two byte strings collide, a node that is recomputed as the tree
/// has it pins every claim and every proof hash at or below it.
proof fn lemma_agree_below(
    leaves: Seq<Seq<u8>>,
    depth: nat,
    targets: Seq<u64>,
    claimed: Seq<Seq<u8>>,
    indices: Seq<u64>,
    hashes: Seq<Seq<u8>>,
    i: int,
)
    requires
        !hash_collision(),
        all_hash_sized(leaves),
        all_hash_sized(claimed),
        all_hash_sized(hashes),
        proof_shape(targets, claimed, indices, hashes, depth),
        in_tree(i, depth),
        on_target_path(index_set(targets), i) || proof_index_set(index_set(targets)).contains(i),
        reconstruct(targets, claimed, indices, hashes, depth, i) == Some(
            node_hash(leaves, depth, i),
        ),
    ensures
        forall|k: int|
            0 <= k < targets.len() && is_ancestor_or_self(i, #[trigger] targets[k] as int)
                ==> claimed[k] == node_hash(leaves, depth, targets[k] as int),
        forall|j: int|
            0 <= j < indices.len() && is_ancestor_or_self(i, #[trigger] indices[j] as int)
                ==> hashes[j] == node_hash(leaves, depth, indices[j] as int),
    decreases pow2(depth + 1) - i,
{
    let goal = index_set(targets);
    lemma_leaf_targets(targets, depth);
    lemma_pow2_unfold(depth + 1);
    if prefix_has(targets, targets.len() as int, i) {
        let k0 = position_of(targets, i);
        assert(is_leaf_index(targets[k0] as int, depth));
        assert(goal.contains(i));
        assert(is_ancestor_or_self(i, i));
        assert forall|k: int|
            0 <= k < targets.len() && is_ancestor_or_self(
                i,
                #[trigger] targets[k] as int,
            ) implies claimed[k] == node_hash(leaves, depth, targets[k] as int) by {
            assert(is_leaf_index(targets[k] as int, depth));
            lemma_leaf_level_path(depth, i, targets[k] as int);
            if k < k0 {
                assert(targets[k] != targets[k0]);
            } else if k0 < k {
                assert(targets[k0] != targets[k]);
            }
        }
        assert forall|j: int|
            0 <= j < indices.len() && is_ancestor_or_self(
                i,
                #[trigger] indices[j] as int,
            ) implies hashes[j] == node_hash(leaves, depth, indices[j] as int) by {
            assert(index_set(indices).contains(indices[j] as int));
            lemma_proof_index_in_tree(goal, depth, indices[j] as int);
            lemma_leaf_level_path(depth, i, indices[j] as int);
        }
    } else if prefix_has(indices, indices.len() as int, i) {
        let j0 = position_of(indices, i);
        assert(index_set(indices).contains(i));
        assert(!on_target_path(goal, i));
        assert forall|k: int|
            0 <= k < targets.len() && is_ancestor_or_self(
                i,
                #[trigger] targets[k] as int,
            ) implies claimed[k] == node_hash(leaves, depth, targets[k] as int) by {
            assert(goal.contains(targets[k] as int));
        }
        assert forall|j: int|
            0 <= j < indices.len() && is_ancestor_or_self(
                i,
                #[trigger] indices[j] as int,
            ) implies hashes[j] == node_hash(leaves, depth, indices[j] as int) by {
            let p = indices[j] as int;
            if p == i {
                if j < j0 {
                    assert(indices[j] < indices[j0]);
                } else if j0 < j {
                    assert(indices[j0] < indices[j]);
                }
            } else {
                assert(index_set(indices).contains(p));
                let q = spec_sibling(p);
                let t = choose|t: int| goal.contains(t) && #[trigger] is_ancestor_or_self(q, t);
                lemma_ancestor_step(q, t);
                assert(q / 2 == p / 2);
                lemma_ancestor_le(i, p);
                assert(is_ancestor_or_self(i, p / 2));
                lemma_ancestor_transitive(i, p / 2, t);
            }
        }
    } else {
        assert(!index_set(indices).contains(i));
        assert(on_target_path(goal, i));
        assert(!goal.contains(i));
        if i >= pow2(depth) {
            lemma_leaf_on_path_is_target(goal, depth, i);
        }
        lemma_inner_on_path(goal, depth, i);
        let l = 2 * i;
        let r = 2 * i + 1;
        assert(spec_sibling(l) == r && spec_sibling(r) == l);
        let got_l = reconstruct(targets, claimed, indices, hashes, depth, l)->Some_0;
        let got_r = reconstruct(targets, claimed, indices, hashes, depth, r)->Some_0;
        let has_l = node_hash(leaves, depth, l);
        let has_r = node_hash(leaves, depth, r);
        lemma_reconstruct_len(targets, claimed, indices, hashes, depth, l);
        lemma_reconstruct_len(targets, claimed, indices, hashes, depth, r);
        lemma_node_hash_len(leaves, depth, l);
        lemma_node_hash_len(leaves, depth, r);
        assert(sha256_digest(got_l + got_r)@ == sha256_digest(has_l + has_r)@);
        assert(sha256_digest(got_l + got_r) =~= sha256_digest(has_l + has_r));
        assert(got_l + got_r == has_l + has_r);
        assert(got_l =~= (got_l + got_r).subrange(0, 32));
        assert(has_l =~= (has_l + has_r).subrange(0, 32));
        assert(got_r =~= (got_l + got_r).subrange(32, 64));
        assert(has_r =~= (has_l + has_r).subrange(32, 64));
        lemma_agree_below(leaves, depth, targets, claimed, indices, hashes, l);
        lemma_agree_below(leaves, depth, targets, claimed, indices, hashes, r);
        assert forall|k: int|
            0 <= k < targets.len() && is_ancestor_or_self(
                i,
                #[trigger] targets[k] as int,
            ) implies claimed[k] == node_hash(leaves, depth, targets[k] as int) by {
            assert(goal.contains(targets[k] as int));
            lemma_ancestor_through_child(i, targets[k] as int);
        }
        assert forall|j: int|
            0 <= j < indices.len() && is_ancestor_or_self(
                i,
                #[trigger] indices[j] as int,
            ) implies hashes[j] == node_hash(leaves, depth, indices[j] as int) by {
            lemma_ancestor_through_child(i, indices[j] as int);
        }
    }
}

/// An accepted proof binds what it was accepted for: where verification
/// against a tree's root says yes, each claimed value is the tree's leaf at
/// its target and each hash of the proof is the tree's node at its index,
/// unless two different byte strings have one SHA-256 digest. So a change
/// to a claimed value or to a hash of the proof makes verification say no,
/// short of such a collision.
pub proof fn lemma_accepted_proof_binds(
    leaves: Seq<Seq<u8>>,
    depth: nat,
    targets: Seq<u64>,
    claimed: Seq<Seq<u8>>,
    indices: Seq<u64>,
    hashes: Seq<Seq<u8>>,
)
    requires
        all_hash_sized(leaves),
        all_hash_sized(claimed),
        all_hash_sized(hashes),
        verify_spec(root_hash(leaves, depth), targets, claimed, indices, hashes, depth),
    ensures
        hash_collision() || (claims_actual(leaves, depth, targets, claimed) && proof_actual(
            leaves,
            depth,
            indices,
            hashes,
        )),
{
    if !hash_collision() {
        let goal = index_set(targets);
        assert(goal.contains(targets[0] as int));
        assert(is_leaf_index(targets[0] as int, depth));
        lemma_pow2_pos(depth);
        lemma_root_is_ancestor(targets[0] as int);
        assert(on_target_path(goal, 1));
        lemma_pow2_strictly_increases(0, depth + 1);
        lemma2_to64();
        lemma_agree_below(leaves, depth, targets, claimed, indices, hashes, 1);
        lemma_leaf_targets(targets, depth);
        assert forall|k: int| 0 <= k < targets.len() implies #[trigger] claimed[k] == node_hash(
            leaves,
            depth,
            targets[k] as int,
        ) by {
            assert(is_leaf_index(targets[k] as int, depth));
            lemma_root_is_ancestor(targets[k] as int);
        }
        assert forall|j: int| 0 <= j < indices.len() implies #[trigger] hashes[j] == node_hash(
            leaves,
            depth,
            indices[j] as int,
        ) by {
            assert(index_set(indices).contains(indices[j] as int));
            lemma_proof_index_in_tree(goal, depth, indices[j] as int);
            lemma_root_is_ancestor(indices[j] as int);
        }
    }
}

} // verus!
