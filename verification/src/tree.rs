//! A complete binary hash tree over a padded sequence of leaves.

use crate::gindex::{in_tree, pow2_u64, GeneralizedIndex, MAX_DEPTH};
use crate::hash::{hash_pair, pad_hash, spec_hash_pair, spec_pad_hash, Hash32};
use vstd::arithmetic::power2::{
    lemma2_to64, lemma_pow2_strictly_increases, lemma_pow2_unfold, pow2,
};
use vstd::prelude::*;

verus! {

/// Why a tree or a proof could not be made.
#[derive(Clone, Copy, Debug, PartialEq, Eq, Structural)]
pub enum MerkleError {
    /// The depth is more than `MAX_DEPTH`, does not hold all the leaves, or
    /// is not the depth of the tree at hand.
    InvalidDepth,
    /// A generalized index lies outside the range asked for.
    IndexOutOfRange,
    /// No target was given.
    EmptyTargetSet,
}

/// The byte strings that a sequence of hash values holds.
pub open spec fn hashes_view(v: Seq<Hash32>) -> Seq<Seq<u8>> {
    Seq::new(v.len(), |k: int| v[k]@)
}

/// The leaf at position `pos`: the given one, or the padding value past the end.
pub open spec fn padded_leaf(leaves: Seq<Seq<u8>>, pos: int) -> Seq<u8> {
    if 0 <= pos < leaves.len() {
        leaves[pos]
    } else {
        spec_pad_hash()
    }
}

/// The leaves of a tree of the given depth: `leaves`, padded to `2^depth` entries.
pub open spec fn pad_leaves(leaves: Seq<Seq<u8>>, depth: nat) -> Seq<Seq<u8>> {
    Seq::new(pow2(depth), |pos: int| padded_leaf(leaves, pos))
}

/// The hash at node `i` of the tree of the given depth over `leaves`:
/// leaf `pos` stands at index `2^depth + pos`, and an inner node holds the
/// hash of its two children.
pub open spec fn node_hash(leaves: Seq<Seq<u8>>, depth: nat, i: int) -> Seq<u8>
    decreases pow2(depth + 1) - i,
    when i >= 1
    via node_hash_terminates
{
    if i >= pow2(depth) {
        padded_leaf(leaves, i - pow2(depth))
    } else {
        spec_hash_pair(node_hash(leaves, depth, 2 * i), node_hash(leaves, depth, 2 * i + 1))
    }
}

#[via_fn]
proof fn node_hash_terminates(leaves: Seq<Seq<u8>>, depth: nat, i: int) {
    lemma_pow2_unfold(depth + 1);
}

/// The root of the tree of the given depth over `leaves`.
pub open spec fn root_hash(leaves: Seq<Seq<u8>>, depth: nat) -> Seq<u8> {
    node_hash(leaves, depth, 1)
}

/// Padding the leaves out in full changes no node.
pub proof fn lemma_padding_keeps_nodes(leaves: Seq<Seq<u8>>, depth: nat, i: int)
    requires
        leaves.len() <= pow2(depth),
        in_tree(i, depth),
    ensures
        node_hash(pad_leaves(leaves, depth), depth, i) == node_hash(leaves, depth, i),
    decreases pow2(depth + 1) - i,
{
    lemma_pow2_unfold(depth + 1);
    if i < pow2(depth) {
        lemma_padding_keeps_nodes(leaves, depth, 2 * i);
        lemma_padding_keeps_nodes(leaves, depth, 2 * i + 1);
    }
}

/// The last `2^depth` entries of a node table, where the leaves stand.
spec fn bottom_row(nodes: Seq<Hash32>, depth: nat) -> Seq<Seq<u8>> {
    Seq::new(pow2(depth), |pos: int| nodes[pow2(depth) + pos]@)
}

/// A built tree: every node's hash, by generalized index.
#[derive(Debug)]
pub struct MerkleTree {
    depth: u32,
    nodes: Vec<Hash32>,
}

impl MerkleTree {
    #[verifier::type_invariant]
    spec fn well_formed(self) -> bool {
        &&& self.depth <= MAX_DEPTH
        &&& self.nodes@.len() == pow2(self.depth as nat + 1)
        &&& forall|i: int|
            1 <= i < self.nodes@.len() ==> (#[trigger] self.nodes@[i])@ == node_hash(
                self.leaves(),
                self.depth as nat,
                i,
            )
    }

    /// The depth the tree was built with.
    pub closed spec fn spec_depth(self) -> nat {
        self.depth as nat
    }

    /// The tree's `2^depth` leaves, padding included.
    pub closed spec fn leaves(self) -> Seq<Seq<u8>> {
        bottom_row(self.nodes@, self.depth as nat)
    }

    /// Builds the tree of the given depth over `leaves`, padded on the right
    /// with the padding value. Fails with `InvalidDepth` when the depth is
    /// more than `MAX_DEPTH` or there are more than `2^depth` leaves.
    pub fn build(leaves: &Vec<Hash32>, depth: u32) -> (out: Result<MerkleTree, MerkleError>)
        ensures
            match out {
                Ok(tree) => {
                    &&& depth <= MAX_DEPTH
                    &&& leaves@.len() <= pow2(depth as nat)
                    &&& tree.spec_depth() == depth
                    &&& tree.leaves() == pad_leaves(hashes_view(leaves@), depth as nat)
                },
                Err(e) => {
                    &&& e == MerkleError::InvalidDepth
                    &&& (depth > MAX_DEPTH || leaves@.len() > pow2(depth as nat))
                },
            },
    {
        if depth > MAX_DEPTH {
            return Err(MerkleError::InvalidDepth);
        }
        proof {
            lemma2_to64();
            lemma_pow2_unfold(depth as nat + 1);
            if depth < 30 {
                lemma_pow2_strictly_increases(depth as nat, 30);
            }
        }
        let width: usize = pow2_u64(depth) as usize;
        if leaves.len() > width {
            return Err(MerkleError::InvalidDepth);
        }
        let ghost given = hashes_view(leaves@);
        let ghost d = depth as nat;
        let pad: Hash32 = pad_hash();
        let mut nodes: Vec<Hash32> = Vec::new();
        let mut k: usize = 0;
        while k < 2 * width
            invariant
                k <= 2 * width,
                width <= 0x4000_0000,
                nodes@.len() == k,
                forall|j: int| 0 <= j < k ==> (#[trigger] nodes@[j])@ == spec_pad_hash(),
                pad@ == spec_pad_hash(),
            decreases 2 * width - k,
        {
            nodes.push(pad);
            k = k + 1;
        }
        let mut p: usize = 0;
        while p < leaves.len()
            invariant
                p <= leaves@.len() <= width,
                width == pow2(d),
                width <= 0x4000_0000,
                nodes@.len() == 2 * width,
                given == hashes_view(leaves@),
                forall|j: int|
                    width <= j < 2 * width ==> (#[trigger] nodes@[j])@ == if j < width + p {
                        given[j - width]
                    } else {
                        spec_pad_hash()
                    },
            decreases leaves@.len() - p,
        {
            nodes.set(width + p, leaves[p]);
            p = p + 1;
        }
        assert forall|j: int| width <= j < 2 * width implies (#[trigger] nodes@[j])@ == node_hash(
            given,
            d,
            j,
        ) by {}
        let mut i: usize = width;
        while i > 1
            invariant
                1 <= i <= width,
                width == pow2(d),
                width <= 0x4000_0000,
                nodes@.len() == 2 * width,
                forall|j: int|
                    i <= j < 2 * width ==> (#[trigger] nodes@[j])@ == node_hash(given, d, j),
            decreases i,
        {
            i = i - 1;
            let h: Hash32 = hash_pair(&nodes[2 * i], &nodes[2 * i + 1]);
            nodes.set(i, h);
        }
        proof {
            assert(bottom_row(nodes@, d) =~= pad_leaves(given, d));
            assert forall|j: int| 1 <= j < nodes@.len() implies (#[trigger] nodes@[j])@
                == node_hash(bottom_row(nodes@, d), d, j) by {
                lemma_padding_keeps_nodes(given, d, j);
            }
        }
        Ok(MerkleTree { depth, nodes })
    }

    /// The depth the tree was built with.
    pub fn depth(&self) -> (out: u32)
        ensures
            out == self.spec_depth(),
            out <= MAX_DEPTH,
            self.leaves().len() == pow2(out as nat),
    {
        proof {
            use_type_invariant(self);
        }
        self.depth
    }

    /// The hash at the root, node 1.
    pub fn root(&self) -> (out: Hash32)
        ensures
            out@ == root_hash(self.leaves(), self.spec_depth()),
    {
        proof {
            use_type_invariant(self);
            lemma2_to64();
            lemma_pow2_strictly_increases(0, self.depth as nat + 1);
        }
        self.nodes[1]
    }

    /// The hash at node `index`. Fails with `IndexOutOfRange` unless
    /// `1 <= index < 2^(depth + 1)`.
    pub fn node_at(&self, index: GeneralizedIndex) -> (out: Result<Hash32, MerkleError>)
        ensures
            match out {
                Ok(h) => in_tree(index as int, self.spec_depth()) && h@ == node_hash(
                    self.leaves(),
                    self.spec_depth(),
                    index as int,
                ),
                Err(e) => e == MerkleError::IndexOutOfRange && !in_tree(
                    index as int,
                    self.spec_depth(),
                ),
            },
    {
        proof {
            use_type_invariant(self);
        }
        if index < 1 || index >= self.nodes.len() as u64 {
            return Err(MerkleError::IndexOutOfRange);
        }
        Ok(self.nodes[index as usize])
    }
}

} // verus!
