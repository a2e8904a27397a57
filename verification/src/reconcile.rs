//! The host's side: the full state as a list of field values, the request
//! that exposes some of them, and the patching of what the guest wrote.

use crate::gindex::{is_leaf, is_leaf_index, pow2_u64, GeneralizedIndex, MAX_DEPTH};
use crate::hash::{sha256_digest, Hash32};
use crate::multiproof::{
    generate, generated, index_set, lemma_proof_index_in_tree, prefix_has,
};
use crate::partial::{
    builder_verifies, copy_bytes, field_indices, field_leaf, field_leaves, fields_map,
    fields_view, find_field, first_position, lemma_first_position, spec_field_leaf, Field,
    PartialResult, PartialStateBuilder,
};
use crate::proof_check::{distinct, verify_spec};
use crate::soundness::{
    all_hash_sized, hash_collision, lemma_accepted_proof_binds, lemma_generated_proof_verifies,
    lemma_leaf_targets,
};
use crate::tree::{
    hashes_view, lemma_padding_keeps_nodes, node_hash, pad_leaves, root_hash, MerkleError,
    MerkleTree,
};
use vstd::arithmetic::power2::{
    lemma2_to64, lemma2_to64_rest, lemma_pow2_pos, lemma_pow2_strictly_increases, pow2,
};
use vstd::prelude::*;

verus! {

/// The state in full: the values of its fields in their fixed order. The
/// field at position `p` stands at generalized index `2^depth + p`.
#[derive(Debug, Clone, PartialEq, Eq)]
pub struct FullState {
    pub depth: u32,
    pub fields: Vec<Vec<u8>>,
}

/// Why the guest's result could not be patched in.
#[derive(Clone, Copy, Debug, PartialEq, Eq, Structural)]
pub enum ReconcileError {
    /// This written index stands for no field of the state, or the result
    /// carries no value for it.
    UnknownMutatedIndex(GeneralizedIndex),
}

/// The byte strings that a list of field values holds.
pub open spec fn values_view(fields: Seq<Vec<u8>>) -> Seq<Seq<u8>> {
    Seq::new(fields.len(), |k: int| fields[k]@)
}

/// The leaves of the state's tree: the hash of each field value.
pub open spec fn state_leaves(values: Seq<Seq<u8>>) -> Seq<Seq<u8>> {
    Seq::new(values.len(), |k: int| spec_field_leaf(values[k]))
}

/// The root of the state's tree.
pub open spec fn state_root(values: Seq<Seq<u8>>, depth: nat) -> Seq<u8> {
    root_hash(state_leaves(values), depth)
}

/// `index` stands for one of the state's `count` fields.
pub open spec fn is_field_index(index: int, depth: nat, count: nat) -> bool {
    is_leaf_index(index, depth) && index - pow2(depth) < count
}

/// Each exposed field is a field of the state, with the state's value.
pub open spec fn full_agrees(fields: Map<int, Seq<u8>>, values: Seq<Seq<u8>>, depth: nat) -> bool {
    forall|i: int| #[trigger]
        fields.contains_key(i) ==> is_field_index(i, depth, values.len()) && fields[i]
            == values[i - pow2(depth)]
}

/// A written index that can be patched in: it stands for a field, and the
/// result carries a value for it.
pub open spec fn known_index(
    index: int,
    depth: nat,
    count: nat,
    carried: Map<int, Seq<u8>>,
) -> bool {
    is_field_index(index, depth, count) && carried.contains_key(index)
}

/// The first written index from position `from` on that cannot be patched in.
pub open spec fn first_unknown(
    dirty: Seq<u64>,
    from: int,
    depth: nat,
    count: nat,
    carried: Map<int, Seq<u8>>,
) -> Option<u64>
    decreases dirty.len() - from,
{
    if from < 0 || from >= dirty.len() {
        None
    } else if !known_index(dirty[from] as int, depth, count, carried) {
        Some(dirty[from])
    } else {
        first_unknown(dirty, from + 1, depth, count, carried)
    }
}

/// The state after patching: each field whose index was written takes the
/// carried value, every other field stays.
pub open spec fn patch(
    values: Seq<Seq<u8>>,
    depth: nat,
    carried: Map<int, Seq<u8>>,
    dirty: Set<int>,
) -> Seq<Seq<u8>> {
    Seq::new(
        values.len(),
        |p: int|
            if dirty.contains(pow2(depth) + p) {
                carried[pow2(depth) + p]
            } else {
                values[p]
            },
    )
}

impl FullState {
    /// The position of the field that `index` stands for, if it stands for one.
    pub fn field_position(&self, index: GeneralizedIndex) -> (out: Option<usize>)
        ensures
            match out {
                Some(p) => is_field_index(index as int, self.depth as nat, self.fields@.len())
                    && p == index - pow2(self.depth as nat),
                None => !is_field_index(index as int, self.depth as nat, self.fields@.len()),
            },
    {
        if !is_leaf(index, self.depth) {
            return None;
        }
        proof {
            lemma2_to64();
            lemma2_to64_rest();
            if self.depth > 64 {
                lemma_pow2_strictly_increases(64, self.depth as nat);
            }
        }
        let first: u64 = pow2_u64(self.depth);
        let p: u64 = index - first;
        if p >= self.fields.len() as u64 {
            return None;
        }
        Some(p as usize)
    }
}

/// The state after patching in the written indices among the first `n`.
spec fn patch_prefix(
    values: Seq<Seq<u8>>,
    depth: nat,
    carried: Map<int, Seq<u8>>,
    dirty: Seq<u64>,
    n: int,
) -> Seq<Seq<u8>> {
    Seq::new(
        values.len(),
        |p: int|
            if prefix_has(dirty, n, pow2(depth) + p) {
                carried[pow2(depth) + p]
            } else {
                values[p]
            },
    )
}

/// Patches the values that the guest wrote into the full state: for each
/// written index, the field it stands for takes the value that the result
/// carries.
///
/// Fails with `UnknownMutatedIndex`, naming the first such index, and
/// changes nothing, when a written index stands for no field of the state
/// or the result carries no value for it.
pub fn reconcile(full: &mut FullState, result: &PartialResult) -> (out: Result<(), ReconcileError>)
    ensures
        final(full).depth == old(full).depth,
        match out {
            Ok(()) => {
                &&& first_unknown(
                    result.dirty@,
                    0,
                    old(full).depth as nat,
                    old(full).fields@.len(),
                    fields_map(result.fields@),
                ) is None
                &&& values_view(final(full).fields@) == patch(
                    values_view(old(full).fields@),
                    old(full).depth as nat,
                    fields_map(result.fields@),
                    index_set(result.dirty@),
                )
            },
            Err(e) => {
                &&& first_unknown(
                    result.dirty@,
                    0,
                    old(full).depth as nat,
                    old(full).fields@.len(),
                    fields_map(result.fields@),
                ) matches Some(index)
                &&& e == ReconcileError::UnknownMutatedIndex(index)
                &&& final(full).fields == old(full).fields
            },
        },
{
    let ghost d = full.depth as nat;
    let ghost count = full.fields@.len();
    let ghost carried = fields_map(result.fields@);
    let ghost before = values_view(full.fields@);
    let mut k: usize = 0;
    while k < result.dirty.len()
        invariant
            k <= result.dirty@.len(),
            d == full.depth,
            count == full.fields@.len(),
            carried == fields_map(result.fields@),
            *full == *old(full),
            forall|j: int|
                0 <= j < k ==> known_index(#[trigger] result.dirty@[j] as int, d, count, carried),
            first_unknown(result.dirty@, 0, d, count, carried) == first_unknown(
                result.dirty@,
                k as int,
                d,
                count,
                carried,
            ),
        decreases result.dirty@.len() - k,
    {
        let index: u64 = result.dirty[k];
        let placed: bool = full.field_position(index).is_some();
        let held: bool = find_field(&result.fields, index).is_some();
        if !placed || !held {
            return Err(ReconcileError::UnknownMutatedIndex(index));
        }
        k = k + 1;
    }
    let mut k: usize = 0;
    while k < result.dirty.len()
        invariant
            k <= result.dirty@.len(),
            d == full.depth,
            full.depth == old(full).depth,
            count == full.fields@.len(),
            carried == fields_map(result.fields@),
            before.len() == count,
            forall|j: int|
                0 <= j < result.dirty@.len() ==> known_index(
                    #[trigger] result.dirty@[j] as int,
                    d,
                    count,
                    carried,
                ),
            values_view(full.fields@) == patch_prefix(before, d, carried, result.dirty@, k as int),
        decreases result.dirty@.len() - k,
    {
        let index: u64 = result.dirty[k];
        assert(known_index(result.dirty@[k as int] as int, d, count, carried));
        let ghost was = values_view(full.fields@);
        match (full.field_position(index), find_field(&result.fields, index)) {
            (Some(p), Some(j)) => {
                let value = copy_bytes(&result.fields[j].1);
                full.fields.set(p, value);
                proof {
                    let now = values_view(full.fields@);
                    let want = patch_prefix(before, d, carried, result.dirty@, k + 1);
                    assert forall|q: int| 0 <= q < count implies now[q] == want[q] by {
                        let g = pow2(d) + q;
                        if q == p {
                            assert(result.dirty@[k as int] == g);
                        } else {
                            assert(now[q] == was[q]);
                            if prefix_has(result.dirty@, k + 1, g) {
                                let w = choose|w: int|
                                    0 <= w < k + 1 && #[trigger] result.dirty@[w] == g;
                                assert(w < k);
                            }
                            if prefix_has(result.dirty@, k as int, g) {
                                let w = choose|w: int|
                                    0 <= w < k && #[trigger] result.dirty@[w] == g;
                                assert(0 <= w < k + 1 && result.dirty@[w] == g);
                            }
                        }
                    }
                    assert(now =~= want);
                }
            },
            _ => {
                assert(false);
            },
        }
        k = k + 1;
    }
    proof {
        assert(patch_prefix(before, d, carried, result.dirty@, result.dirty@.len() as int)
            =~= patch(before, d, carried, index_set(result.dirty@)));
    }
    Ok(())
}

/// Every index stands for one of the state's `count` fields.
pub open spec fn all_fields(indices: Seq<u64>, depth: nat, count: nat) -> bool {
    forall|k: int|
        0 <= k < indices.len() ==> is_field_index(#[trigger] indices[k] as int, depth, count)
}

/// Why no request can be made, if none can: a depth that does not hold the
/// fields, then no index at all, then an index that stands for no field.
pub open spec fn request_refusal(depth: nat, count: nat, indices: Seq<u64>) -> Option<MerkleError> {
    if depth > MAX_DEPTH || count > pow2(depth) {
        Some(MerkleError::InvalidDepth)
    } else if indices.len() == 0 {
        Some(MerkleError::EmptyTargetSet)
    } else if !all_fields(indices, depth, count) {
        Some(MerkleError::IndexOutOfRange)
    } else {
        None
    }
}

/// The fields of the state at `indices`, in that order.
pub open spec fn exposed_fields(values: Seq<Seq<u8>>, depth: nat, indices: Seq<u64>) -> Seq<
    (u64, Seq<u8>),
> {
    Seq::new(indices.len(), |k: int| (indices[k], values[indices[k] - pow2(depth)]))
}

impl FullState {
    /// The leaves of the state's tree.
    pub fn leaves(&self) -> (out: Vec<Hash32>)
        ensures
            out@.len() == self.fields@.len(),
            hashes_view(out@) == state_leaves(values_view(self.fields@)),
    {
        let mut out: Vec<Hash32> = Vec::new();
        let mut k: usize = 0;
        while k < self.fields.len()
            invariant
                k <= self.fields@.len(),
                out@.len() == k,
                forall|j: int|
                    0 <= j < k ==> (#[trigger] out@[j])@ == spec_field_leaf(self.fields@[j]@),
            decreases self.fields@.len() - k,
        {
            out.push(field_leaf(&self.fields[k]));
            k = k + 1;
        }
        assert(hashes_view(out@) =~= state_leaves(values_view(self.fields@)));
        out
    }

    /// The state's tree. Fails with `InvalidDepth` when the depth is more
    /// than `MAX_DEPTH` or does not hold the fields.
    pub fn tree(&self) -> (out: Result<MerkleTree, MerkleError>)
        ensures
            match out {
                Ok(tree) => {
                    &&& self.depth <= MAX_DEPTH
                    &&& self.fields@.len() <= pow2(self.depth as nat)
                    &&& tree.spec_depth() == self.depth
                    &&& tree.leaves() == pad_leaves(
                        state_leaves(values_view(self.fields@)),
                        self.depth as nat,
                    )
                },
                Err(e) => e == MerkleError::InvalidDepth && (self.depth > MAX_DEPTH
                    || self.fields@.len() > pow2(self.depth as nat)),
            },
    {
        let leaves = self.leaves();
        MerkleTree::build(&leaves, self.depth)
    }

    /// The root of the state's tree. Fails with `InvalidDepth` when the
    /// depth is more than `MAX_DEPTH` or does not hold the fields.
    pub fn root(&self) -> (out: Result<Hash32, MerkleError>)
        ensures
            match out {
                Ok(root) => {
                    &&& self.depth <= MAX_DEPTH
                    &&& self.fields@.len() <= pow2(self.depth as nat)
                    &&& root@ == state_root(values_view(self.fields@), self.depth as nat)
                },
                Err(e) => e == MerkleError::InvalidDepth && (self.depth > MAX_DEPTH
                    || self.fields@.len() > pow2(self.depth as nat)),
            },
    {
        match self.tree() {
            Ok(tree) => {
                proof {
                    lemma2_to64();
                    lemma_pow2_strictly_increases(0, self.depth as nat + 1);
                    lemma_padding_keeps_nodes(
                        state_leaves(values_view(self.fields@)),
                        self.depth as nat,
                        1,
                    );
                }
                Ok(tree.root())
            },
            Err(e) => Err(e),
        }
    }
}

impl FullState {
    /// Assembles the request that exposes the fields at `indices`: the
    /// state's root, the multiproof for those indices, and the fields' values.
    ///
    /// Fails with `InvalidDepth` when the depth is more than `MAX_DEPTH` or
    /// does not hold the fields, with `EmptyTargetSet` when `indices` is empty,
    /// and with `IndexOutOfRange` when an index stands for no field.
    /// Where no index is given twice, the request builds.
    pub fn build_partial(&self, indices: &Vec<GeneralizedIndex>) -> (out: Result<
        PartialStateBuilder,
        MerkleError,
    >)
        ensures
            match out {
                Ok(builder) => {
                    &&& request_refusal(self.depth as nat, self.fields@.len(), indices@) is None
                    &&& builder.root@ == state_root(values_view(self.fields@), self.depth as nat)
                    &&& builder.depth == self.depth
                    &&& fields_view(builder.fields@) == exposed_fields(
                        values_view(self.fields@),
                        self.depth as nat,
                        indices@,
                    )
                    &&& builder.multiproof matches Some(proof) && generated(
                        state_leaves(values_view(self.fields@)),
                        self.depth as nat,
                        indices@,
                        proof.indices@,
                        hashes_view(proof.hashes@),
                    )
                    &&& full_agrees(
                        fields_map(builder.fields@),
                        values_view(self.fields@),
                        self.depth as nat,
                    )
                    &&& distinct(indices@) ==> builder_verifies(builder)
                },
                Err(e) => request_refusal(self.depth as nat, self.fields@.len(), indices@) == Some(
                    e,
                ),
            },
    {
        let ghost d = self.depth as nat;
        let ghost values = values_view(self.fields@);
        let ghost leaves = state_leaves(values);
        let tree = match self.tree() {
            Ok(tree) => tree,
            Err(e) => {
                return Err(e);
            },
        };
        let proof = match generate(&tree, indices, self.depth) {
            Ok(proof) => proof,
            Err(e) => {
                proof {
                    if e == MerkleError::IndexOutOfRange {
                        let k = choose|k: int|
                            0 <= k < indices@.len() && !is_leaf_index(
                                #[trigger] indices@[k] as int,
                                d,
                            );
                        assert(!is_field_index(indices@[k] as int, d, self.fields@.len()));
                    }
                }
                return Err(e);
            },
        };
        let mut fields: Vec<Field> = Vec::new();
        let mut k: usize = 0;
        while k < indices.len()
            invariant
                k <= indices@.len(),
                d == self.depth,
                d <= MAX_DEPTH,
                self.fields@.len() <= pow2(d),
                values == values_view(self.fields@),
                fields@.len() == k,
                forall|j: int|
                    0 <= j < k ==> is_field_index(
                        #[trigger] indices@[j] as int,
                        d,
                        self.fields@.len(),
                    ),
                forall|j: int|
                    0 <= j < k ==> (#[trigger] fields@[j]).0 == indices@[j] && fields@[j].1@
                        == values[indices@[j] - pow2(d)],
            decreases indices@.len() - k,
        {
            match self.field_position(indices[k]) {
                Some(p) => {
                    fields.push((indices[k], copy_bytes(&self.fields[p])));
                },
                None => {
                    assert(!is_field_index(indices@[k as int] as int, d, self.fields@.len()));
                    return Err(MerkleError::IndexOutOfRange);
                },
            }
            k = k + 1;
        }
        proof {
            lemma2_to64();
            lemma_pow2_strictly_increases(0, d + 1);
            lemma_padding_keeps_nodes(leaves, d, 1);
            assert(fields_view(fields@) =~= exposed_fields(values, d, indices@));
            assert forall|j: int| 0 <= j < proof.indices@.len() implies (#[trigger] hashes_view(
                proof.hashes@,
            )[j]) == node_hash(leaves, d, proof.indices@[j] as int) by {
                assert(index_set(proof.indices@).contains(proof.indices@[j] as int));
                lemma_leaf_targets(indices@, d);
                lemma_proof_index_in_tree(
                    index_set(indices@),
                    d,
                    proof.indices@[j] as int,
                );
                lemma_padding_keeps_nodes(leaves, d, proof.indices@[j] as int);
            }
        }
        let root = tree.root();
        let builder = PartialStateBuilder {
            root,
            depth: self.depth,
            multiproof: Some(proof),
            fields,
        };
        proof {
            assert forall|i: int| #[trigger]
                fields_map(builder.fields@).contains_key(i) implies is_field_index(
                i,
                d,
                values.len(),
            ) && fields_map(builder.fields@)[i] == values[i - pow2(d)] by {
                let s = field_indices(builder.fields@);
                lemma_first_position(s, i, 0);
                let w = first_position(s, i, 0);
                let any = choose|any: int| 0 <= any < s.len() && #[trigger] s[any] == i;
                assert(builder.fields@[w].0 == indices@[w]);
                assert(is_field_index(indices@[w] as int, d, self.fields@.len()));
            }
            if distinct(indices@) {
                let targets = field_indices(builder.fields@);
                let claimed = field_leaves(builder.fields@);
                assert(targets =~= indices@);
                assert forall|j: int| 0 <= j < targets.len() implies #[trigger] claimed[j]
                    == node_hash(leaves, d, targets[j] as int) by {
                    assert(is_field_index(indices@[j] as int, d, self.fields@.len()));
                    assert(builder.fields@[j].1@ == values[indices@[j] - pow2(d)]);
                }
                lemma_generated_proof_verifies(
                    leaves,
                    d,
                    indices@,
                    targets,
                    claimed,
                    proof.indices@,
                    hashes_view(proof.hashes@),
                );
            }
        }
        Ok(builder)
    }
}

/// An accepted request binds what it exposes: where the fields and the
/// proof of a request verify against the state's root, each exposed value
/// is the state's value of that field, unless two different byte strings
/// have one SHA-256 digest. A forged value is refused, short of such a
/// collision.
pub proof fn lemma_accepted_request_binds(
    values: Seq<Seq<u8>>,
    depth: nat,
    fields: Seq<Field>,
    indices: Seq<u64>,
    hashes: Seq<Seq<u8>>,
)
    requires
        all_fields(field_indices(fields), depth, values.len()),
        all_hash_sized(hashes),
        verify_spec(
            state_root(values, depth),
            field_indices(fields),
            field_leaves(fields),
            indices,
            hashes,
            depth,
        ),
    ensures
        hash_collision() || forall|k: int|
            0 <= k < fields.len() ==> (#[trigger] fields[k]).1@ == values[fields[k].0 - pow2(
                depth,
            )],
{
    let leaves = state_leaves(values);
    let targets = field_indices(fields);
    let claimed = field_leaves(fields);
    lemma_accepted_proof_binds(leaves, depth, targets, claimed, indices, hashes);
    if !hash_collision() {
        assert forall|k: int| 0 <= k < fields.len() implies (#[trigger] fields[k]).1@
            == values[fields[k].0 - pow2(depth)] by {
            let p = fields[k].0 - pow2(depth);
            lemma_pow2_pos(depth);
            assert(targets[k] == fields[k].0);
            assert(is_field_index(targets[k] as int, depth, values.len()));
            assert(claimed[k] == node_hash(leaves, depth, targets[k] as int));
            assert(claimed[k] == leaves[p]);
            assert(sha256_digest(fields[k].1@) =~= sha256_digest(values[p]));
        }
    }
}

} // verus!
