//! The partial view of a state: a few fields, authenticated against the
//! state's root by a multiproof, with a record of which of them were written.

use crate::gindex::GeneralizedIndex;
use crate::hash::{hash_bytes, sha256_digest, Hash32};
use crate::multiproof::{index_set, prefix_has, Multiproof};
use crate::proof_check::{claimed_indices, claimed_values, distinct, verify, verify_spec};
use crate::tree::hashes_view;
use vstd::prelude::*;

verus! {

/// The depth of the state's tree: its fields are the leaves `64..128`.
pub const STATE_TREE_DEPTH: u32 = 6;

/// Where the field `slot` stands.
pub const SLOT_GENERALIZED_INDEX: GeneralizedIndex = 66;

/// Where the field `slashings` stands.
pub const SLASHINGS_GENERALIZED_INDEX: GeneralizedIndex = 78;

/// Why a partial state could not be built.
#[derive(Clone, Copy, Debug, PartialEq, Eq, Structural)]
pub enum BuildError {
    /// No multiproof was attached.
    MissingMultiproof,
    /// The exposed fields and the multiproof do not lead to the root.
    ProofVerificationFailed,
}

/// Why a field could not be read or written.
#[derive(Clone, Copy, Debug, PartialEq, Eq, Structural)]
pub enum AccessError {
    /// The field at this index is not among the exposed ones.
    FieldNotExposed(GeneralizedIndex),
    /// The field at this index does not have the length its type asks for.
    MalformedField(GeneralizedIndex),
}

/// An exposed field: its generalized index and the bytes of its value.
pub type Field = (GeneralizedIndex, Vec<u8>);

/// A list of fields, each value as a byte string.
pub open spec fn fields_view(fields: Seq<Field>) -> Seq<(u64, Seq<u8>)> {
    Seq::new(fields.len(), |k: int| (fields[k].0, fields[k].1@))
}

/// The indices of a list of fields, in order.
pub open spec fn field_indices(fields: Seq<Field>) -> Seq<u64> {
    Seq::new(fields.len(), |k: int| fields[k].0)
}

/// The leaf that stands for a field value in the state's tree: its hash.
pub open spec fn spec_field_leaf(value: Seq<u8>) -> Seq<u8> {
    sha256_digest(value)@
}

/// The leaves that stand for a list of fields, in order.
pub open spec fn field_leaves(fields: Seq<Field>) -> Seq<Seq<u8>> {
    Seq::new(fields.len(), |k: int| spec_field_leaf(fields[k].1@))
}

/// The first position at or after `from` at which `s` holds `x`; the length
/// of `s` where there is none.
pub open spec fn first_position(s: Seq<u64>, x: int, from: int) -> int
    decreases s.len() - from,
{
    if from < 0 || from >= s.len() {
        s.len() as int
    } else if s[from] == x {
        from
    } else {
        first_position(s, x, from + 1)
    }
}

/// The fields as a mapping from generalized index to value. Of two fields
/// with one index the first counts.
pub open spec fn fields_map(fields: Seq<Field>) -> Map<int, Seq<u8>> {
    Map::new(
        |i: int| prefix_has(field_indices(fields), fields.len() as int, i),
        |i: int| fields[first_position(field_indices(fields), i, 0)].1@,
    )
}

/// `first_position` finds `x` from `from` on when it is there, and says so
/// when it is not.
pub proof fn lemma_first_position(s: Seq<u64>, x: int, from: int)
    requires
        0 <= from <= s.len(),
    ensures
        from <= first_position(s, x, from) <= s.len(),
        first_position(s, x, from) < s.len() ==> s[first_position(s, x, from)] == x,
        forall|j: int| from <= j < first_position(s, x, from) ==> s[j] != x,
    decreases s.len() - from,
{
    if from < s.len() && s[from] != x {
        lemma_first_position(s, x, from + 1);
    }
}

/// Replacing the value of the first field at an index replaces it in the
/// mapping.
proof fn lemma_update_field(before: Seq<Field>, after: Seq<Field>, k: int, value: Seq<u8>)
    requires
        0 <= k < before.len(),
        k == first_position(field_indices(before), before[k].0 as int, 0),
        after.len() == before.len(),
        after[k].0 == before[k].0,
        after[k].1@ == value,
        forall|j: int| 0 <= j < before.len() && j != k ==> after[j] == before[j],
    ensures
        field_indices(after) == field_indices(before),
        fields_map(after) == fields_map(before).insert(before[k].0 as int, value),
{
    let s = field_indices(before);
    assert(field_indices(after) =~= s);
    assert(s[k] == before[k].0);
    assert forall|i: int| fields_map(before).contains_key(i) && i != before[k].0 implies fields_map(
        after,
    )[i] == fields_map(before)[i] by {
        lemma_first_position(s, i, 0);
        let w = first_position(s, i, 0);
        let any = choose|any: int| 0 <= any < s.len() && #[trigger] s[any] == i;
        assert(after[w] == before[w]);
    }
    assert(fields_map(after) =~= fields_map(before).insert(before[k].0 as int, value));
}

/// Appending an index that is not there yet adds it to the set.
proof fn lemma_push_index(s: Seq<u64>, x: u64)
    ensures
        index_set(s.push(x)) == index_set(s).insert(x as int),
{
    let t = s.push(x);
    assert(t[s.len() as int] == x);
    assert forall|i: int| index_set(t).contains(i) <==> index_set(s).insert(x as int).contains(
        i,
    ) by {
        if index_set(s).contains(i) {
            let w = choose|w: int| 0 <= w < s.len() && #[trigger] s[w] == i;
            assert(t[w] == i);
        }
        if index_set(t).contains(i) {
            let w = choose|w: int| 0 <= w < t.len() && #[trigger] t[w] == i;
            if w < s.len() {
                assert(s[w] == i);
            }
        }
    }
    assert(index_set(t) =~= index_set(s).insert(x as int));
}

/// The leaf that stands for a field value.
pub fn field_leaf(value: &Vec<u8>) -> (out: Hash32)
    ensures
        out@ == spec_field_leaf(value@),
{
    hash_bytes(value)
}

/// A copy of a byte string.
pub(crate) fn copy_bytes(bytes: &Vec<u8>) -> (out: Vec<u8>)
    ensures
        out@ == bytes@,
{
    let mut out: Vec<u8> = Vec::new();
    let mut k: usize = 0;
    while k < bytes.len()
        invariant
            k <= bytes@.len(),
            out@ == bytes@.subrange(0, k as int),
        decreases bytes@.len() - k,
    {
        out.push(bytes[k]);
        k = k + 1;
    }
    assert(bytes@.subrange(0, k as int) == bytes@);
    out
}

/// The position of the first field at `index`.
pub(crate) fn find_field(fields: &Vec<Field>, index: GeneralizedIndex) -> (out: Option<usize>)
    ensures
        match out {
            Some(k) => {
                &&& k < fields@.len()
                &&& fields@[k as int].0 == index
                &&& k == first_position(field_indices(fields@), index as int, 0)
                &&& fields_map(fields@).contains_key(index as int)
                &&& fields_map(fields@)[index as int] == fields@[k as int].1@
            },
            None => !fields_map(fields@).contains_key(index as int),
        },
{
    let mut k: usize = 0;
    while k < fields.len()
        invariant
            k <= fields@.len(),
            forall|j: int| 0 <= j < k ==> fields@[j].0 != index,
        decreases fields@.len() - k,
    {
        if fields[k].0 == index {
            proof {
                let s = field_indices(fields@);
                assert(s[k as int] == index);
                lemma_first_position(s, index as int, 0);
                let w = first_position(s, index as int, 0);
                if w < k {
                    assert(fields@[w].0 != index);
                }
            }
            return Some(k);
        }
        k = k + 1;
    }
    proof {
        if prefix_has(field_indices(fields@), fields@.len() as int, index as int) {
            let w = choose|w: int|
                0 <= w < fields@.len() && #[trigger] field_indices(fields@)[w] == index;
            assert(fields@[w].0 != index);
        }
    }
    None
}

/// What the host hands over: the state's root, the depth of its tree, a
/// multiproof, and the fields it exposes.
#[derive(Debug, Clone, PartialEq, Eq)]
pub struct PartialStateBuilder {
    pub root: Hash32,
    pub depth: u32,
    pub multiproof: Option<Multiproof>,
    pub fields: Vec<Field>,
}

/// Whether the builder's multiproof leads from its fields to its root.
pub open spec fn builder_verifies(builder: PartialStateBuilder) -> bool {
    match builder.multiproof {
        Some(proof) => verify_spec(
            builder.root@,
            field_indices(builder.fields@),
            field_leaves(builder.fields@),
            proof.indices@,
            hashes_view(proof.hashes@),
            builder.depth as nat,
        ),
        None => false,
    }
}

/// A verified partial state.
#[derive(Debug)]
pub struct PartialState {
    root: Hash32,
    depth: u32,
    multiproof: Multiproof,
    fields: Vec<Field>,
    dirty: Vec<GeneralizedIndex>,
}

/// What the guest hands back: the exposed fields with their last values, and
/// the indices of those that were written.
#[derive(Debug, Clone, PartialEq, Eq)]
pub struct PartialResult {
    pub fields: Vec<Field>,
    pub dirty: Vec<GeneralizedIndex>,
}

impl PartialStateBuilder {
    /// A builder for the state with the given root, with the depth of the
    /// state's tree, no multiproof and nothing exposed yet.
    pub fn from_root(root: Hash32) -> (out: PartialStateBuilder)
        ensures
            out.root == root,
            out.depth == STATE_TREE_DEPTH,
            out.multiproof is None,
            out.fields@.len() == 0,
    {
        PartialStateBuilder {
            root,
            depth: STATE_TREE_DEPTH,
            multiproof: None,
            fields: Vec::new(),
        }
    }

    /// Sets the depth of the tree that the root belongs to.
    pub fn with_depth(self, depth: u32) -> (out: PartialStateBuilder)
        ensures
            out.root == self.root,
            out.depth == depth,
            out.multiproof == self.multiproof,
            out.fields == self.fields,
    {
        PartialStateBuilder {
            root: self.root,
            depth,
            multiproof: self.multiproof,
            fields: self.fields,
        }
    }

    /// Attaches the multiproof, in place of any attached before.
    pub fn with_multiproof(self, multiproof: Multiproof) -> (out: PartialStateBuilder)
        ensures
            out.root == self.root,
            out.depth == self.depth,
            out.multiproof == Some(multiproof),
            out.fields == self.fields,
    {
        PartialStateBuilder {
            root: self.root,
            depth: self.depth,
            multiproof: Some(multiproof),
            fields: self.fields,
        }
    }

    /// Exposes the field at `index` with the given value, after those
    /// exposed before.
    pub fn with_field(self, index: GeneralizedIndex, value: Vec<u8>) -> (out: PartialStateBuilder)
        ensures
            out.root == self.root,
            out.depth == self.depth,
            out.multiproof == self.multiproof,
            out.fields@ == self.fields@.push((index, value)),
            fields_view(out.fields@) == fields_view(self.fields@).push((index, value@)),
    {
        let mut fields = self.fields;
        fields.push((index, value));
        assert(fields_view(fields@) =~= fields_view(self.fields@).push((index, value@)));
        PartialStateBuilder {
            root: self.root,
            depth: self.depth,
            multiproof: self.multiproof,
            fields,
        }
    }

    /// Verifies the multiproof against the root, with the hashes of the
    /// exposed fields as the claimed leaves, and hands out the partial state
    /// with nothing written yet.
    ///
    /// Fails with `MissingMultiproof` when no multiproof is attached, and
    /// with `ProofVerificationFailed` when verification says no.
    pub fn build(self) -> (out: Result<PartialState, BuildError>)
        ensures
            match out {
                Ok(state) => {
                    &&& builder_verifies(self)
                    &&& state.wf()
                    &&& state.spec_root() == self.root@
                    &&& state.spec_depth() == self.depth
                    &&& Some(state.spec_multiproof()) == self.multiproof
                    &&& state.exposed_order() == field_indices(self.fields@)
                    &&& state.fields() == fields_map(self.fields@)
                    &&& state.dirty_order() == Seq::<u64>::empty()
                    &&& state.dirty() == Set::<int>::empty()
                },
                Err(e) => e == if self.multiproof is None {
                    BuildError::MissingMultiproof
                } else {
                    BuildError::ProofVerificationFailed
                } && !builder_verifies(self),
            },
    {
        let multiproof = match self.multiproof {
            Some(multiproof) => multiproof,
            None => {
                return Err(BuildError::MissingMultiproof);
            },
        };
        let mut claimed: Vec<(GeneralizedIndex, Hash32)> = Vec::new();
        let mut k: usize = 0;
        while k < self.fields.len()
            invariant
                k <= self.fields@.len(),
                claimed@.len() == k,
                forall|j: int|
                    0 <= j < k ==> (#[trigger] claimed@[j]).0 == self.fields@[j].0 && claimed@[j].1@
                        == spec_field_leaf(self.fields@[j].1@),
            decreases self.fields@.len() - k,
        {
            let leaf = field_leaf(&self.fields[k].1);
            claimed.push((self.fields[k].0, leaf));
            k = k + 1;
        }
        assert(claimed_indices(claimed@) =~= field_indices(self.fields@));
        assert(claimed_values(claimed@) =~= field_leaves(self.fields@));
        if !verify(&self.root, &claimed, &multiproof, self.depth) {
            return Err(BuildError::ProofVerificationFailed);
        }
        let dirty: Vec<GeneralizedIndex> = Vec::new();
        assert(index_set(dirty@) =~= Set::<int>::empty());
        Ok(
            PartialState {
                root: self.root,
                depth: self.depth,
                multiproof,
                fields: self.fields,
                dirty,
            },
        )
    }
}

impl PartialState {
    /// No field is exposed twice, and what was written is exposed and
    /// recorded once. This holds of every state that `build` hands out, and
    /// writing keeps it.
    pub closed spec fn wf(self) -> bool {
        &&& distinct(field_indices(self.fields@))
        &&& distinct(self.dirty@)
        &&& forall|k: int|
            0 <= k < self.dirty@.len() ==> prefix_has(
                field_indices(self.fields@),
                self.fields@.len() as int,
                #[trigger] self.dirty@[k] as int,
            )
    }

    /// The root that the fields were verified against.
    pub closed spec fn spec_root(self) -> Seq<u8> {
        self.root@
    }

    /// The depth of the state's tree.
    pub closed spec fn spec_depth(self) -> nat {
        self.depth as nat
    }

    /// The multiproof that the fields were verified with.
    pub closed spec fn spec_multiproof(self) -> Multiproof {
        self.multiproof
    }

    /// The indices of the exposed fields, in the order of their exposure.
    pub closed spec fn exposed_order(self) -> Seq<u64> {
        field_indices(self.fields@)
    }

    /// The exposed fields: generalized index to current value.
    pub closed spec fn fields(self) -> Map<int, Seq<u8>> {
        fields_map(self.fields@)
    }

    /// The indices of the fields written since the state was built, in the
    /// order of their first writing.
    pub closed spec fn dirty_order(self) -> Seq<u64> {
        self.dirty@
    }

    /// The set of the indices of the fields written since the state was built.
    pub closed spec fn dirty(self) -> Set<int> {
        index_set(self.dirty@)
    }

    /// The two views of what is exposed hold the same indices, and so do
    /// the two of what was written; nothing is listed twice, and what was
    /// written is exposed.
    pub proof fn lemma_views(self)
        requires
            self.wf(),
        ensures
            distinct(self.exposed_order()),
            distinct(self.dirty_order()),
            self.fields().dom() == index_set(self.exposed_order()),
            self.dirty() == index_set(self.dirty_order()),
            self.dirty().subset_of(self.fields().dom()),
    {
        assert(self.fields().dom() =~= index_set(self.exposed_order()));
        assert forall|i: int| self.dirty().contains(i) implies self.fields().dom().contains(i) by {
            let w = choose|w: int| 0 <= w < self.dirty@.len() && #[trigger] self.dirty@[w] == i;
            assert(prefix_has(
                field_indices(self.fields@),
                self.fields@.len() as int,
                self.dirty@[w] as int,
            ));
        }
    }

    /// The root that the fields were verified against.
    pub fn root(&self) -> (out: Hash32)
        ensures
            out@ == self.spec_root(),
    {
        self.root
    }

    /// The depth of the state's tree.
    pub fn depth(&self) -> (out: u32)
        ensures
            out == self.spec_depth(),
    {
        self.depth
    }

    /// The multiproof that the fields were verified with.
    pub fn multiproof(&self) -> (out: &Multiproof)
        ensures
            *out == self.spec_multiproof(),
    {
        &self.multiproof
    }

    /// Whether the field at `index` is exposed.
    pub fn is_exposed(&self, index: GeneralizedIndex) -> (out: bool)
        ensures
            out == self.fields().contains_key(index as int),
    {
        find_field(&self.fields, index).is_some()
    }

    /// Whether the field at `index` was written.
    pub fn is_dirty(&self, index: GeneralizedIndex) -> (out: bool)
        ensures
            out == self.dirty().contains(index as int),
    {
        let mut k: usize = 0;
        while k < self.dirty.len()
            invariant
                k <= self.dirty@.len(),
                forall|j: int| 0 <= j < k ==> self.dirty@[j] != index,
            decreases self.dirty@.len() - k,
        {
            if self.dirty[k] == index {
                return true;
            }
            k = k + 1;
        }
        false
    }

    /// The value of the field at `index`. Fails with `FieldNotExposed`
    /// unless that field is exposed.
    pub fn read_field(&self, index: GeneralizedIndex) -> (out: Result<Vec<u8>, AccessError>)
        ensures
            match out {
                Ok(value) => self.fields().contains_key(index as int) && value@
                    == self.fields()[index as int],
                Err(e) => e == AccessError::FieldNotExposed(index) && !self.fields().contains_key(
                    index as int,
                ),
            },
    {
        match find_field(&self.fields, index) {
            Some(k) => Ok(copy_bytes(&self.fields[k].1)),
            None => Err(AccessError::FieldNotExposed(index)),
        }
    }

    /// Writes `value` to the field at `index` and records the index as
    /// written, once. Fails with `FieldNotExposed`, and changes nothing,
    /// unless that field is exposed.
    pub fn write_field(&mut self, index: GeneralizedIndex, value: Vec<u8>) -> (out: Result<
        (),
        AccessError,
    >)
        ensures
            old(self).wf() ==> final(self).wf(),
            final(self).spec_root() == old(self).spec_root(),
            final(self).spec_depth() == old(self).spec_depth(),
            final(self).spec_multiproof() == old(self).spec_multiproof(),
            final(self).exposed_order() == old(self).exposed_order(),
            match out {
                Ok(()) => {
                    &&& old(self).fields().contains_key(index as int)
                    &&& final(self).fields() == old(self).fields().insert(index as int, value@)
                    &&& final(self).dirty() == old(self).dirty().insert(index as int)
                    &&& final(self).dirty_order() == if old(self).dirty().contains(index as int) {
                        old(self).dirty_order()
                    } else {
                        old(self).dirty_order().push(index)
                    }
                },
                Err(e) => {
                    &&& e == AccessError::FieldNotExposed(index)
                    &&& !old(self).fields().contains_key(index as int)
                    &&& final(self).fields() == old(self).fields()
                    &&& final(self).dirty() == old(self).dirty()
                    &&& final(self).dirty_order() == old(self).dirty_order()
                },
            },
    {
        let k = match find_field(&self.fields, index) {
            Some(k) => k,
            None => {
                return Err(AccessError::FieldNotExposed(index));
            },
        };
        let ghost before = self.fields@;
        let ghost bytes = value@;
        assert(field_indices(before)[k as int] == index);
        self.fields.set(k, (index, value));
        proof {
            lemma_update_field(before, self.fields@, k as int, bytes);
        }
        if !self.is_dirty(index) {
            proof {
                lemma_push_index(self.dirty@, index);
            }
            self.dirty.push(index);
        } else {
            assert(self.dirty() =~= self.dirty().insert(index as int));
        }
        Ok(())
    }

    /// The indices of the fields written so far, each once, in the order of
    /// their first writing.
    pub fn dirty_indices(&self) -> (out: Vec<GeneralizedIndex>)
        ensures
            out@ == self.dirty_order(),
    {
        let mut out: Vec<GeneralizedIndex> = Vec::new();
        let mut k: usize = 0;
        while k < self.dirty.len()
            invariant
                k <= self.dirty@.len(),
                out@ == self.dirty@.subrange(0, k as int),
            decreases self.dirty@.len() - k,
        {
            out.push(self.dirty[k]);
            k = k + 1;
        }
        assert(self.dirty@.subrange(0, k as int) == self.dirty@);
        out
    }

    /// Ends the invocation: the fields in the order of their exposure, each
    /// with its last value, and the indices written, without the root and
    /// the proof.
    pub fn finalize(self) -> (out: PartialResult)
        ensures
            field_indices(out.fields@) == self.exposed_order(),
            fields_map(out.fields@) == self.fields(),
            out.dirty@ == self.dirty_order(),
    {
        PartialResult { fields: self.fields, dirty: self.dirty }
    }
}

} // verus!
