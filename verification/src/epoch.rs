//! The reset of the slashings vector at the end of an epoch, as an operation
//! on the partial state: it reads the slot and writes the slashings.

use crate::gindex::GeneralizedIndex;
use crate::partial::{
    copy_bytes, fields_view, AccessError, PartialState, PartialStateBuilder,
    SLASHINGS_GENERALIZED_INDEX, SLOT_GENERALIZED_INDEX,
};
use crate::reconcile::{full_agrees, is_field_index, patch, values_view, FullState};
use crate::round_trip::{full_after, lemma_round_trip, partial_after, Writes};
use crate::words::{
    decode_word, encode_word, encode_words, spec_encode_words, spec_zero_word, zero_word,
};
use vstd::arithmetic::power2::pow2;
use vstd::bytes::{spec_u64_from_le_bytes, spec_u64_to_le_bytes};
use vstd::prelude::*;

verus! {

/// The number of slots in an epoch.
pub const SLOTS_PER_EPOCH: u64 = 32;

/// The number of entries of the slashings vector.
pub const EPOCHS_PER_SLASHINGS_VECTOR: u64 = 8192;

/// The length of the slashings vector in bytes.
pub const SLASHINGS_BYTES: usize = 65536;

/// The entry of the slashings vector that is reset at the end of the epoch
/// of `slot`: that of the next epoch.
pub open spec fn spec_reset_entry(slot: u64) -> int {
    (slot / SLOTS_PER_EPOCH + 1) % (EPOCHS_PER_SLASHINGS_VECTOR as int)
}

/// What the reset does to the exposed fields: the new bytes of the
/// slashings, or why there are none. The slot is looked at first.
pub open spec fn slashings_reset_outcome(fields: Map<int, Seq<u8>>) -> Result<
    Seq<u8>,
    AccessError,
> {
    let slot = SLOT_GENERALIZED_INDEX as int;
    let slashings = SLASHINGS_GENERALIZED_INDEX as int;
    if !fields.contains_key(slot) {
        Err(AccessError::FieldNotExposed(SLOT_GENERALIZED_INDEX))
    } else if !fields.contains_key(slashings) {
        Err(AccessError::FieldNotExposed(SLASHINGS_GENERALIZED_INDEX))
    } else if fields[slot].len() != 8 {
        Err(AccessError::MalformedField(SLOT_GENERALIZED_INDEX))
    } else if fields[slashings].len() != SLASHINGS_BYTES {
        Err(AccessError::MalformedField(SLASHINGS_GENERALIZED_INDEX))
    } else {
        Ok(
            spec_zero_word(
                fields[slashings],
                spec_reset_entry(spec_u64_from_le_bytes(fields[slot])),
            ),
        )
    }
}

/// The entry that is reset at the end of the epoch of `slot`.
pub fn reset_entry(slot: u64) -> (out: usize)
    ensures
        out == spec_reset_entry(slot),
        out < EPOCHS_PER_SLASHINGS_VECTOR,
{
    ((slot / SLOTS_PER_EPOCH + 1) % EPOCHS_PER_SLASHINGS_VECTOR) as usize
}

impl PartialStateBuilder {
    /// Exposes the slot.
    pub fn with_slot(self, slot: u64) -> (out: PartialStateBuilder)
        ensures
            out.root == self.root,
            out.depth == self.depth,
            out.multiproof == self.multiproof,
            fields_view(out.fields@) == fields_view(self.fields@).push(
                (SLOT_GENERALIZED_INDEX, spec_u64_to_le_bytes(slot)),
            ),
    {
        let ghost before = self.fields@;
        let out = self.with_field(SLOT_GENERALIZED_INDEX, encode_word(slot));
        assert(fields_view(out.fields@) =~= fields_view(before).push(
            (SLOT_GENERALIZED_INDEX, spec_u64_to_le_bytes(slot)),
        ));
        out
    }

    /// Exposes the slashings vector.
    pub fn with_slashings(self, slashings: &Vec<u64>) -> (out: PartialStateBuilder)
        ensures
            out.root == self.root,
            out.depth == self.depth,
            out.multiproof == self.multiproof,
            fields_view(out.fields@) == fields_view(self.fields@).push(
                (SLASHINGS_GENERALIZED_INDEX, spec_encode_words(slashings@)),
            ),
    {
        let ghost before = self.fields@;
        let out = self.with_field(SLASHINGS_GENERALIZED_INDEX, encode_words(slashings));
        assert(fields_view(out.fields@) =~= fields_view(before).push(
            (SLASHINGS_GENERALIZED_INDEX, spec_encode_words(slashings@)),
        ));
        out
    }
}

impl PartialState {
    /// Sets the slashings of the epoch after the slot's to zero.
    ///
    /// Fails with `FieldNotExposed` unless the slot and the slashings are
    /// both exposed, and with `MalformedField` unless the slot is 8 bytes
    /// and the slashings are 8192 numbers of 8 bytes. On failure nothing
    /// changes.
    pub fn process_slashings_reset(&mut self) -> (out: Result<(), AccessError>)
        ensures
            old(self).wf() ==> final(self).wf(),
            final(self).exposed_order() == old(self).exposed_order(),
            final(self).spec_root() == old(self).spec_root(),
            final(self).spec_depth() == old(self).spec_depth(),
            final(self).spec_multiproof() == old(self).spec_multiproof(),
            match out {
                Ok(()) => {
                    &&& slashings_reset_outcome(old(self).fields()) matches Ok(bytes)
                    &&& final(self).fields() == old(self).fields().insert(
                        SLASHINGS_GENERALIZED_INDEX as int,
                        bytes,
                    )
                    &&& final(self).dirty() == old(self).dirty().insert(
                        SLASHINGS_GENERALIZED_INDEX as int,
                    )
                    &&& final(self).dirty_order() == if old(self).dirty().contains(
                        SLASHINGS_GENERALIZED_INDEX as int,
                    ) {
                        old(self).dirty_order()
                    } else {
                        old(self).dirty_order().push(SLASHINGS_GENERALIZED_INDEX)
                    }
                },
                Err(e) => {
                    &&& slashings_reset_outcome(old(self).fields()) == Err::<
                        Seq<u8>,
                        AccessError,
                    >(e)
                    &&& final(self).fields() == old(self).fields()
                    &&& final(self).dirty() == old(self).dirty()
                    &&& final(self).dirty_order() == old(self).dirty_order()
                },
            },
    {
        let slot_bytes = match self.read_field(SLOT_GENERALIZED_INDEX) {
            Ok(bytes) => bytes,
            Err(e) => {
                return Err(e);
            },
        };
        let slashings = match self.read_field(SLASHINGS_GENERALIZED_INDEX) {
            Ok(bytes) => bytes,
            Err(e) => {
                return Err(e);
            },
        };
        let slot = match decode_word(&slot_bytes) {
            Some(slot) => slot,
            None => {
                return Err(AccessError::MalformedField(SLOT_GENERALIZED_INDEX));
            },
        };
        if slashings.len() != SLASHINGS_BYTES {
            return Err(AccessError::MalformedField(SLASHINGS_GENERALIZED_INDEX));
        }
        let entry = reset_entry(slot);
        let bytes = zero_word(&slashings, entry);
        self.write_field(SLASHINGS_GENERALIZED_INDEX, bytes)
    }
}

/// All the fields of the full state, by generalized index.
pub open spec fn state_fields(values: Seq<Seq<u8>>, depth: nat) -> Map<int, Seq<u8>> {
    Map::new(
        |i: int| is_field_index(i, depth, values.len()),
        |i: int| values[i - pow2(depth)],
    )
}

impl FullState {
    /// The value of the field at `index`.
    fn field_at(&self, index: GeneralizedIndex) -> (out: Result<(usize, Vec<u8>), AccessError>)
        ensures
            match out {
                Ok((p, value)) => {
                    &&& state_fields(values_view(self.fields@), self.depth as nat).contains_key(
                        index as int,
                    )
                    &&& p == index - pow2(self.depth as nat)
                    &&& p < self.fields@.len()
                    &&& value@ == self.fields@[p as int]@
                },
                Err(e) => e == AccessError::FieldNotExposed(index) && !state_fields(
                    values_view(self.fields@),
                    self.depth as nat,
                ).contains_key(index as int),
            },
    {
        match self.field_position(index) {
            Some(p) => Ok((p, copy_bytes(&self.fields[p]))),
            None => Err(AccessError::FieldNotExposed(index)),
        }
    }

    /// Sets the slashings of the epoch after the slot's to zero, on the
    /// full state: the same operation as on the partial state, with every
    /// field of the state in reach.
    pub fn process_slashings_reset(&mut self) -> (out: Result<(), AccessError>)
        ensures
            final(self).depth == old(self).depth,
            match out {
                Ok(()) => {
                    &&& slashings_reset_outcome(
                        state_fields(values_view(old(self).fields@), old(self).depth as nat),
                    ) matches Ok(bytes)
                    &&& values_view(final(self).fields@) == values_view(old(self).fields@).update(
                        SLASHINGS_GENERALIZED_INDEX - pow2(old(self).depth as nat),
                        bytes,
                    )
                },
                Err(e) => {
                    &&& slashings_reset_outcome(
                        state_fields(values_view(old(self).fields@), old(self).depth as nat),
                    ) == Err::<Seq<u8>, AccessError>(e)
                    &&& final(self).fields == old(self).fields
                },
            },
    {
        let slot_bytes = match self.field_at(SLOT_GENERALIZED_INDEX) {
            Ok((_, bytes)) => bytes,
            Err(e) => {
                return Err(e);
            },
        };
        let (place, slashings) = match self.field_at(SLASHINGS_GENERALIZED_INDEX) {
            Ok(found) => found,
            Err(e) => {
                return Err(e);
            },
        };
        let slot = match decode_word(&slot_bytes) {
            Some(slot) => slot,
            None => {
                return Err(AccessError::MalformedField(SLOT_GENERALIZED_INDEX));
            },
        };
        if slashings.len() != SLASHINGS_BYTES {
            return Err(AccessError::MalformedField(SLASHINGS_GENERALIZED_INDEX));
        }
        let entry = reset_entry(slot);
        let bytes = zero_word(&slashings, entry);
        let ghost before = values_view(self.fields@);
        let ghost new_bytes = bytes@;
        self.fields.set(place, bytes);
        assert(values_view(self.fields@) =~= before.update(place as int, new_bytes));
        Ok(())
    }
}

/// The reset on a partial state, patched into the full state, gives what the
/// reset on the full state gives: where the partial state exposes the
/// state's own slot and slashings, the two outcomes are one, and on success
/// the patched state has the fields, and so the root, of the state that was
/// reset directly.
pub proof fn lemma_slashings_reset_round_trip(
    values: Seq<Seq<u8>>,
    depth: nat,
    fields: Map<int, Seq<u8>>,
)
    requires
        full_agrees(fields, values, depth),
        fields.contains_key(SLOT_GENERALIZED_INDEX as int),
        fields.contains_key(SLASHINGS_GENERALIZED_INDEX as int),
    ensures
        slashings_reset_outcome(fields) == slashings_reset_outcome(state_fields(values, depth)),
        slashings_reset_outcome(fields) matches Ok(bytes) ==> patch(
            values,
            depth,
            fields.insert(SLASHINGS_GENERALIZED_INDEX as int, bytes),
            Set::<int>::empty().insert(SLASHINGS_GENERALIZED_INDEX as int),
        ) == values.update(SLASHINGS_GENERALIZED_INDEX - pow2(depth), bytes),
{
    if let Ok(bytes) = slashings_reset_outcome(fields) {
        let writes: Writes = seq![(SLASHINGS_GENERALIZED_INDEX as int, bytes)];
        assert(writes.drop_last() =~= Seq::<(int, Seq<u8>)>::empty());
        assert(writes.last() == (SLASHINGS_GENERALIZED_INDEX as int, bytes));
        assert(partial_after(fields, Set::empty(), writes.drop_last()) == (
            fields,
            Set::<int>::empty(),
        ));
        assert(full_after(values, depth, writes.drop_last()) == values);
        lemma_round_trip(values, depth, fields, writes);
    }
}

} // verus!
