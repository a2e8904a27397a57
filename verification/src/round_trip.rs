//! What holds of a partial state's writes once they are patched back into
//! the full state.

use crate::reconcile::{full_agrees, is_field_index, patch};
use vstd::arithmetic::power2::pow2;
use vstd::prelude::*;

verus! {

/// A sequence of writes: for each, the index of the field and its new value.
pub type Writes = Seq<(int, Seq<u8>)>;

/// The fields and the written indices of a partial state after `writes`,
/// each of them to an exposed field.
pub open spec fn partial_after(fields: Map<int, Seq<u8>>, dirty: Set<int>, writes: Writes) -> (
    Map<int, Seq<u8>>,
    Set<int>,
)
    decreases writes.len(),
{
    if writes.len() == 0 {
        (fields, dirty)
    } else {
        let before = partial_after(fields, dirty, writes.drop_last());
        (before.0.insert(writes.last().0, writes.last().1), before.1.insert(writes.last().0))
    }
}

/// The full state after the same writes, made on it directly.
pub open spec fn full_after(values: Seq<Seq<u8>>, depth: nat, writes: Writes) -> Seq<Seq<u8>>
    decreases writes.len(),
{
    if writes.len() == 0 {
        values
    } else {
        full_after(values, depth, writes.drop_last()).update(
            writes.last().0 - pow2(depth),
            writes.last().1,
        )
    }
}

/// Every write goes to an exposed field.
pub open spec fn writes_exposed(fields: Map<int, Seq<u8>>, writes: Writes) -> bool {
    forall|k: int| 0 <= k < writes.len() ==> fields.contains_key(#[trigger] writes[k].0)
}

/// What the writes leave behind: the exposed set stays, only exposed fields
/// are marked, and the full state written to directly holds, at each
/// position, the partial state's value where the index is marked and the
/// old value elsewhere.
proof fn lemma_writes_track(
    values: Seq<Seq<u8>>,
    depth: nat,
    fields: Map<int, Seq<u8>>,
    writes: Writes,
)
    requires
        full_agrees(fields, values, depth),
        writes_exposed(fields, writes),
    ensures
        partial_after(fields, Set::empty(), writes).0.dom() == fields.dom(),
        partial_after(fields, Set::empty(), writes).1.subset_of(fields.dom()),
        full_after(values, depth, writes) == patch(
            values,
            depth,
            partial_after(fields, Set::empty(), writes).0,
            partial_after(fields, Set::empty(), writes).1,
        ),
    decreases writes.len(),
{
    let after = partial_after(fields, Set::empty(), writes);
    if writes.len() == 0 {
        assert(full_after(values, depth, writes) =~= patch(values, depth, after.0, after.1));
    } else {
        let earlier = writes.drop_last();
        assert forall|k: int| 0 <= k < earlier.len() implies fields.contains_key(
            #[trigger] earlier[k].0,
        ) by {
            assert(earlier[k] == writes[k]);
        }
        lemma_writes_track(values, depth, fields, earlier);
        let before = partial_after(fields, Set::empty(), earlier);
        let index = writes.last().0;
        assert(fields.contains_key(writes[writes.len() - 1].0));
        assert(is_field_index(index, depth, values.len()));
        assert(after.0.dom() =~= fields.dom());
        assert(full_after(values, depth, writes) =~= patch(values, depth, after.0, after.1));
    }
}

/// Patching a partial state's writes into the full state gives the state
/// that the same writes give when made on the full state directly: the two
/// have the same fields, and so the same root.
///
/// `fields` are the fields exposed from `values`; the writes are the
/// operation, each to an exposed field.
pub proof fn lemma_round_trip(
    values: Seq<Seq<u8>>,
    depth: nat,
    fields: Map<int, Seq<u8>>,
    writes: Writes,
)
    requires
        full_agrees(fields, values, depth),
        writes_exposed(fields, writes),
    ensures
        patch(
            values,
            depth,
            partial_after(fields, Set::empty(), writes).0,
            partial_after(fields, Set::empty(), writes).1,
        ) == full_after(values, depth, writes),
{
    lemma_writes_track(values, depth, fields, writes);
}

/// Writing a field a second time leaves the written indices as they were,
/// and the field holds the value written last.
pub proof fn lemma_second_write(
    fields: Map<int, Seq<u8>>,
    dirty: Set<int>,
    index: int,
    first: Seq<u8>,
    second: Seq<u8>,
)
    ensures
        dirty.insert(index).insert(index) == dirty.insert(index),
        fields.insert(index, first).insert(index, second) == fields.insert(index, second),
        fields.insert(index, first).insert(index, second)[index] == second,
        Set::<int>::empty().insert(index).insert(index).len() == 1,
{
    assert(dirty.insert(index).insert(index) =~= dirty.insert(index));
    assert(fields.insert(index, first).insert(index, second) =~= fields.insert(index, second));
    assert(Set::<int>::empty().insert(index).insert(index) =~= Set::<int>::empty().insert(index));
}

} // verus!
