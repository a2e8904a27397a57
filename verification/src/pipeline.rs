//! The host's last step: what came back over the boundary is patched into
//! the full state, and the state's new root is held against the expected one.

use crate::gindex::{GeneralizedIndex, MAX_DEPTH};
use crate::hash::{hash_eq, Hash32};
use crate::multiproof::index_set;
use crate::partial::{fields_map, PartialResult};
use crate::reconcile::{
    first_unknown, patch, reconcile, state_root, values_view, FullState, ReconcileError,
};
use vstd::arithmetic::power2::pow2;
use vstd::prelude::*;

verus! {

/// Why an invocation did not end well.
#[derive(Clone, Copy, Debug, PartialEq, Eq, Structural)]
pub enum PipelineError {
    /// The run behind the boundary gave no result.
    BoundaryExecutionFailed,
    /// This written index stands for no field of the state, or the result
    /// carries no value for it.
    UnknownMutatedIndex(GeneralizedIndex),
    /// The state's depth is more than `MAX_DEPTH` or does not hold its fields.
    InvalidDepth,
    /// The patched state does not have the expected root.
    RootMismatch,
}

/// The state has a tree: its depth is in range and holds the fields.
pub open spec fn has_tree(depth: nat, count: nat) -> bool {
    depth <= MAX_DEPTH && count <= pow2(depth)
}

/// How an invocation ends. `outcome` is what the boundary gave: the guest's
/// result, or nothing where the run failed. The result's writes are patched
/// into `full`, and the root of the patched state is compared with
/// `expected_root`.
///
/// Fails with `BoundaryExecutionFailed` where there is no result and with
/// `UnknownMutatedIndex` where it cannot be patched in, the state left as it
/// was; with `InvalidDepth` where the state has no tree and with
/// `RootMismatch` where the roots differ, the state patched.
pub fn complete(
    full: &mut FullState,
    outcome: Option<PartialResult>,
    expected_root: &Hash32,
) -> (out: Result<(), PipelineError>)
    ensures
        final(full).depth == old(full).depth,
        match outcome {
            None => out == Err::<(), PipelineError>(PipelineError::BoundaryExecutionFailed)
                && final(full).fields == old(full).fields,
            Some(result) => match first_unknown(
                result.dirty@,
                0,
                old(full).depth as nat,
                old(full).fields@.len(),
                fields_map(result.fields@),
            ) {
                Some(index) => out == Err::<(), PipelineError>(
                    PipelineError::UnknownMutatedIndex(index),
                ) && final(full).fields == old(full).fields,
                None => {
                    &&& values_view(final(full).fields@) == patch(
                        values_view(old(full).fields@),
                        old(full).depth as nat,
                        fields_map(result.fields@),
                        index_set(result.dirty@),
                    )
                    &&& out == if !has_tree(old(full).depth as nat, old(full).fields@.len()) {
                        Err::<(), PipelineError>(PipelineError::InvalidDepth)
                    } else if state_root(
                        values_view(final(full).fields@),
                        old(full).depth as nat,
                    ) != expected_root@ {
                        Err(PipelineError::RootMismatch)
                    } else {
                        Ok(())
                    }
                },
            },
        },
{
    let result = match outcome {
        Some(result) => result,
        None => {
            return Err(PipelineError::BoundaryExecutionFailed);
        },
    };
    match reconcile(full, &result) {
        Ok(()) => {},
        Err(ReconcileError::UnknownMutatedIndex(index)) => {
            return Err(PipelineError::UnknownMutatedIndex(index));
        },
    }
    assert(values_view(full.fields@).len() == old(full).fields@.len());
    match full.root() {
        Ok(root) => {
            if hash_eq(&root, expected_root) {
                Ok(())
            } else {
                Err(PipelineError::RootMismatch)
            }
        },
        Err(_) => Err(PipelineError::InvalidDepth),
    }
}

} // verus!
