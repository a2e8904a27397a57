//! Merkle multiproofs over a fixed-depth hash tree, and the partial view of a
//! state that such a proof authenticates.

use vstd::prelude::*;

pub mod cli;
pub mod epoch;
pub mod fields;
pub mod gindex;
pub mod harness;
pub mod hash;
pub mod input;
pub mod multiproof;
pub mod operation;
pub mod partial;
pub mod pipeline;
pub mod proof_check;
pub mod reconcile;
pub mod round_trip;
pub mod sharing;
pub mod soundness;
pub mod tree;
pub mod words;

verus! {

/// Returns its argument unchanged.
pub fn isomorphic_function(n: u32) -> (out: u32)
    ensures
        out == n,
{
    n
}

} // verus!
