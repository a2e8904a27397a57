use ream_lib::hash::Hash32;
use ream_lib::multiproof::{generate, Multiproof};
use ream_lib::partial::{
    field_leaf, AccessError, BuildError, PartialResult, PartialStateBuilder, STATE_TREE_DEPTH,
};
use ream_lib::reconcile::{reconcile, FullState, ReconcileError};
use ream_lib::tree::{MerkleError, MerkleTree};
use sha2::Digest;

fn value(tag: u8, len: usize) -> Vec<u8> {
    (0..len).map(|k| tag.wrapping_add(k as u8).wrapping_mul(3)).collect()
}

fn small_state() -> FullState {
    FullState { depth: 3, fields: (0u8..6).map(|t| value(t, 5 + t as usize)).collect() }
}

fn sha(bytes: &[u8]) -> Hash32 {
    sha2::Sha256::digest(bytes).into()
}

#[test]
fn field_leaf_is_the_hash_of_the_value() {
    let v = value(4, 40);
    assert_eq!(field_leaf(&v), sha(&v));
    assert_eq!(field_leaf(&Vec::new()), sha(&[]));
    assert_ne!(field_leaf(&vec![0u8; 32]), [0u8; 32]);
}

#[test]
fn state_leaves_and_root() {
    let state = small_state();
    let leaves = state.leaves();
    assert_eq!(leaves.len(), 6);
    for k in 0..6 {
        assert_eq!(leaves[k], sha(&state.fields[k]));
    }
    let tree = MerkleTree::build(&leaves, 3).unwrap();
    assert_eq!(state.root().unwrap(), tree.root());
    assert_eq!(state.tree().unwrap().root(), tree.root());
}

#[test]
fn state_root_fails_with_invalid_depth() {
    let mut state = small_state();
    state.depth = 2;
    assert_eq!(state.root().err(), Some(MerkleError::InvalidDepth));
    state.depth = 31;
    assert_eq!(state.root().err(), Some(MerkleError::InvalidDepth));
    assert_eq!(state.build_partial(&vec![8]).err(), Some(MerkleError::InvalidDepth));
}

#[test]
fn field_positions() {
    let state = small_state();
    assert_eq!(state.field_position(8), Some(0));
    assert_eq!(state.field_position(13), Some(5));
    assert_eq!(state.field_position(14), None);
    assert_eq!(state.field_position(7), None);
    assert_eq!(state.field_position(16), None);
    assert_eq!(state.field_position(0), None);
}

#[test]
fn builder_collects_root_proof_and_fields() {
    let root = [7u8; 32];
    let builder = PartialStateBuilder::from_root(root);
    assert_eq!(builder.root, root);
    assert_eq!(builder.depth, STATE_TREE_DEPTH);
    assert_eq!(builder.depth, 6);
    assert_eq!(builder.multiproof, None);
    assert!(builder.fields.is_empty());
    let proof = Multiproof { indices: vec![3], hashes: vec![[1u8; 32]] };
    let builder =
        builder.with_depth(3).with_field(10, vec![1, 2]).with_multiproof(proof.clone()).with_field(
            13,
            vec![3],
        );
    assert_eq!(builder.root, root);
    assert_eq!(builder.depth, 3);
    assert_eq!(builder.multiproof, Some(proof));
    assert_eq!(builder.fields, vec![(10u64, vec![1u8, 2]), (13u64, vec![3u8])]);
}

#[test]
fn build_fails_without_a_multiproof() {
    let state = small_state();
    let builder = PartialStateBuilder::from_root(state.root().unwrap())
        .with_depth(3)
        .with_field(10, state.fields[2].clone());
    assert_eq!(builder.build().err(), Some(BuildError::MissingMultiproof));
    let empty = PartialStateBuilder::from_root([0u8; 32]);
    assert_eq!(empty.build().err(), Some(BuildError::MissingMultiproof));
}

#[test]
fn build_verifies_the_proof() {
    let state = small_state();
    let tree = state.tree().unwrap();
    let proof = generate(&tree, &vec![10, 13], 3).unwrap();
    let built = PartialStateBuilder::from_root(tree.root())
        .with_depth(3)
        .with_multiproof(proof.clone())
        .with_field(13, state.fields[5].clone())
        .with_field(10, state.fields[2].clone())
        .build()
        .unwrap();
    assert_eq!(built.root(), tree.root());
    assert_eq!(built.depth(), 3);
    assert_eq!(built.multiproof(), &proof);
    assert!(built.is_exposed(10));
    assert!(built.is_exposed(13));
    assert!(!built.is_exposed(11));
    assert!(!built.is_dirty(10));
    assert!(built.dirty_indices().is_empty());
    assert_eq!(built.read_field(10), Ok(state.fields[2].clone()));
    assert_eq!(built.read_field(13), Ok(state.fields[5].clone()));
    assert_eq!(built.read_field(11), Err(AccessError::FieldNotExposed(11)));
}

#[test]
fn build_fails_on_a_forged_field_or_proof() {
    let state = small_state();
    let tree = state.tree().unwrap();
    let proof = generate(&tree, &vec![10, 13], 3).unwrap();
    let honest = || {
        PartialStateBuilder::from_root(tree.root()).with_depth(3).with_multiproof(proof.clone())
    };
    let mut forged = state.fields[2].clone();
    forged[0] ^= 1;
    let r = honest().with_field(10, forged).with_field(13, state.fields[5].clone()).build();
    assert_eq!(r.err(), Some(BuildError::ProofVerificationFailed));

    let mut longer = state.fields[2].clone();
    longer.push(0);
    let r = honest().with_field(10, longer).with_field(13, state.fields[5].clone()).build();
    assert_eq!(r.err(), Some(BuildError::ProofVerificationFailed));

    let r = honest().with_field(10, state.fields[2].clone()).build();
    assert_eq!(r.err(), Some(BuildError::ProofVerificationFailed));

    let r = honest().build();
    assert_eq!(r.err(), Some(BuildError::ProofVerificationFailed));

    let r = honest()
        .with_field(10, state.fields[2].clone())
        .with_field(13, state.fields[5].clone())
        .with_field(10, state.fields[2].clone())
        .build();
    assert_eq!(r.err(), Some(BuildError::ProofVerificationFailed));

    let mut stale = proof.clone();
    stale.hashes[0][5] ^= 0x10;
    let r = PartialStateBuilder::from_root(tree.root())
        .with_depth(3)
        .with_multiproof(stale)
        .with_field(10, state.fields[2].clone())
        .with_field(13, state.fields[5].clone())
        .build();
    assert_eq!(r.err(), Some(BuildError::ProofVerificationFailed));

    let r = PartialStateBuilder::from_root(tree.root())
        .with_multiproof(proof.clone())
        .with_field(10, state.fields[2].clone())
        .with_field(13, state.fields[5].clone())
        .build();
    assert_eq!(r.err(), Some(BuildError::ProofVerificationFailed));

    let mut other_root = tree.root();
    other_root[0] ^= 1;
    let r = PartialStateBuilder::from_root(other_root)
        .with_depth(3)
        .with_multiproof(proof.clone())
        .with_field(10, state.fields[2].clone())
        .with_field(13, state.fields[5].clone())
        .build();
    assert_eq!(r.err(), Some(BuildError::ProofVerificationFailed));
}

#[test]
fn requests_made_from_the_state_build() {
    let state = small_state();
    for mask in 1u32..64 {
        let indices: Vec<u64> = (0..6).filter(|b| mask & (1 << b) != 0).map(|b| 8 + b).collect();
        let builder = state.build_partial(&indices).unwrap();
        assert_eq!(builder.root, state.root().unwrap());
        assert_eq!(builder.depth, 3);
        assert_eq!(builder.fields.len(), indices.len());
        for (k, index) in indices.iter().enumerate() {
            assert_eq!(builder.fields[k], (*index, state.fields[(*index - 8) as usize].clone()));
        }
        let tree = state.tree().unwrap();
        assert_eq!(builder.multiproof, Some(generate(&tree, &indices, 3).unwrap()));
        let built = builder.build().unwrap();
        for index in indices.iter() {
            assert_eq!(built.read_field(*index), Ok(state.fields[(*index - 8) as usize].clone()));
        }
    }
}

#[test]
fn requests_fail_as_documented() {
    let state = small_state();
    assert_eq!(state.build_partial(&Vec::new()).err(), Some(MerkleError::EmptyTargetSet));
    assert_eq!(state.build_partial(&vec![14]).err(), Some(MerkleError::IndexOutOfRange));
    assert_eq!(state.build_partial(&vec![8, 15]).err(), Some(MerkleError::IndexOutOfRange));
    assert_eq!(state.build_partial(&vec![4]).err(), Some(MerkleError::IndexOutOfRange));
    assert_eq!(state.build_partial(&vec![16]).err(), Some(MerkleError::IndexOutOfRange));
    assert!(state.build_partial(&vec![13]).is_ok());
    let twice = state.build_partial(&vec![9, 9]).unwrap();
    assert_eq!(twice.build().err(), Some(BuildError::ProofVerificationFailed));
}

#[test]
fn writing_a_field_that_is_not_exposed_fails() {
    let state = small_state();
    let mut partial = state.build_partial(&vec![10, 13]).unwrap().build().unwrap();
    for index in [0u64, 1, 5, 8, 9, 11, 12, 14, 15, 16, 66, u64::MAX] {
        assert_eq!(
            partial.write_field(index, vec![1, 2, 3]),
            Err(AccessError::FieldNotExposed(index))
        );
        assert!(!partial.is_dirty(index));
    }
    assert!(partial.dirty_indices().is_empty());
    assert_eq!(partial.read_field(10), Ok(state.fields[2].clone()));
    assert_eq!(partial.read_field(13), Ok(state.fields[5].clone()));
    let result = partial.finalize();
    assert_eq!(
        result.fields,
        vec![(10u64, state.fields[2].clone()), (13u64, state.fields[5].clone())]
    );
    assert!(result.dirty.is_empty());
}

#[test]
fn writing_marks_the_field_once_and_keeps_the_last_value() {
    let state = small_state();
    let mut partial = state.build_partial(&vec![10, 13]).unwrap().build().unwrap();
    assert_eq!(partial.write_field(13, vec![5, 5]), Ok(()));
    assert_eq!(partial.dirty_indices(), vec![13]);
    assert_eq!(partial.write_field(13, vec![5, 5]), Ok(()));
    assert_eq!(partial.dirty_indices(), vec![13]);
    assert!(partial.is_dirty(13));
    assert!(!partial.is_dirty(10));
    assert_eq!(partial.read_field(13), Ok(vec![5, 5]));
    assert_eq!(partial.write_field(13, vec![6]), Ok(()));
    assert_eq!(partial.dirty_indices(), vec![13]);
    assert_eq!(partial.write_field(10, Vec::new()), Ok(()));
    assert_eq!(partial.dirty_indices(), vec![13, 10]);
    assert_eq!(partial.root(), state.root().unwrap());
    let result = partial.finalize();
    assert_eq!(result.fields, vec![(10u64, Vec::new()), (13u64, vec![6u8])]);
    assert_eq!(result.dirty, vec![13, 10]);
}

#[test]
fn writing_the_old_value_still_marks_the_field() {
    let state = small_state();
    let mut partial = state.build_partial(&vec![10]).unwrap().build().unwrap();
    assert_eq!(partial.write_field(10, state.fields[2].clone()), Ok(()));
    assert_eq!(partial.dirty_indices(), vec![10]);
}

#[test]
fn reconcile_patches_the_written_fields_only() {
    let mut state = small_state();
    let before = state.clone();
    let result = PartialResult {
        fields: vec![(10, vec![1]), (13, vec![2, 2]), (9, vec![3, 3, 3])],
        dirty: vec![13, 9],
    };
    assert_eq!(reconcile(&mut state, &result), Ok(()));
    assert_eq!(state.depth, 3);
    assert_eq!(state.fields[0], before.fields[0]);
    assert_eq!(state.fields[1], vec![3, 3, 3]);
    assert_eq!(state.fields[2], before.fields[2]);
    assert_eq!(state.fields[3], before.fields[3]);
    assert_eq!(state.fields[4], before.fields[4]);
    assert_eq!(state.fields[5], vec![2, 2]);
}

#[test]
fn reconcile_with_nothing_written_changes_nothing() {
    let mut state = small_state();
    let before = state.clone();
    let result = PartialResult { fields: vec![(10, vec![1]), (99, vec![2])], dirty: Vec::new() };
    assert_eq!(reconcile(&mut state, &result), Ok(()));
    assert_eq!(state, before);
}

#[test]
fn reconcile_fails_on_an_unknown_index_and_changes_nothing() {
    let before = small_state();
    let cases: Vec<(PartialResult, u64)> = vec![
        (PartialResult { fields: vec![(14, vec![1])], dirty: vec![14] }, 14),
        (PartialResult { fields: vec![(5, vec![1])], dirty: vec![5] }, 5),
        (PartialResult { fields: vec![(16, vec![1])], dirty: vec![16] }, 16),
        (PartialResult { fields: vec![(0, vec![1])], dirty: vec![0] }, 0),
        (PartialResult { fields: vec![(10, vec![1])], dirty: vec![11] }, 11),
        (PartialResult { fields: vec![(10, vec![1]), (66, vec![2])], dirty: vec![10, 66] }, 66),
        (PartialResult { fields: vec![(10, vec![1])], dirty: vec![10, 12, 15] }, 12),
        (PartialResult { fields: Vec::new(), dirty: vec![8] }, 8),
    ];
    for (result, index) in cases {
        let mut state = before.clone();
        assert_eq!(
            reconcile(&mut state, &result),
            Err(ReconcileError::UnknownMutatedIndex(index))
        );
        assert_eq!(state, before);
    }
}

#[test]
fn reconcile_takes_the_first_of_two_carried_values() {
    let mut state = small_state();
    let result =
        PartialResult { fields: vec![(10, vec![1]), (10, vec![2])], dirty: vec![10, 10] };
    assert_eq!(reconcile(&mut state, &result), Ok(()));
    assert_eq!(state.fields[2], vec![1]);
}

#[test]
fn round_trip_gives_the_root_of_the_direct_writes() {
    let state = small_state();
    let writes: Vec<(u64, Vec<u8>)> =
        vec![(13, vec![9; 40]), (10, vec![1]), (13, vec![7, 7]), (9, Vec::new())];
    let mut direct = state.clone();
    for (index, bytes) in writes.iter() {
        direct.fields[(*index - 8) as usize] = bytes.clone();
    }
    let mut partial = state.build_partial(&vec![9, 10, 13]).unwrap().build().unwrap();
    for (index, bytes) in writes.iter() {
        assert_eq!(partial.write_field(*index, bytes.clone()), Ok(()));
    }
    let result = partial.finalize();
    let mut patched = state.clone();
    assert_eq!(reconcile(&mut patched, &result), Ok(()));
    assert_eq!(patched, direct);
    assert_eq!(patched.root().unwrap(), direct.root().unwrap());
    assert_ne!(patched.root().unwrap(), state.root().unwrap());
}
