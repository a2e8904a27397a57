use ream_lib::epoch::{
    reset_entry, EPOCHS_PER_SLASHINGS_VECTOR, SLASHINGS_BYTES, SLOTS_PER_EPOCH,
};
use ream_lib::hash::Hash32;
use ream_lib::multiproof::generate;
use ream_lib::partial::{
    AccessError, PartialResult, PartialStateBuilder, SLASHINGS_GENERALIZED_INDEX,
    SLOT_GENERALIZED_INDEX,
};
use ream_lib::pipeline::{complete, PipelineError};
use ream_lib::reconcile::{reconcile, FullState};
use ream_lib::words::{decode_word, encode_word, encode_words, zero_word};

fn slashings() -> Vec<u64> {
    (0..8192u64).map(|k| k * 1_000_003 + 17).collect()
}

fn beacon_state(slot: u64) -> FullState {
    let mut fields: Vec<Vec<u8>> = (0u8..37).map(|t| vec![t; 3 + t as usize]).collect();
    fields[2] = encode_word(slot);
    fields[14] = encode_words(&slashings());
    FullState { depth: 6, fields }
}

#[test]
fn numbers_are_little_endian() {
    assert_eq!(encode_word(0), vec![0u8; 8]);
    assert_eq!(encode_word(1), vec![1, 0, 0, 0, 0, 0, 0, 0]);
    assert_eq!(encode_word(0x0102030405060708), vec![8, 7, 6, 5, 4, 3, 2, 1]);
    assert_eq!(encode_word(u64::MAX), vec![255u8; 8]);
    assert_eq!(decode_word(&vec![8, 7, 6, 5, 4, 3, 2, 1]), Some(0x0102030405060708));
    assert_eq!(decode_word(&vec![0u8; 8]), Some(0));
    assert_eq!(decode_word(&vec![255u8; 8]), Some(u64::MAX));
    assert_eq!(decode_word(&vec![0u8; 7]), None);
    assert_eq!(decode_word(&vec![0u8; 9]), None);
    assert_eq!(decode_word(&Vec::new()), None);
    for x in [0u64, 1, 255, 256, 1 << 32, u64::MAX - 1] {
        assert_eq!(decode_word(&encode_word(x)), Some(x));
    }
}

#[test]
fn vectors_of_numbers_are_laid_end_to_end() {
    assert_eq!(encode_words(&Vec::new()), Vec::<u8>::new());
    assert_eq!(
        encode_words(&vec![1, 0x0200, u64::MAX]),
        vec![1, 0, 0, 0, 0, 0, 0, 0, 0, 2, 0, 0, 0, 0, 0, 0, 255, 255, 255, 255, 255, 255, 255, 255]
    );
    assert_eq!(encode_words(&slashings()).len(), SLASHINGS_BYTES);
    assert_eq!(SLASHINGS_BYTES, 65536);
}

#[test]
fn zero_word_clears_eight_bytes() {
    let bytes: Vec<u8> = (1u8..=24).collect();
    let mut expected = bytes.clone();
    for j in 8..16 {
        expected[j] = 0;
    }
    assert_eq!(zero_word(&bytes, 1), expected);
    assert_eq!(zero_word(&bytes, 3), bytes);
    assert_eq!(zero_word(&vec![9u8; 12], 1), vec![9, 9, 9, 9, 9, 9, 9, 9, 0, 0, 0, 0]);
    let words = vec![5u64, 6, 7];
    assert_eq!(zero_word(&encode_words(&words), 2), encode_words(&vec![5, 6, 0]));
}

#[test]
fn reset_entry_is_that_of_the_next_epoch() {
    assert_eq!(SLOTS_PER_EPOCH, 32);
    assert_eq!(EPOCHS_PER_SLASHINGS_VECTOR, 8192);
    assert_eq!(reset_entry(0), 1);
    assert_eq!(reset_entry(31), 1);
    assert_eq!(reset_entry(32), 2);
    assert_eq!(reset_entry(32 * 5 + 3), 6);
    assert_eq!(reset_entry(32 * 8190), 8191);
    assert_eq!(reset_entry(32 * 8191), 0);
    assert_eq!(reset_entry(32 * 8191 + 31), 0);
    assert_eq!(reset_entry(32 * 8192), 1);
    assert_eq!(reset_entry(u64::MAX), ((u64::MAX / 32 + 1) % 8192) as usize);
    assert_eq!(reset_entry(u64::MAX), 0);
}

#[test]
fn slashings_reset_on_the_partial_state() {
    let slot = 32 * 5 + 3;
    let state = beacon_state(slot);
    let builder =
        state.build_partial(&vec![SLOT_GENERALIZED_INDEX, SLASHINGS_GENERALIZED_INDEX]).unwrap();
    let mut partial = builder.build().unwrap();
    assert_eq!(partial.process_slashings_reset(), Ok(()));
    let mut expected = slashings();
    assert_ne!(expected[6], 0);
    expected[6] = 0;
    assert_eq!(partial.read_field(SLASHINGS_GENERALIZED_INDEX), Ok(encode_words(&expected)));
    assert_eq!(partial.read_field(SLOT_GENERALIZED_INDEX), Ok(encode_word(slot)));
    assert_eq!(partial.dirty_indices(), vec![SLASHINGS_GENERALIZED_INDEX]);
    assert_eq!(partial.process_slashings_reset(), Ok(()));
    assert_eq!(partial.dirty_indices(), vec![SLASHINGS_GENERALIZED_INDEX]);
    assert_eq!(partial.read_field(SLASHINGS_GENERALIZED_INDEX), Ok(encode_words(&expected)));
}

#[test]
fn slashings_reset_through_the_named_builder_methods() {
    let slot = 32 * 8191 + 7;
    let state = beacon_state(slot);
    let tree = state.tree().unwrap();
    let proof = generate(&tree, &vec![66, 78], 6).unwrap();
    let mut partial = PartialStateBuilder::from_root(tree.root())
        .with_multiproof(proof)
        .with_slot(slot)
        .with_slashings(&slashings())
        .build()
        .unwrap();
    assert_eq!(partial.process_slashings_reset(), Ok(()));
    let mut expected = slashings();
    expected[0] = 0;
    let result = partial.finalize();
    assert_eq!(
        result,
        PartialResult {
            fields: vec![(66, encode_word(slot)), (78, encode_words(&expected))],
            dirty: vec![78],
        }
    );
}

#[test]
fn slashings_reset_needs_both_fields_exposed() {
    let state = beacon_state(100);
    let mut no_slot = state.build_partial(&vec![78, 70]).unwrap().build().unwrap();
    assert_eq!(no_slot.process_slashings_reset(), Err(AccessError::FieldNotExposed(66)));
    assert!(no_slot.dirty_indices().is_empty());
    let mut no_slashings = state.build_partial(&vec![66, 64]).unwrap().build().unwrap();
    assert_eq!(no_slashings.process_slashings_reset(), Err(AccessError::FieldNotExposed(78)));
    assert!(no_slashings.dirty_indices().is_empty());
    let mut neither = state.build_partial(&vec![100]).unwrap().build().unwrap();
    assert_eq!(neither.process_slashings_reset(), Err(AccessError::FieldNotExposed(66)));
}

#[test]
fn slashings_reset_refuses_fields_of_another_length() {
    let mut state = beacon_state(100);
    state.fields[2] = vec![1, 2, 3];
    let mut partial = state.build_partial(&vec![66, 78]).unwrap().build().unwrap();
    assert_eq!(partial.process_slashings_reset(), Err(AccessError::MalformedField(66)));
    assert!(partial.dirty_indices().is_empty());

    let mut state = beacon_state(100);
    state.fields[14].pop();
    let mut partial = state.build_partial(&vec![66, 78]).unwrap().build().unwrap();
    assert_eq!(partial.process_slashings_reset(), Err(AccessError::MalformedField(78)));
    assert_eq!(partial.read_field(78), Ok(state.fields[14].clone()));

    let mut direct = state.clone();
    assert_eq!(direct.process_slashings_reset(), Err(AccessError::MalformedField(78)));
    assert_eq!(direct, state);
}

#[test]
fn slashings_reset_on_the_full_state() {
    let mut state = beacon_state(64);
    let before = state.clone();
    assert_eq!(state.process_slashings_reset(), Ok(()));
    let mut expected = slashings();
    expected[3] = 0;
    for k in 0..37 {
        if k == 14 {
            assert_eq!(state.fields[k], encode_words(&expected));
        } else {
            assert_eq!(state.fields[k], before.fields[k]);
        }
    }
    let mut short = FullState { depth: 6, fields: before.fields[..10].to_vec() };
    assert_eq!(short.process_slashings_reset(), Err(AccessError::FieldNotExposed(78)));
    let mut shallow = FullState { depth: 3, fields: before.fields[..8].to_vec() };
    assert_eq!(shallow.process_slashings_reset(), Err(AccessError::FieldNotExposed(66)));
}

#[test]
fn partial_reset_patched_in_equals_the_full_reset() {
    for slot in [0u64, 31, 32, 32 * 5 + 3, 32 * 8191, u64::MAX] {
        let state = beacon_state(slot);
        let mut direct = state.clone();
        assert_eq!(direct.process_slashings_reset(), Ok(()));
        let mut partial = state.build_partial(&vec![66, 78]).unwrap().build().unwrap();
        assert_eq!(partial.process_slashings_reset(), Ok(()));
        let result = partial.finalize();
        let mut patched = state.clone();
        assert_eq!(reconcile(&mut patched, &result), Ok(()));
        assert_eq!(patched, direct);
        assert_eq!(patched.root().unwrap(), direct.root().unwrap());
        assert_ne!(patched.root().unwrap(), state.root().unwrap());
    }
}

#[test]
fn complete_accepts_the_expected_root() {
    let state = beacon_state(77);
    let mut direct = state.clone();
    direct.process_slashings_reset().unwrap();
    let expected: Hash32 = direct.root().unwrap();
    let mut partial = state.build_partial(&vec![66, 78]).unwrap().build().unwrap();
    partial.process_slashings_reset().unwrap();
    let mut host = state.clone();
    assert_eq!(complete(&mut host, Some(partial.finalize()), &expected), Ok(()));
    assert_eq!(host, direct);
}

#[test]
fn complete_fails_as_documented() {
    let state = beacon_state(77);
    let unchanged_root = state.root().unwrap();

    let mut host = state.clone();
    assert_eq!(
        complete(&mut host, None, &unchanged_root),
        Err(PipelineError::BoundaryExecutionFailed)
    );
    assert_eq!(host, state);

    let mut host = state.clone();
    let unknown = PartialResult { fields: vec![(101, vec![1])], dirty: vec![101] };
    assert_eq!(
        complete(&mut host, Some(unknown), &unchanged_root),
        Err(PipelineError::UnknownMutatedIndex(101))
    );
    assert_eq!(host, state);

    let mut host = state.clone();
    let written = PartialResult { fields: vec![(64, vec![1])], dirty: vec![64] };
    assert_eq!(
        complete(&mut host, Some(written.clone()), &unchanged_root),
        Err(PipelineError::RootMismatch)
    );
    assert_eq!(host.fields[0], vec![1]);

    let mut host = state.clone();
    let nothing = PartialResult { fields: vec![(64, vec![1])], dirty: Vec::new() };
    assert_eq!(complete(&mut host, Some(nothing), &unchanged_root), Ok(()));
    assert_eq!(host, state);

    let mut host = state.clone();
    host.depth = 5;
    let none = PartialResult { fields: Vec::new(), dirty: Vec::new() };
    assert_eq!(
        complete(&mut host, Some(none), &unchanged_root),
        Err(PipelineError::InvalidDepth)
    );
}
