use ream_lib::cli::fork::{Fork, ForkArgs};
use ream_lib::cli::operation::OperationArgs;
use ream_lib::cli::stf_mode::{STFMode, STFModeArgs};
use ream_lib::fields::{StateField, FIRST_FIELD_INDEX, STATE_FIELD_COUNT};
use ream_lib::harness::{
    cases_path, execution_is_correct, input_file_name, is_excluded, select_flow, select_run, Flow,
    RunKind,
};
use ream_lib::input::OperationInput;
use ream_lib::isomorphic_function;
use ream_lib::operation::OperationName;
use ream_lib::partial::{SLASHINGS_GENERALIZED_INDEX, SLOT_GENERALIZED_INDEX};

const ALL_OPERATIONS: [OperationName; 10] = [
    OperationName::Attestation,
    OperationName::AttesterSlashing,
    OperationName::BlockHeader,
    OperationName::BLSToExecutionChange,
    OperationName::Deposit,
    OperationName::ExecutionPayload,
    OperationName::ProposerSlashing,
    OperationName::SyncAggregate,
    OperationName::VoluntaryExit,
    OperationName::Withdrawals,
];

#[test]
fn isomorphic_function_returns_its_argument() {
    assert_eq!(isomorphic_function(0), 0);
    assert_eq!(isomorphic_function(7), 7);
    assert_eq!(isomorphic_function(u32::MAX), u32::MAX);
}

#[test]
fn fork_names() {
    assert_eq!(Fork::Deneb.name(), "deneb");
    assert_eq!(Fork::Electra.name(), "electra");
    assert_eq!(Fork::from_name("deneb"), Some(Fork::Deneb));
    assert_eq!(Fork::from_name("electra"), Some(Fork::Electra));
    assert_eq!(Fork::from_name("Electra"), None);
    assert_eq!(Fork::from_name(""), None);
    assert_eq!(Fork::default(), Fork::Electra);
    assert_eq!(ForkArgs::default().fork, Fork::Electra);
}

#[test]
fn stf_mode_names() {
    assert_eq!(STFMode::Operation.name(), "operation");
    assert_eq!(STFMode::EpochProcessing.name(), "epoch_processing");
    assert_eq!(STFMode::from_name("operation"), Some(STFMode::Operation));
    assert_eq!(STFMode::from_name("epoch_processing"), Some(STFMode::EpochProcessing));
    assert_eq!(STFMode::from_name("epoch-processing"), None);
    let args = STFModeArgs { stf_mode: STFMode::Operation };
    assert!(args.stf_mode == STFMode::Operation);
}

#[test]
fn operation_names_and_input_names() {
    let names = [
        "attestation",
        "attester_slashing",
        "block_header",
        "bls_to_execution_change",
        "deposit",
        "execution_payload",
        "proposer_slashing",
        "sync_aggregate",
        "voluntary_exit",
        "withdrawals",
    ];
    let inputs = [
        "attestation",
        "attester_slashing",
        "block",
        "address_change",
        "deposit",
        "body",
        "proposer_slashing",
        "sync_aggregate",
        "voluntary_exit",
        "execution_payload",
    ];
    for k in 0..10 {
        assert_eq!(ALL_OPERATIONS[k].name(), names[k]);
        assert_eq!(ALL_OPERATIONS[k].to_input_name(), inputs[k]);
        assert_eq!(input_file_name(ALL_OPERATIONS[k]), format!("{}.ssz_snappy", inputs[k]));
    }
}

#[test]
fn operation_discriminants_round_trip() {
    for (k, op) in ALL_OPERATIONS.iter().enumerate() {
        assert_eq!(op.discriminant(), k as u8);
        assert_eq!(OperationName::from_discriminant(k as u8), Some(*op));
    }
    for byte in 10u8..=255 {
        assert_eq!(OperationName::from_discriminant(byte), None);
    }
}

#[test]
fn operation_argument_may_be_absent() {
    let given = OperationArgs { operation_name: Some(OperationName::Deposit) };
    assert_eq!(given.operation_name, Some(OperationName::Deposit));
    let absent = OperationArgs { operation_name: None };
    assert_eq!(absent.operation_name, None);
}

#[test]
fn only_the_execution_payload_is_unimplemented() {
    for op in ALL_OPERATIONS.iter() {
        assert_eq!(op.is_implemented(), *op != OperationName::ExecutionPayload);
    }
}

#[test]
fn operation_input_wire_form() {
    let input = OperationInput { op: OperationName::Deposit, data: vec![9, 8, 7] };
    assert_eq!(input.to_bytes(), vec![4, 9, 8, 7]);
    let empty = OperationInput { op: OperationName::Attestation, data: Vec::new() };
    assert_eq!(empty.to_bytes(), vec![0]);
    assert_eq!(OperationInput::from_bytes(&vec![4, 9, 8, 7]), Some(input));
    assert_eq!(OperationInput::from_bytes(&vec![0]), Some(empty));
    assert_eq!(OperationInput::from_bytes(&Vec::new()), None);
    assert_eq!(OperationInput::from_bytes(&vec![10, 1, 2]), None);
    assert_eq!(OperationInput::from_bytes(&vec![255]), None);
}

#[test]
fn operation_input_round_trips_for_every_operation() {
    for op in ALL_OPERATIONS.iter() {
        let input = OperationInput { op: *op, data: vec![0, 255, 3, 3] };
        assert_eq!(OperationInput::from_bytes(&input.to_bytes()), Some(input));
    }
}

#[test]
fn exactly_one_run_kind() {
    assert_eq!(select_run(true, false), Some(RunKind::Execute));
    assert_eq!(select_run(false, true), Some(RunKind::Prove));
    assert_eq!(select_run(true, true), None);
    assert_eq!(select_run(false, false), None);
}

#[test]
fn exactly_one_flow() {
    assert_eq!(select_flow(true, false), Some(Flow::EfTest));
    assert_eq!(select_flow(false, true), Some(Flow::Replay));
    assert_eq!(select_flow(true, true), None);
    assert_eq!(select_flow(false, false), None);
}

#[test]
fn excluded_cases_are_matched_whole() {
    let excluded = vec!["multi_proposer_index_iterations".to_string(), "x".to_string()];
    assert!(is_excluded(&excluded, &"x".to_string()));
    assert!(is_excluded(&excluded, &"multi_proposer_index_iterations".to_string()));
    assert!(!is_excluded(&excluded, &"multi".to_string()));
    assert!(!is_excluded(&Vec::new(), &"x".to_string()));
}

#[test]
fn path_to_the_test_cases() {
    assert_eq!(
        cases_path(Fork::Electra, OperationName::BlockHeader),
        vec!["electra", "operations", "block_header", "pyspec_tests"]
    );
    assert_eq!(
        cases_path(Fork::Deneb, OperationName::Withdrawals),
        vec!["deneb", "operations", "withdrawals", "pyspec_tests"]
    );
}

#[test]
fn output_is_held_against_post_state_or_pre_state() {
    let pre = vec![1u8, 2, 3];
    let post = vec![1u8, 2, 4];
    assert!(execution_is_correct(&post, &pre, &Some(post.clone())));
    assert!(!execution_is_correct(&pre, &pre, &Some(post.clone())));
    assert!(execution_is_correct(&pre, &pre, &None));
    assert!(!execution_is_correct(&post, &pre, &None));
    assert!(!execution_is_correct(&vec![1, 2], &pre, &None));
    assert!(!execution_is_correct(&vec![1, 2, 3, 0], &pre, &None));
    assert!(execution_is_correct(&Vec::new(), &Vec::new(), &None));
}

#[test]
fn state_field_table() {
    assert_eq!(STATE_FIELD_COUNT, 37);
    assert_eq!(FIRST_FIELD_INDEX, 64);
    assert_eq!(StateField::GenesisTime.generalized_index(), 64);
    assert_eq!(StateField::Slot.generalized_index(), SLOT_GENERALIZED_INDEX);
    assert_eq!(StateField::Slashings.generalized_index(), SLASHINGS_GENERALIZED_INDEX);
    assert_eq!(SLOT_GENERALIZED_INDEX, 66);
    assert_eq!(SLASHINGS_GENERALIZED_INDEX, 78);
    assert_eq!(StateField::PendingConsolidations.generalized_index(), 100);
    assert_eq!(StateField::Slot.name(), "slot");
    assert_eq!(StateField::Slashings.name(), "slashings");
    assert_eq!(StateField::LatestExecutionPayloadHeader.name(), "latest_execution_payload_header");
    assert_eq!(StateField::at(63), None);
    assert_eq!(StateField::at(0), None);
    assert_eq!(StateField::at(101), None);
    assert_eq!(StateField::at(u64::MAX), None);
    assert_eq!(StateField::at(66), Some(StateField::Slot));
    for index in 64u64..101 {
        let field = StateField::at(index).unwrap();
        assert_eq!(field.generalized_index(), index);
        assert_eq!(field.position(), index - 64);
    }
}
