use moonglass_core::containers::block::{BeaconBlock, BeaconBlockBody};
use moonglass_core::containers::chain::{Checkpoint, Eth1Data};
use moonglass_core::containers::execution::{ExecutionPayloadBid, SignedExecutionPayloadBid};
use moonglass_core::containers::state::BeaconState;
use moonglass_core::containers::sync::SyncAggregate;
use moonglass_core::containers::withdrawal::ExecutionRequests;
use moonglass_core::crypto::kzg::batch::{
    bytes_to_kzg_commitment, compute_verify_cell_kzg_proof_batch_challenge, g1_lincomb, validate_kzg_g1,
    verify_cell_kzg_proof_batch,
};
use moonglass_core::crypto::kzg::error::KzgError;
use moonglass_core::crypto::kzg::field::BLSFieldElement;
use moonglass_core::crypto::kzg::trusted_setup::EthereumTrustedSetup;
use moonglass_core::error::ForkChoiceError;
use moonglass_core::fork_choice::anchor::get_forkchoice_store;
use moonglass_core::fork_choice::on_payload_attestation_message::ptc_positions_for_validator;
use moonglass_core::fork_choice::on_execution_payload_envelope::{
    execution_verdict_outcome, validate_data_column_sidecar, ExecutionPayloadValidity,
};
use moonglass_core::containers::data_availability::DataColumnSidecar;
use moonglass_core::primitives::ColumnIndex;
use moonglass_core::fork_choice::keyed_map::KeyedMap;
use moonglass_core::fork_choice::store::{BlockTimeliness, Store};
use moonglass_core::primitives::{
    BLSSignature, BuilderIndex, Cell, CellIndex, CommitmentIndex, Epoch, ExecutionAddress, Gwei, Hash32,
    KZGCommitment, KZGProof, Root, Slot, ValidatorIndex,
};
use moonglass_core::ssz::List;

fn root(b: u8) -> Root {
    Root([b; 32])
}

fn block(slot: u64, proposer: u64, parent: Root, parent_hash: u8, hash: u8) -> BeaconBlock {
    let bid = ExecutionPayloadBid {
        parent_block_hash: Hash32([parent_hash; 32]),
        parent_block_root: parent,
        block_hash: Hash32([hash; 32]),
        prev_randao: [0u8; 32],
        fee_recipient: ExecutionAddress([0u8; 20]),
        gas_limit: 0,
        builder_index: BuilderIndex(0),
        slot: Slot(slot),
        value: Gwei(0),
        execution_payment: Gwei(0),
        blob_kzg_commitments: List::new(),
        execution_requests_root: Root([0u8; 32]),
    };
    BeaconBlock {
        slot: Slot(slot),
        proposer_index: ValidatorIndex(proposer),
        parent_root: parent,
        state_root: Root([0u8; 32]),
        body: BeaconBlockBody {
            randao_reveal: BLSSignature::default(),
            eth1_data: Eth1Data { deposit_root: Root([0u8; 32]), deposit_count: 0, block_hash: Hash32([0u8; 32]) },
            graffiti: [0u8; 32],
            proposer_slashings: List::new(),
            attester_slashings: List::new(),
            attestations: List::new(),
            deposits: List::new(),
            voluntary_exits: List::new(),
            sync_aggregate: SyncAggregate { sync_committee_bits: [0u8; 64], sync_committee_signature: BLSSignature::default() },
            bls_to_execution_changes: List::new(),
            signed_execution_payload_bid: SignedExecutionPayloadBid { message: bid, signature: BLSSignature::default() },
            payload_attestations: List::new(),
            parent_execution_requests: ExecutionRequests {
                deposits: List::new(),
                withdrawals: List::new(),
                consolidations: List::new(),
                builder_deposits: List::new(),
                builder_exits: List::new(),
            },
        },
    }
}

fn empty_store() -> Store {
    Store {
        time: 0,
        genesis_time: 0,
        justified_checkpoint: Checkpoint::default(),
        finalized_checkpoint: Checkpoint::default(),
        unrealized_justified_checkpoint: Checkpoint::default(),
        unrealized_finalized_checkpoint: Checkpoint::default(),
        proposer_boost_root: Root([0u8; 32]),
        equivocating_indices: KeyedMap::new(),
        blocks: KeyedMap::new(),
        block_states: KeyedMap::new(),
        block_timeliness: KeyedMap::new(),
        checkpoint_states: KeyedMap::new(),
        latest_messages: KeyedMap::new(),
        unrealized_justifications: KeyedMap::new(),
        payloads: KeyedMap::new(),
        queued_payload_envelopes: KeyedMap::new(),
        data_column_sidecars: KeyedMap::new(),
        payload_timeliness_vote: KeyedMap::new(),
        payload_data_availability_vote: KeyedMap::new(),
    }
}


const G1_GENERATOR: [u8; 48] = [
    0x97, 0xf1, 0xd3, 0xa7, 0x31, 0x97, 0xd7, 0x94, 0x26, 0x95, 0x63, 0x8c, 0x4f, 0xa9, 0xac, 0x0f, 0xc3, 0x68,
    0x8c, 0x4f, 0x97, 0x74, 0xb9, 0x05, 0xa1, 0x4e, 0x3a, 0x3f, 0x17, 0x1b, 0xac, 0x58, 0x6c, 0x55, 0xe8, 0x3f,
    0xf9, 0x7a, 0x1a, 0xef, 0xfb, 0x3a, 0xf0, 0x0a, 0xdb, 0x22, 0xc6, 0xbb,
];

fn infinity() -> [u8; 48] {
    let mut bytes = [0u8; 48];
    bytes[0] = 0xc0;
    bytes
}

fn empty_setup() -> EthereumTrustedSetup {
    EthereumTrustedSetup { g1_lagrange: vec![], g2_monomial: vec![], g1_monomial: vec![] }
}

#[test]
fn the_default_state_is_all_zero() {
    let state = BeaconState::default();
    assert_eq!(state.deposit_requests_start_index, 0);
    assert_eq!(state.slot, Slot(0));
    assert_eq!(state.genesis_time, 0);
}

#[test]
fn the_anchor_store_holds_only_the_anchor() {
    let mut state = BeaconState::default();
    state.slot = Slot(64);
    state.genesis_time = 1000;
    let mut anchor = block(64, 0, root(9), 0, 0);
    anchor.state_root = Root(state.hash_tree_root().unwrap().0);
    let anchor_root = Root(anchor.hash_tree_root().unwrap().0);
    let store = get_forkchoice_store(state.clone(), anchor.clone()).unwrap();
    assert_eq!(store.time, 1000 + 64 * 12);
    assert_eq!(store.genesis_time, 1000);
    let expected = Checkpoint { epoch: Epoch(2), root: anchor_root };
    assert_eq!(store.justified_checkpoint, expected);
    assert_eq!(store.finalized_checkpoint, expected);
    assert_eq!(store.unrealized_justified_checkpoint, expected);
    assert_eq!(store.proposer_boost_root, Root([0u8; 32]));
    assert_eq!(store.blocks.len(), 1);
    assert!(store.blocks.contains_key(&anchor_root));
    assert_eq!(store.block_states.len(), 1);
    assert_eq!(
        store.block_timeliness.get(&anchor_root),
        Some(&BlockTimeliness { attestation_timely: true, payload_attestation_timely: true })
    );
    assert!(store.checkpoint_states.contains_key(&expected));
    // The stored block and both stored states are the anchor's.
    let stored_block = store.blocks.get(&anchor_root).unwrap();
    assert_eq!(stored_block.hash_tree_root().unwrap().0, anchor_root.0);
    let state_root = state.hash_tree_root().unwrap().0;
    assert_eq!(store.block_states.get(&anchor_root).unwrap().hash_tree_root().unwrap().0, state_root);
    assert_eq!(store.checkpoint_states.get(&expected).unwrap().hash_tree_root().unwrap().0, state_root);
    assert!(store.check_invariants().is_ok());
    assert_eq!(store.unrealized_justifications.get(&anchor_root), Some(&expected));
    assert_eq!(store.latest_messages.len(), 0);
}

#[test]
fn the_anchor_block_must_commit_to_the_anchor_state() {
    let state = BeaconState::default();
    let anchor = block(0, 0, root(9), 0, 0);
    let want = Root(state.hash_tree_root().unwrap().0);
    match get_forkchoice_store(state.clone(), anchor.clone()) {
        Err(ForkChoiceError::AnchorStateRootMismatch { got, want: w }) => {
            assert_eq!(got, Root([0u8; 32]));
            assert_eq!(w, want);
        }
        _ => panic!("expected an anchor state root mismatch"),
    }
}

#[test]
fn an_anchor_time_that_overflows_is_refused() {
    let mut state = BeaconState::default();
    state.genesis_time = u64::MAX;
    state.slot = Slot(1);
    let mut anchor = block(1, 0, root(9), 0, 0);
    anchor.state_root = Root(state.hash_tree_root().unwrap().0);
    assert!(matches!(get_forkchoice_store(state.clone(), anchor.clone()), Err(ForkChoiceError::AnchorTimeOverflow)));
}

#[test]
fn crossing_an_epoch_start_promotes_the_unrealized_checkpoints() {
    let mut store = empty_store();
    let later = Checkpoint { epoch: Epoch(1), root: root(7) };
    store.unrealized_justified_checkpoint = later;
    store.unrealized_finalized_checkpoint = later;
    store.proposer_boost_root = root(3);
    // Still inside epoch 0: nothing is promoted, the boost goes with the slot.
    store.on_tick(31 * 12).unwrap();
    assert_eq!(store.justified_checkpoint, Checkpoint::default());
    assert_eq!(store.proposer_boost_root, Root([0u8; 32]));
    // Slot 32 starts epoch 1.
    store.on_tick(32 * 12 + 5).unwrap();
    assert_eq!(store.justified_checkpoint, later);
    assert_eq!(store.finalized_checkpoint, later);
    assert!(matches!(
        store.on_tick(0),
        Err(ForkChoiceError::TickWentBackwards { from: 389, to: 0 })
    ));
}

#[test]
fn a_long_jump_still_promotes_at_the_epoch_start_it_crosses() {
    let mut store = empty_store();
    let later = Checkpoint { epoch: Epoch(3), root: root(7) };
    store.unrealized_justified_checkpoint = later;
    store.on_tick(100 * 12).unwrap();
    assert_eq!(store.justified_checkpoint, later);
    assert_eq!(store.finalized_checkpoint, Checkpoint::default());
}

#[test]
fn g1_points_are_validated() {
    assert_eq!(validate_kzg_g1(&infinity()), Ok(infinity()));
    assert_eq!(validate_kzg_g1(&G1_GENERATOR), Ok(G1_GENERATOR));
    assert_eq!(validate_kzg_g1(&[0u8; 48]), Err(KzgError::InvalidG1));
    assert_eq!(bytes_to_kzg_commitment(KZGCommitment([0u8; 48])), Err(KzgError::InvalidG1));
}

#[test]
fn linear_combinations_check_their_lengths() {
    assert_eq!(g1_lincomb(&[], &[]), Ok(infinity()));
    assert_eq!(g1_lincomb(&[G1_GENERATOR], &[BLSFieldElement::from_u64(1)]), Ok(G1_GENERATOR));
    assert_eq!(
        g1_lincomb(&[G1_GENERATOR], &[]),
        Err(KzgError::LengthMismatch { context: "G1 linear combination", expected: 1, got: 0 })
    );
}

#[test]
fn the_batch_challenge_depends_on_every_input() {
    let commitments = [KZGCommitment(G1_GENERATOR)];
    let evals = vec![vec![BLSFieldElement::from_u64(1); 64]];
    let a = compute_verify_cell_kzg_proof_batch_challenge(
        &commitments,
        &[CommitmentIndex(0)],
        &[CellIndex(3)],
        &evals,
        &[KZGProof(G1_GENERATOR)],
    );
    let b = compute_verify_cell_kzg_proof_batch_challenge(
        &commitments,
        &[CommitmentIndex(0)],
        &[CellIndex(4)],
        &evals,
        &[KZGProof(G1_GENERATOR)],
    );
    assert_ne!(a, b);
}

#[test]
fn batch_verification_checks_its_inputs_first() {
    let setup = empty_setup();
    assert_eq!(verify_cell_kzg_proof_batch(&setup, &[], &[], &[], &[]), Ok(true));
    assert_eq!(
        verify_cell_kzg_proof_batch(&setup, &[KZGCommitment(G1_GENERATOR)], &[], &[], &[]),
        Err(KzgError::BatchLengthMismatch { commitments: 1, cell_indices: 0, cells: 0, proofs: 0 })
    );
    let cell = Cell([0u8; 2048]);
    assert_eq!(
        verify_cell_kzg_proof_batch(
            &setup,
            &[KZGCommitment(G1_GENERATOR)],
            &[CellIndex(128)],
            &[cell],
            &[KZGProof(G1_GENERATOR)]
        ),
        Err(KzgError::CellIndexOutOfRange { index: 128, limit: 128 })
    );
    assert_eq!(
        verify_cell_kzg_proof_batch(&setup, &[KZGCommitment([0u8; 48])], &[CellIndex(0)], &[cell], &[KZGProof(G1_GENERATOR)]),
        Err(KzgError::InvalidG1)
    );
    assert_eq!(
        verify_cell_kzg_proof_batch(
            &setup,
            &[KZGCommitment(G1_GENERATOR)],
            &[CellIndex(0)],
            &[Cell([0xff; 2048])],
            &[KZGProof(G1_GENERATOR)]
        ),
        Err(KzgError::InvalidFieldElement)
    );
    // Well-formed inputs with no G2 powers in the setup.
    assert_eq!(
        verify_cell_kzg_proof_batch(
            &setup,
            &[KZGCommitment(G1_GENERATOR)],
            &[CellIndex(0)],
            &[cell],
            &[KZGProof(G1_GENERATOR)]
        ),
        Err(KzgError::MissingG2Power { index: 64, available: 0 })
    );
}

#[test]
fn an_invalid_payload_verdict_refuses_the_envelope() {
    assert!(matches!(
        execution_verdict_outcome(root(4), ExecutionPayloadValidity::Invalid),
        Err(ForkChoiceError::PayloadExecutionInvalid(r)) if r == root(4)
    ));
    assert!(execution_verdict_outcome(root(4), ExecutionPayloadValidity::Valid).is_ok());
}

#[test]
fn ptc_positions_list_every_seat_of_the_validator() {
    let mut state = BeaconState::default();
    state.ptc_window.items[3].items[7] = ValidatorIndex(5);
    state.ptc_window.items[3].items[300] = ValidatorIndex(5);
    assert_eq!(ptc_positions_for_validator(&state, 3, ValidatorIndex(5)).unwrap(), vec![7, 300]);
    assert_eq!(ptc_positions_for_validator(&state, 0, ValidatorIndex(0)).unwrap().len(), 512);
    assert!(matches!(
        ptc_positions_for_validator(&state, 0, ValidatorIndex(5)),
        Err(ForkChoiceError::PayloadAttestationValidatorNotInPtc)
    ));
    assert!(matches!(
        ptc_positions_for_validator(&state, 96, ValidatorIndex(5)),
        Err(ForkChoiceError::PayloadAttestationSlotOutOfWindow)
    ));
}

#[test]
fn a_sidecar_of_the_wrong_shape_is_invalid() {
    let sidecar = DataColumnSidecar {
        index: ColumnIndex(3),
        column: List::new(),
        kzg_proofs: List::new(),
        slot: Slot(1),
        beacon_block_root: root(8),
    };
    let commitments: List<KZGCommitment, 4096> = List::new();
    assert!(matches!(
        validate_data_column_sidecar(&sidecar, &commitments, &empty_setup()),
        Err(ForkChoiceError::DataColumnSidecarInvalid { block, column }) if block == root(8) && column == ColumnIndex(3)
    ));
}

#[test]
fn a_block_without_blobs_has_its_data_available() {
    let mut store = empty_store();
    assert!(!store.is_data_available_with_setup(root(8), &empty_setup()));
    let mut state = BeaconState::default();
    state.slot = Slot(0);
    let anchor = block(0, 0, root(9), 0, 0);
    store.blocks.insert(root(8), anchor);
    store.block_states.insert(root(8), state);
    assert!(store.is_data_available_with_setup(root(8), &empty_setup()));
}
