use moonglass_core::containers::block::{BeaconBlock, BeaconBlockBody, SignedBeaconBlock};
use moonglass_core::containers::chain::{Checkpoint, Eth1Data};
use moonglass_core::containers::execution::{ExecutionPayloadBid, SignedExecutionPayloadBid};
use moonglass_core::containers::state::BeaconState;
use moonglass_core::containers::sync::SyncAggregate;
use moonglass_core::containers::validator::Validator;
use moonglass_core::containers::withdrawal::ExecutionRequests;
use moonglass_core::error::ForkChoiceError;
use moonglass_core::fork_choice::head::get_viable_for_head_nodes;
use moonglass_core::fork_choice::keyed_map::KeyedMap;
use moonglass_core::fork_choice::store::{BlockTimeliness, ForkChoiceNode, LatestMessage, PayloadStatus, Store};
use moonglass_core::fork_choice::weight::{add_weight, calculate_committee_fraction, compute_proposer_score};
use moonglass_core::primitives::{
    BLSSignature, BuilderIndex, Epoch, ExecutionAddress, Gwei, Hash32, Root, Slot, ValidatorIndex,
};
use moonglass_core::ssz::List;

const GWEI_PER_VALIDATOR: u64 = 32_000_000_000;

fn root(b: u8) -> Root {
    Root([b; 32])
}

fn block(slot: u64, proposer: u64, parent: Root, parent_hash: u8, hash: u8) -> BeaconBlock {
    let bid = ExecutionPayloadBid {
        parent_block_hash: Hash32([parent_hash; 32]),
        parent_block_root: parent,
        block_hash: Hash32([hash; 32]),
        prev_randao: [0u8; 32],
        fee_recipient: ExecutionAddress([0u8; 20]),
        gas_limit: 0,
        builder_index: BuilderIndex(0),
        slot: Slot(slot),
        value: Gwei(0),
        execution_payment: Gwei(0),
        blob_kzg_commitments: List::new(),
        execution_requests_root: Root([0u8; 32]),
    };
    BeaconBlock {
        slot: Slot(slot),
        proposer_index: ValidatorIndex(proposer),
        parent_root: parent,
        state_root: Root([0u8; 32]),
        body: BeaconBlockBody {
            randao_reveal: BLSSignature::default(),
            eth1_data: Eth1Data { deposit_root: Root([0u8; 32]), deposit_count: 0, block_hash: Hash32([0u8; 32]) },
            graffiti: [0u8; 32],
            proposer_slashings: List::new(),
            attester_slashings: List::new(),
            attestations: List::new(),
            deposits: List::new(),
            voluntary_exits: List::new(),
            sync_aggregate: SyncAggregate { sync_committee_bits: [0u8; 64], sync_committee_signature: BLSSignature::default() },
            bls_to_execution_changes: List::new(),
            signed_execution_payload_bid: SignedExecutionPayloadBid { message: bid, signature: BLSSignature::default() },
            payload_attestations: List::new(),
            parent_execution_requests: ExecutionRequests {
                deposits: List::new(),
                withdrawals: List::new(),
                consolidations: List::new(),
                builder_deposits: List::new(),
                builder_exits: List::new(),
            },
        },
    }
}

fn state_with_validators(count: usize) -> BeaconState {
    let mut state = BeaconState::default();
    for _ in 0..count {
        let mut v = Validator::default();
        v.effective_balance = Gwei(GWEI_PER_VALIDATOR);
        v.activation_epoch = Epoch(0);
        v.exit_epoch = Epoch(u64::MAX);
        state.validators.items.push(v);
    }
    state
}

fn empty_store() -> Store {
    Store {
        time: 0,
        genesis_time: 0,
        justified_checkpoint: Checkpoint::default(),
        finalized_checkpoint: Checkpoint::default(),
        unrealized_justified_checkpoint: Checkpoint::default(),
        unrealized_finalized_checkpoint: Checkpoint::default(),
        proposer_boost_root: Root([0u8; 32]),
        equivocating_indices: KeyedMap::new(),
        blocks: KeyedMap::new(),
        block_states: KeyedMap::new(),
        block_timeliness: KeyedMap::new(),
        checkpoint_states: KeyedMap::new(),
        latest_messages: KeyedMap::new(),
        unrealized_justifications: KeyedMap::new(),
        payloads: KeyedMap::new(),
        queued_payload_envelopes: KeyedMap::new(),
        data_column_sidecars: KeyedMap::new(),
        payload_timeliness_vote: KeyedMap::new(),
        payload_data_availability_vote: KeyedMap::new(),
    }
}

fn add_block(store: &mut Store, r: Root, b: BeaconBlock, validators: usize) {
    store.blocks.insert(r, b);
    store.block_states.insert(r, state_with_validators(validators));
    store.block_timeliness.insert(
        r,
        BlockTimeliness { attestation_timely: true, payload_attestation_timely: true },
    );
}

/// A store with anchor A at slot 0 and two children B and C at slot 1, both
/// on A's empty branch; three validators, two voting for B and one for C.
fn forked_store() -> Store {
    let mut store = empty_store();
    let a = root(0xaa);
    let b = root(0xbb);
    let c = root(0xcc);
    add_block(&mut store, a, block(0, 0, Root([0u8; 32]), 0, 1), 3);
    add_block(&mut store, b, block(1, 1, a, 9, 2), 3);
    add_block(&mut store, c, block(1, 2, a, 9, 3), 3);
    let justified = Checkpoint { epoch: Epoch(0), root: a };
    store.justified_checkpoint = justified;
    store.finalized_checkpoint = justified;
    store.checkpoint_states.insert(justified, state_with_validators(3));
    store.time = 10 * 12;
    let vote_b = LatestMessage { slot: Slot(2), root: b, payload_present: false };
    let vote_c = LatestMessage { slot: Slot(2), root: c, payload_present: false };
    store.latest_messages.insert(ValidatorIndex(0), vote_b);
    store.latest_messages.insert(ValidatorIndex(1), vote_b);
    store.latest_messages.insert(ValidatorIndex(2), vote_c);
    store
}

#[test]
fn head_follows_the_heavier_branch() {
    let store = forked_store();
    let head = store.get_head().unwrap();
    assert_eq!(head.root, root(0xbb));
    assert_eq!(head.payload_status, PayloadStatus::Empty);
}

#[test]
fn head_moves_when_votes_move() {
    let mut store = forked_store();
    let vote_c = LatestMessage { slot: Slot(3), root: root(0xcc), payload_present: false };
    store.latest_messages.insert(ValidatorIndex(0), vote_c);
    let head = store.get_head().unwrap();
    assert_eq!(head.root, root(0xcc));
}

#[test]
fn equal_weights_break_ties_by_larger_root() {
    let mut store = forked_store();
    store.latest_messages.insert(
        ValidatorIndex(1),
        LatestMessage { slot: Slot(2), root: root(0xaa), payload_present: false },
    );
    let head = store.get_head().unwrap();
    assert_eq!(head.root, root(0xcc));
}

#[test]
fn equivocators_do_not_count() {
    let mut store = forked_store();
    store.equivocating_indices.insert(ValidatorIndex(0), ());
    store.equivocating_indices.insert(ValidatorIndex(1), ());
    let head = store.get_head().unwrap();
    assert_eq!(head.root, root(0xcc));
}

#[test]
fn weights_sum_effective_balances_of_supporters() {
    let store = forked_store();
    let node_b = ForkChoiceNode::pending(root(0xbb));
    let node_c = ForkChoiceNode::pending(root(0xcc));
    let node_a = ForkChoiceNode::pending(root(0xaa));
    assert_eq!(store.get_weight(node_b).unwrap(), Gwei(2 * GWEI_PER_VALIDATOR));
    assert_eq!(store.get_weight(node_c).unwrap(), Gwei(GWEI_PER_VALIDATOR));
    assert_eq!(store.get_weight(node_a).unwrap(), Gwei(3 * GWEI_PER_VALIDATOR));
}

#[test]
fn unknown_justified_root_is_an_error() {
    let mut store = forked_store();
    store.justified_checkpoint.root = root(0x11);
    assert!(matches!(store.get_head(), Err(ForkChoiceError::UnknownBlock(r)) if r == root(0x11)));
}

#[test]
fn pending_node_opens_into_recorded_branches() {
    let store = forked_store();
    let blocks = store.get_filtered_block_tree().unwrap();
    let kids = store.get_node_children(&blocks, ForkChoiceNode::pending(root(0xaa))).unwrap();
    assert_eq!(kids, vec![ForkChoiceNode::empty(root(0xaa))]);
    let kids = store.get_node_children(&blocks, ForkChoiceNode::empty(root(0xaa))).unwrap();
    assert_eq!(kids, vec![ForkChoiceNode::pending(root(0xbb)), ForkChoiceNode::pending(root(0xcc))]);
    let kids = store.get_node_children(&blocks, ForkChoiceNode::full(root(0xaa))).unwrap();
    assert!(kids.is_empty());
}

#[test]
fn filter_keeps_all_viable_blocks() {
    let store = forked_store();
    let blocks = store.get_filtered_block_tree().unwrap();
    assert_eq!(blocks.len(), 3);
    assert!(blocks.contains_key(&root(0xaa)));
    assert!(blocks.contains_key(&root(0xbb)));
    assert!(blocks.contains_key(&root(0xcc)));
}

#[test]
fn filter_drops_tips_off_the_finalized_chain() {
    let mut store = forked_store();
    // Finalized at epoch 1 on a root no tip descends from.
    store.finalized_checkpoint = Checkpoint { epoch: Epoch(1), root: root(0x77) };
    let blocks = store.get_filtered_block_tree().unwrap();
    assert_eq!(blocks.len(), 0);
}

#[test]
fn viable_leaves_report_their_weights() {
    let store = forked_store();
    let leaves = get_viable_for_head_nodes(&store).unwrap();
    assert_eq!(leaves.len(), 2);
    // The walk takes later children first.
    assert_eq!(leaves[0].root, root(0xcc));
    assert_eq!(leaves[0].weight, Gwei(GWEI_PER_VALIDATOR));
    assert_eq!(leaves[1].root, root(0xbb));
    assert_eq!(leaves[1].weight, Gwei(2 * GWEI_PER_VALIDATOR));
}

#[test]
fn heaviest_child_prefers_weight_then_root() {
    let store = forked_store();
    let children = [ForkChoiceNode::pending(root(0xcc)), ForkChoiceNode::pending(root(0xbb))];
    assert_eq!(store.select_heaviest_child(&children).unwrap(), Some(ForkChoiceNode::pending(root(0xbb))));
    assert_eq!(store.select_heaviest_child(&[]).unwrap(), None);
    let key = store.head_selection_key(ForkChoiceNode::pending(root(0xbb))).unwrap();
    assert_eq!(key, (Gwei(2 * GWEI_PER_VALIDATOR), root(0xbb), 2));
}

#[test]
fn weight_addition_rejects_overflow() {
    assert!(matches!(add_weight(Gwei(u64::MAX), Gwei(1)), Err(ForkChoiceError::WeightOverflow)));
    assert_eq!(add_weight(Gwei(40), Gwei(2)).unwrap(), Gwei(42));
}

#[test]
fn committee_fraction_of_total_stake() {
    // 64 validators of 32 ETH: one slot's share is 64 ETH, 40% of it 25.6 ETH.
    let state = state_with_validators(64);
    assert_eq!(calculate_committee_fraction(&state, 40).unwrap(), Gwei(25_600_000_000));
    assert_eq!(compute_proposer_score(&state).unwrap(), Gwei(25_600_000_000));
    // An empty registry counts as one balance increment.
    let empty = BeaconState::default();
    assert_eq!(empty.get_total_active_balance().unwrap(), Gwei(1_000_000_000));
    assert_eq!(calculate_committee_fraction(&empty, 100).unwrap(), Gwei(31_250_000));
}

#[test]
fn proposer_boost_needs_a_boost_root() {
    let store = forked_store();
    assert!(!store.should_apply_proposer_boost().unwrap());
    let mut boosted = forked_store();
    boosted.proposer_boost_root = root(0xbb);
    // The parent A sits in the slot just before B and has all the support,
    // so it is not weak and the boost applies.
    assert!(boosted.should_apply_proposer_boost().unwrap());
}

#[test]
fn boost_adds_to_the_boosted_line_only() {
    let mut store = forked_store();
    store.proposer_boost_root = root(0xcc);
    let boost = compute_proposer_score(&state_with_validators(3)).unwrap();
    let weight_c = store.get_weight(ForkChoiceNode::pending(root(0xcc))).unwrap();
    assert_eq!(weight_c, Gwei(GWEI_PER_VALIDATOR + boost.0));
    let weight_b = store.get_weight(ForkChoiceNode::pending(root(0xbb))).unwrap();
    assert_eq!(weight_b, Gwei(2 * GWEI_PER_VALIDATOR));
}

#[test]
fn ancestor_is_the_nearest_block_at_or_before_the_slot() {
    let mut store = forked_store();
    let d = root(0xdd);
    add_block(&mut store, d, block(5, 3, root(0xbb), 9, 4), 3);
    let from_d = ForkChoiceNode { root: d, payload_status: PayloadStatus::Pending };
    // At or after D's own slot, D is its own ancestor.
    assert_eq!(store.get_ancestor(from_d, Slot(5)).unwrap(), from_d);
    assert_eq!(store.get_ancestor(from_d, Slot(9)).unwrap(), from_d);
    // Between B's slot and D's, the walk stops at B, on B's empty branch.
    let at_b = store.get_ancestor(from_d, Slot(3)).unwrap();
    assert_eq!(at_b.root, root(0xbb));
    assert_eq!(at_b.payload_status, PayloadStatus::Empty);
    // Before B, it reaches the anchor.
    assert_eq!(store.get_ancestor(from_d, Slot(0)).unwrap().root, root(0xaa));
    // An unknown node has no ancestor.
    let unknown = ForkChoiceNode { root: root(0xee), payload_status: PayloadStatus::Pending };
    assert!(matches!(
        store.get_ancestor(unknown, Slot(0)),
        Err(ForkChoiceError::UnknownBlock(r)) if r == root(0xee)
    ));
}

fn signed(message: BeaconBlock) -> SignedBeaconBlock {
    SignedBeaconBlock { message, signature: BLSSignature::default() }
}

fn post_state_at(slot: u64) -> BeaconState {
    let mut state = state_with_validators(3);
    state.slot = Slot(slot);
    state
}

#[test]
fn a_block_on_a_known_parent_is_filed_with_its_post_state() {
    let mut store = forked_store();
    let x = block(3, 4, root(0xaa), 9, 5);
    let x_root = Root(x.hash_tree_root().unwrap().0);
    store.on_block_with_post_state(signed(x), post_state_at(3), Checkpoint::default(), Checkpoint::default()).unwrap();
    assert_eq!(store.blocks.len(), 4);
    assert_eq!(store.blocks.get(&x_root).map(|b| b.slot), Some(Slot(3)));
    assert_eq!(store.block_states.get(&x_root).map(|s| s.slot), Some(Slot(3)));
    let votes = store.payload_timeliness_vote.get(&x_root).unwrap();
    assert_eq!(votes.len(), 512);
    assert!(votes.iter().all(|v| v.is_none()));
    assert_eq!(store.payload_data_availability_vote.get(&x_root).map(|v| v.len()), Some(512));
    // Slot 3 is long past by the store's clock (slot 10): not timely, no boost.
    let t = store.block_timeliness.get(&x_root).unwrap();
    assert!(!t.attestation_timely);
    assert!(!t.payload_attestation_timely);
    assert_eq!(store.proposer_boost_root, Root([0u8; 32]));
}

#[test]
fn a_timely_first_block_takes_the_proposer_boost() {
    let mut store = forked_store();
    store.time = 3 * 12;
    let x = block(3, 4, root(0xaa), 9, 5);
    let x_root = Root(x.hash_tree_root().unwrap().0);
    let mut post = post_state_at(3);
    post.current_justified_checkpoint = Checkpoint { epoch: Epoch(1), root: root(0xaa) };
    store.on_block_with_post_state(signed(x), post, Checkpoint::default(), Checkpoint::default()).unwrap();
    assert!(store.block_timeliness.get(&x_root).unwrap().attestation_timely);
    assert_eq!(store.proposer_boost_root, x_root);
    // The post-state's later justified checkpoint is adopted.
    assert_eq!(store.justified_checkpoint, Checkpoint { epoch: Epoch(1), root: root(0xaa) });
}

#[test]
fn a_block_with_an_unknown_parent_is_refused() {
    let mut store = forked_store();
    let x = block(3, 4, root(0x77), 9, 5);
    assert!(matches!(
        store.on_block_with_post_state(signed(x), post_state_at(3), Checkpoint::default(), Checkpoint::default()),
        Err(ForkChoiceError::UnknownParent(r)) if r == root(0x77)
    ));
    assert_eq!(store.blocks.len(), 3);
    assert_eq!(store.block_states.len(), 3);
}

#[test]
fn a_block_from_the_future_is_refused() {
    let mut store = forked_store();
    let x = block(11, 4, root(0xaa), 9, 5);
    assert!(matches!(
        store.on_block_with_post_state(signed(x), post_state_at(11), Checkpoint::default(), Checkpoint::default()),
        Err(ForkChoiceError::BlockFromFuture { block_slot: Slot(11), current_slot: Slot(10) })
    ));
    assert_eq!(store.blocks.len(), 3);
}

#[test]
fn a_block_at_or_before_the_finalized_slot_is_refused() {
    let mut store = forked_store();
    store.time = 40 * 12;
    store.finalized_checkpoint = Checkpoint { epoch: Epoch(1), root: root(0xaa) };
    let x = block(20, 4, root(0xaa), 9, 5);
    assert!(matches!(
        store.on_block_with_post_state(signed(x), post_state_at(20), Checkpoint::default(), Checkpoint::default()),
        Err(ForkChoiceError::BlockBeforeFinalizedSlot { block_slot: Slot(20), finalized_slot: Slot(32) })
    ));
    assert_eq!(store.blocks.len(), 3);
}

#[test]
fn a_block_off_the_finalized_chain_is_refused() {
    let mut store = forked_store();
    store.finalized_checkpoint = Checkpoint { epoch: Epoch(0), root: root(0xbb) };
    let x = block(3, 4, root(0xcc), 9, 5);
    assert!(matches!(
        store.on_block_with_post_state(signed(x), post_state_at(3), Checkpoint::default(), Checkpoint::default()),
        Err(ForkChoiceError::BlockNotDescendedFromFinalized)
    ));
    assert_eq!(store.blocks.len(), 3);
}

#[test]
fn a_block_from_an_earlier_epoch_pulls_up_the_tip() {
    let mut store = forked_store();
    store.time = 40 * 12;
    let anchor = Checkpoint { epoch: Epoch(0), root: root(0xaa) };
    for r in [root(0xaa), root(0xbb), root(0xcc)] {
        store.unrealized_justifications.insert(r, anchor);
    }
    let x = block(3, 4, root(0xaa), 9, 5);
    let x_root = Root(x.hash_tree_root().unwrap().0);
    let pulled = Checkpoint { epoch: Epoch(1), root: root(0xbb) };
    store.on_block_with_post_state(signed(x), post_state_at(3), pulled, Checkpoint::default()).unwrap();
    assert_eq!(store.unrealized_justifications.get(&x_root), Some(&pulled));
    assert_eq!(store.unrealized_justified_checkpoint, pulled);
    // The block's epoch is over by the store's clock, so the pulled-up
    // justification is realized too.
    assert_eq!(store.justified_checkpoint, pulled);
    assert_eq!(store.finalized_checkpoint, Checkpoint { epoch: Epoch(0), root: root(0xaa) });
}
