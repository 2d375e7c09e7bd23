//! SSZ for the state containers with list, bitlist or nested fields.
//!
//! Each container encodes as a head of fixed-size fields and offsets
//! followed by its variable-size fields, decodes by cutting the input along
//! its field layout, and roots to the merkle root of its fields' roots.
use vstd::prelude::*;
use vstd::slice::slice_subrange;

use crate::ssz::codec::SszCodec;
use crate::ssz::container::{
    encode_fixed_field, encode_variable_field, lemma_container_all_fixed,
    lemma_container_part_bounds, lemma_so_far_done, spec_container_encoding, spec_head_pieces,
    spec_head_pos, spec_layout_head_len, spec_layout_matches, spec_ranges_fit, spec_tail_pieces,
    split_container, decode_field, FieldPart,
};
use crate::ssz::merkle::{merkleize_roots, roots_view, spec_merkleize};
use crate::ssz::{Bitlist, Bitvector, DeserializeError, List, MerkleizationError, Node, SerializeError, Vector};

use crate::constants::{BUILDER_PAYMENT_WINDOW_LEN, BUILDER_PENDING_WITHDRAWALS_LIMIT, BUILDER_REGISTRY_LIMIT, EPOCHS_PER_HISTORICAL_VECTOR, EPOCHS_PER_SLASHINGS_VECTOR, ETH1_DATA_VOTES_LEN, HISTORICAL_ROOTS_LIMIT, JUSTIFICATION_BITS_LENGTH, MAX_WITHDRAWALS_PER_PAYLOAD, PENDING_CONSOLIDATIONS_LIMIT, PENDING_DEPOSITS_LIMIT, PENDING_PARTIAL_WITHDRAWALS_LIMIT, PROPOSER_LOOKAHEAD_LEN, PTC_SIZE, PTC_WINDOW_LEN, SLOTS_PER_HISTORICAL_ROOT, VALIDATOR_REGISTRY_LIMIT};
use crate::containers::block::{BeaconBlockHeader};
use crate::containers::builder::{Builder, BuilderPendingPayment, BuilderPendingWithdrawal};
use crate::containers::chain::{Checkpoint, Eth1Data, Fork, HistoricalSummary};
use crate::containers::execution::{ExecutionPayloadBid};
use crate::containers::state::{BeaconState};
use crate::containers::sync::{SyncCommittee};
use crate::containers::validator::{PendingConsolidation, PendingDeposit, PendingPartialWithdrawal, Validator};
use crate::containers::withdrawal::{Withdrawal};
use crate::primitives::{BuilderIndex, Epoch, Gwei, Hash32, ParticipationFlags, Root, Slot, ValidatorIndex, WithdrawalIndex};

verus! {

impl BeaconState {
    /// The fields' places in the encoding: whether each is variable-size,
    /// and its encoding.
    #[verifier::opaque]
    pub open spec fn spec_parts(&self) -> Seq<FieldPart> {
        seq![
            (false, self.genesis_time.spec_encoding()),
            (false, self.genesis_validators_root.spec_encoding()),
            (false, self.slot.spec_encoding()),
            (false, self.fork.spec_encoding()),
            (false, self.latest_block_header.spec_encoding()),
            (false, self.block_roots.spec_encoding()),
            (false, self.state_roots.spec_encoding()),
            (true, self.historical_roots.spec_encoding()),
            (false, self.eth1_data.spec_encoding()),
            (true, self.eth1_data_votes.spec_encoding()),
            (false, self.eth1_deposit_index.spec_encoding()),
            (true, self.validators.spec_encoding()),
            (true, self.balances.spec_encoding()),
            (false, self.randao_mixes.spec_encoding()),
            (false, self.slashings.spec_encoding()),
            (true, self.previous_epoch_participation.spec_encoding()),
            (true, self.current_epoch_participation.spec_encoding()),
            (false, self.justification_bits.spec_encoding()),
            (false, self.previous_justified_checkpoint.spec_encoding()),
            (false, self.current_justified_checkpoint.spec_encoding()),
            (false, self.finalized_checkpoint.spec_encoding()),
            (true, self.inactivity_scores.spec_encoding()),
            (false, self.current_sync_committee.spec_encoding()),
            (false, self.next_sync_committee.spec_encoding()),
            (false, self.latest_block_hash.spec_encoding()),
            (false, self.next_withdrawal_index.spec_encoding()),
            (false, self.next_withdrawal_validator_index.spec_encoding()),
            (true, self.historical_summaries.spec_encoding()),
            (false, self.deposit_requests_start_index.spec_encoding()),
            (false, self.deposit_balance_to_consume.spec_encoding()),
            (false, self.exit_balance_to_consume.spec_encoding()),
            (false, self.earliest_exit_epoch.spec_encoding()),
            (false, self.consolidation_balance_to_consume.spec_encoding()),
            (false, self.earliest_consolidation_epoch.spec_encoding()),
            (true, self.pending_deposits.spec_encoding()),
            (true, self.pending_partial_withdrawals.spec_encoding()),
            (true, self.pending_consolidations.spec_encoding()),
            (false, self.proposer_lookahead.spec_encoding()),
            (true, self.builders.spec_encoding()),
            (false, self.next_withdrawal_builder_index.spec_encoding()),
            (false, self.execution_payload_availability.spec_encoding()),
            (false, self.builder_pending_payments.spec_encoding()),
            (true, self.builder_pending_withdrawals.spec_encoding()),
            (true, self.latest_execution_payload_bid.spec_encoding()),
            (true, self.payload_expected_withdrawals.spec_encoding()),
            (false, self.ptc_window.spec_encoding()),
        ]
    }

    /// Each field's fixed size, or zero for a variable-size field.
    pub open spec fn spec_layout() -> Seq<usize> {
        seq![8usize, 32usize, 8usize, 16usize, 112usize, 262144usize, 262144usize, 0usize, 72usize, 0usize, 8usize, 0usize, 0usize, 2097152usize, 65536usize, 0usize, 0usize, 1usize, 40usize, 40usize, 40usize, 0usize, 24624usize, 24624usize, 32usize, 8usize, 8usize, 0usize, 8usize, 8usize, 8usize, 8usize, 8usize, 8usize, 0usize, 0usize, 0usize, 512usize, 0usize, 8usize, 1024usize, 3328usize, 0usize, 0usize, 0usize, 393216usize]
    }

    /// The SSZ encoding: fixed-size fields and offsets, then variable-size
    /// fields.
    #[verifier::opaque]
    pub open spec fn spec_ssz(&self) -> Seq<u8> {
        spec_container_encoding(self.spec_parts(), 3134845)
    }

    /// The hash-tree-roots of the fields in order.
    #[verifier::opaque]
    pub open spec fn spec_field_roots(&self) -> Seq<Seq<u8>> {
        seq![
            self.genesis_time.spec_tree_root(),
            self.genesis_validators_root.spec_tree_root(),
            self.slot.spec_tree_root(),
            self.fork.spec_tree_root(),
            self.latest_block_header.spec_tree_root(),
            self.block_roots.spec_tree_root(),
            self.state_roots.spec_tree_root(),
            self.historical_roots.spec_tree_root(),
            self.eth1_data.spec_tree_root(),
            self.eth1_data_votes.spec_tree_root(),
            self.eth1_deposit_index.spec_tree_root(),
            self.validators.spec_tree_root(),
            self.balances.spec_tree_root(),
            self.randao_mixes.spec_tree_root(),
            self.slashings.spec_tree_root(),
            self.previous_epoch_participation.spec_tree_root(),
            self.current_epoch_participation.spec_tree_root(),
            self.justification_bits.spec_tree_root(),
            self.previous_justified_checkpoint.spec_tree_root(),
            self.current_justified_checkpoint.spec_tree_root(),
            self.finalized_checkpoint.spec_tree_root(),
            self.inactivity_scores.spec_tree_root(),
            self.current_sync_committee.spec_tree_root(),
            self.next_sync_committee.spec_tree_root(),
            self.latest_block_hash.spec_tree_root(),
            self.next_withdrawal_index.spec_tree_root(),
            self.next_withdrawal_validator_index.spec_tree_root(),
            self.historical_summaries.spec_tree_root(),
            self.deposit_requests_start_index.spec_tree_root(),
            self.deposit_balance_to_consume.spec_tree_root(),
            self.exit_balance_to_consume.spec_tree_root(),
            self.earliest_exit_epoch.spec_tree_root(),
            self.consolidation_balance_to_consume.spec_tree_root(),
            self.earliest_consolidation_epoch.spec_tree_root(),
            self.pending_deposits.spec_tree_root(),
            self.pending_partial_withdrawals.spec_tree_root(),
            self.pending_consolidations.spec_tree_root(),
            self.proposer_lookahead.spec_tree_root(),
            self.builders.spec_tree_root(),
            self.next_withdrawal_builder_index.spec_tree_root(),
            self.execution_payload_availability.spec_tree_root(),
            self.builder_pending_payments.spec_tree_root(),
            self.builder_pending_withdrawals.spec_tree_root(),
            self.latest_execution_payload_bid.spec_tree_root(),
            self.payload_expected_withdrawals.spec_tree_root(),
            self.ptc_window.spec_tree_root(),
        ]
    }

    /// The hash-tree-root: the merkle root of the field roots.
    pub open spec fn spec_root(&self) -> Seq<u8> {
        spec_merkleize(self.spec_field_roots())
    }

    /// Whether every field respects its bounds.
    #[verifier::opaque]
    pub open spec fn spec_fields_wf(&self) -> bool {
        &&& self.genesis_time.spec_wf()
        &&& self.genesis_validators_root.spec_wf()
        &&& self.slot.spec_wf()
        &&& self.fork.spec_wf()
        &&& self.latest_block_header.spec_wf()
        &&& self.block_roots.spec_wf()
        &&& self.state_roots.spec_wf()
        &&& self.historical_roots.spec_wf()
        &&& self.eth1_data.spec_wf()
        &&& self.eth1_data_votes.spec_wf()
        &&& self.eth1_deposit_index.spec_wf()
        &&& self.validators.spec_wf()
        &&& self.balances.spec_wf()
        &&& self.randao_mixes.spec_wf()
        &&& self.slashings.spec_wf()
        &&& self.previous_epoch_participation.spec_wf()
        &&& self.current_epoch_participation.spec_wf()
        &&& self.justification_bits.spec_wf()
        &&& self.previous_justified_checkpoint.spec_wf()
        &&& self.current_justified_checkpoint.spec_wf()
        &&& self.finalized_checkpoint.spec_wf()
        &&& self.inactivity_scores.spec_wf()
        &&& self.current_sync_committee.spec_wf()
        &&& self.next_sync_committee.spec_wf()
        &&& self.latest_block_hash.spec_wf()
        &&& self.next_withdrawal_index.spec_wf()
        &&& self.next_withdrawal_validator_index.spec_wf()
        &&& self.historical_summaries.spec_wf()
        &&& self.deposit_requests_start_index.spec_wf()
        &&& self.deposit_balance_to_consume.spec_wf()
        &&& self.exit_balance_to_consume.spec_wf()
        &&& self.earliest_exit_epoch.spec_wf()
        &&& self.consolidation_balance_to_consume.spec_wf()
        &&& self.earliest_consolidation_epoch.spec_wf()
        &&& self.pending_deposits.spec_wf()
        &&& self.pending_partial_withdrawals.spec_wf()
        &&& self.pending_consolidations.spec_wf()
        &&& self.proposer_lookahead.spec_wf()
        &&& self.builders.spec_wf()
        &&& self.next_withdrawal_builder_index.spec_wf()
        &&& self.execution_payload_availability.spec_wf()
        &&& self.builder_pending_payments.spec_wf()
        &&& self.builder_pending_withdrawals.spec_wf()
        &&& self.latest_execution_payload_bid.spec_wf()
        &&& self.payload_expected_withdrawals.spec_wf()
        &&& self.ptc_window.spec_wf()
    }

    /// Whether the container has a variable-size encoding.
    pub fn is_variable_size() -> (r: bool)
        ensures
            r == true,
    {
        true
    }

    /// The bytes taken by the fixed-size fields.
    pub fn size_hint() -> (r: usize)
        ensures
            r == 3134785,
    {
        3134785
    }

    /// Append the encoding.
    #[verifier::spinoff_prover]
    #[verifier::rlimit(100)]
    pub fn serialize(&self, buffer: &mut Vec<u8>) -> (r: Result<usize, SerializeError>)
        requires
            self.spec_fields_wf(),
            self.spec_ssz().len() <= u32::MAX,
        ensures
            r == Ok::<usize, SerializeError>(self.spec_ssz().len() as usize),
            final(buffer)@ == old(buffer)@ + self.spec_ssz(),
    {
        let ghost parts = self.spec_parts();
        proof {
            reveal(BeaconState::spec_ssz);
            reveal(BeaconState::spec_parts);
            reveal(BeaconState::spec_fields_wf);
            assert(parts.len() == 46);
            SszCodec::lemma_shape(&self.genesis_time);
            SszCodec::lemma_shape(&self.genesis_validators_root);
            SszCodec::lemma_shape(&self.slot);
            SszCodec::lemma_shape(&self.fork);
            SszCodec::lemma_shape(&self.latest_block_header);
            SszCodec::lemma_shape(&self.block_roots);
            SszCodec::lemma_shape(&self.state_roots);
            SszCodec::lemma_shape(&self.eth1_data);
            SszCodec::lemma_shape(&self.eth1_deposit_index);
            SszCodec::lemma_shape(&self.randao_mixes);
            SszCodec::lemma_shape(&self.slashings);
            SszCodec::lemma_shape(&self.justification_bits);
            SszCodec::lemma_shape(&self.previous_justified_checkpoint);
            SszCodec::lemma_shape(&self.current_justified_checkpoint);
            SszCodec::lemma_shape(&self.finalized_checkpoint);
            SszCodec::lemma_shape(&self.current_sync_committee);
            SszCodec::lemma_shape(&self.next_sync_committee);
            SszCodec::lemma_shape(&self.latest_block_hash);
            SszCodec::lemma_shape(&self.next_withdrawal_index);
            SszCodec::lemma_shape(&self.next_withdrawal_validator_index);
            SszCodec::lemma_shape(&self.deposit_requests_start_index);
            SszCodec::lemma_shape(&self.deposit_balance_to_consume);
            SszCodec::lemma_shape(&self.exit_balance_to_consume);
            SszCodec::lemma_shape(&self.earliest_exit_epoch);
            SszCodec::lemma_shape(&self.consolidation_balance_to_consume);
            SszCodec::lemma_shape(&self.earliest_consolidation_epoch);
            SszCodec::lemma_shape(&self.proposer_lookahead);
            SszCodec::lemma_shape(&self.next_withdrawal_builder_index);
            SszCodec::lemma_shape(&self.execution_payload_availability);
            SszCodec::lemma_shape(&self.builder_pending_payments);
            SszCodec::lemma_shape(&self.ptc_window);
            assert(spec_layout_matches(Self::spec_layout(), parts));
            assert(spec_layout_head_len(Self::spec_layout()) == 3134845) by {
                reveal_with_fuel(spec_head_pos, 47);
            }
            assert(spec_head_pieces(parts, 3134845int).subrange(0, 0) =~= Seq::<Seq<u8>>::empty());
            assert(spec_tail_pieces(parts).subrange(0, 0) =~= Seq::<Seq<u8>>::empty());
        }
        let mut head: Vec<u8> = Vec::new();
        let mut tail: Vec<u8> = Vec::new();
        encode_fixed_field(&self.genesis_time, &mut head, &tail, Ghost(Self::spec_layout()), Ghost(parts), Ghost(0int));
        encode_fixed_field(&self.genesis_validators_root, &mut head, &tail, Ghost(Self::spec_layout()), Ghost(parts), Ghost(1int));
        encode_fixed_field(&self.slot, &mut head, &tail, Ghost(Self::spec_layout()), Ghost(parts), Ghost(2int));
        encode_fixed_field(&self.fork, &mut head, &tail, Ghost(Self::spec_layout()), Ghost(parts), Ghost(3int));
        encode_fixed_field(&self.latest_block_header, &mut head, &tail, Ghost(Self::spec_layout()), Ghost(parts), Ghost(4int));
        encode_fixed_field(&self.block_roots, &mut head, &tail, Ghost(Self::spec_layout()), Ghost(parts), Ghost(5int));
        encode_fixed_field(&self.state_roots, &mut head, &tail, Ghost(Self::spec_layout()), Ghost(parts), Ghost(6int));
        encode_variable_field(&self.historical_roots, &mut head, &mut tail, 3134845, Ghost(Self::spec_layout()), Ghost(parts), Ghost(7int));
        encode_fixed_field(&self.eth1_data, &mut head, &tail, Ghost(Self::spec_layout()), Ghost(parts), Ghost(8int));
        encode_variable_field(&self.eth1_data_votes, &mut head, &mut tail, 3134845, Ghost(Self::spec_layout()), Ghost(parts), Ghost(9int));
        encode_fixed_field(&self.eth1_deposit_index, &mut head, &tail, Ghost(Self::spec_layout()), Ghost(parts), Ghost(10int));
        encode_variable_field(&self.validators, &mut head, &mut tail, 3134845, Ghost(Self::spec_layout()), Ghost(parts), Ghost(11int));
        encode_variable_field(&self.balances, &mut head, &mut tail, 3134845, Ghost(Self::spec_layout()), Ghost(parts), Ghost(12int));
        encode_fixed_field(&self.randao_mixes, &mut head, &tail, Ghost(Self::spec_layout()), Ghost(parts), Ghost(13int));
        encode_fixed_field(&self.slashings, &mut head, &tail, Ghost(Self::spec_layout()), Ghost(parts), Ghost(14int));
        encode_variable_field(&self.previous_epoch_participation, &mut head, &mut tail, 3134845, Ghost(Self::spec_layout()), Ghost(parts), Ghost(15int));
        encode_variable_field(&self.current_epoch_participation, &mut head, &mut tail, 3134845, Ghost(Self::spec_layout()), Ghost(parts), Ghost(16int));
        encode_fixed_field(&self.justification_bits, &mut head, &tail, Ghost(Self::spec_layout()), Ghost(parts), Ghost(17int));
        encode_fixed_field(&self.previous_justified_checkpoint, &mut head, &tail, Ghost(Self::spec_layout()), Ghost(parts), Ghost(18int));
        encode_fixed_field(&self.current_justified_checkpoint, &mut head, &tail, Ghost(Self::spec_layout()), Ghost(parts), Ghost(19int));
        encode_fixed_field(&self.finalized_checkpoint, &mut head, &tail, Ghost(Self::spec_layout()), Ghost(parts), Ghost(20int));
        encode_variable_field(&self.inactivity_scores, &mut head, &mut tail, 3134845, Ghost(Self::spec_layout()), Ghost(parts), Ghost(21int));
        encode_fixed_field(&self.current_sync_committee, &mut head, &tail, Ghost(Self::spec_layout()), Ghost(parts), Ghost(22int));
        encode_fixed_field(&self.next_sync_committee, &mut head, &tail, Ghost(Self::spec_layout()), Ghost(parts), Ghost(23int));
        encode_fixed_field(&self.latest_block_hash, &mut head, &tail, Ghost(Self::spec_layout()), Ghost(parts), Ghost(24int));
        encode_fixed_field(&self.next_withdrawal_index, &mut head, &tail, Ghost(Self::spec_layout()), Ghost(parts), Ghost(25int));
        encode_fixed_field(&self.next_withdrawal_validator_index, &mut head, &tail, Ghost(Self::spec_layout()), Ghost(parts), Ghost(26int));
        encode_variable_field(&self.historical_summaries, &mut head, &mut tail, 3134845, Ghost(Self::spec_layout()), Ghost(parts), Ghost(27int));
        encode_fixed_field(&self.deposit_requests_start_index, &mut head, &tail, Ghost(Self::spec_layout()), Ghost(parts), Ghost(28int));
        encode_fixed_field(&self.deposit_balance_to_consume, &mut head, &tail, Ghost(Self::spec_layout()), Ghost(parts), Ghost(29int));
        encode_fixed_field(&self.exit_balance_to_consume, &mut head, &tail, Ghost(Self::spec_layout()), Ghost(parts), Ghost(30int));
        encode_fixed_field(&self.earliest_exit_epoch, &mut head, &tail, Ghost(Self::spec_layout()), Ghost(parts), Ghost(31int));
        encode_fixed_field(&self.consolidation_balance_to_consume, &mut head, &tail, Ghost(Self::spec_layout()), Ghost(parts), Ghost(32int));
        encode_fixed_field(&self.earliest_consolidation_epoch, &mut head, &tail, Ghost(Self::spec_layout()), Ghost(parts), Ghost(33int));
        encode_variable_field(&self.pending_deposits, &mut head, &mut tail, 3134845, Ghost(Self::spec_layout()), Ghost(parts), Ghost(34int));
        encode_variable_field(&self.pending_partial_withdrawals, &mut head, &mut tail, 3134845, Ghost(Self::spec_layout()), Ghost(parts), Ghost(35int));
        encode_variable_field(&self.pending_consolidations, &mut head, &mut tail, 3134845, Ghost(Self::spec_layout()), Ghost(parts), Ghost(36int));
        encode_fixed_field(&self.proposer_lookahead, &mut head, &tail, Ghost(Self::spec_layout()), Ghost(parts), Ghost(37int));
        encode_variable_field(&self.builders, &mut head, &mut tail, 3134845, Ghost(Self::spec_layout()), Ghost(parts), Ghost(38int));
        encode_fixed_field(&self.next_withdrawal_builder_index, &mut head, &tail, Ghost(Self::spec_layout()), Ghost(parts), Ghost(39int));
        encode_fixed_field(&self.execution_payload_availability, &mut head, &tail, Ghost(Self::spec_layout()), Ghost(parts), Ghost(40int));
        encode_fixed_field(&self.builder_pending_payments, &mut head, &tail, Ghost(Self::spec_layout()), Ghost(parts), Ghost(41int));
        encode_variable_field(&self.builder_pending_withdrawals, &mut head, &mut tail, 3134845, Ghost(Self::spec_layout()), Ghost(parts), Ghost(42int));
        encode_variable_field(&self.latest_execution_payload_bid, &mut head, &mut tail, 3134845, Ghost(Self::spec_layout()), Ghost(parts), Ghost(43int));
        encode_variable_field(&self.payload_expected_withdrawals, &mut head, &mut tail, 3134845, Ghost(Self::spec_layout()), Ghost(parts), Ghost(44int));
        encode_fixed_field(&self.ptc_window, &mut head, &tail, Ghost(Self::spec_layout()), Ghost(parts), Ghost(45int));
        proof {
            reveal(BeaconState::spec_ssz);
            reveal(BeaconState::spec_parts);
            reveal(BeaconState::spec_fields_wf);
            lemma_so_far_done(parts, 3134845int);
            assert(head@.len() + tail@.len() == self.spec_ssz().len());
        }
        let n = head.len() + tail.len();
        head.append(&mut tail);
        buffer.append(&mut head);
        Ok(n)
    }

    /// Decode from exactly the given bytes.
    #[verifier::spinoff_prover]
    #[verifier::rlimit(100)]
    pub fn deserialize(encoding: &[u8]) -> (r: Result<Self, DeserializeError>)
        ensures
            r matches Ok(v) ==> v.spec_fields_wf() && v.spec_ssz() == encoding@,
            encoding@.len() <= u32::MAX && (exists|v: Self| v.spec_fields_wf() && #[trigger] v.spec_ssz() == encoding@)
                ==> r is Ok,
    {
        let sizes: [usize; 46] = [8usize, 32usize, 8usize, 16usize, 112usize, 262144usize, 262144usize, 0usize, 72usize, 0usize, 8usize, 0usize, 0usize, 2097152usize, 65536usize, 0usize, 0usize, 1usize, 40usize, 40usize, 40usize, 0usize, 24624usize, 24624usize, 32usize, 8usize, 8usize, 0usize, 8usize, 8usize, 8usize, 8usize, 8usize, 8usize, 0usize, 0usize, 0usize, 512usize, 0usize, 8usize, 1024usize, 3328usize, 0usize, 0usize, 0usize, 393216usize];
        proof {
            assert(sizes@ =~= Self::spec_layout());
            lemma_beacon_state_head_len();
        }
        let ghost has_witness = encoding@.len() <= u32::MAX
            && exists|v: Self| v.spec_fields_wf() && #[trigger] v.spec_ssz() == encoding@;
        let ghost w = choose|v: Self| v.spec_fields_wf() && #[trigger] v.spec_ssz() == encoding@;
        proof {
            if has_witness {
                lemma_beacon_state_layout(w);
                reveal(BeaconState::spec_ssz);
            }
        }
        let ranges = match split_container(encoding, &sizes) {
            Ok(r) => r,
            Err(e) => {
                return Err(e);
            },
        };
        proof {
            if has_witness {
                reveal(BeaconState::spec_fields_wf);
                lemma_beacon_state_fields_fit(encoding@, ranges@, w);
            }
        }
        let (genesis_time, genesis_validators_root, slot, fork, latest_block_header, block_roots, state_roots, historical_roots) = match decode_signed_beacon_block_group_0(encoding, &ranges, Ghost(if has_witness { Some(w) } else { None })) {
            Ok(t) => t,
            Err(e) => {
                return Err(e);
            },
        };
        let (eth1_data, eth1_data_votes, eth1_deposit_index, validators, balances, randao_mixes, slashings, previous_epoch_participation) = match decode_signed_beacon_block_group_1(encoding, &ranges, Ghost(if has_witness { Some(w) } else { None })) {
            Ok(t) => t,
            Err(e) => {
                return Err(e);
            },
        };
        let (current_epoch_participation, justification_bits, previous_justified_checkpoint, current_justified_checkpoint, finalized_checkpoint, inactivity_scores, current_sync_committee, next_sync_committee) = match decode_signed_beacon_block_group_2(encoding, &ranges, Ghost(if has_witness { Some(w) } else { None })) {
            Ok(t) => t,
            Err(e) => {
                return Err(e);
            },
        };
        let (latest_block_hash, next_withdrawal_index, next_withdrawal_validator_index, historical_summaries, deposit_requests_start_index, deposit_balance_to_consume, exit_balance_to_consume, earliest_exit_epoch) = match decode_signed_beacon_block_group_3(encoding, &ranges, Ghost(if has_witness { Some(w) } else { None })) {
            Ok(t) => t,
            Err(e) => {
                return Err(e);
            },
        };
        let (consolidation_balance_to_consume, earliest_consolidation_epoch, pending_deposits, pending_partial_withdrawals, pending_consolidations, proposer_lookahead, builders, next_withdrawal_builder_index) = match decode_signed_beacon_block_group_4(encoding, &ranges, Ghost(if has_witness { Some(w) } else { None })) {
            Ok(t) => t,
            Err(e) => {
                return Err(e);
            },
        };
        let (execution_payload_availability, builder_pending_payments, builder_pending_withdrawals, latest_execution_payload_bid, payload_expected_withdrawals, ptc_window) = match decode_signed_beacon_block_group_5(encoding, &ranges, Ghost(if has_witness { Some(w) } else { None })) {
            Ok(t) => t,
            Err(e) => {
                return Err(e);
            },
        };
        let v = BeaconState { genesis_time, genesis_validators_root, slot, fork, latest_block_header, block_roots, state_roots, historical_roots, eth1_data, eth1_data_votes, eth1_deposit_index, validators, balances, randao_mixes, slashings, previous_epoch_participation, current_epoch_participation, justification_bits, previous_justified_checkpoint, current_justified_checkpoint, finalized_checkpoint, inactivity_scores, current_sync_committee, next_sync_committee, latest_block_hash, next_withdrawal_index, next_withdrawal_validator_index, historical_summaries, deposit_requests_start_index, deposit_balance_to_consume, exit_balance_to_consume, earliest_exit_epoch, consolidation_balance_to_consume, earliest_consolidation_epoch, pending_deposits, pending_partial_withdrawals, pending_consolidations, proposer_lookahead, builders, next_withdrawal_builder_index, execution_payload_availability, builder_pending_payments, builder_pending_withdrawals, latest_execution_payload_bid, payload_expected_withdrawals, ptc_window };
        proof {
            reveal(BeaconState::spec_ssz);
            reveal(BeaconState::spec_fields_wf);
            assert(v.spec_fields_wf());
            lemma_beacon_state_layout(v);
            lemma_beacon_state_fields_fit(encoding@, ranges@, v);
        }
        Ok(v)
    }

    /// The merkle root of the field roots.
    #[verifier::spinoff_prover]
    #[verifier::rlimit(100)]
    pub fn hash_tree_root(&self) -> (r: Result<Node, MerkleizationError>)
        requires
            self.spec_fields_wf(),
        ensures
            r matches Ok(n) && n.0@ == self.spec_root(),
    {
        proof {
            reveal(BeaconState::spec_fields_wf);
            reveal(BeaconState::spec_field_roots);
        }
        let r0 = self.genesis_time.ssz_root();
        let r1 = self.genesis_validators_root.ssz_root();
        let r2 = self.slot.ssz_root();
        let r3 = self.fork.ssz_root();
        let r4 = self.latest_block_header.ssz_root();
        let r5 = self.block_roots.ssz_root();
        let r6 = self.state_roots.ssz_root();
        let r7 = self.historical_roots.ssz_root();
        let r8 = self.eth1_data.ssz_root();
        let r9 = self.eth1_data_votes.ssz_root();
        let r10 = self.eth1_deposit_index.ssz_root();
        let r11 = self.validators.ssz_root();
        let r12 = self.balances.ssz_root();
        let r13 = self.randao_mixes.ssz_root();
        let r14 = self.slashings.ssz_root();
        let r15 = self.previous_epoch_participation.ssz_root();
        let r16 = self.current_epoch_participation.ssz_root();
        let r17 = self.justification_bits.ssz_root();
        let r18 = self.previous_justified_checkpoint.ssz_root();
        let r19 = self.current_justified_checkpoint.ssz_root();
        let r20 = self.finalized_checkpoint.ssz_root();
        let r21 = self.inactivity_scores.ssz_root();
        let r22 = self.current_sync_committee.ssz_root();
        let r23 = self.next_sync_committee.ssz_root();
        let r24 = self.latest_block_hash.ssz_root();
        let r25 = self.next_withdrawal_index.ssz_root();
        let r26 = self.next_withdrawal_validator_index.ssz_root();
        let r27 = self.historical_summaries.ssz_root();
        let r28 = self.deposit_requests_start_index.ssz_root();
        let r29 = self.deposit_balance_to_consume.ssz_root();
        let r30 = self.exit_balance_to_consume.ssz_root();
        let r31 = self.earliest_exit_epoch.ssz_root();
        let r32 = self.consolidation_balance_to_consume.ssz_root();
        let r33 = self.earliest_consolidation_epoch.ssz_root();
        let r34 = self.pending_deposits.ssz_root();
        let r35 = self.pending_partial_withdrawals.ssz_root();
        let r36 = self.pending_consolidations.ssz_root();
        let r37 = self.proposer_lookahead.ssz_root();
        let r38 = self.builders.ssz_root();
        let r39 = self.next_withdrawal_builder_index.ssz_root();
        let r40 = self.execution_payload_availability.ssz_root();
        let r41 = self.builder_pending_payments.ssz_root();
        let r42 = self.builder_pending_withdrawals.ssz_root();
        let r43 = self.latest_execution_payload_bid.ssz_root();
        let r44 = self.payload_expected_withdrawals.ssz_root();
        let r45 = self.ptc_window.ssz_root();
        let roots = [r0, r1, r2, r3, r4, r5, r6, r7, r8, r9, r10, r11, r12, r13, r14, r15, r16, r17, r18, r19, r20, r21, r22, r23, r24, r25, r26, r27, r28, r29, r30, r31, r32, r33, r34, r35, r36, r37, r38, r39, r40, r41, r42, r43, r44, r45];
        assert(roots_view(roots@) =~= self.spec_field_roots());
        Ok(merkleize_roots(roots.as_slice()))
    }

    /// A container is a composite type.
    pub fn is_composite_type() -> (r: bool)
        ensures
            r,
    {
        true
    }
}

/// Decode fields 0 to 7 of a `BeaconState`.
#[verifier::spinoff_prover]
fn decode_signed_beacon_block_group_0(encoding: &[u8], ranges: &Vec<(usize, usize)>, Ghost(expected): Ghost<Option<BeaconState>>) -> (r: Result<(u64, Root, Slot, Fork, BeaconBlockHeader, Vector<Root, SLOTS_PER_HISTORICAL_ROOT>, Vector<Root, SLOTS_PER_HISTORICAL_ROOT>, List<Root, HISTORICAL_ROOTS_LIMIT>), DeserializeError>)
    requires
        ranges@.len() == 46,
        forall|q: int| 0 <= q < ranges@.len() ==> #[trigger] ranges@[q].0 <= ranges@[q].1 <= encoding@.len(),
        expected matches Some(x) ==> encoding@.len() <= u32::MAX
            && x.genesis_time.spec_wf() && x.genesis_time.spec_encoding() == encoding@.subrange(ranges@[0].0 as int, ranges@[0].1 as int)
            && x.genesis_validators_root.spec_wf() && x.genesis_validators_root.spec_encoding() == encoding@.subrange(ranges@[1].0 as int, ranges@[1].1 as int)
            && x.slot.spec_wf() && x.slot.spec_encoding() == encoding@.subrange(ranges@[2].0 as int, ranges@[2].1 as int)
            && x.fork.spec_wf() && x.fork.spec_encoding() == encoding@.subrange(ranges@[3].0 as int, ranges@[3].1 as int)
            && x.latest_block_header.spec_wf() && x.latest_block_header.spec_encoding() == encoding@.subrange(ranges@[4].0 as int, ranges@[4].1 as int)
            && x.block_roots.spec_wf() && x.block_roots.spec_encoding() == encoding@.subrange(ranges@[5].0 as int, ranges@[5].1 as int)
            && x.state_roots.spec_wf() && x.state_roots.spec_encoding() == encoding@.subrange(ranges@[6].0 as int, ranges@[6].1 as int)
            && x.historical_roots.spec_wf() && x.historical_roots.spec_encoding() == encoding@.subrange(ranges@[7].0 as int, ranges@[7].1 as int),
    ensures
        r matches Ok(t) ==> t.0.spec_wf() && t.0.spec_encoding() == encoding@.subrange(ranges@[0].0 as int, ranges@[0].1 as int)
            && t.1.spec_wf() && t.1.spec_encoding() == encoding@.subrange(ranges@[1].0 as int, ranges@[1].1 as int)
            && t.2.spec_wf() && t.2.spec_encoding() == encoding@.subrange(ranges@[2].0 as int, ranges@[2].1 as int)
            && t.3.spec_wf() && t.3.spec_encoding() == encoding@.subrange(ranges@[3].0 as int, ranges@[3].1 as int)
            && t.4.spec_wf() && t.4.spec_encoding() == encoding@.subrange(ranges@[4].0 as int, ranges@[4].1 as int)
            && t.5.spec_wf() && t.5.spec_encoding() == encoding@.subrange(ranges@[5].0 as int, ranges@[5].1 as int)
            && t.6.spec_wf() && t.6.spec_encoding() == encoding@.subrange(ranges@[6].0 as int, ranges@[6].1 as int)
            && t.7.spec_wf() && t.7.spec_encoding() == encoding@.subrange(ranges@[7].0 as int, ranges@[7].1 as int),
        expected is Some ==> r is Ok,
{
    proof {
        if expected is Some {
            let x = expected->Some_0;
            assert(x.genesis_time.spec_wf());
            assert(x.genesis_time.spec_encoding() == encoding@.subrange(ranges@[0].0 as int, ranges@[0].1 as int));
        }
    }
    let genesis_time = match decode_field::<u64>(encoding, ranges, 0, Ghost(match expected { Some(x) => Some(x.genesis_time), None => None })) {
        Ok(x) => x,
        Err(e) => {
            return Err(e);
        },
    };
    proof {
        if expected is Some {
            let x = expected->Some_0;
            assert(x.genesis_validators_root.spec_wf());
            assert(x.genesis_validators_root.spec_encoding() == encoding@.subrange(ranges@[1].0 as int, ranges@[1].1 as int));
        }
    }
    let genesis_validators_root = match decode_field::<Root>(encoding, ranges, 1, Ghost(match expected { Some(x) => Some(x.genesis_validators_root), None => None })) {
        Ok(x) => x,
        Err(e) => {
            return Err(e);
        },
    };
    proof {
        if expected is Some {
            let x = expected->Some_0;
            assert(x.slot.spec_wf());
            assert(x.slot.spec_encoding() == encoding@.subrange(ranges@[2].0 as int, ranges@[2].1 as int));
        }
    }
    let slot = match decode_field::<Slot>(encoding, ranges, 2, Ghost(match expected { Some(x) => Some(x.slot), None => None })) {
        Ok(x) => x,
        Err(e) => {
            return Err(e);
        },
    };
    proof {
        if expected is Some {
            let x = expected->Some_0;
            assert(x.fork.spec_wf());
            assert(x.fork.spec_encoding() == encoding@.subrange(ranges@[3].0 as int, ranges@[3].1 as int));
        }
    }
    let fork = match decode_field::<Fork>(encoding, ranges, 3, Ghost(match expected { Some(x) => Some(x.fork), None => None })) {
        Ok(x) => x,
        Err(e) => {
            return Err(e);
        },
    };
    proof {
        if expected is Some {
            let x = expected->Some_0;
            assert(x.latest_block_header.spec_wf());
            assert(x.latest_block_header.spec_encoding() == encoding@.subrange(ranges@[4].0 as int, ranges@[4].1 as int));
        }
    }
    let latest_block_header = match decode_field::<BeaconBlockHeader>(encoding, ranges, 4, Ghost(match expected { Some(x) => Some(x.latest_block_header), None => None })) {
        Ok(x) => x,
        Err(e) => {
            return Err(e);
        },
    };
    proof {
        if expected is Some {
            let x = expected->Some_0;
            assert(x.block_roots.spec_wf());
            assert(x.block_roots.spec_encoding() == encoding@.subrange(ranges@[5].0 as int, ranges@[5].1 as int));
        }
    }
    let block_roots = match decode_field::<Vector<Root, SLOTS_PER_HISTORICAL_ROOT>>(encoding, ranges, 5, Ghost(match expected { Some(x) => Some(x.block_roots), None => None })) {
        Ok(x) => x,
        Err(e) => {
            return Err(e);
        },
    };
    proof {
        if expected is Some {
            let x = expected->Some_0;
            assert(x.state_roots.spec_wf());
            assert(x.state_roots.spec_encoding() == encoding@.subrange(ranges@[6].0 as int, ranges@[6].1 as int));
        }
    }
    let state_roots = match decode_field::<Vector<Root, SLOTS_PER_HISTORICAL_ROOT>>(encoding, ranges, 6, Ghost(match expected { Some(x) => Some(x.state_roots), None => None })) {
        Ok(x) => x,
        Err(e) => {
            return Err(e);
        },
    };
    proof {
        if expected is Some {
            let x = expected->Some_0;
            assert(x.historical_roots.spec_wf());
            assert(x.historical_roots.spec_encoding() == encoding@.subrange(ranges@[7].0 as int, ranges@[7].1 as int));
        }
    }
    let historical_roots = match decode_field::<List<Root, HISTORICAL_ROOTS_LIMIT>>(encoding, ranges, 7, Ghost(match expected { Some(x) => Some(x.historical_roots), None => None })) {
        Ok(x) => x,
        Err(e) => {
            return Err(e);
        },
    };
    Ok((genesis_time, genesis_validators_root, slot, fork, latest_block_header, block_roots, state_roots, historical_roots))
}

/// Decode fields 8 to 15 of a `BeaconState`.
#[verifier::spinoff_prover]
fn decode_signed_beacon_block_group_1(encoding: &[u8], ranges: &Vec<(usize, usize)>, Ghost(expected): Ghost<Option<BeaconState>>) -> (r: Result<(Eth1Data, List<Eth1Data, ETH1_DATA_VOTES_LEN>, u64, List<Validator, VALIDATOR_REGISTRY_LIMIT>, List<Gwei, VALIDATOR_REGISTRY_LIMIT>, Vector<[u8; 32], EPOCHS_PER_HISTORICAL_VECTOR>, Vector<Gwei, EPOCHS_PER_SLASHINGS_VECTOR>, List<ParticipationFlags, VALIDATOR_REGISTRY_LIMIT>), DeserializeError>)
    requires
        ranges@.len() == 46,
        forall|q: int| 0 <= q < ranges@.len() ==> #[trigger] ranges@[q].0 <= ranges@[q].1 <= encoding@.len(),
        expected matches Some(x) ==> encoding@.len() <= u32::MAX
            && x.eth1_data.spec_wf() && x.eth1_data.spec_encoding() == encoding@.subrange(ranges@[8].0 as int, ranges@[8].1 as int)
            && x.eth1_data_votes.spec_wf() && x.eth1_data_votes.spec_encoding() == encoding@.subrange(ranges@[9].0 as int, ranges@[9].1 as int)
            && x.eth1_deposit_index.spec_wf() && x.eth1_deposit_index.spec_encoding() == encoding@.subrange(ranges@[10].0 as int, ranges@[10].1 as int)
            && x.validators.spec_wf() && x.validators.spec_encoding() == encoding@.subrange(ranges@[11].0 as int, ranges@[11].1 as int)
            && x.balances.spec_wf() && x.balances.spec_encoding() == encoding@.subrange(ranges@[12].0 as int, ranges@[12].1 as int)
            && x.randao_mixes.spec_wf() && x.randao_mixes.spec_encoding() == encoding@.subrange(ranges@[13].0 as int, ranges@[13].1 as int)
            && x.slashings.spec_wf() && x.slashings.spec_encoding() == encoding@.subrange(ranges@[14].0 as int, ranges@[14].1 as int)
            && x.previous_epoch_participation.spec_wf() && x.previous_epoch_participation.spec_encoding() == encoding@.subrange(ranges@[15].0 as int, ranges@[15].1 as int),
    ensures
        r matches Ok(t) ==> t.0.spec_wf() && t.0.spec_encoding() == encoding@.subrange(ranges@[8].0 as int, ranges@[8].1 as int)
            && t.1.spec_wf() && t.1.spec_encoding() == encoding@.subrange(ranges@[9].0 as int, ranges@[9].1 as int)
            && t.2.spec_wf() && t.2.spec_encoding() == encoding@.subrange(ranges@[10].0 as int, ranges@[10].1 as int)
            && t.3.spec_wf() && t.3.spec_encoding() == encoding@.subrange(ranges@[11].0 as int, ranges@[11].1 as int)
            && t.4.spec_wf() && t.4.spec_encoding() == encoding@.subrange(ranges@[12].0 as int, ranges@[12].1 as int)
            && t.5.spec_wf() && t.5.spec_encoding() == encoding@.subrange(ranges@[13].0 as int, ranges@[13].1 as int)
            && t.6.spec_wf() && t.6.spec_encoding() == encoding@.subrange(ranges@[14].0 as int, ranges@[14].1 as int)
            && t.7.spec_wf() && t.7.spec_encoding() == encoding@.subrange(ranges@[15].0 as int, ranges@[15].1 as int),
        expected is Some ==> r is Ok,
{
    proof {
        if expected is Some {
            let x = expected->Some_0;
            assert(x.eth1_data.spec_wf());
            assert(x.eth1_data.spec_encoding() == encoding@.subrange(ranges@[8].0 as int, ranges@[8].1 as int));
        }
    }
    let eth1_data = match decode_field::<Eth1Data>(encoding, ranges, 8, Ghost(match expected { Some(x) => Some(x.eth1_data), None => None })) {
        Ok(x) => x,
        Err(e) => {
            return Err(e);
        },
    };
    proof {
        if expected is Some {
            let x = expected->Some_0;
            assert(x.eth1_data_votes.spec_wf());
            assert(x.eth1_data_votes.spec_encoding() == encoding@.subrange(ranges@[9].0 as int, ranges@[9].1 as int));
        }
    }
    let eth1_data_votes = match decode_field::<List<Eth1Data, ETH1_DATA_VOTES_LEN>>(encoding, ranges, 9, Ghost(match expected { Some(x) => Some(x.eth1_data_votes), None => None })) {
        Ok(x) => x,
        Err(e) => {
            return Err(e);
        },
    };
    proof {
        if expected is Some {
            let x = expected->Some_0;
            assert(x.eth1_deposit_index.spec_wf());
            assert(x.eth1_deposit_index.spec_encoding() == encoding@.subrange(ranges@[10].0 as int, ranges@[10].1 as int));
        }
    }
    let eth1_deposit_index = match decode_field::<u64>(encoding, ranges, 10, Ghost(match expected { Some(x) => Some(x.eth1_deposit_index), None => None })) {
        Ok(x) => x,
        Err(e) => {
            return Err(e);
        },
    };
    proof {
        if expected is Some {
            let x = expected->Some_0;
            assert(x.validators.spec_wf());
            assert(x.validators.spec_encoding() == encoding@.subrange(ranges@[11].0 as int, ranges@[11].1 as int));
        }
    }
    let validators = match decode_field::<List<Validator, VALIDATOR_REGISTRY_LIMIT>>(encoding, ranges, 11, Ghost(match expected { Some(x) => Some(x.validators), None => None })) {
        Ok(x) => x,
        Err(e) => {
            return Err(e);
        },
    };
    proof {
        if expected is Some {
            let x = expected->Some_0;
            assert(x.balances.spec_wf());
            assert(x.balances.spec_encoding() == encoding@.subrange(ranges@[12].0 as int, ranges@[12].1 as int));
        }
    }
    let balances = match decode_field::<List<Gwei, VALIDATOR_REGISTRY_LIMIT>>(encoding, ranges, 12, Ghost(match expected { Some(x) => Some(x.balances), None => None })) {
        Ok(x) => x,
        Err(e) => {
            return Err(e);
        },
    };
    proof {
        if expected is Some {
            let x = expected->Some_0;
            assert(x.randao_mixes.spec_wf());
            assert(x.randao_mixes.spec_encoding() == encoding@.subrange(ranges@[13].0 as int, ranges@[13].1 as int));
        }
    }
    let randao_mixes = match decode_field::<Vector<[u8; 32], EPOCHS_PER_HISTORICAL_VECTOR>>(encoding, ranges, 13, Ghost(match expected { Some(x) => Some(x.randao_mixes), None => None })) {
        Ok(x) => x,
        Err(e) => {
            return Err(e);
        },
    };
    proof {
        if expected is Some {
            let x = expected->Some_0;
            assert(x.slashings.spec_wf());
            assert(x.slashings.spec_encoding() == encoding@.subrange(ranges@[14].0 as int, ranges@[14].1 as int));
        }
    }
    let slashings = match decode_field::<Vector<Gwei, EPOCHS_PER_SLASHINGS_VECTOR>>(encoding, ranges, 14, Ghost(match expected { Some(x) => Some(x.slashings), None => None })) {
        Ok(x) => x,
        Err(e) => {
            return Err(e);
        },
    };
    proof {
        if expected is Some {
            let x = expected->Some_0;
            assert(x.previous_epoch_participation.spec_wf());
            assert(x.previous_epoch_participation.spec_encoding() == encoding@.subrange(ranges@[15].0 as int, ranges@[15].1 as int));
        }
    }
    let previous_epoch_participation = match decode_field::<List<ParticipationFlags, VALIDATOR_REGISTRY_LIMIT>>(encoding, ranges, 15, Ghost(match expected { Some(x) => Some(x.previous_epoch_participation), None => None })) {
        Ok(x) => x,
        Err(e) => {
            return Err(e);
        },
    };
    Ok((eth1_data, eth1_data_votes, eth1_deposit_index, validators, balances, randao_mixes, slashings, previous_epoch_participation))
}

/// Decode fields 16 to 23 of a `BeaconState`.
#[verifier::spinoff_prover]
fn decode_signed_beacon_block_group_2(encoding: &[u8], ranges: &Vec<(usize, usize)>, Ghost(expected): Ghost<Option<BeaconState>>) -> (r: Result<(List<ParticipationFlags, VALIDATOR_REGISTRY_LIMIT>, Bitvector<JUSTIFICATION_BITS_LENGTH>, Checkpoint, Checkpoint, Checkpoint, List<u64, VALIDATOR_REGISTRY_LIMIT>, SyncCommittee, SyncCommittee), DeserializeError>)
    requires
        ranges@.len() == 46,
        forall|q: int| 0 <= q < ranges@.len() ==> #[trigger] ranges@[q].0 <= ranges@[q].1 <= encoding@.len(),
        expected matches Some(x) ==> encoding@.len() <= u32::MAX
            && x.current_epoch_participation.spec_wf() && x.current_epoch_participation.spec_encoding() == encoding@.subrange(ranges@[16].0 as int, ranges@[16].1 as int)
            && x.justification_bits.spec_wf() && x.justification_bits.spec_encoding() == encoding@.subrange(ranges@[17].0 as int, ranges@[17].1 as int)
            && x.previous_justified_checkpoint.spec_wf() && x.previous_justified_checkpoint.spec_encoding() == encoding@.subrange(ranges@[18].0 as int, ranges@[18].1 as int)
            && x.current_justified_checkpoint.spec_wf() && x.current_justified_checkpoint.spec_encoding() == encoding@.subrange(ranges@[19].0 as int, ranges@[19].1 as int)
            && x.finalized_checkpoint.spec_wf() && x.finalized_checkpoint.spec_encoding() == encoding@.subrange(ranges@[20].0 as int, ranges@[20].1 as int)
            && x.inactivity_scores.spec_wf() && x.inactivity_scores.spec_encoding() == encoding@.subrange(ranges@[21].0 as int, ranges@[21].1 as int)
            && x.current_sync_committee.spec_wf() && x.current_sync_committee.spec_encoding() == encoding@.subrange(ranges@[22].0 as int, ranges@[22].1 as int)
            && x.next_sync_committee.spec_wf() && x.next_sync_committee.spec_encoding() == encoding@.subrange(ranges@[23].0 as int, ranges@[23].1 as int),
    ensures
        r matches Ok(t) ==> t.0.spec_wf() && t.0.spec_encoding() == encoding@.subrange(ranges@[16].0 as int, ranges@[16].1 as int)
            && t.1.spec_wf() && t.1.spec_encoding() == encoding@.subrange(ranges@[17].0 as int, ranges@[17].1 as int)
            && t.2.spec_wf() && t.2.spec_encoding() == encoding@.subrange(ranges@[18].0 as int, ranges@[18].1 as int)
            && t.3.spec_wf() && t.3.spec_encoding() == encoding@.subrange(ranges@[19].0 as int, ranges@[19].1 as int)
            && t.4.spec_wf() && t.4.spec_encoding() == encoding@.subrange(ranges@[20].0 as int, ranges@[20].1 as int)
            && t.5.spec_wf() && t.5.spec_encoding() == encoding@.subrange(ranges@[21].0 as int, ranges@[21].1 as int)
            && t.6.spec_wf() && t.6.spec_encoding() == encoding@.subrange(ranges@[22].0 as int, ranges@[22].1 as int)
            && t.7.spec_wf() && t.7.spec_encoding() == encoding@.subrange(ranges@[23].0 as int, ranges@[23].1 as int),
        expected is Some ==> r is Ok,
{
    proof {
        if expected is Some {
            let x = expected->Some_0;
            assert(x.current_epoch_participation.spec_wf());
            assert(x.current_epoch_participation.spec_encoding() == encoding@.subrange(ranges@[16].0 as int, ranges@[16].1 as int));
        }
    }
    let current_epoch_participation = match decode_field::<List<ParticipationFlags, VALIDATOR_REGISTRY_LIMIT>>(encoding, ranges, 16, Ghost(match expected { Some(x) => Some(x.current_epoch_participation), None => None })) {
        Ok(x) => x,
        Err(e) => {
            return Err(e);
        },
    };
    proof {
        if expected is Some {
            let x = expected->Some_0;
            assert(x.justification_bits.spec_wf());
            assert(x.justification_bits.spec_encoding() == encoding@.subrange(ranges@[17].0 as int, ranges@[17].1 as int));
        }
    }
    let justification_bits = match decode_field::<Bitvector<JUSTIFICATION_BITS_LENGTH>>(encoding, ranges, 17, Ghost(match expected { Some(x) => Some(x.justification_bits), None => None })) {
        Ok(x) => x,
        Err(e) => {
            return Err(e);
        },
    };
    proof {
        if expected is Some {
            let x = expected->Some_0;
            assert(x.previous_justified_checkpoint.spec_wf());
            assert(x.previous_justified_checkpoint.spec_encoding() == encoding@.subrange(ranges@[18].0 as int, ranges@[18].1 as int));
        }
    }
    let previous_justified_checkpoint = match decode_field::<Checkpoint>(encoding, ranges, 18, Ghost(match expected { Some(x) => Some(x.previous_justified_checkpoint), None => None })) {
        Ok(x) => x,
        Err(e) => {
            return Err(e);
        },
    };
    proof {
        if expected is Some {
            let x = expected->Some_0;
            assert(x.current_justified_checkpoint.spec_wf());
            assert(x.current_justified_checkpoint.spec_encoding() == encoding@.subrange(ranges@[19].0 as int, ranges@[19].1 as int));
        }
    }
    let current_justified_checkpoint = match decode_field::<Checkpoint>(encoding, ranges, 19, Ghost(match expected { Some(x) => Some(x.current_justified_checkpoint), None => None })) {
        Ok(x) => x,
        Err(e) => {
            return Err(e);
        },
    };
    proof {
        if expected is Some {
            let x = expected->Some_0;
            assert(x.finalized_checkpoint.spec_wf());
            assert(x.finalized_checkpoint.spec_encoding() == encoding@.subrange(ranges@[20].0 as int, ranges@[20].1 as int));
        }
    }
    let finalized_checkpoint = match decode_field::<Checkpoint>(encoding, ranges, 20, Ghost(match expected { Some(x) => Some(x.finalized_checkpoint), None => None })) {
        Ok(x) => x,
        Err(e) => {
            return Err(e);
        },
    };
    proof {
        if expected is Some {
            let x = expected->Some_0;
            assert(x.inactivity_scores.spec_wf());
            assert(x.inactivity_scores.spec_encoding() == encoding@.subrange(ranges@[21].0 as int, ranges@[21].1 as int));
        }
    }
    let inactivity_scores = match decode_field::<List<u64, VALIDATOR_REGISTRY_LIMIT>>(encoding, ranges, 21, Ghost(match expected { Some(x) => Some(x.inactivity_scores), None => None })) {
        Ok(x) => x,
        Err(e) => {
            return Err(e);
        },
    };
    proof {
        if expected is Some {
            let x = expected->Some_0;
            assert(x.current_sync_committee.spec_wf());
            assert(x.current_sync_committee.spec_encoding() == encoding@.subrange(ranges@[22].0 as int, ranges@[22].1 as int));
        }
    }
    let current_sync_committee = match decode_field::<SyncCommittee>(encoding, ranges, 22, Ghost(match expected { Some(x) => Some(x.current_sync_committee), None => None })) {
        Ok(x) => x,
        Err(e) => {
            return Err(e);
        },
    };
    proof {
        if expected is Some {
            let x = expected->Some_0;
            assert(x.next_sync_committee.spec_wf());
            assert(x.next_sync_committee.spec_encoding() == encoding@.subrange(ranges@[23].0 as int, ranges@[23].1 as int));
        }
    }
    let next_sync_committee = match decode_field::<SyncCommittee>(encoding, ranges, 23, Ghost(match expected { Some(x) => Some(x.next_sync_committee), None => None })) {
        Ok(x) => x,
        Err(e) => {
            return Err(e);
        },
    };
    Ok((current_epoch_participation, justification_bits, previous_justified_checkpoint, current_justified_checkpoint, finalized_checkpoint, inactivity_scores, current_sync_committee, next_sync_committee))
}

/// Decode fields 24 to 31 of a `BeaconState`.
#[verifier::spinoff_prover]
fn decode_signed_beacon_block_group_3(encoding: &[u8], ranges: &Vec<(usize, usize)>, Ghost(expected): Ghost<Option<BeaconState>>) -> (r: Result<(Hash32, WithdrawalIndex, ValidatorIndex, List<HistoricalSummary, HISTORICAL_ROOTS_LIMIT>, u64, Gwei, Gwei, Epoch), DeserializeError>)
    requires
        ranges@.len() == 46,
        forall|q: int| 0 <= q < ranges@.len() ==> #[trigger] ranges@[q].0 <= ranges@[q].1 <= encoding@.len(),
        expected matches Some(x) ==> encoding@.len() <= u32::MAX
            && x.latest_block_hash.spec_wf() && x.latest_block_hash.spec_encoding() == encoding@.subrange(ranges@[24].0 as int, ranges@[24].1 as int)
            && x.next_withdrawal_index.spec_wf() && x.next_withdrawal_index.spec_encoding() == encoding@.subrange(ranges@[25].0 as int, ranges@[25].1 as int)
            && x.next_withdrawal_validator_index.spec_wf() && x.next_withdrawal_validator_index.spec_encoding() == encoding@.subrange(ranges@[26].0 as int, ranges@[26].1 as int)
            && x.historical_summaries.spec_wf() && x.historical_summaries.spec_encoding() == encoding@.subrange(ranges@[27].0 as int, ranges@[27].1 as int)
            && x.deposit_requests_start_index.spec_wf() && x.deposit_requests_start_index.spec_encoding() == encoding@.subrange(ranges@[28].0 as int, ranges@[28].1 as int)
            && x.deposit_balance_to_consume.spec_wf() && x.deposit_balance_to_consume.spec_encoding() == encoding@.subrange(ranges@[29].0 as int, ranges@[29].1 as int)
            && x.exit_balance_to_consume.spec_wf() && x.exit_balance_to_consume.spec_encoding() == encoding@.subrange(ranges@[30].0 as int, ranges@[30].1 as int)
            && x.earliest_exit_epoch.spec_wf() && x.earliest_exit_epoch.spec_encoding() == encoding@.subrange(ranges@[31].0 as int, ranges@[31].1 as int),
    ensures
        r matches Ok(t) ==> t.0.spec_wf() && t.0.spec_encoding() == encoding@.subrange(ranges@[24].0 as int, ranges@[24].1 as int)
            && t.1.spec_wf() && t.1.spec_encoding() == encoding@.subrange(ranges@[25].0 as int, ranges@[25].1 as int)
            && t.2.spec_wf() && t.2.spec_encoding() == encoding@.subrange(ranges@[26].0 as int, ranges@[26].1 as int)
            && t.3.spec_wf() && t.3.spec_encoding() == encoding@.subrange(ranges@[27].0 as int, ranges@[27].1 as int)
            && t.4.spec_wf() && t.4.spec_encoding() == encoding@.subrange(ranges@[28].0 as int, ranges@[28].1 as int)
            && t.5.spec_wf() && t.5.spec_encoding() == encoding@.subrange(ranges@[29].0 as int, ranges@[29].1 as int)
            && t.6.spec_wf() && t.6.spec_encoding() == encoding@.subrange(ranges@[30].0 as int, ranges@[30].1 as int)
            && t.7.spec_wf() && t.7.spec_encoding() == encoding@.subrange(ranges@[31].0 as int, ranges@[31].1 as int),
        expected is Some ==> r is Ok,
{
    proof {
        if expected is Some {
            let x = expected->Some_0;
            assert(x.latest_block_hash.spec_wf());
            assert(x.latest_block_hash.spec_encoding() == encoding@.subrange(ranges@[24].0 as int, ranges@[24].1 as int));
        }
    }
    let latest_block_hash = match decode_field::<Hash32>(encoding, ranges, 24, Ghost(match expected { Some(x) => Some(x.latest_block_hash), None => None })) {
        Ok(x) => x,
        Err(e) => {
            return Err(e);
        },
    };
    proof {
        if expected is Some {
            let x = expected->Some_0;
            assert(x.next_withdrawal_index.spec_wf());
            assert(x.next_withdrawal_index.spec_encoding() == encoding@.subrange(ranges@[25].0 as int, ranges@[25].1 as int));
        }
    }
    let next_withdrawal_index = match decode_field::<WithdrawalIndex>(encoding, ranges, 25, Ghost(match expected { Some(x) => Some(x.next_withdrawal_index), None => None })) {
        Ok(x) => x,
        Err(e) => {
            return Err(e);
        },
    };
    proof {
        if expected is Some {
            let x = expected->Some_0;
            assert(x.next_withdrawal_validator_index.spec_wf());
            assert(x.next_withdrawal_validator_index.spec_encoding() == encoding@.subrange(ranges@[26].0 as int, ranges@[26].1 as int));
        }
    }
    let next_withdrawal_validator_index = match decode_field::<ValidatorIndex>(encoding, ranges, 26, Ghost(match expected { Some(x) => Some(x.next_withdrawal_validator_index), None => None })) {
        Ok(x) => x,
        Err(e) => {
            return Err(e);
        },
    };
    proof {
        if expected is Some {
            let x = expected->Some_0;
            assert(x.historical_summaries.spec_wf());
            assert(x.historical_summaries.spec_encoding() == encoding@.subrange(ranges@[27].0 as int, ranges@[27].1 as int));
        }
    }
    let historical_summaries = match decode_field::<List<HistoricalSummary, HISTORICAL_ROOTS_LIMIT>>(encoding, ranges, 27, Ghost(match expected { Some(x) => Some(x.historical_summaries), None => None })) {
        Ok(x) => x,
        Err(e) => {
            return Err(e);
        },
    };
    proof {
        if expected is Some {
            let x = expected->Some_0;
            assert(x.deposit_requests_start_index.spec_wf());
            assert(x.deposit_requests_start_index.spec_encoding() == encoding@.subrange(ranges@[28].0 as int, ranges@[28].1 as int));
        }
    }
    let deposit_requests_start_index = match decode_field::<u64>(encoding, ranges, 28, Ghost(match expected { Some(x) => Some(x.deposit_requests_start_index), None => None })) {
        Ok(x) => x,
        Err(e) => {
            return Err(e);
        },
    };
    proof {
        if expected is Some {
            let x = expected->Some_0;
            assert(x.deposit_balance_to_consume.spec_wf());
            assert(x.deposit_balance_to_consume.spec_encoding() == encoding@.subrange(ranges@[29].0 as int, ranges@[29].1 as int));
        }
    }
    let deposit_balance_to_consume = match decode_field::<Gwei>(encoding, ranges, 29, Ghost(match expected { Some(x) => Some(x.deposit_balance_to_consume), None => None })) {
        Ok(x) => x,
        Err(e) => {
            return Err(e);
        },
    };
    proof {
        if expected is Some {
            let x = expected->Some_0;
            assert(x.exit_balance_to_consume.spec_wf());
            assert(x.exit_balance_to_consume.spec_encoding() == encoding@.subrange(ranges@[30].0 as int, ranges@[30].1 as int));
        }
    }
    let exit_balance_to_consume = match decode_field::<Gwei>(encoding, ranges, 30, Ghost(match expected { Some(x) => Some(x.exit_balance_to_consume), None => None })) {
        Ok(x) => x,
        Err(e) => {
            return Err(e);
        },
    };
    proof {
        if expected is Some {
            let x = expected->Some_0;
            assert(x.earliest_exit_epoch.spec_wf());
            assert(x.earliest_exit_epoch.spec_encoding() == encoding@.subrange(ranges@[31].0 as int, ranges@[31].1 as int));
        }
    }
    let earliest_exit_epoch = match decode_field::<Epoch>(encoding, ranges, 31, Ghost(match expected { Some(x) => Some(x.earliest_exit_epoch), None => None })) {
        Ok(x) => x,
        Err(e) => {
            return Err(e);
        },
    };
    Ok((latest_block_hash, next_withdrawal_index, next_withdrawal_validator_index, historical_summaries, deposit_requests_start_index, deposit_balance_to_consume, exit_balance_to_consume, earliest_exit_epoch))
}

/// Decode fields 32 to 39 of a `BeaconState`.
#[verifier::spinoff_prover]
fn decode_signed_beacon_block_group_4(encoding: &[u8], ranges: &Vec<(usize, usize)>, Ghost(expected): Ghost<Option<BeaconState>>) -> (r: Result<(Gwei, Epoch, List<PendingDeposit, PENDING_DEPOSITS_LIMIT>, List<PendingPartialWithdrawal, PENDING_PARTIAL_WITHDRAWALS_LIMIT>, List<PendingConsolidation, PENDING_CONSOLIDATIONS_LIMIT>, Vector<ValidatorIndex, PROPOSER_LOOKAHEAD_LEN>, List<Builder, BUILDER_REGISTRY_LIMIT>, BuilderIndex), DeserializeError>)
    requires
        ranges@.len() == 46,
        forall|q: int| 0 <= q < ranges@.len() ==> #[trigger] ranges@[q].0 <= ranges@[q].1 <= encoding@.len(),
        expected matches Some(x) ==> encoding@.len() <= u32::MAX
            && x.consolidation_balance_to_consume.spec_wf() && x.consolidation_balance_to_consume.spec_encoding() == encoding@.subrange(ranges@[32].0 as int, ranges@[32].1 as int)
            && x.earliest_consolidation_epoch.spec_wf() && x.earliest_consolidation_epoch.spec_encoding() == encoding@.subrange(ranges@[33].0 as int, ranges@[33].1 as int)
            && x.pending_deposits.spec_wf() && x.pending_deposits.spec_encoding() == encoding@.subrange(ranges@[34].0 as int, ranges@[34].1 as int)
            && x.pending_partial_withdrawals.spec_wf() && x.pending_partial_withdrawals.spec_encoding() == encoding@.subrange(ranges@[35].0 as int, ranges@[35].1 as int)
            && x.pending_consolidations.spec_wf() && x.pending_consolidations.spec_encoding() == encoding@.subrange(ranges@[36].0 as int, ranges@[36].1 as int)
            && x.proposer_lookahead.spec_wf() && x.proposer_lookahead.spec_encoding() == encoding@.subrange(ranges@[37].0 as int, ranges@[37].1 as int)
            && x.builders.spec_wf() && x.builders.spec_encoding() == encoding@.subrange(ranges@[38].0 as int, ranges@[38].1 as int)
            && x.next_withdrawal_builder_index.spec_wf() && x.next_withdrawal_builder_index.spec_encoding() == encoding@.subrange(ranges@[39].0 as int, ranges@[39].1 as int),
    ensures
        r matches Ok(t) ==> t.0.spec_wf() && t.0.spec_encoding() == encoding@.subrange(ranges@[32].0 as int, ranges@[32].1 as int)
            && t.1.spec_wf() && t.1.spec_encoding() == encoding@.subrange(ranges@[33].0 as int, ranges@[33].1 as int)
            && t.2.spec_wf() && t.2.spec_encoding() == encoding@.subrange(ranges@[34].0 as int, ranges@[34].1 as int)
            && t.3.spec_wf() && t.3.spec_encoding() == encoding@.subrange(ranges@[35].0 as int, ranges@[35].1 as int)
            && t.4.spec_wf() && t.4.spec_encoding() == encoding@.subrange(ranges@[36].0 as int, ranges@[36].1 as int)
            && t.5.spec_wf() && t.5.spec_encoding() == encoding@.subrange(ranges@[37].0 as int, ranges@[37].1 as int)
            && t.6.spec_wf() && t.6.spec_encoding() == encoding@.subrange(ranges@[38].0 as int, ranges@[38].1 as int)
            && t.7.spec_wf() && t.7.spec_encoding() == encoding@.subrange(ranges@[39].0 as int, ranges@[39].1 as int),
        expected is Some ==> r is Ok,
{
    proof {
        if expected is Some {
            let x = expected->Some_0;
            assert(x.consolidation_balance_to_consume.spec_wf());
            assert(x.consolidation_balance_to_consume.spec_encoding() == encoding@.subrange(ranges@[32].0 as int, ranges@[32].1 as int));
        }
    }
    let consolidation_balance_to_consume = match decode_field::<Gwei>(encoding, ranges, 32, Ghost(match expected { Some(x) => Some(x.consolidation_balance_to_consume), None => None })) {
        Ok(x) => x,
        Err(e) => {
            return Err(e);
        },
    };
    proof {
        if expected is Some {
            let x = expected->Some_0;
            assert(x.earliest_consolidation_epoch.spec_wf());
            assert(x.earliest_consolidation_epoch.spec_encoding() == encoding@.subrange(ranges@[33].0 as int, ranges@[33].1 as int));
        }
    }
    let earliest_consolidation_epoch = match decode_field::<Epoch>(encoding, ranges, 33, Ghost(match expected { Some(x) => Some(x.earliest_consolidation_epoch), None => None })) {
        Ok(x) => x,
        Err(e) => {
            return Err(e);
        },
    };
    proof {
        if expected is Some {
            let x = expected->Some_0;
            assert(x.pending_deposits.spec_wf());
            assert(x.pending_deposits.spec_encoding() == encoding@.subrange(ranges@[34].0 as int, ranges@[34].1 as int));
        }
    }
    let pending_deposits = match decode_field::<List<PendingDeposit, PENDING_DEPOSITS_LIMIT>>(encoding, ranges, 34, Ghost(match expected { Some(x) => Some(x.pending_deposits), None => None })) {
        Ok(x) => x,
        Err(e) => {
            return Err(e);
        },
    };
    proof {
        if expected is Some {
            let x = expected->Some_0;
            assert(x.pending_partial_withdrawals.spec_wf());
            assert(x.pending_partial_withdrawals.spec_encoding() == encoding@.subrange(ranges@[35].0 as int, ranges@[35].1 as int));
        }
    }
    let pending_partial_withdrawals = match decode_field::<List<PendingPartialWithdrawal, PENDING_PARTIAL_WITHDRAWALS_LIMIT>>(encoding, ranges, 35, Ghost(match expected { Some(x) => Some(x.pending_partial_withdrawals), None => None })) {
        Ok(x) => x,
        Err(e) => {
            return Err(e);
        },
    };
    proof {
        if expected is Some {
            let x = expected->Some_0;
            assert(x.pending_consolidations.spec_wf());
            assert(x.pending_consolidations.spec_encoding() == encoding@.subrange(ranges@[36].0 as int, ranges@[36].1 as int));
        }
    }
    let pending_consolidations = match decode_field::<List<PendingConsolidation, PENDING_CONSOLIDATIONS_LIMIT>>(encoding, ranges, 36, Ghost(match expected { Some(x) => Some(x.pending_consolidations), None => None })) {
        Ok(x) => x,
        Err(e) => {
            return Err(e);
        },
    };
    proof {
        if expected is Some {
            let x = expected->Some_0;
            assert(x.proposer_lookahead.spec_wf());
            assert(x.proposer_lookahead.spec_encoding() == encoding@.subrange(ranges@[37].0 as int, ranges@[37].1 as int));
        }
    }
    let proposer_lookahead = match decode_field::<Vector<ValidatorIndex, PROPOSER_LOOKAHEAD_LEN>>(encoding, ranges, 37, Ghost(match expected { Some(x) => Some(x.proposer_lookahead), None => None })) {
        Ok(x) => x,
        Err(e) => {
            return Err(e);
        },
    };
    proof {
        if expected is Some {
            let x = expected->Some_0;
            assert(x.builders.spec_wf());
            assert(x.builders.spec_encoding() == encoding@.subrange(ranges@[38].0 as int, ranges@[38].1 as int));
        }
    }
    let builders = match decode_field::<List<Builder, BUILDER_REGISTRY_LIMIT>>(encoding, ranges, 38, Ghost(match expected { Some(x) => Some(x.builders), None => None })) {
        Ok(x) => x,
        Err(e) => {
            return Err(e);
        },
    };
    proof {
        if expected is Some {
            let x = expected->Some_0;
            assert(x.next_withdrawal_builder_index.spec_wf());
            assert(x.next_withdrawal_builder_index.spec_encoding() == encoding@.subrange(ranges@[39].0 as int, ranges@[39].1 as int));
        }
    }
    let next_withdrawal_builder_index = match decode_field::<BuilderIndex>(encoding, ranges, 39, Ghost(match expected { Some(x) => Some(x.next_withdrawal_builder_index), None => None })) {
        Ok(x) => x,
        Err(e) => {
            return Err(e);
        },
    };
    Ok((consolidation_balance_to_consume, earliest_consolidation_epoch, pending_deposits, pending_partial_withdrawals, pending_consolidations, proposer_lookahead, builders, next_withdrawal_builder_index))
}

/// Decode fields 40 to 45 of a `BeaconState`.
#[verifier::spinoff_prover]
fn decode_signed_beacon_block_group_5(encoding: &[u8], ranges: &Vec<(usize, usize)>, Ghost(expected): Ghost<Option<BeaconState>>) -> (r: Result<(Bitvector<SLOTS_PER_HISTORICAL_ROOT>, Vector<BuilderPendingPayment, BUILDER_PAYMENT_WINDOW_LEN>, List<BuilderPendingWithdrawal, BUILDER_PENDING_WITHDRAWALS_LIMIT>, ExecutionPayloadBid, List<Withdrawal, MAX_WITHDRAWALS_PER_PAYLOAD>, Vector<Vector<ValidatorIndex, PTC_SIZE>, PTC_WINDOW_LEN>), DeserializeError>)
    requires
        ranges@.len() == 46,
        forall|q: int| 0 <= q < ranges@.len() ==> #[trigger] ranges@[q].0 <= ranges@[q].1 <= encoding@.len(),
        expected matches Some(x) ==> encoding@.len() <= u32::MAX
            && x.execution_payload_availability.spec_wf() && x.execution_payload_availability.spec_encoding() == encoding@.subrange(ranges@[40].0 as int, ranges@[40].1 as int)
            && x.builder_pending_payments.spec_wf() && x.builder_pending_payments.spec_encoding() == encoding@.subrange(ranges@[41].0 as int, ranges@[41].1 as int)
            && x.builder_pending_withdrawals.spec_wf() && x.builder_pending_withdrawals.spec_encoding() == encoding@.subrange(ranges@[42].0 as int, ranges@[42].1 as int)
            && x.latest_execution_payload_bid.spec_wf() && x.latest_execution_payload_bid.spec_encoding() == encoding@.subrange(ranges@[43].0 as int, ranges@[43].1 as int)
            && x.payload_expected_withdrawals.spec_wf() && x.payload_expected_withdrawals.spec_encoding() == encoding@.subrange(ranges@[44].0 as int, ranges@[44].1 as int)
            && x.ptc_window.spec_wf() && x.ptc_window.spec_encoding() == encoding@.subrange(ranges@[45].0 as int, ranges@[45].1 as int),
    ensures
        r matches Ok(t) ==> t.0.spec_wf() && t.0.spec_encoding() == encoding@.subrange(ranges@[40].0 as int, ranges@[40].1 as int)
            && t.1.spec_wf() && t.1.spec_encoding() == encoding@.subrange(ranges@[41].0 as int, ranges@[41].1 as int)
            && t.2.spec_wf() && t.2.spec_encoding() == encoding@.subrange(ranges@[42].0 as int, ranges@[42].1 as int)
            && t.3.spec_wf() && t.3.spec_encoding() == encoding@.subrange(ranges@[43].0 as int, ranges@[43].1 as int)
            && t.4.spec_wf() && t.4.spec_encoding() == encoding@.subrange(ranges@[44].0 as int, ranges@[44].1 as int)
            && t.5.spec_wf() && t.5.spec_encoding() == encoding@.subrange(ranges@[45].0 as int, ranges@[45].1 as int),
        expected is Some ==> r is Ok,
{
    proof {
        if expected is Some {
            let x = expected->Some_0;
            assert(x.execution_payload_availability.spec_wf());
            assert(x.execution_payload_availability.spec_encoding() == encoding@.subrange(ranges@[40].0 as int, ranges@[40].1 as int));
        }
    }
    let execution_payload_availability = match decode_field::<Bitvector<SLOTS_PER_HISTORICAL_ROOT>>(encoding, ranges, 40, Ghost(match expected { Some(x) => Some(x.execution_payload_availability), None => None })) {
        Ok(x) => x,
        Err(e) => {
            return Err(e);
        },
    };
    proof {
        if expected is Some {
            let x = expected->Some_0;
            assert(x.builder_pending_payments.spec_wf());
            assert(x.builder_pending_payments.spec_encoding() == encoding@.subrange(ranges@[41].0 as int, ranges@[41].1 as int));
        }
    }
    let builder_pending_payments = match decode_field::<Vector<BuilderPendingPayment, BUILDER_PAYMENT_WINDOW_LEN>>(encoding, ranges, 41, Ghost(match expected { Some(x) => Some(x.builder_pending_payments), None => None })) {
        Ok(x) => x,
        Err(e) => {
            return Err(e);
        },
    };
    proof {
        if expected is Some {
            let x = expected->Some_0;
            assert(x.builder_pending_withdrawals.spec_wf());
            assert(x.builder_pending_withdrawals.spec_encoding() == encoding@.subrange(ranges@[42].0 as int, ranges@[42].1 as int));
        }
    }
    let builder_pending_withdrawals = match decode_field::<List<BuilderPendingWithdrawal, BUILDER_PENDING_WITHDRAWALS_LIMIT>>(encoding, ranges, 42, Ghost(match expected { Some(x) => Some(x.builder_pending_withdrawals), None => None })) {
        Ok(x) => x,
        Err(e) => {
            return Err(e);
        },
    };
    proof {
        if expected is Some {
            let x = expected->Some_0;
            assert(x.latest_execution_payload_bid.spec_wf());
            assert(x.latest_execution_payload_bid.spec_encoding() == encoding@.subrange(ranges@[43].0 as int, ranges@[43].1 as int));
        }
    }
    let latest_execution_payload_bid = match decode_field::<ExecutionPayloadBid>(encoding, ranges, 43, Ghost(match expected { Some(x) => Some(x.latest_execution_payload_bid), None => None })) {
        Ok(x) => x,
        Err(e) => {
            return Err(e);
        },
    };
    proof {
        if expected is Some {
            let x = expected->Some_0;
            assert(x.payload_expected_withdrawals.spec_wf());
            assert(x.payload_expected_withdrawals.spec_encoding() == encoding@.subrange(ranges@[44].0 as int, ranges@[44].1 as int));
        }
    }
    let payload_expected_withdrawals = match decode_field::<List<Withdrawal, MAX_WITHDRAWALS_PER_PAYLOAD>>(encoding, ranges, 44, Ghost(match expected { Some(x) => Some(x.payload_expected_withdrawals), None => None })) {
        Ok(x) => x,
        Err(e) => {
            return Err(e);
        },
    };
    proof {
        if expected is Some {
            let x = expected->Some_0;
            assert(x.ptc_window.spec_wf());
            assert(x.ptc_window.spec_encoding() == encoding@.subrange(ranges@[45].0 as int, ranges@[45].1 as int));
        }
    }
    let ptc_window = match decode_field::<Vector<Vector<ValidatorIndex, PTC_SIZE>, PTC_WINDOW_LEN>>(encoding, ranges, 45, Ghost(match expected { Some(x) => Some(x.ptc_window), None => None })) {
        Ok(x) => x,
        Err(e) => {
            return Err(e);
        },
    };
    Ok((execution_payload_availability, builder_pending_payments, builder_pending_withdrawals, latest_execution_payload_bid, payload_expected_withdrawals, ptc_window))
}

/// The head of a `BeaconState` encoding is 3134845 bytes.
proof fn lemma_beacon_state_head_len()
    ensures
        spec_layout_head_len(BeaconState::spec_layout()) == 3134845,
{
    reveal_with_fuel(spec_head_pos, 47);
}

/// The parts of a `BeaconState` fit its field layout.
#[verifier::spinoff_prover]
#[verifier::rlimit(100)]
proof fn lemma_beacon_state_layout(x: BeaconState)
    requires
        x.spec_fields_wf(),
    ensures
        spec_layout_matches(BeaconState::spec_layout(), x.spec_parts()),
{
    reveal(BeaconState::spec_parts);
    reveal(BeaconState::spec_fields_wf);
    SszCodec::lemma_shape(&x.genesis_time);
    SszCodec::lemma_shape(&x.genesis_validators_root);
    SszCodec::lemma_shape(&x.slot);
    SszCodec::lemma_shape(&x.fork);
    SszCodec::lemma_shape(&x.latest_block_header);
    SszCodec::lemma_shape(&x.block_roots);
    SszCodec::lemma_shape(&x.state_roots);
    SszCodec::lemma_shape(&x.eth1_data);
    SszCodec::lemma_shape(&x.eth1_deposit_index);
    SszCodec::lemma_shape(&x.randao_mixes);
    SszCodec::lemma_shape(&x.slashings);
    SszCodec::lemma_shape(&x.justification_bits);
    SszCodec::lemma_shape(&x.previous_justified_checkpoint);
    SszCodec::lemma_shape(&x.current_justified_checkpoint);
    SszCodec::lemma_shape(&x.finalized_checkpoint);
    SszCodec::lemma_shape(&x.current_sync_committee);
    SszCodec::lemma_shape(&x.next_sync_committee);
    SszCodec::lemma_shape(&x.latest_block_hash);
    SszCodec::lemma_shape(&x.next_withdrawal_index);
    SszCodec::lemma_shape(&x.next_withdrawal_validator_index);
    SszCodec::lemma_shape(&x.deposit_requests_start_index);
    SszCodec::lemma_shape(&x.deposit_balance_to_consume);
    SszCodec::lemma_shape(&x.exit_balance_to_consume);
    SszCodec::lemma_shape(&x.earliest_exit_epoch);
    SszCodec::lemma_shape(&x.consolidation_balance_to_consume);
    SszCodec::lemma_shape(&x.earliest_consolidation_epoch);
    SszCodec::lemma_shape(&x.proposer_lookahead);
    SszCodec::lemma_shape(&x.next_withdrawal_builder_index);
    SszCodec::lemma_shape(&x.execution_payload_availability);
    SszCodec::lemma_shape(&x.builder_pending_payments);
    SszCodec::lemma_shape(&x.ptc_window);
    let parts = x.spec_parts();
    let layout = BeaconState::spec_layout();
    assert forall|i: int| 0 <= i < parts.len() implies (#[trigger] parts[i].0 <==> layout[i] == 0)
        && (layout[i] > 0 ==> parts[i].1.len() == layout[i]) by {
        if i == 0 { } else if i == 1 { } else if i == 2 { } else if i == 3 { } else if i == 4 { } else if i == 5 { } else if i == 6 { } else if i == 7 { } else if i == 8 { } else if i == 9 { } else if i == 10 { } else if i == 11 { } else if i == 12 { } else if i == 13 { } else if i == 14 { } else if i == 15 { } else if i == 16 { } else if i == 17 { } else if i == 18 { } else if i == 19 { } else if i == 20 { } else if i == 21 { } else if i == 22 { } else if i == 23 { } else if i == 24 { } else if i == 25 { } else if i == 26 { } else if i == 27 { } else if i == 28 { } else if i == 29 { } else if i == 30 { } else if i == 31 { } else if i == 32 { } else if i == 33 { } else if i == 34 { } else if i == 35 { } else if i == 36 { } else if i == 37 { } else if i == 38 { } else if i == 39 { } else if i == 40 { } else if i == 41 { } else if i == 42 { } else if i == 43 { } else if i == 44 { } else if i == 45 { }
    }
}

/// The parts of a `BeaconState` fit byte ranges exactly when each field's
/// encoding is the bytes of its range.
#[verifier::spinoff_prover]
#[verifier::rlimit(100)]
proof fn lemma_beacon_state_fields_fit(encoding: Seq<u8>, ranges: Seq<(usize, usize)>, v: BeaconState)
    requires
        ranges.len() == 46,
    ensures
        spec_ranges_fit(encoding, BeaconState::spec_layout(), ranges, v.spec_parts()) ==> (v.genesis_time.spec_encoding() == encoding.subrange(ranges[0].0 as int, ranges[0].1 as int)
            && v.genesis_validators_root.spec_encoding() == encoding.subrange(ranges[1].0 as int, ranges[1].1 as int)
            && v.slot.spec_encoding() == encoding.subrange(ranges[2].0 as int, ranges[2].1 as int)
            && v.fork.spec_encoding() == encoding.subrange(ranges[3].0 as int, ranges[3].1 as int)
            && v.latest_block_header.spec_encoding() == encoding.subrange(ranges[4].0 as int, ranges[4].1 as int)
            && v.block_roots.spec_encoding() == encoding.subrange(ranges[5].0 as int, ranges[5].1 as int)
            && v.state_roots.spec_encoding() == encoding.subrange(ranges[6].0 as int, ranges[6].1 as int)
            && v.historical_roots.spec_encoding() == encoding.subrange(ranges[7].0 as int, ranges[7].1 as int)
            && v.eth1_data.spec_encoding() == encoding.subrange(ranges[8].0 as int, ranges[8].1 as int)
            && v.eth1_data_votes.spec_encoding() == encoding.subrange(ranges[9].0 as int, ranges[9].1 as int)
            && v.eth1_deposit_index.spec_encoding() == encoding.subrange(ranges[10].0 as int, ranges[10].1 as int)
            && v.validators.spec_encoding() == encoding.subrange(ranges[11].0 as int, ranges[11].1 as int)
            && v.balances.spec_encoding() == encoding.subrange(ranges[12].0 as int, ranges[12].1 as int)
            && v.randao_mixes.spec_encoding() == encoding.subrange(ranges[13].0 as int, ranges[13].1 as int)
            && v.slashings.spec_encoding() == encoding.subrange(ranges[14].0 as int, ranges[14].1 as int)
            && v.previous_epoch_participation.spec_encoding() == encoding.subrange(ranges[15].0 as int, ranges[15].1 as int)
            && v.current_epoch_participation.spec_encoding() == encoding.subrange(ranges[16].0 as int, ranges[16].1 as int)
            && v.justification_bits.spec_encoding() == encoding.subrange(ranges[17].0 as int, ranges[17].1 as int)
            && v.previous_justified_checkpoint.spec_encoding() == encoding.subrange(ranges[18].0 as int, ranges[18].1 as int)
            && v.current_justified_checkpoint.spec_encoding() == encoding.subrange(ranges[19].0 as int, ranges[19].1 as int)
            && v.finalized_checkpoint.spec_encoding() == encoding.subrange(ranges[20].0 as int, ranges[20].1 as int)
            && v.inactivity_scores.spec_encoding() == encoding.subrange(ranges[21].0 as int, ranges[21].1 as int)
            && v.current_sync_committee.spec_encoding() == encoding.subrange(ranges[22].0 as int, ranges[22].1 as int)
            && v.next_sync_committee.spec_encoding() == encoding.subrange(ranges[23].0 as int, ranges[23].1 as int)
            && v.latest_block_hash.spec_encoding() == encoding.subrange(ranges[24].0 as int, ranges[24].1 as int)
            && v.next_withdrawal_index.spec_encoding() == encoding.subrange(ranges[25].0 as int, ranges[25].1 as int)
            && v.next_withdrawal_validator_index.spec_encoding() == encoding.subrange(ranges[26].0 as int, ranges[26].1 as int)
            && v.historical_summaries.spec_encoding() == encoding.subrange(ranges[27].0 as int, ranges[27].1 as int)
            && v.deposit_requests_start_index.spec_encoding() == encoding.subrange(ranges[28].0 as int, ranges[28].1 as int)
            && v.deposit_balance_to_consume.spec_encoding() == encoding.subrange(ranges[29].0 as int, ranges[29].1 as int)
            && v.exit_balance_to_consume.spec_encoding() == encoding.subrange(ranges[30].0 as int, ranges[30].1 as int)
            && v.earliest_exit_epoch.spec_encoding() == encoding.subrange(ranges[31].0 as int, ranges[31].1 as int)
            && v.consolidation_balance_to_consume.spec_encoding() == encoding.subrange(ranges[32].0 as int, ranges[32].1 as int)
            && v.earliest_consolidation_epoch.spec_encoding() == encoding.subrange(ranges[33].0 as int, ranges[33].1 as int)
            && v.pending_deposits.spec_encoding() == encoding.subrange(ranges[34].0 as int, ranges[34].1 as int)
            && v.pending_partial_withdrawals.spec_encoding() == encoding.subrange(ranges[35].0 as int, ranges[35].1 as int)
            && v.pending_consolidations.spec_encoding() == encoding.subrange(ranges[36].0 as int, ranges[36].1 as int)
            && v.proposer_lookahead.spec_encoding() == encoding.subrange(ranges[37].0 as int, ranges[37].1 as int)
            && v.builders.spec_encoding() == encoding.subrange(ranges[38].0 as int, ranges[38].1 as int)
            && v.next_withdrawal_builder_index.spec_encoding() == encoding.subrange(ranges[39].0 as int, ranges[39].1 as int)
            && v.execution_payload_availability.spec_encoding() == encoding.subrange(ranges[40].0 as int, ranges[40].1 as int)
            && v.builder_pending_payments.spec_encoding() == encoding.subrange(ranges[41].0 as int, ranges[41].1 as int)
            && v.builder_pending_withdrawals.spec_encoding() == encoding.subrange(ranges[42].0 as int, ranges[42].1 as int)
            && v.latest_execution_payload_bid.spec_encoding() == encoding.subrange(ranges[43].0 as int, ranges[43].1 as int)
            && v.payload_expected_withdrawals.spec_encoding() == encoding.subrange(ranges[44].0 as int, ranges[44].1 as int)
            && v.ptc_window.spec_encoding() == encoding.subrange(ranges[45].0 as int, ranges[45].1 as int)),
        spec_layout_matches(BeaconState::spec_layout(), v.spec_parts()) && (v.genesis_time.spec_encoding() == encoding.subrange(ranges[0].0 as int, ranges[0].1 as int)
            && v.genesis_validators_root.spec_encoding() == encoding.subrange(ranges[1].0 as int, ranges[1].1 as int)
            && v.slot.spec_encoding() == encoding.subrange(ranges[2].0 as int, ranges[2].1 as int)
            && v.fork.spec_encoding() == encoding.subrange(ranges[3].0 as int, ranges[3].1 as int)
            && v.latest_block_header.spec_encoding() == encoding.subrange(ranges[4].0 as int, ranges[4].1 as int)
            && v.block_roots.spec_encoding() == encoding.subrange(ranges[5].0 as int, ranges[5].1 as int)
            && v.state_roots.spec_encoding() == encoding.subrange(ranges[6].0 as int, ranges[6].1 as int)
            && v.historical_roots.spec_encoding() == encoding.subrange(ranges[7].0 as int, ranges[7].1 as int)
            && v.eth1_data.spec_encoding() == encoding.subrange(ranges[8].0 as int, ranges[8].1 as int)
            && v.eth1_data_votes.spec_encoding() == encoding.subrange(ranges[9].0 as int, ranges[9].1 as int)
            && v.eth1_deposit_index.spec_encoding() == encoding.subrange(ranges[10].0 as int, ranges[10].1 as int)
            && v.validators.spec_encoding() == encoding.subrange(ranges[11].0 as int, ranges[11].1 as int)
            && v.balances.spec_encoding() == encoding.subrange(ranges[12].0 as int, ranges[12].1 as int)
            && v.randao_mixes.spec_encoding() == encoding.subrange(ranges[13].0 as int, ranges[13].1 as int)
            && v.slashings.spec_encoding() == encoding.subrange(ranges[14].0 as int, ranges[14].1 as int)
            && v.previous_epoch_participation.spec_encoding() == encoding.subrange(ranges[15].0 as int, ranges[15].1 as int)
            && v.current_epoch_participation.spec_encoding() == encoding.subrange(ranges[16].0 as int, ranges[16].1 as int)
            && v.justification_bits.spec_encoding() == encoding.subrange(ranges[17].0 as int, ranges[17].1 as int)
            && v.previous_justified_checkpoint.spec_encoding() == encoding.subrange(ranges[18].0 as int, ranges[18].1 as int)
            && v.current_justified_checkpoint.spec_encoding() == encoding.subrange(ranges[19].0 as int, ranges[19].1 as int)
            && v.finalized_checkpoint.spec_encoding() == encoding.subrange(ranges[20].0 as int, ranges[20].1 as int)
            && v.inactivity_scores.spec_encoding() == encoding.subrange(ranges[21].0 as int, ranges[21].1 as int)
            && v.current_sync_committee.spec_encoding() == encoding.subrange(ranges[22].0 as int, ranges[22].1 as int)
            && v.next_sync_committee.spec_encoding() == encoding.subrange(ranges[23].0 as int, ranges[23].1 as int)
            && v.latest_block_hash.spec_encoding() == encoding.subrange(ranges[24].0 as int, ranges[24].1 as int)
            && v.next_withdrawal_index.spec_encoding() == encoding.subrange(ranges[25].0 as int, ranges[25].1 as int)
            && v.next_withdrawal_validator_index.spec_encoding() == encoding.subrange(ranges[26].0 as int, ranges[26].1 as int)
            && v.historical_summaries.spec_encoding() == encoding.subrange(ranges[27].0 as int, ranges[27].1 as int)
            && v.deposit_requests_start_index.spec_encoding() == encoding.subrange(ranges[28].0 as int, ranges[28].1 as int)
            && v.deposit_balance_to_consume.spec_encoding() == encoding.subrange(ranges[29].0 as int, ranges[29].1 as int)
            && v.exit_balance_to_consume.spec_encoding() == encoding.subrange(ranges[30].0 as int, ranges[30].1 as int)
            && v.earliest_exit_epoch.spec_encoding() == encoding.subrange(ranges[31].0 as int, ranges[31].1 as int)
            && v.consolidation_balance_to_consume.spec_encoding() == encoding.subrange(ranges[32].0 as int, ranges[32].1 as int)
            && v.earliest_consolidation_epoch.spec_encoding() == encoding.subrange(ranges[33].0 as int, ranges[33].1 as int)
            && v.pending_deposits.spec_encoding() == encoding.subrange(ranges[34].0 as int, ranges[34].1 as int)
            && v.pending_partial_withdrawals.spec_encoding() == encoding.subrange(ranges[35].0 as int, ranges[35].1 as int)
            && v.pending_consolidations.spec_encoding() == encoding.subrange(ranges[36].0 as int, ranges[36].1 as int)
            && v.proposer_lookahead.spec_encoding() == encoding.subrange(ranges[37].0 as int, ranges[37].1 as int)
            && v.builders.spec_encoding() == encoding.subrange(ranges[38].0 as int, ranges[38].1 as int)
            && v.next_withdrawal_builder_index.spec_encoding() == encoding.subrange(ranges[39].0 as int, ranges[39].1 as int)
            && v.execution_payload_availability.spec_encoding() == encoding.subrange(ranges[40].0 as int, ranges[40].1 as int)
            && v.builder_pending_payments.spec_encoding() == encoding.subrange(ranges[41].0 as int, ranges[41].1 as int)
            && v.builder_pending_withdrawals.spec_encoding() == encoding.subrange(ranges[42].0 as int, ranges[42].1 as int)
            && v.latest_execution_payload_bid.spec_encoding() == encoding.subrange(ranges[43].0 as int, ranges[43].1 as int)
            && v.payload_expected_withdrawals.spec_encoding() == encoding.subrange(ranges[44].0 as int, ranges[44].1 as int)
            && v.ptc_window.spec_encoding() == encoding.subrange(ranges[45].0 as int, ranges[45].1 as int))
            ==> spec_ranges_fit(encoding, BeaconState::spec_layout(), ranges, v.spec_parts()),
{
    reveal(BeaconState::spec_parts);
    let parts = v.spec_parts();
    if spec_ranges_fit(encoding, BeaconState::spec_layout(), ranges, parts) {
        assert(parts[0].1 == encoding.subrange(ranges[0].0 as int, ranges[0].1 as int));
        assert(parts[1].1 == encoding.subrange(ranges[1].0 as int, ranges[1].1 as int));
        assert(parts[2].1 == encoding.subrange(ranges[2].0 as int, ranges[2].1 as int));
        assert(parts[3].1 == encoding.subrange(ranges[3].0 as int, ranges[3].1 as int));
        assert(parts[4].1 == encoding.subrange(ranges[4].0 as int, ranges[4].1 as int));
        assert(parts[5].1 == encoding.subrange(ranges[5].0 as int, ranges[5].1 as int));
        assert(parts[6].1 == encoding.subrange(ranges[6].0 as int, ranges[6].1 as int));
        assert(parts[7].1 == encoding.subrange(ranges[7].0 as int, ranges[7].1 as int));
        assert(parts[8].1 == encoding.subrange(ranges[8].0 as int, ranges[8].1 as int));
        assert(parts[9].1 == encoding.subrange(ranges[9].0 as int, ranges[9].1 as int));
        assert(parts[10].1 == encoding.subrange(ranges[10].0 as int, ranges[10].1 as int));
        assert(parts[11].1 == encoding.subrange(ranges[11].0 as int, ranges[11].1 as int));
        assert(parts[12].1 == encoding.subrange(ranges[12].0 as int, ranges[12].1 as int));
        assert(parts[13].1 == encoding.subrange(ranges[13].0 as int, ranges[13].1 as int));
        assert(parts[14].1 == encoding.subrange(ranges[14].0 as int, ranges[14].1 as int));
        assert(parts[15].1 == encoding.subrange(ranges[15].0 as int, ranges[15].1 as int));
        assert(parts[16].1 == encoding.subrange(ranges[16].0 as int, ranges[16].1 as int));
        assert(parts[17].1 == encoding.subrange(ranges[17].0 as int, ranges[17].1 as int));
        assert(parts[18].1 == encoding.subrange(ranges[18].0 as int, ranges[18].1 as int));
        assert(parts[19].1 == encoding.subrange(ranges[19].0 as int, ranges[19].1 as int));
        assert(parts[20].1 == encoding.subrange(ranges[20].0 as int, ranges[20].1 as int));
        assert(parts[21].1 == encoding.subrange(ranges[21].0 as int, ranges[21].1 as int));
        assert(parts[22].1 == encoding.subrange(ranges[22].0 as int, ranges[22].1 as int));
        assert(parts[23].1 == encoding.subrange(ranges[23].0 as int, ranges[23].1 as int));
        assert(parts[24].1 == encoding.subrange(ranges[24].0 as int, ranges[24].1 as int));
        assert(parts[25].1 == encoding.subrange(ranges[25].0 as int, ranges[25].1 as int));
        assert(parts[26].1 == encoding.subrange(ranges[26].0 as int, ranges[26].1 as int));
        assert(parts[27].1 == encoding.subrange(ranges[27].0 as int, ranges[27].1 as int));
        assert(parts[28].1 == encoding.subrange(ranges[28].0 as int, ranges[28].1 as int));
        assert(parts[29].1 == encoding.subrange(ranges[29].0 as int, ranges[29].1 as int));
        assert(parts[30].1 == encoding.subrange(ranges[30].0 as int, ranges[30].1 as int));
        assert(parts[31].1 == encoding.subrange(ranges[31].0 as int, ranges[31].1 as int));
        assert(parts[32].1 == encoding.subrange(ranges[32].0 as int, ranges[32].1 as int));
        assert(parts[33].1 == encoding.subrange(ranges[33].0 as int, ranges[33].1 as int));
        assert(parts[34].1 == encoding.subrange(ranges[34].0 as int, ranges[34].1 as int));
        assert(parts[35].1 == encoding.subrange(ranges[35].0 as int, ranges[35].1 as int));
        assert(parts[36].1 == encoding.subrange(ranges[36].0 as int, ranges[36].1 as int));
        assert(parts[37].1 == encoding.subrange(ranges[37].0 as int, ranges[37].1 as int));
        assert(parts[38].1 == encoding.subrange(ranges[38].0 as int, ranges[38].1 as int));
        assert(parts[39].1 == encoding.subrange(ranges[39].0 as int, ranges[39].1 as int));
        assert(parts[40].1 == encoding.subrange(ranges[40].0 as int, ranges[40].1 as int));
        assert(parts[41].1 == encoding.subrange(ranges[41].0 as int, ranges[41].1 as int));
        assert(parts[42].1 == encoding.subrange(ranges[42].0 as int, ranges[42].1 as int));
        assert(parts[43].1 == encoding.subrange(ranges[43].0 as int, ranges[43].1 as int));
        assert(parts[44].1 == encoding.subrange(ranges[44].0 as int, ranges[44].1 as int));
        assert(parts[45].1 == encoding.subrange(ranges[45].0 as int, ranges[45].1 as int));
    }
    if spec_layout_matches(BeaconState::spec_layout(), parts) && (v.genesis_time.spec_encoding() == encoding.subrange(ranges[0].0 as int, ranges[0].1 as int)
            && v.genesis_validators_root.spec_encoding() == encoding.subrange(ranges[1].0 as int, ranges[1].1 as int)
            && v.slot.spec_encoding() == encoding.subrange(ranges[2].0 as int, ranges[2].1 as int)
            && v.fork.spec_encoding() == encoding.subrange(ranges[3].0 as int, ranges[3].1 as int)
            && v.latest_block_header.spec_encoding() == encoding.subrange(ranges[4].0 as int, ranges[4].1 as int)
            && v.block_roots.spec_encoding() == encoding.subrange(ranges[5].0 as int, ranges[5].1 as int)
            && v.state_roots.spec_encoding() == encoding.subrange(ranges[6].0 as int, ranges[6].1 as int)
            && v.historical_roots.spec_encoding() == encoding.subrange(ranges[7].0 as int, ranges[7].1 as int)
            && v.eth1_data.spec_encoding() == encoding.subrange(ranges[8].0 as int, ranges[8].1 as int)
            && v.eth1_data_votes.spec_encoding() == encoding.subrange(ranges[9].0 as int, ranges[9].1 as int)
            && v.eth1_deposit_index.spec_encoding() == encoding.subrange(ranges[10].0 as int, ranges[10].1 as int)
            && v.validators.spec_encoding() == encoding.subrange(ranges[11].0 as int, ranges[11].1 as int)
            && v.balances.spec_encoding() == encoding.subrange(ranges[12].0 as int, ranges[12].1 as int)
            && v.randao_mixes.spec_encoding() == encoding.subrange(ranges[13].0 as int, ranges[13].1 as int)
            && v.slashings.spec_encoding() == encoding.subrange(ranges[14].0 as int, ranges[14].1 as int)
            && v.previous_epoch_participation.spec_encoding() == encoding.subrange(ranges[15].0 as int, ranges[15].1 as int)
            && v.current_epoch_participation.spec_encoding() == encoding.subrange(ranges[16].0 as int, ranges[16].1 as int)
            && v.justification_bits.spec_encoding() == encoding.subrange(ranges[17].0 as int, ranges[17].1 as int)
            && v.previous_justified_checkpoint.spec_encoding() == encoding.subrange(ranges[18].0 as int, ranges[18].1 as int)
            && v.current_justified_checkpoint.spec_encoding() == encoding.subrange(ranges[19].0 as int, ranges[19].1 as int)
            && v.finalized_checkpoint.spec_encoding() == encoding.subrange(ranges[20].0 as int, ranges[20].1 as int)
            && v.inactivity_scores.spec_encoding() == encoding.subrange(ranges[21].0 as int, ranges[21].1 as int)
            && v.current_sync_committee.spec_encoding() == encoding.subrange(ranges[22].0 as int, ranges[22].1 as int)
            && v.next_sync_committee.spec_encoding() == encoding.subrange(ranges[23].0 as int, ranges[23].1 as int)
            && v.latest_block_hash.spec_encoding() == encoding.subrange(ranges[24].0 as int, ranges[24].1 as int)
            && v.next_withdrawal_index.spec_encoding() == encoding.subrange(ranges[25].0 as int, ranges[25].1 as int)
            && v.next_withdrawal_validator_index.spec_encoding() == encoding.subrange(ranges[26].0 as int, ranges[26].1 as int)
            && v.historical_summaries.spec_encoding() == encoding.subrange(ranges[27].0 as int, ranges[27].1 as int)
            && v.deposit_requests_start_index.spec_encoding() == encoding.subrange(ranges[28].0 as int, ranges[28].1 as int)
            && v.deposit_balance_to_consume.spec_encoding() == encoding.subrange(ranges[29].0 as int, ranges[29].1 as int)
            && v.exit_balance_to_consume.spec_encoding() == encoding.subrange(ranges[30].0 as int, ranges[30].1 as int)
            && v.earliest_exit_epoch.spec_encoding() == encoding.subrange(ranges[31].0 as int, ranges[31].1 as int)
            && v.consolidation_balance_to_consume.spec_encoding() == encoding.subrange(ranges[32].0 as int, ranges[32].1 as int)
            && v.earliest_consolidation_epoch.spec_encoding() == encoding.subrange(ranges[33].0 as int, ranges[33].1 as int)
            && v.pending_deposits.spec_encoding() == encoding.subrange(ranges[34].0 as int, ranges[34].1 as int)
            && v.pending_partial_withdrawals.spec_encoding() == encoding.subrange(ranges[35].0 as int, ranges[35].1 as int)
            && v.pending_consolidations.spec_encoding() == encoding.subrange(ranges[36].0 as int, ranges[36].1 as int)
            && v.proposer_lookahead.spec_encoding() == encoding.subrange(ranges[37].0 as int, ranges[37].1 as int)
            && v.builders.spec_encoding() == encoding.subrange(ranges[38].0 as int, ranges[38].1 as int)
            && v.next_withdrawal_builder_index.spec_encoding() == encoding.subrange(ranges[39].0 as int, ranges[39].1 as int)
            && v.execution_payload_availability.spec_encoding() == encoding.subrange(ranges[40].0 as int, ranges[40].1 as int)
            && v.builder_pending_payments.spec_encoding() == encoding.subrange(ranges[41].0 as int, ranges[41].1 as int)
            && v.builder_pending_withdrawals.spec_encoding() == encoding.subrange(ranges[42].0 as int, ranges[42].1 as int)
            && v.latest_execution_payload_bid.spec_encoding() == encoding.subrange(ranges[43].0 as int, ranges[43].1 as int)
            && v.payload_expected_withdrawals.spec_encoding() == encoding.subrange(ranges[44].0 as int, ranges[44].1 as int)
            && v.ptc_window.spec_encoding() == encoding.subrange(ranges[45].0 as int, ranges[45].1 as int)) {
        assert forall|i: int| 0 <= i < parts.len() implies #[trigger] parts[i].1 == encoding.subrange(ranges[i].0 as int, ranges[i].1 as int) by {
            if i == 0 { assert(parts[0].1 == v.genesis_time.spec_encoding()); } else if i == 1 { assert(parts[1].1 == v.genesis_validators_root.spec_encoding()); } else if i == 2 { assert(parts[2].1 == v.slot.spec_encoding()); } else if i == 3 { assert(parts[3].1 == v.fork.spec_encoding()); } else if i == 4 { assert(parts[4].1 == v.latest_block_header.spec_encoding()); } else if i == 5 { assert(parts[5].1 == v.block_roots.spec_encoding()); } else if i == 6 { assert(parts[6].1 == v.state_roots.spec_encoding()); } else if i == 7 { assert(parts[7].1 == v.historical_roots.spec_encoding()); } else if i == 8 { assert(parts[8].1 == v.eth1_data.spec_encoding()); } else if i == 9 { assert(parts[9].1 == v.eth1_data_votes.spec_encoding()); } else if i == 10 { assert(parts[10].1 == v.eth1_deposit_index.spec_encoding()); } else if i == 11 { assert(parts[11].1 == v.validators.spec_encoding()); } else if i == 12 { assert(parts[12].1 == v.balances.spec_encoding()); } else if i == 13 { assert(parts[13].1 == v.randao_mixes.spec_encoding()); } else if i == 14 { assert(parts[14].1 == v.slashings.spec_encoding()); } else if i == 15 { assert(parts[15].1 == v.previous_epoch_participation.spec_encoding()); } else if i == 16 { assert(parts[16].1 == v.current_epoch_participation.spec_encoding()); } else if i == 17 { assert(parts[17].1 == v.justification_bits.spec_encoding()); } else if i == 18 { assert(parts[18].1 == v.previous_justified_checkpoint.spec_encoding()); } else if i == 19 { assert(parts[19].1 == v.current_justified_checkpoint.spec_encoding()); } else if i == 20 { assert(parts[20].1 == v.finalized_checkpoint.spec_encoding()); } else if i == 21 { assert(parts[21].1 == v.inactivity_scores.spec_encoding()); } else if i == 22 { assert(parts[22].1 == v.current_sync_committee.spec_encoding()); } else if i == 23 { assert(parts[23].1 == v.next_sync_committee.spec_encoding()); } else if i == 24 { assert(parts[24].1 == v.latest_block_hash.spec_encoding()); } else if i == 25 { assert(parts[25].1 == v.next_withdrawal_index.spec_encoding()); } else if i == 26 { assert(parts[26].1 == v.next_withdrawal_validator_index.spec_encoding()); } else if i == 27 { assert(parts[27].1 == v.historical_summaries.spec_encoding()); } else if i == 28 { assert(parts[28].1 == v.deposit_requests_start_index.spec_encoding()); } else if i == 29 { assert(parts[29].1 == v.deposit_balance_to_consume.spec_encoding()); } else if i == 30 { assert(parts[30].1 == v.exit_balance_to_consume.spec_encoding()); } else if i == 31 { assert(parts[31].1 == v.earliest_exit_epoch.spec_encoding()); } else if i == 32 { assert(parts[32].1 == v.consolidation_balance_to_consume.spec_encoding()); } else if i == 33 { assert(parts[33].1 == v.earliest_consolidation_epoch.spec_encoding()); } else if i == 34 { assert(parts[34].1 == v.pending_deposits.spec_encoding()); } else if i == 35 { assert(parts[35].1 == v.pending_partial_withdrawals.spec_encoding()); } else if i == 36 { assert(parts[36].1 == v.pending_consolidations.spec_encoding()); } else if i == 37 { assert(parts[37].1 == v.proposer_lookahead.spec_encoding()); } else if i == 38 { assert(parts[38].1 == v.builders.spec_encoding()); } else if i == 39 { assert(parts[39].1 == v.next_withdrawal_builder_index.spec_encoding()); } else if i == 40 { assert(parts[40].1 == v.execution_payload_availability.spec_encoding()); } else if i == 41 { assert(parts[41].1 == v.builder_pending_payments.spec_encoding()); } else if i == 42 { assert(parts[42].1 == v.builder_pending_withdrawals.spec_encoding()); } else if i == 43 { assert(parts[43].1 == v.latest_execution_payload_bid.spec_encoding()); } else if i == 44 { assert(parts[44].1 == v.payload_expected_withdrawals.spec_encoding()); } else if i == 45 { assert(parts[45].1 == v.ptc_window.spec_encoding()); }
        }
    }
}

impl SszCodec for BeaconState {
    open spec fn spec_fixed_size() -> Option<nat> {
        None
    }

    open spec fn spec_packed() -> bool {
        false
    }

    open spec fn spec_wf(&self) -> bool {
        self.spec_fields_wf()
    }

    open spec fn spec_encoding(&self) -> Seq<u8> {
        self.spec_ssz()
    }

    open spec fn spec_tree_root(&self) -> Seq<u8> {
        self.spec_root()
    }

    proof fn lemma_layout() {
    }

    proof fn lemma_shape(x: &Self) {

    }

    fn ssz_fixed_size() -> (r: Option<usize>) {
        None
    }

    fn ssz_packed() -> (r: bool) {
        false
    }

    fn ssz_encode(&self, buffer: &mut Vec<u8>) {
        let _ = self.serialize(buffer);
    }

    fn ssz_decode(bytes: &[u8]) -> (r: Result<Self, DeserializeError>) {
        Self::deserialize(bytes)
    }

    fn ssz_root(&self) -> (r: Node) {
        match self.hash_tree_root() {
            Ok(n) => n,
            Err(_) => Node([0u8; 32]),
        }
    }
}

} // verus!
