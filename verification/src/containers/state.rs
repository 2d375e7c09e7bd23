//! The full consensus state.
//!
//! `BeaconState` combines the validator registry, historical ring buffers,
//! processing queues, builder state, and per-slot working data: the chain clock
//! and identity, recent block/state roots, randomness, validator registry and
//! balances, participation/finality records, execution and withdrawal handoff,
//! lifecycle queues, proposer lookahead, and builder/payload-timeliness state.
use vstd::prelude::*;

use crate::constants::{
    BUILDER_PAYMENT_WINDOW_LEN, BUILDER_PENDING_WITHDRAWALS_LIMIT, BUILDER_REGISTRY_LIMIT,
    EPOCHS_PER_HISTORICAL_VECTOR, EPOCHS_PER_SLASHINGS_VECTOR, ETH1_DATA_VOTES_LEN,
    HISTORICAL_ROOTS_LIMIT, JUSTIFICATION_BITS_LENGTH, MAX_BLOB_COMMITMENTS_PER_BLOCK,
    MAX_WITHDRAWALS_PER_PAYLOAD, PENDING_CONSOLIDATIONS_LIMIT, PENDING_DEPOSITS_LIMIT,
    PENDING_PARTIAL_WITHDRAWALS_LIMIT, PROPOSER_LOOKAHEAD_LEN, PTC_SIZE, PTC_WINDOW_LEN,
    SLOTS_PER_HISTORICAL_ROOT, SYNC_COMMITTEE_SIZE, VALIDATOR_REGISTRY_LIMIT,
};
use crate::containers::block::BeaconBlockHeader;
use crate::containers::builder::{Builder, BuilderPendingPayment, BuilderPendingWithdrawal};
use crate::containers::chain::{Checkpoint, Eth1Data, Fork, HistoricalSummary};
use crate::containers::execution::ExecutionPayloadBid;
use crate::containers::sync::SyncCommittee;
use crate::containers::validator::{
    PendingConsolidation, PendingDeposit, PendingPartialWithdrawal, Validator,
};
use crate::containers::withdrawal::Withdrawal;
use crate::primitives::{
    BLSPubkey, BuilderIndex, Epoch, ExecutionAddress, Gwei, Hash32, ParticipationFlags, Root,
    Slot, ValidatorIndex, Version, WithdrawalIndex,
};
use crate::ssz::basic::zeros;
use crate::ssz::collection::filled_vector;
use crate::ssz::{Bitvector, List, Vector};

verus! {

/// Deposit-request start index before the first deposit request is seen.
pub const UNSET_DEPOSIT_REQUESTS_START_INDEX: u64 = 18_446_744_073_709_551_615;

/// Complete consensus snapshot needed to validate the next slot or block.
///
/// Validators that apply the same valid slots and blocks arrive at the same
/// `BeaconState`. A fork-choice store may cache many post-states, but only the
/// transition mutates one.
#[derive(Debug, Clone)]
pub struct BeaconState {
    /// Unix timestamp the chain started at.
    pub genesis_time: u64,
    /// Root of the validator set at genesis. Tags this chain in domain separators.
    pub genesis_validators_root: Root,
    /// Current slot of the state.
    pub slot: Slot,
    /// Active signing-version pair.
    pub fork: Fork,
    /// Header of the most recent block applied to this state.
    pub latest_block_header: BeaconBlockHeader,
    /// Ring buffer of past block roots indexed by `slot % SLOTS_PER_HISTORICAL_ROOT`.
    pub block_roots: Vector<Root, SLOTS_PER_HISTORICAL_ROOT>,
    /// Ring buffer of past state roots indexed by `slot % SLOTS_PER_HISTORICAL_ROOT`.
    pub state_roots: Vector<Root, SLOTS_PER_HISTORICAL_ROOT>,
    /// Roll-up roots of historical block-root buffers.
    pub historical_roots: List<Root, HISTORICAL_ROOTS_LIMIT>,
    /// Currently winning deposit-chain vote.
    pub eth1_data: Eth1Data,
    /// Deposit-chain votes accumulated over the current voting period.
    pub eth1_data_votes: List<Eth1Data, ETH1_DATA_VOTES_LEN>,
    /// Index of the next deposit to be processed from the deposit contract.
    pub eth1_deposit_index: u64,
    /// The validator registry.
    pub validators: List<Validator, VALIDATOR_REGISTRY_LIMIT>,
    /// Per-validator balances before effective-balance rounding.
    pub balances: List<Gwei, VALIDATOR_REGISTRY_LIMIT>,
    /// Ring buffer of past RANDAO mixes.
    pub randao_mixes: Vector<[u8; 32], EPOCHS_PER_HISTORICAL_VECTOR>,
    /// Ring buffer of accumulated slashing totals per epoch.
    pub slashings: Vector<Gwei, EPOCHS_PER_SLASHINGS_VECTOR>,
    /// Per-validator participation flags from the previous epoch.
    pub previous_epoch_participation: List<ParticipationFlags, VALIDATOR_REGISTRY_LIMIT>,
    /// Per-validator participation flags from the current epoch.
    pub current_epoch_participation: List<ParticipationFlags, VALIDATOR_REGISTRY_LIMIT>,
    /// Rolling Casper finality-justification bitvector.
    pub justification_bits: Bitvector<JUSTIFICATION_BITS_LENGTH>,
    /// Justified checkpoint from the previous epoch.
    pub previous_justified_checkpoint: Checkpoint,
    /// Justified checkpoint from the current epoch.
    pub current_justified_checkpoint: Checkpoint,
    /// Most recent finalized checkpoint.
    pub finalized_checkpoint: Checkpoint,
    /// Per-validator inactivity-leak scores.
    pub inactivity_scores: List<u64, VALIDATOR_REGISTRY_LIMIT>,
    /// Sync committee active this period.
    pub current_sync_committee: SyncCommittee,
    /// Sync committee active next period, cached one period in advance.
    pub next_sync_committee: SyncCommittee,
    /// Hash of the most recently settled execution payload.
    pub latest_block_hash: Hash32,
    /// Sequence index of the next withdrawal to emit.
    pub next_withdrawal_index: WithdrawalIndex,
    /// Sweep cursor over the validator registry for the next withdrawal scan.
    pub next_withdrawal_validator_index: ValidatorIndex,
    /// Summarized history beyond the live ring buffer.
    pub historical_summaries: List<HistoricalSummary, HISTORICAL_ROOTS_LIMIT>,
    /// Starting index for processing deposit-contract requests.
    pub deposit_requests_start_index: u64,
    /// Remaining deposit-balance budget for the current epoch.
    pub deposit_balance_to_consume: Gwei,
    /// Remaining exit-balance budget for the current epoch.
    pub exit_balance_to_consume: Gwei,
    /// Earliest epoch a new exit may be scheduled at.
    pub earliest_exit_epoch: Epoch,
    /// Remaining consolidation-balance budget for the current epoch.
    pub consolidation_balance_to_consume: Gwei,
    /// Earliest epoch a new consolidation may be scheduled at.
    pub earliest_consolidation_epoch: Epoch,
    /// Queue of deposits awaiting signature verification and activation.
    pub pending_deposits: List<PendingDeposit, PENDING_DEPOSITS_LIMIT>,
    /// Queue of scheduled partial withdrawals.
    pub pending_partial_withdrawals: List<PendingPartialWithdrawal, PENDING_PARTIAL_WITHDRAWALS_LIMIT>,
    /// Queue of scheduled consolidations.
    pub pending_consolidations: List<PendingConsolidation, PENDING_CONSOLIDATIONS_LIMIT>,
    /// Lookahead proposer assignments for the next few slots.
    pub proposer_lookahead: Vector<ValidatorIndex, PROPOSER_LOOKAHEAD_LEN>,
    /// The builder registry.
    pub builders: List<Builder, BUILDER_REGISTRY_LIMIT>,
    /// Sweep cursor over the builder registry for the next withdrawal scan.
    pub next_withdrawal_builder_index: BuilderIndex,
    /// Per-slot bit indicating whether the slot's payload was settled available.
    pub execution_payload_availability: Bitvector<SLOTS_PER_HISTORICAL_ROOT>,
    /// Rolling 2-epoch accumulator of builder-payment quorum weights.
    pub builder_pending_payments: Vector<BuilderPendingPayment, BUILDER_PAYMENT_WINDOW_LEN>,
    /// Queue of builder payments awaiting the next withdrawal sweep.
    pub builder_pending_withdrawals: List<BuilderPendingWithdrawal, BUILDER_PENDING_WITHDRAWALS_LIMIT>,
    /// Most-recently accepted builder bid for the current slot.
    pub latest_execution_payload_bid: ExecutionPayloadBid,
    /// Withdrawals the next payload is expected to include.
    pub payload_expected_withdrawals: List<Withdrawal, MAX_WITHDRAWALS_PER_PAYLOAD>,
    /// Per-slot payload-timeliness committee assignments over the lookahead window.
    pub ptc_window: Vector<Vector<ValidatorIndex, PTC_SIZE>, PTC_WINDOW_LEN>,
}

/// Whether a checkpoint is the all-zero one.
pub open spec fn is_zero_checkpoint(c: Checkpoint) -> bool {
    c.epoch.0 == 0 && c.root.0@ == zeros(32)
}

/// The all-zero checkpoint.
fn zero_checkpoint() -> (r: Checkpoint)
    ensures
        r.epoch.0 == 0,
        r.root.0@ == zeros(32),
{
    let r = Checkpoint { epoch: Epoch(0), root: Root([0u8; 32]) };
    assert(r.root.0@ =~= zeros(32));
    r
}

/// Every public key of the sync committee, and its aggregate, is zero.
pub open spec fn is_zero_sync_committee(c: SyncCommittee) -> bool {
    &&& forall|i: int| 0 <= i < SYNC_COMMITTEE_SIZE ==> (#[trigger] c.pubkeys@[i]).0@ == zeros(48)
    &&& c.aggregate_pubkey.0@ == zeros(48)
}

/// Every field of the bid is zero or empty.
pub open spec fn is_zero_bid(r: ExecutionPayloadBid) -> bool {
    &&& r.parent_block_hash.0@ == zeros(32)
    &&& r.parent_block_root.0@ == zeros(32)
    &&& r.block_hash.0@ == zeros(32)
    &&& r.prev_randao@ == zeros(32)
    &&& r.fee_recipient.0@ == zeros(20)
    &&& r.gas_limit == 0
    &&& r.builder_index.0 == 0
    &&& r.slot.0 == 0
    &&& r.value.0 == 0
    &&& r.execution_payment.0 == 0
    &&& r.blob_kzg_commitments@.len() == 0
    &&& r.execution_requests_root.0@ == zeros(32)
}

/// Every field of the pending payment is zero.
pub open spec fn is_zero_payment(p: BuilderPendingPayment) -> bool {
    &&& p.weight.0 == 0
    &&& p.withdrawal.fee_recipient.0@ == zeros(20)
    &&& p.withdrawal.amount.0 == 0
    &&& p.withdrawal.builder_index.0 == 0
    &&& p.proposer_index.0 == 0
}

/// The sync committee whose public keys are all zero.
fn zero_sync_committee() -> (r: SyncCommittee)
    ensures
        r.pubkeys.wf(),
        is_zero_sync_committee(r),
{
    let zero_key = BLSPubkey([0u8; 48]);
    proof {
        assert(zero_key.0@ =~= zeros(48));
    }
    SyncCommittee {
        pubkeys: filled_vector::<BLSPubkey, SYNC_COMMITTEE_SIZE>(zero_key),
        aggregate_pubkey: zero_key,
    }
}

/// The all-zero builder bid.
pub fn zero_execution_payload_bid() -> (r: ExecutionPayloadBid)
    ensures
        r.parent_block_hash.0@ == zeros(32),
        r.parent_block_root.0@ == zeros(32),
        r.block_hash.0@ == zeros(32),
        r.prev_randao@ == zeros(32),
        r.fee_recipient.0@ == zeros(20),
        r.gas_limit == 0,
        r.builder_index.0 == 0,
        r.slot.0 == 0,
        r.value.0 == 0,
        r.execution_payment.0 == 0,
        r.blob_kzg_commitments@.len() == 0,
        r.execution_requests_root.0@ == zeros(32),
{
    let r = ExecutionPayloadBid {
        parent_block_hash: Hash32([0u8; 32]),
        parent_block_root: Root([0u8; 32]),
        block_hash: Hash32([0u8; 32]),
        prev_randao: [0u8; 32],
        fee_recipient: ExecutionAddress([0u8; 20]),
        gas_limit: 0,
        builder_index: BuilderIndex(0),
        slot: Slot(0),
        value: Gwei(0),
        execution_payment: Gwei(0),
        blob_kzg_commitments: List::<crate::primitives::KZGCommitment, MAX_BLOB_COMMITMENTS_PER_BLOCK>::new(),
        execution_requests_root: Root([0u8; 32]),
    };
    assert(r.parent_block_hash.0@ =~= zeros(32));
    assert(r.parent_block_root.0@ =~= zeros(32));
    assert(r.block_hash.0@ =~= zeros(32));
    assert(r.prev_randao@ =~= zeros(32));
    assert(r.fee_recipient.0@ =~= zeros(20));
    assert(r.execution_requests_root.0@ =~= zeros(32));
    r
}

impl BeaconState {
    /// Whether every fixed-length vector holds exactly its length and every
    /// list respects its bound.
    pub open spec fn wf(&self) -> bool {
        &&& self.block_roots.wf()
        &&& self.state_roots.wf()
        &&& self.randao_mixes.wf()
        &&& self.slashings.wf()
        &&& self.justification_bits.wf()
        &&& self.proposer_lookahead.wf()
        &&& self.execution_payload_availability.wf()
        &&& self.builder_pending_payments.wf()
        &&& self.ptc_window.wf()
        &&& self.current_sync_committee.pubkeys.wf()
        &&& self.next_sync_committee.pubkeys.wf()
        &&& self.historical_roots.wf()
        &&& self.eth1_data_votes.wf()
        &&& self.validators.wf()
        &&& self.balances.wf()
        &&& self.previous_epoch_participation.wf()
        &&& self.current_epoch_participation.wf()
        &&& self.inactivity_scores.wf()
        &&& self.historical_summaries.wf()
        &&& self.pending_deposits.wf()
        &&& self.pending_partial_withdrawals.wf()
        &&& self.pending_consolidations.wf()
        &&& self.builders.wf()
        &&& self.builder_pending_withdrawals.wf()
        &&& self.payload_expected_withdrawals.wf()
    }
}

impl Default for BeaconState {
    /// The SSZ zero state, field by field.
    ///
    /// This is not a valid initialized chain state; it is a starting point
    /// for construction.
    fn default() -> (r: Self)
        ensures
            r.wf(),
            r.genesis_time == 0,
            r.slot.0 == 0,
            r.eth1_deposit_index == 0,
            r.deposit_requests_start_index == 0,
            r.deposit_balance_to_consume.0 == 0,
            r.exit_balance_to_consume.0 == 0,
            r.earliest_exit_epoch.0 == 0,
            r.consolidation_balance_to_consume.0 == 0,
            r.earliest_consolidation_epoch.0 == 0,
            r.next_withdrawal_index.0 == 0,
            r.next_withdrawal_validator_index.0 == 0,
            r.next_withdrawal_builder_index.0 == 0,
            r.genesis_validators_root.0@ == zeros(32),
            r.latest_block_hash.0@ == zeros(32),
            r.historical_roots@.len() == 0,
            r.eth1_data_votes@.len() == 0,
            r.previous_epoch_participation@.len() == 0,
            r.current_epoch_participation@.len() == 0,
            r.inactivity_scores@.len() == 0,
            r.historical_summaries@.len() == 0,
            r.pending_deposits@.len() == 0,
            r.pending_partial_withdrawals@.len() == 0,
            r.pending_consolidations@.len() == 0,
            r.builder_pending_withdrawals@.len() == 0,
            r.latest_execution_payload_bid.slot.0 == 0,
            r.latest_execution_payload_bid.value.0 == 0,
            r.latest_execution_payload_bid.blob_kzg_commitments@.len() == 0,
            is_zero_checkpoint(r.previous_justified_checkpoint),
            r.validators@.len() == 0,
            r.balances@.len() == 0,
            r.builders@.len() == 0,
            is_zero_checkpoint(r.current_justified_checkpoint),
            is_zero_checkpoint(r.finalized_checkpoint),
            forall|i: int| 0 <= i < SLOTS_PER_HISTORICAL_ROOT ==> #[trigger] r.block_roots@[i].0@ == zeros(32),
            forall|i: int| 0 <= i < SLOTS_PER_HISTORICAL_ROOT ==> !#[trigger] r.execution_payload_availability@[i],
            r.fork.previous_version.0@ == zeros(4),
            r.fork.current_version.0@ == zeros(4),
            r.fork.epoch.0 == 0,
            r.latest_block_header.slot.0 == 0,
            r.latest_block_header.proposer_index.0 == 0,
            r.latest_block_header.parent_root.0@ == zeros(32),
            r.latest_block_header.state_root.0@ == zeros(32),
            r.latest_block_header.body_root.0@ == zeros(32),
            forall|i: int| 0 <= i < SLOTS_PER_HISTORICAL_ROOT ==> #[trigger] r.state_roots@[i].0@ == zeros(32),
            r.eth1_data.deposit_root.0@ == zeros(32),
            r.eth1_data.deposit_count == 0,
            r.eth1_data.block_hash.0@ == zeros(32),
            forall|i: int| 0 <= i < EPOCHS_PER_HISTORICAL_VECTOR ==> #[trigger] r.randao_mixes@[i]@ == zeros(32),
            forall|i: int| 0 <= i < EPOCHS_PER_SLASHINGS_VECTOR ==> (#[trigger] r.slashings@[i]).0 == 0,
            forall|i: int| 0 <= i < JUSTIFICATION_BITS_LENGTH ==> !#[trigger] r.justification_bits@[i],
            is_zero_sync_committee(r.current_sync_committee),
            is_zero_sync_committee(r.next_sync_committee),
            forall|i: int| 0 <= i < PROPOSER_LOOKAHEAD_LEN ==> (#[trigger] r.proposer_lookahead@[i]).0 == 0,
            forall|i: int| 0 <= i < BUILDER_PAYMENT_WINDOW_LEN ==> is_zero_payment(#[trigger] r.builder_pending_payments@[i]),
            r.payload_expected_withdrawals@.len() == 0,
            is_zero_bid(r.latest_execution_payload_bid),
            r.ptc_window@.len() == PTC_WINDOW_LEN,
            forall|w: int, j: int|
                0 <= w < PTC_WINDOW_LEN && 0 <= j < PTC_SIZE ==> (#[trigger] r.ptc_window@[w]@[j]).0 == 0,
    {
        let zero_root = Root([0u8; 32]);
        let zero_header = BeaconBlockHeader {
            slot: Slot(0),
            proposer_index: ValidatorIndex(0),
            parent_root: zero_root,
            state_root: zero_root,
            body_root: zero_root,
        };
        let zero_payment = BuilderPendingPayment {
            weight: Gwei(0),
            withdrawal: BuilderPendingWithdrawal {
                fee_recipient: ExecutionAddress([0u8; 20]),
                amount: Gwei(0),
                builder_index: BuilderIndex(0),
            },
            proposer_index: ValidatorIndex(0),
        };
        let mut ptc_rows: Vec<Vector<ValidatorIndex, PTC_SIZE>> = Vec::new();
        let mut row: u64 = 0;
        while row < PTC_WINDOW_LEN
            invariant
                row <= PTC_WINDOW_LEN,
                ptc_rows@.len() == row,
                forall|w: int, j: int| 0 <= w < row && 0 <= j < PTC_SIZE ==> (#[trigger] ptc_rows@[w]@[j]).0 == 0,
            decreases PTC_WINDOW_LEN - row,
        {
            ptc_rows.push(filled_vector::<ValidatorIndex, PTC_SIZE>(ValidatorIndex(0)));
            row = row + 1;
        }
        proof {
            assert(zero_payment.withdrawal.fee_recipient.0@ =~= zeros(20));
            assert(zero_header.parent_root.0@ =~= zeros(32));
        }
        let zero_checkpoint = zero_checkpoint();
        let zero_mix: [u8; 32] = [0u8; 32];
        proof {
            assert(zero_mix@ =~= zeros(32));
        }
        let r = BeaconState {
            genesis_time: 0,
            genesis_validators_root: zero_root,
            slot: Slot(0),
            fork: Fork { previous_version: Version([0u8; 4]), current_version: Version([0u8; 4]), epoch: Epoch(0) },
            latest_block_header: zero_header,
            block_roots: filled_vector::<Root, SLOTS_PER_HISTORICAL_ROOT>(zero_root),
            state_roots: filled_vector::<Root, SLOTS_PER_HISTORICAL_ROOT>(zero_root),
            historical_roots: List::new(),
            eth1_data: Eth1Data { deposit_root: zero_root, deposit_count: 0, block_hash: Hash32([0u8; 32]) },
            eth1_data_votes: List::new(),
            eth1_deposit_index: 0,
            validators: List::new(),
            balances: List::new(),
            randao_mixes: filled_vector::<[u8; 32], EPOCHS_PER_HISTORICAL_VECTOR>(zero_mix),
            slashings: filled_vector::<Gwei, EPOCHS_PER_SLASHINGS_VECTOR>(Gwei(0)),
            previous_epoch_participation: List::new(),
            current_epoch_participation: List::new(),
            justification_bits: Bitvector::zeroed(),
            previous_justified_checkpoint: zero_checkpoint,
            current_justified_checkpoint: zero_checkpoint,
            finalized_checkpoint: zero_checkpoint,
            inactivity_scores: List::new(),
            current_sync_committee: zero_sync_committee(),
            next_sync_committee: zero_sync_committee(),
            latest_block_hash: Hash32([0u8; 32]),
            next_withdrawal_index: WithdrawalIndex(0),
            next_withdrawal_validator_index: ValidatorIndex(0),
            historical_summaries: List::new(),
            deposit_requests_start_index: 0,
            deposit_balance_to_consume: Gwei(0),
            exit_balance_to_consume: Gwei(0),
            earliest_exit_epoch: Epoch(0),
            consolidation_balance_to_consume: Gwei(0),
            earliest_consolidation_epoch: Epoch(0),
            pending_deposits: List::new(),
            pending_partial_withdrawals: List::new(),
            pending_consolidations: List::new(),
            proposer_lookahead: filled_vector::<ValidatorIndex, PROPOSER_LOOKAHEAD_LEN>(ValidatorIndex(0)),
            builders: List::new(),
            next_withdrawal_builder_index: BuilderIndex(0),
            execution_payload_availability: Bitvector::zeroed(),
            builder_pending_payments: filled_vector::<BuilderPendingPayment, BUILDER_PAYMENT_WINDOW_LEN>(zero_payment),
            builder_pending_withdrawals: List::new(),
            latest_execution_payload_bid: zero_execution_payload_bid(),
            payload_expected_withdrawals: List::new(),
            ptc_window: Vector { items: ptc_rows },
        };
        proof {
            assert(zero_root.0@ =~= zeros(32));
            assert(r.latest_block_hash.0@ =~= zeros(32));
            assert(r.fork.previous_version.0@ =~= zeros(4));
            assert(r.fork.current_version.0@ =~= zeros(4));
            assert(r.eth1_data.block_hash.0@ =~= zeros(32));
            assert(r.ptc_window@ == ptc_rows@);
        }
        r
    }
}

} // verus!
