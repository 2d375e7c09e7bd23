//! Consensus-spec constants (mainnet preset).
//!
//! Timing, fork-choice tuning, committee sizes, data-availability geometry
//! and chain identity used by the implemented paths.
use vstd::prelude::*;

verus! {

/// Slots in one epoch.
pub const SLOTS_PER_EPOCH: usize = 32;

/// Slots in one epoch, as a `u64`.
pub const SLOTS_PER_EPOCH_U64: u64 = 32;

/// Slot duration in milliseconds.
pub const SLOT_DURATION_MS: u64 = 12_000;

/// Basis points in a whole.
pub const BASIS_POINTS: u64 = 10_000;

/// Attestation deadline, in basis points of a slot.
pub const ATTESTATION_DUE_BPS_GLOAS: u64 = 2_500;

/// Payload-attestation deadline, in basis points of a slot.
pub const PAYLOAD_ATTESTATION_DUE_BPS: u64 = 7_500;

/// Proposer re-org cutoff, in basis points of a slot.
pub const PROPOSER_REORG_CUTOFF_BPS: u64 = 1_667;

/// Proposer boost, as a percentage of one slot's committee weight.
pub const PROPOSER_SCORE_BOOST: u64 = 40;

/// Weak-head threshold, as a percentage of one slot's committee weight.
pub const REORG_HEAD_WEIGHT_THRESHOLD: u64 = 20;

/// Strong-parent threshold, as a percentage of one slot's committee weight.
pub const REORG_PARENT_WEIGHT_THRESHOLD: u64 = 160;

/// Epochs since finalization beyond which re-orgs are not attempted.
pub const REORG_MAX_EPOCHS_SINCE_FINALIZATION: u64 = 2;

/// Epochs of lookahead for the randomness seed.
pub const MIN_SEED_LOOKAHEAD: u64 = 1;

/// Payload-timeliness committee size.
pub const PTC_SIZE: u64 = 512;

/// Votes needed for the payload to count as timely.
pub const PAYLOAD_TIMELY_THRESHOLD: u64 = 256;

/// Votes needed for the blob data to count as available.
pub const DATA_AVAILABILITY_TIMELY_THRESHOLD: u64 = 256;

/// Genesis epoch.
pub const GENESIS_EPOCH: u64 = 0;

/// Upper bound on the number of blobs per block before the blob schedule.
pub const MAX_BLOBS_PER_BLOCK: u64 = 9;

/// Electra fork epoch.
pub const ELECTRA_FORK_EPOCH: u64 = 364_032;

/// Fulu fork epoch.
pub const FULU_FORK_EPOCH: u64 = 411_392;

/// Gloas fork epoch (not yet scheduled).
pub const GLOAS_FORK_EPOCH: u64 = 18_446_744_073_709_551_615;

/// Altair fork epoch.
pub const ALTAIR_FORK_EPOCH: u64 = 74_240;

/// Bellatrix fork epoch.
pub const BELLATRIX_FORK_EPOCH: u64 = 144_896;

/// Capella fork epoch.
pub const CAPELLA_FORK_EPOCH: u64 = 194_048;

/// Deneb fork epoch.
pub const DENEB_FORK_EPOCH: u64 = 269_568;

/// Bytes in a BLS scalar field element.
pub const BYTES_PER_FIELD_ELEMENT: usize = 32;

/// Field elements per blob.
pub const FIELD_ELEMENTS_PER_BLOB: usize = 4_096;

/// Field elements per cell.
pub const FIELD_ELEMENTS_PER_CELL: usize = 64;

/// Bytes per cell.
pub const BYTES_PER_CELL: usize = 2_048;

/// Cells per extended blob.
pub const CELLS_PER_EXT_BLOB: usize = 128;

/// Bytes per blob.
pub const BYTES_PER_BLOB: usize = 131_072;

/// Field elements in the extended blob.
pub const FIELD_ELEMENTS_PER_EXT_BLOB: usize = 8_192;

/// The multiplicative generator of the scalar field, which shifts the
/// evaluation domain onto its coset.
pub const PRIMITIVE_ROOT_OF_UNITY: u64 = 7;

/// Data columns per extended blob.
pub const NUMBER_OF_COLUMNS: u64 = 128;

/// Custody groups.
pub const NUMBER_OF_CUSTODY_GROUPS: u64 = 128;

/// Custody groups every node must keep.
pub const CUSTODY_REQUIREMENT: u64 = 4;

/// Data-column sidecar gossip subnets.
pub const DATA_COLUMN_SIDECAR_SUBNET_COUNT: u64 = 128;

/// Maximum blocks in one by-range request.
pub const MAX_REQUEST_BLOCKS_DENEB: u64 = 128;

/// Maximum blob commitments per block.
pub const MAX_BLOB_COMMITMENTS_PER_BLOCK: u64 = 4_096;

/// Bytes in a logs bloom.
pub const BYTES_PER_LOGS_BLOOM: u64 = 256;

/// The first slot of `epoch`, saturating at the largest slot.
pub open spec fn spec_epoch_start_slot(epoch: u64) -> u64 {
    if epoch * SLOTS_PER_EPOCH_U64 <= u64::MAX {
        (epoch * SLOTS_PER_EPOCH_U64) as u64
    } else {
        u64::MAX
    }
}

/// Validators per committee at most.
pub const MAX_VALIDATORS_PER_COMMITTEE: u64 = 2_048;

/// Committees per slot at most.
pub const MAX_COMMITTEES_PER_SLOT: u64 = 64;

/// Committee size the committee count per slot aims for.
pub const TARGET_COMMITTEE_SIZE: u64 = 128;

/// Rounds of the swap-or-not shuffle.
pub const SHUFFLE_ROUND_COUNT: u64 = 90;

/// Attesting indices in one aggregate at most.
pub const MAX_ATTESTING_INDICES: u64 = 131_072;

/// Proposer slashings per block.
pub const MAX_PROPOSER_SLASHINGS: u64 = 16;

/// Attester slashings per block.
pub const MAX_ATTESTER_SLASHINGS: u64 = 1;

/// Attestations per block.
pub const MAX_ATTESTATIONS: u64 = 8;

/// Deposits per block.
pub const MAX_DEPOSITS: u64 = 16;

/// Voluntary exits per block.
pub const MAX_VOLUNTARY_EXITS: u64 = 16;

/// Credential changes per block.
pub const MAX_BLS_TO_EXECUTION_CHANGES: u64 = 16;

/// Payload attestations per block.
pub const MAX_PAYLOAD_ATTESTATIONS: u64 = 4;

/// Deposit requests per payload.
pub const MAX_DEPOSIT_REQUESTS_PER_PAYLOAD: u64 = 8_192;

/// Withdrawal requests per payload.
pub const MAX_WITHDRAWAL_REQUESTS_PER_PAYLOAD: u64 = 16;

/// Consolidation requests per payload.
pub const MAX_CONSOLIDATION_REQUESTS_PER_PAYLOAD: u64 = 2;

/// Builder deposit requests per payload.
pub const MAX_BUILDER_DEPOSIT_REQUESTS_PER_PAYLOAD: u64 = 256;

/// Builder exit requests per payload.
pub const MAX_BUILDER_EXIT_REQUESTS_PER_PAYLOAD: u64 = 16;

/// Bytes per transaction at most.
pub const MAX_BYTES_PER_TRANSACTION: u64 = 1_073_741_824;

/// Transactions per payload at most.
pub const MAX_TRANSACTIONS_PER_PAYLOAD: u64 = 1_048_576;

/// Extra-data bytes at most.
pub const MAX_EXTRA_DATA_BYTES: u64 = 32;

/// Withdrawals per payload at most.
pub const MAX_WITHDRAWALS_PER_PAYLOAD: u64 = 16;

/// Depth of the deposit-contract tree plus the length mix-in.
pub const DEPOSIT_PROOF_LEN: u64 = 33;

/// Sync committee size.
pub const SYNC_COMMITTEE_SIZE: u64 = 512;

/// Slots of history kept in the state's ring buffers.
pub const SLOTS_PER_HISTORICAL_ROOT: u64 = 8_192;

/// Historical roots at most.
pub const HISTORICAL_ROOTS_LIMIT: u64 = 16_777_216;

/// Deposit-chain votes per voting period.
pub const ETH1_DATA_VOTES_LEN: u64 = 2_048;

/// Validators in the registry at most.
pub const VALIDATOR_REGISTRY_LIMIT: u64 = 1_099_511_627_776;

/// Epochs of RANDAO mixes kept.
pub const EPOCHS_PER_HISTORICAL_VECTOR: u64 = 65_536;

/// Epochs of slashing totals kept.
pub const EPOCHS_PER_SLASHINGS_VECTOR: u64 = 8_192;

/// Justification bits kept.
pub const JUSTIFICATION_BITS_LENGTH: u64 = 4;

/// Pending deposits at most.
pub const PENDING_DEPOSITS_LIMIT: u64 = 134_217_728;

/// Pending partial withdrawals at most.
pub const PENDING_PARTIAL_WITHDRAWALS_LIMIT: u64 = 134_217_728;

/// Pending consolidations at most.
pub const PENDING_CONSOLIDATIONS_LIMIT: u64 = 262_144;

/// Proposer lookahead length: `(MIN_SEED_LOOKAHEAD + 1) * SLOTS_PER_EPOCH`.
pub const PROPOSER_LOOKAHEAD_LEN: u64 = 64;

/// Builders in the registry at most.
pub const BUILDER_REGISTRY_LIMIT: u64 = 1_099_511_627_776;

/// Builder payment window: two epochs of slots.
pub const BUILDER_PAYMENT_WINDOW_LEN: u64 = 64;

/// Pending builder withdrawals at most.
pub const BUILDER_PENDING_WITHDRAWALS_LIMIT: u64 = 1_048_576;

/// Slots covered by the PTC window.
pub const PTC_WINDOW_LEN: u64 = 96;

/// Effective balances move in steps of this many gwei; the total active
/// balance is never reported below one step.
pub const EFFECTIVE_BALANCE_INCREMENT: u64 = 1_000_000_000;

} // verus!
