//! Fork-choice failure modes.
//!
//! One variant per fork-choice rule. Each variant names the rule that
//! rejected the message. The adapter classifies any `Err` from a step
//! marked invalid as a pass, and any `Err` from a valid step as a failure.
use vstd::prelude::*;

use crate::crypto::kzg::error::{KzgError, SetupFileError};
use crate::error::{MerkleError, TransitionError};
use crate::primitives::{ColumnIndex, Root, Slot, ValidatorIndex};

verus! {

/// Failures raised by fork-choice rule evaluation.
#[derive(Debug, Clone)]
#[non_exhaustive]
pub enum ForkChoiceError {
    /// Referenced block is not present in the store.
    UnknownBlock(Root),

    /// Block is present but no unrealized justification entry was recorded.
    MissingUnrealizedJustification(Root),

    /// Block is present but no timeliness flags were recorded for it.
    MissingBlockTimeliness(Root),

    /// Block's parent root is not present in the store.
    UnknownParent(Root),

    /// Block is at or before the finalized slot and cannot be added.
    BlockBeforeFinalizedSlot {
        /// Slot carried by the candidate block.
        block_slot: Slot,
        /// Slot at the store's finalized checkpoint.
        finalized_slot: Slot,
    },

    /// Block does not descend from the store's finalized checkpoint.
    BlockNotDescendedFromFinalized,

    /// Block's slot is ahead of the store's current slot.
    BlockFromFuture {
        /// Slot carried by the candidate block.
        block_slot: Slot,
        /// Slot derived from the local store clock.
        current_slot: Slot,
    },

    /// Attestation refers to a slot earlier than the block slot it covers.
    AttestationTooEarly,

    /// Attestation target epoch is outside the store clock's current or previous epoch.
    AttestationFromFutureEpoch,

    /// Attestation `index` is not in the allowed set.
    AttestationIndexInvalid(u64),

    /// Attestation votes for a full-payload branch before the local store has
    /// recorded the block's payload envelope.
    AttestationPayloadEnvelopeNotRecorded,

    /// LMD vote is inconsistent with the FFG target the attestation claims.
    AttestationLmdFfgMismatch,

    /// Attester slashing fails validation against the current state.
    InvalidAttesterSlashing,

    /// Block extends a full-payload parent branch before the local store has
    /// recorded the parent block's payload envelope.
    PayloadParentEnvelopeNotRecorded(Root),

    /// Payload envelope references a block not in the store.
    PayloadEnvelopeForUnknownBlock(Root),

    /// Data-column sidecar failed the non-cryptographic shape checks.
    DataColumnSidecarInvalid {
        /// Block root the sidecar belongs to.
        block: Root,
        /// Column index carried by the sidecar.
        column: ColumnIndex,
    },

    /// Data-column sidecar does not match the known block slot.
    DataColumnSidecarSlotMismatch {
        /// Slot carried by the sidecar.
        sidecar_slot: Slot,
        /// Slot carried by the known block.
        block_slot: Slot,
    },

    /// Data-column sidecar KZG proof verification returned false.
    DataColumnSidecarProofInvalid {
        /// Block root the sidecar belongs to.
        block: Root,
        /// Column index carried by the sidecar.
        column: ColumnIndex,
    },

    /// Data-column sidecar KZG proof verification failed before producing a verdict.
    DataColumnSidecarProofError {
        /// Block root the sidecar belongs to.
        block: Root,
        /// Column index carried by the sidecar.
        column: ColumnIndex,
        /// KZG verifier error.
        source: KzgError,
    },

    /// The execution engine reported the payload invalid for the block.
    PayloadExecutionInvalid(Root),

    /// Payload attestation references a block not in the store.
    PayloadAttestationForUnknownBlock(Root),

    /// Payload attestation slot is outside the active PTC window.
    PayloadAttestationSlotOutOfWindow,

    /// Payload attestation comes from a validator not in the PTC.
    PayloadAttestationValidatorNotInPtc,

    /// Payload attestation participant list is full.
    PayloadAttestationParticipantsFull,

    /// Payload attestation slot does not match the store's current slot.
    PayloadAttestationWrongSlot,

    /// `on_tick` was called with a time earlier than the stored time.
    TickWentBackwards {
        /// Previous store time.
        from: u64,
        /// New time supplied to `on_tick`.
        to: u64,
    },

    /// Anchor block's `state_root` does not match the anchor state's tree root.
    AnchorStateRootMismatch {
        /// State root carried by the anchor block.
        got: Root,
        /// State root computed from the anchor state.
        want: Root,
    },

    /// Anchor time arithmetic overflowed.
    AnchorTimeOverflow,

    /// Store has no entry for the justified-checkpoint state.
    JustifiedStateMissing,

    /// Validator index exceeds the registry length.
    ValidatorOutOfBounds(ValidatorIndex),

    /// `get_proposer_head` was called while proposer boost still targets the head.
    ProposerBoostStillActive(Root),

    /// `should_build_on_full` was given a still-pending node, so the empty-or-full
    /// choice is not yet resolved.
    BuildOnPendingNode(Root),

    /// `should_extend_payload` was asked about a block that is not from the slot
    /// just before the current one.
    NotPreviousSlot(Root),

    /// A fork-choice weight sum overflowed `u64`, which would corrupt head
    /// scoring.
    WeightOverflow,

    /// A payload-attestation vote names a committee position past the end of the
    /// vote vector.
    PayloadVoteIndexOutOfBounds(usize),

    /// A `state_transition` step rejected the block.
    Transition(TransitionError),

    /// Merkle proof or branch check failed during fork-choice evaluation.
    Merkle(MerkleError),

    /// KZG trusted setup could not be loaded.
    KzgSetup(SetupFileError),
}

/// A broken structural invariant of the fork-choice store, found by
/// [`check_invariants`](crate::fork_choice::Store::check_invariants).
///
/// These signal a bug in this crate's own bookkeeping rather than invalid input,
/// so they are kept separate from [`ForkChoiceError`].
#[derive(Debug, Clone, PartialEq, Eq)]
#[non_exhaustive]
pub enum StoreInvariant {
    /// A stored block has no recorded post-state.
    MissingBlockState(Root),

    /// A stored block has no recorded timeliness flags.
    MissingTimeliness(Root),

    /// A block's payload-timeliness vote vector is not `PTC_SIZE` long.
    TimelinessVotesNotPtcSize(Root),

    /// A block's payload-data-availability vote vector is not `PTC_SIZE` long.
    DataAvailabilityVotesNotPtcSize(Root),

    /// A block does not sit in a later slot than its in-store parent.
    BlockNotAfterParent(Root),
}

} // verus!
