//! Validation failures from currently covered block-operation behavior.
use vstd::prelude::*;

use crate::primitives::{BuilderIndex, Epoch, Slot, ValidatorIndex};

verus! {

/// Failures from operation processing.
#[derive(Debug, Clone, Copy, PartialEq, Eq)]
#[non_exhaustive]
pub enum OperationError {
    /// A voluntary-exit operation targets a validator that is not in the active set.
    ValidatorNotActive(ValidatorIndex),

    /// A voluntary-exit operation targets a validator whose exit was already scheduled.
    ValidatorAlreadyExiting(ValidatorIndex),

    /// A voluntary exit's signed epoch is in the future relative to the state.
    ExitTooEarly {
        /// Current state epoch.
        current: Epoch,
        /// Epoch carried by the voluntary exit.
        exit: Epoch,
    },

    /// A validator tried to voluntary-exit before serving `SHARD_COMMITTEE_PERIOD`.
    ValidatorTooYoung {
        /// Validator attempting to exit.
        validator: ValidatorIndex,
        /// First epoch where the exit is permitted.
        eligible: Epoch,
        /// Current state epoch.
        current: Epoch,
    },

    /// Voluntary exit refused because the validator has a non-zero pending-withdrawal queue entry.
    ValidatorHasPendingWithdrawal(ValidatorIndex),

    /// A BLS-to-execution change targets a validator that is not BLS-credentialed.
    WithdrawalCredentialsNotBls(ValidatorIndex),

    /// A BLS-to-execution change does not match the validator's existing BLS credential hash.
    BlsChangeCredentialMismatch(ValidatorIndex),

    /// Attestation slot, source, target, or inclusion delay failed validation.
    AttestationSlotInvalid(Slot),
    /// Attestation payload-status/index field is invalid for this slot.
    AttestationPayloadStatusInvalid,
    /// Attestation source checkpoint disagrees with the state's justified checkpoint.
    AttestationSourceMismatch,
    /// Attestation target epoch does not match the slot's epoch.
    AttestationTargetEpochInvalid,
    /// Attestation has no attesting validators after committee decoding.
    AttestationParticipantsEmpty,
    /// Attestation aggregation bits do not match the decoded committee size.
    AttestationAggregationBitsLength,
    /// Attester slashing references an attestation that is not slashable.
    AttesterSlashingNotSlashable,
    /// Attester slashing has no overlap between its two attestations' attester sets.
    AttesterSlashingNoIntersection,
    /// Indexed attestation has no attesting indices.
    IndexedAttestationEmpty,
    /// Indexed attestation's attesting indices are not sorted unique.
    IndexedAttestationNotSorted,
    /// Proposer slashing's two signed headers have the same tree root.
    ProposerSlashingHeadersMatch,
    /// Proposer slashing's two headers are not for the same slot.
    ProposerSlashingSlotMismatch,
    /// Proposer slashing's two headers are not by the same proposer.
    ProposerSlashingProposerMismatch,
    /// Proposer slashing targets a non-slashable validator.
    ProposerSlashingNotSlashable(ValidatorIndex),
    /// Payload attestation slot does not match the parent slot.
    PayloadAttestationSlotMismatch,
    /// Payload attestation references a block root the state does not know.
    PayloadAttestationBlockRootMismatch,
    /// Builder is not active at the time of bid acceptance.
    BuilderNotActive(BuilderIndex),
    /// Builder is not a payload builder (its version is not the payload version).
    BuilderNotPayloadVersion(BuilderIndex),
    /// Builder cannot cover the bid amount with its current balance.
    BuilderInsufficientBalance(BuilderIndex),
    /// A proposer self-build bid promised a non-zero payment.
    BuilderBidSelfBuildNonZero,
    /// A proposer self-build bid did not use the point-at-infinity signature.
    BuilderBidSelfBuildSignature,
    /// Builder bid slot does not match the proposer's slot.
    BuilderBidSlotMismatch,
    /// Builder bid parent block hash or root does not match the state's view.
    BuilderBidParentMismatch,
    /// Builder bid `prev_randao` does not match the proposer's expected randao.
    BuilderBidRandaoMismatch,
    /// Builder bid contains more blob commitments than the active limit allows.
    BuilderBidBlobLimitExceeded {
        /// Blob commitment count carried by the bid.
        got: usize,
        /// Active blob commitment limit.
        max: usize,
    },
    /// Builder-payment window index is outside the accumulator.
    BuilderPaymentIndexOutOfRange,
    /// Builder pending-withdrawal queue is full.
    BuilderPendingWithdrawalsFull,
    /// Block-body deposits are not part of the parent-payload request path.
    DepositsNotAllowed,
    /// Computing a validator's withdrawable epoch overflowed the epoch type.
    WithdrawableEpochOverflow(ValidatorIndex),
}

} // verus!
