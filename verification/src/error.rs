//! Error taxonomy for transition and fork-choice code.
//!
//! Every [`TransitionError`] variant means the supplied state or block cannot
//! be accepted by the transition rules. Fork-choice rejections are
//! [`ForkChoiceError`]s.
use vstd::prelude::*;

pub mod fork_choice;
pub mod operation;
pub mod registry;
pub mod slot;
pub mod transition;

pub use fork_choice::{ForkChoiceError, StoreInvariant};
pub use operation::OperationError;
pub use registry::RegistryError;
pub use slot::SlotError;
pub use transition::{BoundedList, StateTransitionInvariant, TransitionArithmetic};

use crate::primitives::Root;

verus! {

/// Which object's hash-tree-root could not be computed.
#[derive(Debug, Clone, Copy, PartialEq, Eq)]
#[non_exhaustive]
pub enum MerkleError {
    /// Merkleizing a beacon block failed.
    BeaconBlock,
    /// Merkleizing a beacon state failed.
    BeaconState,
}

/// Which signature check failed.
#[derive(Debug, Clone, Copy, PartialEq, Eq)]
#[non_exhaustive]
pub enum SignatureError {
    /// An attestation signature did not verify.
    Attestation,
    /// The first attestation of an attester slashing did not verify.
    AttesterSlashingAttestationOne,
    /// The second attestation of an attester slashing did not verify.
    AttesterSlashingAttestationTwo,
    /// Aggregating public keys failed.
    AggregatePubkey,
    /// An aggregate over no public keys was requested.
    EmptyAggregatePubkeySet,
    /// An empty participant set must carry the point-at-infinity signature.
    SyncInfinitySignatureRequired,
}

/// Top-level error type returned by the consensus state transition.
#[derive(Debug, Clone, PartialEq, Eq)]
#[non_exhaustive]
pub enum TransitionError {
    /// Slot advancement failed.
    Slot(SlotError),
    /// Per-operation validation failed.
    Operation(OperationError),
    /// Validator or builder registry lookup failed.
    Registry(RegistryError),
    /// BLS signature verification failed.
    Signature(SignatureError),
    /// SSZ merkleization failed while computing a root.
    Merkle(MerkleError),
    /// Block's `state_root` does not match the post-state's tree root.
    StateRootMismatch {
        /// State root claimed by the block.
        got: Root,
        /// State root computed from the post-state.
        want: Root,
    },
    /// A gwei balance increase overflowed `u64`, which makes the transition invalid.
    BalanceOverflow,
    /// Shared arithmetic failed outside a more specific error domain.
    ArithmeticOverflow(TransitionArithmetic),
    /// A bounded consensus list reached its capacity.
    BoundedListFull(BoundedList),
    /// Internal state shape broke a transition invariant.
    Invariant(StateTransitionInvariant),
}

} // verus!
