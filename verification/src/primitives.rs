//! Typed primitives: numeric newtypes and fixed-size byte newtypes.
use vstd::prelude::*;

pub mod byte_arrays;
pub mod codec;
pub mod numeric;
pub mod numeric_ssz;

pub use byte_arrays::{
    BLSPubkey, BLSSignature, Cell, Domain, DomainType, ExecutionAddress, ForkDigest, Hash32,
    KZGCommitment, KZGProof, NodeId, Root, Uint256, Version, VersionedHash,
};
pub use numeric::{
    BuilderIndex, CellIndex, ColumnIndex, CommitmentIndex, CommitteeIndex, CustodyIndex, Epoch,
    Gwei, ParticipationFlags, RowIndex, Slot, SubnetId, ValidatorIndex, WithdrawalIndex,
};

verus! {

} // verus!
