//! Delivered execution payloads: the execution-engine verdict on an
//! envelope, and the check that a block's column sidecars are complete.
use vstd::prelude::*;

use crate::constants::NUMBER_OF_COLUMNS;
use crate::constants::MAX_BLOB_COMMITMENTS_PER_BLOCK;
use crate::containers::data_availability::{verify_data_column_sidecar, DataColumnSidecar};
use crate::containers::sidecar_proofs::{spec_repeated_index, verify_data_column_sidecar_kzg_proofs};
use crate::crypto::kzg::batch::spec_batch_outcome;
use crate::crypto::kzg::error::KzgError;
use crate::crypto::kzg::trusted_setup::EthereumTrustedSetup;
use crate::primitives::{KZGCommitment, Slot};
use crate::ssz::List;
use crate::containers::execution::SignedExecutionPayloadEnvelope;
use crate::error::ForkChoiceError;
use crate::primitives::Root;

use super::store::Store;

verus! {

/// The execution engine's verdict on a payload.
#[derive(Debug, Clone, Copy, PartialEq, Eq, Structural)]
pub enum ExecutionPayloadValidity {
    /// The engine accepted the payload.
    Valid,
    /// The engine rejected the payload.
    Invalid,
}

/// The execution engine as fork choice sees it: it judges a delivered
/// payload envelope. What an engine answers depends on the engine, so
/// nothing is promised of the verdict here.
pub trait ExecutionPayloadVerifier {
    /// Ask the engine to verify the envelope's payload and record it.
    fn verify_and_notify_new_payload(&self, signed_envelope: &SignedExecutionPayloadEnvelope) -> (r:
        ExecutionPayloadValidity);
}

/// A verifier that accepts every payload, for running fork choice without
/// an execution engine.
#[derive(Debug, Default, Clone, Copy, PartialEq, Eq)]
pub struct AcceptAllExecutionPayloadVerifier;

impl ExecutionPayloadVerifier for AcceptAllExecutionPayloadVerifier {
    fn verify_and_notify_new_payload(&self, signed_envelope: &SignedExecutionPayloadEnvelope) -> (r:
        ExecutionPayloadValidity)
        ensures
            r == ExecutionPayloadValidity::Valid,
    {
        ExecutionPayloadValidity::Valid
    }
}

/// What becomes of an envelope for the block `beacon_block_root` once the
/// engine has judged its payload: refused when invalid.
pub open spec fn spec_execution_outcome(beacon_block_root: Root, verdict: ExecutionPayloadValidity) -> Result<
    (),
    ForkChoiceError,
> {
    match verdict {
        ExecutionPayloadValidity::Invalid => Err(ForkChoiceError::PayloadExecutionInvalid(beacon_block_root)),
        ExecutionPayloadValidity::Valid => Ok(()),
    }
}

/// Refuse the envelope for `beacon_block_root` when the engine's `verdict`
/// says its payload is invalid.
pub fn execution_verdict_outcome(beacon_block_root: Root, verdict: ExecutionPayloadValidity) -> (r: Result<
    (),
    ForkChoiceError,
>)
    ensures
        r == spec_execution_outcome(beacon_block_root, verdict),
{
    match verdict {
        ExecutionPayloadValidity::Invalid => Err(ForkChoiceError::PayloadExecutionInvalid(beacon_block_root)),
        ExecutionPayloadValidity::Valid => Ok(()),
    }
}

impl Store {
    /// Reject the envelope when the execution engine judges its payload
    /// invalid: the result is the outcome of whatever verdict the engine gave.
    pub fn verify_execution_payload_envelope_execution<V: ExecutionPayloadVerifier>(
        &self,
        signed_envelope: &SignedExecutionPayloadEnvelope,
        verifier: &V,
    ) -> (r: Result<(), ForkChoiceError>)
        ensures
            exists|verdict: ExecutionPayloadValidity|
                r == spec_execution_outcome(signed_envelope.message.beacon_block_root, verdict),
    {
        let verdict = verifier.verify_and_notify_new_payload(signed_envelope);
        execution_verdict_outcome(signed_envelope.message.beacon_block_root, verdict)
    }
}


/// What checking a column sidecar against the block's commitments gives,
/// when verifying its cell proofs gives `proofs`: its shape is checked
/// first, then its proofs.
pub open spec fn spec_sidecar_check(
    sidecar: DataColumnSidecar,
    kzg_commitments: Seq<KZGCommitment>,
    proofs: Result<bool, KzgError>,
) -> Result<(), ForkChoiceError> {
    let block = sidecar.beacon_block_root;
    let column = sidecar.index;
    if !spec_sidecar_shape_ok(sidecar, kzg_commitments) {
        Err(ForkChoiceError::DataColumnSidecarInvalid { block, column })
    } else {
        match proofs {
            Ok(true) => Ok(()),
            Ok(false) => Err(ForkChoiceError::DataColumnSidecarProofInvalid { block, column }),
            Err(source) => Err(ForkChoiceError::DataColumnSidecarProofError { block, column, source }),
        }
    }
}

/// The sidecar names a column in range and carries one cell and one proof
/// per commitment, with at least one commitment.
pub open spec fn spec_sidecar_shape_ok(sidecar: DataColumnSidecar, kzg_commitments: Seq<KZGCommitment>) -> bool {
    &&& sidecar.index.0 < NUMBER_OF_COLUMNS
    &&& sidecar.column@.len() > 0
    &&& sidecar.column@.len() == kzg_commitments.len()
    &&& sidecar.column@.len() == sidecar.kzg_proofs@.len()
}

/// What verifying the sidecar's cell proofs may give.
pub open spec fn spec_sidecar_proofs(
    setup: EthereumTrustedSetup,
    sidecar: DataColumnSidecar,
    kzg_commitments: Seq<KZGCommitment>,
    proofs: Result<bool, KzgError>,
) -> bool {
    spec_batch_outcome(
        setup,
        kzg_commitments,
        spec_repeated_index(sidecar.index.0, sidecar.column@.len()),
        sidecar.column@,
        sidecar.kzg_proofs@,
        proofs,
    )
}

/// Check a column sidecar against the block's commitments: its shape, then
/// its cell proofs.
pub fn validate_data_column_sidecar(
    sidecar: &DataColumnSidecar,
    kzg_commitments: &List<KZGCommitment, MAX_BLOB_COMMITMENTS_PER_BLOCK>,
    setup: &EthereumTrustedSetup,
) -> (r: Result<(), ForkChoiceError>)
    ensures
        !spec_sidecar_shape_ok(*sidecar, kzg_commitments@) ==> r == Err::<(), ForkChoiceError>(
            ForkChoiceError::DataColumnSidecarInvalid { block: sidecar.beacon_block_root, column: sidecar.index },
        ),
        spec_sidecar_shape_ok(*sidecar, kzg_commitments@) ==> exists|proofs: Result<bool, KzgError>|
            #[trigger] spec_sidecar_proofs(*setup, *sidecar, kzg_commitments@, proofs) && r == spec_sidecar_check(
                *sidecar,
                kzg_commitments@,
                proofs,
            ),
{
    let block = sidecar.beacon_block_root;
    let column = sidecar.index;
    if !verify_data_column_sidecar(sidecar, kzg_commitments) {
        return Err(ForkChoiceError::DataColumnSidecarInvalid { block, column });
    }
    let proofs = verify_data_column_sidecar_kzg_proofs(sidecar, kzg_commitments, setup);
    proof {
        assert(spec_sidecar_proofs(*setup, *sidecar, kzg_commitments@, proofs));
    }
    match proofs {
        Ok(true) => Ok(()),
        Ok(false) => Err(ForkChoiceError::DataColumnSidecarProofInvalid { block, column }),
        Err(source) => Err(ForkChoiceError::DataColumnSidecarProofError { block, column, source }),
    }
}

/// The sidecar belongs to the block `(root, slot)`, has the right shape and
/// its cell proofs verify.
pub open spec fn spec_sidecar_available(
    setup: EthereumTrustedSetup,
    sidecar: DataColumnSidecar,
    root: Root,
    slot: Slot,
    kzg_commitments: Seq<KZGCommitment>,
) -> bool {
    &&& sidecar.beacon_block_root == root
    &&& sidecar.slot == slot
    &&& spec_sidecar_shape_ok(sidecar, kzg_commitments)
    &&& spec_sidecar_proofs(setup, sidecar, kzg_commitments, Ok(true))
}

/// Whether the payload data of the block at `root` is available: the block
/// is known and either commits to no blobs, or every column has a sidecar
/// recorded for it that belongs to the block and whose proofs verify.
pub open spec fn spec_data_available(store: Store, root: Root, setup: EthereumTrustedSetup) -> bool {
    &&& store.blocks@.contains_key(root)
    &&& {
        let block = store.blocks@[root];
        let commitments = block.body.signed_execution_payload_bid.message.blob_kzg_commitments@;
        ||| commitments.len() == 0
        ||| {
            &&& store.data_column_sidecars@.contains_key(root)
            &&& spec_complete_column_set(store.data_column_sidecars@[root]@)
            &&& forall|i: int|
                0 <= i < store.data_column_sidecars@[root]@.len() ==> spec_sidecar_available(
                    setup,
                    #[trigger] store.data_column_sidecars@[root]@[i],
                    root,
                    block.slot,
                    commitments,
                )
        }
    }
}

/// A verification outcome of `Ok(true)` rules out every other outcome.
proof fn lemma_proofs_ok_unique(
    setup: EthereumTrustedSetup,
    sidecar: DataColumnSidecar,
    kzg_commitments: Seq<KZGCommitment>,
    proofs: Result<bool, KzgError>,
)
    requires
        spec_sidecar_proofs(setup, sidecar, kzg_commitments, proofs),
        spec_sidecar_proofs(setup, sidecar, kzg_commitments, Ok(true)),
    ensures
        proofs == Ok::<bool, KzgError>(true),
{
}

impl Store {
    /// Whether the block's payload data is available under `setup`.
    #[verifier::loop_isolation(false)]
    pub fn is_data_available_with_setup(&self, beacon_block_root: Root, setup: &EthereumTrustedSetup) -> (r: bool)
        requires
            self.maps_wf(),
        ensures
            r == spec_data_available(*self, beacon_block_root, *setup),
    {
        let block = match self.blocks.get(&beacon_block_root) {
            Some(b) => b,
            None => return false,
        };
        let kzg_commitments = &block.body.signed_execution_payload_bid.message.blob_kzg_commitments;
        if kzg_commitments.len() == 0 {
            return true;
        }
        let column_sidecars = match self.data_column_sidecars.get(&beacon_block_root) {
            Some(v) => v,
            None => return false,
        };
        if !has_complete_column_set(column_sidecars.as_slice()) {
            return false;
        }
        let n = column_sidecars.len();
        let mut i: usize = 0;
        while i < n
            invariant
                i <= n,
                n == column_sidecars@.len(),
                forall|j: int|
                    0 <= j < i ==> spec_sidecar_available(
                        *setup,
                        #[trigger] column_sidecars@[j],
                        beacon_block_root,
                        block.slot,
                        kzg_commitments@,
                    ),
            decreases n - i,
        {
            let sidecar = &column_sidecars[i];
            if !sidecar.beacon_block_root.equals(&beacon_block_root) || sidecar.slot.0 != block.slot.0 {
                proof {
                    crate::primitives::byte_arrays::lemma_root_eq(sidecar.beacon_block_root, beacon_block_root);
                    assert(!spec_sidecar_available(*setup, column_sidecars@[i as int], beacon_block_root, block.slot, kzg_commitments@));
                }
                return false;
            }
            if !verify_data_column_sidecar(sidecar, kzg_commitments) {
                return false;
            }
            let proofs = verify_data_column_sidecar_kzg_proofs(sidecar, kzg_commitments, setup);
            match proofs {
                Ok(true) => {},
                _ => {
                    proof {
                        if spec_sidecar_proofs(*setup, *sidecar, kzg_commitments@, Ok(true)) {
                            lemma_proofs_ok_unique(*setup, *sidecar, kzg_commitments@, proofs);
                        }
                    }
                    return false;
                },
            }
            proof {
                crate::primitives::byte_arrays::lemma_root_eq(sidecar.beacon_block_root, beacon_block_root);
            }
            i = i + 1;
        }
        true
    }
}

/// Every column index appears exactly once among the sidecars.
pub open spec fn spec_complete_column_set(sidecars: Seq<DataColumnSidecar>) -> bool {
    &&& sidecars.len() == NUMBER_OF_COLUMNS
    &&& forall|i: int| 0 <= i < sidecars.len() ==> (#[trigger] sidecars[i]).index.0 < NUMBER_OF_COLUMNS
    &&& forall|i: int, j: int|
        0 <= i < j < sidecars.len() ==> (#[trigger] sidecars[i]).index.0 != (#[trigger] sidecars[j]).index.0
}

/// Return whether the sidecars contain every column index exactly once.
pub fn has_complete_column_set(sidecars: &[DataColumnSidecar]) -> (r: bool)
    ensures
        r == spec_complete_column_set(sidecars@),
{
    if sidecars.len() as u64 != NUMBER_OF_COLUMNS {
        return false;
    }
    let mut seen: Vec<bool> = Vec::new();
    let mut k: usize = 0;
    while k < NUMBER_OF_COLUMNS as usize
        invariant
            k <= NUMBER_OF_COLUMNS,
            seen@.len() == k,
            forall|t: int| 0 <= t < k ==> !#[trigger] seen@[t],
        decreases NUMBER_OF_COLUMNS - k,
    {
        seen.push(false);
        k = k + 1;
    }
    let n = sidecars.len();
    let mut i: usize = 0;
    while i < n
        invariant
            n == sidecars@.len(),
            n == NUMBER_OF_COLUMNS,
            i <= n,
            seen@.len() == NUMBER_OF_COLUMNS,
            forall|a: int| 0 <= a < i ==> (#[trigger] sidecars@[a]).index.0 < NUMBER_OF_COLUMNS,
            forall|a: int, b: int|
                0 <= a < b < i ==> (#[trigger] sidecars@[a]).index.0 != (#[trigger] sidecars@[b]).index.0,
            forall|t: int|
                0 <= t < NUMBER_OF_COLUMNS ==> (#[trigger] seen@[t] <==> exists|a: int|
                    0 <= a < i && (#[trigger] sidecars@[a]).index.0 == t),
        decreases n - i,
    {
        let index = sidecars[i].index.0;
        if index >= NUMBER_OF_COLUMNS || seen[index as usize] {
            proof {
                if index < NUMBER_OF_COLUMNS {
                    let a = choose|a: int| 0 <= a < i && (#[trigger] sidecars@[a]).index.0 == index;
                    assert(sidecars@[a].index.0 == sidecars@[i as int].index.0);
                }
            }
            return false;
        }
        proof {
            assert forall|a: int| 0 <= a < i implies (#[trigger] sidecars@[a]).index.0 != index by {
                if sidecars@[a].index.0 == index {
                    assert(seen@[index as int]);
                }
            }
        }
        seen.set(index as usize, true);
        proof {
            assert forall|t: int| 0 <= t < NUMBER_OF_COLUMNS implies (#[trigger] seen@[t] <==> exists|a: int|
                0 <= a < i + 1 && (#[trigger] sidecars@[a]).index.0 == t) by {
                if t == index {
                    assert(sidecars@[i as int].index.0 == t);
                }
            }
            assert forall|a: int, b: int| 0 <= a < b < i + 1 implies (#[trigger] sidecars@[a]).index.0 != (
            #[trigger] sidecars@[b]).index.0 by {
                if b == i {
                    assert(sidecars@[a].index.0 != index);
                }
            }
        }
        i = i + 1;
    }
    true
}

} // verus!
