//! Checking the cell proofs a data-column sidecar carries against the
//! block's blob commitments.
use vstd::prelude::*;

use super::data_availability::{
    spec_count_ones, verify_partial_data_column_sidecar, DataColumnSidecar, PartialDataColumnSidecar,
};
use crate::constants::{MAX_BLOB_COMMITMENTS_PER_BLOCK, NUMBER_OF_COLUMNS};
use crate::crypto::kzg::batch::{spec_batch_outcome, verify_cell_kzg_proof_batch};
use crate::crypto::kzg::error::KzgError;
use crate::crypto::kzg::trusted_setup::EthereumTrustedSetup;
use crate::primitives::{CellIndex, ColumnIndex, KZGCommitment};
use crate::ssz::List;

verus! {

/// `n` copies of cell index `index`.
pub open spec fn spec_repeated_index(index: u64, n: nat) -> Seq<CellIndex> {
    Seq::new(n, |k: int| CellIndex(index))
}

/// `n` copies of a cell index.
fn repeated_index(index: u64, n: usize) -> (r: Vec<CellIndex>)
    ensures
        r@ == spec_repeated_index(index, n as nat),
{
    let mut out: Vec<CellIndex> = Vec::new();
    while out.len() < n
        invariant
            out@.len() <= n,
            forall|k: int| 0 <= k < out@.len() ==> #[trigger] out@[k] == CellIndex(index),
        decreases n - out@.len(),
    {
        out.push(CellIndex(index));
    }
    assert(out@ =~= spec_repeated_index(index, n as nat));
    out
}

/// Verify the cell proofs of a data column sidecar: each cell of the
/// column, at the sidecar's column index, against the matching commitment.
pub fn verify_data_column_sidecar_kzg_proofs(
    sidecar: &DataColumnSidecar,
    kzg_commitments: &List<KZGCommitment, MAX_BLOB_COMMITMENTS_PER_BLOCK>,
    setup: &EthereumTrustedSetup,
) -> (r: Result<bool, KzgError>)
    ensures
        spec_batch_outcome(
            *setup,
            kzg_commitments@,
            spec_repeated_index(sidecar.index.0, sidecar.column@.len()),
            sidecar.column@,
            sidecar.kzg_proofs@,
            r,
        ),
{
    let cell_indices = repeated_index(sidecar.index.0, sidecar.column.len());
    verify_cell_kzg_proof_batch(
        setup,
        kzg_commitments.as_slice(),
        cell_indices.as_slice(),
        sidecar.column.as_slice(),
        sidecar.kzg_proofs.as_slice(),
    )
}

/// The commitments among the first `n` whose bit is set, in order.
pub open spec fn spec_present_commitments(commitments: Seq<KZGCommitment>, bits: Seq<bool>, n: nat) -> Seq<
    KZGCommitment,
>
    decreases n,
{
    if n == 0 {
        Seq::empty()
    } else {
        let prev = spec_present_commitments(commitments, bits, (n - 1) as nat);
        if bits[n - 1] {
            prev.push(commitments[n - 1])
        } else {
            prev
        }
    }
}

/// Verify the cell proofs of a partial data column sidecar: `Ok(false)`
/// for a column index out of range or a malformed sidecar, else each present
/// cell, at the column index, against the commitment of its row.
pub fn verify_partial_data_column_sidecar_kzg_proofs(
    sidecar: &PartialDataColumnSidecar,
    kzg_commitments: &List<KZGCommitment, MAX_BLOB_COMMITMENTS_PER_BLOCK>,
    column_index: ColumnIndex,
    setup: &EthereumTrustedSetup,
) -> (r: Result<bool, KzgError>)
    ensures
        ({
            let shape_ok = sidecar.cells_present_bitmap@.len() == kzg_commitments@.len() && spec_count_ones(
                sidecar.cells_present_bitmap@,
            ) > 0 && sidecar.partial_column@.len() == sidecar.kzg_proofs@.len() && sidecar.partial_column@.len()
                == spec_count_ones(sidecar.cells_present_bitmap@);
            if column_index.0 >= NUMBER_OF_COLUMNS || !shape_ok {
                r == Ok::<bool, KzgError>(false)
            } else {
                let commitments = spec_present_commitments(
                    kzg_commitments@,
                    sidecar.cells_present_bitmap@,
                    kzg_commitments@.len(),
                );
                spec_batch_outcome(
                    *setup,
                    commitments,
                    spec_repeated_index(column_index.0, commitments.len()),
                    sidecar.partial_column@,
                    sidecar.kzg_proofs@,
                    r,
                )
            }
        }),
{
    if column_index.0 >= NUMBER_OF_COLUMNS {
        return Ok(false);
    }
    if !verify_partial_data_column_sidecar(sidecar, kzg_commitments) {
        return Ok(false);
    }
    let mut commitments: Vec<KZGCommitment> = Vec::new();
    let mut k: usize = 0;
    while k < kzg_commitments.len()
        invariant
            k <= kzg_commitments@.len(),
            sidecar.cells_present_bitmap@.len() == kzg_commitments@.len(),
            commitments@ == spec_present_commitments(kzg_commitments@, sidecar.cells_present_bitmap@, k as nat),
        decreases kzg_commitments@.len() - k,
    {
        let present = match sidecar.cells_present_bitmap.get(k) {
            Some(bit) => bit,
            None => false,
        };
        if present {
            let commitment = match kzg_commitments.get(k) {
                Some(c) => *c,
                None => {
                    proof {
                        assert(false);
                    }
                    return Ok(false);
                },
            };
            commitments.push(commitment);
        }
        k = k + 1;
    }
    let cell_indices = repeated_index(column_index.0, commitments.len());
    verify_cell_kzg_proof_batch(
        setup,
        commitments.as_slice(),
        cell_indices.as_slice(),
        sidecar.partial_column.as_slice(),
        sidecar.kzg_proofs.as_slice(),
    )
}

} // verus!
