//! The extended blob matrix: one row per blob, one column per cell, each
//! entry a cell with its proof.
use vstd::prelude::*;

use super::data_availability::MatrixEntry;
use crate::constants::CELLS_PER_EXT_BLOB;
use crate::crypto::kzg::error::KzgError;
use crate::crypto::kzg::proofs::{
    compute_cells_and_kzg_proofs, recover_cells_and_kzg_proofs, spec_compute_outcome, spec_pair_outcome,
    spec_recover_outcome,
};
use crate::crypto::kzg::trusted_setup::EthereumTrustedSetup;
use crate::primitives::{Cell, CellIndex, ColumnIndex, KZGProof, RowIndex};

verus! {

/// The cells of row `b` of a flattened matrix.
pub open spec fn spec_row_cells(matrix: Seq<MatrixEntry>, b: int) -> Seq<Cell> {
    Seq::new(CELLS_PER_EXT_BLOB as nat, |c: int| matrix[CELLS_PER_EXT_BLOB * b + c].cell)
}

/// The proofs of row `b` of a flattened matrix.
pub open spec fn spec_row_proofs(matrix: Seq<MatrixEntry>, b: int) -> Seq<KZGProof> {
    Seq::new(CELLS_PER_EXT_BLOB as nat, |c: int| matrix[CELLS_PER_EXT_BLOB * b + c].kzg_proof)
}

/// A flattened matrix of `rows` rows: entry `k` sits at row `k / 128` and
/// column `k % 128`.
pub open spec fn spec_matrix_layout(matrix: Seq<MatrixEntry>, rows: nat) -> bool {
    &&& matrix.len() == CELLS_PER_EXT_BLOB * rows
    &&& forall|k: int|
        0 <= k < matrix.len() ==> (#[trigger] matrix[k]).row_index.0 == k / (CELLS_PER_EXT_BLOB as int)
            && matrix[k].column_index.0 == k % (CELLS_PER_EXT_BLOB as int)
}

/// Append row `b` of cells and proofs to a flattened matrix.
fn push_row(matrix: &mut Vec<MatrixEntry>, b: u64, cells: &Vec<Cell>, proofs: &Vec<KZGProof>)
    requires
        cells@.len() == CELLS_PER_EXT_BLOB,
        proofs@.len() == CELLS_PER_EXT_BLOB,
        old(matrix)@.len() == CELLS_PER_EXT_BLOB * b,
    ensures
        final(matrix)@.len() == CELLS_PER_EXT_BLOB * (b + 1),
        forall|k: int| 0 <= k < old(matrix)@.len() ==> #[trigger] final(matrix)@[k] == old(matrix)@[k],
        forall|c: int|
            0 <= c < CELLS_PER_EXT_BLOB ==> #[trigger] final(matrix)@[CELLS_PER_EXT_BLOB * b + c] == (MatrixEntry {
                cell: cells@[c],
                kzg_proof: proofs@[c],
                column_index: ColumnIndex(c as u64),
                row_index: RowIndex(b),
            }),
{
    let ghost start = matrix@;
    let mut c: usize = 0;
    while c < CELLS_PER_EXT_BLOB
        invariant
            c <= CELLS_PER_EXT_BLOB,
            cells@.len() == CELLS_PER_EXT_BLOB,
            proofs@.len() == CELLS_PER_EXT_BLOB,
            start.len() == CELLS_PER_EXT_BLOB * b,
            matrix@.len() == start.len() + c,
            forall|k: int| 0 <= k < start.len() ==> #[trigger] matrix@[k] == start[k],
            forall|t: int|
                0 <= t < c ==> #[trigger] matrix@[start.len() + t] == (MatrixEntry {
                    cell: cells@[t],
                    kzg_proof: proofs@[t],
                    column_index: ColumnIndex(t as u64),
                    row_index: RowIndex(b),
                }),
        decreases CELLS_PER_EXT_BLOB - c,
    {
        matrix.push(
            MatrixEntry {
                cell: cells[c],
                kzg_proof: proofs[c],
                column_index: ColumnIndex(c as u64),
                row_index: RowIndex(b),
            },
        );
        c = c + 1;
    }
}

/// The layout holds after appending row `b`.
proof fn lemma_layout_push_row(before: Seq<MatrixEntry>, after: Seq<MatrixEntry>, b: nat)
    requires
        spec_matrix_layout(before, b),
        after.len() == CELLS_PER_EXT_BLOB * (b + 1),
        forall|k: int| 0 <= k < before.len() ==> #[trigger] after[k] == before[k],
        forall|c: int|
            0 <= c < CELLS_PER_EXT_BLOB ==> (#[trigger] after[CELLS_PER_EXT_BLOB * b + c]).row_index.0 == b
                && after[CELLS_PER_EXT_BLOB * b + c].column_index.0 == c,
    ensures
        spec_matrix_layout(after, b + 1),
{
    assert forall|k: int| 0 <= k < after.len() implies (#[trigger] after[k]).row_index.0 == k / (
    CELLS_PER_EXT_BLOB as int) && after[k].column_index.0 == k % (CELLS_PER_EXT_BLOB as int) by {
        if k >= before.len() {
            let c = k - CELLS_PER_EXT_BLOB * b;
            assert(k / 128 == b && k % 128 == c) by (nonlinear_arith)
                requires
                    k == 128 * b + c,
                    0 <= c < 128,
            ;
            assert(after[CELLS_PER_EXT_BLOB * b + c] == after[k]);
        }
    }
}

/// Computing the cells and proofs of `blob` succeeds.
pub open spec fn spec_compute_succeeds(setup_g1: Seq<[u8; 48]>, blob: Seq<u8>) -> bool {
    exists|rs: (Seq<Cell>, Seq<KZGProof>)| #[trigger] spec_compute_outcome(setup_g1, blob, Ok(rs))
}

/// Compute the flattened matrix of cells and proofs of every blob, row by
/// row; the first blob that fails decides the error.
pub fn compute_matrix(setup: &EthereumTrustedSetup, blobs: &[Vec<u8>]) -> (r: Result<Vec<MatrixEntry>, KzgError>)
    ensures
        match r {
            Ok(matrix) => {
                &&& spec_matrix_layout(matrix@, blobs@.len())
                &&& forall|b: int|
                    0 <= b < blobs@.len() ==> spec_compute_outcome(
                        setup.g1_monomial@,
                        (#[trigger] blobs@[b])@,
                        Ok((spec_row_cells(matrix@, b), spec_row_proofs(matrix@, b))),
                    )
            },
            Err(e) => exists|b: int|
                0 <= b < blobs@.len() && spec_compute_outcome(setup.g1_monomial@, (#[trigger] blobs@[b])@, Err(e))
                    && forall|t: int| 0 <= t < b ==> spec_compute_succeeds(setup.g1_monomial@, (#[trigger] blobs@[t])@),
        },
{
    let mut matrix: Vec<MatrixEntry> = Vec::new();
    let mut b: usize = 0;
    while b < blobs.len()
        invariant
            b <= blobs@.len(),
            spec_matrix_layout(matrix@, b as nat),
            forall|t: int|
                0 <= t < b ==> spec_compute_outcome(
                    setup.g1_monomial@,
                    (#[trigger] blobs@[t])@,
                    Ok((spec_row_cells(matrix@, t), spec_row_proofs(matrix@, t))),
                ),
        decreases blobs@.len() - b,
    {
        let r = compute_cells_and_kzg_proofs(setup, blobs[b].as_slice());
        let (cells, proofs) = match r {
            Ok(pair) => pair,
            Err(e) => {
                proof {
                    assert(spec_compute_outcome(setup.g1_monomial@, blobs@[b as int]@, Err(e)));
                    assert forall|t: int| 0 <= t < b implies spec_compute_succeeds(
                        setup.g1_monomial@,
                        (#[trigger] blobs@[t])@,
                    ) by {
                        let rs = (spec_row_cells(matrix@, t), spec_row_proofs(matrix@, t));
                        assert(spec_compute_outcome(setup.g1_monomial@, blobs@[t]@, Ok(rs)));
                    }
                }
                return Err(e);
            },
        };
        proof {
            assert(spec_compute_outcome(setup.g1_monomial@, blobs@[b as int]@, Ok((cells@, proofs@))));
        }
        let ghost before = matrix@;
        push_row(&mut matrix, b as u64, &cells, &proofs);
        proof {
            lemma_layout_push_row(before, matrix@, b as nat);
            assert forall|t: int| 0 <= t < b + 1 implies spec_compute_outcome(
                setup.g1_monomial@,
                (#[trigger] blobs@[t])@,
                Ok((spec_row_cells(matrix@, t), spec_row_proofs(matrix@, t))),
            ) by {
                if t < b {
                    assert forall|c: int| 0 <= c < 128 implies #[trigger] spec_row_cells(matrix@, t)[c]
                        == spec_row_cells(before, t)[c] && spec_row_proofs(matrix@, t)[c] == spec_row_proofs(
                        before,
                        t,
                    )[c] by {
                        assert(128 * t + c < 128 * b) by (nonlinear_arith)
                            requires
                                t < b,
                                0 <= c < 128,
                        ;
                        assert(matrix@[128 * t + c] == before[128 * t + c]);
                    }
                    assert(spec_row_cells(matrix@, t) =~= spec_row_cells(before, t));
                    assert(spec_row_proofs(matrix@, t) =~= spec_row_proofs(before, t));
                } else {
                    assert(spec_row_cells(matrix@, t) =~= cells@);
                    assert(spec_row_proofs(matrix@, t) =~= proofs@);
                }
            }
        }
        b = b + 1;
    }
    Ok(matrix)
}


/// The entries of the first `n` of a partial matrix that lie in row `b`,
/// in order.
pub open spec fn spec_row_filter(partial: Seq<MatrixEntry>, b: u64, n: nat) -> Seq<MatrixEntry>
    decreases n,
{
    if n == 0 {
        Seq::empty()
    } else {
        let prev = spec_row_filter(partial, b, (n - 1) as nat);
        if partial[n - 1].row_index.0 == b {
            prev.push(partial[n - 1])
        } else {
            prev
        }
    }
}

/// The column of the entry at arranged position `k`.
pub open spec fn spec_arranged_key(row: Seq<MatrixEntry>, perm: Seq<int>, k: int) -> u64 {
    row[perm[k]].column_index.0
}

/// `perm` lists every position of `row` once, by ascending column.
pub open spec fn spec_sorted_arrangement(row: Seq<MatrixEntry>, perm: Seq<int>) -> bool {
    &&& perm.len() == row.len()
    &&& forall|k: int| 0 <= k < perm.len() ==> 0 <= #[trigger] perm[k] < row.len()
    &&& forall|k1: int, k2: int| 0 <= k1 < k2 < perm.len() ==> #[trigger] perm[k1] != #[trigger] perm[k2]
    &&& forall|k1: int, k2: int|
        0 <= k1 < k2 < perm.len() ==> #[trigger] spec_arranged_key(row, perm, k1) <= #[trigger] spec_arranged_key(
            row,
            perm,
            k2,
        )
}

/// The cell indices of the arranged entries.
pub open spec fn spec_arranged_indices(row: Seq<MatrixEntry>, perm: Seq<int>) -> Seq<CellIndex> {
    Seq::new(perm.len(), |k: int| CellIndex(row[perm[k]].column_index.0))
}

/// The cells of the arranged entries.
pub open spec fn spec_arranged_cells(row: Seq<MatrixEntry>, perm: Seq<int>) -> Seq<Cell> {
    Seq::new(perm.len(), |k: int| row[perm[k]].cell)
}

/// Positions as integers.
pub open spec fn spec_positions(pos: Seq<usize>) -> Seq<int> {
    pos.map_values(|p: usize| p as int)
}

/// The column of the entry at position `pos[k]`.
pub open spec fn spec_key_at(row: Seq<MatrixEntry>, pos: Seq<usize>, k: int) -> u64 {
    row[pos[k] as int].column_index.0
}

/// The positions of `row` sorted by column, by insertion.
fn sorted_positions(row: &Vec<MatrixEntry>) -> (pos: Vec<usize>)
    ensures
        spec_sorted_arrangement(row@, spec_positions(pos@)),
{
    let n = row.len();
    let mut pos: Vec<usize> = Vec::new();
    while pos.len() < n
        invariant
            pos@.len() <= n,
            n == row@.len(),
            forall|k: int| 0 <= k < pos@.len() ==> #[trigger] pos@[k] == k,
        decreases n - pos@.len(),
    {
        pos.push(pos.len());
    }
    let mut i: usize = 1;
    while i < n
        invariant
            1 <= i,
            i <= n || n == 0,
            n == row@.len(),
            pos@.len() == n,
            forall|k: int| 0 <= k < n ==> #[trigger] pos@[k] < n,
            forall|k1: int, k2: int| 0 <= k1 < k2 < n ==> #[trigger] pos@[k1] != #[trigger] pos@[k2],
            forall|k1: int, k2: int|
                0 <= k1 < k2 < i ==> #[trigger] spec_key_at(row@, pos@, k1) <= #[trigger] spec_key_at(row@, pos@, k2),
        decreases n - i,
    {
        let mut j = i;
        while j > 0 && row[pos[j - 1]].column_index.0 > row[pos[j]].column_index.0
            invariant
                j <= i < n,
                n == row@.len(),
                pos@.len() == n,
                forall|k: int| 0 <= k < n ==> #[trigger] pos@[k] < n,
                forall|k1: int, k2: int| 0 <= k1 < k2 < n ==> #[trigger] pos@[k1] != #[trigger] pos@[k2],
                forall|k1: int, k2: int|
                    0 <= k1 < k2 <= i && k2 != j ==> #[trigger] spec_key_at(row@, pos@, k1) <= #[trigger] spec_key_at(
                        row@,
                        pos@,
                        k2,
                    ),
                forall|k2: int| j < k2 <= i ==> spec_key_at(row@, pos@, j as int) < #[trigger] spec_key_at(row@, pos@, k2),
            decreases j,
        {
            let ghost old_pos = pos@;
            let a = pos[j - 1];
            let b = pos[j];
            pos.set(j - 1, b);
            pos.set(j, a);
            proof {
                assert forall|k: int| 0 <= k < n implies #[trigger] spec_key_at(row@, pos@, k) == if k == j - 1 {
                    spec_key_at(row@, old_pos, j as int)
                } else if k == j {
                    spec_key_at(row@, old_pos, j - 1)
                } else {
                    spec_key_at(row@, old_pos, k)
                } by {}
                assert forall|k1: int, k2: int| 0 <= k1 < k2 < n implies #[trigger] pos@[k1] != #[trigger] pos@[k2] by {
                    let o1 = if k1 == j - 1 { j as int } else if k1 == j { j - 1 } else { k1 };
                    let o2 = if k2 == j - 1 { j as int } else if k2 == j { j - 1 } else { k2 };
                    assert(pos@[k1] == old_pos[o1]);
                    assert(pos@[k2] == old_pos[o2]);
                    if o1 < o2 {
                        assert(old_pos[o1] != old_pos[o2]);
                    } else {
                        assert(old_pos[o2] != old_pos[o1]);
                    }
                }
            }
            j = j - 1;
        }
        proof {
            assert(j == 0 || spec_key_at(row@, pos@, j - 1) <= spec_key_at(row@, pos@, j as int));
            assert forall|k1: int, k2: int| 0 <= k1 < k2 < i + 1 implies #[trigger] spec_key_at(row@, pos@, k1)
                <= #[trigger] spec_key_at(row@, pos@, k2) by {
                if k2 == j {
                    if k1 < j - 1 {
                        assert(spec_key_at(row@, pos@, k1) <= spec_key_at(row@, pos@, j - 1));
                    }
                } else if k1 == j {
                    assert(spec_key_at(row@, pos@, j as int) < spec_key_at(row@, pos@, k2));
                }
            }
        }
        i = i + 1;
    }
    proof {
        let perm = spec_positions(pos@);
        assert forall|k: int| 0 <= k < perm.len() implies 0 <= #[trigger] perm[k] < row@.len() by {
            assert(pos@[k] < n);
        }
        assert forall|k1: int, k2: int| 0 <= k1 < k2 < perm.len() implies #[trigger] perm[k1] != #[trigger] perm[k2] by {
            assert(pos@[k1] != pos@[k2]);
        }
        assert forall|k1: int, k2: int| 0 <= k1 < k2 < perm.len() implies #[trigger] spec_arranged_key(row@, perm, k1)
            <= #[trigger] spec_arranged_key(row@, perm, k2) by {
            assert(spec_key_at(row@, pos@, k1) <= spec_key_at(row@, pos@, k2));
        }
    }
    pos
}


/// What recovering row `b` of a partial matrix gives, for some arrangement
/// of its entries by ascending column.
pub open spec fn spec_row_recovery(
    setup_g1: Seq<[u8; 48]>,
    partial: Seq<MatrixEntry>,
    b: u64,
    r: Result<(Seq<Cell>, Seq<KZGProof>), KzgError>,
) -> bool {
    exists|perm: Seq<int>|
        #[trigger] spec_sorted_arrangement(spec_row_filter(partial, b, partial.len()), perm) && spec_recover_outcome(
            setup_g1,
            spec_arranged_indices(spec_row_filter(partial, b, partial.len()), perm),
            spec_arranged_cells(spec_row_filter(partial, b, partial.len()), perm),
            r,
        )
}

/// Recovering row `b` succeeds for some arrangement of its entries.
pub open spec fn spec_row_recovers(setup_g1: Seq<[u8; 48]>, partial: Seq<MatrixEntry>, b: u64) -> bool {
    exists|rs: (Seq<Cell>, Seq<KZGProof>)| #[trigger] spec_row_recovery(setup_g1, partial, b, Ok(rs))
}

/// Recover a full flattened matrix from partial entries: each row from the
/// entries that lie in it, taken by ascending column; the first row that
/// fails decides the error.
pub fn recover_matrix(setup: &EthereumTrustedSetup, partial_matrix: &[MatrixEntry], blob_count: u64) -> (r: Result<
    Vec<MatrixEntry>,
    KzgError,
>)
    ensures
        match r {
            Ok(matrix) => {
                &&& spec_matrix_layout(matrix@, blob_count as nat)
                &&& forall|b: int|
                    0 <= b < blob_count ==> #[trigger] spec_row_recovery(
                        setup.g1_monomial@,
                        partial_matrix@,
                        b as u64,
                        Ok((spec_row_cells(matrix@, b), spec_row_proofs(matrix@, b))),
                    )
            },
            Err(e) => exists|b: u64|
                b < blob_count && #[trigger] spec_row_recovery(setup.g1_monomial@, partial_matrix@, b, Err(e))
                    && forall|t: u64| t < b ==> spec_row_recovers(setup.g1_monomial@, partial_matrix@, t),
        },
{
    let mut matrix: Vec<MatrixEntry> = Vec::new();
    let mut b: u64 = 0;
    while b < blob_count
        invariant
            b <= blob_count,
            spec_matrix_layout(matrix@, b as nat),
            forall|t: int|
                0 <= t < b ==> #[trigger] spec_row_recovery(
                    setup.g1_monomial@,
                    partial_matrix@,
                    t as u64,
                    Ok((spec_row_cells(matrix@, t), spec_row_proofs(matrix@, t))),
                ),
        decreases blob_count - b,
    {
        let mut row_entries: Vec<MatrixEntry> = Vec::new();
        let mut t: usize = 0;
        while t < partial_matrix.len()
            invariant
                t <= partial_matrix@.len(),
                row_entries@ == spec_row_filter(partial_matrix@, b, t as nat),
            decreases partial_matrix@.len() - t,
        {
            if partial_matrix[t].row_index.0 == b {
                row_entries.push(partial_matrix[t]);
            }
            t = t + 1;
        }
        let ghost row = row_entries@;
        let pos = sorted_positions(&row_entries);
        let ghost perm = spec_positions(pos@);
        let mut cell_indices: Vec<CellIndex> = Vec::new();
        let mut cells: Vec<Cell> = Vec::new();
        let mut k: usize = 0;
        while k < pos.len()
            invariant
                k <= pos@.len(),
                row == row_entries@,
                spec_sorted_arrangement(row, perm),
                perm == spec_positions(pos@),
                cell_indices@.len() == k,
                cells@.len() == k,
                forall|u: int| 0 <= u < k ==> #[trigger] cell_indices@[u] == CellIndex(row[perm[u]].column_index.0),
                forall|u: int| 0 <= u < k ==> #[trigger] cells@[u] == row[perm[u]].cell,
            decreases pos@.len() - k,
        {
            proof {
                assert(perm[k as int] == pos@[k as int] as int);
            }
            let entry = row_entries[pos[k]];
            cell_indices.push(CellIndex(entry.column_index.0));
            cells.push(entry.cell);
            k = k + 1;
        }
        proof {
            assert(cell_indices@ =~= spec_arranged_indices(row, perm));
            assert(cells@ =~= spec_arranged_cells(row, perm));
        }
        let (recovered_cells, recovered_proofs) = match recover_cells_and_kzg_proofs(setup, cell_indices, cells) {
            Ok(pair) => pair,
            Err(e) => {
                proof {
                    assert(spec_row_recovery(setup.g1_monomial@, partial_matrix@, b, Err(e)));
                    assert forall|t: u64| t < b implies spec_row_recovers(setup.g1_monomial@, partial_matrix@, t) by {
                        let rs = (spec_row_cells(matrix@, t as int), spec_row_proofs(matrix@, t as int));
                        assert(spec_row_recovery(setup.g1_monomial@, partial_matrix@, (t as int) as u64, Ok(rs)));
                    }
                }
                return Err(e);
            },
        };
        proof {
            assert(spec_row_recovery(
                setup.g1_monomial@,
                partial_matrix@,
                b,
                Ok((recovered_cells@, recovered_proofs@)),
            ));
        }
        let ghost before = matrix@;
        push_row(&mut matrix, b, &recovered_cells, &recovered_proofs);
        proof {
            lemma_layout_push_row(before, matrix@, b as nat);
            assert forall|t: int| 0 <= t < b + 1 implies #[trigger] spec_row_recovery(
                setup.g1_monomial@,
                partial_matrix@,
                t as u64,
                Ok((spec_row_cells(matrix@, t), spec_row_proofs(matrix@, t))),
            ) by {
                if t < b {
                    assert forall|c: int| 0 <= c < 128 implies #[trigger] spec_row_cells(matrix@, t)[c]
                        == spec_row_cells(before, t)[c] && spec_row_proofs(matrix@, t)[c] == spec_row_proofs(
                        before,
                        t,
                    )[c] by {
                        assert(128 * t + c < 128 * b) by (nonlinear_arith)
                            requires
                                t < b,
                                0 <= c < 128,
                        ;
                        assert(matrix@[128 * t + c] == before[128 * t + c]);
                    }
                    assert(spec_row_cells(matrix@, t) =~= spec_row_cells(before, t));
                    assert(spec_row_proofs(matrix@, t) =~= spec_row_proofs(before, t));
                } else {
                    assert(spec_row_cells(matrix@, t) =~= recovered_cells@);
                    assert(spec_row_proofs(matrix@, t) =~= recovered_proofs@);
                }
            }
        }
        b = b + 1;
    }
    Ok(matrix)
}

} // verus!
