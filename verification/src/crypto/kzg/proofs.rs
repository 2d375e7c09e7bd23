//! Cell proofs: each cell's KZG multi-proof is the commitment, over the
//! setup's G1 powers, to the quotient of the blob polynomial by the
//! polynomial vanishing on the cell's coset.
use ark_bls12_381::{Fr, G1Affine, G1Projective};
use ark_ec::{CurveGroup, VariableBaseMSM};
use ark_ff::BigInt;
use ark_serialize::{CanonicalDeserialize, CanonicalSerialize};
use vstd::prelude::*;

use super::cells::{
    coset_from_table, ext_roots_of_unity_brp, polynomial_eval_to_coeff, spec_blob_evals, spec_cells_of,
    spec_eval_to_coeff, spec_ext_roots_brp,
};
use super::error::KzgError;
use super::field::{
    blob_to_polynomial, bls_modulus, cell_to_coset_evals, coset_evals_to_cell, spec_all_wf, spec_chunk_value,
    spec_chunks_canonical, spec_field_values, BLSFieldElement,
};
use super::polynomial::{
    divide_polynomialcoeff, evaluate_polynomialcoeff, lemma_vanishing_monic, spec_divides_with_remainder, spec_poly_eval,
    spec_vanishing, vanishing_polynomialcoeff,
};
use super::cells::{spec_recovery_scan, spec_validate_recovery_inputs, validate_recovery_inputs};
use super::recovery::{
    recover_polynomialcoeff, spec_missing_cells, spec_recovered, spec_recovery_pairs_error, spec_zero_over_coset,
};
use super::trusted_setup::{spec_points48, EthereumTrustedSetup};
use crate::constants::{BYTES_PER_BLOB, CELLS_PER_EXT_BLOB, FIELD_ELEMENTS_PER_BLOB, FIELD_ELEMENTS_PER_CELL};
use crate::constants::FIELD_ELEMENTS_PER_EXT_BLOB;
use crate::primitives::{Cell, CellIndex, KZGProof};

verus! {

/// The compressed multi-scalar multiplication of compressed G1 points by
/// scalars, when every point decodes.
pub uninterp spec fn spec_g1_msm(points: Seq<Seq<u8>>, scalars: Seq<nat>) -> Option<Seq<u8>>;

/// `G1Projective::msm_unchecked` on the decoded points
/// (`G1Affine::deserialize_compressed`), serialized compressed; `None` where
/// a point does not decode. The contract claims that the result depends on
/// the encodings and the scalars alone.
#[verifier::external_body]
pub(crate) fn g1_msm(points: &[[u8; 48]], scalars: &[BLSFieldElement]) -> (r: Option<[u8; 48]>)
    requires
        points@.len() == scalars@.len(),
    ensures
        match r {
            Some(x) => spec_g1_msm(spec_points48(points@), spec_field_values(scalars@)) == Some(x@),
            None => spec_g1_msm(spec_points48(points@), spec_field_values(scalars@)) is None,
        },
{
    let mut affine = Vec::with_capacity(points.len());
    for point in points {
        affine.push(G1Affine::deserialize_compressed(&point[..]).ok()?);
    }
    let mut field_scalars = Vec::with_capacity(scalars.len());
    for scalar in scalars {
        field_scalars.push(Fr::new(BigInt::new(scalar.limbs)));
    }
    let mut out = [0u8; 48];
    G1Projective::msm_unchecked(&affine, &field_scalars).into_affine().serialize_compressed(&mut out[..]).ok()?;
    Some(out)
}

/// Linearly combine the first setup G1 powers with scalar weights: the
/// commitment to the polynomial with those coefficients.
pub fn setup_g1_lincomb(setup_g1_powers: &[[u8; 48]], scalars: &[BLSFieldElement]) -> (r: Result<
    [u8; 48],
    KzgError,
>)
    ensures
        match r {
            Ok(point) => scalars@.len() <= setup_g1_powers@.len() && spec_g1_msm(
                spec_points48(setup_g1_powers@.subrange(0, scalars@.len() as int)),
                spec_field_values(scalars@),
            ) == Some(point@),
            Err(e) => if scalars@.len() > setup_g1_powers@.len() {
                e == (KzgError::PolynomialTooLarge {
                    coefficients: scalars@.len() as usize,
                    setup_powers: setup_g1_powers@.len() as usize,
                })
            } else {
                e == KzgError::InvalidG1 && spec_g1_msm(
                    spec_points48(setup_g1_powers@.subrange(0, scalars@.len() as int)),
                    spec_field_values(scalars@),
                ) is None
            },
        },
{
    if setup_g1_powers.len() < scalars.len() {
        return Err(
            KzgError::PolynomialTooLarge { coefficients: scalars.len(), setup_powers: setup_g1_powers.len() },
        );
    }
    let mut prefix: Vec<[u8; 48]> = Vec::new();
    let mut i: usize = 0;
    while i < scalars.len()
        invariant
            i <= scalars@.len() <= setup_g1_powers@.len(),
            prefix@ == setup_g1_powers@.subrange(0, i as int),
        decreases scalars@.len() - i,
    {
        prefix.push(setup_g1_powers[i]);
        proof {
            assert(prefix@ =~= setup_g1_powers@.subrange(0, i + 1));
        }
        i = i + 1;
    }
    match g1_msm(prefix.as_slice(), scalars) {
        Some(point) => Ok(point),
        None => Err(KzgError::InvalidG1),
    }
}

/// Every combination of the first `k` setup G1 powers is a point: the
/// setup holds `k` powers and the multi-scalar multiplication of any `k`
/// scalars over them gives some point.
pub open spec fn spec_setup_prefix_msm_ok(setup_g1: Seq<[u8; 48]>, k: nat) -> bool {
    &&& k <= setup_g1.len()
    &&& forall|scalars: Seq<nat>|
        scalars.len() == k ==> (#[trigger] spec_g1_msm(spec_points48(setup_g1.subrange(0, k as int)), scalars)) is Some
}

/// How many coefficients the quotient of a polynomial with `a`
/// coefficients by the polynomial vanishing on `z` points has.
pub open spec fn spec_quotient_len(a: nat, z: nat) -> nat {
    if a < z + 1 {
        0
    } else {
        (a - z) as nat
    }
}

/// The error committing to a quotient with `qlen` coefficients fails with:
/// too few setup powers, else a combination of them that is no point.
pub open spec fn spec_commit_error(setup_g1: Seq<[u8; 48]>, qlen: nat, e: KzgError) -> bool {
    if qlen > setup_g1.len() {
        e == (KzgError::PolynomialTooLarge { coefficients: qlen as usize, setup_powers: setup_g1.len() as usize })
    } else {
        e == KzgError::InvalidG1 && !spec_setup_prefix_msm_ok(setup_g1, qlen)
    }
}

/// The proof for the points `zs`: the commitment to a quotient of the
/// polynomial by the one vanishing on `zs`.
pub open spec fn spec_multi_proof(setup_g1: Seq<[u8; 48]>, coeffs: Seq<nat>, zs: Seq<nat>, proof: Seq<u8>) -> bool {
    exists|q: Seq<nat>, rem: Seq<nat>|
        #![trigger spec_divides_with_remainder(coeffs, spec_vanishing(zs), q, rem)]
        spec_divides_with_remainder(coeffs, spec_vanishing(zs), q, rem) && q.len() <= setup_g1.len() && spec_g1_msm(
            spec_points48(setup_g1.subrange(0, q.len() as int)),
            q,
        ) == Some(proof)
}

/// Compute a KZG multi-proof and the evaluations for one coset.
pub fn compute_kzg_proof_multi_impl(
    setup: &EthereumTrustedSetup,
    polynomial_coeff: &[BLSFieldElement],
    zs: &[BLSFieldElement],
) -> (r: Result<(KZGProof, Vec<BLSFieldElement>), KzgError>)
    requires
        spec_all_wf(polynomial_coeff@),
        spec_all_wf(zs@),
        zs@.len() + 2 <= usize::MAX,
    ensures
        match r {
            Ok((proof, ys)) => {
                &&& spec_all_wf(ys@)
                &&& ys@.len() == zs@.len()
                &&& forall|j: int|
                    0 <= j < zs@.len() ==> (#[trigger] ys@[j]).value() == spec_poly_eval(
                        spec_field_values(polynomial_coeff@),
                        zs@[j].value(),
                    ) % bls_modulus()
                &&& spec_multi_proof(setup.g1_monomial@, spec_field_values(polynomial_coeff@), spec_field_values(zs@), proof.0@)
            },
            Err(e) => spec_commit_error(
                setup.g1_monomial@,
                spec_quotient_len(polynomial_coeff@.len(), zs@.len()),
                e,
            ),
        },
{
    let mut ys: Vec<BLSFieldElement> = Vec::new();
    let mut j: usize = 0;
    while j < zs.len()
        invariant
            j <= zs@.len(),
            spec_all_wf(polynomial_coeff@),
            spec_all_wf(zs@),
            ys@.len() == j,
            spec_all_wf(ys@),
            forall|t: int|
                0 <= t < j ==> (#[trigger] ys@[t]).value() == spec_poly_eval(
                    spec_field_values(polynomial_coeff@),
                    zs@[t].value(),
                ) % bls_modulus(),
        decreases zs@.len() - j,
    {
        ys.push(evaluate_polynomialcoeff(polynomial_coeff, zs[j]));
        j = j + 1;
    }
    let denominator_poly = vanishing_polynomialcoeff(zs);
    let quotient_polynomial = match divide_polynomialcoeff(polynomial_coeff, denominator_poly.as_slice()) {
        Ok(q) => q,
        Err(e) => {
            proof {
                assert(spec_field_values(denominator_poly@).len() == denominator_poly@.len());
                lemma_vanishing_monic(spec_field_values(zs@));
                assert(denominator_poly@.last().value() == spec_field_values(denominator_poly@).last());
            }
            return Err(e);
        },
    };
    proof {
        lemma_vanishing_monic(spec_field_values(zs@));
        assert(quotient_polynomial@.len() == spec_quotient_len(polynomial_coeff@.len(), zs@.len()));
    }
    let point = match setup_g1_lincomb(setup.g1_monomial.as_slice(), quotient_polynomial.as_slice()) {
        Ok(point) => point,
        Err(e) => {
            proof {
                let qv = spec_field_values(quotient_polynomial@);
                assert(qv.len() == quotient_polynomial@.len());
                if quotient_polynomial@.len() <= setup.g1_monomial@.len() {
                    assert(spec_g1_msm(
                        spec_points48(setup.g1_monomial@.subrange(0, quotient_polynomial@.len() as int)),
                        qv,
                    ) is None);
                }
            }
            return Err(e);
        },
    };
    proof {
        let q = spec_field_values(quotient_polynomial@);
        let rem = choose|rem: Seq<nat>|
            spec_divides_with_remainder(
                spec_field_values(polynomial_coeff@),
                spec_field_values(denominator_poly@),
                q,
                rem,
            );
        assert(q.len() == quotient_polynomial@.len());
        assert(spec_divides_with_remainder(
            spec_field_values(polynomial_coeff@),
            spec_vanishing(spec_field_values(zs@)),
            q,
            rem,
        ));
    }
    Ok((KZGProof(point), ys))
}


/// Proof `i` of `proofs` is the multi-proof of the polynomial over cell
/// `i`'s coset, for every cell.
pub open spec fn spec_cell_proofs(setup_g1: Seq<[u8; 48]>, coeffs: Seq<nat>, proofs: Seq<KZGProof>) -> bool {
    &&& proofs.len() == CELLS_PER_EXT_BLOB
    &&& forall|i: int|
        0 <= i < CELLS_PER_EXT_BLOB ==> spec_multi_proof(
            setup_g1,
            coeffs,
            spec_ext_roots_brp().subrange(64 * i, 64 * i + 64),
            (#[trigger] proofs[i]).0@,
        )
}

/// Compute all cells and cell proofs for a polynomial in coefficient form.
pub fn compute_cells_and_kzg_proofs_polynomialcoeff(setup: &EthereumTrustedSetup, polynomial_coeff: &[BLSFieldElement]) -> (r:
    Result<(Vec<Cell>, Vec<KZGProof>), KzgError>)
    requires
        spec_all_wf(polynomial_coeff@),
    ensures
        match r {
            Ok((cells, proofs)) => spec_cells_of(spec_field_values(polynomial_coeff@), cells@) && spec_cell_proofs(
                setup.g1_monomial@,
                spec_field_values(polynomial_coeff@),
                proofs@,
            ),
            Err(e) => spec_commit_error(
                setup.g1_monomial@,
                spec_quotient_len(polynomial_coeff@.len(), FIELD_ELEMENTS_PER_CELL as nat),
                e,
            ),
        },
{
    let ghost coeffs = spec_field_values(polynomial_coeff@);
    let table = ext_roots_of_unity_brp();
    let mut cells: Vec<Cell> = Vec::new();
    let mut proofs: Vec<KZGProof> = Vec::new();
    let mut i: usize = 0;
    while i < CELLS_PER_EXT_BLOB
        invariant
            i <= CELLS_PER_EXT_BLOB,
            spec_all_wf(polynomial_coeff@),
            coeffs == spec_field_values(polynomial_coeff@),
            table@.len() == FIELD_ELEMENTS_PER_EXT_BLOB,
            spec_all_wf(table@),
            spec_field_values(table@) == spec_ext_roots_brp(),
            cells@.len() == i,
            proofs@.len() == i,
            forall|t: int, j: int|
                0 <= t < i && 0 <= j < FIELD_ELEMENTS_PER_CELL ==> #[trigger] spec_chunk_value(cells@[t].0@, j)
                    == spec_poly_eval(coeffs, spec_ext_roots_brp()[64 * t + j]) % bls_modulus(),
            forall|t: int|
                0 <= t < i ==> spec_multi_proof(
                    setup.g1_monomial@,
                    coeffs,
                    spec_ext_roots_brp().subrange(64 * t, 64 * t + 64),
                    (#[trigger] proofs@[t]).0@,
                ),
        decreases CELLS_PER_EXT_BLOB - i,
    {
        let coset = coset_from_table(&table, i);
        proof {
            assert forall|j: int| 0 <= j < 64 implies spec_field_values(coset@)[j] == spec_ext_roots_brp()[64 * i
                + j] by {
                assert(coset@[j] == table@[64 * i + j]);
                assert(spec_field_values(table@)[64 * i + j] == table@[64 * i + j].value());
            }
            assert(spec_field_values(coset@) =~= spec_ext_roots_brp().subrange(64 * i, 64 * i + 64));
        }
        let (proof, ys) = match compute_kzg_proof_multi_impl(setup, polynomial_coeff, coset.as_slice()) {
            Ok(pair) => pair,
            Err(e) => {
                return Err(e);
            },
        };
        let cell = match coset_evals_to_cell(ys.as_slice()) {
            Ok(cell) => cell,
            Err(e) => {
                return Err(e);
            },
        };
        proof {
            assert forall|j: int| 0 <= j < FIELD_ELEMENTS_PER_CELL implies #[trigger] spec_chunk_value(cell.0@, j)
                == spec_poly_eval(coeffs, spec_ext_roots_brp()[64 * i + j]) % bls_modulus() by {
                assert(spec_chunk_value(cell.0@, j) == ys@[j].value());
                assert(coset@[j].value() == spec_field_values(coset@)[j]);
            }
        }
        cells.push(cell);
        proofs.push(proof);
        proof {
            assert(cells@[i as int] == cell);
            assert(proofs@[i as int] == proof);
        }
        i = i + 1;
    }
    Ok((cells, proofs))
}

/// What computing the cells and proofs of a blob gives: its cells and
/// proofs where its bytes are a blob of field elements, else the error
/// saying why.
pub open spec fn spec_compute_outcome(
    setup_g1: Seq<[u8; 48]>,
    blob: Seq<u8>,
    r: Result<(Seq<Cell>, Seq<KZGProof>), KzgError>,
) -> bool {
    match r {
        Ok((cells, proofs)) => {
            &&& blob.len() == BYTES_PER_BLOB
            &&& spec_chunks_canonical(blob, FIELD_ELEMENTS_PER_BLOB as nat)
            &&& spec_cells_of(spec_eval_to_coeff(spec_blob_evals(blob)), cells)
            &&& spec_cell_proofs(setup_g1, spec_eval_to_coeff(spec_blob_evals(blob)), proofs)
        },
        Err(e) => if blob.len() != BYTES_PER_BLOB {
            e == (KzgError::InvalidBlobLength { expected: BYTES_PER_BLOB, got: blob.len() as usize })
        } else if !spec_chunks_canonical(blob, FIELD_ELEMENTS_PER_BLOB as nat) {
            e == KzgError::InvalidFieldElement
        } else {
            spec_commit_error(
                setup_g1,
                spec_quotient_len(FIELD_ELEMENTS_PER_BLOB as nat, FIELD_ELEMENTS_PER_CELL as nat),
                e,
            )
        },
    }
}

/// The outcome of a call as sequences.
pub open spec fn spec_pair_outcome(r: Result<(Vec<Cell>, Vec<KZGProof>), KzgError>) -> Result<
    (Seq<Cell>, Seq<KZGProof>),
    KzgError,
> {
    match r {
        Ok((cells, proofs)) => Ok((cells@, proofs@)),
        Err(e) => Err(e),
    }
}

/// Compute all cells and cell proofs for an extended blob.
pub fn compute_cells_and_kzg_proofs(setup: &EthereumTrustedSetup, blob: &[u8]) -> (r: Result<
    (Vec<Cell>, Vec<KZGProof>),
    KzgError,
>)
    ensures
        spec_compute_outcome(setup.g1_monomial@, blob@, spec_pair_outcome(r)),
{
    let polynomial = match blob_to_polynomial(blob) {
        Ok(polynomial) => polynomial,
        Err(e) => {
            return Err(e);
        },
    };
    proof {
        assert(spec_field_values(polynomial@) =~= spec_blob_evals(blob@));
    }
    let polynomial_coeff = match polynomial_eval_to_coeff(polynomial.as_slice()) {
        Ok(coeffs) => coeffs,
        Err(e) => {
            return Err(e);
        },
    };
    proof {
        assert(spec_field_values(polynomial_coeff@).len() == polynomial_coeff@.len());
        super::cells::lemma_bit_reversal_order_is_permutation(polynomial@.len() as nat);
        assert(polynomial_coeff@.len() == FIELD_ELEMENTS_PER_BLOB);
    }
    compute_cells_and_kzg_proofs_polynomialcoeff(setup, polynomial_coeff.as_slice())
}

/// The coset evaluations the bytes of each cell stand for.
pub open spec fn spec_cell_values(cells: Seq<Cell>) -> Seq<Seq<nat>> {
    Seq::new(
        cells.len(),
        |j: int| Seq::new(FIELD_ELEMENTS_PER_CELL as nat, |i: int| spec_chunk_value(cells[j].0@, i)),
    )
}

/// Every cell's chunks stand for field elements.
pub open spec fn spec_cells_canonical(cells: Seq<Cell>) -> bool {
    forall|j: int| 0 <= j < cells.len() ==> spec_chunks_canonical((#[trigger] cells[j]).0@, FIELD_ELEMENTS_PER_CELL as nat)
}

/// Indices that pass the recovery scan are all in range.
proof fn lemma_scan_in_range(indices: Seq<CellIndex>, n: nat)
    requires
        n <= indices.len(),
        spec_recovery_scan(indices, n) is Ok,
    ensures
        forall|j: int| 0 <= j < n ==> (#[trigger] indices[j]).0 < CELLS_PER_EXT_BLOB,
    decreases n,
{
    if n > 0 {
        if spec_recovery_scan(indices, (n - 1) as nat) is Err {
            assert(spec_recovery_scan(indices, n) is Err);
        }
        lemma_scan_in_range(indices, (n - 1) as nat);
    }
}

/// Pairs of full cosets and in-range indices have no failure.
proof fn lemma_no_pairs_error(indices: Seq<CellIndex>, cosets: Seq<Seq<nat>>, n: nat)
    requires
        n <= indices.len(),
        n <= cosets.len(),
        forall|j: int| 0 <= j < n ==> (#[trigger] indices[j]).0 < CELLS_PER_EXT_BLOB,
        forall|j: int| 0 <= j < n ==> (#[trigger] cosets[j]).len() == FIELD_ELEMENTS_PER_CELL,
    ensures
        spec_recovery_pairs_error(indices, cosets, n) is None,
    decreases n,
{
    if n > 0 {
        lemma_no_pairs_error(indices, cosets, (n - 1) as nat);
        assert(indices[n - 1].0 < CELLS_PER_EXT_BLOB);
        assert(cosets[n - 1].len() == FIELD_ELEMENTS_PER_CELL);
    }
}

/// What recovering from the given cells gives: the full extended blob's
/// cells and proofs where the inputs allow recovery, else the error saying
/// why.
pub open spec fn spec_recover_outcome(
    setup_g1: Seq<[u8; 48]>,
    cell_indices: Seq<CellIndex>,
    cells: Seq<Cell>,
    r: Result<(Seq<Cell>, Seq<KZGProof>), KzgError>,
) -> bool {
    match r {
        Ok((recovered, proofs)) => {
            &&& spec_validate_recovery_inputs(cell_indices, cells.len()) is Ok
            &&& spec_cells_canonical(cells)
            &&& spec_cells_of(spec_recovered(cell_indices, spec_cell_values(cells)), recovered)
            &&& spec_cell_proofs(setup_g1, spec_recovered(cell_indices, spec_cell_values(cells)), proofs)
        },
        Err(e) => if spec_validate_recovery_inputs(cell_indices, cells.len()) is Err {
            Err::<(), KzgError>(e) == spec_validate_recovery_inputs(cell_indices, cells.len())
        } else if !spec_cells_canonical(cells) {
            e == KzgError::InvalidFieldElement
        } else if spec_missing_cells(cell_indices, CELLS_PER_EXT_BLOB as nat).len() >= CELLS_PER_EXT_BLOB {
            e == (KzgError::TooManyCells { maximum: (CELLS_PER_EXT_BLOB - 1) as usize, got: CELLS_PER_EXT_BLOB })
        } else if exists|i: int|
            0 <= i < FIELD_ELEMENTS_PER_EXT_BLOB && #[trigger] spec_zero_over_coset(cell_indices)[i] == 0 {
            e == KzgError::CosetDivisionByZero
        } else {
            spec_commit_error(
                setup_g1,
                spec_quotient_len(FIELD_ELEMENTS_PER_BLOB as nat, FIELD_ELEMENTS_PER_CELL as nat),
                e,
            )
        },
    }
}

/// Recover all cells and proofs from at least half of a blob's cells.
pub fn recover_cells_and_kzg_proofs(setup: &EthereumTrustedSetup, cell_indices: Vec<CellIndex>, cells: Vec<Cell>) -> (r:
    Result<(Vec<Cell>, Vec<KZGProof>), KzgError>)
    ensures
        spec_recover_outcome(setup.g1_monomial@, cell_indices@, cells@, spec_pair_outcome(r)),
{
    match validate_recovery_inputs(cell_indices.as_slice(), cells.as_slice()) {
        Ok(()) => {},
        Err(e) => {
            return Err(e);
        },
    }
    let ghost values = spec_cell_values(cells@);
    let mut cosets_evals: Vec<Vec<BLSFieldElement>> = Vec::new();
    let mut j: usize = 0;
    while j < cells.len()
        invariant
            j <= cells@.len(),
            cosets_evals@.len() == j,
            values == spec_cell_values(cells@),
            spec_validate_recovery_inputs(cell_indices@, cells@.len()) is Ok,
            forall|t: int| 0 <= t < j ==> spec_chunks_canonical((#[trigger] cells@[t]).0@, FIELD_ELEMENTS_PER_CELL as nat),
            forall|t: int| 0 <= t < j ==> spec_all_wf(#[trigger] cosets_evals@[t]@),
            forall|t: int| 0 <= t < j ==> spec_field_values(#[trigger] cosets_evals@[t]@) == values[t],
        decreases cells@.len() - j,
    {
        let evals = match cell_to_coset_evals(cells[j]) {
            Ok(evals) => evals,
            Err(e) => {
                proof {
                    assert(!spec_chunks_canonical(cells@[j as int].0@, FIELD_ELEMENTS_PER_CELL as nat));
                }
                return Err(e);
            },
        };
        proof {
            assert(spec_field_values(evals@) =~= values[j as int]);
        }
        cosets_evals.push(evals);
        proof {
            assert(cosets_evals@[j as int] == evals);
        }
        j = j + 1;
    }
    proof {
        assert(Seq::new(cosets_evals@.len(), |t: int| spec_field_values(cosets_evals@[t]@)) =~= values);
    }
    proof {
        lemma_scan_in_range(cell_indices@, cell_indices@.len());
        assert forall|t: int| 0 <= t < values.len() implies (#[trigger] values[t]).len() == FIELD_ELEMENTS_PER_CELL by {
        }
        lemma_no_pairs_error(cell_indices@, values, cell_indices@.len());
    }
    let polynomial_coeff = match recover_polynomialcoeff(cell_indices, cosets_evals) {
        Ok(coeffs) => coeffs,
        Err(e) => {
            return Err(e);
        },
    };
    proof {
        assert(spec_field_values(polynomial_coeff@).len() == polynomial_coeff@.len());
        assert(polynomial_coeff@.len() == FIELD_ELEMENTS_PER_BLOB);
    }
    compute_cells_and_kzg_proofs_polynomialcoeff(setup, polynomial_coeff.as_slice())
}

} // verus!
