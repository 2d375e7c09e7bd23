//! Recovery of a blob polynomial from at least half of its extended cells:
//! the evaluations known times the polynomial vanishing on the missing cells
//! are interpolated, then divided by that polynomial over a coset where it
//! has no zeros.
use vstd::arithmetic::power2::{lemma2_to64, pow2};
use vstd::prelude::*;

use super::cells::{
    field_bit_reversal_permutation, lemma_reverse_bits_bound, reverse_bits, spec_brp_values, spec_ext_root,
    spec_index_bits, spec_reverse_bits, spec_trailing_zeros,
};
use super::error::KzgError;
use super::field::{
    bls_modulus, field_inverse, field_mul, spec_all_wf, spec_field_inverse, spec_field_values, spec_is_pow2,
    spec_root_of_unity, BLSFieldElement,
};
use super::polynomial::{
    compute_roots_of_unity, coset_fft_field, fft_field, spec_fft, spec_inverse_fft, spec_powers, spec_shifted,
    spec_vanishing, vanishing_polynomialcoeff,
};
use crate::constants::{
    CELLS_PER_EXT_BLOB, FIELD_ELEMENTS_PER_BLOB, FIELD_ELEMENTS_PER_CELL, FIELD_ELEMENTS_PER_EXT_BLOB,
    PRIMITIVE_ROOT_OF_UNITY,
};
use crate::primitives::CellIndex;

verus! {

/// The point of the cell domain that cell `index` stands for: the root of
/// unity of order `CELLS_PER_EXT_BLOB` at the bit-reversed index.
pub open spec fn spec_cell_root(index: nat) -> nat {
    spec_powers(spec_root_of_unity(CELLS_PER_EXT_BLOB as u64)->0, CELLS_PER_EXT_BLOB as nat)[spec_reverse_bits(
        index,
        spec_index_bits(CELLS_PER_EXT_BLOB as nat),
    ) as int]
}

/// The cell-domain points of the missing cells.
pub open spec fn spec_missing_roots(missing: Seq<CellIndex>) -> Seq<nat> {
    Seq::new(missing.len(), |i: int| spec_cell_root(missing[i].0 as nat))
}

/// A polynomial in the cell domain spread over the extended domain: its
/// coefficient `i` lands at `i * FIELD_ELEMENTS_PER_CELL`, zeros between.
pub open spec fn spec_spread(short: Seq<nat>) -> Seq<nat> {
    Seq::new(
        FIELD_ELEMENTS_PER_EXT_BLOB as nat,
        |k: int| if k % 64 == 0 && k / 64 < short.len() { short[k / 64] } else { 0 },
    )
}

/// The first missing cell index out of range, if any, is at `i`.
pub open spec fn spec_first_out_of_range(missing: Seq<CellIndex>, i: int) -> bool {
    &&& 0 <= i < missing.len()
    &&& missing[i].0 >= CELLS_PER_EXT_BLOB
    &&& forall|j: int| 0 <= j < i ==> (#[trigger] missing[j]).0 < CELLS_PER_EXT_BLOB
}

/// Bit-reversed cell indices are cell indices.
proof fn lemma_cell_index_bits(index: nat)
    ensures
        spec_index_bits(CELLS_PER_EXT_BLOB as nat) == 7,
        spec_reverse_bits(index, spec_index_bits(CELLS_PER_EXT_BLOB as nat)) < CELLS_PER_EXT_BLOB,
{
    reveal_with_fuel(spec_trailing_zeros, 9);
    assert(spec_index_bits(128) == 7);
    lemma2_to64();
    lemma_reverse_bits_bound(index, 7);
}

/// Construct the vanishing polynomial for missing cell indices, spread over
/// the extended domain.
pub fn construct_vanishing_polynomial(missing_cell_indices: &[CellIndex]) -> (r: Result<
    Vec<BLSFieldElement>,
    KzgError,
>)
    ensures
        match r {
            Ok(zero_poly) => {
                &&& missing_cell_indices@.len() < CELLS_PER_EXT_BLOB
                &&& forall|i: int|
                    0 <= i < missing_cell_indices@.len() ==> (#[trigger] missing_cell_indices@[i]).0
                        < CELLS_PER_EXT_BLOB
                &&& spec_root_of_unity(CELLS_PER_EXT_BLOB as u64) is Some
                &&& spec_all_wf(zero_poly@)
                &&& spec_field_values(zero_poly@) == spec_spread(
                    spec_vanishing(spec_missing_roots(missing_cell_indices@)),
                )
            },
            Err(e) => if missing_cell_indices@.len() >= CELLS_PER_EXT_BLOB {
                e == (KzgError::TooManyCells {
                    maximum: (CELLS_PER_EXT_BLOB - 1) as usize,
                    got: missing_cell_indices@.len() as usize,
                })
            } else {
                exists|i: int|
                    spec_first_out_of_range(missing_cell_indices@, i) && e == (KzgError::CellIndexOutOfRange {
                        index: (#[trigger] missing_cell_indices@[i]).0,
                        limit: CELLS_PER_EXT_BLOB,
                    })
            },
        },
{
    if missing_cell_indices.len() >= CELLS_PER_EXT_BLOB {
        return Err(
            KzgError::TooManyCells { maximum: CELLS_PER_EXT_BLOB - 1, got: missing_cell_indices.len() },
        );
    }
    proof {
        reveal_with_fuel(spec_is_pow2, 8);
        assert(spec_is_pow2(128));
    }
    let roots_of_unity_reduced = match compute_roots_of_unity(CELLS_PER_EXT_BLOB) {
        Ok(roots) => roots,
        Err(e) => {
            return Err(e);
        },
    };
    let ghost powers = spec_powers(spec_root_of_unity(CELLS_PER_EXT_BLOB as u64)->0, CELLS_PER_EXT_BLOB as nat);
    proof {
        assert(spec_field_values(roots_of_unity_reduced@).len() == roots_of_unity_reduced@.len());
    }
    let mut roots: Vec<BLSFieldElement> = Vec::new();
    let mut i: usize = 0;
    while i < missing_cell_indices.len()
        invariant
            i <= missing_cell_indices@.len() < CELLS_PER_EXT_BLOB,
            roots_of_unity_reduced@.len() == CELLS_PER_EXT_BLOB,
            spec_all_wf(roots_of_unity_reduced@),
            spec_field_values(roots_of_unity_reduced@) == powers,
            powers == spec_powers(spec_root_of_unity(CELLS_PER_EXT_BLOB as u64)->0, CELLS_PER_EXT_BLOB as nat),
            roots@.len() == i,
            spec_all_wf(roots@),
            forall|j: int| 0 <= j < i ==> (#[trigger] missing_cell_indices@[j]).0 < CELLS_PER_EXT_BLOB,
            forall|j: int|
                0 <= j < i ==> (#[trigger] roots@[j]).value() == spec_cell_root(missing_cell_indices@[j].0 as nat),
        decreases missing_cell_indices@.len() - i,
    {
        let index = missing_cell_indices[i].0;
        if index >= CELLS_PER_EXT_BLOB as u64 {
            proof {
                assert(spec_first_out_of_range(missing_cell_indices@, i as int));
            }
            return Err(KzgError::CellIndexOutOfRange { index, limit: CELLS_PER_EXT_BLOB });
        }
        let position = reverse_bits(index as usize, CELLS_PER_EXT_BLOB);
        proof {
            lemma_cell_index_bits(index as nat);
            assert(spec_field_values(roots_of_unity_reduced@)[position as int]
                == roots_of_unity_reduced@[position as int].value());
        }
        roots.push(roots_of_unity_reduced[position]);
        proof {
            assert((index as usize) as nat == index as nat);
            assert(position as nat == spec_reverse_bits(index as nat, spec_index_bits(CELLS_PER_EXT_BLOB as nat)));
            assert(roots@[i as int].value() == powers[position as int]);
            assert(missing_cell_indices@[i as int].0 == index);
            assert(spec_cell_root(index as nat) == powers[position as int]);
            assert(roots@[i as int].value() == spec_cell_root(missing_cell_indices@[i as int].0 as nat));
        }
        i = i + 1;
    }
    proof {
        assert(spec_field_values(roots@) =~= spec_missing_roots(missing_cell_indices@));
    }
    let short_zero_poly = vanishing_polynomialcoeff(roots.as_slice());
    let ghost short = spec_vanishing(spec_missing_roots(missing_cell_indices@));
    proof {
        lemma_vanishing_len(spec_missing_roots(missing_cell_indices@));
        assert(spec_field_values(short_zero_poly@).len() == short_zero_poly@.len());
    }
    let mut zero_poly_coeff: Vec<BLSFieldElement> = Vec::new();
    while zero_poly_coeff.len() < FIELD_ELEMENTS_PER_EXT_BLOB
        invariant
            zero_poly_coeff@.len() <= FIELD_ELEMENTS_PER_EXT_BLOB,
            spec_all_wf(zero_poly_coeff@),
            forall|k: int| 0 <= k < zero_poly_coeff@.len() ==> (#[trigger] zero_poly_coeff@[k]).value() == 0,
        decreases FIELD_ELEMENTS_PER_EXT_BLOB - zero_poly_coeff@.len(),
    {
        zero_poly_coeff.push(BLSFieldElement::zero());
    }
    let mut t: usize = 0;
    while t < short_zero_poly.len()
        invariant
            t <= short_zero_poly@.len(),
            short_zero_poly@.len() == short.len(),
            short.len() <= CELLS_PER_EXT_BLOB,
            spec_all_wf(short_zero_poly@),
            spec_field_values(short_zero_poly@) == short,
            zero_poly_coeff@.len() == FIELD_ELEMENTS_PER_EXT_BLOB,
            spec_all_wf(zero_poly_coeff@),
            forall|k: int|
                0 <= k < FIELD_ELEMENTS_PER_EXT_BLOB ==> (#[trigger] zero_poly_coeff@[k]).value() == if k % 64 == 0
                    && k / 64 < t {
                    short[k / 64]
                } else {
                    0
                },
        decreases short_zero_poly@.len() - t,
    {
        zero_poly_coeff.set(t * FIELD_ELEMENTS_PER_CELL, short_zero_poly[t]);
        proof {
            assert(short[t as int] == short_zero_poly@[t as int].value());
            assert forall|k: int| 0 <= k < FIELD_ELEMENTS_PER_EXT_BLOB && k != t * 64 && #[trigger] (k % 64) == 0 implies k
                / 64 != t by {
                if k / 64 == t {
                    assert(k == 64 * (k / 64));
                }
            }
            assert((t * 64) as int % 64 == 0 && (t * 64) as int / 64 == t);
        }
        t = t + 1;
    }
    proof {
        assert(spec_field_values(zero_poly_coeff@) =~= spec_spread(short));
    }
    Ok(zero_poly_coeff)
}

/// The vanishing polynomial of `n` points has `n + 1` coefficients.
pub proof fn lemma_vanishing_len(xs: Seq<nat>)
    ensures
        spec_vanishing(xs).len() == xs.len() + 1,
    decreases xs.len(),
{
    if xs.len() > 0 {
        lemma_vanishing_len(xs.drop_last());
    }
}


/// The first failure among the first `n` recovery pairs, in order: a coset
/// of the wrong length, or a cell index out of range.
pub open spec fn spec_recovery_pairs_error(indices: Seq<CellIndex>, cosets: Seq<Seq<nat>>, n: nat) -> Option<
    KzgError,
>
    decreases n,
{
    if n == 0 {
        None
    } else {
        match spec_recovery_pairs_error(indices, cosets, (n - 1) as nat) {
            Some(e) => Some(e),
            None => if cosets[n - 1].len() != FIELD_ELEMENTS_PER_CELL {
                Some(
                    KzgError::InvalidCosetLength {
                        expected: FIELD_ELEMENTS_PER_CELL,
                        got: cosets[n - 1].len() as usize,
                    },
                )
            } else if indices[n - 1].0 >= CELLS_PER_EXT_BLOB {
                Some(KzgError::CellIndexOutOfRange { index: indices[n - 1].0, limit: CELLS_PER_EXT_BLOB })
            } else {
                None
            },
        }
    }
}

/// Point `k` of the extended evaluations in bit-reversal order, after the
/// first `n` pairs are laid down: the last pair whose cell holds `k`, else
/// zero.
pub open spec fn spec_laid_value(
    indices: Seq<CellIndex>,
    cosets: Seq<Seq<nat>>,
    n: nat,
    k: int,
) -> nat
    decreases n,
{
    if n == 0 {
        0
    } else if indices[n - 1].0 == k / 64 {
        cosets[n - 1][k % 64]
    } else {
        spec_laid_value(indices, cosets, (n - 1) as nat, k)
    }
}

/// The extended evaluations in bit-reversal order with every pair laid
/// down.
pub open spec fn spec_laid_out(indices: Seq<CellIndex>, cosets: Seq<Seq<nat>>) -> Seq<nat> {
    Seq::new(FIELD_ELEMENTS_PER_EXT_BLOB as nat, |k: int| spec_laid_value(indices, cosets, indices.len(), k))
}

/// Cell `c` is among the given ones.
pub open spec fn spec_cell_present(indices: Seq<CellIndex>, c: nat) -> bool {
    exists|j: int| 0 <= j < indices.len() && (#[trigger] indices[j]).0 == c
}

/// The cells below `m` not among the given ones, ascending.
pub open spec fn spec_missing_cells(indices: Seq<CellIndex>, m: nat) -> Seq<CellIndex>
    decreases m,
{
    if m == 0 {
        Seq::empty()
    } else if spec_cell_present(indices, (m - 1) as nat) {
        spec_missing_cells(indices, (m - 1) as nat)
    } else {
        spec_missing_cells(indices, (m - 1) as nat).push(CellIndex((m - 1) as u64))
    }
}

/// A failure among the first `m` pairs is the failure among more of them.
proof fn lemma_pairs_error_sticks(indices: Seq<CellIndex>, cosets: Seq<Seq<nat>>, m: nat, n: nat)
    requires
        m <= n,
        spec_recovery_pairs_error(indices, cosets, m) is Some,
    ensures
        spec_recovery_pairs_error(indices, cosets, n) == spec_recovery_pairs_error(indices, cosets, m),
    decreases n,
{
    if n > m {
        lemma_pairs_error_sticks(indices, cosets, m, (n - 1) as nat);
    }
}

/// The missing cells below `m` are at most `m` cells, each below `m`.
proof fn lemma_missing_cells_bound(indices: Seq<CellIndex>, m: nat)
    ensures
        spec_missing_cells(indices, m).len() <= m,
        forall|i: int|
            0 <= i < spec_missing_cells(indices, m).len() ==> (#[trigger] spec_missing_cells(indices, m)[i]).0 < m,
    decreases m,
{
    if m > 0 {
        lemma_missing_cells_bound(indices, (m - 1) as nat);
    }
}

/// The stages of recovery, each over the extended domain's roots.
pub open spec fn spec_zero_poly(indices: Seq<CellIndex>) -> Seq<nat> {
    spec_spread(spec_vanishing(spec_missing_roots(spec_missing_cells(indices, CELLS_PER_EXT_BLOB as nat))))
}

/// The extended domain's roots of unity.
pub open spec fn spec_ext_roots() -> Seq<nat> {
    spec_powers(spec_ext_root(), FIELD_ELEMENTS_PER_EXT_BLOB as nat)
}

/// The known evaluations times the zero polynomial's, interpolated.
pub open spec fn spec_masked_coeffs(indices: Seq<CellIndex>, cosets: Seq<Seq<nat>>) -> Seq<nat> {
    let zero_eval = spec_fft(spec_zero_poly(indices), spec_ext_roots());
    let extended = spec_brp_values(spec_laid_out(indices, cosets));
    let product = Seq::new(
        FIELD_ELEMENTS_PER_EXT_BLOB as nat,
        |i: int| (zero_eval[i] * extended[i]) % bls_modulus(),
    );
    spec_inverse_fft(product, spec_ext_roots(), spec_field_inverse(FIELD_ELEMENTS_PER_EXT_BLOB as nat))
}

/// The zero polynomial over the shifted coset.
pub open spec fn spec_zero_over_coset(indices: Seq<CellIndex>) -> Seq<nat> {
    spec_fft(spec_shifted(spec_zero_poly(indices), PRIMITIVE_ROOT_OF_UNITY as nat), spec_ext_roots())
}

/// The recovered polynomial's coefficients: over the coset, the masked
/// polynomial divided by the zero polynomial, interpolated back and
/// unshifted; the first `FIELD_ELEMENTS_PER_BLOB` of them.
pub open spec fn spec_recovered(indices: Seq<CellIndex>, cosets: Seq<Seq<nat>>) -> Seq<nat> {
    let numerator = spec_fft(
        spec_shifted(spec_masked_coeffs(indices, cosets), PRIMITIVE_ROOT_OF_UNITY as nat),
        spec_ext_roots(),
    );
    let denominator = spec_zero_over_coset(indices);
    let quotient = Seq::new(
        FIELD_ELEMENTS_PER_EXT_BLOB as nat,
        |i: int| (numerator[i] * spec_field_inverse(denominator[i])) % bls_modulus(),
    );
    spec_shifted(
        spec_inverse_fft(quotient, spec_ext_roots(), spec_field_inverse(FIELD_ELEMENTS_PER_EXT_BLOB as nat)),
        spec_field_inverse(PRIMITIVE_ROOT_OF_UNITY as nat),
    ).subrange(0, FIELD_ELEMENTS_PER_BLOB as int)
}


/// Recover a blob polynomial from at least half of its cells.
#[verifier::spinoff_prover]
#[verifier::loop_isolation(false)]
pub fn recover_polynomialcoeff(cell_indices: Vec<CellIndex>, cosets_evals: Vec<Vec<BLSFieldElement>>) -> (r: Result<
    Vec<BLSFieldElement>,
    KzgError,
>)
    requires
        forall|j: int| 0 <= j < cosets_evals@.len() ==> spec_all_wf(#[trigger] cosets_evals@[j]@),
    ensures
        ({
            let cosets = Seq::new(cosets_evals@.len(), |j: int| spec_field_values(cosets_evals@[j]@));
            match r {
                Ok(coeffs) => {
                    &&& cell_indices@.len() == cosets_evals@.len()
                    &&& spec_recovery_pairs_error(cell_indices@, cosets, cell_indices@.len()) is None
                    &&& spec_missing_cells(cell_indices@, CELLS_PER_EXT_BLOB as nat).len() < CELLS_PER_EXT_BLOB
                    &&& forall|i: int|
                        0 <= i < FIELD_ELEMENTS_PER_EXT_BLOB ==> #[trigger] spec_zero_over_coset(cell_indices@)[i]
                            != 0
                    &&& spec_all_wf(coeffs@)
                    &&& spec_field_values(coeffs@) == spec_recovered(cell_indices@, cosets)
                },
                Err(e) => if cell_indices@.len() != cosets_evals@.len() {
                    e == (KzgError::LengthMismatch {
                        context: "recovery cells",
                        expected: cell_indices@.len() as usize,
                        got: cosets_evals@.len() as usize,
                    })
                } else if spec_recovery_pairs_error(cell_indices@, cosets, cell_indices@.len()) is Some {
                    Some(e) == spec_recovery_pairs_error(cell_indices@, cosets, cell_indices@.len())
                } else if spec_missing_cells(cell_indices@, CELLS_PER_EXT_BLOB as nat).len() >= CELLS_PER_EXT_BLOB {
                    e == (KzgError::TooManyCells {
                        maximum: (CELLS_PER_EXT_BLOB - 1) as usize,
                        got: CELLS_PER_EXT_BLOB,
                    })
                } else {
                    e == KzgError::CosetDivisionByZero && exists|i: int|
                        0 <= i < FIELD_ELEMENTS_PER_EXT_BLOB && #[trigger] spec_zero_over_coset(cell_indices@)[i] == 0
                },
            }
        }),
{
    let ghost cosets = Seq::new(cosets_evals@.len(), |j: int| spec_field_values(cosets_evals@[j]@));
    if cell_indices.len() != cosets_evals.len() {
        return Err(
            KzgError::LengthMismatch {
                context: "recovery cells",
                expected: cell_indices.len(),
                got: cosets_evals.len(),
            },
        );
    }
    proof {
        reveal_with_fuel(spec_is_pow2, 14);
        assert(spec_is_pow2(8192));
    }
    let roots_of_unity_extended = match compute_roots_of_unity(FIELD_ELEMENTS_PER_EXT_BLOB) {
        Ok(roots) => roots,
        Err(e) => {
            return Err(e);
        },
    };
    proof {
        assert(spec_field_values(roots_of_unity_extended@).len() == roots_of_unity_extended@.len());
    }
    let mut extended_evaluation_rbo: Vec<BLSFieldElement> = Vec::new();
    while extended_evaluation_rbo.len() < FIELD_ELEMENTS_PER_EXT_BLOB
        invariant
            extended_evaluation_rbo@.len() <= FIELD_ELEMENTS_PER_EXT_BLOB,
            spec_all_wf(extended_evaluation_rbo@),
            forall|k: int| 0 <= k < extended_evaluation_rbo@.len() ==> (#[trigger] extended_evaluation_rbo@[k]).value()
                == 0,
        decreases FIELD_ELEMENTS_PER_EXT_BLOB - extended_evaluation_rbo@.len(),
    {
        extended_evaluation_rbo.push(BLSFieldElement::zero());
    }
    let mut present: Vec<bool> = Vec::new();
    while present.len() < CELLS_PER_EXT_BLOB
        invariant
            present@.len() <= CELLS_PER_EXT_BLOB,
            forall|c: int| 0 <= c < present@.len() ==> !(#[trigger] present@[c]),
        decreases CELLS_PER_EXT_BLOB - present@.len(),
    {
        present.push(false);
    }
    let n = cell_indices.len();
    let mut t: usize = 0;
    while t < n
        invariant
            t <= n,
            n == cell_indices@.len(),
            n == cosets_evals@.len(),
            cosets == Seq::new(cosets_evals@.len(), |j: int| spec_field_values(cosets_evals@[j]@)),
            forall|j: int| 0 <= j < cosets_evals@.len() ==> spec_all_wf(#[trigger] cosets_evals@[j]@),
            spec_recovery_pairs_error(cell_indices@, cosets, t as nat) is None,
            extended_evaluation_rbo@.len() == FIELD_ELEMENTS_PER_EXT_BLOB,
            spec_all_wf(extended_evaluation_rbo@),
            forall|k: int|
                0 <= k < FIELD_ELEMENTS_PER_EXT_BLOB ==> (#[trigger] extended_evaluation_rbo@[k]).value()
                    == spec_laid_value(cell_indices@, cosets, t as nat, k),
            present@.len() == CELLS_PER_EXT_BLOB,
            forall|c: int|
                0 <= c < CELLS_PER_EXT_BLOB ==> (#[trigger] present@[c] <==> exists|j: int|
                    0 <= j < t && (#[trigger] cell_indices@[j]).0 == c),
        decreases n - t,
    {
        let cell = &cosets_evals[t];
        proof {
            assert(spec_field_values(cell@) == cosets[t as int]);
        }
        if cell.len() != FIELD_ELEMENTS_PER_CELL {
            proof {
                lemma_pairs_error_sticks(cell_indices@, cosets, (t + 1) as nat, n as nat);
            }
            return Err(KzgError::InvalidCosetLength { expected: FIELD_ELEMENTS_PER_CELL, got: cell.len() });
        }
        let index = cell_indices[t].0;
        if index >= CELLS_PER_EXT_BLOB as u64 {
            proof {
                lemma_pairs_error_sticks(cell_indices@, cosets, (t + 1) as nat, n as nat);
            }
            return Err(KzgError::CellIndexOutOfRange { index, limit: CELLS_PER_EXT_BLOB });
        }
        let start = (index as usize) * FIELD_ELEMENTS_PER_CELL;
        let mut m: usize = 0;
        while m < FIELD_ELEMENTS_PER_CELL
            invariant
                m <= FIELD_ELEMENTS_PER_CELL,
                t < n,
                n == cell_indices@.len(),
                n == cosets_evals@.len(),
                cosets == Seq::new(cosets_evals@.len(), |j: int| spec_field_values(cosets_evals@[j]@)),
                spec_field_values(cell@) == cosets[t as int],
                cell@.len() == FIELD_ELEMENTS_PER_CELL,
                spec_all_wf(cell@),
                index == cell_indices@[t as int].0,
                index < CELLS_PER_EXT_BLOB,
                start == 64 * index,
                extended_evaluation_rbo@.len() == FIELD_ELEMENTS_PER_EXT_BLOB,
                spec_all_wf(extended_evaluation_rbo@),
                forall|k: int|
                    0 <= k < FIELD_ELEMENTS_PER_EXT_BLOB ==> (#[trigger] extended_evaluation_rbo@[k]).value() == if start
                        <= k < start + m {
                        spec_laid_value(cell_indices@, cosets, (t + 1) as nat, k)
                    } else {
                        spec_laid_value(cell_indices@, cosets, t as nat, k)
                    },
            decreases FIELD_ELEMENTS_PER_CELL - m,
        {
            proof {
                let k = (start + m) as int;
                assert(k / 64 == index && k % 64 == m) by (nonlinear_arith)
                    requires
                        k == 64 * index + m,
                        m < 64,
                ;
            }
            extended_evaluation_rbo.set(start + m, cell[m]);
            m = m + 1;
        }
        proof {
            assert forall|k: int| 0 <= k < FIELD_ELEMENTS_PER_EXT_BLOB && !(start <= k < start + 64) implies
                spec_laid_value(cell_indices@, cosets, (t + 1) as nat, k) == spec_laid_value(
                cell_indices@,
                cosets,
                t as nat,
                k,
            ) by {
                assert(k / 64 != index) by (nonlinear_arith)
                    requires
                        0 <= k,
                        !(64 * index <= k < 64 * index + 64),
                ;
            }
            assert(cell_indices@[t as int].0 == index);
        }
        present.set(index as usize, true);
        t = t + 1;
    }
    let extended_evaluation = field_bit_reversal_permutation(extended_evaluation_rbo.as_slice());
    proof {
        assert(spec_field_values(extended_evaluation_rbo@) =~= spec_laid_out(cell_indices@, cosets));
    }
    let mut missing_cell_indices: Vec<CellIndex> = Vec::new();
    let mut c: usize = 0;
    while c < CELLS_PER_EXT_BLOB
        invariant
            c <= CELLS_PER_EXT_BLOB,
            present@.len() == CELLS_PER_EXT_BLOB,
            n == cell_indices@.len(),
            forall|d: int|
                0 <= d < CELLS_PER_EXT_BLOB ==> (#[trigger] present@[d] <==> exists|j: int|
                    0 <= j < n && (#[trigger] cell_indices@[j]).0 == d),
            missing_cell_indices@ == spec_missing_cells(cell_indices@, c as nat),
        decreases CELLS_PER_EXT_BLOB - c,
    {
        if !present[c] {
            missing_cell_indices.push(CellIndex(c as u64));
        }
        c = c + 1;
    }
    proof {
        lemma_missing_cells_bound(cell_indices@, CELLS_PER_EXT_BLOB as nat);
    }
    let zero_poly_coeff = match construct_vanishing_polynomial(missing_cell_indices.as_slice()) {
        Ok(z) => z,
        Err(e) => {
            proof {
                if missing_cell_indices@.len() < CELLS_PER_EXT_BLOB {
                    let i = choose|i: int| spec_first_out_of_range(missing_cell_indices@, i);
                    assert(missing_cell_indices@[i].0 < CELLS_PER_EXT_BLOB);
                }
            }
            return Err(e);
        },
    };
    proof {
        assert(spec_field_values(zero_poly_coeff@).len() == zero_poly_coeff@.len());
    }
    let zero_poly_eval = match fft_field(zero_poly_coeff.as_slice(), roots_of_unity_extended.as_slice(), false) {
        Ok(v) => v,
        Err(e) => {
            return Err(e);
        },
    };
    proof {
        assert(spec_field_values(zero_poly_eval@).len() == zero_poly_eval@.len());
        assert(spec_field_values(extended_evaluation@).len() == extended_evaluation@.len());
    }
    let mut extended_evaluation_times_zero: Vec<BLSFieldElement> = Vec::new();
    let mut i: usize = 0;
    while i < FIELD_ELEMENTS_PER_EXT_BLOB
        invariant
            i <= FIELD_ELEMENTS_PER_EXT_BLOB,
            zero_poly_eval@.len() == FIELD_ELEMENTS_PER_EXT_BLOB,
            extended_evaluation@.len() == FIELD_ELEMENTS_PER_EXT_BLOB,
            spec_all_wf(zero_poly_eval@),
            spec_all_wf(extended_evaluation@),
            extended_evaluation_times_zero@.len() == i,
            spec_all_wf(extended_evaluation_times_zero@),
            forall|j: int|
                0 <= j < i ==> (#[trigger] extended_evaluation_times_zero@[j]).value() == (zero_poly_eval@[j].value()
                    * extended_evaluation@[j].value()) % bls_modulus(),
        decreases FIELD_ELEMENTS_PER_EXT_BLOB - i,
    {
        extended_evaluation_times_zero.push(field_mul(zero_poly_eval[i], extended_evaluation[i]));
        i = i + 1;
    }
    proof {
        assert(spec_field_values(extended_evaluation_times_zero@).len() == extended_evaluation_times_zero@.len());
    }
    let extended_evaluation_times_zero_coeffs = match fft_field(
        extended_evaluation_times_zero.as_slice(),
        roots_of_unity_extended.as_slice(),
        true,
    ) {
        Ok(v) => v,
        Err(e) => {
            return Err(e);
        },
    };
    proof {
        assert(spec_field_values(extended_evaluation_times_zero_coeffs@).len()
            == extended_evaluation_times_zero_coeffs@.len());
    }
    let extended_evaluations_over_coset = match coset_fft_field(
        extended_evaluation_times_zero_coeffs.as_slice(),
        roots_of_unity_extended.as_slice(),
        false,
    ) {
        Ok(v) => v,
        Err(e) => {
            return Err(e);
        },
    };
    let zero_poly_over_coset = match coset_fft_field(
        zero_poly_coeff.as_slice(),
        roots_of_unity_extended.as_slice(),
        false,
    ) {
        Ok(v) => v,
        Err(e) => {
            return Err(e);
        },
    };
    proof {
        assert(spec_field_values(extended_evaluations_over_coset@).len() == extended_evaluations_over_coset@.len());
        assert(spec_field_values(zero_poly_over_coset@).len() == zero_poly_over_coset@.len());
        assert(spec_field_values(roots_of_unity_extended@) == spec_ext_roots());
        assert(spec_field_values(zero_poly_coeff@) == spec_zero_poly(cell_indices@));
        assert(spec_field_values(zero_poly_over_coset@) == spec_zero_over_coset(cell_indices@));
    }
    let mut reconstructed_poly_over_coset: Vec<BLSFieldElement> = Vec::new();
    let mut i: usize = 0;
    while i < FIELD_ELEMENTS_PER_EXT_BLOB
        invariant
            i <= FIELD_ELEMENTS_PER_EXT_BLOB,
            extended_evaluations_over_coset@.len() == FIELD_ELEMENTS_PER_EXT_BLOB,
            zero_poly_over_coset@.len() == FIELD_ELEMENTS_PER_EXT_BLOB,
            spec_all_wf(extended_evaluations_over_coset@),
            spec_all_wf(zero_poly_over_coset@),
            reconstructed_poly_over_coset@.len() == i,
            spec_all_wf(reconstructed_poly_over_coset@),
            spec_field_values(zero_poly_over_coset@) == spec_zero_over_coset(cell_indices@),
            forall|j: int| 0 <= j < i ==> (#[trigger] zero_poly_over_coset@[j]).value() != 0,
            forall|j: int|
                0 <= j < i ==> (#[trigger] reconstructed_poly_over_coset@[j]).value() == (
                extended_evaluations_over_coset@[j].value() * spec_field_inverse(zero_poly_over_coset@[j].value()))
                    % bls_modulus(),
        decreases FIELD_ELEMENTS_PER_EXT_BLOB - i,
    {
        let denominator_inverse = match field_inverse(zero_poly_over_coset[i]) {
            Some(v) => v,
            None => {
                proof {
                    assert(spec_field_values(zero_poly_over_coset@)[i as int] == 0);
                    assert(spec_zero_over_coset(cell_indices@)[i as int] == 0);
                }
                return Err(KzgError::CosetDivisionByZero);
            },
        };
        reconstructed_poly_over_coset.push(field_mul(extended_evaluations_over_coset[i], denominator_inverse));
        i = i + 1;
    }
    proof {
        assert(spec_field_values(reconstructed_poly_over_coset@).len() == reconstructed_poly_over_coset@.len());
    }
    let reconstructed_poly_coeff = match coset_fft_field(
        reconstructed_poly_over_coset.as_slice(),
        roots_of_unity_extended.as_slice(),
        true,
    ) {
        Ok(v) => v,
        Err(e) => {
            return Err(e);
        },
    };
    proof {
        assert(spec_field_values(reconstructed_poly_coeff@).len() == reconstructed_poly_coeff@.len());
    }
    let mut out: Vec<BLSFieldElement> = Vec::new();
    let mut k: usize = 0;
    while k < FIELD_ELEMENTS_PER_BLOB
        invariant
            k <= FIELD_ELEMENTS_PER_BLOB,
            reconstructed_poly_coeff@.len() == FIELD_ELEMENTS_PER_EXT_BLOB,
            spec_all_wf(reconstructed_poly_coeff@),
            out@ == reconstructed_poly_coeff@.subrange(0, k as int),
        decreases FIELD_ELEMENTS_PER_BLOB - k,
    {
        out.push(reconstructed_poly_coeff[k]);
        proof {
            assert(out@ =~= reconstructed_poly_coeff@.subrange(0, k + 1));
        }
        k = k + 1;
    }
    proof {
        let roots = spec_ext_roots();
        let inv_n = spec_field_inverse(FIELD_ELEMENTS_PER_EXT_BLOB as nat);
        let inv_shift = spec_field_inverse(PRIMITIVE_ROOT_OF_UNITY as nat);
        let zero_eval = spec_fft(spec_zero_poly(cell_indices@), roots);
        let extended = spec_brp_values(spec_laid_out(cell_indices@, cosets));
        assert(spec_field_values(zero_poly_eval@) == zero_eval);
        assert(spec_field_values(extended_evaluation@) == extended);
        let product = Seq::new(
            FIELD_ELEMENTS_PER_EXT_BLOB as nat,
            |i: int| (zero_eval[i] * extended[i]) % bls_modulus(),
        );
        assert(spec_field_values(extended_evaluation_times_zero@) =~= product);
        assert(spec_field_values(extended_evaluation_times_zero_coeffs@) == spec_masked_coeffs(cell_indices@, cosets));
        let numerator = spec_fft(
            spec_shifted(spec_masked_coeffs(cell_indices@, cosets), PRIMITIVE_ROOT_OF_UNITY as nat),
            roots,
        );
        assert(spec_field_values(extended_evaluations_over_coset@) == numerator);
        let denominator = spec_zero_over_coset(cell_indices@);
        let quotient = Seq::new(
            FIELD_ELEMENTS_PER_EXT_BLOB as nat,
            |i: int| (numerator[i] * spec_field_inverse(denominator[i])) % bls_modulus(),
        );
        assert(spec_field_values(reconstructed_poly_over_coset@) =~= quotient);
        assert(spec_field_values(reconstructed_poly_coeff@) == spec_shifted(
            spec_inverse_fft(quotient, roots, inv_n),
            inv_shift,
        ));
        assert(spec_field_values(out@) =~= spec_recovered(cell_indices@, cosets));
    }
    Ok(out)
}

} // verus!
