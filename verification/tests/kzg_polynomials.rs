use moonglass_core::crypto::kzg::cells::{coset_for_cell, coset_shift_for_cell, polynomial_eval_to_coeff};
use moonglass_core::crypto::kzg::error::KzgError;
use moonglass_core::crypto::kzg::field::{
    blob_to_polynomial, bls_field_to_bytes, bytes_to_bls_field, cell_to_coset_evals, coset_evals_to_cell,
    hash_to_bls_field, BLSFieldElement, BLS_MODULUS_BYTES,
};
use moonglass_core::crypto::kzg::polynomial::{
    add_polynomialcoeff, compute_powers, compute_roots_of_unity, coset_fft_field, divide_polynomialcoeff,
    evaluate_polynomialcoeff, fft_field, is_power_of_two, multiply_polynomialcoeff, shift_vals,
    vanishing_polynomialcoeff,
};
use moonglass_core::crypto::kzg::recovery::construct_vanishing_polynomial;
use moonglass_core::primitives::{Cell, CellIndex};

fn fe(value: u64) -> BLSFieldElement {
    BLSFieldElement::from_u64(value)
}

/// The modulus minus `k`, for small `k`.
fn minus(k: u64) -> BLSFieldElement {
    BLSFieldElement {
        limbs: [0xffff_ffff_0000_0001 - k, 0x53bd_a402_fffe_5bfe, 0x3339_d808_09a1_d805, 0x73ed_a753_299d_7d48],
    }
}

#[test]
fn bytes_at_or_above_the_modulus_are_refused() {
    assert_eq!(bytes_to_bls_field(BLS_MODULUS_BYTES), Err(KzgError::InvalidFieldElement));
    assert_eq!(bytes_to_bls_field([0xff; 32]), Err(KzgError::InvalidFieldElement));
    let mut below = BLS_MODULUS_BYTES;
    below[31] = 0;
    let element = bytes_to_bls_field(below).unwrap();
    assert_eq!(element, minus(1));
    assert_eq!(bls_field_to_bytes(element), below);
}

#[test]
fn small_values_read_back_as_their_big_endian_number() {
    let mut bytes = [0u8; 32];
    bytes[30] = 1;
    bytes[31] = 2;
    let element = bytes_to_bls_field(bytes).unwrap();
    assert_eq!(element, fe(258));
    assert_eq!(bls_field_to_bytes(element), bytes);
}

#[test]
fn hashing_into_the_field_is_deterministic_and_canonical() {
    let a = hash_to_bls_field(b"moonglass");
    let b = hash_to_bls_field(b"moonglass");
    let c = hash_to_bls_field(b"moonglass!");
    assert_eq!(a, b);
    assert_ne!(a, c);
    assert!(bls_field_to_bytes(a) < BLS_MODULUS_BYTES);
}

#[test]
fn powers_start_at_one() {
    assert_eq!(compute_powers(fe(2), 5), vec![fe(1), fe(2), fe(4), fe(8), fe(16)]);
    assert_eq!(compute_powers(fe(7), 0), Vec::<BLSFieldElement>::new());
}

#[test]
fn powers_of_two_are_recognised() {
    assert!(!is_power_of_two(0));
    assert!(is_power_of_two(1));
    assert!(is_power_of_two(4096));
    assert!(!is_power_of_two(6));
    assert!(!is_power_of_two(4095));
}

#[test]
fn roots_of_unity_close_the_cycle() {
    let roots = compute_roots_of_unity(4).unwrap();
    assert_eq!(roots.len(), 4);
    assert_eq!(roots[0], fe(1));
    // w^4 = 1 and w^2 = -1 for a primitive fourth root.
    let x4 = [fe(0), fe(0), fe(0), fe(0), fe(1)];
    assert_eq!(evaluate_polynomialcoeff(&x4, roots[1]), fe(1));
    assert_eq!(roots[2], minus(1));
    assert_eq!(compute_roots_of_unity(3), Err(KzgError::UnsupportedDomainSize(3)));
    assert_eq!(compute_roots_of_unity(0), Err(KzgError::UnsupportedDomainSize(0)));
}

#[test]
fn shifting_multiplies_by_successive_powers() {
    assert_eq!(shift_vals(&[fe(1), fe(1), fe(3)], fe(2)), Ok(vec![fe(1), fe(2), fe(12)]));
}

#[test]
fn polynomials_add_coefficientwise_with_zero_padding() {
    assert_eq!(add_polynomialcoeff(&[fe(1), fe(2)], &[fe(3)]), vec![fe(4), fe(2)]);
    assert_eq!(add_polynomialcoeff(&[minus(1)], &[fe(3)]), vec![fe(2)]);
}

#[test]
fn polynomials_multiply_by_convolution() {
    assert_eq!(multiply_polynomialcoeff(&[fe(1), fe(1)], &[fe(1), fe(1)]), vec![fe(1), fe(2), fe(1)]);
    assert_eq!(multiply_polynomialcoeff(&[], &[fe(1)]), Vec::<BLSFieldElement>::new());
}

#[test]
fn evaluation_is_horner_on_the_coefficients() {
    assert_eq!(evaluate_polynomialcoeff(&[fe(1), fe(2), fe(3)], fe(2)), fe(17));
    assert_eq!(evaluate_polynomialcoeff(&[], fe(9)), fe(0));
}

#[test]
fn the_vanishing_polynomial_vanishes_on_its_points() {
    let zero = vanishing_polynomialcoeff(&[fe(2), fe(3)]);
    assert_eq!(zero, vec![fe(6), minus(5), fe(1)]);
    assert_eq!(evaluate_polynomialcoeff(&zero, fe(2)), fe(0));
    assert_eq!(evaluate_polynomialcoeff(&zero, fe(3)), fe(0));
    assert_eq!(evaluate_polynomialcoeff(&zero, fe(4)), fe(2));
    assert_eq!(vanishing_polynomialcoeff(&[]), vec![fe(1)]);
}

#[test]
fn long_division_gives_the_quotient() {
    // (x^2 - 5x + 6) / (x - 2) = x - 3.
    let quotient = divide_polynomialcoeff(&[fe(6), minus(5), fe(1)], &[minus(2), fe(1)]).unwrap();
    assert_eq!(quotient, vec![minus(3), fe(1)]);
    // (x^2 + 1) / (x - 1) = x + 1, remainder 2.
    assert_eq!(divide_polynomialcoeff(&[fe(1), fe(0), fe(1)], &[minus(1), fe(1)]), Ok(vec![fe(1), fe(1)]));
    assert_eq!(divide_polynomialcoeff(&[fe(1)], &[fe(1), fe(1)]), Ok(vec![]));
}

#[test]
fn division_refuses_an_empty_or_zero_led_divisor() {
    assert_eq!(divide_polynomialcoeff(&[fe(1)], &[]), Err(KzgError::EmptyDivisor));
    assert_eq!(divide_polynomialcoeff(&[fe(1), fe(1)], &[fe(1), fe(0)]), Err(KzgError::DivisionByZero));
}

#[test]
fn the_inverse_transform_undoes_the_transform() {
    let roots = compute_roots_of_unity(4).unwrap();
    let values = vec![fe(1), fe(2), fe(3), fe(4)];
    let transformed = fft_field(&values, &roots, false).unwrap();
    // The transform evaluates the polynomial at the roots.
    assert_eq!(transformed[0], fe(10));
    assert_eq!(transformed[1], evaluate_polynomialcoeff(&values, roots[1]));
    assert_eq!(fft_field(&transformed, &roots, true).unwrap(), values);
    let shifted = coset_fft_field(&values, &roots, false).unwrap();
    assert_eq!(coset_fft_field(&shifted, &roots, true).unwrap(), values);
}

#[test]
fn the_transform_checks_its_domain() {
    let roots = compute_roots_of_unity(4).unwrap();
    assert_eq!(
        fft_field(&[fe(1), fe(2)], &roots, false),
        Err(KzgError::LengthMismatch { context: "FFT domain", expected: 2, got: 4 })
    );
    assert_eq!(
        fft_field(&[fe(1), fe(2), fe(3)], &[fe(1), fe(1), fe(1)], false),
        Err(KzgError::UnsupportedDomainSize(3))
    );
    assert_eq!(fft_field(&[], &[], true), Err(KzgError::UnsupportedDomainSize(0)));
}

#[test]
fn cells_round_trip_through_their_coset_evaluations() {
    let evals: Vec<BLSFieldElement> = (0..64).map(fe).collect();
    let cell = coset_evals_to_cell(&evals).unwrap();
    assert_eq!(cell.0[63], 1);
    assert_eq!(cell_to_coset_evals(cell), Ok(evals));
    assert_eq!(
        coset_evals_to_cell(&[fe(1)]),
        Err(KzgError::InvalidCosetLength { expected: 64, got: 1 })
    );
    assert_eq!(cell_to_coset_evals(Cell([0xff; 2048])), Err(KzgError::InvalidFieldElement));
}

#[test]
fn blobs_must_have_the_blob_length() {
    assert_eq!(
        blob_to_polynomial(&[0u8; 31]),
        Err(KzgError::InvalidBlobLength { expected: 131_072, got: 31 })
    );
    let polynomial = blob_to_polynomial(&vec![0u8; 131_072]).unwrap();
    assert_eq!(polynomial.len(), 4096);
    assert_eq!(
        polynomial_eval_to_coeff(&polynomial[..10]),
        Err(KzgError::LengthMismatch { context: "blob polynomial", expected: 4096, got: 10 })
    );
}

#[test]
fn the_zero_blob_has_the_zero_polynomial() {
    let polynomial = blob_to_polynomial(&vec![0u8; 131_072]).unwrap();
    let coefficients = polynomial_eval_to_coeff(&polynomial).unwrap();
    assert!(coefficients.iter().all(|c| *c == fe(0)));
}

#[test]
fn cosets_are_runs_of_the_bit_reversed_extended_roots() {
    let coset = coset_for_cell(CellIndex(0)).unwrap();
    assert_eq!(coset.len(), 64);
    assert_eq!(coset[0], fe(1));
    assert_eq!(coset_shift_for_cell(CellIndex(5)).unwrap(), coset_for_cell(CellIndex(5)).unwrap()[0]);
    assert_eq!(coset_for_cell(CellIndex(128)), Err(KzgError::CellIndexOutOfRange { index: 128, limit: 128 }));
    assert_eq!(coset_shift_for_cell(CellIndex(500)), Err(KzgError::CellIndexOutOfRange { index: 500, limit: 128 }));
}

#[test]
fn the_missing_cells_polynomial_is_spread_over_the_extended_domain() {
    let none_missing = construct_vanishing_polynomial(&[]).unwrap();
    assert_eq!(none_missing.len(), 8192);
    assert_eq!(none_missing[0], fe(1));
    assert!(none_missing[1..].iter().all(|c| *c == fe(0)));
    let one_missing = construct_vanishing_polynomial(&[CellIndex(0)]).unwrap();
    // x - 1 spread: -1 at 0, 1 at 64.
    assert_eq!(one_missing[0], minus(1));
    assert_eq!(one_missing[64], fe(1));
    let all: Vec<CellIndex> = (0..128).map(CellIndex).collect();
    assert_eq!(construct_vanishing_polynomial(&all), Err(KzgError::TooManyCells { maximum: 127, got: 128 }));
    assert_eq!(
        construct_vanishing_polynomial(&[CellIndex(3), CellIndex(200)]),
        Err(KzgError::CellIndexOutOfRange { index: 200, limit: 128 })
    );
}

use moonglass_core::containers::matrix::{compute_matrix, recover_matrix};
use moonglass_core::crypto::kzg::proofs::{recover_cells_and_kzg_proofs, setup_g1_lincomb};
use moonglass_core::crypto::kzg::trusted_setup::EthereumTrustedSetup;

const G1_GENERATOR: [u8; 48] = [
    0x97, 0xf1, 0xd3, 0xa7, 0x31, 0x97, 0xd7, 0x94, 0x26, 0x95, 0x63, 0x8c, 0x4f, 0xa9, 0xac, 0x0f, 0xc3, 0x68,
    0x8c, 0x4f, 0x97, 0x74, 0xb9, 0x05, 0xa1, 0x4e, 0x3a, 0x3f, 0x17, 0x1b, 0xac, 0x58, 0x6c, 0x55, 0xe8, 0x3f,
    0xf9, 0x7a, 0x1a, 0xef, 0xfb, 0x3a, 0xf0, 0x0a, 0xdb, 0x22, 0xc6, 0xbb,
];

fn empty_setup() -> EthereumTrustedSetup {
    EthereumTrustedSetup { g1_lagrange: vec![], g2_monomial: vec![], g1_monomial: vec![] }
}

#[test]
fn setup_combinations_commit_to_the_coefficients() {
    let mut infinity = [0u8; 48];
    infinity[0] = 0xc0;
    assert_eq!(setup_g1_lincomb(&[], &[]), Ok(infinity));
    assert_eq!(setup_g1_lincomb(&[G1_GENERATOR], &[fe(1)]), Ok(G1_GENERATOR));
    assert_eq!(setup_g1_lincomb(&[G1_GENERATOR], &[fe(0)]), Ok(infinity));
    let double = setup_g1_lincomb(&[G1_GENERATOR], &[fe(2)]).unwrap();
    assert_ne!(double, G1_GENERATOR);
    assert_eq!(setup_g1_lincomb(&[G1_GENERATOR, G1_GENERATOR], &[fe(1), fe(1)]), Ok(double));
    // Only as many powers as coefficients are used.
    assert_eq!(setup_g1_lincomb(&[G1_GENERATOR, [0u8; 48]], &[fe(1)]), Ok(G1_GENERATOR));
    assert_eq!(
        setup_g1_lincomb(&[G1_GENERATOR], &[fe(1), fe(1)]),
        Err(KzgError::PolynomialTooLarge { coefficients: 2, setup_powers: 1 })
    );
    assert_eq!(setup_g1_lincomb(&[[0u8; 48]], &[fe(1)]), Err(KzgError::InvalidG1));
}

#[test]
fn matrices_of_no_blobs_are_empty() {
    let setup = empty_setup();
    assert_eq!(compute_matrix(&setup, &[]), Ok(vec![]));
    assert_eq!(recover_matrix(&setup, &[], 0), Ok(vec![]));
}

#[test]
fn the_matrix_refuses_a_blob_of_the_wrong_length() {
    let setup = empty_setup();
    assert_eq!(
        compute_matrix(&setup, &[vec![0u8; 7]]),
        Err(KzgError::InvalidBlobLength { expected: 131_072, got: 7 })
    );
}

#[test]
fn recovery_needs_half_of_the_cells() {
    let setup = empty_setup();
    assert_eq!(recover_matrix(&setup, &[], 1), Err(KzgError::NotEnoughCells { minimum: 64, got: 0 }));
    assert_eq!(
        recover_cells_and_kzg_proofs(&setup, vec![CellIndex(0)], vec![]),
        Err(KzgError::LengthMismatch { context: "recovery inputs", expected: 1, got: 0 })
    );
}

use moonglass_core::crypto::kzg::polynomial::interpolate_polynomialcoeff;

#[test]
fn interpolation_passes_through_the_points() {
    // The line through (1, 3) and (2, 5) is 2x + 1.
    assert_eq!(interpolate_polynomialcoeff(&[fe(1), fe(2)], &[fe(3), fe(5)]), Ok(vec![fe(1), fe(2)]));
    let points = [fe(2), fe(3), fe(7)];
    let values = [fe(4), fe(0), fe(11)];
    let poly = interpolate_polynomialcoeff(&points, &values).unwrap();
    for (x, y) in points.iter().zip(values.iter()) {
        assert_eq!(evaluate_polynomialcoeff(&poly, *x), *y);
    }
}

#[test]
fn interpolation_refuses_repeated_points_and_unpaired_values() {
    assert_eq!(
        interpolate_polynomialcoeff(&[fe(1), fe(1)], &[fe(3), fe(5)]),
        Err(KzgError::DuplicateInterpolationPoint)
    );
    assert_eq!(
        interpolate_polynomialcoeff(&[fe(1)], &[fe(3), fe(5)]),
        Err(KzgError::LengthMismatch { context: "interpolation", expected: 1, got: 2 })
    );
}
