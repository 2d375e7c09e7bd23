//! Batch verification of cell KZG proofs: one random linear combination of
//! all the proofs, checked with a single pairing equation.
use ark_bls12_381::{Bls12_381, Fr, G1Affine, G2Affine};
use ark_ec::pairing::Pairing;
use ark_ec::{AffineRepr, CurveGroup};
use ark_ff::{BigInt, Field, PrimeField};
use ark_serialize::{CanonicalDeserialize, CanonicalSerialize};
use vstd::arithmetic::power::pow;
use vstd::prelude::*;

use super::error::KzgError;
use super::field::{
    bls_field_to_bytes, bls_modulus, field_add, field_mul, hash_to_bls_field, spec_all_wf, spec_be32, spec_be_value, spec_field_values,
    BLSFieldElement,
};
use super::cells::{coset_for_cell, coset_shift_for_cell, spec_ext_roots_brp};
use super::polynomial::{
    add_polynomialcoeff, compute_powers, interpolate_polynomialcoeff, multiply_polynomialcoeff, spec_lagrange_coef,
    spec_poly_add, spec_poly_mul, spec_powers, spec_first_duplicate,
};
use super::proofs::{setup_g1_lincomb, spec_g1_msm};
use super::trusted_setup::{spec_points48, EthereumTrustedSetup};
use crate::crypto::bls::{g1_decodes, g1_infinity, is_g1_infinity, spec_g1_decodes, spec_g1_infinity, spec_g1_sum};
use crate::constants::{FIELD_ELEMENTS_PER_BLOB, FIELD_ELEMENTS_PER_CELL};
use crate::primitives::{Cell, CellIndex, CommitmentIndex, KZGCommitment, KZGProof};
use super::field::cell_to_coset_evals;
use super::proofs::{spec_cell_values, spec_cells_canonical};
use crate::constants::CELLS_PER_EXT_BLOB;
use crate::ssz::merkle::spec_sha256;

verus! {

/// The compressed difference of two compressed G1 points, when both decode.
pub uninterp spec fn spec_g1_difference(a: Seq<u8>, b: Seq<u8>) -> Option<Seq<u8>>;

/// Whether `e(ll, lr) = e(rl, [1]_2)` for compressed points that decode.
pub uninterp spec fn spec_kzg_pairing_check(ll: Seq<u8>, lr: Seq<u8>, rl: Seq<u8>) -> Option<bool>;

/// `G1Affine - G1Affine` on the decoded points
/// (`G1Affine::deserialize_compressed`), serialized compressed; `None` where
/// a point does not decode. The contract claims that the result depends on
/// the two encodings alone.
#[verifier::external_body]
fn g1_difference(a: &[u8; 48], b: &[u8; 48]) -> (r: Option<[u8; 48]>)
    ensures
        match r {
            Some(x) => spec_g1_difference(a@, b@) == Some(x@),
            None => spec_g1_difference(a@, b@) is None,
        },
{
    let a = G1Affine::deserialize_compressed(&a[..]).ok()?;
    let b = G1Affine::deserialize_compressed(&b[..]).ok()?;
    let mut out = [0u8; 48];
    (a - b).into_affine().serialize_compressed(&mut out[..]).ok()?;
    Some(out)
}

/// `Bls12_381::pairing` on both sides of `e(ll, lr) = e(rl, [1]_2)`, with
/// `G2Affine::generator()` for `[1]_2`; `None` where a point does not decode.
/// The contract claims that the answer depends on the three encodings alone.
#[verifier::external_body]
fn kzg_pairing_check(ll: &[u8; 48], lr: &[u8; 96], rl: &[u8; 48]) -> (r: Option<bool>)
    ensures
        r == spec_kzg_pairing_check(ll@, lr@, rl@),
{
    let ll = G1Affine::deserialize_compressed(&ll[..]).ok()?;
    let lr = G2Affine::deserialize_compressed(&lr[..]).ok()?;
    let rl = G1Affine::deserialize_compressed(&rl[..]).ok()?;
    Some(Bls12_381::pairing(ll, lr) == Bls12_381::pairing(rl, G2Affine::generator()))
}

/// `ark_ff::Field::pow` with a one-limb exponent: the power reduced modulo
/// the field order.
#[verifier::external_body]
fn field_pow(a: BLSFieldElement, exponent: u64) -> (c: BLSFieldElement)
    requires
        a.wf(),
    ensures
        c.wf(),
        c.value() == pow(a.value() as int, exponent as nat) % (bls_modulus() as int),
{
    let power = Fr::new(BigInt::new(a.limbs)).pow([exponent]);
    BLSFieldElement { limbs: power.into_bigint().0 }
}

/// Validate compressed KZG G1 bytes: the point at infinity, or a point
/// that decodes.
pub fn validate_kzg_g1(bytes: &[u8; 48]) -> (r: Result<[u8; 48], KzgError>)
    ensures
        match r {
            Ok(point) => point == *bytes && (bytes@ == spec_g1_infinity() || spec_g1_decodes(bytes@)),
            Err(e) => e == KzgError::InvalidG1 && bytes@ != spec_g1_infinity() && !spec_g1_decodes(bytes@),
        },
{
    if is_g1_infinity(bytes) {
        return Ok(*bytes);
    }
    if g1_decodes(bytes) {
        Ok(*bytes)
    } else {
        Err(KzgError::InvalidG1)
    }
}

/// A compressed point is a valid KZG G1 point.
pub open spec fn spec_valid_g1(bytes: Seq<u8>) -> bool {
    bytes == spec_g1_infinity() || spec_g1_decodes(bytes)
}

/// Convert commitment bytes into a validated G1 point.
pub fn bytes_to_kzg_commitment(commitment: KZGCommitment) -> (r: Result<[u8; 48], KzgError>)
    ensures
        match r {
            Ok(point) => point == commitment.0 && spec_valid_g1(commitment.0@),
            Err(e) => e == KzgError::InvalidG1 && !spec_valid_g1(commitment.0@),
        },
{
    validate_kzg_g1(&commitment.0)
}

/// Convert proof bytes into a validated G1 point.
pub fn bytes_to_kzg_proof(proof: KZGProof) -> (r: Result<[u8; 48], KzgError>)
    ensures
        match r {
            Ok(point) => point == proof.0 && spec_valid_g1(proof.0@),
            Err(e) => e == KzgError::InvalidG1 && !spec_valid_g1(proof.0@),
        },
{
    validate_kzg_g1(&proof.0)
}

/// The linear combination of compressed G1 points by scalars: the point at
/// infinity for none.
pub open spec fn spec_g1_lincomb(points: Seq<[u8; 48]>, scalars: Seq<nat>) -> Option<Seq<u8>> {
    if points.len() == 0 {
        Some(spec_g1_infinity())
    } else {
        spec_g1_msm(spec_points48(points), scalars)
    }
}

/// Linearly combine G1 points with scalar weights.
pub fn g1_lincomb(points: &[[u8; 48]], scalars: &[BLSFieldElement]) -> (r: Result<[u8; 48], KzgError>)
    ensures
        match r {
            Ok(point) => points@.len() == scalars@.len() && spec_g1_lincomb(points@, spec_field_values(scalars@))
                == Some(point@),
            Err(e) => if points@.len() != scalars@.len() {
                e == (KzgError::LengthMismatch {
                    context: "G1 linear combination",
                    expected: points@.len() as usize,
                    got: scalars@.len() as usize,
                })
            } else {
                e == KzgError::InvalidG1 && spec_g1_lincomb(points@, spec_field_values(scalars@)) is None
            },
        },
{
    if points.len() != scalars.len() {
        return Err(
            KzgError::LengthMismatch { context: "G1 linear combination", expected: points.len(), got: scalars.len() },
        );
    }
    if points.len() == 0 {
        return Ok(g1_infinity());
    }
    match super::proofs::g1_msm(points, scalars) {
        Some(point) => Ok(point),
        None => Err(KzgError::InvalidG1),
    }
}

/// The eight big-endian bytes of a `u64`.
pub open spec fn spec_u64_be(x: u64) -> Seq<u8> {
    seq![
        (x >> 56) as u8,
        (x >> 48) as u8,
        (x >> 40) as u8,
        (x >> 32) as u8,
        (x >> 24) as u8,
        (x >> 16) as u8,
        (x >> 8) as u8,
        x as u8,
    ]
}

/// The eight big-endian bytes of a `u64`.
fn u64_be_bytes(x: u64) -> (r: [u8; 8])
    ensures
        r@ == spec_u64_be(x),
{
    let r = [
        (x >> 56) as u8,
        (x >> 48) as u8,
        (x >> 40) as u8,
        (x >> 32) as u8,
        (x >> 24) as u8,
        (x >> 16) as u8,
        (x >> 8) as u8,
        x as u8,
    ];
    assert(r@ =~= spec_u64_be(x));
    r
}

/// Append bytes.
fn append_bytes(out: &mut Vec<u8>, bytes: &[u8])
    ensures
        final(out)@ == old(out)@ + bytes@,
{
    let ghost start = out@;
    let mut k: usize = 0;
    while k < bytes.len()
        invariant
            k <= bytes@.len(),
            out@ == start + bytes@.subrange(0, k as int),
        decreases bytes@.len() - k,
    {
        out.push(bytes[k]);
        proof {
            assert(out@ =~= start + bytes@.subrange(0, k + 1));
        }
        k = k + 1;
    }
    proof {
        assert(bytes@.subrange(0, bytes@.len() as int) =~= bytes@);
    }
}

/// The domain separator of the batch challenge, `RCKZGCBATCH__V1_` in
/// ASCII.
pub const RANDOM_CHALLENGE_KZG_CELL_BATCH_DOMAIN: [u8; 16] = [
    0x52, 0x43, 0x4b, 0x5a, 0x47, 0x43, 0x42, 0x41, 0x54, 0x43, 0x48, 0x5f, 0x5f, 0x56, 0x31, 0x5f,
];

/// The first `n` commitments' bytes, in order.
pub open spec fn spec_commitment_bytes(commitments: Seq<KZGCommitment>, n: nat) -> Seq<u8>
    decreases n,
{
    if n == 0 {
        Seq::empty()
    } else {
        spec_commitment_bytes(commitments, (n - 1) as nat) + commitments[n - 1].0@
    }
}

/// The first `n` values as 32 big-endian bytes each, in order.
pub open spec fn spec_values_bytes(values: Seq<nat>, n: nat) -> Seq<u8>
    decreases n,
{
    if n == 0 {
        Seq::empty()
    } else {
        spec_values_bytes(values, (n - 1) as nat) + spec_be32(values[n - 1])
    }
}

/// The first `n` cells' part of the challenge transcript: commitment index,
/// cell index, evaluations and proof of each.
pub open spec fn spec_cells_transcript(
    commitment_indices: Seq<CommitmentIndex>,
    cell_indices: Seq<CellIndex>,
    cosets: Seq<Seq<nat>>,
    proofs: Seq<KZGProof>,
    n: nat,
) -> Seq<u8>
    decreases n,
{
    if n == 0 {
        Seq::empty()
    } else {
        let k = n - 1;
        spec_cells_transcript(commitment_indices, cell_indices, cosets, proofs, (n - 1) as nat) + spec_u64_be(
            commitment_indices[k].0,
        ) + spec_u64_be(cell_indices[k].0) + spec_values_bytes(cosets[k], cosets[k].len()) + proofs[k].0@
    }
}

/// The batch challenge transcript: the domain, the sizes, the commitments,
/// then each cell's entry.
pub open spec fn spec_challenge_transcript(
    commitments: Seq<KZGCommitment>,
    commitment_indices: Seq<CommitmentIndex>,
    cell_indices: Seq<CellIndex>,
    cosets: Seq<Seq<nat>>,
    proofs: Seq<KZGProof>,
) -> Seq<u8> {
    RANDOM_CHALLENGE_KZG_CELL_BATCH_DOMAIN@ + spec_u64_be(FIELD_ELEMENTS_PER_BLOB as u64) + spec_u64_be(
        FIELD_ELEMENTS_PER_CELL as u64,
    ) + spec_u64_be(commitments.len() as u64) + spec_u64_be(cell_indices.len() as u64) + spec_commitment_bytes(
        commitments,
        commitments.len(),
    ) + spec_cells_transcript(commitment_indices, cell_indices, cosets, proofs, cosets.len())
}

/// The values of each coset's evaluations.
pub open spec fn spec_cosets_values(cosets: Seq<Vec<BLSFieldElement>>) -> Seq<Seq<nat>> {
    Seq::new(cosets.len(), |k: int| spec_field_values(cosets[k]@))
}

/// Compute the Fiat-Shamir challenge for batch cell-proof verification.
pub fn compute_verify_cell_kzg_proof_batch_challenge(
    commitments: &[KZGCommitment],
    commitment_indices: &[CommitmentIndex],
    cell_indices: &[CellIndex],
    cosets_evals: &[Vec<BLSFieldElement>],
    proofs: &[KZGProof],
) -> (r: BLSFieldElement)
    requires
        commitment_indices@.len() >= cosets_evals@.len(),
        cell_indices@.len() >= cosets_evals@.len(),
        proofs@.len() >= cosets_evals@.len(),
        forall|k: int| 0 <= k < cosets_evals@.len() ==> spec_all_wf(#[trigger] cosets_evals@[k]@),
    ensures
        r.wf(),
        r.value() == spec_be_value(
            spec_sha256(
                spec_challenge_transcript(
                    commitments@,
                    commitment_indices@,
                    cell_indices@,
                    spec_cosets_values(cosets_evals@),
                    proofs@,
                ),
            ),
        ) % bls_modulus(),
{
    let ghost cosets = spec_cosets_values(cosets_evals@);
    let mut hashinput: Vec<u8> = Vec::new();
    append_bytes(&mut hashinput, RANDOM_CHALLENGE_KZG_CELL_BATCH_DOMAIN.as_slice());
    append_bytes(&mut hashinput, u64_be_bytes(FIELD_ELEMENTS_PER_BLOB as u64).as_slice());
    append_bytes(&mut hashinput, u64_be_bytes(FIELD_ELEMENTS_PER_CELL as u64).as_slice());
    append_bytes(&mut hashinput, u64_be_bytes(commitments.len() as u64).as_slice());
    append_bytes(&mut hashinput, u64_be_bytes(cell_indices.len() as u64).as_slice());
    let ghost head = hashinput@;
    let mut c: usize = 0;
    while c < commitments.len()
        invariant
            c <= commitments@.len(),
            hashinput@ == head + spec_commitment_bytes(commitments@, c as nat),
        decreases commitments@.len() - c,
    {
        append_bytes(&mut hashinput, commitments[c].0.as_slice());
        proof {
            assert(head + spec_commitment_bytes(commitments@, (c + 1) as nat) =~= head + spec_commitment_bytes(
                commitments@,
                c as nat,
            ) + commitments@[c as int].0@);
        }
        c = c + 1;
    }
    let ghost middle = hashinput@;
    let mut k: usize = 0;
    while k < cosets_evals.len()
        invariant
            k <= cosets_evals@.len(),
            commitment_indices@.len() >= cosets_evals@.len(),
            cell_indices@.len() >= cosets_evals@.len(),
            proofs@.len() >= cosets_evals@.len(),
            forall|t: int| 0 <= t < cosets_evals@.len() ==> spec_all_wf(#[trigger] cosets_evals@[t]@),
            cosets == spec_cosets_values(cosets_evals@),
            hashinput@ == middle + spec_cells_transcript(commitment_indices@, cell_indices@, cosets, proofs@, k as nat),
        decreases cosets_evals@.len() - k,
    {
        let ghost before = hashinput@;
        append_bytes(&mut hashinput, u64_be_bytes(commitment_indices[k].0).as_slice());
        append_bytes(&mut hashinput, u64_be_bytes(cell_indices[k].0).as_slice());
        let evals = &cosets_evals[k];
        let ghost values = spec_field_values(evals@);
        let ghost mid = hashinput@;
        let mut j: usize = 0;
        while j < evals.len()
            invariant
                j <= evals@.len(),
                spec_all_wf(evals@),
                values == spec_field_values(evals@),
                hashinput@ == mid + spec_values_bytes(values, j as nat),
            decreases evals@.len() - j,
        {
            let encoded = bls_field_to_bytes(evals[j]);
            append_bytes(&mut hashinput, encoded.as_slice());
            proof {
                assert(values[j as int] == evals@[j as int].value());
                assert(mid + spec_values_bytes(values, (j + 1) as nat) =~= mid + spec_values_bytes(values, j as nat)
                    + spec_be32(values[j as int]));
            }
            j = j + 1;
        }
        append_bytes(&mut hashinput, proofs[k].0.as_slice());
        proof {
            assert(cosets[k as int] == values);
            assert(values.len() == evals@.len());
            assert(hashinput@ =~= middle + spec_cells_transcript(
                commitment_indices@,
                cell_indices@,
                cosets,
                proofs@,
                (k + 1) as nat,
            ));
        }
        k = k + 1;
    }
    proof {
        assert(hashinput@ =~= spec_challenge_transcript(
            commitments@,
            commitment_indices@,
            cell_indices@,
            cosets,
            proofs@,
        ));
    }
    hash_to_bls_field(hashinput.as_slice())
}


/// Parsed inputs for the cell KZG batch verifier: deduplicated commitments
/// with their validated points, and per cell its commitment index, cell
/// index, evaluations and proof.
#[derive(Clone, Debug)]
pub struct ParsedCellKzgProofBatch {
    /// Deduplicated commitment bytes.
    pub commitments_bytes: Vec<KZGCommitment>,
    /// Deduplicated commitment points, compressed.
    pub commitments: Vec<[u8; 48]>,
    /// Indices into the deduplicated commitment list.
    pub commitment_indices: Vec<CommitmentIndex>,
    /// Cell indices for every proof tuple.
    pub cell_indices: Vec<CellIndex>,
    /// Parsed cell evaluations.
    pub cosets_evals: Vec<Vec<BLSFieldElement>>,
    /// Serialized proof bytes.
    pub proofs_bytes: Vec<KZGProof>,
    /// Parsed proof points, compressed.
    pub proofs: Vec<[u8; 48]>,
}

/// The first commitment among the first `n` whose bytes and point disagree,
/// if any: its bytes do not validate, or validate to another point.
pub open spec fn spec_commitments_mismatch(bytes: Seq<KZGCommitment>, points: Seq<[u8; 48]>, n: nat) -> Option<
    KzgError,
>
    decreases n,
{
    if n == 0 {
        None
    } else {
        match spec_commitments_mismatch(bytes, points, (n - 1) as nat) {
            Some(e) => Some(e),
            None => if !spec_valid_g1(bytes[n - 1].0@) {
                Some(KzgError::InvalidG1)
            } else if bytes[n - 1].0 != points[n - 1] {
                Some(KzgError::CommitmentBytesPointMismatch { index: (n - 1) as usize })
            } else {
                None
            },
        }
    }
}

/// What validating the byte and point views of the commitments gives.
pub open spec fn spec_validate_parsed(bytes: Seq<KZGCommitment>, points: Seq<[u8; 48]>) -> Result<(), KzgError> {
    if bytes.len() != points.len() {
        Err(KzgError::CommitmentBytesLengthMismatch { bytes: bytes.len() as usize, points: points.len() as usize })
    } else {
        match spec_commitments_mismatch(bytes, points, bytes.len()) {
            Some(e) => Err(e),
            None => Ok(()),
        }
    }
}

/// Validate the byte and point views of deduplicated commitments.
pub fn validate_parsed_commitments(batch: &ParsedCellKzgProofBatch) -> (r: Result<(), KzgError>)
    ensures
        r == spec_validate_parsed(batch.commitments_bytes@, batch.commitments@),
{
    if batch.commitments_bytes.len() != batch.commitments.len() {
        return Err(
            KzgError::CommitmentBytesLengthMismatch {
                bytes: batch.commitments_bytes.len(),
                points: batch.commitments.len(),
            },
        );
    }
    let mut index: usize = 0;
    while index < batch.commitments.len()
        invariant
            index <= batch.commitments@.len(),
            batch.commitments_bytes@.len() == batch.commitments@.len(),
            spec_commitments_mismatch(batch.commitments_bytes@, batch.commitments@, index as nat) is None,
        decreases batch.commitments@.len() - index,
    {
        let parsed = match bytes_to_kzg_commitment(batch.commitments_bytes[index]) {
            Ok(point) => point,
            Err(e) => {
                proof {
                    lemma_mismatch_sticks(batch.commitments_bytes@, batch.commitments@, (index + 1) as nat, batch.commitments@.len());
                }
                return Err(e);
            },
        };
        if !bytes48_equal(&parsed, &batch.commitments[index]) {
            proof {
                lemma_mismatch_sticks(batch.commitments_bytes@, batch.commitments@, (index + 1) as nat, batch.commitments@.len());
            }
            return Err(KzgError::CommitmentBytesPointMismatch { index });
        }
        index = index + 1;
    }
    Ok(())
}

/// A mismatch among the first `m` is the mismatch among more of them.
proof fn lemma_mismatch_sticks(bytes: Seq<KZGCommitment>, points: Seq<[u8; 48]>, m: nat, n: nat)
    requires
        m <= n,
        spec_commitments_mismatch(bytes, points, m) is Some,
    ensures
        spec_commitments_mismatch(bytes, points, n) == spec_commitments_mismatch(bytes, points, m),
    decreases n,
{
    if n > m {
        lemma_mismatch_sticks(bytes, points, m, (n - 1) as nat);
    }
}

/// Whether two 48-byte arrays are equal.
fn bytes48_equal(a: &[u8; 48], b: &[u8; 48]) -> (r: bool)
    ensures
        r == (*a == *b),
{
    let mut i: usize = 0;
    while i < 48
        invariant
            i <= 48,
            a@.len() == 48,
            b@.len() == 48,
            forall|t: int| 0 <= t < i ==> a@[t] == b@[t],
        decreases 48 - i,
    {
        if a[i] != b[i] {
            proof {
                assert(a@ != b@);
            }
            return false;
        }
        i = i + 1;
    }
    proof {
        assert(a@ =~= b@);
        assert(*a == *b);
    }
    true
}

/// The weight of each of `m` commitments: the sum of the challenge powers
/// of the first `n` cells that use it, reduced modulo the field order.
pub open spec fn spec_batch_weights(commitment_indices: Seq<CommitmentIndex>, r_powers: Seq<nat>, m: nat, n: nat) -> Seq<
    nat,
>
    decreases n,
{
    if n == 0 {
        Seq::new(m, |c: int| 0nat)
    } else {
        let prev = spec_batch_weights(commitment_indices, r_powers, m, (n - 1) as nat);
        let c = commitment_indices[n - 1].0 as int;
        prev.update(c, (prev[c] + r_powers[n - 1]) % bls_modulus())
    }
}

/// The polynomial through the points `xs` with values `ys`.
pub open spec fn spec_lagrange(xs: Seq<nat>, ys: Seq<nat>) -> Seq<nat> {
    Seq::new(xs.len(), |k: int| spec_lagrange_coef(xs, ys, xs.len(), k))
}

/// The points of cell `c`'s coset.
pub open spec fn spec_coset_points(c: u64) -> Seq<nat> {
    spec_ext_roots_brp().subrange(64 * c, 64 * c + 64)
}

/// The sum, over the first `n` cells, of each cell's interpolating
/// polynomial times its challenge power.
pub open spec fn spec_interp_sum(cell_indices: Seq<CellIndex>, cosets: Seq<Seq<nat>>, r_powers: Seq<nat>, n: nat) -> Seq<
    nat,
>
    decreases n,
{
    if n == 0 {
        Seq::new(FIELD_ELEMENTS_PER_CELL as nat, |i: int| 0nat)
    } else {
        spec_poly_add(
            spec_interp_sum(cell_indices, cosets, r_powers, (n - 1) as nat),
            spec_poly_mul(
                seq![r_powers[n - 1]],
                spec_lagrange(spec_coset_points(cell_indices[n - 1].0), cosets[n - 1]),
            ),
        )
    }
}

/// Each challenge power times its cell's coset shift to the power
/// `FIELD_ELEMENTS_PER_CELL`.
pub open spec fn spec_weighted_powers(cell_indices: Seq<CellIndex>, r_powers: Seq<nat>) -> Seq<nat> {
    Seq::new(
        r_powers.len(),
        |k: int|
            ((r_powers[k] * ((pow(spec_ext_roots_brp()[64 * cell_indices[k].0] as int, 64) % (bls_modulus() as int))
                as nat)) % bls_modulus()) as nat,
    )
}

/// Whether some two of cell `c`'s coset points coincide, so that
/// interpolation over them fails.
pub open spec fn spec_coset_has_duplicate(c: u64) -> bool {
    exists|i: int| #[trigger] spec_first_duplicate(spec_coset_points(c), i)
}

/// The first failure among the first `k` cells when each cell's
/// interpolating polynomial is built: an out-of-range cell index, or a
/// coset with a repeated point.
pub open spec fn spec_interp_error(cell_indices: Seq<CellIndex>, k: nat) -> Option<KzgError>
    decreases k,
{
    if k == 0 {
        None
    } else {
        match spec_interp_error(cell_indices, (k - 1) as nat) {
            Some(e) => Some(e),
            None => if cell_indices[k - 1].0 >= CELLS_PER_EXT_BLOB {
                Some(KzgError::CellIndexOutOfRange { index: cell_indices[k - 1].0, limit: CELLS_PER_EXT_BLOB })
            } else if spec_coset_has_duplicate(cell_indices[k - 1].0) {
                Some(KzgError::DuplicateInterpolationPoint)
            } else {
                None
            },
        }
    }
}

/// Once building the interpolating polynomials fails, more cells fail the
/// same way.
proof fn lemma_interp_error_sticks(cell_indices: Seq<CellIndex>, k: nat, m: nat)
    requires
        k <= m,
        spec_interp_error(cell_indices, k) is Some,
    ensures
        spec_interp_error(cell_indices, m) == spec_interp_error(cell_indices, k),
    decreases m - k,
{
    if k < m {
        lemma_interp_error_sticks(cell_indices, k, (m - 1) as nat);
    }
}

/// The pairing check of a non-empty batch with challenge `r`, step by step,
/// with the error each step fails with: `e(sum r^k proof_k, [tau^64]_2) =
/// e(sum weight_c C_c - [I(tau)]_1 + sum r^k h_k^64 proof_k, [1]_2)`.
/// Combining points fails with `InvalidG1` where a point does not decode;
/// the setup must hold the G2 power `tau^64` and the 64 G1 powers the
/// interpolation sum needs.
pub open spec fn spec_batch_result(
    setup: EthereumTrustedSetup,
    commitments: Seq<[u8; 48]>,
    commitment_indices: Seq<CommitmentIndex>,
    cell_indices: Seq<CellIndex>,
    cosets: Seq<Seq<nat>>,
    proofs: Seq<[u8; 48]>,
    r: nat,
) -> Result<bool, KzgError> {
    let n = cell_indices.len();
    let r_powers = spec_powers(r, n);
    let interp = spec_interp_sum(cell_indices, cosets, r_powers, n);
    match spec_g1_lincomb(proofs, r_powers) {
        None => Err(KzgError::InvalidG1),
        Some(ll) => if setup.g2_monomial@.len() <= FIELD_ELEMENTS_PER_CELL {
            Err(
                KzgError::MissingG2Power {
                    index: FIELD_ELEMENTS_PER_CELL,
                    available: setup.g2_monomial@.len() as usize,
                },
            )
        } else {
            match spec_g1_lincomb(commitments, spec_batch_weights(commitment_indices, r_powers, commitments.len(), n)) {
                None => Err(KzgError::InvalidG1),
                Some(rlc) => match spec_interp_error(cell_indices, n) {
                    Some(e) => Err(e),
                    None => if setup.g1_monomial@.len() < interp.len() {
                        Err(
                            KzgError::PolynomialTooLarge {
                                coefficients: interp.len() as usize,
                                setup_powers: setup.g1_monomial@.len() as usize,
                            },
                        )
                    } else {
                        match spec_g1_msm(spec_points48(setup.g1_monomial@.subrange(0, interp.len() as int)), interp) {
                            None => Err(KzgError::InvalidG1),
                            Some(rli) => match spec_g1_lincomb(proofs, spec_weighted_powers(cell_indices, r_powers)) {
                                None => Err(KzgError::InvalidG1),
                                Some(rlp) => match spec_g1_difference(rlc, rli) {
                                    None => Err(KzgError::InvalidG1),
                                    Some(d) => match spec_g1_sum(d, rlp) {
                                        None => Err(KzgError::InvalidG1),
                                        Some(rl) => match spec_kzg_pairing_check(
                                            ll,
                                            setup.g2_monomial@[FIELD_ELEMENTS_PER_CELL as int]@,
                                            rl,
                                        ) {
                                            Some(b) => Ok(b),
                                            None => Err(KzgError::InvalidG1),
                                        },
                                    },
                                },
                            },
                        }
                    },
                },
            }
        },
    }
}

/// The batch challenge of a parsed batch.
pub open spec fn spec_batch_challenge(batch: ParsedCellKzgProofBatch) -> nat {
    spec_be_value(
        spec_sha256(
            spec_challenge_transcript(
                batch.commitments_bytes@,
                batch.commitment_indices@,
                batch.cell_indices@,
                spec_cosets_values(batch.cosets_evals@),
                batch.proofs_bytes@,
            ),
        ),
    ) % bls_modulus()
}

/// Every cell of the batch has a commitment index, evaluations and a proof.
pub open spec fn spec_batch_lengths_ok(batch: ParsedCellKzgProofBatch) -> bool {
    let n = batch.cell_indices@.len();
    &&& batch.commitment_indices@.len() == n
    &&& batch.cosets_evals@.len() == n
    &&& batch.proofs_bytes@.len() == n
    &&& batch.proofs@.len() == n
}

/// The first out-of-range commitment index is at `k`.
pub open spec fn spec_first_bad_commitment_index(batch: ParsedCellKzgProofBatch, k: int) -> bool {
    &&& 0 <= k < batch.commitment_indices@.len()
    &&& batch.commitment_indices@[k].0 >= batch.commitments@.len()
    &&& forall|j: int| 0 <= j < k ==> (#[trigger] batch.commitment_indices@[j]).0 < batch.commitments@.len()
}

/// The first coset of the wrong length is at `k`.
pub open spec fn spec_first_bad_coset(batch: ParsedCellKzgProofBatch, k: int) -> bool {
    &&& 0 <= k < batch.cosets_evals@.len()
    &&& batch.cosets_evals@[k]@.len() != FIELD_ELEMENTS_PER_CELL
    &&& forall|j: int| 0 <= j < k ==> (#[trigger] batch.cosets_evals@[j])@.len() == FIELD_ELEMENTS_PER_CELL
}

/// Verify batch cell KZG proofs from parsed commitments, cells, and proofs.
#[verifier::loop_isolation(false)]
#[verifier::spinoff_prover]
pub fn verify_cell_kzg_proof_batch_impl(setup: &EthereumTrustedSetup, batch: &ParsedCellKzgProofBatch) -> (r: Result<
    bool,
    KzgError,
>)
    requires
        forall|k: int| 0 <= k < batch.cosets_evals@.len() ==> spec_all_wf(#[trigger] batch.cosets_evals@[k]@),
    ensures
        ({
            let n = batch.cell_indices@.len();
            match r {
                Ok(b) => {
                    &&& spec_validate_parsed(batch.commitments_bytes@, batch.commitments@) is Ok
                    &&& spec_batch_lengths_ok(*batch)
                    &&& forall|k: int|
                        0 <= k < n ==> (#[trigger] batch.commitment_indices@[k]).0 < batch.commitments@.len()
                    &&& forall|k: int| 0 <= k < n ==> (#[trigger] batch.cosets_evals@[k])@.len() == FIELD_ELEMENTS_PER_CELL
                    &&& n == 0 ==> b
                    &&& n > 0 ==> spec_batch_result(
                        *setup,
                        batch.commitments@,
                        batch.commitment_indices@,
                        batch.cell_indices@,
                        spec_cosets_values(batch.cosets_evals@),
                        batch.proofs@,
                        spec_batch_challenge(*batch),
                    ) == Ok::<bool, KzgError>(b)
                },
                Err(e) => if spec_validate_parsed(batch.commitments_bytes@, batch.commitments@) is Err {
                    Err::<(), KzgError>(e) == spec_validate_parsed(batch.commitments_bytes@, batch.commitments@)
                } else if batch.commitment_indices@.len() != n {
                    e == (KzgError::LengthMismatch {
                        context: "commitment indices",
                        expected: n as usize,
                        got: batch.commitment_indices@.len() as usize,
                    })
                } else if batch.cosets_evals@.len() != n {
                    e == (KzgError::LengthMismatch {
                        context: "coset evaluations",
                        expected: n as usize,
                        got: batch.cosets_evals@.len() as usize,
                    })
                } else if batch.proofs_bytes@.len() != n || batch.proofs@.len() != n {
                    e == (KzgError::LengthMismatch {
                        context: "proofs",
                        expected: n as usize,
                        got: (if batch.proofs_bytes@.len() <= batch.proofs@.len() {
                            batch.proofs_bytes@.len()
                        } else {
                            batch.proofs@.len()
                        }) as usize,
                    })
                } else if exists|k: int| spec_first_bad_commitment_index(*batch, k) {
                    exists|k: int|
                        spec_first_bad_commitment_index(*batch, k) && e == (KzgError::CommitmentIndexOutOfRange {
                            index: (#[trigger] batch.commitment_indices@[k]).0,
                            commitments: batch.commitments@.len() as usize,
                        })
                } else if exists|k: int| spec_first_bad_coset(*batch, k) {
                    exists|k: int|
                        spec_first_bad_coset(*batch, k) && e == (KzgError::InvalidCosetLength {
                            expected: FIELD_ELEMENTS_PER_CELL,
                            got: (#[trigger] batch.cosets_evals@[k])@.len() as usize,
                        })
                } else {
                    &&& n > 0
                    &&& spec_batch_result(
                        *setup,
                        batch.commitments@,
                        batch.commitment_indices@,
                        batch.cell_indices@,
                        spec_cosets_values(batch.cosets_evals@),
                        batch.proofs@,
                        spec_batch_challenge(*batch),
                    ) == Err::<bool, KzgError>(e)
                }
            }
        }),
{
    let n = batch.cell_indices.len();
    match validate_parsed_commitments(batch) {
        Ok(()) => {},
        Err(e) => {
            return Err(e);
        },
    }
    if batch.commitment_indices.len() != n {
        return Err(
            KzgError::LengthMismatch {
                context: "commitment indices",
                expected: n,
                got: batch.commitment_indices.len(),
            },
        );
    }
    if batch.cosets_evals.len() != n {
        return Err(
            KzgError::LengthMismatch { context: "coset evaluations", expected: n, got: batch.cosets_evals.len() },
        );
    }
    if batch.proofs_bytes.len() != n || batch.proofs.len() != n {
        let got = if batch.proofs_bytes.len() <= batch.proofs.len() {
            batch.proofs_bytes.len()
        } else {
            batch.proofs.len()
        };
        return Err(KzgError::LengthMismatch { context: "proofs", expected: n, got });
    }
    let m = batch.commitments.len();
    let mut k: usize = 0;
    while k < n
        invariant
            k <= n,
            forall|j: int| 0 <= j < k ==> (#[trigger] batch.commitment_indices@[j]).0 < m,
        decreases n - k,
    {
        if batch.commitment_indices[k].0 >= m as u64 {
            proof {
                assert(spec_first_bad_commitment_index(*batch, k as int));
            }
            return Err(
                KzgError::CommitmentIndexOutOfRange { index: batch.commitment_indices[k].0, commitments: m },
            );
        }
        k = k + 1;
    }
    let mut k: usize = 0;
    while k < n
        invariant
            k <= n,
            forall|j: int| 0 <= j < k ==> (#[trigger] batch.cosets_evals@[j])@.len() == FIELD_ELEMENTS_PER_CELL,
        decreases n - k,
    {
        if batch.cosets_evals[k].len() != FIELD_ELEMENTS_PER_CELL {
            proof {
                assert(spec_first_bad_coset(*batch, k as int));
            }
            return Err(
                KzgError::InvalidCosetLength { expected: FIELD_ELEMENTS_PER_CELL, got: batch.cosets_evals[k].len() },
            );
        }
        k = k + 1;
    }
    proof {
        assert(!exists|k: int| spec_first_bad_commitment_index(*batch, k));
        assert(!exists|k: int| spec_first_bad_coset(*batch, k));
    }
    if n == 0 {
        return Ok(true);
    }
    let r = compute_verify_cell_kzg_proof_batch_challenge(
        batch.commitments_bytes.as_slice(),
        batch.commitment_indices.as_slice(),
        batch.cell_indices.as_slice(),
        batch.cosets_evals.as_slice(),
        batch.proofs_bytes.as_slice(),
    );
    let r_powers = compute_powers(r, n);
    let ghost rp = spec_field_values(r_powers@);
    proof {
        assert(rp.len() == r_powers@.len());
    }
    let ll = match g1_lincomb(batch.proofs.as_slice(), r_powers.as_slice()) {
        Ok(point) => point,
        Err(e) => {
            return Err(e);
        },
    };
    if setup.g2_monomial.len() <= FIELD_ELEMENTS_PER_CELL {
        return Err(KzgError::MissingG2Power { index: FIELD_ELEMENTS_PER_CELL, available: setup.g2_monomial.len() });
    }
    let lr = setup.g2_monomial[FIELD_ELEMENTS_PER_CELL];
    let mut weights: Vec<BLSFieldElement> = Vec::new();
    while weights.len() < m
        invariant
            weights@.len() <= m,
            spec_all_wf(weights@),
            forall|c: int| 0 <= c < weights@.len() ==> (#[trigger] weights@[c]).value() == 0,
        decreases m - weights@.len(),
    {
        weights.push(BLSFieldElement::zero());
    }
    proof {
        assert(spec_field_values(weights@) =~= spec_batch_weights(batch.commitment_indices@, rp, m as nat, 0));
    }
    let mut k: usize = 0;
    while k < n
        invariant
            k <= n,
            weights@.len() == m,
            spec_all_wf(weights@),
            spec_field_values(weights@) == spec_batch_weights(batch.commitment_indices@, rp, m as nat, k as nat),
        decreases n - k,
    {
        let c = batch.commitment_indices[k].0 as usize;
        let updated = field_add(weights[c], r_powers[k]);
        weights.set(c, updated);
        proof {
            assert(spec_field_values(weights@) =~= spec_batch_weights(
                batch.commitment_indices@,
                rp,
                m as nat,
                (k + 1) as nat,
            ));
        }
        k = k + 1;
    }
    let rlc = match g1_lincomb(batch.commitments.as_slice(), weights.as_slice()) {
        Ok(point) => point,
        Err(e) => {
            return Err(e);
        },
    };
    let ghost cosets = spec_cosets_values(batch.cosets_evals@);
    let mut sum_interp_polys_coeff: Vec<BLSFieldElement> = Vec::new();
    while sum_interp_polys_coeff.len() < FIELD_ELEMENTS_PER_CELL
        invariant
            sum_interp_polys_coeff@.len() <= FIELD_ELEMENTS_PER_CELL,
            spec_all_wf(sum_interp_polys_coeff@),
            forall|c: int| 0 <= c < sum_interp_polys_coeff@.len() ==> (#[trigger] sum_interp_polys_coeff@[c]).value()
                == 0,
        decreases FIELD_ELEMENTS_PER_CELL - sum_interp_polys_coeff@.len(),
    {
        sum_interp_polys_coeff.push(BLSFieldElement::zero());
    }
    proof {
        assert(spec_field_values(sum_interp_polys_coeff@) =~= spec_interp_sum(
            batch.cell_indices@,
            cosets,
            rp,
            0,
        ));
    }
    let mut k: usize = 0;
    while k < n
        invariant
            k <= n,
            sum_interp_polys_coeff@.len() == FIELD_ELEMENTS_PER_CELL,
            spec_all_wf(sum_interp_polys_coeff@),
            spec_field_values(sum_interp_polys_coeff@) == spec_interp_sum(batch.cell_indices@, cosets, rp, k as nat),
            spec_interp_error(batch.cell_indices@, k as nat) is None,
            forall|j: int| 0 <= j < k ==> (#[trigger] batch.cell_indices@[j]).0 < CELLS_PER_EXT_BLOB,
        decreases n - k,
    {
        let coset = match coset_for_cell(batch.cell_indices[k]) {
            Ok(coset) => coset,
            Err(e) => {
                proof {
                    assert(batch.cell_indices@[k as int].0 >= CELLS_PER_EXT_BLOB);
                    assert(spec_interp_error(batch.cell_indices@, (k + 1) as nat) == Some(e));
                    lemma_interp_error_sticks(batch.cell_indices@, (k + 1) as nat, n as nat);
                }
                return Err(e);
            },
        };
        let interp_poly_coeff = match interpolate_polynomialcoeff(coset.as_slice(), batch.cosets_evals[k].as_slice()) {
            Ok(poly) => poly,
            Err(e) => {
                proof {
                    assert(spec_field_values(coset@) == spec_coset_points(batch.cell_indices@[k as int].0));
                    assert(spec_coset_has_duplicate(batch.cell_indices@[k as int].0));
                    assert(spec_interp_error(batch.cell_indices@, (k + 1) as nat) == Some(e));
                    lemma_interp_error_sticks(batch.cell_indices@, (k + 1) as nat, n as nat);
                }
                return Err(e);
            },
        };
        proof {
            if spec_coset_has_duplicate(batch.cell_indices@[k as int].0) {
                let i = choose|i: int| #[trigger] spec_first_duplicate(spec_coset_points(batch.cell_indices@[k as int].0), i);
                assert(spec_field_values(coset@) == spec_coset_points(batch.cell_indices@[k as int].0));
                assert(spec_first_duplicate(spec_field_values(coset@), i));
                assert(false);
            }
            assert(spec_interp_error(batch.cell_indices@, (k + 1) as nat) is None);
        }
        let single = vec![r_powers[k]];
        let interp_poly_scaled_coeff = multiply_polynomialcoeff(single.as_slice(), interp_poly_coeff.as_slice());
        let next = add_polynomialcoeff(sum_interp_polys_coeff.as_slice(), interp_poly_scaled_coeff.as_slice());
        proof {
            let xs = spec_field_values(coset@);
            let ys = spec_field_values(batch.cosets_evals@[k as int]@);
            assert(cosets[k as int] == ys);
            assert(xs == spec_coset_points(batch.cell_indices@[k as int].0));
            assert(spec_field_values(interp_poly_coeff@) =~= spec_lagrange(xs, ys));
            assert(spec_field_values(single@) =~= seq![rp[k as int]]);
            assert(spec_field_values(next@) == spec_interp_sum(batch.cell_indices@, cosets, rp, (k + 1) as nat));
            assert(spec_field_values(next@).len() == next@.len());
        }
        sum_interp_polys_coeff = next;
        k = k + 1;
    }
    let rli = match setup_g1_lincomb(setup.g1_monomial.as_slice(), sum_interp_polys_coeff.as_slice()) {
        Ok(point) => point,
        Err(e) => {
            return Err(e);
        },
    };
    let mut weighted_r_powers: Vec<BLSFieldElement> = Vec::new();
    let mut k: usize = 0;
    while k < n
        invariant
            k <= n,
            weighted_r_powers@.len() == k,
            spec_all_wf(weighted_r_powers@),
            forall|j: int| 0 <= j < k ==> (#[trigger] weighted_r_powers@[j]).value() == spec_weighted_powers(
                batch.cell_indices@,
                rp,
            )[j],
        decreases n - k,
    {
        let h_k = match coset_shift_for_cell(batch.cell_indices[k]) {
            Ok(h) => h,
            Err(e) => {
                proof {
                    assert(batch.cell_indices@[k as int].0 >= CELLS_PER_EXT_BLOB);
                }
                return Err(e);
            },
        };
        let power = field_pow(h_k, FIELD_ELEMENTS_PER_CELL as u64);
        weighted_r_powers.push(field_mul(r_powers[k], power));
        k = k + 1;
    }
    proof {
        assert(spec_field_values(weighted_r_powers@) =~= spec_weighted_powers(batch.cell_indices@, rp));
    }
    let rlp = match g1_lincomb(batch.proofs.as_slice(), weighted_r_powers.as_slice()) {
        Ok(point) => point,
        Err(e) => {
            return Err(e);
        },
    };
    let difference = match g1_difference(&rlc, &rli) {
        Some(point) => point,
        None => {
            return Err(KzgError::InvalidG1);
        },
    };
    let rl = match crate::crypto::bls::g1_sum(&difference, &rlp) {
        Some(point) => point,
        None => {
            return Err(KzgError::InvalidG1);
        },
    };
    match kzg_pairing_check(&ll, &lr, &rl) {
        Some(b) => Ok(b),
        None => Err(KzgError::InvalidG1),
    }
}


/// The first position among the first `m` of `u` holding `c`.
pub open spec fn spec_first_index(u: Seq<KZGCommitment>, c: KZGCommitment, m: nat) -> Option<int>
    decreases m,
{
    if m == 0 {
        None
    } else {
        match spec_first_index(u, c, (m - 1) as nat) {
            Some(j) => Some(j),
            None => if u[m - 1] == c {
                Some(m - 1)
            } else {
                None
            },
        }
    }
}

/// The first `n` commitments deduplicated: the distinct ones in order of
/// first appearance, and for each commitment the position of its copy.
pub open spec fn spec_dedup(commitments: Seq<KZGCommitment>, n: nat) -> (Seq<KZGCommitment>, Seq<CommitmentIndex>)
    decreases n,
{
    if n == 0 {
        (Seq::empty(), Seq::empty())
    } else {
        let (u, idx) = spec_dedup(commitments, (n - 1) as nat);
        let c = commitments[n - 1];
        match spec_first_index(u, c, u.len()) {
            Some(j) => (u, idx.push(CommitmentIndex(j as u64))),
            None => (u.push(c), idx.push(CommitmentIndex(u.len() as u64))),
        }
    }
}

/// The bytes of commitments as compressed points.
pub open spec fn spec_commitment_points(u: Seq<KZGCommitment>) -> Seq<[u8; 48]> {
    u.map_values(|c: KZGCommitment| c.0)
}

/// The bytes of proofs as compressed points.
pub open spec fn spec_proof_points(p: Seq<KZGProof>) -> Seq<[u8; 48]> {
    p.map_values(|c: KZGProof| c.0)
}

/// The first out-of-range cell index is at `k`.
pub open spec fn spec_first_bad_cell_index(cell_indices: Seq<CellIndex>, k: int) -> bool {
    &&& 0 <= k < cell_indices.len()
    &&& cell_indices[k].0 >= CELLS_PER_EXT_BLOB
    &&& forall|j: int| 0 <= j < k ==> (#[trigger] cell_indices[j]).0 < CELLS_PER_EXT_BLOB
}

/// The first `m` positions of `u` hold its distinct entries and `idx` points
/// into them: the shape deduplication keeps.
proof fn lemma_first_index(u: Seq<KZGCommitment>, c: KZGCommitment, m: nat)
    requires
        m <= u.len(),
    ensures
        match spec_first_index(u, c, m) {
            Some(j) => 0 <= j < m && u[j] == c,
            None => forall|j: int| 0 <= j < m ==> u[j] != c,
        },
    decreases m,
{
    if m > 0 {
        lemma_first_index(u, c, (m - 1) as nat);
    }
}

/// Deduplication keeps the index list as long as the input and pointing into
/// the distinct list.
proof fn lemma_dedup_shape(commitments: Seq<KZGCommitment>, n: nat)
    requires
        n <= commitments.len(),
    ensures
        spec_dedup(commitments, n).1.len() == n,
        spec_dedup(commitments, n).0.len() <= n,
        forall|k: int| 0 <= k < n ==> (#[trigger] spec_dedup(commitments, n).1[k]).0 < spec_dedup(commitments, n).0.len(),
        forall|j: int| 0 <= j < spec_dedup(commitments, n).0.len() ==> exists|k: int| 0 <= k < n && commitments[k] == #[trigger] spec_dedup(commitments, n).0[j],
    decreases n,
{
    if n > 0 {
        lemma_dedup_shape(commitments, (n - 1) as nat);
        let (u, idx) = spec_dedup(commitments, (n - 1) as nat);
        lemma_first_index(u, commitments[n - 1], u.len());
        let (u2, idx2) = spec_dedup(commitments, n);
        assert forall|j: int| 0 <= j < u2.len() implies exists|k: int| 0 <= k < n && commitments[k] == #[trigger] u2[j] by {
            if j < u.len() {
                assert(u2[j] == u[j]);
                let k = choose|k: int| 0 <= k < n - 1 && commitments[k] == u[j];
                assert(0 <= k < n && commitments[k] == u2[j]);
            } else {
                assert(u2[j] == commitments[n - 1]);
                assert(0 <= n - 1 < n && commitments[n - 1] == u2[j]);
            }
        }
    }
}

/// What verifying a batch of cell proofs gives: `Ok(true)` or `Ok(false)`
/// by the pairing check where every input is well formed, else the error
/// saying why.
pub open spec fn spec_batch_outcome(
    setup: EthereumTrustedSetup,
    commitments_bytes: Seq<KZGCommitment>,
    cell_indices: Seq<CellIndex>,
    cells: Seq<Cell>,
    proofs_bytes: Seq<KZGProof>,
    r: Result<bool, KzgError>,
) -> bool {
        let n = cell_indices.len();
        let (unique, indices) = spec_dedup(commitments_bytes, commitments_bytes.len());
        let lengths_ok = commitments_bytes.len() == n && cells.len() == n && proofs_bytes.len() == n;
        match r {
            Ok(b) => {
                &&& lengths_ok
                &&& forall|k: int| 0 <= k < n ==> (#[trigger] cell_indices[k]).0 < CELLS_PER_EXT_BLOB
                &&& forall|k: int| 0 <= k < n ==> spec_valid_g1((#[trigger] commitments_bytes[k]).0@)
                &&& spec_cells_canonical(cells)
                &&& forall|k: int| 0 <= k < n ==> spec_valid_g1((#[trigger] proofs_bytes[k]).0@)
                &&& n == 0 ==> b
                &&& n > 0 ==> spec_batch_result(
                    setup,
                    spec_commitment_points(unique),
                    indices,
                    cell_indices,
                    spec_cell_values(cells),
                    spec_proof_points(proofs_bytes),
                    spec_be_value(
                        spec_sha256(
                            spec_challenge_transcript(
                                unique,
                                indices,
                                cell_indices,
                                spec_cell_values(cells),
                                proofs_bytes,
                            ),
                        ),
                    ) % bls_modulus(),
                ) == Ok::<bool, KzgError>(b)
            },
            Err(e) => if !lengths_ok {
                e == (KzgError::BatchLengthMismatch {
                    commitments: commitments_bytes.len() as usize,
                    cell_indices: n as usize,
                    cells: cells.len() as usize,
                    proofs: proofs_bytes.len() as usize,
                })
            } else if exists|k: int| spec_first_bad_cell_index(cell_indices, k) {
                exists|k: int|
                    spec_first_bad_cell_index(cell_indices, k) && e == (KzgError::CellIndexOutOfRange {
                        index: (#[trigger] cell_indices[k]).0,
                        limit: CELLS_PER_EXT_BLOB,
                    })
            } else if exists|k: int| 0 <= k < n && !spec_valid_g1((#[trigger] commitments_bytes[k]).0@) {
                e == KzgError::InvalidG1
            } else if !spec_cells_canonical(cells) {
                e == KzgError::InvalidFieldElement
            } else if exists|k: int| 0 <= k < n && !spec_valid_g1((#[trigger] proofs_bytes[k]).0@) {
                e == KzgError::InvalidG1
            } else {
                &&& n > 0
                &&& spec_batch_result(
                    setup,
                    spec_commitment_points(unique),
                    indices,
                    cell_indices,
                    spec_cell_values(cells),
                    spec_proof_points(proofs_bytes),
                    spec_be_value(
                        spec_sha256(
                            spec_challenge_transcript(
                                unique,
                                indices,
                                cell_indices,
                                spec_cell_values(cells),
                                proofs_bytes,
                            ),
                        ),
                    ) % bls_modulus(),
                ) == Err::<bool, KzgError>(e)
            }
        }
    }

/// Verify batch cell KZG proofs from serialized commitments, cells, and
/// proofs.
#[verifier::loop_isolation(false)]
#[verifier::spinoff_prover]
pub fn verify_cell_kzg_proof_batch(
    setup: &EthereumTrustedSetup,
    commitments_bytes: &[KZGCommitment],
    cell_indices: &[CellIndex],
    cells: &[Cell],
    proofs_bytes: &[KZGProof],
) -> (r: Result<bool, KzgError>)
    ensures
        spec_batch_outcome(*setup, commitments_bytes@, cell_indices@, cells@, proofs_bytes@, r),
{
    let n = cell_indices.len();
    if commitments_bytes.len() != n || commitments_bytes.len() != cells.len() || commitments_bytes.len()
        != proofs_bytes.len() {
        return Err(
            KzgError::BatchLengthMismatch {
                commitments: commitments_bytes.len(),
                cell_indices: n,
                cells: cells.len(),
                proofs: proofs_bytes.len(),
            },
        );
    }
    let mut k: usize = 0;
    while k < n
        invariant
            k <= n,
            forall|j: int| 0 <= j < k ==> (#[trigger] cell_indices@[j]).0 < CELLS_PER_EXT_BLOB,
        decreases n - k,
    {
        if cell_indices[k].0 >= CELLS_PER_EXT_BLOB as u64 {
            proof {
                assert(spec_first_bad_cell_index(cell_indices@, k as int));
            }
            return Err(KzgError::CellIndexOutOfRange { index: cell_indices[k].0, limit: CELLS_PER_EXT_BLOB });
        }
        k = k + 1;
    }
    proof {
        assert(!exists|k: int| spec_first_bad_cell_index(cell_indices@, k));
    }
    let mut deduplicated_commitments_bytes: Vec<KZGCommitment> = Vec::new();
    let mut deduplicated_commitments: Vec<[u8; 48]> = Vec::new();
    let mut commitment_indices: Vec<CommitmentIndex> = Vec::new();
    let mut t: usize = 0;
    while t < n
        invariant
            t <= n,
            n == commitments_bytes@.len(),
            (deduplicated_commitments_bytes@, commitment_indices@) == spec_dedup(commitments_bytes@, t as nat),
            deduplicated_commitments@ == spec_commitment_points(deduplicated_commitments_bytes@),
            deduplicated_commitments_bytes@.len() <= t,
            forall|j: int| 0 <= j < t ==> spec_valid_g1((#[trigger] commitments_bytes@[j]).0@),
        decreases n - t,
    {
        let commitment = commitments_bytes[t];
        let ghost u = deduplicated_commitments_bytes@;
        let mut position: usize = 0;
        let mut found = false;
        while !found && position < deduplicated_commitments_bytes.len()
            invariant
                position <= deduplicated_commitments_bytes@.len(),
                u == deduplicated_commitments_bytes@,
                spec_first_index(u, commitment, position as nat) is None,
                found ==> position < u.len() && u[position as int] == commitment,
            decreases deduplicated_commitments_bytes@.len() - position, if found { 0int } else { 1int },
        {
            if bytes48_equal(&deduplicated_commitments_bytes[position].0, &commitment.0) {
                found = true;
            } else {
                position = position + 1;
            }
        }
        if found {
            proof {
                assert(deduplicated_commitments_bytes@[position as int] == commitment);
                lemma_first_index_later(u, commitment, (position + 1) as nat, u.len());
                lemma_dedup_shape(commitments_bytes@, t as nat);
                let k = choose|k: int| 0 <= k < t && commitments_bytes@[k] == u[position as int];
                assert(spec_valid_g1(commitments_bytes@[k].0@));
                assert(commitments_bytes@[t as int] == commitments_bytes@[k]);
            }
            commitment_indices.push(CommitmentIndex(position as u64));
        } else {
            let point = match bytes_to_kzg_commitment(commitment) {
                Ok(point) => point,
                Err(e) => {
                    return Err(e);
                },
            };
            commitment_indices.push(CommitmentIndex(deduplicated_commitments_bytes.len() as u64));
            deduplicated_commitments_bytes.push(commitment);
            deduplicated_commitments.push(point);
        }
        proof {
            lemma_dedup_shape(commitments_bytes@, t as nat);
            assert(spec_commitment_points(deduplicated_commitments_bytes@) =~= deduplicated_commitments@);
        }
        t = t + 1;
    }
    let mut cosets_evals: Vec<Vec<BLSFieldElement>> = Vec::new();
    let mut k: usize = 0;
    while k < n
        invariant
            k <= n,
            n == cells@.len(),
            cosets_evals@.len() == k,
            forall|j: int| 0 <= j < k ==> spec_chunks_canonical_cell(cells@[j]),
            forall|j: int| 0 <= j < k ==> spec_all_wf(#[trigger] cosets_evals@[j]@),
            forall|j: int| 0 <= j < k ==> cosets_evals@[j]@.len() == FIELD_ELEMENTS_PER_CELL,
            forall|j: int| 0 <= j < k ==> spec_field_values(#[trigger] cosets_evals@[j]@) == spec_cell_values(cells@)[j],
        decreases n - k,
    {
        let evals = match cell_to_coset_evals(cells[k]) {
            Ok(evals) => evals,
            Err(e) => {
                proof {
                    assert(!spec_chunks_canonical_cell(cells@[k as int]));
                }
                return Err(e);
            },
        };
        proof {
            assert(spec_field_values(evals@) =~= spec_cell_values(cells@)[k as int]);
        }
        cosets_evals.push(evals);
        proof {
            assert(cosets_evals@[k as int] == evals);
        }
        k = k + 1;
    }
    let mut proofs: Vec<[u8; 48]> = Vec::new();
    let mut k: usize = 0;
    while k < n
        invariant
            k <= n,
            n == proofs_bytes@.len(),
            proofs@ == spec_proof_points(proofs_bytes@.subrange(0, k as int)),
            forall|j: int| 0 <= j < k ==> spec_valid_g1((#[trigger] proofs_bytes@[j]).0@),
        decreases n - k,
    {
        let point = match bytes_to_kzg_proof(proofs_bytes[k]) {
            Ok(point) => point,
            Err(e) => {
                return Err(e);
            },
        };
        proofs.push(point);
        proof {
            assert(proofs@ =~= spec_proof_points(proofs_bytes@.subrange(0, k + 1)));
        }
        k = k + 1;
    }
    proof {
        assert(proofs_bytes@.subrange(0, n as int) =~= proofs_bytes@);
        assert(spec_cosets_values(cosets_evals@) =~= spec_cell_values(cells@));
        lemma_dedup_shape(commitments_bytes@, n as nat);
    }
    let batch = ParsedCellKzgProofBatch {
        commitments_bytes: deduplicated_commitments_bytes,
        commitments: deduplicated_commitments,
        commitment_indices,
        cell_indices: copy_items(cell_indices),
        cosets_evals,
        proofs_bytes: copy_items(proofs_bytes),
        proofs,
    };
    proof {
        lemma_parsed_commitments_agree(batch.commitments_bytes@, batch.commitments@, batch.commitments@.len());
    }
    verify_cell_kzg_proof_batch_impl(setup, &batch)
}

/// The items of a slice, copied into a vector.
fn copy_items<T: Copy>(items: &[T]) -> (r: Vec<T>)
    ensures
        r@ == items@,
{
    let mut out: Vec<T> = Vec::new();
    let mut k: usize = 0;
    while k < items.len()
        invariant
            k <= items@.len(),
            out@ == items@.subrange(0, k as int),
        decreases items@.len() - k,
    {
        out.push(items[k]);
        proof {
            assert(out@ =~= items@.subrange(0, k + 1));
        }
        k = k + 1;
    }
    proof {
        assert(items@.subrange(0, items@.len() as int) =~= items@);
    }
    out
}

/// Each cell's chunks stand for field elements.
pub open spec fn spec_chunks_canonical_cell(cell: Cell) -> bool {
    super::field::spec_chunks_canonical(cell.0@, FIELD_ELEMENTS_PER_CELL as nat)
}

/// A first occurrence found at `m - 1` stays the first occurrence.
proof fn lemma_first_index_later(u: Seq<KZGCommitment>, c: KZGCommitment, m: nat, len: nat)
    requires
        1 <= m <= len <= u.len(),
        spec_first_index(u, c, (m - 1) as nat) is None,
        u[m - 1] == c,
    ensures
        spec_first_index(u, c, len) == Some((m - 1) as int),
    decreases len,
{
    if len > m {
        lemma_first_index_later(u, c, m, (len - 1) as nat);
    }
}

/// Validated commitments agree with their points.
proof fn lemma_parsed_commitments_agree(bytes: Seq<KZGCommitment>, points: Seq<[u8; 48]>, n: nat)
    requires
        n <= bytes.len(),
        points == spec_commitment_points(bytes),
        forall|j: int| 0 <= j < bytes.len() ==> spec_valid_g1((#[trigger] bytes[j]).0@),
    ensures
        spec_commitments_mismatch(bytes, points, n) is None,
    decreases n,
{
    if n > 0 {
        lemma_parsed_commitments_agree(bytes, points, (n - 1) as nat);
        assert(points[n - 1] == bytes[n - 1].0);
    }
}

} // verus!
