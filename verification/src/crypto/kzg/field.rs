//! Elements of the BLS12-381 scalar field, the coefficients and evaluations
//! of KZG polynomials. The arithmetic is `ark_ff`'s; the values are held as
//! canonical little-endian 64-bit limbs.
use ark_bls12_381::Fr;
use ark_ff::{BigInt, BigInteger, FftField, Field, PrimeField};
use vstd::arithmetic::power::pow;
use vstd::prelude::*;

use super::error::KzgError;
use crate::constants::{BYTES_PER_BLOB, BYTES_PER_FIELD_ELEMENT, FIELD_ELEMENTS_PER_BLOB, FIELD_ELEMENTS_PER_CELL};
use crate::primitives::Cell;
use crate::ssz::merkle::{sha256_digest, spec_sha256};

verus! {

/// The order of the BLS12-381 scalar field.
pub open spec fn bls_modulus() -> nat {
    52435875175126190479447740508185965837690552500527637822603658699938581184513nat
}

/// The number four limbs of 64 bits stand for, least significant first.
pub open spec fn spec_limbs_value(limbs: [u64; 4]) -> nat {
    (limbs[0] as nat) + (limbs[1] as nat) * 0x1_0000_0000_0000_0000nat + (limbs[2] as nat)
        * 0x1_0000_0000_0000_0000_0000_0000_0000_0000nat + (limbs[3] as nat)
        * 0x1_0000_0000_0000_0000_0000_0000_0000_0000_0000_0000_0000_0000nat
}

/// The number the first `k` bytes of a big-endian byte string stand for.
pub open spec fn spec_be_prefix(bytes: Seq<u8>, k: nat) -> nat
    decreases k,
{
    if k == 0 {
        0
    } else {
        spec_be_prefix(bytes, (k - 1) as nat) * 256 + bytes[k - 1] as nat
    }
}

/// The number a big-endian byte string stands for.
pub open spec fn spec_be_value(bytes: Seq<u8>) -> nat {
    spec_be_prefix(bytes, bytes.len())
}

/// A scalar-field element: an integer below the modulus, in four limbs.
#[derive(Debug, Clone, Copy, PartialEq, Eq)]
pub struct BLSFieldElement {
    /// Little-endian 64-bit limbs of the canonical value.
    pub limbs: [u64; 4],
}

impl BLSFieldElement {
    /// The integer the element stands for.
    pub open spec fn value(self) -> nat {
        spec_limbs_value(self.limbs)
    }

    /// The element is canonical: below the modulus.
    pub open spec fn wf(self) -> bool {
        self.value() < bls_modulus()
    }

    /// The element `value`, for a value that fits one limb.
    pub fn from_u64(value: u64) -> (r: Self)
        ensures
            r.value() == value,
            r.wf(),
    {
        BLSFieldElement { limbs: [value, 0, 0, 0] }
    }

    /// Zero.
    pub fn zero() -> (r: Self)
        ensures
            r.value() == 0,
            r.wf(),
    {
        Self::from_u64(0)
    }

    /// One.
    pub fn one() -> (r: Self)
        ensures
            r.value() == 1,
            r.wf(),
    {
        Self::from_u64(1)
    }
}

/// The values of a sequence of elements.
pub open spec fn spec_field_values(s: Seq<BLSFieldElement>) -> Seq<nat> {
    s.map_values(|e: BLSFieldElement| e.value())
}

/// Every element of the sequence is canonical.
pub open spec fn spec_all_wf(s: Seq<BLSFieldElement>) -> bool {
    forall|i: int| 0 <= i < s.len() ==> (#[trigger] s[i]).wf()
}

/// `ark_ff` addition of two scalar-field elements (`Fr + Fr`): the sum
/// reduced modulo the field order.
#[verifier::external_body]
pub(crate) fn field_add(a: BLSFieldElement, b: BLSFieldElement) -> (c: BLSFieldElement)
    requires
        a.wf(),
        b.wf(),
    ensures
        c.wf(),
        c.value() == (a.value() + b.value()) % bls_modulus(),
{
    let sum = Fr::new(BigInt::new(a.limbs)) + Fr::new(BigInt::new(b.limbs));
    BLSFieldElement { limbs: sum.into_bigint().0 }
}

/// `ark_ff` subtraction of two scalar-field elements (`Fr - Fr`): the
/// difference reduced modulo the field order.
#[verifier::external_body]
pub(crate) fn field_sub(a: BLSFieldElement, b: BLSFieldElement) -> (c: BLSFieldElement)
    requires
        a.wf(),
        b.wf(),
    ensures
        c.wf(),
        c.value() == (a.value() - b.value()) % (bls_modulus() as int),
{
    let difference = Fr::new(BigInt::new(a.limbs)) - Fr::new(BigInt::new(b.limbs));
    BLSFieldElement { limbs: difference.into_bigint().0 }
}

/// `ark_ff` multiplication of two scalar-field elements (`Fr * Fr`): the
/// product reduced modulo the field order.
#[verifier::external_body]
pub(crate) fn field_mul(a: BLSFieldElement, b: BLSFieldElement) -> (c: BLSFieldElement)
    requires
        a.wf(),
        b.wf(),
    ensures
        c.wf(),
        c.value() == (a.value() * b.value()) % bls_modulus(),
{
    let product = Fr::new(BigInt::new(a.limbs)) * Fr::new(BigInt::new(b.limbs));
    BLSFieldElement { limbs: product.into_bigint().0 }
}

/// `ark_ff` negation of a scalar-field element (`-Fr`): the additive inverse
/// modulo the field order.
#[verifier::external_body]
pub(crate) fn field_neg(a: BLSFieldElement) -> (c: BLSFieldElement)
    requires
        a.wf(),
    ensures
        c.wf(),
        c.value() == (0 - a.value()) % (bls_modulus() as int),
{
    let negated = -Fr::new(BigInt::new(a.limbs));
    BLSFieldElement { limbs: negated.into_bigint().0 }
}

/// The multiplicative inverse `ark_ff` gives for a canonical value.
pub uninterp spec fn spec_field_inverse(x: nat) -> nat;

/// `ark_ff::Field::inverse`: the multiplicative inverse, and `None` exactly
/// for zero.
#[verifier::external_body]
pub(crate) fn field_inverse(a: BLSFieldElement) -> (r: Option<BLSFieldElement>)
    requires
        a.wf(),
    ensures
        r is None <==> a.value() == 0,
        r matches Some(c) ==> c.wf() && (a.value() * c.value()) % bls_modulus() == 1 && c.value()
            == spec_field_inverse(a.value()),
{
    match Fr::new(BigInt::new(a.limbs)).inverse() {
        Some(inverse) => Some(BLSFieldElement { limbs: inverse.into_bigint().0 }),
        None => None,
    }
}

/// `ark_ff::PrimeField::from_be_bytes_mod_order`: the big-endian number
/// the bytes stand for, reduced modulo the field order.
#[verifier::external_body]
pub(crate) fn field_from_be_bytes_mod_order(bytes: &[u8]) -> (c: BLSFieldElement)
    ensures
        c.wf(),
        c.value() == spec_be_value(bytes@) % bls_modulus(),
{
    BLSFieldElement { limbs: Fr::from_be_bytes_mod_order(bytes).into_bigint().0 }
}

/// The 32 big-endian bytes of a number below `2^256`.
pub open spec fn spec_be32(v: nat) -> Seq<u8> {
    Seq::new(32, |i: int| ((v / (pow(256, (31 - i) as nat) as nat)) % 256) as u8)
}

/// `ark_ff::BigInteger::to_bytes_be` on the limbs of an element: the 32
/// big-endian bytes of its value.
#[verifier::external_body]
pub(crate) fn field_to_bytes_be(a: BLSFieldElement) -> (bytes: [u8; 32])
    ensures
        spec_be_value(bytes@) == a.value(),
        bytes@ == spec_be32(a.value()),
{
    let encoded = BigInt::new(a.limbs).to_bytes_be();
    let mut bytes = [0u8; 32];
    bytes.copy_from_slice(&encoded);
    bytes
}

/// The root of unity `ark_ff` hands out for a domain of `order` points.
pub uninterp spec fn spec_root_of_unity(order: u64) -> Option<nat>;

/// A power of two below `2 * 2^k` is at most `2^k`.
pub proof fn lemma_pow2_at_most(n: nat, k: nat)
    requires
        spec_is_pow2(n),
        n < 2 * vstd::arithmetic::power2::pow2(k),
    ensures
        n <= vstd::arithmetic::power2::pow2(k),
    decreases k,
{
    vstd::arithmetic::power2::lemma_pow2_pos(k);
    vstd::arithmetic::power2::lemma2_to64();
    if n > 1 {
        assert(n % 2 == 0 && spec_is_pow2(n / 2));
        if k == 0 {
            assert(false);
        } else {
            vstd::arithmetic::power2::lemma_pow2_unfold(k);
            lemma_pow2_at_most(n / 2, (k - 1) as nat);
        }
    }
}

/// `order` is a power of two.
pub open spec fn spec_is_pow2(order: nat) -> bool
    decreases order,
{
    if order == 0 {
        false
    } else if order == 1 {
        true
    } else {
        order % 2 == 0 && spec_is_pow2(order / 2)
    }
}

/// `ark_ff::FftField::get_root_of_unity` on the scalar field: a root of
/// unity of order `order`, which the scalar field has for every power of two
/// up to `2^32`. Orders above `2^63` are left out: there the search for the
/// next power of two overflows.
#[verifier::external_body]
pub(crate) fn field_root_of_unity(order: u64) -> (r: Option<BLSFieldElement>)
    requires
        order <= 0x8000_0000_0000_0000,
    ensures
        r matches Some(w) ==> w.wf() && spec_root_of_unity(order) == Some(w.value()),
        r is None ==> spec_root_of_unity(order) is None,
        spec_is_pow2(order as nat) && order <= 0x1_0000_0000 ==> r is Some,
{
    match Fr::get_root_of_unity(order) {
        Some(root) => Some(BLSFieldElement { limbs: root.into_bigint().0 }),
        None => None,
    }
}

/// The modulus as big-endian bytes.
pub const BLS_MODULUS_BYTES: [u8; 32] = [
    0x73, 0xed, 0xa7, 0x53, 0x29, 0x9d, 0x7d, 0x48, 0x33, 0x39, 0xd8, 0x08, 0x09, 0xa1, 0xd8, 0x05,
    0x53, 0xbd, 0xa4, 0x02, 0xff, 0xfe, 0x5b, 0xfe, 0xff, 0xff, 0xff, 0xff, 0x00, 0x00, 0x00, 0x01,
];


/// The modulus bytes are the modulus.
proof fn lemma_modulus_bytes()
    ensures
        spec_be_value(BLS_MODULUS_BYTES@) == bls_modulus(),
{
    let m = seq![
        0x73u8, 0xed, 0xa7, 0x53, 0x29, 0x9d, 0x7d, 0x48, 0x33, 0x39, 0xd8, 0x08, 0x09, 0xa1, 0xd8, 0x05,
        0x53, 0xbd, 0xa4, 0x02, 0xff, 0xfe, 0x5b, 0xfe, 0xff, 0xff, 0xff, 0xff, 0x00, 0x00, 0x00, 0x01,
    ];
    assert(BLS_MODULUS_BYTES@ =~= m);
    reveal_with_fuel(spec_be_prefix, 33);
    assert(spec_be_prefix(m, 32) == bls_modulus());
}


/// Two byte strings that agree before position `i` and differ first there
/// compare, from the first `k > i` bytes on, as their bytes at `i` do.
proof fn lemma_be_prefix_first_difference(s: Seq<u8>, t: Seq<u8>, i: nat, k: nat)
    requires
        i < k <= s.len(),
        k <= t.len(),
        s.subrange(0, i as int) == t.subrange(0, i as int),
        s[i as int] < t[i as int],
    ensures
        spec_be_prefix(s, k) < spec_be_prefix(t, k),
    decreases k,
{
    if k == i + 1 {
        lemma_be_prefix_agree(s, t, i);
    } else {
        lemma_be_prefix_first_difference(s, t, i, (k - 1) as nat);
    }
}

/// Byte strings that agree before position `i` agree in their first `i`
/// bytes' number.
proof fn lemma_be_prefix_agree(s: Seq<u8>, t: Seq<u8>, i: nat)
    requires
        i <= s.len(),
        i <= t.len(),
        s.subrange(0, i as int) == t.subrange(0, i as int),
    ensures
        spec_be_prefix(s, i) == spec_be_prefix(t, i),
    decreases i,
{
    if i > 0 {
        assert(s[i - 1] == s.subrange(0, i as int)[i - 1]);
        assert(t[i - 1] == t.subrange(0, i as int)[i - 1]);
        assert(s.subrange(0, i - 1) =~= s.subrange(0, i as int).subrange(0, i - 1));
        assert(t.subrange(0, i - 1) =~= t.subrange(0, i as int).subrange(0, i - 1));
        lemma_be_prefix_agree(s, t, (i - 1) as nat);
    }
}

/// Whether 32 big-endian bytes stand for a number below the modulus,
/// compared byte by byte from the most significant one.
fn bytes_below_modulus(bytes: &[u8; 32]) -> (b: bool)
    ensures
        b == (spec_be_value(bytes@) < bls_modulus()),
{
    let modulus = BLS_MODULUS_BYTES;
    proof {
        lemma_modulus_bytes();
    }
    let mut i: usize = 0;
    while i < 32
        invariant
            i <= 32,
            bytes@.len() == 32,
            modulus@.len() == 32,
            modulus@ == BLS_MODULUS_BYTES@,
            spec_be_value(modulus@) == bls_modulus(),
            bytes@.subrange(0, i as int) == modulus@.subrange(0, i as int),
        decreases 32 - i,
    {
        if bytes[i] != modulus[i] {
            proof {
                if bytes@[i as int] < modulus@[i as int] {
                    lemma_be_prefix_first_difference(bytes@, modulus@, i as nat, 32);
                } else {
                    lemma_be_prefix_first_difference(modulus@, bytes@, i as nat, 32);
                }
            }
            return bytes[i] < modulus[i];
        }
        assert(bytes@.subrange(0, i + 1) =~= bytes@.subrange(0, i as int).push(bytes@[i as int]));
        assert(modulus@.subrange(0, i + 1) =~= modulus@.subrange(0, i as int).push(modulus@[i as int]));
        i = i + 1;
    }
    proof {
        assert(bytes@ =~= bytes@.subrange(0, 32));
        assert(modulus@ =~= modulus@.subrange(0, 32));
    }
    false
}

/// Read 32 big-endian bytes as a field element; a number not below the
/// modulus is refused.
pub fn bytes_to_bls_field(bytes: [u8; BYTES_PER_FIELD_ELEMENT]) -> (r: Result<BLSFieldElement, KzgError>)
    ensures
        match r {
            Ok(e) => spec_be_value(bytes@) < bls_modulus() && e.wf() && e.value() == spec_be_value(bytes@),
            Err(err) => spec_be_value(bytes@) >= bls_modulus() && err == KzgError::InvalidFieldElement,
        },
{
    if !bytes_below_modulus(&bytes) {
        return Err(KzgError::InvalidFieldElement);
    }
    Ok(field_from_be_bytes_mod_order(bytes.as_slice()))
}

/// The canonical 32 big-endian bytes of a field element.
pub fn bls_field_to_bytes(value: BLSFieldElement) -> (r: [u8; BYTES_PER_FIELD_ELEMENT])
    ensures
        spec_be_value(r@) == value.value(),
        r@ == spec_be32(value.value()),
{
    field_to_bytes_be(value)
}

/// Hash bytes into the scalar field: the SHA-256 digest read big-endian and
/// reduced modulo the field order.
pub fn hash_to_bls_field(data: &[u8]) -> (r: BLSFieldElement)
    ensures
        r.wf(),
        r.value() == spec_be_value(spec_sha256(data@)) % bls_modulus(),
{
    let digest = sha256_digest(data);
    field_from_be_bytes_mod_order(digest.as_slice())
}


/// The number the `i`-th 32-byte big-endian chunk of `bytes` stands for.
pub open spec fn spec_chunk_value(bytes: Seq<u8>, i: int) -> nat {
    spec_be_value(bytes.subrange(32 * i, 32 * i + 32))
}

/// Each of the first `count` chunks stands for a number below the modulus.
pub open spec fn spec_chunks_canonical(bytes: Seq<u8>, count: nat) -> bool {
    forall|i: int| 0 <= i < count ==> #[trigger] spec_chunk_value(bytes, i) < bls_modulus()
}

/// The elements read from the first `count` chunks.
pub open spec fn spec_chunks_read(bytes: Seq<u8>, count: nat, v: Seq<BLSFieldElement>) -> bool {
    &&& v.len() == count
    &&& spec_all_wf(v)
    &&& forall|i: int| 0 <= i < count ==> #[trigger] v[i].value() == spec_chunk_value(bytes, i)
}

/// Read `count` 32-byte chunks as field elements, refusing at the first that
/// is not below the modulus.
fn read_field_elements(bytes: &[u8], count: usize) -> (r: Result<Vec<BLSFieldElement>, KzgError>)
    requires
        bytes@.len() == 32 * count,
    ensures
        match r {
            Ok(v) => spec_chunks_canonical(bytes@, count as nat) && spec_chunks_read(bytes@, count as nat, v@),
            Err(e) => !spec_chunks_canonical(bytes@, count as nat) && e == KzgError::InvalidFieldElement,
        },
{
    let total = bytes.len();
    let mut out: Vec<BLSFieldElement> = Vec::new();
    let mut i: usize = 0;
    while i < count
        invariant
            i <= count,
            bytes@.len() == 32 * count,
            total == bytes@.len(),
            out@.len() == i,
            spec_all_wf(out@),
            forall|j: int| 0 <= j < i ==> #[trigger] spec_chunk_value(bytes@, j) < bls_modulus(),
            forall|j: int| 0 <= j < i ==> #[trigger] out@[j].value() == spec_chunk_value(bytes@, j),
        decreases count - i,
    {
        let mut chunk = [0u8; 32];
        let mut k: usize = 0;
        while k < 32
            invariant
                k <= 32,
                i < count,
                bytes@.len() == 32 * count,
                total == bytes@.len(),
                chunk@.len() == 32,
                forall|m: int| 0 <= m < k ==> chunk@[m] == bytes@[32 * i + m],
            decreases 32 - k,
        {
            chunk.set(k, bytes[32 * i + k]);
            k = k + 1;
        }
        assert(chunk@ =~= bytes@.subrange(32 * i, 32 * i + 32));
        match bytes_to_bls_field(chunk) {
            Ok(e) => {
                out.push(e);
            },
            Err(e) => {
                assert(spec_chunk_value(bytes@, i as int) >= bls_modulus());
                return Err(e);
            },
        }
        i = i + 1;
    }
    Ok(out)
}

/// Read a blob as its field elements, one per 32-byte chunk.
pub fn blob_to_polynomial(blob: &[u8]) -> (r: Result<Vec<BLSFieldElement>, KzgError>)
    ensures
        match r {
            Ok(poly) => blob@.len() == BYTES_PER_BLOB && spec_chunks_canonical(blob@, FIELD_ELEMENTS_PER_BLOB as nat)
                && spec_chunks_read(blob@, FIELD_ELEMENTS_PER_BLOB as nat, poly@),
            Err(e) => if blob@.len() != BYTES_PER_BLOB {
                e == (KzgError::InvalidBlobLength { expected: BYTES_PER_BLOB, got: blob@.len() as usize })
            } else {
                !spec_chunks_canonical(blob@, FIELD_ELEMENTS_PER_BLOB as nat) && e == KzgError::InvalidFieldElement
            },
        },
{
    if blob.len() != BYTES_PER_BLOB {
        return Err(KzgError::InvalidBlobLength { expected: BYTES_PER_BLOB, got: blob.len() });
    }
    read_field_elements(blob, FIELD_ELEMENTS_PER_BLOB)
}

/// Read a cell as the field elements of its coset evaluations.
pub fn cell_to_coset_evals(cell: Cell) -> (r: Result<Vec<BLSFieldElement>, KzgError>)
    ensures
        match r {
            Ok(evals) => spec_chunks_canonical(cell.0@, FIELD_ELEMENTS_PER_CELL as nat) && spec_chunks_read(
                cell.0@,
                FIELD_ELEMENTS_PER_CELL as nat,
                evals@,
            ),
            Err(e) => !spec_chunks_canonical(cell.0@, FIELD_ELEMENTS_PER_CELL as nat) && e
                == KzgError::InvalidFieldElement,
        },
{
    read_field_elements(cell.0.as_slice(), FIELD_ELEMENTS_PER_CELL)
}

/// Write coset evaluations as a cell: each element's 32 big-endian bytes in
/// turn.
pub fn coset_evals_to_cell(coset_evals: &[BLSFieldElement]) -> (r: Result<Cell, KzgError>)
    ensures
        match r {
            Ok(cell) => coset_evals@.len() == FIELD_ELEMENTS_PER_CELL && forall|i: int|
                0 <= i < FIELD_ELEMENTS_PER_CELL ==> spec_chunk_value(cell.0@, i) == (#[trigger] coset_evals@[i]).value(),
            Err(e) => coset_evals@.len() != FIELD_ELEMENTS_PER_CELL && e == (KzgError::InvalidCosetLength {
                expected: FIELD_ELEMENTS_PER_CELL,
                got: coset_evals@.len() as usize,
            }),
        },
{
    if coset_evals.len() != FIELD_ELEMENTS_PER_CELL {
        return Err(KzgError::InvalidCosetLength { expected: FIELD_ELEMENTS_PER_CELL, got: coset_evals.len() });
    }
    let mut bytes = [0u8; 2048];
    let ghost mut encoded: Seq<Seq<u8>> = Seq::empty();
    let mut i: usize = 0;
    while i < 64
        invariant
            i <= 64,
            coset_evals@.len() == 64,
            bytes@.len() == 2048,
            encoded.len() == i,
            forall|j: int| 0 <= j < i ==> #[trigger] encoded[j].len() == 32,
            forall|j: int| 0 <= j < i ==> spec_be_value(#[trigger] encoded[j]) == coset_evals@[j].value(),
            forall|j: int, m: int| 0 <= j < i && 0 <= m < 32 ==> bytes@[32 * j + m] == #[trigger] encoded[j][m],
        decreases 64 - i,
    {
        let element = bls_field_to_bytes(coset_evals[i]);
        let mut k: usize = 0;
        while k < 32
            invariant
                k <= 32,
                i < 64,
                bytes@.len() == 2048,
                element@.len() == 32,
                encoded.len() == i,
                forall|j: int, m: int| 0 <= j < i && 0 <= m < 32 ==> bytes@[32 * j + m] == #[trigger] encoded[j][m],
                forall|m: int| 0 <= m < k ==> bytes@[32 * i + m] == element@[m],
            decreases 32 - k,
        {
            bytes.set(32 * i + k, element[k]);
            k = k + 1;
        }
        proof {
            encoded = encoded.push(element@);
        }
        i = i + 1;
    }
    let cell = Cell(bytes);
    assert forall|i: int| 0 <= i < FIELD_ELEMENTS_PER_CELL implies spec_chunk_value(cell.0@, i) == (
    #[trigger] coset_evals@[i]).value() by {
        assert(cell.0@.subrange(32 * i, 32 * i + 32) =~= encoded[i]);
    }
    Ok(cell)
}

} // verus!
