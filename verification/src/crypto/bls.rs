//! BLS12-381 signatures under the Ethereum consensus scheme: public keys in
//! G1, signatures and message hashes in G2, verified by the pairing check
//! `e(PK, H(m)) = e([1]_1, sigma)`.
//!
//! Points cross into this module as their compressed encodings; the curve
//! library decodes, adds, hashes to the curve and pairs them.
use vstd::prelude::*;

use ark_bls12_381::{g2, Bls12_381, G1Affine, G2Affine, G2Projective};
use ark_ec::hashing::curve_maps::wb::WBMap;
use ark_ec::hashing::map_to_curve_hasher::MapToCurveBasedHasher;
use ark_ec::hashing::HashToCurve;
use ark_ec::pairing::Pairing;
use ark_ec::{AffineRepr, CurveGroup};
use ark_ff::field_hashers::DefaultFieldHasher;
use ark_serialize::{CanonicalDeserialize, CanonicalSerialize};
use sha2::Sha256;

use crate::error::{SignatureError, TransitionError};
use crate::primitives::{BLSPubkey, BLSSignature, Root};
use crate::ssz::basic::zeros;

verus! {

/// The hash-to-curve domain separation tag of the Ethereum ciphersuite.
pub const BLS_DST: &'static str = "BLS_SIG_BLS12381G2_XMD:SHA-256_SSWU_RO_POP_";

/// The compressed encoding of the G1 point at infinity.
pub open spec fn spec_g1_infinity() -> Seq<u8> {
    seq![0xC0u8] + zeros(47)
}

/// Whether 48 bytes decode as a compressed point of the G1 subgroup.
pub uninterp spec fn spec_g1_decodes(bytes: Seq<u8>) -> bool;

/// Whether 96 bytes decode as a compressed point of the G2 subgroup.
pub uninterp spec fn spec_g2_decodes(bytes: Seq<u8>) -> bool;

/// The compressed sum of two compressed G1 points, when both decode.
pub uninterp spec fn spec_g1_sum(a: Seq<u8>, b: Seq<u8>) -> Option<Seq<u8>>;

/// The compressed G2 point a 32-byte message hashes to under a domain
/// separation tag.
pub uninterp spec fn spec_hash_to_g2(dst: Seq<char>, message: Seq<u8>) -> Option<Seq<u8>>;

/// Whether `e(pk, h) = e([1]_1, sig)` for compressed points that decode.
pub uninterp spec fn spec_pairing_check(pk: Seq<u8>, h: Seq<u8>, sig: Seq<u8>) -> bool;

/// `G1Affine::deserialize_compressed`, which accepts only points on the
/// curve and in the prime-order subgroup; the contract claims that its
/// success depends on the bytes alone.
#[verifier::external_body]
pub(crate) fn g1_decodes(bytes: &[u8; 48]) -> (r: bool)
    ensures
        r == spec_g1_decodes(bytes@),
{
    G1Affine::deserialize_compressed(&bytes[..]).is_ok()
}

/// `G2Affine::deserialize_compressed`, with the same checks for G2; the
/// contract claims that its success depends on the bytes alone.
#[verifier::external_body]
pub(crate) fn g2_decodes(bytes: &[u8; 96]) -> (r: bool)
    ensures
        r == spec_g2_decodes(bytes@),
{
    G2Affine::deserialize_compressed(&bytes[..]).is_ok()
}

/// G1 point addition on decoded points, re-encoded compressed; the contract
/// claims that the result depends on the two encodings alone.
#[verifier::external_body]
pub(crate) fn g1_sum(a: &[u8; 48], b: &[u8; 48]) -> (r: Option<[u8; 48]>)
    ensures
        match r {
            Some(x) => spec_g1_sum(a@, b@) == Some(x@),
            None => spec_g1_sum(a@, b@) is None,
        },
{
    let a = G1Affine::deserialize_compressed(&a[..]).ok()?;
    let b = G1Affine::deserialize_compressed(&b[..]).ok()?;
    let mut out = [0u8; 48];
    (a + b).into_affine().serialize_compressed(&mut out[..]).ok()?;
    Some(out)
}

/// `MapToCurveBasedHasher::hash` for G2 under the tag `dst`, re-encoded
/// compressed; the contract claims that the result depends on the tag and
/// the message alone.
#[verifier::external_body]
fn hash_to_g2(dst: &str, message: &[u8; 32]) -> (r: Option<[u8; 96]>)
    ensures
        match r {
            Some(x) => spec_hash_to_g2(dst@, message@) == Some(x@),
            None => spec_hash_to_g2(dst@, message@) is None,
        },
{
    let hasher = MapToCurveBasedHasher::<G2Projective, DefaultFieldHasher<Sha256>, WBMap<g2::Config>>::new(
        dst.as_bytes(),
    ).ok()?;
    let point: G2Affine = hasher.hash(&message[..]).ok()?;
    let mut out = [0u8; 96];
    point.serialize_compressed(&mut out[..]).ok()?;
    Some(out)
}

/// `Bls12_381::pairing` on both sides of `e(pk, h) = e([1]_1, sig)`; the
/// contract claims that the answer depends on the three encodings alone.
#[verifier::external_body]
fn pairing_check(pk: &[u8; 48], h: &[u8; 96], sig: &[u8; 96]) -> (r: bool)
    ensures
        r == spec_pairing_check(pk@, h@, sig@),
{
    let decoded = (
        G1Affine::deserialize_compressed(&pk[..]),
        G2Affine::deserialize_compressed(&h[..]),
        G2Affine::deserialize_compressed(&sig[..]),
    );
    match decoded {
        (Ok(pk), Ok(h), Ok(sig)) => Bls12_381::pairing(pk, h) == Bls12_381::pairing(G1Affine::generator(), sig),
        _ => false,
    }
}

/// A public key is usable when it is not the point at infinity and decodes.
pub open spec fn spec_pubkey_ok(pubkey: Seq<u8>) -> bool {
    pubkey != spec_g1_infinity() && spec_g1_decodes(pubkey)
}

/// The result of checking a signature over `signing_root` against one key.
pub open spec fn spec_verify_signature(
    pubkey: Seq<u8>,
    signing_root: Seq<u8>,
    signature: Seq<u8>,
    on_fail: SignatureError,
) -> Result<(), TransitionError> {
    if !spec_pubkey_ok(pubkey) || !spec_g2_decodes(signature) {
        Err(TransitionError::Signature(on_fail))
    } else {
        match spec_hash_to_g2(BLS_DST@, signing_root) {
            None => Err(TransitionError::Signature(on_fail)),
            Some(h) => if spec_pairing_check(pubkey, h, signature) {
                Ok(())
            } else {
                Err(TransitionError::Signature(on_fail))
            },
        }
    }
}

/// The compressed sum of the first `n` public keys, starting from the point
/// at infinity; `None` when a key is unusable.
pub open spec fn spec_aggregate(pubkeys: Seq<BLSPubkey>, n: nat) -> Option<Seq<u8>>
    decreases n,
{
    if n == 0 {
        Some(spec_g1_infinity())
    } else {
        match spec_aggregate(pubkeys, (n - 1) as nat) {
            None => None,
            Some(acc) => if !spec_pubkey_ok(pubkeys[n - 1].0@) {
                None
            } else {
                spec_g1_sum(acc, pubkeys[n - 1].0@)
            },
        }
    }
}

/// Whether the bytes are the compressed G1 point at infinity.
pub(crate) fn is_g1_infinity(bytes: &[u8; 48]) -> (r: bool)
    ensures
        r == (bytes@ == spec_g1_infinity()),
{
    if bytes[0] != 0xC0u8 {
        assert(bytes@[0] != spec_g1_infinity()[0]);
        return false;
    }
    let mut i: usize = 1;
    while i < 48
        invariant
            1 <= i <= 48,
            bytes@.len() == 48,
            forall|t: int| 0 <= t < i ==> bytes@[t] == #[trigger] spec_g1_infinity()[t],
        decreases 48 - i,
    {
        if bytes[i] != 0u8 {
            assert(bytes@[i as int] != spec_g1_infinity()[i as int]);
            return false;
        }
        i = i + 1;
    }
    assert(bytes@ =~= spec_g1_infinity());
    true
}

/// The compressed G1 point at infinity.
pub(crate) fn g1_infinity() -> (r: [u8; 48])
    ensures
        r@ == spec_g1_infinity(),
{
    let mut bytes: [u8; 48] = [0u8; 48];
    let mut i: usize = 0;
    while i < 48
        invariant
            i <= 48,
            bytes@.len() == 48,
            forall|t: int| 0 <= t < i ==> bytes@[t] == 0u8,
        decreases 48 - i,
    {
        bytes[i] = 0u8;
        i = i + 1;
    }
    bytes[0] = 0xC0u8;
    assert(bytes@ =~= spec_g1_infinity());
    bytes
}

/// Sum the usable public keys `pubkeys`, in order, into one compressed point.
fn aggregate_pubkey_bytes(pubkeys: &[BLSPubkey]) -> (r: Option<[u8; 48]>)
    ensures
        match spec_aggregate(pubkeys@, pubkeys@.len()) {
            Some(x) => r matches Some(y) && y@ == x,
            None => r is None,
        },
{
    let mut acc = g1_infinity();
    let mut i: usize = 0;
    while i < pubkeys.len()
        invariant
            i <= pubkeys@.len(),
            spec_aggregate(pubkeys@, i as nat) == Some(acc@),
        decreases pubkeys@.len() - i,
    {
        let key = &pubkeys[i].0;
        if is_g1_infinity(key) || !g1_decodes(key) {
            proof {
                lemma_aggregate_stops(pubkeys@, (i + 1) as nat, pubkeys@.len());
            }
            return None;
        }
        acc = match g1_sum(&acc, key) {
            Some(sum) => sum,
            None => {
                proof {
                    lemma_aggregate_stops(pubkeys@, (i + 1) as nat, pubkeys@.len());
                }
                return None;
            },
        };
        i = i + 1;
    }
    Some(acc)
}

/// Once a prefix fails to aggregate, the whole fails.
proof fn lemma_aggregate_stops(pubkeys: Seq<BLSPubkey>, k: nat, m: nat)
    requires
        k <= m,
        spec_aggregate(pubkeys, k) is None,
    ensures
        spec_aggregate(pubkeys, m) is None,
    decreases m - k,
{
    if k < m {
        lemma_aggregate_stops(pubkeys, k, (m - 1) as nat);
    }
}

/// Verify a BLS12-381 signature over `signing_root` under one public key:
/// the key must be usable, the signature must decode, and the pairing
/// check must hold; any failure is reported as `on_fail`.
pub fn verify_signature(pubkey: &BLSPubkey, signing_root: Root, signature: &BLSSignature, on_fail: SignatureError) -> (r:
    Result<(), TransitionError>)
    ensures
        r == spec_verify_signature(pubkey.0@, signing_root.0@, signature.0@, on_fail),
{
    if is_g1_infinity(&pubkey.0) || !g1_decodes(&pubkey.0) {
        return Err(TransitionError::Signature(on_fail));
    }
    if !g2_decodes(&signature.0) {
        return Err(TransitionError::Signature(on_fail));
    }
    let message_hash = match hash_to_g2(BLS_DST, &signing_root.0) {
        Some(h) => h,
        None => return Err(TransitionError::Signature(on_fail)),
    };
    if pairing_check(&pubkey.0, &message_hash, &signature.0) {
        Ok(())
    } else {
        Err(TransitionError::Signature(on_fail))
    }
}

/// Aggregate a non-empty set of BLS public keys into one compressed key.
pub fn aggregate_pubkeys(pubkeys: &[BLSPubkey]) -> (r: Result<BLSPubkey, TransitionError>)
    ensures
        pubkeys@.len() == 0 ==> r == Err::<BLSPubkey, TransitionError>(
            TransitionError::Signature(SignatureError::EmptyAggregatePubkeySet),
        ),
        pubkeys@.len() > 0 ==> match spec_aggregate(pubkeys@, pubkeys@.len()) {
            Some(x) => r matches Ok(k) && k.0@ == x,
            None => r == Err::<BLSPubkey, TransitionError>(TransitionError::Signature(SignatureError::AggregatePubkey)),
        },
{
    if pubkeys.len() == 0 {
        return Err(TransitionError::Signature(SignatureError::EmptyAggregatePubkeySet));
    }
    match aggregate_pubkey_bytes(pubkeys) {
        Some(bytes) => Ok(BLSPubkey(bytes)),
        None => Err(TransitionError::Signature(SignatureError::AggregatePubkey)),
    }
}

/// Verify one aggregate signature over `signing_root` by all of `pubkeys`.
/// With no keys, only the G2 point at infinity passes.
pub fn fast_aggregate_verify(
    pubkeys: &[BLSPubkey],
    signing_root: Root,
    signature: &BLSSignature,
    on_fail: SignatureError,
) -> (r: Result<(), TransitionError>)
    ensures
        pubkeys@.len() == 0 ==> r == (if signature.0@ == seq![0xC0u8] + zeros(95) {
            Ok::<(), TransitionError>(())
        } else {
            Err(TransitionError::Signature(SignatureError::SyncInfinitySignatureRequired))
        }),
        pubkeys@.len() > 0 ==> r == (match spec_aggregate(pubkeys@, pubkeys@.len()) {
            None => Err(TransitionError::Signature(on_fail)),
            Some(apk) => if !spec_g2_decodes(signature.0@) {
                Err(TransitionError::Signature(on_fail))
            } else {
                match spec_hash_to_g2(BLS_DST@, signing_root.0@) {
                    None => Err(TransitionError::Signature(on_fail)),
                    Some(h) => if spec_pairing_check(apk, h, signature.0@) {
                        Ok(())
                    } else {
                        Err(TransitionError::Signature(on_fail))
                    },
                }
            },
        }),
{
    if pubkeys.len() == 0 {
        if signature.is_g2_point_at_infinity() {
            return Ok(());
        }
        return Err(TransitionError::Signature(SignatureError::SyncInfinitySignatureRequired));
    }
    let aggregate = match aggregate_pubkey_bytes(pubkeys) {
        Some(a) => a,
        None => return Err(TransitionError::Signature(on_fail)),
    };
    if !g2_decodes(&signature.0) {
        return Err(TransitionError::Signature(on_fail));
    }
    let message_hash = match hash_to_g2(BLS_DST, &signing_root.0) {
        Some(h) => h,
        None => return Err(TransitionError::Signature(on_fail)),
    };
    if pairing_check(&aggregate, &message_hash, &signature.0) {
        Ok(())
    } else {
        Err(TransitionError::Signature(on_fail))
    }
}

} // verus!
