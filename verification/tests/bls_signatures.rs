use ark_bls12_381::{g2, Fr, G1Affine, G2Affine, G2Projective};
use ark_ec::hashing::curve_maps::wb::WBMap;
use ark_ec::hashing::map_to_curve_hasher::MapToCurveBasedHasher;
use ark_ec::hashing::HashToCurve;
use ark_ec::{AffineRepr, CurveGroup};
use ark_ff::field_hashers::DefaultFieldHasher;
use ark_serialize::CanonicalSerialize;
use moonglass_core::crypto::bls::{aggregate_pubkeys, fast_aggregate_verify, verify_signature, BLS_DST};
use moonglass_core::error::{SignatureError, TransitionError};
use moonglass_core::primitives::{BLSPubkey, BLSSignature, Root};
use sha2::Sha256;

fn pubkey(sk: u64) -> BLSPubkey {
    let point = (G1Affine::generator() * Fr::from(sk)).into_affine();
    let mut out = [0u8; 48];
    point.serialize_compressed(&mut out[..]).unwrap();
    BLSPubkey(out)
}

fn message_point(root: &Root) -> G2Affine {
    let hasher =
        MapToCurveBasedHasher::<G2Projective, DefaultFieldHasher<Sha256>, WBMap<g2::Config>>::new(BLS_DST.as_bytes())
            .unwrap();
    hasher.hash(&root.0[..]).unwrap()
}

fn sign(sks: &[u64], root: &Root) -> BLSSignature {
    let total: u64 = sks.iter().sum();
    let point = (message_point(root) * Fr::from(total)).into_affine();
    let mut out = [0u8; 96];
    point.serialize_compressed(&mut out[..]).unwrap();
    BLSSignature(out)
}

#[test]
fn valid_signature_verifies() {
    let root = Root([7u8; 32]);
    let sig = sign(&[11], &root);
    assert!(verify_signature(&pubkey(11), root, &sig, SignatureError::Attestation).is_ok());
}

#[test]
fn signature_over_another_message_fails() {
    let sig = sign(&[11], &Root([7u8; 32]));
    let result = verify_signature(&pubkey(11), Root([8u8; 32]), &sig, SignatureError::Attestation);
    assert!(matches!(result, Err(TransitionError::Signature(SignatureError::Attestation))));
}

#[test]
fn signature_by_another_key_fails() {
    let root = Root([7u8; 32]);
    let sig = sign(&[12], &root);
    let result = verify_signature(&pubkey(11), root, &sig, SignatureError::AttesterSlashingAttestationOne);
    assert!(matches!(result, Err(TransitionError::Signature(SignatureError::AttesterSlashingAttestationOne))));
}

#[test]
fn infinity_and_garbage_keys_are_rejected() {
    let root = Root([7u8; 32]);
    let sig = sign(&[11], &root);
    let mut infinity = [0u8; 48];
    infinity[0] = 0xC0;
    assert!(verify_signature(&BLSPubkey(infinity), root, &sig, SignatureError::Attestation).is_err());
    assert!(verify_signature(&BLSPubkey([0xFFu8; 48]), root, &sig, SignatureError::Attestation).is_err());
    assert!(verify_signature(&pubkey(11), root, &BLSSignature([0x11u8; 96]), SignatureError::Attestation).is_err());
}

#[test]
fn aggregate_of_keys_is_key_of_summed_secrets() {
    let aggregate = aggregate_pubkeys(&[pubkey(3), pubkey(4)]).unwrap();
    assert_eq!(aggregate.0, pubkey(7).0);
    assert_eq!(aggregate_pubkeys(&[pubkey(5)]).unwrap().0, pubkey(5).0);
}

#[test]
fn aggregating_nothing_or_bad_keys_fails() {
    assert!(matches!(
        aggregate_pubkeys(&[]),
        Err(TransitionError::Signature(SignatureError::EmptyAggregatePubkeySet))
    ));
    assert!(matches!(
        aggregate_pubkeys(&[pubkey(3), BLSPubkey([0xFFu8; 48])]),
        Err(TransitionError::Signature(SignatureError::AggregatePubkey))
    ));
}

#[test]
fn fast_aggregate_verify_checks_the_summed_key() {
    let root = Root([9u8; 32]);
    let sig = sign(&[3, 4], &root);
    let keys = [pubkey(3), pubkey(4)];
    assert!(fast_aggregate_verify(&keys, root, &sig, SignatureError::Attestation).is_ok());
    let result = fast_aggregate_verify(&keys[..1], root, &sig, SignatureError::Attestation);
    assert!(matches!(result, Err(TransitionError::Signature(SignatureError::Attestation))));
}

#[test]
fn empty_participation_needs_the_infinity_signature() {
    let root = Root([9u8; 32]);
    let mut infinity = [0u8; 96];
    infinity[0] = 0xC0;
    assert!(fast_aggregate_verify(&[], root, &BLSSignature(infinity), SignatureError::Attestation).is_ok());
    let result = fast_aggregate_verify(&[], root, &sign(&[1], &root), SignatureError::Attestation);
    assert!(matches!(result, Err(TransitionError::Signature(SignatureError::SyncInfinitySignatureRequired))));
}
