use ark_bls12_381::{G1Affine, G2Affine};
use ark_ec::AffineRepr;
use ark_serialize::CanonicalSerialize;
use moonglass_core::crypto::kzg::trusted_setup::{get_powers_from_bytes, get_powers_from_text, EthereumTrustedSetup};
use moonglass_core::crypto::kzg::SetupFileError;

fn hex(bytes: &[u8]) -> String {
    bytes.iter().map(|b| format!("{:02x}", b)).collect()
}

fn g1_hex() -> String {
    let mut out = [0u8; 48];
    G1Affine::generator().serialize_compressed(&mut out[..]).unwrap();
    format!("0x{}", hex(&out))
}

fn g2_hex() -> String {
    let mut out = [0u8; 96];
    G2Affine::generator().serialize_compressed(&mut out[..]).unwrap();
    hex(&out)
}

fn small_setup() -> String {
    format!("1\n1\n{}\n\n{}\n{}\n", g1_hex(), g2_hex(), g1_hex())
}

#[test]
fn parses_a_small_setup() {
    let setup = EthereumTrustedSetup::parse(&small_setup()).unwrap();
    assert_eq!(setup.g1_lagrange.len(), 1);
    assert_eq!(setup.g2_monomial.len(), 1);
    assert_eq!(setup.g1_monomial.len(), 1);
    let mut generator = [0u8; 48];
    G1Affine::generator().serialize_compressed(&mut generator[..]).unwrap();
    assert_eq!(setup.g1_monomial_powers()[0], generator);
    assert_eq!(setup.g1_lagrange_powers()[0], generator);
    assert_eq!(setup.g2_monomial_powers().len(), 1);
    let (g1, g2) = get_powers_from_text(&small_setup()).unwrap();
    assert_eq!((g1.len(), g2.len()), (1, 1));
}

#[test]
fn line_count_must_match_the_header() {
    let text = format!("2\n1\n{}\n{}\n{}\n", g1_hex(), g2_hex(), g1_hex());
    assert_eq!(
        EthereumTrustedSetup::parse(&text),
        Err(SetupFileError::InvalidTextLineCount { expected: 7, got: 5 })
    );
    assert_eq!(
        EthereumTrustedSetup::parse("1\n"),
        Err(SetupFileError::InvalidTextLineCount { expected: 2, got: 1 })
    );
    assert_eq!(EthereumTrustedSetup::parse("x\n1\n"), Err(SetupFileError::InvalidTextCount { line: 1 }));
}

#[test]
fn points_must_decode() {
    let bad_g1 = format!("0x{}", "ff".repeat(48));
    let text = format!("1\n1\n{}\n{}\n{}\n", bad_g1, g2_hex(), g1_hex());
    assert_eq!(EthereumTrustedSetup::parse(&text), Err(SetupFileError::InvalidG1Point { line: 3 }));
    let bad_g2 = "ff".repeat(96);
    let text = format!("1\n1\n{}\n{}\n{}\n", g1_hex(), bad_g2, g1_hex());
    assert_eq!(EthereumTrustedSetup::parse(&text), Err(SetupFileError::InvalidG2Point { line: 4 }));
    let short = format!("1\n1\n{}\n{}\n0xabcd\n", g1_hex(), g2_hex());
    assert_eq!(
        EthereumTrustedSetup::parse(&short),
        Err(SetupFileError::InvalidHexLength { line: 5, expected: 96, got: 4 })
    );
}

#[test]
fn setup_bytes_must_be_utf8() {
    let result = get_powers_from_bytes(&[0x31, 0x0a, 0xff, 0xfe]);
    assert_eq!(result, Err(SetupFileError::InvalidUtf8 { valid_up_to: 2, error_len: Some(1) }));
    let (g1, _) = get_powers_from_bytes(small_setup().as_bytes()).unwrap();
    assert_eq!(g1.len(), 1);
}
