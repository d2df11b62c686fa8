use std::str::FromStr;

use elements::bitcoin::PublicKey;
use elements::secp256k1_zkp::ecdsa::Signature;
use elements::EcdsaSigHashType;
use elements_descriptor::satisfy::elementssig_to_rawsig;
use elements_descriptor::script::{key_checksig_script, sig_and_key_script, witness_to_scriptsig};

const KEY_G: &str = "0279be667ef9dcbbac55a06295ce870b07029bfcdb2dce28d959f2815b16f81798";

fn compact_sig(r: u8, s: u8) -> Signature {
    let mut bytes = [0u8; 64];
    bytes[31] = r;
    bytes[63] = s;
    Signature::from_compact(&bytes).unwrap()
}

#[test]
fn raw_signature_is_der_and_sighash_byte() {
    let sig = compact_sig(1, 2);
    // r = 1, s = 2: 30 06 02 01 01 02 01 02
    let der = vec![0x30, 0x06, 0x02, 0x01, 0x01, 0x02, 0x01, 0x02];
    assert_eq!(sig.serialize_der().to_vec(), der);
    for (ty, byte) in [
        (EcdsaSigHashType::All, 0x01u8),
        (EcdsaSigHashType::None, 0x02),
        (EcdsaSigHashType::Single, 0x03),
        (EcdsaSigHashType::AllPlusAnyoneCanPay, 0x81),
        (EcdsaSigHashType::NonePlusAnyoneCanPay, 0x82),
        (EcdsaSigHashType::SinglePlusAnyoneCanPay, 0x83),
    ] {
        let mut expected = der.clone();
        expected.push(byte);
        assert_eq!(elementssig_to_rawsig(&(sig, ty)), expected);
    }
}

#[test]
fn signature_and_key_script() {
    let key = PublicKey::from_str(KEY_G).unwrap();
    let script = sig_and_key_script(&[0xaa, 0xbb], &key);
    let mut expected = vec![0x02, 0xaa, 0xbb, 0x21];
    expected.extend(key.to_bytes());
    assert_eq!(script.as_bytes(), &expected[..]);
    let script = sig_and_key_script(&[], &key);
    assert_eq!(script.as_bytes()[0], 0x00);
    assert_eq!(script.len(), 1 + 34);
}

#[test]
fn key_and_checksig_script() {
    let key = PublicKey::from_str(KEY_G).unwrap();
    let script = key_checksig_script(&key);
    let mut expected = vec![0x21];
    expected.extend(key.to_bytes());
    expected.push(0xac);
    assert_eq!(script.as_bytes(), &expected[..]);
}

#[test]
fn stack_as_script() {
    let script = witness_to_scriptsig(&[vec![1], vec![], vec![2, 3]]).unwrap();
    assert_eq!(script.as_bytes(), &[0x01, 0x01, 0x00, 0x02, 0x02, 0x03]);
    assert!(witness_to_scriptsig(&[]).unwrap().is_empty());
}
