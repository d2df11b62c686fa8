use std::str::FromStr;

use elements::bitcoin::PublicKey;
use elements_descriptor::key::{MiniscriptKey, ToPublicKey, HEX_DIGITS};

const KEY_G: &str = "0279be667ef9dcbbac55a06295ce870b07029bfcdb2dce28d959f2815b16f81798";
const KEY_G_UNCOMPRESSED: &str = "0479be667ef9dcbbac55a06295ce870b07029bfcdb2dce28d959f2815b16f81798483ada7726a3c4655da4fbfc0e1108a8fd17b448a68554199c47d08ffb10d4b8";

#[test]
fn public_key_text() {
    let key = PublicKey::from_str(KEY_G).unwrap();
    assert_eq!(key.to_text(), KEY_G);
    assert_eq!(<PublicKey as MiniscriptKey>::from_text(KEY_G), Some(key));
    assert_eq!(<PublicKey as MiniscriptKey>::from_text(&KEY_G.to_uppercase()), Some(key));
    let key = PublicKey::from_str(KEY_G_UNCOMPRESSED).unwrap();
    assert_eq!(key.to_text(), KEY_G_UNCOMPRESSED);
    assert_eq!(<PublicKey as MiniscriptKey>::from_text(KEY_G_UNCOMPRESSED), Some(key));
}

#[test]
fn public_key_text_that_is_no_key() {
    let read = <PublicKey as MiniscriptKey>::from_text;
    assert_eq!(read(""), None);
    assert_eq!(read("02"), None);
    assert_eq!(read(&KEY_G[..64]), None);
    assert_eq!(read(&format!("{}00", KEY_G)), None);
    // not hexadecimal
    assert_eq!(read(&format!("{}zz", &KEY_G[..64])), None);
    // not on the curve
    assert_eq!(read(&format!("02{}", "00".repeat(32))), None);
    // a prefix that fits no key of this length
    assert_eq!(read(&format!("04{}", &KEY_G[2..])), None);
    assert_eq!(read(&format!("02{}", &KEY_G_UNCOMPRESSED[2..])), None);
    assert_eq!(read(&format!("06{}", &KEY_G_UNCOMPRESSED[2..])), None);
}

#[test]
fn public_key_compression() {
    let key = PublicKey::from_str(KEY_G).unwrap();
    assert!(!key.is_uncompressed());
    assert_eq!(key.to_public_key(), key);
    assert_eq!(key.to_public_key().to_bytes().len(), 33);
    let key = PublicKey::from_str(KEY_G_UNCOMPRESSED).unwrap();
    assert!(key.is_uncompressed());
    assert_eq!(key.to_public_key(), key);
    assert_eq!(key.to_public_key().to_bytes().len(), 65);
}

#[test]
fn hexadecimal_digits() {
    let digits: String = HEX_DIGITS.iter().collect();
    assert_eq!(digits, "0123456789abcdef");
}
