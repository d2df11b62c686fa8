//! Satisfaction: the capability that supplies signatures, and the bytes
//! that a signature is pushed as.

use vstd::prelude::*;

use crate::key::MiniscriptKey;

verus! {

/// `secp256k1_zkp::ecdsa::Signature`, held as a value that is known by
/// its DER encoding alone.
#[verifier::external_type_specification]
#[verifier::external_body]
pub struct ExSignature(elements::secp256k1_zkp::ecdsa::Signature);

/// `elements::EcdsaSigHashType`, held as a value that is known by its
/// byte alone.
#[verifier::external_type_specification]
#[verifier::external_body]
pub struct ExEcdsaSigHashType(elements::EcdsaSigHashType);

/// An ECDSA signature together with the sighash type it was made for.
pub type ElementsSig = (elements::secp256k1_zkp::ecdsa::Signature, elements::EcdsaSigHashType);

/// The DER encoding of a signature. This is what `Signature::serialize_der`
/// returns.
pub uninterp spec fn signature_der(sig: elements::secp256k1_zkp::ecdsa::Signature) -> Seq<u8>;

/// The byte that a sighash type is written as: the value of its variant.
pub uninterp spec fn sighash_byte(ty: elements::EcdsaSigHashType) -> u8;

/// The greatest length of a DER-encoded signature.
pub const MAX_DER_LEN: usize = 72;

/// `Signature::serialize_der`: the DER encoding, at most 72 bytes long.
#[verifier::external_body]
fn serialize_der(sig: &elements::secp256k1_zkp::ecdsa::Signature) -> (der: Vec<u8>)
    ensures
        der@ == signature_der(*sig),
        der@.len() <= MAX_DER_LEN,
{
    sig.serialize_der().to_vec()
}

/// The cast of an `EcdsaSigHashType` to its byte.
#[verifier::external_body]
fn sighash_to_byte(ty: elements::EcdsaSigHashType) -> (b: u8)
    ensures
        b == sighash_byte(ty),
{
    ty as u8
}

/// The bytes that a signature is pushed as: its DER encoding, then the byte
/// of its sighash type.
pub open spec fn raw_sig(sig: ElementsSig) -> Seq<u8> {
    signature_der(sig.0).push(sighash_byte(sig.1))
}

/// Serializes a signature with its sighash byte at the end.
pub fn elementssig_to_rawsig(sig: &ElementsSig) -> (raw: Vec<u8>)
    ensures
        raw@ == raw_sig(*sig),
        raw@.len() <= MAX_DER_LEN + 1,
{
    let mut raw = serialize_der(&sig.0);
    raw.push(sighash_to_byte(sig.1));
    raw
}

/// The capability that a descriptor is satisfied against: it is asked for
/// the signature of a key and answers with one, or with nothing. What it
/// answers is its own affair; nothing is assumed of it.
pub trait Satisfier<Pk: MiniscriptKey> {
    /// A signature for `pk`, if the capability has one.
    fn lookup_ecdsa_sig(&self, pk: &Pk) -> Option<ElementsSig>;
}

} // verus!
