//! Addresses of the `elements` crate, as far as a pay-to-pubkey-hash
//! descriptor needs them.

use vstd::prelude::*;

use crate::key::public_key_bytes;
use crate::script::script_bytes;

verus! {

/// `elements::Address`, held as a value that nothing is known of but what
/// the functions below say.
#[verifier::external_type_specification]
#[verifier::external_body]
pub struct ExAddress(elements::Address);

/// `elements::AddressParams`: the parameters of a network, handed on to
/// `Address::p2pkh` as they come.
#[verifier::external_type_specification]
#[verifier::external_body]
pub struct ExAddressParams(elements::AddressParams);

/// `secp256k1_zkp::PublicKey`: a blinding key, handed on to
/// `Address::p2pkh` as it comes.
#[verifier::external_type_specification]
#[verifier::external_body]
pub struct ExBlindingKey(elements::secp256k1_zkp::PublicKey);

/// The 160-bit hash of `data` (RIPEMD-160 of SHA-256), twenty bytes, as the
/// `elements` crate computes it for a `PubkeyHash`.
pub uninterp spec fn hash160(data: Seq<u8>) -> Seq<u8>;

/// The bytes of the script that pays to an address. This is what
/// `Address::script_pubkey` returns, as bytes.
pub uninterp spec fn address_script(address: elements::Address) -> Seq<u8>;

/// The field `params` of an address: the network that it is written for.
pub uninterp spec fn address_params(address: elements::Address) -> elements::AddressParams;

/// The field `blinding_pubkey` of an address: the key that it is blinded
/// with, where it is blinded.
pub uninterp spec fn address_blinder(address: elements::Address) -> Option<
    elements::secp256k1_zkp::PublicKey,
>;

/// The pay-to-pubkey-hash script for a hash of twenty bytes: `OP_DUP
/// OP_HASH160`, the push of the hash, `OP_EQUALVERIFY OP_CHECKSIG`.
pub open spec fn p2pkh_script(hash: Seq<u8>) -> Seq<u8> {
    seq![0x76u8, 0xa9u8, 0x14u8] + hash + seq![0x88u8, 0xacu8]
}

/// `Address::p2pkh`: the address that pays to the hash of the serialized
/// key, a script of 25 bytes, with the parameters and the blinding key
/// that were given.
#[verifier::external_body]
pub(crate) fn address_p2pkh(
    key: &elements::bitcoin::PublicKey,
    blinder: Option<elements::secp256k1_zkp::PublicKey>,
    params: &'static elements::AddressParams,
) -> (address: elements::Address)
    ensures
        address_script(address) == p2pkh_script(hash160(public_key_bytes(*key))),
        address_script(address).len() == 25,
        address_params(address) == *params,
        address_blinder(address) == blinder,
{
    elements::Address::p2pkh(key, blinder, params)
}

/// `Address::script_pubkey`: the script that pays to the address.
#[verifier::external_body]
pub(crate) fn address_script_pubkey(address: &elements::Address) -> (script: elements::Script)
    ensures
        script_bytes(script) == address_script(*address),
{
    address.script_pubkey()
}

/// `AddressParams::ELEMENTS`: the parameters of the default Elements
/// network.
#[verifier::external_body]
pub(crate) fn elements_params() -> (params: &'static elements::AddressParams) {
    &elements::AddressParams::ELEMENTS
}

} // verus!
