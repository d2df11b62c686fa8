//! Keys: what a descriptor needs of a key type, and the public keys of the
//! `bitcoin` crate as the concrete key.

use std::str::FromStr;

use vstd::prelude::*;

use crate::checksum::{in_alphabet, lemma_char_in_alphabet};
use crate::expression::valid_name;

verus! {

/// `bitcoin::PublicKey`, held as a value that nothing is known of but
/// what the functions below say.
#[verifier::external_type_specification]
#[verifier::external_body]
pub struct ExPublicKey(elements::bitcoin::PublicKey);

/// The serialization of a public key: 33 bytes where the key is compressed,
/// 65 where it is not. This is what `PublicKey::to_bytes` returns.
pub uninterp spec fn public_key_bytes(key: elements::bitcoin::PublicKey) -> Seq<u8>;

/// The public key that a text is read as, where it is read as one. This is
/// what `PublicKey::from_str` returns.
pub uninterp spec fn public_key_of_text(text: Seq<char>) -> Option<elements::bitcoin::PublicKey>;

/// The sixteen digits in which bytes are written.
pub const HEX_DIGITS: [char; 16] = [
    '0', '1', '2', '3', '4', '5', '6', '7', '8', '9', 'a', 'b', 'c', 'd', 'e', 'f',
];

/// The value of a hexadecimal digit, in either case.
pub open spec fn hex_value(c: char) -> Option<int> {
    if '0' <= c <= '9' {
        Some(c as int - '0' as int)
    } else if 'a' <= c <= 'f' {
        Some(c as int - 'a' as int + 10)
    } else if 'A' <= c <= 'F' {
        Some(c as int - 'A' as int + 10)
    } else {
        None
    }
}

/// Whether `text` is an even number of hexadecimal digits.
pub open spec fn is_hex(text: Seq<char>) -> bool {
    &&& text.len() % 2 == 0
    &&& forall|i: int| 0 <= i < text.len() ==> (#[trigger] hex_value(text[i])) is Some
}

/// The bytes that `text` writes, two digits each, the high one first.
pub open spec fn from_hex(text: Seq<char>) -> Seq<u8> {
    Seq::new(
        text.len() / 2,
        |i: int| (hex_value(text[2 * i])->Some_0 * 16 + hex_value(text[2 * i + 1])->Some_0) as u8,
    )
}

/// `bytes` in lower-case hexadecimal digits.
pub open spec fn to_hex(bytes: Seq<u8>) -> Seq<char> {
    Seq::new(
        2 * bytes.len(),
        |i: int|
            if i % 2 == 0 {
                HEX_DIGITS@[bytes[i / 2] as int / 16]
            } else {
                HEX_DIGITS@[bytes[i / 2] as int % 16]
            },
    )
}

/// Each digit of `HEX_DIGITS` has its position as its value.
pub proof fn lemma_hex_digit_value(n: int)
    requires
        0 <= n < 16,
    ensures
        hex_value(HEX_DIGITS@[n]) == Some(n),
{
}

/// What `to_hex` writes is hexadecimal, and reads back as the same bytes.
pub proof fn lemma_hex_round_trip(bytes: Seq<u8>)
    ensures
        is_hex(to_hex(bytes)),
        from_hex(to_hex(bytes)) == bytes,
        to_hex(bytes).len() == 2 * bytes.len(),
{
    let text = to_hex(bytes);
    assert forall|i: int| 0 <= i < text.len() implies (#[trigger] hex_value(text[i])) is Some by {
        let b = bytes[i / 2] as int;
        lemma_hex_digit_value(b / 16);
        lemma_hex_digit_value(b % 16);
    }
    assert forall|i: int| 0 <= i < bytes.len() implies from_hex(text)[i] == bytes[i] by {
        let b = bytes[i] as int;
        lemma_hex_digit_value(b / 16);
        lemma_hex_digit_value(b % 16);
        assert((2 * i) / 2 == i && (2 * i) % 2 == 0);
        assert((2 * i + 1) / 2 == i && (2 * i + 1) % 2 == 1);
    }
    assert(from_hex(text) =~= bytes);
}

/// The field `compressed` of a `PublicKey`, which decides between the two
/// serializations: 33 bytes where it is set, 65 where it is not.
#[verifier::external_body]
fn public_key_compressed(key: &elements::bitcoin::PublicKey) -> (r: bool)
    ensures
        public_key_bytes(*key).len() == (if r {
            33int
        } else {
            65int
        }),
{
    key.compressed
}

/// `Display` of `PublicKey`: the serialized key, two lower-case hexadecimal
/// digits for each byte. What it writes is read as the same key again.
#[verifier::external_body]
fn public_key_to_string(key: &elements::bitcoin::PublicKey) -> (s: String)
    ensures
        s@ == to_hex(public_key_bytes(*key)),
        public_key_of_text(s@) == Some(*key),
{
    key.to_string()
}

/// `FromStr` of `PublicKey`. Where it succeeds, the text is 66 or 130
/// hexadecimal digits, of either case, and the bytes that they write are
/// the serialization of the key.
#[verifier::external_body]
fn public_key_from_str(s: &str) -> (r: Option<elements::bitcoin::PublicKey>)
    ensures
        r == public_key_of_text(s@),
        r matches Some(key) ==> is_hex(s@) && (s@.len() == 66 || s@.len() == 130)
            && public_key_bytes(key) == from_hex(s@),
{
    elements::bitcoin::PublicKey::from_str(s).ok()
}

/// What a descriptor needs of a key: a textual form that can be read
/// again, and whether its public key is serialized uncompressed.
///
/// An implementation that is verified says what the three specification
/// functions are; they are left open for one that is not.
pub trait MiniscriptKey: Sized + Clone {
    /// The text that the key is written as.
    open spec fn text(&self) -> Seq<char> {
        arbitrary()
    }

    /// The key that `text` is read as, where it is read as one.
    open spec fn parse_text(text: Seq<char>) -> Option<Self> {
        arbitrary()
    }

    /// Whether the key's public key is serialized in 65 bytes, not 33.
    open spec fn uncompressed(&self) -> bool {
        arbitrary()
    }

    /// Whether the key's public key is serialized in 65 bytes, not 33.
    fn is_uncompressed(&self) -> (r: bool)
        ensures
            r == self.uncompressed(),
    ;

    /// Writes the key.
    fn to_text(&self) -> (s: String)
        ensures
            s@ == self.text(),
    ;

    /// Reads a key.
    fn from_text(s: &str) -> (r: Option<Self>)
        ensures
            r == Self::parse_text(s@),
    ;
}

/// A key from which a public key can be had.
pub trait ToPublicKey: MiniscriptKey {
    /// The serialization of the key's public key.
    open spec fn key_bytes(&self) -> Seq<u8> {
        arbitrary()
    }

    /// The key's public key.
    fn to_public_key(&self) -> (key: elements::bitcoin::PublicKey)
        ensures
            public_key_bytes(key) == self.key_bytes(),
            public_key_bytes(key).len() == (if self.uncompressed() {
                65int
            } else {
                33int
            }),
    ;
}

/// A public key is written as its serialization in hexadecimal.
impl MiniscriptKey for elements::bitcoin::PublicKey {
    open spec fn text(&self) -> Seq<char> {
        to_hex(public_key_bytes(*self))
    }

    open spec fn parse_text(text: Seq<char>) -> Option<Self> {
        public_key_of_text(text)
    }

    open spec fn uncompressed(&self) -> bool {
        public_key_bytes(*self).len() == 65
    }

    fn is_uncompressed(&self) -> (r: bool) {
        !public_key_compressed(self)
    }

    fn to_text(&self) -> (s: String)
        ensures
            Self::parse_text(s@) == Some(*self),
    {
        public_key_to_string(self)
    }

    fn from_text(s: &str) -> (r: Option<Self>) {
        public_key_from_str(s)
    }
}

/// A public key is its own public key.
impl ToPublicKey for elements::bitcoin::PublicKey {
    open spec fn key_bytes(&self) -> Seq<u8> {
        public_key_bytes(*self)
    }

    fn to_public_key(&self) -> (key: elements::bitcoin::PublicKey) {
        // the key has one of the two lengths
        let _compressed = public_key_compressed(self);
        *self
    }
}

/// A mapping from keys of type `P` to keys of type `Q` that may fail with
/// an `E`. What it maps a key to, and what becomes of the mapper, depends
/// on the mapper and the key alone. An implementation that is verified
/// says what the two specification functions are; they are left open for
/// one that is not.
pub trait Translator<P, Q, E>: Sized {
    /// What the mapper, as it stands, maps `pk` to.
    open spec fn translated(&self, pk: P) -> Result<Q, E> {
        arbitrary()
    }

    /// The mapper after it has mapped `pk`.
    open spec fn advanced(&self, pk: P) -> Self {
        arbitrary()
    }

    /// Maps one key.
    fn pk(&mut self, pk: &P) -> (r: Result<Q, E>)
        ensures
            r == old(self).translated(*pk),
            *final(self) == old(self).advanced(*pk),
    ;
}

/// Whether a key's text can stand in a descriptor: it is a name of the
/// expression syntax, over the descriptor alphabet, without a `#`.
pub open spec fn printable_key(text: Seq<char>) -> bool {
    &&& valid_name(text)
    &&& in_alphabet(text)
    &&& !text.contains('#')
}

/// Bytes in hexadecimal can stand in a descriptor, if there are any.
pub proof fn lemma_hex_printable(bytes: Seq<u8>)
    requires
        bytes.len() > 0,
    ensures
        printable_key(to_hex(bytes)),
{
    let text = to_hex(bytes);
    lemma_char_in_alphabet('0', 0);
    lemma_char_in_alphabet('1', 1);
    lemma_char_in_alphabet('2', 2);
    lemma_char_in_alphabet('3', 3);
    lemma_char_in_alphabet('4', 4);
    lemma_char_in_alphabet('5', 5);
    lemma_char_in_alphabet('6', 6);
    lemma_char_in_alphabet('7', 7);
    lemma_char_in_alphabet('8', 8);
    lemma_char_in_alphabet('9', 9);
    lemma_char_in_alphabet('a', 18);
    lemma_char_in_alphabet('b', 19);
    lemma_char_in_alphabet('c', 20);
    lemma_char_in_alphabet('d', 21);
    lemma_char_in_alphabet('e', 22);
    lemma_char_in_alphabet('f', 23);
    assert forall|i: int| 0 <= i < text.len() implies {
        &&& !crate::expression::is_delimiter(#[trigger] text[i])
        &&& crate::checksum::char_value(text[i]) is Some
        &&& text[i] != '#'
    } by {
        let b = bytes[i / 2] as int;
        let d = if i % 2 == 0 {
            b / 16
        } else {
            b % 16
        };
        assert(0 <= d < 16);
        assert(text[i] == HEX_DIGITS@[d]);
    }
}

} // verus!
