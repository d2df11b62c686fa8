//! Output descriptors for Elements: the bare script descriptor and the
//! pay-to-pubkey-hash descriptor, with the checksum codec and the expression
//! parser that their textual form rests on.
//!
//! A descriptor says how an output can be spent. The text of one is an
//! expression, `elpkh(KEY)` or `el` and a script term, followed by `#` and a
//! checksum of eight characters. From a descriptor one gets the script that
//! locks the output, a bound on the weight of what unlocks it, and, from a
//! capability that supplies signatures, the script that unlocks it.
//!
//! - [`checksum`]: the checksum, and the laws that it keeps.
//! - [`expression`]: the grammar of expressions and its parser.
//! - [`key`]: what a descriptor needs of a key, and the keys of `bitcoin`.
//! - [`script`], [`address`], [`satisfy`]: scripts, addresses and
//!   signatures of `elements`, as far as the descriptors use them.
//! - [`term`]: what a bare descriptor needs of the script term that it
//!   wraps, and the term `pk(KEY)`.
//! - [`policy`]: the semantic policy that a descriptor is lifted to.
//! - [`descriptor`]: the two descriptors.
//!
//! What is not proved here is what the `elements` crate does: each call into
//! it stands in a small function of its own whose contract says what is
//! taken on trust.

pub mod address;
pub mod checksum;
pub mod descriptor;
pub mod error;
pub mod expression;
pub mod key;
pub mod policy;
pub mod satisfy;
pub mod script;
pub mod term;
pub mod text;
