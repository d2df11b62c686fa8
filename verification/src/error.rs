//! Errors returned by the descriptor operations.

use vstd::prelude::*;

verus! {

/// Why a checksummed descriptor text was rejected.
#[derive(Debug, Clone, Copy, PartialEq, Eq, Structural)]
pub enum ChecksumError {
    /// The text holds no `#`.
    Missing,
    /// What follows the first `#` is not eight characters long.
    InvalidLength,
    /// A character of the body is outside the descriptor alphabet.
    InvalidCharacter,
    /// The checksum is well formed but is not the one of the body.
    Mismatch,
}

/// Why an operation on a descriptor failed.
#[derive(Debug, PartialEq, Eq)]
pub enum Error {
    /// The checksum of a descriptor text is missing or wrong.
    Checksum(ChecksumError),
    /// The text is not an expression: a parenthesis is unmatched, a name is
    /// empty, or characters follow the outermost node.
    Parse,
    /// The script term breaks the top-level rules of the context that it
    /// is wrapped in.
    ContextViolation,
    /// The root of an expression has another name or another number of
    /// arguments than the descriptor that is being read, or an argument is
    /// not the key that is expected there.
    UnexpectedNode,
    /// The capability lacked what the script term needs to be satisfied.
    Unsatisfiable,
    /// The capability has no signature for this key.
    MissingSignature(elements::bitcoin::PublicKey),
    /// No bound could be computed: the term cannot be satisfied at all, or
    /// the number does not fit the machine.
    Analysis,
    /// The script term is nested too deeply to be analysed.
    MaxRecursion,
}

} // verus!
