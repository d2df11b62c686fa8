//! Semantic policies: what must hold for an output to be spent, apart from
//! how a script says it.

use vstd::prelude::*;

verus! {

/// A spending condition over keys of type `Pk`.
#[derive(Debug, PartialEq, Eq)]
pub enum Policy<Pk> {
    /// Never met.
    Unsatisfiable,
    /// Always met.
    Trivial,
    /// Met by a signature of the key.
    Key(Pk),
    /// Met where at least the given number of the conditions are met.
    Threshold(usize, Vec<Policy<Pk>>),
}

} // verus!
