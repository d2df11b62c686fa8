//! Script terms: what a bare descriptor needs of the validated script
//! expression that it wraps. The grammar of terms, their typing and their
//! satisfaction are the term's own affair; a descriptor reaches them only
//! through this interface.

use vstd::prelude::*;

pub mod pk;

use crate::error::Error;
use crate::expression::{Tree, TreeView};
use crate::key::{MiniscriptKey, Translator};
use crate::policy::Policy;
use crate::satisfy::{ElementsSig, Satisfier};
use crate::script::script_bytes;

verus! {

/// Whether each answer in `asked` is one that `satisfier` gives where it is
/// asked for a signature of the key that stands beside it.
pub open spec fn answered<Pk: MiniscriptKey, S: Satisfier<Pk>>(
    satisfier: S,
    asked: Seq<(Pk, Option<ElementsSig>)>,
) -> bool {
    forall|i: int|
        0 <= i < asked.len() ==> call_ensures(
            S::lookup_ecdsa_sig,
            (&satisfier, &(#[trigger] asked[i]).0),
            asked[i].1,
        )
}

/// A script term over keys of type `Key`.
///
/// An implementation that is verified says what the specification
/// functions are; they are left open for one that is not.
pub trait ScriptTerm: Sized {
    /// The keys that the term is written over.
    type Key: MiniscriptKey;

    /// Whether the term meets the top-level rules of the bare context.
    open spec fn top_level_valid(&self) -> bool {
        arbitrary()
    }

    /// Whether the term passes the sanity checks.
    open spec fn sane(&self) -> bool {
        arbitrary()
    }

    /// The worst-case length, in bytes, of a script that unlocks the term,
    /// where the term can be satisfied at all.
    open spec fn max_satisfaction(&self) -> Option<usize> {
        arbitrary()
    }

    /// The bytes of the script that the term compiles to.
    open spec fn script(&self) -> Seq<u8> {
        arbitrary()
    }

    /// The text that the term is written as.
    open spec fn text(&self) -> Seq<char> {
        arbitrary()
    }

    /// The term that an expression is read as, where it is read as one.
    open spec fn parse_tree(tree: TreeView) -> Option<Self> {
        arbitrary()
    }

    /// Why an expression is not read as a term, where it is not.
    open spec fn parse_error(tree: TreeView) -> Error {
        arbitrary()
    }

    /// Whether `r` is the non-malleable satisfaction of the term where it
    /// asked the capability for the signatures of the keys in `asked`, in
    /// this order, and got the answers that stand beside them.
    open spec fn satisfaction(
        &self,
        asked: Seq<(Self::Key, Option<ElementsSig>)>,
        r: Result<Vec<Vec<u8>>, Error>,
    ) -> bool {
        arbitrary()
    }

    /// As `satisfaction`, for the satisfaction that may be malleable.
    open spec fn malleable_satisfaction(
        &self,
        asked: Seq<(Self::Key, Option<ElementsSig>)>,
        r: Result<Vec<Vec<u8>>, Error>,
    ) -> bool {
        arbitrary()
    }

    /// The semantic policy of the term, or why it has none.
    open spec fn policy(&self) -> Result<Policy<Self::Key>, Error> {
        arbitrary()
    }

    /// The keys of the term, in the order in which they are visited.
    open spec fn keys(&self) -> Seq<Self::Key> {
        arbitrary()
    }

    /// Checks the top-level rules of the bare context.
    fn top_level_checks(&self) -> (ok: bool)
        ensures
            ok == self.top_level_valid(),
    ;

    /// Checks that the term is safe to use.
    fn sanity_check(&self) -> (ok: bool)
        ensures
            ok == self.sane(),
    ;

    /// The worst-case length of an unlocking script.
    fn max_satisfaction_size(&self) -> (r: Option<usize>)
        ensures
            r == self.max_satisfaction(),
    ;

    /// Compiles the term.
    fn encode(&self) -> (script: elements::Script)
        ensures
            script_bytes(script) == self.script(),
    ;

    /// The stack of a non-malleable satisfaction of least weight, from what
    /// `satisfier` has: what `satisfaction` allows for the keys that the
    /// capability was asked about and the answers that it gave.
    fn satisfy<S: Satisfier<Self::Key>>(&self, satisfier: S) -> (r: Result<Vec<Vec<u8>>, Error>)
        ensures
            exists|asked: Seq<(Self::Key, Option<ElementsSig>)>|
                answered(satisfier, asked) && #[trigger] self.satisfaction(asked, r),
    ;

    /// The stack of a satisfaction of least weight, malleable or not, from
    /// what `satisfier` has: what `malleable_satisfaction` allows for the
    /// keys that the capability was asked about and the answers that it
    /// gave.
    fn satisfy_malleable<S: Satisfier<Self::Key>>(&self, satisfier: S) -> (r: Result<
        Vec<Vec<u8>>,
        Error,
    >)
        ensures
            exists|asked: Seq<(Self::Key, Option<ElementsSig>)>|
                answered(satisfier, asked) && #[trigger] self.malleable_satisfaction(asked, r),
    ;

    /// Writes the term.
    fn to_text(&self) -> (s: String)
        ensures
            s@ == self.text(),
    ;

    /// Reads a term from an expression.
    fn from_tree(tree: &Tree) -> (r: Result<Self, Error>)
        ensures
            match r {
                Ok(term) => Self::parse_tree(tree@) == Some(term),
                Err(e) => Self::parse_tree(tree@) is None && e == Self::parse_error(tree@),
            },
    ;

    /// Lifts the term to its semantic policy.
    fn lift(&self) -> (r: Result<Policy<Self::Key>, Error>)
        ensures
            r == self.policy(),
    ;

    /// Calls `pred` on the keys of the term, in order, until it answers
    /// `false` for one.
    fn for_each_key<F: Fn(&Self::Key) -> bool>(&self, pred: F) -> (r: bool)
        requires
            forall|i: int|
                0 <= i < self.keys().len() ==> call_requires(pred, (&#[trigger] self.keys()[i],)),
        ensures
            r ==> forall|i: int|
                0 <= i < self.keys().len() ==> call_ensures(pred, (&#[trigger] self.keys()[i],), true),
            !r ==> exists|i: int|
                0 <= i < self.keys().len() && call_ensures(pred, (&#[trigger] self.keys()[i],), false),
    ;
}

/// A script term whose keys can be mapped with a mapper of type `T`, which
/// gives a term of type `Out`.
pub trait TranslatePk<Out: ScriptTerm, T: Translator<Self::Key, Out::Key, E>, E>: ScriptTerm {
    /// The term with each key replaced by what `t` maps it to, or the
    /// first failure of `t`.
    open spec fn translated(&self, t: T) -> Result<Out, E> {
        arbitrary()
    }

    /// The mapper `t` after the keys of the term have been mapped with it.
    open spec fn mapper_after(&self, t: T) -> T {
        arbitrary()
    }

    /// Maps the keys of the term. What is valid at top level stays so.
    fn translate_pk(&self, t: &mut T) -> (r: Result<Out, E>)
        ensures
            r == self.translated(*old(t)),
            *final(t) == self.mapper_after(*old(t)),
            self.top_level_valid() ==> (r matches Ok(term) ==> term.top_level_valid()),
    ;
}

} // verus!
