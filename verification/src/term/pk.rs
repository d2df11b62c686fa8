//! The term `pk(KEY)`: the script that pushes a key and checks a signature
//! against it. Wrapped in a bare descriptor it is the pay-to-pubkey
//! descriptor.

use vstd::prelude::*;

use crate::checksum::{
    in_alphabet, lemma_char_in_alphabet, lemma_in_alphabet_concat, with_checksum,
};
use crate::descriptor::bare::{
    bare_of_text, lemma_bare_round_trip, lemma_bare_translate_back, Bare,
};
use crate::error::Error;
use crate::expression::{lemma_view_args, render, render_args, well_formed, Tree, TreeView};
use crate::key::{printable_key, ToPublicKey, Translator};
use crate::policy::Policy;
use crate::satisfy::{elementssig_to_rawsig, raw_sig, ElementsSig, Satisfier};
use crate::script::{key_checksig_script, push_bytes, stack_view, OP_CHECKSIG};
use crate::term::{answered, ScriptTerm, TranslatePk};
use crate::text::{append_chars, chars_eq, from_chars, to_chars};

verus! {

/// The name of the term.
pub const PK_NAME: [char; 2] = ['p', 'k'];

/// The length of the unlocking script that the term counts with: the push
/// of a signature of 72 bytes, its sighash byte included.
pub const PK_MAX_SATISFACTION: usize = 73;

/// The term `pk(KEY)`.
#[derive(Clone, Copy, Debug, PartialEq, Eq, PartialOrd, Ord, Hash)]
pub struct PkTerm<Pk: ToPublicKey + Copy> {
    /// The key that must sign.
    pub key: Pk,
}

/// Whether an expression has the shape of the term: the name, and one
/// argument that has no arguments of its own.
pub open spec fn is_pk_tree(tree: TreeView) -> bool {
    &&& tree.name == PK_NAME@
    &&& tree.args.len() == 1
    &&& tree.args[0].args.len() == 0
}

/// The expression of the term whose key is written as `key`.
pub open spec fn pk_tree(key: Seq<char>) -> TreeView {
    TreeView { name: PK_NAME@, args: seq![TreeView { name: key, args: Seq::empty() }] }
}

/// What satisfying the term gives for the answer `sig` of the capability:
/// with a signature, the stack that holds it, sighash byte at its end;
/// without one, the failure to satisfy.
pub open spec fn pk_satisfaction(sig: Option<ElementsSig>, r: Result<Vec<Vec<u8>>, Error>) -> bool {
    match sig {
        Some(sig) => r matches Ok(stack) && stack_view(stack@) == seq![raw_sig(sig)],
        None => r == Err::<Vec<Vec<u8>>, Error>(Error::Unsatisfiable),
    }
}

impl<Pk: ToPublicKey + Copy> PkTerm<Pk> {
    /// The satisfaction of the term for the answer `sig` of the capability
    /// that was asked for a signature of the key. The malleable and the
    /// non-malleable satisfaction are the same.
    pub fn satisfy_with(sig: Option<ElementsSig>) -> (r: Result<Vec<Vec<u8>>, Error>)
        ensures
            pk_satisfaction(sig, r),
    {
        match sig {
            Some(sig) => {
                let raw = elementssig_to_rawsig(&sig);
                let mut stack: Vec<Vec<u8>> = Vec::new();
                stack.push(raw);
                assert(stack_view(stack@) =~= seq![raw_sig(sig)]);
                Ok(stack)
            },
            None => Err(Error::Unsatisfiable),
        }
    }
}

impl<Pk: ToPublicKey + Copy> ScriptTerm for PkTerm<Pk> {
    type Key = Pk;

    open spec fn top_level_valid(&self) -> bool {
        true
    }

    open spec fn sane(&self) -> bool {
        true
    }

    open spec fn max_satisfaction(&self) -> Option<usize> {
        Some(PK_MAX_SATISFACTION)
    }

    open spec fn script(&self) -> Seq<u8> {
        push_bytes(self.key.key_bytes()).push(OP_CHECKSIG)
    }

    open spec fn text(&self) -> Seq<char> {
        PK_NAME@ + seq!['('] + self.key.text() + seq![')']
    }

    open spec fn parse_tree(tree: TreeView) -> Option<Self> {
        if is_pk_tree(tree) {
            match Pk::parse_text(tree.args[0].name) {
                Some(key) => Some(PkTerm { key }),
                None => None,
            }
        } else {
            None
        }
    }

    open spec fn parse_error(tree: TreeView) -> Error {
        Error::UnexpectedNode
    }

    open spec fn satisfaction(
        &self,
        asked: Seq<(Pk, Option<ElementsSig>)>,
        r: Result<Vec<Vec<u8>>, Error>,
    ) -> bool {
        asked.len() == 1 && asked[0].0 == self.key && pk_satisfaction(asked[0].1, r)
    }

    open spec fn malleable_satisfaction(
        &self,
        asked: Seq<(Pk, Option<ElementsSig>)>,
        r: Result<Vec<Vec<u8>>, Error>,
    ) -> bool {
        asked.len() == 1 && asked[0].0 == self.key && pk_satisfaction(asked[0].1, r)
    }

    open spec fn policy(&self) -> Result<Policy<Pk>, Error> {
        Ok(Policy::Key(self.key))
    }

    open spec fn keys(&self) -> Seq<Pk> {
        seq![self.key]
    }

    fn top_level_checks(&self) -> (ok: bool) {
        true
    }

    fn sanity_check(&self) -> (ok: bool) {
        true
    }

    fn max_satisfaction_size(&self) -> (r: Option<usize>) {
        Some(PK_MAX_SATISFACTION)
    }

    fn encode(&self) -> (script: elements::Script) {
        let key = self.key.to_public_key();
        key_checksig_script(&key)
    }

    fn satisfy<S: Satisfier<Pk>>(&self, satisfier: S) -> (r: Result<Vec<Vec<u8>>, Error>) {
        let sig = satisfier.lookup_ecdsa_sig(&self.key);
        let r = Self::satisfy_with(sig);
        proof {
            let asked = seq![(self.key, sig)];
            assert(asked[0] == (self.key, sig));
            assert(answered(satisfier, asked));
            assert(self.satisfaction(asked, r));
        }
        r
    }

    fn satisfy_malleable<S: Satisfier<Pk>>(&self, satisfier: S) -> (r: Result<Vec<Vec<u8>>, Error>) {
        let sig = satisfier.lookup_ecdsa_sig(&self.key);
        let r = Self::satisfy_with(sig);
        proof {
            let asked = seq![(self.key, sig)];
            assert(asked[0] == (self.key, sig));
            assert(answered(satisfier, asked));
            assert(self.malleable_satisfaction(asked, r));
        }
        r
    }

    fn to_text(&self) -> (s: String) {
        let key = self.key.to_text();
        let key_chars = to_chars(key.as_str());
        let mut text: Vec<char> = Vec::new();
        append_chars(&mut text, PK_NAME.as_slice());
        text.push('(');
        append_chars(&mut text, key_chars.as_slice());
        text.push(')');
        assert(text@ =~= self.text());
        from_chars(text.as_slice())
    }

    fn from_tree(tree: &Tree) -> (r: Result<Self, Error>) {
        proof {
            lemma_view_args(*tree);
        }
        let name = to_chars(tree.name.as_str());
        if chars_eq(name.as_slice(), PK_NAME.as_slice()) && tree.args.len() == 1 {
            let arg = &tree.args[0];
            proof {
                lemma_view_args(*arg);
            }
            if arg.args.len() == 0 {
                match Pk::from_text(arg.name.as_str()) {
                    Some(key) => Ok(PkTerm { key }),
                    None => Err(Error::UnexpectedNode),
                }
            } else {
                Err(Error::UnexpectedNode)
            }
        } else {
            Err(Error::UnexpectedNode)
        }
    }

    fn lift(&self) -> (r: Result<Policy<Pk>, Error>) {
        Ok(Policy::Key(self.key))
    }

    fn for_each_key<F: Fn(&Pk) -> bool>(&self, pred: F) -> (r: bool) {
        assert(self.keys()[0] == self.key);
        let r = pred(&self.key);
        assert(call_ensures(pred, (&self.keys()[0],), r));
        r
    }
}

impl<P, Q, T, E> TranslatePk<PkTerm<Q>, T, E> for PkTerm<P> where
    P: ToPublicKey + Copy,
    Q: ToPublicKey + Copy,
    T: Translator<P, Q, E>,
 {
    open spec fn translated(&self, t: T) -> Result<PkTerm<Q>, E> {
        match t.translated(self.key) {
            Ok(key) => Ok(PkTerm { key }),
            Err(e) => Err(e),
        }
    }

    open spec fn mapper_after(&self, t: T) -> T {
        t.advanced(self.key)
    }

    fn translate_pk(&self, t: &mut T) -> (r: Result<PkTerm<Q>, E>) {
        match t.pk(&self.key) {
            Ok(key) => Ok(PkTerm { key }),
            Err(e) => Err(e),
        }
    }
}

/// Writing the descriptor of the term of a key and reading what was
/// written gives it back, where the key is printable and its own text is
/// read as that key.
pub proof fn lemma_pk_round_trip<Pk: ToPublicKey + Copy>(bare: Bare<PkTerm<Pk>>)
    requires
        printable_key(bare.inner().key.text()),
        Pk::parse_text(bare.inner().key.text()) == Some(bare.inner().key),
    ensures
        in_alphabet(bare.body()),
        bare_of_text::<PkTerm<Pk>>(with_checksum(bare.body())) == Ok::<PkTerm<Pk>, Error>(
            bare.inner(),
        ),
{
    let term = bare.inner();
    let key = term.key.text();
    let tree = pk_tree(key);
    let leaf = tree.args[0];
    assert(well_formed(leaf));
    assert(well_formed(tree));
    assert(render(leaf) == key);
    assert(render_args(tree.args) == key);
    assert(render(tree) == term.text());
    let head = PK_NAME@ + seq!['('];
    assert(in_alphabet(head)) by {
        lemma_char_in_alphabet('p', 71);
        lemma_char_in_alphabet('k', 66);
        lemma_char_in_alphabet('(', 10);
    }
    assert(in_alphabet(seq![')'])) by {
        lemma_char_in_alphabet(')', 11);
    }
    lemma_in_alphabet_concat(head, key);
    lemma_in_alphabet_concat(head + key, seq![')']);
    let text = term.text();
    assert forall|i: int| 0 <= i < text.len() implies text[i] != '#' by {
        if 3 <= i < 3 + key.len() {
            assert(text[i] == key[i - 3]);
        }
    }
    lemma_bare_round_trip(bare, tree);
}

/// Mapping the key of the descriptor of a term and mapping the result back
/// with a mapper that undoes the first gives the descriptor that one
/// started from.
pub proof fn lemma_pk_translate_back<P, Q, E, F, T, U>(
    bare: Bare<PkTerm<P>>,
    forth: T,
    there: Bare<PkTerm<Q>>,
    back: U,
    again: Bare<PkTerm<P>>,
) where
    P: ToPublicKey + Copy,
    Q: ToPublicKey + Copy,
    T: Translator<P, Q, E>,
    U: Translator<Q, P, F>,

    requires
        bare.inner().translated(forth) matches Ok(term) && there.inner() == term,
        there.inner().translated(back) matches Ok(term) && again.inner() == term,
        forall|p: P, q: Q| forth.translated(p) == Ok::<Q, E>(q) ==> back.translated(q) == Ok::<P, F>(p),
    ensures
        again == bare,
{
    assert forall|m: PkTerm<P>, n: PkTerm<Q>|
        m.translated(forth) == Ok::<PkTerm<Q>, E>(n) implies n.translated(back) == Ok::<
        PkTerm<P>,
        F,
    >(m) by {
        assert(forth.translated(m.key) == Ok::<Q, E>(n.key));
    }
    lemma_bare_translate_back(bare, forth, there, back, again);
}

} // verus!
