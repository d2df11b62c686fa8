//! The pay-to-pubkey-hash descriptor: one key, whose hash the output pays
//! to.

use vstd::prelude::*;

use crate::address::{
    address_blinder, address_p2pkh, address_params, address_script, address_script_pubkey,
    elements_params, hash160, p2pkh_script,
};
use crate::checksum::{
    append_checksum, in_alphabet, lemma_char_in_alphabet, lemma_in_alphabet_concat,
    lemma_verify_accepts_rendered, verify_checksum, verify_checksum_spec, with_checksum,
};
use crate::error::{ChecksumError, Error};
use crate::expression::{
    lemma_parse_render, lemma_view_args, parse_tree, render, render_args, well_formed, Tree,
    TreeView,
};
use crate::key::{printable_key, public_key_bytes, MiniscriptKey, ToPublicKey, Translator};
use crate::policy::Policy;
use crate::satisfy::{elementssig_to_rawsig, raw_sig, ElementsSig, Satisfier};
use crate::script::{push_bytes, script_bytes, scriptsig_weight, sig_and_key_script};
use crate::text::{append_chars, chars_eq, to_chars};

verus! {

/// A pay-to-pubkey-hash descriptor at top level.
#[derive(Clone, Debug, PartialEq, Eq, PartialOrd, Ord, Hash)]
pub struct Pkh<Pk: MiniscriptKey> {
    /// The key that must sign.
    pk: Pk,
}

/// The length that a key takes in a script, its push opcode included.
pub open spec fn pk_len<Pk: MiniscriptKey>(pk: Pk) -> nat {
    if pk.uncompressed() {
        66
    } else {
        34
    }
}

impl<Pk: MiniscriptKey> Pkh<Pk> {
    /// The key of the descriptor.
    pub closed spec fn inner(&self) -> Pk {
        self.pk
    }

    /// The descriptor of a key. Every key is accepted.
    pub fn new(pk: Pk) -> (r: Self)
        ensures
            r.inner() == pk,
    {
        Pkh { pk }
    }

    /// The key of the descriptor.
    pub fn as_inner(&self) -> (r: &Pk)
        ensures
            *r == self.inner(),
    {
        &self.pk
    }

    /// The key of the descriptor.
    pub fn into_inner(self) -> (r: Pk)
        ensures
            r == self.inner(),
    {
        self.pk
    }

    /// An upper bound on the weight of what unlocks the output: one byte for
    /// the length of the unlocking script, 73 for the push of a signature
    /// with its sighash byte, and the push of the key, each byte counted
    /// four times.
    pub fn max_satisfaction_weight(&self) -> (r: usize)
        ensures
            r == 4 * (1 + 73 + pk_len(self.inner())),
    {
        let key_len: usize = if self.pk.is_uncompressed() {
            66
        } else {
            34
        };
        4 * (1 + 73 + key_len)
    }
}

impl<Pk: ToPublicKey> Pkh<Pk> {
    /// The script that the output is locked with: the pay-to-pubkey-hash
    /// script for the hash of the key's serialization, 25 bytes long.
    pub fn script_pubkey(&self) -> (script: elements::Script)
        ensures
            script_bytes(script) == p2pkh_script(hash160(self.inner().key_bytes())),
            script_bytes(script).len() == 25,
    {
        let key = self.pk.to_public_key();
        let address = address_p2pkh(&key, None, elements_params());
        address_script_pubkey(&address)
    }

    /// The address of the descriptor on the network of `params`, blinded
    /// with `blinder` where one is given.
    pub fn address(
        &self,
        blinder: Option<elements::secp256k1_zkp::PublicKey>,
        params: &'static elements::AddressParams,
    ) -> (address: elements::Address)
        ensures
            address_script(address) == p2pkh_script(hash160(self.inner().key_bytes())),
            address_params(address) == *params,
            address_blinder(address) == blinder,
    {
        let key = self.pk.to_public_key();
        address_p2pkh(&key, blinder, params)
    }

    /// The script that is executed when the output is spent: the locking
    /// script itself.
    pub fn inner_script(&self) -> (script: elements::Script)
        ensures
            script_bytes(script) == p2pkh_script(hash160(self.inner().key_bytes())),
    {
        self.script_pubkey()
    }

    /// The script code that a signature commits to: the locking script
    /// itself.
    pub fn ecdsa_sighash_script_code(&self) -> (script: elements::Script)
        ensures
            script_bytes(script) == p2pkh_script(hash160(self.inner().key_bytes())),
    {
        self.script_pubkey()
    }
}

/// The script that unlocks a pay-to-pubkey-hash output: the push of the
/// signature, then the push of the key.
pub open spec fn unlock_script(sig: Seq<u8>, key: Seq<u8>) -> Seq<u8> {
    push_bytes(sig) + push_bytes(key)
}

/// What `satisfy_with` gives for the answer `sig` of the capability.
pub open spec fn satisfaction_of_sig(
    key: Seq<u8>,
    sig: Option<ElementsSig>,
    r: Result<(Vec<Vec<u8>>, elements::Script), Error>,
) -> bool {
    match sig {
        Some(sig) => r matches Ok((witness, script)) && witness@.len() == 0 && script_bytes(script)
            == unlock_script(raw_sig(sig), key),
        None => r matches Err(Error::MissingSignature(missing)) && public_key_bytes(missing)
            == key,
    }
}

/// The greatest length of a signature with its sighash byte for which the
/// bound of `max_satisfaction_weight` holds.
pub const MAX_SIG_LEN: usize = 72;

/// The unlocking script of a signature of at most `MAX_SIG_LEN` bytes and
/// a key weighs no more than `max_satisfaction_weight` allows.
pub proof fn lemma_pkh_weight_bound(sig: Seq<u8>, key: Seq<u8>, uncompressed: bool)
    requires
        sig.len() <= MAX_SIG_LEN,
        key.len() == (if uncompressed {
            65int
        } else {
            33int
        }),
    ensures
        scriptsig_weight(unlock_script(sig, key).len()) <= 4 * (1 + 73 + (if uncompressed {
            66int
        } else {
            34int
        })),
{
}

impl<Pk: ToPublicKey> Pkh<Pk> {
    /// What satisfaction gives for the answer `sig` of the capability: with
    /// a signature, an empty witness and the script that pushes the
    /// signature and the key; without one, the key that no signature was
    /// found for.
    pub fn satisfy_with(&self, sig: Option<ElementsSig>) -> (r: Result<
        (Vec<Vec<u8>>, elements::Script),
        Error,
    >)
        ensures
            satisfaction_of_sig(self.inner().key_bytes(), sig, r),
            sig matches Some(sig) && raw_sig(sig).len() <= MAX_SIG_LEN ==> scriptsig_weight(
                script_bytes(r->Ok_0.1).len(),
            ) <= 4 * (1 + 73 + pk_len(self.inner())),
    {
        let key = self.pk.to_public_key();
        match sig {
            Some(sig) => {
                let sig_vec = elementssig_to_rawsig(&sig);
                let script_sig = sig_and_key_script(sig_vec.as_slice(), &key);
                let witness: Vec<Vec<u8>> = Vec::new();
                proof {
                    if raw_sig(sig).len() <= MAX_SIG_LEN {
                        lemma_pkh_weight_bound(
                            raw_sig(sig),
                            public_key_bytes(key),
                            self.inner().uncompressed(),
                        );
                    }
                }
                Ok((witness, script_sig))
            },
            None => Err(Error::MissingSignature(key)),
        }
    }

    /// Unlocks the output with what `satisfier` has: asks it for a
    /// signature of the key, once, and gives what `satisfy_with` gives for
    /// its answer.
    pub fn get_satisfaction<S: Satisfier<Pk>>(&self, satisfier: S) -> (r: Result<
        (Vec<Vec<u8>>, elements::Script),
        Error,
    >)
        ensures
            exists|sig: Option<ElementsSig>|
                call_ensures(S::lookup_ecdsa_sig, (&satisfier, &self.inner()), sig)
                    && #[trigger] satisfaction_of_sig(self.inner().key_bytes(), sig, r),
    {
        let sig = satisfier.lookup_ecdsa_sig(&self.pk);
        self.satisfy_with(sig)
    }

    /// As `get_satisfaction`: with one key there is one way to unlock.
    pub fn get_satisfaction_mall<S: Satisfier<Pk>>(&self, satisfier: S) -> (r: Result<
        (Vec<Vec<u8>>, elements::Script),
        Error,
    >)
        ensures
            exists|sig: Option<ElementsSig>|
                call_ensures(S::lookup_ecdsa_sig, (&satisfier, &self.inner()), sig)
                    && #[trigger] satisfaction_of_sig(self.inner().key_bytes(), sig, r),
    {
        self.get_satisfaction(satisfier)
    }
}

impl<Pk: MiniscriptKey> Pkh<Pk> {
    /// The keys of the descriptor, in the order in which they are visited:
    /// the one key.
    pub open spec fn keys(&self) -> Seq<Pk> {
        seq![self.inner()]
    }

    /// The semantic policy of the descriptor: a clone of its key must sign.
    pub fn lift(&self) -> (r: Result<Policy<Pk>, Error>)
        ensures
            r matches Ok(Policy::Key(key)) && cloned(self.inner(), key),
    {
        Ok(Policy::Key(self.pk.clone()))
    }

    /// Calls `pred` on the key, once, and returns its answer.
    pub fn for_each_key<F: Fn(&Pk) -> bool>(&self, pred: F) -> (r: bool)
        requires
            call_requires(pred, (&self.inner(),)),
        ensures
            call_ensures(pred, (&self.inner(),), r),
    {
        pred(&self.pk)
    }

    /// The descriptor of the key that `t` maps this one's key to. The
    /// mapper is asked once.
    pub fn translate_pk<Q: MiniscriptKey, T: Translator<Pk, Q, E>, E>(&self, t: &mut T) -> (r:
        Result<Pkh<Q>, E>)
        ensures
            match old(t).translated(self.inner()) {
                Ok(key) => r matches Ok(pkh) && pkh.inner() == key,
                Err(e) => r == Err::<Pkh<Q>, E>(e),
            },
            *final(t) == old(t).advanced(self.inner()),
    {
        match t.pk(&self.pk) {
            Ok(key) => Ok(Pkh::new(key)),
            Err(e) => Err(e),
        }
    }
}

/// Mapping the key of a descriptor and mapping the result back with a
/// mapper that undoes the first gives the descriptor that one started
/// from.
pub proof fn lemma_pkh_translate_back<P: MiniscriptKey, Q: MiniscriptKey, E, F, T, U>(
    pkh: Pkh<P>,
    forth: T,
    there: Pkh<Q>,
    back: U,
    again: Pkh<P>,
) where T: Translator<P, Q, E>, U: Translator<Q, P, F>
    requires
        forth.translated(pkh.inner()) matches Ok(key) && there.inner() == key,
        back.translated(there.inner()) matches Ok(key) && again.inner() == key,
        forall|p: P, q: Q| forth.translated(p) == Ok::<Q, E>(q) ==> back.translated(q) == Ok::<P, F>(p),
    ensures
        again == pkh,
{
}

/// The name of the root of a pay-to-pubkey-hash descriptor.
pub const PKH_NAME: [char; 5] = ['e', 'l', 'p', 'k', 'h'];

/// The body of the descriptor of the key that is written as `key`.
pub open spec fn pkh_body(key: Seq<char>) -> Seq<char> {
    PKH_NAME@ + seq!['('] + key + seq![')']
}

/// The expression of the descriptor of the key that is written as `key`.
pub open spec fn pkh_tree(key: Seq<char>) -> TreeView {
    TreeView { name: PKH_NAME@, args: seq![TreeView { name: key, args: Seq::empty() }] }
}

/// Whether an expression has the shape of a pay-to-pubkey-hash descriptor:
/// the name, and one argument that has no arguments of its own.
pub open spec fn is_pkh_tree(tree: TreeView) -> bool {
    &&& tree.name == PKH_NAME@
    &&& tree.args.len() == 1
    &&& tree.args[0].args.len() == 0
}

/// What reading an expression as a pay-to-pubkey-hash descriptor gives:
/// its key.
pub open spec fn pkh_of_tree<Pk: MiniscriptKey>(tree: TreeView) -> Result<Pk, Error> {
    if is_pkh_tree(tree) && Pk::parse_text(tree.args[0].name) is Some {
        Ok(Pk::parse_text(tree.args[0].name)->Some_0)
    } else {
        Err(Error::UnexpectedNode)
    }
}

/// What reading a text as a pay-to-pubkey-hash descriptor gives: its key,
/// or the first fault: of the checksum, of the syntax, of the shape or the
/// key.
pub open spec fn pkh_of_text<Pk: MiniscriptKey>(text: Seq<char>) -> Result<Pk, Error> {
    match verify_checksum_spec(text) {
        Err(e) => Err(Error::Checksum(e)),
        Ok(body) => match parse_tree(body) {
            None => Err(Error::Parse),
            Some(tree) => pkh_of_tree::<Pk>(tree),
        },
    }
}

impl<Pk: MiniscriptKey> Pkh<Pk> {
    /// The text of the descriptor without its checksum.
    pub open spec fn body(&self) -> Seq<char> {
        pkh_body(self.inner().text())
    }

    /// Writes the descriptor with its checksum. Fails where the text of
    /// the key holds a character outside the descriptor alphabet. What is
    /// written is read as this descriptor again, where the key is printable
    /// and its own text is read as that key.
    pub fn to_string(&self) -> (r: Result<String, Error>)
        ensures
            in_alphabet(self.body()) ==> r is Ok && r->Ok_0@ == with_checksum(self.body()),
            !in_alphabet(self.body()) ==> r == Err::<String, Error>(
                Error::Checksum(ChecksumError::InvalidCharacter),
            ),
            printable_key(self.inner().text()) && Pk::parse_text(self.inner().text()) == Some(
                self.inner(),
            ) ==> r is Ok && pkh_of_text::<Pk>(r->Ok_0@) == Ok::<Pk, Error>(self.inner()),
    {
        proof {
            if printable_key(self.inner().text()) && Pk::parse_text(self.inner().text()) == Some(
                self.inner(),
            ) {
                lemma_pkh_round_trip(*self);
            }
        }
        let key = self.pk.to_text();
        let key_chars = to_chars(key.as_str());
        let mut body: Vec<char> = Vec::new();
        append_chars(&mut body, PKH_NAME.as_slice());
        body.push('(');
        append_chars(&mut body, key_chars.as_slice());
        body.push(')');
        assert(body@ =~= self.body());
        match append_checksum(body) {
            Ok(text) => Ok(text),
            Err(e) => Err(Error::Checksum(e)),
        }
    }

    /// Reads a descriptor from an expression.
    pub fn from_tree(top: &Tree) -> (r: Result<Self, Error>)
        ensures
            match r {
                Ok(pkh) => pkh_of_tree::<Pk>(top@) == Ok::<Pk, Error>(pkh.inner()),
                Err(e) => pkh_of_tree::<Pk>(top@) == Err::<Pk, Error>(e),
            },
    {
        proof {
            lemma_view_args(*top);
        }
        let name = to_chars(top.name.as_str());
        if chars_eq(name.as_slice(), PKH_NAME.as_slice()) && top.args.len() == 1 {
            let arg = &top.args[0];
            proof {
                lemma_view_args(*arg);
            }
            if arg.args.len() == 0 {
                match Pk::from_text(arg.name.as_str()) {
                    Some(pk) => Ok(Pkh::new(pk)),
                    None => Err(Error::UnexpectedNode),
                }
            } else {
                Err(Error::UnexpectedNode)
            }
        } else {
            Err(Error::UnexpectedNode)
        }
    }

    /// Reads a descriptor from its text: checks the checksum, parses the
    /// body as an expression, and reads the expression.
    pub fn from_str(s: &str) -> (r: Result<Self, Error>)
        ensures
            match r {
                Ok(pkh) => pkh_of_text::<Pk>(s@) == Ok::<Pk, Error>(pkh.inner()),
                Err(e) => pkh_of_text::<Pk>(s@) == Err::<Pk, Error>(e),
            },
    {
        let body = match verify_checksum(s) {
            Ok(body) => body,
            Err(e) => {
                return Err(Error::Checksum(e));
            },
        };
        let top = match Tree::from_str(body) {
            Ok(top) => top,
            Err(e) => {
                return Err(e);
            },
        };
        Self::from_tree(&top)
    }
}

/// The body of a descriptor whose key is printable is the text of its
/// expression, is over the alphabet, and holds no `#`.
pub proof fn lemma_pkh_body(key: Seq<char>)
    requires
        printable_key(key),
    ensures
        well_formed(pkh_tree(key)),
        render(pkh_tree(key)) == pkh_body(key),
        in_alphabet(pkh_body(key)),
        !pkh_body(key).contains('#'),
{
    let tree = pkh_tree(key);
    let leaf = tree.args[0];
    assert(well_formed(leaf));
    assert(well_formed(tree));
    assert(render(leaf) == key);
    assert(render_args(tree.args) == key);
    assert(render(tree) == pkh_body(key));
    let head = PKH_NAME@ + seq!['('];
    assert(in_alphabet(head)) by {
        lemma_char_in_alphabet('e', 22);
        lemma_char_in_alphabet('l', 67);
        lemma_char_in_alphabet('p', 71);
        lemma_char_in_alphabet('k', 66);
        lemma_char_in_alphabet('h', 25);
        lemma_char_in_alphabet('(', 10);
    }
    assert(in_alphabet(seq![')'])) by {
        lemma_char_in_alphabet(')', 11);
    }
    lemma_in_alphabet_concat(head, key);
    lemma_in_alphabet_concat(head + key, seq![')']);
    let body = pkh_body(key);
    assert forall|i: int| 0 <= i < body.len() implies body[i] != '#' by {
        if 6 <= i < 6 + key.len() {
            assert(body[i] == key[i - 6]);
        }
    }
}

/// Writing a descriptor and reading what was written gives the descriptor
/// back, where its key is printable and the key's own text is read as that
/// key.
pub proof fn lemma_pkh_round_trip<Pk: MiniscriptKey>(pkh: Pkh<Pk>)
    requires
        printable_key(pkh.inner().text()),
        Pk::parse_text(pkh.inner().text()) == Some(pkh.inner()),
    ensures
        in_alphabet(pkh.body()),
        pkh_of_text::<Pk>(with_checksum(pkh.body())) == Ok::<Pk, Error>(pkh.inner()),
{
    let key = pkh.inner().text();
    lemma_pkh_body(key);
    lemma_verify_accepts_rendered(pkh.body());
    lemma_parse_render(pkh_tree(key));
}

/// What unlocking gives is fixed by the key and the answer of the
/// capability: two results for one answer have the same witness and the
/// same script, or name the same key as the one that lacks a signature.
pub proof fn lemma_satisfaction_determined(
    key: Seq<u8>,
    sig: Option<ElementsSig>,
    first: Result<(Vec<Vec<u8>>, elements::Script), Error>,
    second: Result<(Vec<Vec<u8>>, elements::Script), Error>,
)
    requires
        satisfaction_of_sig(key, sig, first),
        satisfaction_of_sig(key, sig, second),
    ensures
        match (first, second) {
            (Ok((w1, s1)), Ok((w2, s2))) => w1@ == w2@ && script_bytes(s1) == script_bytes(s2),
            (Err(Error::MissingSignature(k1)), Err(Error::MissingSignature(k2))) =>
                public_key_bytes(k1) == public_key_bytes(k2),
            _ => false,
        },
{
    if let (Ok((w1, s1)), Ok((w2, s2))) = (first, second) {
        assert(w1@ =~= w2@);
    }
}

/// A predicate that holds of every key holds of the traversal: where each
/// answer of `pred` is `true`, so is what `for_each_key` returns.
pub proof fn lemma_for_each_key_all<Pk: MiniscriptKey, F: Fn(&Pk) -> bool>(
    pkh: Pkh<Pk>,
    pred: F,
    r: bool,
)
    requires
        forall|key: Pk, answer: bool| call_ensures(pred, (&key,), answer) ==> answer,
        call_ensures(pred, (&pkh.inner(),), r),
    ensures
        r,
{
}

} // verus!
