//! The bare descriptor: a script term that is used as the locking script
//! itself.

use vstd::pervasive::unreached;
use vstd::prelude::*;
use vstd::slice::slice_subrange;

use crate::checksum::{
    append_checksum, in_alphabet, lemma_char_in_alphabet, lemma_in_alphabet_concat,
    lemma_verify_accepts_rendered, verify_checksum, verify_checksum_spec, with_checksum,
};
use crate::error::{ChecksumError, Error};
use crate::expression::{
    lemma_parse_render, lemma_view_args, parse_tree, render, well_formed, Tree, TreeView,
};
use crate::key::Translator;
use crate::policy::Policy;
use crate::satisfy::Satisfier;
use crate::script::{
    lemma_scriptsig_weight_monotonic, push_all, pushable, script_bytes, scriptsig_weight,
    stack_view, varint_len, witness_to_scriptsig,
};
use crate::term::{ScriptTerm, TranslatePk};
use crate::text::{append_chars, from_chars, to_chars};

verus! {

/// A bare descriptor: a script term that is wrapped in nothing.
#[derive(Debug, PartialEq, Eq, PartialOrd, Ord, Hash)]
pub struct Bare<M: ScriptTerm> {
    /// The script term.
    ms: M,
}

impl<M: ScriptTerm> Bare<M> {
    /// The script term of the descriptor.
    pub closed spec fn inner(&self) -> M {
        self.ms
    }

    /// A bare descriptor holds no term but one that meets the top-level
    /// rules.
    #[verifier::type_invariant]
    spec fn top_level_valid(&self) -> bool {
        self.ms.top_level_valid()
    }

    /// Wraps a script term, if it meets the top-level rules of the bare
    /// context.
    pub fn new(ms: M) -> (r: Result<Self, Error>)
        ensures
            match r {
                Ok(bare) => ms.top_level_valid() && bare.inner() == ms,
                Err(e) => !ms.top_level_valid() && e == Error::ContextViolation,
            },
    {
        if ms.top_level_checks() {
            Ok(Bare { ms })
        } else {
            Err(Error::ContextViolation)
        }
    }

    /// The script term of the descriptor.
    pub fn into_inner(self) -> (r: M)
        ensures
            r == self.inner(),
            r.top_level_valid(),
    {
        proof {
            use_type_invariant(&self);
        }
        self.ms
    }

    /// The script term of the descriptor.
    pub fn as_inner(&self) -> (r: &M)
        ensures
            *r == self.inner(),
            r.top_level_valid(),
    {
        proof {
            use_type_invariant(self);
        }
        &self.ms
    }

    /// Checks whether the descriptor is safe to use.
    pub fn sanity_check(&self) -> (r: Result<(), Error>)
        ensures
            self.inner().sane() ==> r is Ok,
            !self.inner().sane() ==> r == Err::<(), Error>(Error::Analysis),
    {
        if self.ms.sanity_check() {
            Ok(())
        } else {
            Err(Error::Analysis)
        }
    }

    /// An upper bound on the weight of what unlocks the output: the weight
    /// of the longest unlocking script of the term. Fails where the term
    /// cannot be satisfied, and where the weight is too large a number for
    /// the machine.
    pub fn max_satisfaction_weight(&self) -> (r: Result<usize, Error>)
        ensures
            match self.inner().max_satisfaction() {
                Some(n) => if scriptsig_weight(n as nat) <= usize::MAX {
                    r == Ok::<usize, Error>(scriptsig_weight(n as nat) as usize)
                } else {
                    r == Err::<usize, Error>(Error::Analysis)
                },
                None => r == Err::<usize, Error>(Error::Analysis),
            },
    {
        match self.ms.max_satisfaction_size() {
            None => Err(Error::Analysis),
            Some(n) => {
                let v = varint_len(n);
                if n > usize::MAX / 4 - v {
                    Err(Error::Analysis)
                } else {
                    Ok(4 * (v + n))
                }
            },
        }
    }

    /// The script that the output is locked with: the script of the term.
    pub fn script_pubkey(&self) -> (script: elements::Script)
        ensures
            script_bytes(script) == self.inner().script(),
    {
        self.ms.encode()
    }

    /// The script that is executed when the output is spent: the script of
    /// the term.
    pub fn inner_script(&self) -> (script: elements::Script)
        ensures
            script_bytes(script) == self.inner().script(),
    {
        self.script_pubkey()
    }

    /// The script code that a signature commits to: the script of the term.
    pub fn ecdsa_sighash_script_code(&self) -> (script: elements::Script)
        ensures
            script_bytes(script) == self.inner().script(),
    {
        self.script_pubkey()
    }
}

/// What stands before the text of the term in the text of a bare
/// descriptor.
pub const PREFIX: [char; 2] = ['e', 'l'];

/// The expression without the prefix at the start of the name of its root,
/// where the name starts with the prefix.
pub open spec fn strip_prefix(tree: TreeView) -> Option<TreeView> {
    if tree.name.len() >= 2 && tree.name[0] == PREFIX@[0] && tree.name[1] == PREFIX@[1] {
        Some(TreeView { name: tree.name.skip(2), args: tree.args })
    } else {
        None
    }
}

/// What unlocking gives for the result `stack` of the term's own
/// satisfaction: a failure as it is; for a stack, an empty witness and the
/// script that pushes its items in order, or a failure of analysis where an
/// item is too long to be pushed.
pub open spec fn satisfaction_of_stack(
    stack: Result<Vec<Vec<u8>>, Error>,
    r: Result<(Vec<Vec<u8>>, elements::Script), Error>,
) -> bool {
    match stack {
        Err(e) => r == Err::<(Vec<Vec<u8>>, elements::Script), Error>(e),
        Ok(stack) => if pushable(stack_view(stack@)) {
            r matches Ok((witness, script)) && witness@.len() == 0 && script_bytes(script)
                == push_all(stack_view(stack@))
        } else {
            r == Err::<(Vec<Vec<u8>>, elements::Script), Error>(Error::Analysis)
        },
    }
}

/// Wraps the stack of a satisfaction in one unlocking script.
pub fn satisfy_with(stack: Result<Vec<Vec<u8>>, Error>) -> (r: Result<
    (Vec<Vec<u8>>, elements::Script),
    Error,
>)
    ensures
        satisfaction_of_stack(stack, r),
{
    match stack {
        Err(e) => Err(e),
        Ok(stack) => match witness_to_scriptsig(stack.as_slice()) {
            Some(script_sig) => {
                let witness: Vec<Vec<u8>> = Vec::new();
                Ok((witness, script_sig))
            },
            None => Err(Error::Analysis),
        },
    }
}

impl<M: ScriptTerm> Bare<M> {
    /// The text of the descriptor without its checksum.
    pub open spec fn body(&self) -> Seq<char> {
        PREFIX@ + self.inner().text()
    }

    /// The keys of the descriptor, in the order in which they are visited:
    /// those of the term.
    pub open spec fn keys(&self) -> Seq<M::Key> {
        self.inner().keys()
    }

    /// Unlocks the output with what `satisfier` has, without malleability:
    /// `satisfy_with` of the non-malleable satisfaction of the term. A
    /// script that is no longer than the term's bound weighs no more than
    /// `max_satisfaction_weight` says.
    pub fn get_satisfaction<S: Satisfier<M::Key>>(&self, satisfier: S) -> (r: Result<
        (Vec<Vec<u8>>, elements::Script),
        Error,
    >)
        ensures
            exists|stack: Result<Vec<Vec<u8>>, Error>|
                call_ensures(M::satisfy::<S>, (&self.inner(), satisfier), stack)
                    && #[trigger] satisfaction_of_stack(stack, r),
            r matches Ok((witness, script)) ==> (self.inner().max_satisfaction() matches Some(max)
                && script_bytes(script).len() <= max ==> scriptsig_weight(
                script_bytes(script).len(),
            ) <= scriptsig_weight(self.inner().max_satisfaction()->Some_0 as nat)),
    {
        let stack = self.ms.satisfy(satisfier);
        let r = satisfy_with(stack);
        proof {
            if r is Ok && self.inner().max_satisfaction() is Some && script_bytes(r->Ok_0.1).len()
                <= self.inner().max_satisfaction()->Some_0 {
                lemma_scriptsig_weight_monotonic(
                    script_bytes(r->Ok_0.1).len(),
                    self.inner().max_satisfaction()->Some_0 as nat,
                );
            }
        }
        r
    }

    /// Unlocks the output with what `satisfier` has, malleably or not:
    /// `satisfy_with` of the term's satisfaction. A script that is no longer
    /// than the term's bound weighs no more than `max_satisfaction_weight`
    /// says.
    pub fn get_satisfaction_mall<S: Satisfier<M::Key>>(&self, satisfier: S) -> (r: Result<
        (Vec<Vec<u8>>, elements::Script),
        Error,
    >)
        ensures
            exists|stack: Result<Vec<Vec<u8>>, Error>|
                call_ensures(M::satisfy_malleable::<S>, (&self.inner(), satisfier), stack)
                    && #[trigger] satisfaction_of_stack(stack, r),
            r matches Ok((witness, script)) ==> (self.inner().max_satisfaction() matches Some(max)
                && script_bytes(script).len() <= max ==> scriptsig_weight(
                script_bytes(script).len(),
            ) <= scriptsig_weight(self.inner().max_satisfaction()->Some_0 as nat)),
    {
        let stack = self.ms.satisfy_malleable(satisfier);
        let r = satisfy_with(stack);
        proof {
            if r is Ok && self.inner().max_satisfaction() is Some && script_bytes(r->Ok_0.1).len()
                <= self.inner().max_satisfaction()->Some_0 {
                lemma_scriptsig_weight_monotonic(
                    script_bytes(r->Ok_0.1).len(),
                    self.inner().max_satisfaction()->Some_0 as nat,
                );
            }
        }
        r
    }

    /// Writes the descriptor with its checksum: the prefix, then the term.
    /// Fails where the text of the term holds a character outside the
    /// descriptor alphabet. What is written is read as this descriptor
    /// again, where the text of the term holds no `#` and is that of an
    /// expression which is read as the term.
    pub fn to_string(&self) -> (r: Result<String, Error>)
        ensures
            in_alphabet(self.body()) ==> r is Ok && r->Ok_0@ == with_checksum(self.body()),
            !in_alphabet(self.body()) ==> r == Err::<String, Error>(
                Error::Checksum(ChecksumError::InvalidCharacter),
            ),
            forall|tree: TreeView|
                well_formed(tree) && #[trigger] render(tree) == self.inner().text()
                    && M::parse_tree(tree) == Some(self.inner()) && in_alphabet(
                    self.inner().text(),
                ) && !self.inner().text().contains('#') ==> r is Ok && bare_of_text::<M>(r->Ok_0@)
                    == Ok::<M, Error>(self.inner()),
    {
        proof {
            use_type_invariant(self);
            assert forall|tree: TreeView|
                well_formed(tree) && #[trigger] render(tree) == self.inner().text()
                    && M::parse_tree(tree) == Some(self.inner()) && in_alphabet(
                    self.inner().text(),
                ) && !self.inner().text().contains('#') implies in_alphabet(self.body())
                && bare_of_text::<M>(with_checksum(self.body())) == Ok::<M, Error>(
                self.inner(),
            ) by {
                lemma_bare_round_trip(*self, tree);
            }
        }
        let term = self.ms.to_text();
        let term_chars = to_chars(term.as_str());
        let mut body: Vec<char> = Vec::new();
        append_chars(&mut body, PREFIX.as_slice());
        append_chars(&mut body, term_chars.as_slice());
        assert(body@ =~= self.body());
        match append_checksum(body) {
            Ok(text) => Ok(text),
            Err(e) => Err(Error::Checksum(e)),
        }
    }

    /// The semantic policy of the descriptor: that of the term.
    pub fn lift(&self) -> (r: Result<Policy<M::Key>, Error>)
        ensures
            r == self.inner().policy(),
    {
        self.ms.lift()
    }

    /// Reads a descriptor from an expression: the name of the root must
    /// start with the prefix; what is left is read as a term, and the term
    /// is wrapped. Where the term's own parser fails, its error is handed
    /// on.
    pub fn from_tree(top: &Tree) -> (r: Result<Self, Error>)
        ensures
            match r {
                Ok(bare) => bare_of_tree::<M>(top@) == Ok::<M, Error>(bare.inner()),
                Err(e) => bare_of_tree::<M>(top@) == Err::<M, Error>(e),
            },
    {
        proof {
            lemma_view_args(*top);
        }
        let name = to_chars(top.name.as_str());
        if name.len() >= 2 && name[0] == 'e' && name[1] == 'l' {
            let rest = from_chars(slice_subrange(name.as_slice(), 2, name.len()));
            let mut sub = top.clone();
            proof {
                lemma_view_args(sub);
            }
            sub.name = rest;
            proof {
                lemma_view_args(sub);
                assert(sub@.name =~= top@.name.skip(2));
                assert(sub@ == strip_prefix(top@)->Some_0);
            }
            match M::from_tree(&sub) {
                Ok(ms) => Bare::new(ms),
                Err(e) => Err(e),
            }
        } else {
            Err(Error::UnexpectedNode)
        }
    }

    /// Reads a descriptor from its text: checks the checksum, parses the
    /// body as an expression, and reads the expression.
    pub fn from_str(s: &str) -> (r: Result<Self, Error>)
        ensures
            match r {
                Ok(bare) => bare_of_text::<M>(s@) == Ok::<M, Error>(bare.inner()),
                Err(e) => bare_of_text::<M>(s@) == Err::<M, Error>(e),
            },
    {
        let body = match verify_checksum(s) {
            Ok(body) => body,
            Err(e) => {
                return Err(Error::Checksum(e));
            },
        };
        let top = match Tree::from_str(body) {
            Ok(top) => top,
            Err(e) => {
                return Err(e);
            },
        };
        Self::from_tree(&top)
    }

    /// Calls `pred` on the keys of the term, in order, until it answers
    /// `false` for one. The result is `true` only where `pred` answered
    /// `true` for every key.
    pub fn for_each_key<F: Fn(&M::Key) -> bool>(&self, pred: F) -> (r: bool)
        requires
            forall|i: int|
                0 <= i < self.keys().len() ==> call_requires(pred, (&#[trigger] self.keys()[i],)),
        ensures
            r ==> forall|i: int|
                0 <= i < self.keys().len() ==> call_ensures(pred, (&#[trigger] self.keys()[i],), true),
            !r ==> exists|i: int|
                0 <= i < self.keys().len() && call_ensures(pred, (&#[trigger] self.keys()[i],), false),
    {
        assert(self.keys() == self.ms.keys());
        self.ms.for_each_key(pred)
    }

    /// The descriptor of the term with each key replaced by what `t` maps
    /// it to. The mapped term is checked and wrapped as any other; since
    /// mapping keeps a term valid at top level, the check cannot fail.
    pub fn translate_pk<Out: ScriptTerm, T: Translator<M::Key, Out::Key, E>, E>(
        &self,
        t: &mut T,
    ) -> (r: Result<Bare<Out>, E>) where M: TranslatePk<Out, T, E>
        ensures
            match self.inner().translated(*old(t)) {
                Ok(term) => r matches Ok(bare) && bare.inner() == term,
                Err(e) => r == Err::<Bare<Out>, E>(e),
            },
            *final(t) == self.inner().mapper_after(*old(t)),
    {
        proof {
            use_type_invariant(self);
        }
        match self.ms.translate_pk(t) {
            Ok(ms) => match Bare::new(ms) {
                Ok(bare) => Ok(bare),
                Err(_) => unreached(),
            },
            Err(e) => Err(e),
        }
    }
}

/// What reading an expression as a bare descriptor gives: its term, or the
/// fault: of the prefix, of the term, as the term's own parser names it, or
/// of the top-level rules.
pub open spec fn bare_of_tree<M: ScriptTerm>(top: TreeView) -> Result<M, Error> {
    match strip_prefix(top) {
        None => Err(Error::UnexpectedNode),
        Some(tree) => match M::parse_tree(tree) {
            None => Err(M::parse_error(tree)),
            Some(term) => if term.top_level_valid() {
                Ok(term)
            } else {
                Err(Error::ContextViolation)
            },
        },
    }
}

/// What reading a text as a bare descriptor gives: its term, or the first
/// fault: of the checksum, of the syntax, or of the expression.
pub open spec fn bare_of_text<M: ScriptTerm>(text: Seq<char>) -> Result<M, Error> {
    match verify_checksum_spec(text) {
        Err(c) => Err(Error::Checksum(c)),
        Ok(body) => match parse_tree(body) {
            None => Err(Error::Parse),
            Some(top) => bare_of_tree::<M>(top),
        },
    }
}

/// The expression of a bare descriptor whose term is written as `tree`:
/// the prefix stands before the name of the root.
pub open spec fn with_prefix(tree: TreeView) -> TreeView {
    TreeView { name: PREFIX@ + tree.name, args: tree.args }
}

/// Writing a bare descriptor and reading what was written gives the
/// descriptor back, where the text of its term is that of an expression
/// `tree` which is read as the term, over the descriptor alphabet and
/// without a `#`.
pub proof fn lemma_bare_round_trip<M: ScriptTerm>(bare: Bare<M>, tree: TreeView)
    requires
        bare.inner().top_level_valid(),
        well_formed(tree),
        render(tree) == bare.inner().text(),
        M::parse_tree(tree) == Some(bare.inner()),
        in_alphabet(bare.inner().text()),
        !bare.inner().text().contains('#'),
    ensures
        in_alphabet(bare.body()),
        bare_of_text::<M>(with_checksum(bare.body())) == Ok::<M, Error>(bare.inner()),
{
    let text = bare.inner().text();
    let body = bare.body();
    let top = with_prefix(tree);
    assert(in_alphabet(PREFIX@)) by {
        lemma_char_in_alphabet('e', 22);
        lemma_char_in_alphabet('l', 67);
    }
    lemma_in_alphabet_concat(PREFIX@, text);
    assert forall|i: int| 0 <= i < body.len() implies body[i] != '#' by {
        if i >= 2 {
            assert(body[i] == text[i - 2]);
        }
    }
    lemma_verify_accepts_rendered(body);
    assert(well_formed(top)) by {
        assert forall|i: int| 0 <= i < top.name.len() implies !crate::expression::is_delimiter(
            #[trigger] top.name[i],
        ) by {
            if i >= 2 {
                assert(top.name[i] == tree.name[i - 2]);
            }
        }
    }
    assert(render(top) =~= body);
    lemma_parse_render(top);
    assert(top.name.skip(2) =~= tree.name);
    assert(strip_prefix(top) == Some(tree));
}

/// What `satisfy_with` gives is fixed by the stack: two results for one
/// stack have the same witness and the same script, or are the same
/// failure.
pub proof fn lemma_satisfaction_determined(
    stack: Result<Vec<Vec<u8>>, Error>,
    first: Result<(Vec<Vec<u8>>, elements::Script), Error>,
    second: Result<(Vec<Vec<u8>>, elements::Script), Error>,
)
    requires
        satisfaction_of_stack(stack, first),
        satisfaction_of_stack(stack, second),
    ensures
        match (first, second) {
            (Ok((w1, s1)), Ok((w2, s2))) => w1@ == w2@ && script_bytes(s1) == script_bytes(s2),
            (Err(e1), Err(e2)) => e1 == e2,
            _ => false,
        },
{
    if let (Ok((w1, s1)), Ok((w2, s2))) = (first, second) {
        assert(w1@ =~= w2@);
    }
}

/// A predicate that holds of every key holds of the traversal: where each
/// answer of `pred` is `true`, so is what `for_each_key` returns.
pub proof fn lemma_for_each_key_all<M: ScriptTerm, F: Fn(&M::Key) -> bool>(
    bare: Bare<M>,
    pred: F,
    r: bool,
)
    requires
        forall|key: M::Key, answer: bool| call_ensures(pred, (&key,), answer) ==> answer,
        !r ==> exists|i: int|
            0 <= i < bare.keys().len() && call_ensures(pred, (&#[trigger] bare.keys()[i],), false),
    ensures
        r,
{
}

/// Mapping the keys of a descriptor and mapping the result back gives the
/// descriptor that one started from, where the second mapping of the term
/// undoes the first.
pub proof fn lemma_bare_translate_back<M, N, E, F, T, U>(
    bare: Bare<M>,
    forth: T,
    there: Bare<N>,
    back: U,
    again: Bare<M>,
) where
    M: TranslatePk<N, T, E>,
    N: TranslatePk<M, U, F>,
    T: Translator<M::Key, N::Key, E>,
    U: Translator<N::Key, M::Key, F>,

    requires
        bare.inner().translated(forth) matches Ok(term) && there.inner() == term,
        there.inner().translated(back) matches Ok(term) && again.inner() == term,
        forall|m: M, n: N|
            m.translated(forth) == Ok::<N, E>(n) ==> n.translated(back) == Ok::<M, F>(m),
    ensures
        again == bare,
{
}

} // verus!
