use std::str::FromStr;

use elements::bitcoin::PublicKey;
use elements::secp256k1_zkp::{Message, Secp256k1, SecretKey};
use elements::{EcdsaSigHashType, Script};
use elements_descriptor::descriptor::bare::{satisfy_with, Bare};
use elements_descriptor::error::{ChecksumError, Error};
use elements_descriptor::expression::Tree;
use elements_descriptor::key::{MiniscriptKey, Translator};
use elements_descriptor::policy::Policy;
use elements_descriptor::satisfy::{elementssig_to_rawsig, ElementsSig, Satisfier};
use elements_descriptor::term::{ScriptTerm, TranslatePk};

const KEY_G: &str = "0279be667ef9dcbbac55a06295ce870b07029bfcdb2dce28d959f2815b16f81798";

/// A small family of terms: `pk(KEY)`, `both(KEY,KEY)`, and `0`, which
/// cannot be satisfied and is refused at top level.
#[derive(Clone, Debug, PartialEq)]
enum Term<K> {
    Pk(K),
    Both(K, K),
    False,
    Size(usize),
}

impl<K: MiniscriptKey + PartialEq> ScriptTerm for Term<K> {
    type Key = K;

    fn top_level_checks(&self) -> bool {
        !matches!(self, Term::False)
    }

    fn sanity_check(&self) -> bool {
        !matches!(self, Term::Both(a, b) if a == b)
    }

    fn max_satisfaction_size(&self) -> Option<usize> {
        match self {
            Term::Pk(_) => Some(73),
            Term::Both(_, _) => Some(300),
            Term::False => None,
            Term::Size(n) => Some(*n),
        }
    }

    fn encode(&self) -> Script {
        match self {
            Term::Pk(k) => Script::from(format!("pk {}", k.to_text()).into_bytes()),
            Term::Both(a, b) => {
                Script::from(format!("both {} {}", a.to_text(), b.to_text()).into_bytes())
            }
            Term::False => Script::from(vec![0u8]),
            Term::Size(_) => Script::from(vec![1u8]),
        }
    }

    fn satisfy<S: Satisfier<K>>(&self, satisfier: S) -> Result<Vec<Vec<u8>>, Error> {
        match self {
            Term::Pk(k) => match satisfier.lookup_ecdsa_sig(k) {
                Some(sig) => Ok(vec![elementssig_to_rawsig(&sig)]),
                None => Err(Error::Unsatisfiable),
            },
            Term::Both(a, b) => {
                match (satisfier.lookup_ecdsa_sig(a), satisfier.lookup_ecdsa_sig(b)) {
                    (Some(x), Some(y)) => {
                        Ok(vec![elementssig_to_rawsig(&y), elementssig_to_rawsig(&x)])
                    }
                    _ => Err(Error::Unsatisfiable),
                }
            }
            Term::False => Err(Error::Unsatisfiable),
            Term::Size(_) => Err(Error::MaxRecursion),
        }
    }

    fn satisfy_malleable<S: Satisfier<K>>(&self, satisfier: S) -> Result<Vec<Vec<u8>>, Error> {
        match self {
            Term::Both(a, _) => match satisfier.lookup_ecdsa_sig(a) {
                Some(x) => Ok(vec![vec![], elementssig_to_rawsig(&x)]),
                None => Err(Error::Unsatisfiable),
            },
            _ => self.satisfy(satisfier),
        }
    }

    fn to_text(&self) -> String {
        match self {
            Term::Pk(k) => format!("pk({})", k.to_text()),
            Term::Both(a, b) => format!("both({},{})", a.to_text(), b.to_text()),
            Term::False => "0".to_string(),
            Term::Size(n) => format!("size({})", n),
        }
    }

    fn from_tree(tree: &Tree) -> Result<Self, Error> {
        let key = |t: &Tree| {
            if t.args.is_empty() {
                K::from_text(&t.name).ok_or(Error::UnexpectedNode)
            } else {
                Err(Error::UnexpectedNode)
            }
        };
        match (tree.name.as_str(), tree.args.len()) {
            ("pk", 1) => Ok(Term::Pk(key(&tree.args[0])?)),
            ("both", 2) => Ok(Term::Both(key(&tree.args[0])?, key(&tree.args[1])?)),
            ("0", 0) => Ok(Term::False),
            ("size", 1) => match tree.args[0].name.parse() {
                Ok(n) if tree.args[0].args.is_empty() => Ok(Term::Size(n)),
                _ => Err(Error::Parse),
            },
            _ => Err(Error::UnexpectedNode),
        }
    }

    fn lift(&self) -> Result<Policy<K>, Error> {
        match self {
            Term::Pk(k) => Ok(Policy::Key(k.clone())),
            Term::Both(a, b) => {
                Ok(Policy::Threshold(2, vec![Policy::Key(a.clone()), Policy::Key(b.clone())]))
            }
            Term::False => Ok(Policy::Unsatisfiable),
            Term::Size(_) => Err(Error::MaxRecursion),
        }
    }

    fn for_each_key<F: Fn(&K) -> bool>(&self, pred: F) -> bool {
        match self {
            Term::Pk(k) => pred(k),
            Term::Both(a, b) => pred(a) && pred(b),
            Term::False | Term::Size(_) => true,
        }
    }
}

impl<K, Q, T, E> TranslatePk<Term<Q>, T, E> for Term<K>
where
    K: MiniscriptKey + PartialEq,
    Q: MiniscriptKey + PartialEq,
    T: Translator<K, Q, E>,
{
    fn translate_pk(&self, t: &mut T) -> Result<Term<Q>, E> {
        Ok(match self {
            Term::Pk(k) => Term::Pk(t.pk(k)?),
            Term::Both(a, b) => {
                let a = t.pk(a)?;
                Term::Both(a, t.pk(b)?)
            }
            Term::False => Term::False,
            Term::Size(n) => Term::Size(*n),
        })
    }
}

#[derive(Clone, Debug, PartialEq)]
struct Name(String);

impl MiniscriptKey for Name {
    fn is_uncompressed(&self) -> bool {
        false
    }

    fn to_text(&self) -> String {
        self.0.clone()
    }

    fn from_text(s: &str) -> Option<Self> {
        if s.is_empty() {
            None
        } else {
            Some(Name(s.to_string()))
        }
    }
}

struct Sigs(Vec<(PublicKey, ElementsSig)>);

impl Satisfier<PublicKey> for &Sigs {
    fn lookup_ecdsa_sig(&self, pk: &PublicKey) -> Option<ElementsSig> {
        self.0.iter().find(|(k, _)| k == pk).map(|(_, s)| *s)
    }
}

struct ToName;

impl Translator<PublicKey, Name, ()> for ToName {
    fn pk(&mut self, pk: &PublicKey) -> Result<Name, ()> {
        Ok(Name(format!("k{}", &pk.to_string()[60..])))
    }
}

struct Known(Vec<(Name, PublicKey)>, usize);

impl Translator<Name, PublicKey, String> for Known {
    fn pk(&mut self, pk: &Name) -> Result<PublicKey, String> {
        self.1 += 1;
        match self.0.iter().find(|(n, _)| n == pk) {
            Some((_, k)) => Ok(*k),
            None => Err(pk.0.clone()),
        }
    }
}

fn key(n: u8) -> (SecretKey, PublicKey) {
    let secp = Secp256k1::new();
    let sk = SecretKey::from_slice(&[n; 32]).unwrap();
    (sk, PublicKey::new(elements::secp256k1_zkp::PublicKey::from_secret_key(&secp, &sk)))
}

fn sign(sk: &SecretKey, ty: EcdsaSigHashType) -> ElementsSig {
    let secp = Secp256k1::new();
    (secp.sign_ecdsa(&Message::from_slice(&[9u8; 32]).unwrap(), sk), ty)
}

fn push(data: &[u8]) -> Vec<u8> {
    assert!(data.len() < 0x4c);
    let mut v = vec![data.len() as u8];
    v.extend_from_slice(data);
    v
}

#[test]
fn bare_new_checks_the_top_level() {
    let (_, k) = key(1);
    let bare = Bare::new(Term::Pk(k)).unwrap();
    assert_eq!(*bare.as_inner(), Term::Pk(k));
    assert_eq!(bare.into_inner(), Term::Pk(k));
    assert!(matches!(Bare::new(Term::<PublicKey>::False), Err(Error::ContextViolation)));
}

#[test]
fn bare_sanity_check() {
    let (_, a) = key(1);
    let (_, b) = key(2);
    assert!(Bare::new(Term::Both(a, b)).unwrap().sanity_check().is_ok());
    assert!(matches!(
        Bare::new(Term::Both(a, a)).unwrap().sanity_check(),
        Err(Error::Analysis)
    ));
}

#[test]
fn bare_max_satisfaction_weight() {
    let (_, a) = key(1);
    let (_, b) = key(2);
    // 73 bytes take one byte of length, 300 take three
    assert_eq!(Bare::new(Term::Pk(a)).unwrap().max_satisfaction_weight().unwrap(), 4 * (1 + 73));
    assert_eq!(
        Bare::new(Term::Both(a, b)).unwrap().max_satisfaction_weight().unwrap(),
        4 * (3 + 300)
    );
    let weight = |n: usize| Bare::new(Term::<PublicKey>::Size(n)).unwrap().max_satisfaction_weight();
    assert_eq!(weight(0).unwrap(), 4);
    assert_eq!(weight(0xfc).unwrap(), 4 * (1 + 0xfc));
    assert_eq!(weight(0xfd).unwrap(), 4 * (3 + 0xfd));
    assert_eq!(weight(0xffff).unwrap(), 4 * (3 + 0xffff));
    assert_eq!(weight(0x10000).unwrap(), 4 * (5 + 0x10000));
    assert_eq!(weight(0xffff_ffff).unwrap(), 4 * (5 + 0xffff_ffff));
    assert_eq!(weight(0x1_0000_0000).unwrap(), 4 * (9 + 0x1_0000_0000));
    // the greatest length whose weight is still a number of the machine
    let last = usize::MAX / 4 - 9;
    assert_eq!(weight(last).unwrap(), 4 * (9 + last));
    assert!(matches!(weight(last + 1), Err(Error::Analysis)));
    assert!(matches!(weight(usize::MAX), Err(Error::Analysis)));
    // a term that cannot be satisfied has no bound; it is refused at top level here
    assert_eq!(Term::<PublicKey>::False.max_satisfaction_size(), None);
}

#[test]
fn bare_scripts_are_the_terms() {
    let (_, a) = key(1);
    let bare = Bare::new(Term::Pk(a)).unwrap();
    let script = Term::Pk(a).encode();
    assert_eq!(bare.script_pubkey(), script);
    assert_eq!(bare.inner_script(), script);
    assert_eq!(bare.ecdsa_sighash_script_code(), script);
}

#[test]
fn bare_satisfaction_pushes_the_stack_in_order() {
    let (ska, a) = key(1);
    let (skb, b) = key(2);
    let sa = sign(&ska, EcdsaSigHashType::All);
    let sb = sign(&skb, EcdsaSigHashType::SinglePlusAnyoneCanPay);
    let sigs = Sigs(vec![(a, sa), (b, sb)]);
    let bare = Bare::new(Term::Both(a, b)).unwrap();
    let (witness, script) = bare.get_satisfaction(&sigs).unwrap();
    assert!(witness.is_empty());
    let mut ra = sa.0.serialize_der().to_vec();
    ra.push(0x01);
    let mut rb = sb.0.serialize_der().to_vec();
    rb.push(0x83);
    let mut expected = push(&rb);
    expected.extend(push(&ra));
    assert_eq!(script.as_bytes(), &expected[..]);
    let weight = bare.max_satisfaction_weight().unwrap();
    assert!(4 * (1 + script.len()) <= weight);
    // a second run gives the same bytes
    assert_eq!(bare.get_satisfaction(&sigs).unwrap().1, script);
    // the malleable satisfaction of this term differs
    let (witness, script) = bare.get_satisfaction_mall(&sigs).unwrap();
    assert!(witness.is_empty());
    let mut expected = vec![0u8];
    expected.extend(push(&ra));
    assert_eq!(script.as_bytes(), &expected[..]);
}

#[test]
fn bare_satisfaction_fails_as_the_term_does() {
    let (_, a) = key(1);
    let sigs = Sigs(vec![]);
    let bare = Bare::new(Term::Pk(a)).unwrap();
    assert!(matches!(bare.get_satisfaction(&sigs), Err(Error::Unsatisfiable)));
    assert!(matches!(bare.get_satisfaction_mall(&sigs), Err(Error::Unsatisfiable)));
    let bare = Bare::new(Term::<PublicKey>::Size(5)).unwrap();
    assert!(matches!(bare.get_satisfaction(&sigs), Err(Error::MaxRecursion)));
}

#[test]
fn stack_items_get_the_push_that_their_length_asks_for() {
    let items: Vec<Vec<u8>> = vec![vec![], vec![7; 0x4b], vec![8; 0x4c], vec![9; 0x100], vec![1; 0x10000]];
    let (witness, script) = satisfy_with(Ok(items)).unwrap();
    assert!(witness.is_empty());
    let mut expected = vec![0u8];
    expected.push(0x4b);
    expected.extend(vec![7; 0x4b]);
    expected.extend([0x4c, 0x4c]);
    expected.extend(vec![8; 0x4c]);
    expected.extend([0x4d, 0x00, 0x01]);
    expected.extend(vec![9; 0x100]);
    expected.extend([0x4e, 0x00, 0x00, 0x01, 0x00]);
    expected.extend(vec![1; 0x10000]);
    assert_eq!(script.as_bytes(), &expected[..]);
    assert!(matches!(satisfy_with(Err(Error::Unsatisfiable)), Err(Error::Unsatisfiable)));
    let (_, script) = satisfy_with(Ok(vec![])).unwrap();
    assert!(script.is_empty());
}

#[test]
fn bare_text_round_trip() {
    let k = PublicKey::from_str(KEY_G).unwrap();
    let bare = Bare::new(Term::Pk(k)).unwrap();
    let text = bare.to_string().unwrap();
    assert_eq!(text, format!("elpk({})#akpqt8tr", KEY_G));
    let back = Bare::<Term<PublicKey>>::from_str(&text).unwrap();
    assert_eq!(back.into_inner(), Term::Pk(k));
    let bare = Bare::new(Term::Both(k, k)).unwrap();
    let text = bare.to_string().unwrap();
    assert_eq!(text, format!("elboth({},{})#pfp3re54", KEY_G, KEY_G));
    assert_eq!(Bare::<Term<PublicKey>>::from_str(&text).unwrap().into_inner(), Term::Both(k, k));
}

#[test]
fn bare_from_str_errors() {
    let parse = |s: &str| Bare::<Term<PublicKey>>::from_str(s).err();
    assert!(matches!(
        parse(&format!("elpk({})", KEY_G)),
        Some(Error::Checksum(ChecksumError::Missing))
    ));
    assert!(matches!(
        parse(&format!("elpk({})#akpqt8tq", KEY_G)),
        Some(Error::Checksum(ChecksumError::Mismatch))
    ));
    assert!(matches!(parse(&format!("pk({})#gn28ywm7", KEY_G)), Some(Error::UnexpectedNode)));
    assert!(matches!(parse("el0#jx64lpjy"), Some(Error::ContextViolation)));
    // the error of the term's own parser is handed on as it is
    assert!(matches!(parse("elsize(x)#7c2pwc23"), Some(Error::Parse)));
    assert!(matches!(parse(&format!("elpkh({})#y4vkwwlr", KEY_G)), Some(Error::UnexpectedNode)));
}

#[test]
fn bare_from_tree_strips_the_prefix() {
    let tree = Tree::from_str("elpk(alice)").unwrap();
    let bare = Bare::<Term<Name>>::from_tree(&tree).unwrap();
    assert_eq!(bare.into_inner(), Term::Pk(Name("alice".to_string())));
    let tree = Tree::from_str("pk(alice)").unwrap();
    assert!(matches!(Bare::<Term<Name>>::from_tree(&tree), Err(Error::UnexpectedNode)));
    let tree = Tree::from_str("e").unwrap();
    assert!(matches!(Bare::<Term<Name>>::from_tree(&tree), Err(Error::UnexpectedNode)));
}

#[test]
fn bare_unprintable_term_is_not_written() {
    let bare = Bare::new(Term::Pk(Name("\u{2764}".to_string()))).unwrap();
    assert!(matches!(
        bare.to_string(),
        Err(Error::Checksum(ChecksumError::InvalidCharacter))
    ));
}

#[test]
fn bare_lift_is_the_terms() {
    let (_, a) = key(1);
    let (_, b) = key(2);
    match Bare::new(Term::Both(a, b)).unwrap().lift() {
        Ok(Policy::Threshold(2, subs)) => {
            assert!(matches!(&subs[0], Policy::Key(k) if *k == a));
            assert!(matches!(&subs[1], Policy::Key(k) if *k == b));
        }
        _ => panic!("not the policy of the term"),
    }
}

#[test]
fn bare_for_each_key_visits_every_key_once_and_stops_early() {
    let (_, a) = key(1);
    let (_, b) = key(2);
    let bare = Bare::new(Term::Both(a, b)).unwrap();
    let seen = std::cell::RefCell::new(Vec::new());
    assert!(bare.for_each_key(|k| {
        seen.borrow_mut().push(*k);
        true
    }));
    assert_eq!(*seen.borrow(), vec![a, b]);
    seen.borrow_mut().clear();
    assert!(!bare.for_each_key(|k| {
        seen.borrow_mut().push(*k);
        false
    }));
    assert_eq!(*seen.borrow(), vec![a]);
}

#[test]
fn bare_translate_and_back() {
    let (_, a) = key(1);
    let (_, b) = key(2);
    let bare = Bare::new(Term::Both(a, b)).unwrap();
    let there: Bare<Term<Name>> = bare.translate_pk(&mut ToName).unwrap();
    let names = match there.as_inner() {
        Term::Both(x, y) => (x.clone(), y.clone()),
        _ => panic!("shape changed"),
    };
    let mut known = Known(vec![(names.0.clone(), a), (names.1.clone(), b)], 0);
    let back: Bare<Term<PublicKey>> = there.translate_pk(&mut known).unwrap();
    assert_eq!(back.into_inner(), Term::Both(a, b));
    assert_eq!(known.1, 2);
    let mut unknown = Known(vec![(names.0.clone(), a)], 0);
    let failed: Result<Bare<Term<PublicKey>>, String> = there.translate_pk(&mut unknown);
    assert_eq!(failed.err(), Some(names.1.0));
}
