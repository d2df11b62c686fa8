//! The descriptor checksum: eight characters that follow the `#` at the end
//! of a descriptor's text and detect transcription errors in its body.

use vstd::prelude::*;

use vstd::slice::slice_subrange;

use crate::error::ChecksumError;
use crate::text::{append_chars, chars_eq, find_char, from_chars, to_chars};

verus! {

/// The characters that may occur in a descriptor body. The position of a
/// character in this table is its value for the checksum: the low five bits
/// feed the polynomial directly, the upper bits (the group, 0 to 2) are
/// collected three at a time.
pub const INPUT_CHARSET: [char; 95] = [
    '0', '1', '2', '3', '4', '5', '6', '7', '8', '9', '(', ')', '[', ']', ',', '\'',
    '/', '*', 'a', 'b', 'c', 'd', 'e', 'f', 'g', 'h', '@', ':', '$', '%', '{', '}',
    'I', 'J', 'K', 'L', 'M', 'N', 'O', 'P', 'Q', 'R', 'S', 'T', 'U', 'V', 'W', 'X',
    'Y', 'Z', '&', '+', '-', '.', ';', '<', '=', '>', '?', '!', '^', '_', '|', '~',
    'i', 'j', 'k', 'l', 'm', 'n', 'o', 'p', 'q', 'r', 's', 't', 'u', 'v', 'w', 'x',
    'y', 'z', 'A', 'B', 'C', 'D', 'E', 'F', 'G', 'H', '`', '#', '"', '\\', ' ',
];

/// The thirty-two characters in which a checksum is written.
pub const CHECKSUM_CHARSET: [char; 32] = [
    'q', 'p', 'z', 'r', 'y', '9', 'x', '8', 'g', 'f', '2', 't', 'v', 'd', 'w', '0',
    's', '3', 'j', 'n', '5', '4', 'k', 'h', 'c', 'e', '6', 'm', 'u', 'a', '7', 'l',
];

/// One step of the checksum polynomial: shifts the forty-bit state `c` by one
/// five-bit symbol, feeds `val` in, and reduces by the generator.
pub open spec fn poly_mod_spec(c: u64, val: u64) -> u64 {
    let c0 = c >> 35;
    let c1 = ((c & 0x7ffffffff) << 5) ^ val;
    let c2 = if c0 & 1 != 0 { c1 ^ 0xf5dee51989 } else { c1 };
    let c3 = if c0 & 2 != 0 { c2 ^ 0xa9fdca3312 } else { c2 };
    let c4 = if c0 & 4 != 0 { c3 ^ 0x1bab10e32d } else { c3 };
    let c5 = if c0 & 8 != 0 { c4 ^ 0x3706b1677a } else { c4 };
    if c0 & 16 != 0 { c5 ^ 0x644d626ffd } else { c5 }
}

/// The checksum state after some characters of a body: the polynomial state
/// `c`, and the groups of the characters read since the last full triple
/// (`cls`, with `count` of them collected).
pub struct State {
    pub c: u64,
    pub cls: u64,
    pub count: u64,
}

/// The state before any character.
pub open spec fn initial() -> State {
    State { c: 1, cls: 0, count: 0 }
}

/// The value of a character for the checksum: its position in
/// `INPUT_CHARSET`, or nothing for a character outside the alphabet.
pub open spec fn char_value(ch: char) -> Option<int> {
    INPUT_CHARSET@.index_of_first(ch)
}

/// The position of a character of the alphabet, as the number that is fed.
pub open spec fn char_pos(ch: char) -> u64 {
    match char_value(ch) {
        Some(p) => p as u64,
        None => 0,
    }
}

/// Whether every character of `text` is in the descriptor alphabet.
pub open spec fn in_alphabet(text: Seq<char>) -> bool {
    forall|i: int| 0 <= i < text.len() ==> (#[trigger] char_value(text[i])) is Some
}

/// The state after one more character, given by its position `pos`.
pub open spec fn feed(st: State, pos: u64) -> State {
    let c = poly_mod_spec(st.c, pos & 31);
    let cls = (st.cls * 3 + (pos >> 5)) as u64;
    if st.count == 2 {
        State { c: poly_mod_spec(c, cls), cls: 0, count: 0 }
    } else {
        State { c, cls, count: (st.count + 1) as u64 }
    }
}

/// The state after all of `text`, read from left to right. A character
/// outside the alphabet counts as position 0; `checksum_of` is meant for
/// texts that are `in_alphabet`.
pub open spec fn absorb(text: Seq<char>) -> State
    decreases text.len(),
{
    if text.len() == 0 {
        initial()
    } else {
        feed(absorb(text.drop_last()), char_pos(text.last()))
    }
}

/// `n` steps of the polynomial with input zero.
pub open spec fn flush(c: u64, n: nat) -> u64
    decreases n,
{
    if n == 0 {
        c
    } else {
        poly_mod_spec(flush(c, (n - 1) as nat), 0)
    }
}

/// The forty bits from which the eight checksum characters are read: the
/// pending groups are fed in, eight zero symbols follow, and the lowest bit
/// is flipped.
pub open spec fn finish(st: State) -> u64 {
    let c = if st.count > 0 {
        poly_mod_spec(st.c, st.cls)
    } else {
        st.c
    };
    flush(c, 8) ^ 1
}

/// The `j`-th checksum character for the final bits `c`: five bits each, the
/// highest first.
pub open spec fn checksum_symbol(c: u64, j: int) -> char {
    CHECKSUM_CHARSET@[((c >> ((5 * (7 - j)) as u64)) & 31) as int]
}

/// The checksum of a descriptor body: eight characters of
/// `CHECKSUM_CHARSET`.
pub open spec fn checksum_of(text: Seq<char>) -> Seq<char> {
    Seq::new(8, |j: int| checksum_symbol(finish(absorb(text)), j))
}

/// A body followed by `#` and its checksum.
pub open spec fn with_checksum(body: Seq<char>) -> Seq<char> {
    body.push('#') + checksum_of(body)
}

/// What checking a checksummed text gives: the body before the first `#`,
/// or the first reason, in this order, for which the text is refused.
pub open spec fn verify_checksum_spec(text: Seq<char>) -> Result<Seq<char>, ChecksumError> {
    match text.index_of_first('#') {
        None => Err(ChecksumError::Missing),
        Some(i) => {
            let body = text.take(i);
            let sum = text.skip(i + 1);
            if sum.len() != 8 {
                Err(ChecksumError::InvalidLength)
            } else if !in_alphabet(body) {
                Err(ChecksumError::InvalidCharacter)
            } else if sum != checksum_of(body) {
                Err(ChecksumError::Mismatch)
            } else {
                Ok(body)
            }
        },
    }
}

/// The bounds that hold of every state reached from `initial`.
pub open spec fn state_bounded(st: State) -> bool {
    &&& st.count <= 2
    &&& st.count == 0 ==> st.cls == 0
    &&& st.count == 1 ==> st.cls <= 2
    &&& st.count == 2 ==> st.cls <= 8
}

/// Computes one step of the checksum polynomial.
pub fn poly_mod(c: u64, val: u64) -> (r: u64)
    ensures
        r == poly_mod_spec(c, val),
{
    let c0: u64 = c >> 35;
    let mut r: u64 = ((c & 0x7ffffffff) << 5) ^ val;
    if c0 & 1 != 0 {
        r = r ^ 0xf5dee51989;
    }
    if c0 & 2 != 0 {
        r = r ^ 0xa9fdca3312;
    }
    if c0 & 4 != 0 {
        r = r ^ 0x1bab10e32d;
    }
    if c0 & 8 != 0 {
        r = r ^ 0x3706b1677a;
    }
    if c0 & 16 != 0 {
        r = r ^ 0x644d626ffd;
    }
    r
}

/// Looks a character up in `INPUT_CHARSET`.
pub fn char_position(ch: char) -> (r: Option<u64>)
    ensures
        match r {
            Some(p) => p < 95 && char_value(ch) == Some(p as int),
            None => char_value(ch) is None,
        },
{
    let mut i: usize = 0;
    while i < 95
        invariant
            i <= 95,
            forall|j: int| 0 <= j < i ==> INPUT_CHARSET@[j] != ch,
        decreases 95 - i,
    {
        if INPUT_CHARSET[i] == ch {
            proof {
                INPUT_CHARSET@.index_of_first_ensures(ch);
            }
            return Some(i as u64);
        }
        i += 1;
    }
    proof {
        INPUT_CHARSET@.index_of_first_ensures(ch);
    }
    None
}

/// Feeds one character position into a state.
fn feed_position(st: State, pos: u64) -> (r: State)
    requires
        state_bounded(st),
        pos < 95,
    ensures
        r == feed(st, pos),
        state_bounded(r),
{
    assert(pos >> 5 <= 2) by (bit_vector)
        requires
            pos < 95,
    ;
    let c = poly_mod(st.c, pos & 31);
    let cls: u64 = st.cls * 3 + (pos >> 5);
    if st.count == 2 {
        State { c: poly_mod(c, cls), cls: 0, count: 0 }
    } else {
        State { c, cls, count: st.count + 1 }
    }
}

/// Computes the checksum of a body given as characters.
pub fn checksum_chars(text: &[char]) -> (r: Result<Vec<char>, ChecksumError>)
    ensures
        in_alphabet(text@) ==> r is Ok && r->Ok_0@ == checksum_of(text@),
        !in_alphabet(text@) ==> r == Err::<Vec<char>, ChecksumError>(ChecksumError::InvalidCharacter),
{
    let mut st = State { c: 1, cls: 0, count: 0 };
    let mut i: usize = 0;
    while i < text.len()
        invariant
            i <= text.len(),
            state_bounded(st),
            st == absorb(text@.take(i as int)),
            in_alphabet(text@.take(i as int)),
        decreases text.len() - i,
    {
        match char_position(text[i]) {
            Some(pos) => {
                proof {
                    let next = text@.take(i as int + 1);
                    assert(next.drop_last() == text@.take(i as int));
                    assert(next.last() == text@[i as int]);
                    assert forall|k: int| 0 <= k < next.len() implies (#[trigger] char_value(
                        next[k],
                    )) is Some by {
                        if k < i {
                            assert(next[k] == text@.take(i as int)[k]);
                        }
                    }
                }
                st = feed_position(st, pos);
            },
            None => {
                assert(char_value(text@[i as int]) is None);
                return Err(ChecksumError::InvalidCharacter);
            },
        }
        i += 1;
    }
    assert(text@.take(i as int) == text@);
    let mut c: u64 = st.c;
    if st.count > 0 {
        c = poly_mod(c, st.cls);
    }
    let mut n: usize = 0;
    let ghost c0 = c;
    while n < 8
        invariant
            n <= 8,
            c == flush(c0, n as nat),
        decreases 8 - n,
    {
        c = poly_mod(c, 0);
        n += 1;
    }
    c = c ^ 1;
    assert(c == finish(st));
    let mut out: Vec<char> = Vec::new();
    let mut j: usize = 0;
    while j < 8
        invariant
            j <= 8,
            out@.len() == j,
            forall|k: int| 0 <= k < j ==> out@[k] == checksum_symbol(c, k),
        decreases 8 - j,
    {
        let shift: u64 = 5 * (7 - j as u64);
        let idx: u64 = (c >> shift) & 31;
        assert(idx < 32) by (bit_vector)
            requires
                idx == (c >> shift) & 31,
        ;
        out.push(CHECKSUM_CHARSET[idx as usize]);
        j += 1;
    }
    assert(out@ =~= checksum_of(text@));
    Ok(out)
}

/// Computes the checksum of a descriptor body.
pub fn desc_checksum(desc: &str) -> (r: Result<String, ChecksumError>)
    ensures
        in_alphabet(desc@) ==> r is Ok && r->Ok_0@ == checksum_of(desc@),
        !in_alphabet(desc@) ==> r == Err::<String, ChecksumError>(ChecksumError::InvalidCharacter),
{
    let chars = to_chars(desc);
    match checksum_chars(chars.as_slice()) {
        Ok(sum) => Ok(from_chars(sum.as_slice())),
        Err(e) => Err(e),
    }
}

/// Writes a body out with its checksum.
pub fn append_checksum(body: Vec<char>) -> (r: Result<String, ChecksumError>)
    ensures
        in_alphabet(body@) ==> r is Ok && r->Ok_0@ == with_checksum(body@),
        !in_alphabet(body@) ==> r == Err::<String, ChecksumError>(ChecksumError::InvalidCharacter),
{
    match checksum_chars(body.as_slice()) {
        Err(e) => Err(e),
        Ok(sum) => {
            let mut text = body;
            text.push('#');
            append_chars(&mut text, sum.as_slice());
            Ok(from_chars(text.as_slice()))
        },
    }
}

/// Checks a checksummed text given as characters, and returns the length of
/// its body.
pub fn verify_checksum_chars(text: &[char]) -> (r: Result<usize, ChecksumError>)
    ensures
        match r {
            Ok(n) => n <= text.len() && verify_checksum_spec(text@) == Ok::<
                Seq<char>,
                ChecksumError,
            >(text@.take(n as int)),
            Err(e) => verify_checksum_spec(text@) == Err::<Seq<char>, ChecksumError>(e),
        },
{
    match find_char(text, '#') {
        None => Err(ChecksumError::Missing),
        Some(i) => {
            if text.len() - i - 1 != 8 {
                return Err(ChecksumError::InvalidLength);
            }
            let body = slice_subrange(text, 0, i);
            let sum = slice_subrange(text, i + 1, text.len());
            assert(body@ == text@.take(i as int));
            assert(sum@ == text@.skip(i as int + 1));
            match checksum_chars(body) {
                Err(e) => Err(e),
                Ok(expected) => {
                    if chars_eq(sum, expected.as_slice()) {
                        Ok(i)
                    } else {
                        Err(ChecksumError::Mismatch)
                    }
                },
            }
        },
    }
}

/// Checks the checksum at the end of a descriptor text and returns the body
/// that precedes it.
pub fn verify_checksum(s: &str) -> (r: Result<&str, ChecksumError>)
    ensures
        match r {
            Ok(body) => verify_checksum_spec(s@) == Ok::<Seq<char>, ChecksumError>(body@),
            Err(e) => verify_checksum_spec(s@) == Err::<Seq<char>, ChecksumError>(e),
        },
{
    let chars = to_chars(s);
    match verify_checksum_chars(chars.as_slice()) {
        Ok(n) => Ok(s.substring_char(0, n)),
        Err(e) => Err(e),
    }
}

/// A character that stands in `INPUT_CHARSET` has a value.
pub proof fn lemma_char_in_alphabet(ch: char, i: int)
    requires
        0 <= i < 95,
        INPUT_CHARSET@[i] == ch,
    ensures
        char_value(ch) is Some,
{
    INPUT_CHARSET@.index_of_first_ensures(ch);
}

/// Texts over the alphabet, put together, are over the alphabet.
pub proof fn lemma_in_alphabet_concat(a: Seq<char>, b: Seq<char>)
    requires
        in_alphabet(a),
        in_alphabet(b),
    ensures
        in_alphabet(a + b),
{
    assert forall|i: int| 0 <= i < (a + b).len() implies (#[trigger] char_value((a + b)[i]))
        is Some by {
        if i < a.len() {
            assert((a + b)[i] == a[i]);
        } else {
            assert((a + b)[i] == b[i - a.len()]);
        }
    }
}

/// No checksum character is `#`.
pub proof fn lemma_checksum_symbol_not_hash(c: u64, j: int)
    requires
        0 <= j < 8,
    ensures
        checksum_symbol(c, j) != '#',
{
    let s = (5 * (7 - j)) as u64;
    let idx = (c >> s) & 31;
    assert(idx < 32) by (bit_vector)
        requires
            idx == (c >> s) & 31,
    ;
    assert(forall|k: int| 0 <= k < 32 ==> CHECKSUM_CHARSET@[k] != '#');
}

/// A body over the descriptor alphabet that holds no `#`, written out with
/// its checksum, is accepted, and checking gives the body back.
pub proof fn lemma_verify_accepts_rendered(body: Seq<char>)
    requires
        in_alphabet(body),
        !body.contains('#'),
    ensures
        verify_checksum_spec(with_checksum(body)) == Ok::<Seq<char>, ChecksumError>(body),
{
    let text = with_checksum(body);
    let n = body.len() as int;
    text.index_of_first_ensures('#');
    assert(text[n] == '#');
    assert(text.contains('#'));
    let i = text.index_of_first('#')->Some_0;
    if i < n {
        assert(text[i] == body[i]);
        assert(body.contains('#'));
    }
    assert(i == n);
    assert(text.take(n) =~= body);
    assert(text.skip(n + 1) =~= checksum_of(body));
}

/// A body and a checksum, written out, are accepted only where the body is
/// over the alphabet and holds no `#`, and the checksum is that of the
/// body.
pub proof fn lemma_verify_accepts_only(body: Seq<char>, sum: Seq<char>)
    requires
        verify_checksum_spec(body.push('#') + sum) is Ok,
    ensures
        in_alphabet(body),
        !body.contains('#'),
        sum == checksum_of(body),
        verify_checksum_spec(body.push('#') + sum) == Ok::<Seq<char>, ChecksumError>(body),
{
    let text = body.push('#') + sum;
    let n = body.len() as int;
    text.index_of_first_ensures('#');
    assert(text[n] == '#');
    assert(text.contains('#'));
    let i = text.index_of_first('#')->Some_0;
    if i < n {
        assert(text.skip(i + 1).len() == text.len() - i - 1);
        assert(text.skip(i + 1)[n - i - 1] == text[n]);
        let cs = checksum_of(text.take(i));
        assert(cs[n - i - 1] == checksum_symbol(finish(absorb(text.take(i))), n - i - 1));
        lemma_checksum_symbol_not_hash(finish(absorb(text.take(i))), n - i - 1);
    }
    assert(i == n);
    assert(text.take(n) =~= body);
    assert(text.skip(n + 1) =~= sum);
    assert forall|k: int| 0 <= k < n implies body[k] != '#' by {
        assert(text[k] == body[k]);
    }
}

/// A state as reading reaches it: within the bounds, and with a polynomial
/// state of forty bits.
pub open spec fn state_valid(st: State) -> bool {
    state_bounded(st) && st.c < 0x100_0000_0000
}

/// Two states that differ in the polynomial state and in nothing else.
pub open spec fn differ_in_c(a: State, b: State) -> bool {
    a.c != b.c && a.cls == b.cls && a.count == b.count
}

/// Two states within one triple of characters of which one character was
/// read differently: they differ in the polynomial state by the few bits
/// that were fed since, or in the groups collected, or in both.
pub open spec fn near(a: State, b: State) -> bool {
    &&& a.count == b.count
    &&& a.count >= 1
    &&& (a.c ^ b.c) < (if a.count == 1 {
        32u64
    } else {
        1024u64
    })
    &&& (a.c != b.c || a.cls != b.cls)
}

/// Two states that reading keeps apart.
pub open spec fn apart(a: State, b: State) -> bool {
    &&& state_valid(a)
    &&& state_valid(b)
    &&& differ_in_c(a, b) || near(a, b)
}

/// A step of the polynomial gives forty bits.
proof fn lemma_poly_mod_bounded(c: u64, v: u64)
    requires
        v < 32,
    ensures
        poly_mod_spec(c, v) < 0x100_0000_0000,
{
    assert(poly_mod_spec(c, v) < 0x100_0000_0000u64) by (bit_vector)
        requires
            v < 32u64,
    ;
}

/// A step of the polynomial keeps two states of forty bits apart.
proof fn lemma_poly_mod_keeps_apart(c1: u64, c2: u64, v: u64)
    requires
        c1 < 0x100_0000_0000,
        c2 < 0x100_0000_0000,
        c1 != c2,
    ensures
        poly_mod_spec(c1, v) != poly_mod_spec(c2, v),
{
    assert(poly_mod_spec(c1, v) != poly_mod_spec(c2, v)) by (bit_vector)
        requires
            c1 < 0x100_0000_0000u64,
            c2 < 0x100_0000_0000u64,
            c1 != c2,
    ;
}

/// The difference that a step of the polynomial makes of the difference
/// of two states whose five highest bits agree.
proof fn lemma_poly_mod_difference(c1: u64, c2: u64, v1: u64, v2: u64)
    requires
        (c1 ^ c2) < 0x8_0000_0000,
    ensures
        poly_mod_spec(c1, v1) ^ poly_mod_spec(c2, v2) == ((c1 ^ c2) << 5) ^ (v1 ^ v2),
{
    assert(poly_mod_spec(c1, v1) ^ poly_mod_spec(c2, v2) == ((c1 ^ c2) << 5) ^ (v1 ^ v2))
        by (bit_vector)
        requires
            (c1 ^ c2) < 0x8_0000_0000u64,
    ;
}

/// Feeding the groups collected into two states that differ by a few bits,
/// or whose groups differ, gives different states.
proof fn lemma_feed_groups_apart(c1: u64, c2: u64, g1: u64, g2: u64)
    requires
        (c1 ^ c2) < 0x8000,
        g1 < 32,
        g2 < 32,
        c1 != c2 || g1 != g2,
    ensures
        poly_mod_spec(c1, g1) != poly_mod_spec(c2, g2),
{
    lemma_poly_mod_difference(c1, c2, g1, g2);
    let d = c1 ^ c2;
    let e = g1 ^ g2;
    assert(((d << 5) ^ e) != 0) by (bit_vector)
        requires
            d < 0x8000u64,
            e == g1 ^ g2,
            d == c1 ^ c2,
            g1 < 32u64,
            g2 < 32u64,
            c1 != c2 || g1 != g2,
    ;
    let x = poly_mod_spec(c1, g1);
    let y = poly_mod_spec(c2, g2);
    assert(x != y) by (bit_vector)
        requires
            (x ^ y) != 0u64,
    ;
}

/// Reading a character of the alphabet leads from a valid state to a
/// valid state.
proof fn lemma_feed_valid(st: State, pos: u64)
    requires
        state_valid(st),
        pos < 95,
    ensures
        state_valid(feed(st, pos)),
{
    assert(pos >> 5 <= 2 && pos & 31 < 32) by (bit_vector)
        requires
            pos < 95,
    ;
    lemma_poly_mod_bounded(st.c, pos & 31);
    let c = poly_mod_spec(st.c, pos & 31);
    let cls = (st.cls * 3 + (pos >> 5)) as u64;
    lemma_poly_mod_bounded(c, cls);
}

/// The position of a character is below 95.
proof fn lemma_char_pos_bounded(ch: char)
    ensures
        char_pos(ch) < 95,
        char_value(ch) matches Some(p) ==> 0 <= p < 95 && INPUT_CHARSET@[p] == ch,
{
    INPUT_CHARSET@.index_of_first_ensures(ch);
}

/// Reading a text over the alphabet leads to a valid state.
proof fn lemma_absorb_valid(text: Seq<char>)
    ensures
        state_valid(absorb(text)),
    decreases text.len(),
{
    if text.len() > 0 {
        lemma_absorb_valid(text.drop_last());
        lemma_char_pos_bounded(text.last());
        lemma_feed_valid(absorb(text.drop_last()), char_pos(text.last()));
    }
}

/// From one valid state, two different characters of the alphabet lead to
/// states that reading keeps apart.
proof fn lemma_feed_other_symbol(st: State, a: char, b: char)
    requires
        state_valid(st),
        char_value(a) is Some,
        char_value(b) is Some,
        a != b,
    ensures
        apart(feed(st, char_pos(a)), feed(st, char_pos(b))),
{
    let p = char_pos(a);
    let q = char_pos(b);
    lemma_char_pos_bounded(a);
    lemma_char_pos_bounded(b);
    assert(p != q);
    lemma_feed_valid(st, p);
    lemma_feed_valid(st, q);
    let vp = p & 31;
    let vq = q & 31;
    let gp = p >> 5;
    let gq = q >> 5;
    assert((vp != vq || gp != gq) && vp < 32 && vq < 32 && gp <= 2 && gq <= 2 && (vp ^ vq) < 32)
        by (bit_vector)
        requires
            p < 95,
            q < 95,
            p != q,
            vp == p & 31,
            vq == q & 31,
            gp == p >> 5,
            gq == q >> 5,
    ;
    let cp = poly_mod_spec(st.c, vp);
    let cq = poly_mod_spec(st.c, vq);
    let c = st.c;
    assert((c ^ c) == 0) by (bit_vector);
    lemma_poly_mod_difference(st.c, st.c, vp, vq);
    let z = st.c ^ st.c;
    assert((cp ^ cq) == (vp ^ vq)) by (bit_vector)
        requires
            (cp ^ cq) == ((z << 5) ^ (vp ^ vq)),
            z == 0u64,
    ;
    assert(cp != cq <==> vp != vq) by (bit_vector)
        requires
            (cp ^ cq) == (vp ^ vq),
    ;
    let clp = (st.cls * 3 + gp) as u64;
    let clq = (st.cls * 3 + gq) as u64;
    if st.count == 2 {
        lemma_feed_groups_apart(cp, cq, clp, clq);
    }
}

/// From two states that reading keeps apart, one character leads to two
/// states that it keeps apart.
proof fn lemma_feed_other_state(a: State, b: State, pos: u64)
    requires
        apart(a, b),
        pos < 95,
    ensures
        apart(feed(a, pos), feed(b, pos)),
{
    lemma_feed_valid(a, pos);
    lemma_feed_valid(b, pos);
    let v = pos & 31;
    let g = pos >> 5;
    assert(g <= 2 && v < 32) by (bit_vector)
        requires
            pos < 95,
            v == pos & 31,
            g == pos >> 5,
    ;
    let ca = poly_mod_spec(a.c, v);
    let cb = poly_mod_spec(b.c, v);
    lemma_poly_mod_bounded(a.c, v);
    lemma_poly_mod_bounded(b.c, v);
    if differ_in_c(a, b) {
        lemma_poly_mod_keeps_apart(a.c, b.c, v);
        let cls = (a.cls * 3 + g) as u64;
        lemma_poly_mod_keeps_apart(ca, cb, cls);
    } else {
        let d = a.c ^ b.c;
        lemma_poly_mod_difference(a.c, b.c, v, v);
        assert((ca ^ cb) == (d << 5) && ((d << 5) < 0x8000) && (d != 0 ==> (d << 5) != 0) && (d < 32
            ==> (d << 5) < 1024)) by (bit_vector)
            requires
                (ca ^ cb) == ((d << 5) ^ (v ^ v)),
                d < 1024u64,
        ;
        let dc = ca ^ cb;
        let ac = a.c;
        let bc = b.c;
        assert(ca != cb <==> ac != bc) by (bit_vector)
            requires
                dc == ca ^ cb,
                d == ac ^ bc,
                dc == d << 5,
                d < 1024u64,
        ;
        let cla = (a.cls * 3 + g) as u64;
        let clb = (b.cls * 3 + g) as u64;
        if a.count == 2 {
            lemma_feed_groups_apart(ca, cb, cla, clb);
        }
    }
}

/// Two texts that differ in one place lead to states that reading keeps
/// apart, from that place on.
proof fn lemma_absorb_diverges(text: Seq<char>, i: int, ch: char, k: int)
    requires
        0 <= i < k <= text.len(),
        char_value(text[i]) is Some,
        char_value(ch) is Some,
        text[i] != ch,
    ensures
        apart(absorb(text.take(k)), absorb(text.update(i, ch).take(k))),
    decreases k,
{
    let other = text.update(i, ch);
    let t1 = text.take(k);
    let t2 = other.take(k);
    assert(t1.drop_last() =~= text.take(k - 1));
    assert(t2.drop_last() =~= other.take(k - 1));
    lemma_absorb_valid(text.take(k - 1));
    lemma_absorb_valid(other.take(k - 1));
    if k == i + 1 {
        assert(text.take(i) =~= other.take(i));
        lemma_feed_other_symbol(absorb(text.take(i)), text[i], ch);
    } else {
        lemma_absorb_diverges(text, i, ch, k - 1);
        lemma_char_pos_bounded(text[k - 1]);
        lemma_feed_other_state(
            absorb(text.take(k - 1)),
            absorb(other.take(k - 1)),
            char_pos(text[k - 1]),
        );
    }
}

/// Steps with input zero keep two states of forty bits apart.
proof fn lemma_flush_keeps_apart(c1: u64, c2: u64, n: nat)
    requires
        c1 < 0x100_0000_0000,
        c2 < 0x100_0000_0000,
        c1 != c2,
    ensures
        flush(c1, n) != flush(c2, n),
        flush(c1, n) < 0x100_0000_0000,
        flush(c2, n) < 0x100_0000_0000,
    decreases n,
{
    if n > 0 {
        lemma_flush_keeps_apart(c1, c2, (n - 1) as nat);
        lemma_poly_mod_keeps_apart(flush(c1, (n - 1) as nat), flush(c2, (n - 1) as nat), 0);
        lemma_poly_mod_bounded(flush(c1, (n - 1) as nat), 0);
        lemma_poly_mod_bounded(flush(c2, (n - 1) as nat), 0);
    }
}

/// Two states that reading keeps apart end in different bits, forty each.
proof fn lemma_finish_differs(a: State, b: State)
    requires
        apart(a, b),
    ensures
        finish(a) != finish(b),
        finish(a) < 0x100_0000_0000,
        finish(b) < 0x100_0000_0000,
{
    let c1 = if a.count > 0 {
        poly_mod_spec(a.c, a.cls)
    } else {
        a.c
    };
    let c2 = if b.count > 0 {
        poly_mod_spec(b.c, b.cls)
    } else {
        b.c
    };
    if a.count > 0 {
        lemma_poly_mod_bounded(a.c, a.cls);
        lemma_poly_mod_bounded(b.c, b.cls);
        if differ_in_c(a, b) {
            lemma_poly_mod_keeps_apart(a.c, b.c, a.cls);
        } else {
            let d = a.c ^ b.c;
            assert(d < 0x8000) by (bit_vector)
                requires
                    d < 1024u64,
            ;
            lemma_feed_groups_apart(a.c, b.c, a.cls, b.cls);
        }
    }
    lemma_flush_keeps_apart(c1, c2, 8);
    let f1 = flush(c1, 8);
    let f2 = flush(c2, 8);
    assert(f1 ^ 1 != f2 ^ 1 && f1 ^ 1 < 0x100_0000_0000u64 && f2 ^ 1 < 0x100_0000_0000u64)
        by (bit_vector)
        requires
            f1 != f2,
            f1 < 0x100_0000_0000u64,
            f2 < 0x100_0000_0000u64,
    ;
}

/// No character stands twice in `CHECKSUM_CHARSET`.
proof fn lemma_checksum_charset_distinct(a: int, b: int)
    requires
        0 <= a < 32,
        0 <= b < 32,
        a != b,
    ensures
        CHECKSUM_CHARSET@[a] != CHECKSUM_CHARSET@[b],
{
}

/// Different final bits, forty each, are written as different checksums.
proof fn lemma_symbols_differ(c1: u64, c2: u64)
    requires
        c1 < 0x100_0000_0000,
        c2 < 0x100_0000_0000,
        c1 != c2,
    ensures
        exists|j: int| 0 <= j < 8 && checksum_symbol(c1, j) != checksum_symbol(c2, j),
{
    assert((c1 >> 35) & 31 != (c2 >> 35) & 31 || (c1 >> 30) & 31 != (c2 >> 30) & 31 || (c1 >> 25)
        & 31 != (c2 >> 25) & 31 || (c1 >> 20) & 31 != (c2 >> 20) & 31 || (c1 >> 15) & 31 != (c2
        >> 15) & 31 || (c1 >> 10) & 31 != (c2 >> 10) & 31 || (c1 >> 5) & 31 != (c2 >> 5) & 31 || (
    c1 >> 0) & 31 != (c2 >> 0) & 31) by (bit_vector)
        requires
            c1 < 0x100_0000_0000u64,
            c2 < 0x100_0000_0000u64,
            c1 != c2,
    ;
    let j = if (c1 >> 35) & 31 != (c2 >> 35) & 31 {
        0int
    } else if (c1 >> 30) & 31 != (c2 >> 30) & 31 {
        1int
    } else if (c1 >> 25) & 31 != (c2 >> 25) & 31 {
        2int
    } else if (c1 >> 20) & 31 != (c2 >> 20) & 31 {
        3int
    } else if (c1 >> 15) & 31 != (c2 >> 15) & 31 {
        4int
    } else if (c1 >> 10) & 31 != (c2 >> 10) & 31 {
        5int
    } else if (c1 >> 5) & 31 != (c2 >> 5) & 31 {
        6int
    } else {
        7int
    };
    let s = (5 * (7 - j)) as u64;
    let x = (c1 >> s) & 31;
    let y = (c2 >> s) & 31;
    assert(x != y);
    assert(x < 32 && y < 32) by (bit_vector)
        requires
            x == (c1 >> s) & 31,
            y == (c2 >> s) & 31,
    ;
    lemma_checksum_charset_distinct(x as int, y as int);
    assert(checksum_symbol(c1, j) != checksum_symbol(c2, j));
}

/// Replacing one character of a body by another changes the checksum.
pub proof fn lemma_substitution_changes_checksum(body: Seq<char>, i: int, ch: char)
    requires
        in_alphabet(body),
        0 <= i < body.len(),
        char_value(ch) is Some,
        body[i] != ch,
    ensures
        checksum_of(body.update(i, ch)) != checksum_of(body),
{
    let other = body.update(i, ch);
    lemma_absorb_diverges(body, i, ch, body.len() as int);
    assert(body.take(body.len() as int) =~= body);
    assert(other.take(body.len() as int) =~= other);
    lemma_finish_differs(absorb(body), absorb(other));
    let c1 = finish(absorb(body));
    let c2 = finish(absorb(other));
    lemma_symbols_differ(c1, c2);
    let j = choose|j: int| 0 <= j < 8 && checksum_symbol(c1, j) != checksum_symbol(c2, j);
    assert(checksum_of(body)[j] == checksum_symbol(c1, j));
    assert(checksum_of(other)[j] == checksum_symbol(c2, j));
}

/// A text in which one character of the body was replaced by another,
/// after the checksum was written, is refused.
pub proof fn lemma_verify_rejects_substitution(body: Seq<char>, i: int, ch: char)
    requires
        in_alphabet(body),
        0 <= i < body.len(),
        body[i] != ch,
    ensures
        verify_checksum_spec(body.update(i, ch).push('#') + checksum_of(body)) is Err,
{
    let other = body.update(i, ch);
    if verify_checksum_spec(other.push('#') + checksum_of(body)) is Ok {
        lemma_verify_accepts_only(other, checksum_of(body));
        assert(char_value(other[i]) is Some);
        lemma_substitution_changes_checksum(body, i, ch);
    }
}

} // verus!
