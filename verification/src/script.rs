//! Scripts as bytes: how data is pushed in a script, and the script that a
//! stack of unlocking items is written as.

use vstd::prelude::*;

use crate::key::public_key_bytes;

verus! {

/// `elements::Script`, held as a value that is known by its bytes alone.
#[verifier::external_type_specification]
#[verifier::external_body]
pub struct ExScript(elements::Script);

/// `elements::script::Builder`, held as a value that is known by the
/// bytes that it has collected alone.
#[verifier::external_type_specification]
#[verifier::external_body]
pub struct ExBuilder(elements::script::Builder);

/// The bytes of a script. This is what `Script::as_bytes` returns.
pub uninterp spec fn script_bytes(script: elements::Script) -> Seq<u8>;

/// The bytes that a script builder has collected.
pub uninterp spec fn builder_bytes(builder: elements::script::Builder) -> Seq<u8>;

/// One more than the greatest length of data that a script can push.
pub const PUSH_LIMIT: u64 = 0x1_0000_0000;

/// What announces `n` bytes of pushed data: the length itself below 0x4c,
/// else one of the three PUSHDATA opcodes and the length in one, two or
/// four bytes, the lowest first.
pub open spec fn push_prefix(n: nat) -> Seq<u8> {
    if n < 0x4c {
        seq![n as u8]
    } else if n < 0x100 {
        seq![0x4cu8, n as u8]
    } else if n < 0x10000 {
        seq![0x4du8, (n % 0x100) as u8, (n / 0x100) as u8]
    } else {
        seq![
            0x4eu8,
            (n % 0x100) as u8,
            ((n / 0x100) % 0x100) as u8,
            ((n / 0x10000) % 0x100) as u8,
            (n / 0x1000000) as u8,
        ]
    }
}

/// The script bytes that push `data` onto the stack.
pub open spec fn push_bytes(data: Seq<u8>) -> Seq<u8> {
    push_prefix(data.len()) + data
}

/// The script that pushes each of `items`, in order.
pub open spec fn push_all(items: Seq<Seq<u8>>) -> Seq<u8>
    decreases items.len(),
{
    if items.len() == 0 {
        Seq::empty()
    } else {
        push_all(items.drop_last()) + push_bytes(items.last())
    }
}

/// The items of a stack as sequences.
pub open spec fn stack_view(stack: Seq<Vec<u8>>) -> Seq<Seq<u8>> {
    Seq::new(stack.len(), |i: int| stack[i]@)
}

/// Whether every item is short enough to be pushed in a script.
pub open spec fn pushable(items: Seq<Seq<u8>>) -> bool {
    forall|i: int| 0 <= i < items.len() ==> (#[trigger] items[i]).len() < PUSH_LIMIT
}

/// The number of bytes that the length `n` takes in a transaction: 1 up to
/// 0xFC, 3 up to 0xFFFF, 5 up to 0xFFFFFFFF, else 9.
pub open spec fn varint_size(n: nat) -> nat {
    if n <= 0xFC {
        1
    } else if n <= 0xFFFF {
        3
    } else if n <= 0xFFFF_FFFF {
        5
    } else {
        9
    }
}

/// The weight of an unlocking script of `n` bytes in a legacy input: the
/// script and the bytes that give its length, each counted four times.
pub open spec fn scriptsig_weight(n: nat) -> nat {
    4 * (varint_size(n) + n)
}

/// A longer unlocking script weighs no less.
pub proof fn lemma_scriptsig_weight_monotonic(n: nat, m: nat)
    requires
        n <= m,
    ensures
        scriptsig_weight(n) <= scriptsig_weight(m),
{
}

/// `Builder::new`: a builder that holds no bytes.
#[verifier::external_body]
fn builder_new() -> (builder: elements::script::Builder)
    ensures
        builder_bytes(builder) == Seq::<u8>::empty(),
{
    elements::script::Builder::new()
}

/// `Builder::push_slice`: appends the push of `data`. The outside function
/// panics on data of 4 GiB or more.
#[verifier::external_body]
fn builder_push_slice(builder: elements::script::Builder, data: &[u8]) -> (r:
    elements::script::Builder)
    requires
        data@.len() < PUSH_LIMIT,
    ensures
        builder_bytes(r) == builder_bytes(builder) + push_bytes(data@),
{
    builder.push_slice(data)
}

/// `Builder::push_key`: appends the push of the key's serialization.
#[verifier::external_body]
fn builder_push_key(builder: elements::script::Builder, key: &elements::bitcoin::PublicKey) -> (r:
    elements::script::Builder)
    ensures
        builder_bytes(r) == builder_bytes(builder) + push_bytes(public_key_bytes(*key)),
{
    builder.push_key(key)
}

/// The opcode that checks a signature against a key.
pub const OP_CHECKSIG: u8 = 0xac;

/// `Builder::push_opcode` with `OP_CHECKSIG`: appends the byte of the
/// opcode.
#[verifier::external_body]
fn builder_push_checksig(builder: elements::script::Builder) -> (r: elements::script::Builder)
    ensures
        builder_bytes(r) == builder_bytes(builder).push(OP_CHECKSIG),
{
    builder.push_opcode(elements::opcodes::all::OP_CHECKSIG)
}

/// `Builder::into_script`: the script of the bytes collected.
#[verifier::external_body]
fn builder_into_script(builder: elements::script::Builder) -> (script: elements::Script)
    ensures
        script_bytes(script) == builder_bytes(builder),
{
    builder.into_script()
}

/// `VarInt::len` of the `bitcoin` crate, on the length `n`.
#[verifier::external_body]
pub(crate) fn varint_len(n: usize) -> (r: usize)
    ensures
        r == varint_size(n as nat),
{
    elements::VarInt(n as u64).len()
}

/// The script that pushes a signature and then a public key: what unlocks a
/// pay-to-pubkey-hash output.
pub fn sig_and_key_script(sig: &[u8], key: &elements::bitcoin::PublicKey) -> (script:
    elements::Script)
    requires
        sig@.len() < PUSH_LIMIT,
    ensures
        script_bytes(script) == push_bytes(sig@) + push_bytes(public_key_bytes(*key)),
{
    let builder = builder_new();
    let builder = builder_push_slice(builder, sig);
    let builder = builder_push_key(builder, key);
    let script = builder_into_script(builder);
    assert(Seq::<u8>::empty() + push_bytes(sig@) =~= push_bytes(sig@));
    script
}

/// The script that pushes a public key and checks a signature against
/// it.
pub fn key_checksig_script(key: &elements::bitcoin::PublicKey) -> (script: elements::Script)
    ensures
        script_bytes(script) == push_bytes(public_key_bytes(*key)).push(OP_CHECKSIG),
{
    let builder = builder_new();
    let builder = builder_push_key(builder, key);
    let builder = builder_push_checksig(builder);
    let script = builder_into_script(builder);
    assert(Seq::<u8>::empty() + push_bytes(public_key_bytes(*key)) =~= push_bytes(
        public_key_bytes(*key),
    ));
    script
}

/// Writes a stack of unlocking items as the script that pushes each of
/// them, in order. Gives nothing where an item is too long to be pushed.
pub fn witness_to_scriptsig(witness: &[Vec<u8>]) -> (r: Option<elements::Script>)
    ensures
        match r {
            Some(script) => pushable(stack_view(witness@)) && script_bytes(script) == push_all(
                stack_view(witness@),
            ),
            None => !pushable(stack_view(witness@)),
        },
{
    let ghost items = stack_view(witness@);
    let mut builder = builder_new();
    let mut i: usize = 0;
    while i < witness.len()
        invariant
            i <= witness.len(),
            items == stack_view(witness@),
            builder_bytes(builder) == push_all(items.take(i as int)),
            pushable(items.take(i as int)),
        decreases witness.len() - i,
    {
        let item = &witness[i];
        if item.len() as u64 >= PUSH_LIMIT {
            assert(items[i as int].len() >= PUSH_LIMIT);
            return None;
        }
        builder = builder_push_slice(builder, item.as_slice());
        proof {
            let next = items.take(i as int + 1);
            assert(next.drop_last() =~= items.take(i as int));
            assert(next.last() == items[i as int]);
            assert forall|k: int| 0 <= k < next.len() implies (#[trigger] next[k]).len()
                < PUSH_LIMIT by {
                if k < i {
                    assert(next[k] == items.take(i as int)[k]);
                }
            }
        }
        i += 1;
    }
    assert(items.take(i as int) =~= items);
    Some(builder_into_script(builder))
}

} // verus!
