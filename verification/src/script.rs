//! Tapscript leaves that need a signature from every key of a combination.
use vstd::prelude::*;

use crate::keys::{lemma_public_key_len, x_only_of, PublicKey, XOnlyPublicKey};

verus! {

/// `OP_CHECKSIG`.
pub const OP_CHECKSIG: u8 = 0xac;

/// `OP_CHECKSIGADD`.
pub const OP_CHECKSIGADD: u8 = 0xba;

/// `OP_NUMEQUAL`.
pub const OP_NUMEQUAL: u8 = 0x9c;

/// The minimal little-endian encoding of a positive script number.
pub open spec fn script_num_bytes(n: nat) -> Seq<u8>
    decreases n,
{
    if n > 0xff {
        seq![(n % 256) as u8] + script_num_bytes(n / 256)
    } else if n >= 0x80 {
        seq![n as u8, 0u8]
    } else {
        seq![n as u8]
    }
}

/// The bytes that push the number `n` (`OP_0`, `OP_1` .. `OP_16`, or a data
/// push of its script-number encoding).
pub open spec fn push_int_bytes(n: nat) -> Seq<u8> {
    if n == 0 {
        seq![0x00u8]
    } else if n <= 16 {
        seq![(0x50 + n) as u8]
    } else {
        seq![script_num_bytes(n).len() as u8] + script_num_bytes(n)
    }
}

/// Appends one opcode through `bitcoin::script::Builder::push_opcode`.
/// Claimed: the script grows by that one byte.
#[verifier::external_body]
fn script_push_opcode(script: Vec<u8>, opcode: u8) -> (r: Vec<u8>)
    ensures
        r@ == script@.push(opcode),
{
    bitcoin::script::Builder::from(script).push_opcode(
        bitcoin::opcodes::Opcode::from(opcode),
    ).into_bytes()
}

/// Appends a number through `bitcoin::script::Builder::push_int`.
/// Claimed: the script grows by `push_int_bytes(n)`, as `push_int` and
/// `write_scriptint` in the crate's source write it for `n >= 0`.
#[verifier::external_body]
fn script_push_int(script: Vec<u8>, n: i64) -> (r: Vec<u8>)
    requires
        0 <= n,
    ensures
        r@ == script@ + push_int_bytes(n as nat),
{
    bitcoin::script::Builder::from(script).push_int(n).into_bytes()
}

/// Appends an x-only key through `bitcoin::script::Builder::push_x_only_key`.
/// Claimed: the script grows by a 32-byte push of the key's serialization.
#[verifier::external_body]
fn script_push_x_only_key(script: Vec<u8>, key: &XOnlyPublicKey) -> (r: Vec<u8>)
    ensures
        r@ == script@ + seq![32u8] + key@,
{
    let parsed = bitcoin::secp256k1::XOnlyPublicKey::from_slice(&key.serialize()).expect(
        "a valid x-only key",
    );
    bitcoin::script::Builder::from(script).push_x_only_key(&parsed).into_bytes()
}

/// Pushes of the x-only keys `keys`, each followed by `OP_CHECKSIG` (the
/// first) or `OP_CHECKSIGADD` (the others).
pub open spec fn checksig_chain(keys: Seq<Seq<u8>>) -> Seq<u8>
    decreases keys.len(),
{
    if keys.len() == 0 {
        Seq::<u8>::empty()
    } else {
        checksig_chain(keys.drop_last()) + seq![32u8] + keys.last() + seq![
            if keys.len() == 1 {
                OP_CHECKSIG
            } else {
                OP_CHECKSIGADD
            },
        ]
    }
}

/// The x-only serializations of `keys`.
pub open spec fn x_only_keys(keys: Seq<PublicKey>) -> Seq<Seq<u8>> {
    keys.map_values(|k: PublicKey| x_only_of(k@))
}

/// The leaf script that is satisfied by a signature from every key of
/// `keys`: the signatures are counted and the count compared with the number
/// of keys.
pub open spec fn multisig_leaf(keys: Seq<PublicKey>) -> Seq<u8> {
    checksig_chain(x_only_keys(keys)) + push_int_bytes(keys.len()) + seq![OP_NUMEQUAL]
}

/// Builds the leaf script that needs a signature from every key of
/// `combination`.
pub fn multisig_leaf_script(combination: &Vec<PublicKey>) -> (script: Vec<u8>)
    requires
        combination@.len() <= i64::MAX,
    ensures
        script@ == multisig_leaf(combination@),
{
    let ghost keys = x_only_keys(combination@);
    let mut script: Vec<u8> = Vec::new();
    let mut first_combination = true;
    let mut i: usize = 0;
    while i < combination.len()
        invariant
            i <= combination@.len(),
            keys == x_only_keys(combination@),
            first_combination == (i == 0),
            script@ == checksig_chain(keys.take(i as int)),
        decreases combination@.len() - i,
    {
        let xonly_key = combination[i].x_only_public_key();
        script = script_push_x_only_key(script, &xonly_key);
        script = script_push_opcode(
            script,
            if first_combination {
                OP_CHECKSIG
            } else {
                OP_CHECKSIGADD
            },
        );
        first_combination = false;
        proof {
            assert(keys.take(i + 1).drop_last() =~= keys.take(i as int));
            assert(keys.take(i + 1).last() == keys[i as int]);
        }
        i = i + 1;
    }
    let count = combination.len() as i64;
    script = script_push_int(script, count);
    script = script_push_opcode(script, OP_NUMEQUAL);
    proof {
        assert(keys.take(combination@.len() as int) =~= keys);
    }
    script
}


/// The opcode that follows the `j`-th key of a leaf.
pub open spec fn checksig_opcode(j: int) -> u8 {
    if j == 0 {
        OP_CHECKSIG
    } else {
        OP_CHECKSIGADD
    }
}

proof fn lemma_checksig_chain_layout(keys: Seq<Seq<u8>>)
    requires
        forall|j: int| 0 <= j < keys.len() ==> (#[trigger] keys[j]).len() == 32,
    ensures
        checksig_chain(keys).len() == 34 * keys.len(),
        forall|j: int|
            0 <= j < keys.len() ==> #[trigger] checksig_chain(keys).subrange(34 * j, 34 * j + 34)
                == seq![32u8] + keys[j] + seq![checksig_opcode(j)],
    decreases keys.len(),
{
    if keys.len() > 0 {
        let front = keys.drop_last();
        lemma_checksig_chain_layout(front);
        let chain = checksig_chain(keys);
        let n = keys.len() - 1;
        let piece = seq![32u8] + keys.last() + seq![checksig_opcode(n)];
        assert(chain == checksig_chain(front) + piece);
        assert forall|j: int| 0 <= j < keys.len() implies #[trigger] chain.subrange(
            34 * j,
            34 * j + 34,
        ) == seq![32u8] + keys[j] + seq![checksig_opcode(j)] by {
            if j < n {
                assert(chain.subrange(34 * j, 34 * j + 34) =~= checksig_chain(front).subrange(
                    34 * j,
                    34 * j + 34,
                ));
                assert(front[j] == keys[j]);
            } else {
                assert(chain.subrange(34 * j, 34 * j + 34) =~= piece);
            }
        }
    }
}

/// A multisig leaf for `n` keys is, in order: for each key a 32-byte push of
/// its x-only serialization followed by `OP_CHECKSIG` (first key) or
/// `OP_CHECKSIGADD` (the others); then the push of `n`; then `OP_NUMEQUAL`.
pub proof fn law_leaf_layout(keys: Seq<PublicKey>)
    ensures
        ({
            let leaf = multisig_leaf(keys);
            let n = keys.len() as int;
            &&& leaf.len() == 34 * n + push_int_bytes(n as nat).len() + 1
            &&& forall|j: int|
                0 <= j < n ==> #[trigger] leaf.subrange(34 * j, 34 * j + 34) == seq![32u8]
                    + x_only_of(keys[j]@) + seq![checksig_opcode(j)]
            &&& leaf.subrange(34 * n, 34 * n + push_int_bytes(n as nat).len())
                == push_int_bytes(n as nat)
            &&& leaf.last() == OP_NUMEQUAL
        }),
{
    let xs = x_only_keys(keys);
    assert forall|j: int| 0 <= j < xs.len() implies (#[trigger] xs[j]).len() == 32 by {
        assert(xs[j] == x_only_of(keys[j]@));
        lemma_public_key_len(keys[j]);
    }
    lemma_checksig_chain_layout(xs);
    let chain = checksig_chain(xs);
    let leaf = multisig_leaf(keys);
    let n = keys.len() as int;
    assert forall|j: int| 0 <= j < n implies #[trigger] leaf.subrange(34 * j, 34 * j + 34)
        == seq![32u8] + x_only_of(keys[j]@) + seq![checksig_opcode(j)] by {
        assert(leaf.subrange(34 * j, 34 * j + 34) =~= chain.subrange(34 * j, 34 * j + 34));
        assert(xs[j] == x_only_of(keys[j]@));
    }
    assert(leaf.subrange(34 * n, 34 * n + push_int_bytes(n as nat).len()) =~= push_int_bytes(
        n as nat,
    ));
}

} // verus!
