//! Taproot trees built from weighted leaf scripts, and pay-to-taproot addresses.
use vstd::prelude::*;

use crate::keys::XOnlyPublicKey;

verus! {

/// The network an address is made for.
#[derive(Clone, Copy, PartialEq, Eq, Structural, Debug)]
pub enum Network {
    /// Mainnet Bitcoin.
    Bitcoin,
    /// Bitcoin's testnet network.
    Testnet,
    /// Bitcoin's testnet4 network.
    Testnet4,
    /// Bitcoin's signet network.
    Signet,
    /// Bitcoin's regtest network.
    Regtest,
}

/// The leaf version of tapscript leaves.
pub const TAPSCRIPT_LEAF_VERSION: u8 = 0xc0;

/// Weighted leaves as plain values: each weight with the leaf script's bytes.
pub open spec fn leaves_view(leaves: Seq<(u32, Vec<u8>)>) -> Seq<(u32, Seq<u8>)> {
    leaves.map_values(|l: (u32, Vec<u8>)| (l.0, l.1@))
}

/// The sum of the weights of `leaves`.
pub open spec fn total_weight(leaves: Seq<(u32, Seq<u8>)>) -> int
    decreases leaves.len(),
{
    if leaves.len() == 0 {
        0
    } else {
        total_weight(leaves.drop_last()) + leaves.last().0
    }
}

/// Every weight is positive and the weights sum to at most `u32::MAX`.
pub open spec fn weights_fit(leaves: Seq<(u32, Seq<u8>)>) -> bool {
    &&& forall|i: int| 0 <= i < leaves.len() ==> (#[trigger] leaves[i]).0 >= 1
    &&& total_weight(leaves) <= u32::MAX
}

/// Whether `script` is the script of one of `leaves`.
pub open spec fn has_leaf(leaves: Seq<(u32, Seq<u8>)>, script: Seq<u8>) -> bool {
    exists|i: int| 0 <= i < leaves.len() && (#[trigger] leaves[i]).1 == script
}

/// The merkle root of the tree that `bitcoin::taproot::TaprootBuilder::with_huffman_tree`
/// builds from the weighted tapscript leaves, or `None` where it fails.
pub uninterp spec fn huffman_merkle_root(leaves: Seq<(u32, Seq<u8>)>) -> Option<Seq<u8>>;

/// The serialized control block that
/// `bitcoin::taproot::TaprootSpendInfo::with_huffman_tree` and its `control_block`
/// give for `script` under `internal_key` and the weighted leaves, or `None`.
pub uninterp spec fn huffman_control_block(
    internal_key: Seq<u8>,
    leaves: Seq<(u32, Seq<u8>)>,
    script: Seq<u8>,
) -> Option<Seq<u8>>;

/// The address (as `Address`'s `Display` writes it) and the script pubkey that
/// `bitcoin::Address::p2tr` gives for an internal key, a merkle root and a network.
pub uninterp spec fn p2tr_address(
    internal_key: Seq<u8>,
    merkle_root: Seq<u8>,
    network: Network,
) -> (Seq<char>, Seq<u8>);

/// A serialized control block for `internal_key`: the tapscript leaf version
/// with the output key's parity bit, the internal key, then the 32-byte
/// hashes of the merkle branch.
pub open spec fn control_block_shape(block: Seq<u8>, internal_key: Seq<u8>) -> bool {
    &&& block.len() >= 33
    &&& (block.len() - 33) % 32 == 0
    &&& (block[0] == TAPSCRIPT_LEAF_VERSION || block[0] == TAPSCRIPT_LEAF_VERSION + 1)
    &&& block.subrange(1, 33) == internal_key
}

/// Calls `TaprootBuilder::with_huffman_tree` on the leaves (as tapscript
/// leaves), turns the builder into a `TapTree` (`TryFrom`) and reads its
/// `root_hash`. Claimed: the outcome is `huffman_merkle_root(leaves)`; no
/// tree comes of no leaves (`TaprootBuilderError::EmptyTree` in the source);
/// and leaves of positive weights that sum to at most `u32::MAX` always give a
/// tree. The only other error is a merkle branch longer than 128 hashes
/// (`TAPROOT_CONTROL_MAX_NODE_COUNT`), and a Huffman builder always converts to
/// a `TapTree`. The loop merges the two lightest nodes, so along the path to
/// the deepest leaf each node weighs at least the sum of the two below it; the
/// weights grow like Fibonacci numbers and, with no sum saturated, a tree of
/// total weight at most `u32::MAX` is at most 45 levels deep.
#[verifier::external_body]
fn bitcoin_huffman_merkle_root(leaves: &Vec<(u32, Vec<u8>)>) -> (r: Option<[u8; 32]>)
    ensures
        r matches Some(root) ==> huffman_merkle_root(leaves_view(leaves@)) == Some(root@),
        r is None ==> huffman_merkle_root(leaves_view(leaves@)) is None,
        leaves@.len() == 0 ==> r is None,
        leaves@.len() >= 1 && weights_fit(leaves_view(leaves@)) ==> r is Some,
{
    let weighted = leaves.iter().map(|l| (l.0, bitcoin::ScriptBuf::from_bytes(l.1.clone())));
    let builder = bitcoin::taproot::TaprootBuilder::with_huffman_tree(weighted).ok()?;
    let tree = bitcoin::taproot::TapTree::try_from(builder).ok()?;
    Some(bitcoin::hashes::Hash::to_byte_array(tree.root_hash()))
}

/// Calls `TaprootSpendInfo::with_huffman_tree` on the internal key and the
/// leaves, then `control_block` for `script` as a tapscript leaf, and
/// serializes the control block. Claimed: the outcome is
/// `huffman_control_block(..)`, and there is one exactly where the tree can be
/// built and `script` is one of its leaves (`from_node_info` records every
/// leaf script in the source); a control block is serialized as the leaf
/// version `0xc0` or-ed with the parity bit, the internal key, and the branch
/// hashes (`ControlBlock::encode`).
#[verifier::external_body]
fn bitcoin_huffman_control_block(
    internal_key: &XOnlyPublicKey,
    leaves: &Vec<(u32, Vec<u8>)>,
    script: &Vec<u8>,
) -> (r: Option<Vec<u8>>)
    ensures
        r matches Some(block) ==> huffman_control_block(
            internal_key@,
            leaves_view(leaves@),
            script@,
        ) == Some(block@),
        r is None ==> huffman_control_block(internal_key@, leaves_view(leaves@), script@) is None,
        r is Some <==> (huffman_merkle_root(leaves_view(leaves@)) is Some && has_leaf(
            leaves_view(leaves@),
            script@,
        )),
        r matches Some(block) ==> control_block_shape(block@, internal_key@),
{
    let secp = bitcoin::secp256k1::Secp256k1::verification_only();
    let key = bitcoin::secp256k1::XOnlyPublicKey::from_slice(&internal_key.serialize()).expect("a valid x-only key");
    let weighted = leaves.iter().map(|l| (l.0, bitcoin::ScriptBuf::from_bytes(l.1.clone())));
    let info = bitcoin::taproot::TaprootSpendInfo::with_huffman_tree(&secp, key, weighted).ok()?;
    let leaf = (bitcoin::ScriptBuf::from_bytes(script.clone()), bitcoin::taproot::LeafVersion::TapScript);
    Some(info.control_block(&leaf)?.serialize())
}

/// Calls `bitcoin::Address::p2tr` and returns the address's text and its
/// `script_pubkey`. Claimed: the pair is `p2tr_address(..)`; the script
/// pubkey is a segwit version 1 output (`OP_PUSHNUM_1`, a 32-byte push); and
/// it is the same on every network (`script_pubkey` reads only the witness
/// program, which `WitnessProgram::p2tr` makes without the network).
#[verifier::external_body]
fn bitcoin_p2tr_address(
    internal_key: &XOnlyPublicKey,
    merkle_root: &[u8; 32],
    network: Network,
) -> (r: (String, Vec<u8>))
    ensures
        (r.0@, r.1@) == p2tr_address(internal_key@, merkle_root@, network),
        r.1@.len() == 34 && r.1@[0] == 0x51 && r.1@[1] == 0x20,
        forall|other: Network|
            #[trigger] p2tr_address(internal_key@, merkle_root@, other).1 == r.1@,
{
    let secp = bitcoin::secp256k1::Secp256k1::verification_only();
    let key = bitcoin::secp256k1::XOnlyPublicKey::from_slice(&internal_key.serialize()).expect("a valid x-only key");
    let root = <bitcoin::TapNodeHash as bitcoin::hashes::Hash>::from_byte_array(*merkle_root);
    let network = match network {
        Network::Bitcoin => bitcoin::Network::Bitcoin,
        Network::Testnet => bitcoin::Network::Testnet,
        Network::Testnet4 => bitcoin::Network::Testnet4,
        Network::Signet => bitcoin::Network::Signet,
        Network::Regtest => bitcoin::Network::Regtest,
    };
    let address = bitcoin::Address::p2tr(&secp, key, Some(root), network);
    (address.to_string(), address.script_pubkey().into_bytes())
}

/// A taproot script tree: its weighted leaf scripts and its merkle root.
#[derive(Debug)]
pub struct TapTree {
    leaves: Vec<(u32, Vec<u8>)>,
    root_hash: [u8; 32],
}

impl TapTree {
    /// The weighted leaves, as plain values.
    pub closed spec fn leaves_seq(&self) -> Seq<(u32, Seq<u8>)> {
        leaves_view(self.leaves@)
    }

    /// The merkle root.
    pub closed spec fn root(&self) -> Seq<u8> {
        self.root_hash@
    }

    #[verifier::type_invariant]
    closed spec fn well_formed(self) -> bool {
        huffman_merkle_root(leaves_view(self.leaves@)) == Some(self.root_hash@)
    }

    /// Builds the Huffman tree of the weighted leaf scripts: the heavier a
    /// leaf, the closer to the root. `None` where no tree can be built (no
    /// leaves, or a tree too deep).
    pub fn with_huffman_tree(leaves: Vec<(u32, Vec<u8>)>) -> (r: Option<TapTree>)
        ensures
            match r {
                Some(tree) => {
                    &&& tree.leaves_seq() == leaves_view(leaves@)
                    &&& huffman_merkle_root(leaves_view(leaves@)) == Some(tree.root())
                },
                None => huffman_merkle_root(leaves_view(leaves@)) is None,
            },
            leaves@.len() == 0 ==> r is None,
            leaves@.len() >= 1 && weights_fit(leaves_view(leaves@)) ==> r is Some,
    {
        match bitcoin_huffman_merkle_root(&leaves) {
            Some(root_hash) => Some(TapTree { leaves, root_hash }),
            None => None,
        }
    }

    /// The merkle root hash of the tree.
    pub fn root_hash(&self) -> (r: [u8; 32])
        ensures
            r@ == self.root(),
            huffman_merkle_root(self.leaves_seq()) == Some(r@),
    {
        proof {
            use_type_invariant(self);
        }
        self.root_hash
    }

    /// The weighted leaf scripts of the tree, in the order they were given.
    pub fn leaves(&self) -> (r: Vec<(u32, Vec<u8>)>)
        ensures
            leaves_view(r@) == self.leaves_seq(),
    {
        let mut r: Vec<(u32, Vec<u8>)> = Vec::new();
        let mut i: usize = 0;
        while i < self.leaves.len()
            invariant
                i <= self.leaves@.len(),
                leaves_view(r@) =~= leaves_view(self.leaves@.take(i as int)),
            decreases self.leaves@.len() - i,
        {
            let leaf = (self.leaves[i].0, self.leaves[i].1.clone());
            let ghost before = r@;
            r.push(leaf);
            proof {
                let item = self.leaves@[i as int];
                assert(leaf.1@ =~= item.1@);
                assert(leaves_view(r@) =~= leaves_view(before).push((item.0, item.1@)));
                assert(leaves_view(self.leaves@.take(i + 1)) =~= leaves_view(
                    self.leaves@.take(i as int),
                ).push((item.0, item.1@)));
            }
            i = i + 1;
        }
        proof {
            assert(self.leaves@.take(i as int) =~= self.leaves@);
        }
        r
    }

    /// The control block that spends the leaf `script` of this tree under the
    /// internal key `internal_key`, or `None` where `script` is no leaf of it.
    pub fn control_block(&self, internal_key: &XOnlyPublicKey, script: &Vec<u8>) -> (r: Option<Vec<u8>>)
        ensures
            r is Some <==> has_leaf(self.leaves_seq(), script@),
            r matches Some(block) ==> huffman_control_block(
                internal_key@,
                self.leaves_seq(),
                script@,
            ) == Some(block@),
            r matches Some(block) ==> control_block_shape(block@, internal_key@),
    {
        proof {
            use_type_invariant(self);
        }
        bitcoin_huffman_control_block(internal_key, &self.leaves, script)
    }
}

impl Clone for TapTree {
    fn clone(&self) -> (r: Self)
        ensures
            r.leaves_seq() == self.leaves_seq(),
            r.root() == self.root(),
    {
        proof {
            use_type_invariant(self);
        }
        TapTree { leaves: self.leaves(), root_hash: self.root_hash }
    }
}

/// A bitcoin address, with the script pubkey that pays to it.
#[derive(PartialEq, Eq, Debug)]
pub struct Address {
    encoded: String,
    script_pubkey: Vec<u8>,
}

impl View for Address {
    type V = (Seq<char>, Seq<u8>);

    closed spec fn view(&self) -> (Seq<char>, Seq<u8>) {
        (self.encoded@, self.script_pubkey@)
    }
}

impl Clone for Address {
    fn clone(&self) -> (r: Self)
        ensures
            r@ == self@,
    {
        let script_pubkey = self.script_pubkey.clone();
        proof {
            assert(script_pubkey@ =~= self.script_pubkey@);
        }
        Address { encoded: self.encoded.clone(), script_pubkey }
    }
}

impl Address {
    /// The pay-to-taproot address of `internal_key` tweaked with `merkle_root`,
    /// on `network`.
    pub fn p2tr(internal_key: &XOnlyPublicKey, merkle_root: &[u8; 32], network: Network) -> (r:
        Address)
        ensures
            r@ == p2tr_address(internal_key@, merkle_root@, network),
            r@.1.len() == 34 && r@.1[0] == 0x51 && r@.1[1] == 0x20,
            forall|other: Network|
                #[trigger] p2tr_address(internal_key@, merkle_root@, other).1 == r@.1,
    {
        let (encoded, script_pubkey) = bitcoin_p2tr_address(internal_key, merkle_root, network);
        Address { encoded, script_pubkey }
    }

    /// The address in its text form.
    pub fn to_string(&self) -> (r: String)
        ensures
            r@ == self@.0,
    {
        self.encoded.clone()
    }

    /// The script pubkey that pays to the address.
    pub fn script_pubkey(&self) -> (r: Vec<u8>)
        ensures
            r@ == self@.1,
    {
        let r = self.script_pubkey.clone();
        proof {
            assert(r@ =~= self.script_pubkey@);
        }
        r
    }
}

/// The plain view of weighted leaves keeps each weight and each script's
/// bytes, one for one and in order.
pub proof fn law_leaves_view_one_for_one(leaves: Seq<(u32, Vec<u8>)>)
    ensures
        leaves_view(leaves).len() == leaves.len(),
        forall|i: int|
            0 <= i < leaves.len() ==> #[trigger] leaves_view(leaves)[i] == (
            leaves[i].0,
            leaves[i].1@,
        ),
{
}

} // verus!
