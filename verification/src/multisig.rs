//! Multisig contracts: a taproot output that the parts can spend together, or
//! any one part with a quorum of the arbitrators.
use vstd::prelude::*;

use crate::keys::{x_only_of, PublicKey, XOnlyPublicKey};
use crate::script::{multisig_leaf, multisig_leaf_script};
use crate::taproot::{
    control_block_shape,
    has_leaf,
    total_weight,
    weights_fit,
    huffman_control_block,
    huffman_merkle_root,
    leaves_view,
    p2tr_address,
    Address,
    Network,
    TapTree,
    TAPSCRIPT_LEAF_VERSION,
};
use crate::transaction::{
    has_signed_input,
    OutPoint,
    Psbt,
    PsbtInput,
    TapScript,
    Transaction,
    TxIn,
    TxOut,
    ENABLE_RBF_NO_LOCKTIME,
};
use crate::utils::{
    binomial,
    clone_of_clone,
    combinations_of,
    combine,
    extends_with,
    increasing_within,
    index_combinations,
    lemma_combinations_count,
    lemma_combinations_shape,
};

verus! {

/// UTXO structure to use when start spending TX spending
#[derive(Clone, Copy, PartialEq, Eq, Debug)]
pub struct Utxo {
    /// Blockchain reference to UTXO
    pub outpoint: OutPoint,
    /// Value in sats into the UTXO
    pub value: u64,
}

/// Data of each multisig script
#[derive(Clone, Debug)]
pub struct MultisigScript {
    /// Weight of script sort into script tree
    pub weight: usize,
    /// The script raw data
    pub leaf: Vec<u8>,
    /// Public keys combination that matches with current script
    pub combination: Vec<PublicKey>,
}

/// A multisig script as plain values.
pub struct ScriptModel {
    /// Weight of the script in the script tree.
    pub weight: usize,
    /// The script's bytes.
    pub leaf: Seq<u8>,
    /// The keys whose signatures the script needs.
    pub combination: Seq<PublicKey>,
}

impl View for MultisigScript {
    type V = ScriptModel;

    open spec fn view(&self) -> ScriptModel {
        ScriptModel { weight: self.weight, leaf: self.leaf@, combination: self.combination@ }
    }
}

/// Required data to create multisig
#[derive(Clone, Debug)]
pub struct MultisigData {
    /// The public key list from contractors (involved parts)
    pub parts: Vec<PublicKey>,
    /// The publc key list from contract arbitrators
    pub arbitrators: Vec<PublicKey>,
    /// Quorum of minimal necessary arbitrators to unlock funds
    pub quorum: usize,
    /// Internal public key. It's a critical data.
    /// If the private key of this one is known, all funds can be sweeped.
    pub internal_pubkey: PublicKey,
    /// Network to create multisig
    pub network: Network,
}

/// Multisig implementation.
#[derive(Debug)]
pub struct Multisig {
    address: Address,
    multisig_scripts: Vec<MultisigScript>,
    internal_key: XOnlyPublicKey,
    script_tree: TapTree,
    quorum: usize,
    network: Network,
}

/// A multisig as plain values.
pub struct MultisigModel {
    /// The address, as text, and its script pubkey.
    pub address: (Seq<char>, Seq<u8>),
    /// The scripts, in the order they were made.
    pub scripts: Seq<ScriptModel>,
    /// The x-only internal key.
    pub internal_key: Seq<u8>,
    /// The merkle root of the script tree.
    pub merkle_root: Seq<u8>,
    /// The arbitrators quorum.
    pub quorum: usize,
    /// The network.
    pub network: Network,
}

// ---------------------------------------------------------------------------
// What a multisig is made of
// ---------------------------------------------------------------------------

/// The plain views of a list of key lists.
pub open spec fn key_lists(v: Seq<Vec<PublicKey>>) -> Seq<Seq<PublicKey>> {
    v.map_values(|c: Vec<PublicKey>| c@)
}

/// The groups of `quorum` arbitrators, each in the arbitrators' order, in
/// lexicographic order of positions; none where `quorum` is zero.
pub open spec fn arbitrator_groups(arbitrators: Seq<PublicKey>, quorum: nat) -> Seq<Seq<PublicKey>> {
    if quorum == 0 {
        Seq::empty()
    } else {
        index_combinations(arbitrators.len() as int, 0, quorum).map_values(
            |c: Seq<int>| c.map_values(|j: int| arbitrators[j]),
        )
    }
}

/// For each of the first `count` parts in turn, that part followed by each
/// group of arbitrators.
pub open spec fn part_combinations(
    parts: Seq<PublicKey>,
    groups: Seq<Seq<PublicKey>>,
    count: nat,
) -> Seq<Seq<PublicKey>>
    decreases count,
{
    if count == 0 {
        Seq::empty()
    } else {
        part_combinations(parts, groups, (count - 1) as nat) + groups.map_values(
            |g: Seq<PublicKey>| seq![parts[count - 1]] + g,
        )
    }
}

/// The key combinations of a multisig: all the parts together first, then
/// each part with each group of `quorum` arbitrators.
pub open spec fn key_combinations(
    parts: Seq<PublicKey>,
    arbitrators: Seq<PublicKey>,
    quorum: nat,
) -> Seq<Seq<PublicKey>> {
    seq![parts] + part_combinations(parts, arbitrator_groups(arbitrators, quorum), parts.len())
}

/// The weight of the script at position `i`: the parts' agreement weighs 5,
/// the others 1.
pub open spec fn script_weight(i: int) -> usize {
    if i == 0 {
        5
    } else {
        1
    }
}

/// The scripts of a multisig, one for each key combination.
pub open spec fn scripts_of(
    parts: Seq<PublicKey>,
    arbitrators: Seq<PublicKey>,
    quorum: nat,
) -> Seq<ScriptModel> {
    key_combinations(parts, arbitrators, quorum).map(
        |i: int, c: Seq<PublicKey>|
            ScriptModel { weight: script_weight(i), leaf: multisig_leaf(c), combination: c },
    )
}

/// The weighted leaves of the script tree of `scripts`.
pub open spec fn tree_leaves(scripts: Seq<ScriptModel>) -> Seq<(u32, Seq<u8>)> {
    scripts.map_values(|s: ScriptModel| (s.weight as u32, s.leaf))
}

/// The scripts that `data` calls for.
pub open spec fn data_scripts(data: MultisigData) -> Seq<ScriptModel> {
    scripts_of(data.parts@, data.arbitrators@, data.quorum as nat)
}

/// The script tree of `data` can be built.
pub open spec fn tree_builds(data: MultisigData) -> bool {
    huffman_merkle_root(tree_leaves(data_scripts(data))) is Some
}

/// The script weights of `data` sum to at most `u32::MAX`, so its Huffman
/// tree always builds: fewer than 2^32 - 4 scripts.
pub open spec fn weights_in_range(data: MultisigData) -> bool {
    data_scripts(data).len() + 4 <= u32::MAX
}

/// The sizes in `data` fit the script numbers that count signatures.
pub open spec fn sizes_fit(data: MultisigData) -> bool {
    &&& data.parts@.len() <= i64::MAX
    &&& data.quorum <= data.arbitrators@.len() ==> data.quorum < i64::MAX
}

/// `m` is the multisig that `data` describes.
pub open spec fn built_from(m: MultisigModel, data: MultisigData) -> bool {
    let scripts = data_scripts(data);
    let internal_key = x_only_of(data.internal_pubkey@);
    &&& m.scripts == scripts
    &&& huffman_merkle_root(tree_leaves(scripts)) == Some(m.merkle_root)
    &&& m.internal_key == internal_key
    &&& m.address == p2tr_address(internal_key, m.merkle_root, data.network)
    &&& forall|other: Network|
        #[trigger] p2tr_address(internal_key, m.merkle_root, other).1 == m.address.1
    &&& m.quorum == data.quorum
    &&& m.network == data.network
}

/// `txin` spends `utxo`, unsigned, with replace-by-fee signalled.
pub open spec fn unsigned_input(txin: TxIn, utxo: Utxo) -> bool {
    &&& txin.previous_output == utxo.outpoint
    &&& txin.script_sig@.len() == 0
    &&& txin.sequence == ENABLE_RBF_NO_LOCKTIME
    &&& txin.witness@.len() == 0
}

/// `input` describes the multisig output `utxo` and offers to spend it
/// through the leaf `redeem` of `m`'s script tree.
pub open spec fn script_spend_input(
    input: PsbtInput,
    utxo: Utxo,
    m: MultisigModel,
    redeem: Seq<u8>,
) -> bool {
    &&& input.witness_utxo matches Some(out) && out.value == utxo.value && out.script_pubkey@
        == m.address.1
    &&& input.tap_scripts@.len() == 1
    &&& Some(input.tap_scripts@[0].control_block@) == huffman_control_block(
        m.internal_key,
        tree_leaves(m.scripts),
        redeem,
    )
    &&& control_block_shape(input.tap_scripts@[0].control_block@, m.internal_key)
    &&& input.tap_scripts@[0].script@ == redeem
    &&& input.tap_scripts@[0].leaf_version == TAPSCRIPT_LEAF_VERSION
}

impl View for Multisig {
    type V = MultisigModel;

    closed spec fn view(&self) -> MultisigModel {
        MultisigModel {
            address: self.address@,
            scripts: self.multisig_scripts@.map_values(|s: MultisigScript| s@),
            internal_key: self.internal_key@,
            merkle_root: self.script_tree.root(),
            quorum: self.quorum,
            network: self.network,
        }
    }
}

/// Two equal keys.
proof fn lemma_clone_of_clone_key(a: PublicKey, b: PublicKey)
    requires
        clone_of_clone(a, b),
    ensures
        a == b,
{
    let m = choose|m: PublicKey| cloned(a, m) && cloned(m, b);
}

/// What `combine` gives on the arbitrators is the arbitrator groups.
proof fn lemma_groups(arbitrators: Seq<PublicKey>, quorum: nat, res: Seq<Vec<PublicKey>>)
    requires
        quorum == 0 ==> res.len() == 0,
        quorum > 0 ==> combinations_of(
            arbitrators,
            index_combinations(arbitrators.len() as int, 0, quorum),
            res,
        ),
    ensures
        key_lists(res) == arbitrator_groups(arbitrators, quorum),
{
    let groups = arbitrator_groups(arbitrators, quorum);
    if quorum > 0 {
        let idx = index_combinations(arbitrators.len() as int, 0, quorum);
        assert forall|i: int| 0 <= i < res.len() implies #[trigger] key_lists(res)[i]
            == groups[i] by {
            assert(extends_with(arbitrators, Seq::<PublicKey>::empty(), idx[i], res[i]@));
            assert forall|j: int| 0 <= j < res[i]@.len() implies res[i]@[j] == groups[i][j] by {
                assert(clone_of_clone(arbitrators[idx[i][j]], res[i]@[0 + j]));
                lemma_clone_of_clone_key(arbitrators[idx[i][j]], res[i]@[j]);
            }
            assert(key_lists(res)[i] =~= groups[i]);
        }
    }
    assert(key_lists(res) =~= groups);
}

/// Each arbitrator group holds `quorum` arbitrators.
proof fn lemma_group_lengths(arbitrators: Seq<PublicKey>, quorum: nat)
    ensures
        forall|i: int|
            0 <= i < arbitrator_groups(arbitrators, quorum).len() ==> (#[trigger] arbitrator_groups(
                arbitrators,
                quorum,
            )[i]).len() == quorum,
{
    crate::utils::lemma_combinations_shape(arbitrators.len() as int, 0, quorum);
}

/// Every key combination is as long as the parts, or holds a part and a
/// quorum that the arbitrators can fill.
proof fn lemma_combination_lengths(parts: Seq<PublicKey>, arbitrators: Seq<PublicKey>, quorum: nat)
    ensures
        forall|i: int|
            0 <= i < key_combinations(parts, arbitrators, quorum).len() ==> {
                let c = #[trigger] key_combinations(parts, arbitrators, quorum)[i];
                c.len() == parts.len() || (c.len() == quorum + 1 && quorum <= arbitrators.len())
            },
{
    let groups = arbitrator_groups(arbitrators, quorum);
    lemma_group_lengths(arbitrators, quorum);
    lemma_part_combination_lengths(parts, groups, quorum, parts.len());
    lemma_part_combinations_len(parts, groups, parts.len());
    if groups.len() > 0 {
        crate::utils::lemma_combinations_need_room(arbitrators.len() as int, 0, quorum);
    } else {
        assert(parts.len() * groups.len() == 0) by (nonlinear_arith)
            requires
                groups.len() == 0,
        ;
    }
    let all = key_combinations(parts, arbitrators, quorum);
    assert forall|i: int| 0 <= i < all.len() implies {
        let c = #[trigger] all[i];
        c.len() == parts.len() || (c.len() == quorum + 1 && quorum <= arbitrators.len())
    } by {
        if i > 0 {
            assert(all[i] == part_combinations(parts, groups, parts.len())[i - 1]);
        }
    }
}

proof fn lemma_part_combination_lengths(
    parts: Seq<PublicKey>,
    groups: Seq<Seq<PublicKey>>,
    quorum: nat,
    count: nat,
)
    requires
        forall|i: int| 0 <= i < groups.len() ==> (#[trigger] groups[i]).len() == quorum,
        count <= parts.len(),
    ensures
        forall|i: int|
            0 <= i < part_combinations(parts, groups, count).len() ==> (
            #[trigger] part_combinations(parts, groups, count)[i]).len() == quorum + 1,
    decreases count,
{
    if count > 0 {
        lemma_part_combination_lengths(parts, groups, quorum, (count - 1) as nat);
        let before = part_combinations(parts, groups, (count - 1) as nat);
        let all = part_combinations(parts, groups, count);
        assert forall|i: int| 0 <= i < all.len() implies (#[trigger] all[i]).len() == quorum
            + 1 by {
            if i >= before.len() {
                assert(all[i] == seq![parts[count - 1]] + groups[i - before.len()]);
            } else {
                assert(all[i] == before[i]);
            }
        }
    }
}

/// Lists every key combination of a multisig.
fn keys_combination(data: &MultisigData) -> (r: Vec<Vec<PublicKey>>)
    ensures
        key_lists(r@) == key_combinations(data.parts@, data.arbitrators@, data.quorum as nat),
{
    let ghost parts = data.parts@;
    let ghost groups = arbitrator_groups(data.arbitrators@, data.quorum as nat);
    let first = data.parts.clone();
    proof {
        assert(first@ =~= parts);
    }
    let mut keys_combination: Vec<Vec<PublicKey>> = Vec::new();
    keys_combination.push(first);
    proof {
        assert(key_lists(keys_combination@) =~= seq![parts] + part_combinations(parts, groups, 0));
    }

    let mut p: usize = 0;
    while p < data.parts.len()
        invariant
            p <= parts.len(),
            parts == data.parts@,
            groups == arbitrator_groups(data.arbitrators@, data.quorum as nat),
            key_lists(keys_combination@) == seq![parts] + part_combinations(parts, groups, p as nat),
        decreases parts.len() - p,
    {
        let part = data.parts[p];
        let arbitrators_combinations = combine(data.arbitrators.as_slice(), data.quorum);
        proof {
            lemma_groups(data.arbitrators@, data.quorum as nat, arbitrators_combinations@);
        }
        let ghost base = key_lists(keys_combination@);
        let mut j: usize = 0;
        while j < arbitrators_combinations.len()
            invariant
                j <= arbitrators_combinations@.len(),
                key_lists(arbitrators_combinations@) == groups,
                part == parts[p as int],
                key_lists(keys_combination@) == base + groups.take(j as int).map_values(
                    |g: Seq<PublicKey>| seq![part] + g,
                ),
            decreases arbitrators_combinations@.len() - j,
        {
            let mut new_combination = vec![part];
            new_combination.extend_from_slice(arbitrators_combinations[j].as_slice());
            let ghost group = arbitrators_combinations@[j as int]@;
            proof {
                assert(key_lists(arbitrators_combinations@)[j as int] == group);
                assert(new_combination@ =~= seq![part] + group);
            }
            let ghost before = keys_combination@;
            keys_combination.push(new_combination);
            proof {
                assert(key_lists(keys_combination@) =~= key_lists(before).push(seq![part] + group));
                assert(groups.take(j + 1) =~= groups.take(j as int).push(group));
                assert(groups.take(j + 1).map_values(|g: Seq<PublicKey>| seq![part] + g)
                    =~= groups.take(j as int).map_values(|g: Seq<PublicKey>| seq![part] + g).push(
                    seq![part] + group,
                ));
            }
            j = j + 1;
        }
        proof {
            assert(groups.take(j as int) =~= groups);
            assert(part_combinations(parts, groups, (p + 1) as nat) == part_combinations(
                parts,
                groups,
                p as nat,
            ) + groups.map_values(|g: Seq<PublicKey>| seq![parts[p as int]] + g));
        }
        p = p + 1;
    }
    keys_combination
}

/// Builds the scripts of a multisig and the weighted leaves of its tree.
fn build_scripts(data: &MultisigData) -> (r: (Vec<MultisigScript>, Vec<(u32, Vec<u8>)>))
    requires
        sizes_fit(*data),
    ensures
        r.0@.map_values(|s: MultisigScript| s@) == data_scripts(*data),
        leaves_view(r.1@) == tree_leaves(data_scripts(*data)),
{
    let keys_combination = keys_combination(data);
    let ghost combos = key_combinations(data.parts@, data.arbitrators@, data.quorum as nat);
    let ghost scripts = data_scripts(*data);
    proof {
        lemma_combination_lengths(data.parts@, data.arbitrators@, data.quorum as nat);
    }

    let mut multisig_scripts: Vec<MultisigScript> = Vec::new();
    let mut leaves: Vec<(u32, Vec<u8>)> = Vec::new();
    let mut i: usize = 0;
    while i < keys_combination.len()
        invariant
            i <= keys_combination@.len(),
            key_lists(keys_combination@) == combos,
            combos == key_combinations(data.parts@, data.arbitrators@, data.quorum as nat),
            scripts == data_scripts(*data),
            sizes_fit(*data),
            forall|k: int|
                0 <= k < combos.len() ==> (#[trigger] combos[k]).len() == data.parts@.len() || (
                combos[k].len() == data.quorum + 1 && data.quorum <= data.arbitrators@.len()),
            multisig_scripts@.map_values(|s: MultisigScript| s@) =~= scripts.take(i as int),
            leaves_view(leaves@) =~= tree_leaves(scripts.take(i as int)),
        decreases keys_combination@.len() - i,
    {
        let combination = keys_combination[i].clone();
        proof {
            assert(key_lists(keys_combination@)[i as int] == combos[i as int]);
            assert(combination@ =~= combos[i as int]);
        }
        let script = multisig_leaf_script(&combination);
        // Prioritize parts agreements
        let weight: usize = if i == 0 {
            5
        } else {
            1
        };
        let leaf = script.clone();
        proof {
            assert(leaf@ =~= script@);
        }
        let ghost old_scripts = multisig_scripts@;
        let ghost old_leaves = leaves@;
        leaves.push((weight as u32, leaf));
        multisig_scripts.push(MultisigScript { weight, leaf: script, combination });
        proof {
            let s = scripts[i as int];
            assert(s == ScriptModel {
                weight: script_weight(i as int),
                leaf: multisig_leaf(combos[i as int]),
                combination: combos[i as int],
            });
            assert(scripts.take(i + 1) =~= scripts.take(i as int).push(s));
            assert(multisig_scripts@.map_values(|s: MultisigScript| s@) =~= old_scripts.map_values(
                |s: MultisigScript| s@,
            ).push(s));
            assert(leaves_view(leaves@) =~= leaves_view(old_leaves).push((s.weight as u32, s.leaf)));
            assert(tree_leaves(scripts.take(i + 1)) =~= tree_leaves(scripts.take(i as int)).push(
                (s.weight as u32, s.leaf),
            ));
        }
        i = i + 1;
    }
    proof {
        assert(scripts.take(i as int) =~= scripts);
    }
    (multisig_scripts, leaves)
}

/// A multisig has at least the parts' script, and its weights are 5 then 1s.
proof fn lemma_some_script(data: MultisigData)
    ensures
        data_scripts(data).len() >= 1,
        weights_in_range(data) ==> weights_fit(tree_leaves(data_scripts(data))),
{
    assert(key_combinations(data.parts@, data.arbitrators@, data.quorum as nat)[0] == data.parts@);
    let leaves = tree_leaves(data_scripts(data));
    lemma_total_weight(leaves, leaves.len() as int);
    assert(leaves.take(leaves.len() as int) =~= leaves);
}

/// The first `count` leaves of a multisig weigh `count + 4`.
proof fn lemma_total_weight(leaves: Seq<(u32, Seq<u8>)>, count: int)
    requires
        1 <= count <= leaves.len(),
        leaves[0].0 == 5,
        forall|i: int| 1 <= i < leaves.len() ==> (#[trigger] leaves[i]).0 == 1,
    ensures
        total_weight(leaves.take(count)) == count + 4,
    decreases count,
{
    if count > 1 {
        lemma_total_weight(leaves, count - 1);
        assert(leaves.take(count).drop_last() =~= leaves.take(count - 1));
        assert(leaves.take(count).last() == leaves[count - 1]);
    } else {
        assert(leaves.take(count).drop_last() =~= Seq::<(u32, Seq<u8>)>::empty());
        assert(total_weight(Seq::<(u32, Seq<u8>)>::empty()) == 0);
        assert(leaves.take(count).last() == leaves[0]);
    }
}

impl Multisig {
    #[verifier::type_invariant]
    closed spec fn well_formed(self) -> bool {
        self.script_tree.leaves_seq() == tree_leaves(
            self.multisig_scripts@.map_values(|s: MultisigScript| s@),
        )
    }

    /// Creates multisig struct
    /// # Args
    /// - `data`([MultisigData]): Data to multisig generation
    /// # Returns
    /// Created multisig struct
    pub fn new(data: MultisigData) -> (m: Multisig)
        requires
            sizes_fit(data),
            weights_in_range(data) || tree_builds(data),
        ensures
            built_from(m@, data),
    {
        Multisig::try_new(data).unwrap()
    }

    /// Creates the multisig of `data`, or `None` where its script tree cannot
    /// be built.
    pub fn try_new(data: MultisigData) -> (r: Option<Multisig>)
        requires
            sizes_fit(data),
        ensures
            r is Some <==> tree_builds(data),
            weights_in_range(data) ==> r is Some,
            r matches Some(m) ==> built_from(m@, data),
    {
        // Create scripts arrays with each combination for each cases
        let (multisig_scripts, leaves) = build_scripts(&data);

        // Mount scripts options for multisig
        let xonly_internal_pubkey = data.internal_pubkey.x_only_public_key();

        // Mount taptree
        proof {
            lemma_some_script(data);
            assert(leaves_view(leaves@).len() == leaves@.len());
        }
        let script_tree = match TapTree::with_huffman_tree(leaves) {
            Some(tree) => tree,
            None => return None,
        };

        // Create multisig address for this one
        let address = Address::p2tr(&xonly_internal_pubkey, &script_tree.root_hash(), data.network);

        Some(
            Multisig {
                address,
                multisig_scripts,
                script_tree,
                internal_key: xonly_internal_pubkey,
                network: data.network,
                quorum: data.quorum,
            },
        )
    }

    /// The multisig address, taking the multisig.
    pub fn get_address(self) -> (r: Address)
        ensures
            r@ == self@.address,
    {
        self.address
    }

    /// The multisig scripts, taking the multisig.
    pub fn get_multisig_scripts(self) -> (r: Vec<MultisigScript>)
        ensures
            r@.map_values(|s: MultisigScript| s@) == self@.scripts,
    {
        self.multisig_scripts
    }

    /// # Returns
    /// Created multisig address.
    pub fn address(&self) -> (r: Address)
        ensures
            r@ == self@.address,
    {
        self.address.clone()
    }

    /// # Returns
    /// A list with multisig scripts.
    /// Helps to finds the leaf to unlock the transaction.
    pub fn scripts(&self) -> (r: Vec<MultisigScript>)
        ensures
            r@.map_values(|s: MultisigScript| s@) == self@.scripts,
    {
        let ghost scripts = self@.scripts;
        let mut r: Vec<MultisigScript> = Vec::new();
        let mut i: usize = 0;
        while i < self.multisig_scripts.len()
            invariant
                i <= self.multisig_scripts@.len(),
                scripts == self.multisig_scripts@.map_values(|s: MultisigScript| s@),
                r@.map_values(|s: MultisigScript| s@) =~= scripts.take(i as int),
            decreases self.multisig_scripts@.len() - i,
        {
            let script = &self.multisig_scripts[i];
            let copy = MultisigScript {
                weight: script.weight,
                leaf: script.leaf.clone(),
                combination: script.combination.clone(),
            };
            let ghost before = r@;
            proof {
                assert(copy.leaf@ =~= script.leaf@);
                assert(copy.combination@ =~= script.combination@);
            }
            r.push(copy);
            proof {
                assert(scripts.take(i + 1) =~= scripts.take(i as int).push(script@));
                assert(r@.map_values(|s: MultisigScript| s@) =~= before.map_values(
                    |s: MultisigScript| s@,
                ).push(script@));
            }
            i = i + 1;
        }
        proof {
            assert(scripts.take(i as int) =~= scripts);
        }
        r
    }

    /// # Returns
    /// The created multisig [TapTree].
    pub fn script_tree(&self) -> (r: TapTree)
        ensures
            r.leaves_seq() == tree_leaves(self@.scripts),
            r.leaves_seq().len() == self@.scripts.len(),
            forall|i: int|
                0 <= i < self@.scripts.len() ==> #[trigger] r.leaves_seq()[i] == (
                self@.scripts[i].weight as u32,
                self@.scripts[i].leaf,
            ),
            r.root() == self@.merkle_root,
    {
        proof {
            use_type_invariant(self);
            law_tree_leaves_one_for_one(self@.scripts);
        }
        self.script_tree.clone()
    }

    /// # Returns
    /// The x-only of internal publick key.
    pub fn internal_key(&self) -> (r: XOnlyPublicKey)
        ensures
            r@ == self@.internal_key,
    {
        self.internal_key
    }

    /// # Returns
    /// The current network of multisig.
    pub fn network(&self) -> (r: Network)
        ensures
            r == self@.network,
    {
        self.network
    }

    /// # Returns
    /// The arbitrators quorum.
    /// It's the minimal arbitrators signatures required when the transaction isn't unlocked only
    /// with parts signatures.
    pub fn quorum(&self) -> (r: usize)
        ensures
            r == self@.quorum,
    {
        self.quorum
    }

    /// Starts spending of UTXO's that are into multisig address
    /// # Args
    /// - `redeem_script`: Script to unlock UTXO's (one of the multisig's scripts)
    /// - `utxos`: ([Vec]<[Utxo]>): A list of UTXO's to unlock
    /// - `outs`: ([Vec]<[TxOut]>): A list of outputs as a destination for unlocked funds
    /// # Returns
    /// A Partial Signed Bitcoin Transaction (PSBT) that contains the given UTXO's and outputs
    /// configured to be unlocked with the given redeem script.
    pub fn start_tx_spending(&self, redeem_script: Vec<u8>, utxos: Vec<Utxo>, outs: Vec<TxOut>) -> (psbt: Psbt)
        requires
            has_leaf(tree_leaves(self@.scripts), redeem_script@),
        ensures
            psbt.unsigned_tx.version == 2,
            psbt.unsigned_tx.lock_time == 0,
            psbt.unsigned_tx.output == outs,
            psbt.unsigned_tx.input@.len() == utxos@.len(),
            psbt.inputs@.len() == utxos@.len(),
            forall|i: int|
                0 <= i < utxos@.len() ==> unsigned_input(
                    #[trigger] psbt.unsigned_tx.input@[i],
                    utxos@[i],
                ),
            forall|i: int|
                0 <= i < utxos@.len() ==> script_spend_input(
                    #[trigger] psbt.inputs@[i],
                    utxos@[i],
                    self@,
                    redeem_script@,
                ),
    {
        proof {
            use_type_invariant(self);
        }
        let ghost utxos_view = utxos@;
        let ghost redeem = redeem_script@;
        let ghost outs_value = outs;

        let mut input: Vec<TxIn> = Vec::new();
        let mut i: usize = 0;
        while i < utxos.len()
            invariant
                i <= utxos@.len(),
                input@.len() == i,
                forall|k: int| 0 <= k < i ==> unsigned_input(#[trigger] input@[k], utxos@[k]),
            decreases utxos@.len() - i,
        {
            input.push(
                TxIn {
                    previous_output: utxos[i].outpoint,
                    script_sig: Vec::new(),
                    sequence: ENABLE_RBF_NO_LOCKTIME,
                    witness: Vec::new(),
                },
            );
            i = i + 1;
        }
        let unsigned_tx = Transaction { version: 2, input, output: outs, lock_time: 0 };
        proof {
            if has_signed_input(unsigned_tx.input@, unsigned_tx.input@.len() as int) {
                let k = choose|k: int|
                    0 <= k < unsigned_tx.input@.len() && ((
                    #[trigger] unsigned_tx.input@[k]).script_sig@.len() != 0
                        || unsigned_tx.input@[k].witness@.len() != 0);
                assert(unsigned_input(unsigned_tx.input@[k], utxos@[k]));
            }
        }

        let mut psbt = Psbt::from_unsigned_tx(unsigned_tx).unwrap();

        let control_block = self.script_tree.control_block(&self.internal_key, &redeem_script).unwrap();

        let mut j: usize = 0;
        while j < utxos.len()
            invariant
                j <= utxos@.len(),
                utxos@ == utxos_view,
                redeem_script@ == redeem,
                psbt.inputs@.len() == utxos@.len(),
                psbt.unsigned_tx.version == 2,
                psbt.unsigned_tx.lock_time == 0,
                psbt.unsigned_tx.output == outs_value,
                psbt.unsigned_tx.input@.len() == utxos@.len(),
                forall|k: int|
                    0 <= k < utxos@.len() ==> unsigned_input(
                        #[trigger] psbt.unsigned_tx.input@[k],
                        utxos@[k],
                    ),
                control_block_shape(control_block@, self@.internal_key),
                Some(control_block@) == huffman_control_block(
                    self@.internal_key,
                    tree_leaves(self@.scripts),
                    redeem,
                ),
                forall|k: int|
                    0 <= k < j ==> script_spend_input(
                        #[trigger] psbt.inputs@[k],
                        utxos@[k],
                        self@,
                        redeem,
                    ),
            decreases utxos@.len() - j,
        {
            let witness_utxo = TxOut { value: utxos[j].value, script_pubkey: self.address.script_pubkey() };
            let block = control_block.clone();
            let script = redeem_script.clone();
            proof {
                assert(block@ =~= control_block@);
                assert(script@ =~= redeem);
            }
            let mut tap_scripts: Vec<TapScript> = Vec::new();
            tap_scripts.push(TapScript { control_block: block, script, leaf_version: TAPSCRIPT_LEAF_VERSION });
            psbt.inputs.set(j, PsbtInput { witness_utxo: Some(witness_utxo), tap_scripts });
            j = j + 1;
        }
        psbt
    }
}


impl Clone for Multisig {
    fn clone(&self) -> (r: Self)
        ensures
            r@ == self@,
    {
        proof {
            use_type_invariant(self);
        }
        let multisig_scripts = self.scripts();
        let script_tree = self.script_tree.clone();
        proof {
            assert(multisig_scripts@.map_values(|s: MultisigScript| s@) == self@.scripts);
        }
        Multisig {
            address: self.address.clone(),
            multisig_scripts,
            internal_key: self.internal_key,
            script_tree,
            quorum: self.quorum,
            network: self.network,
        }
    }
}

// ---------------------------------------------------------------------------
// Laws
// ---------------------------------------------------------------------------

/// `g` is a group of `quorum` arbitrators at strictly increasing positions.
pub open spec fn is_arbitrator_group(arbitrators: Seq<PublicKey>, quorum: nat, g: Seq<PublicKey>) -> bool {
    exists|c: Seq<int>|
        #![trigger increasing_within(c, 0, arbitrators.len() as int)]
        c.len() == quorum && increasing_within(c, 0, arbitrators.len() as int) && g == c.map_values(
            |j: int| arbitrators[j],
        )
}

proof fn lemma_part_combinations_len(parts: Seq<PublicKey>, groups: Seq<Seq<PublicKey>>, count: nat)
    ensures
        part_combinations(parts, groups, count).len() == count * groups.len(),
    decreases count,
{
    if count > 0 {
        lemma_part_combinations_len(parts, groups, (count - 1) as nat);
        assert((count - 1) * groups.len() + groups.len() == count * groups.len())
            by (nonlinear_arith);
        assert(part_combinations(parts, groups, count).len() == part_combinations(
            parts,
            groups,
            (count - 1) as nat,
        ).len() + groups.len());
    } else {
        assert(count * groups.len() == 0) by (nonlinear_arith)
            requires
                count == 0,
        ;
    }
}

/// A multisig has one script for the parts' agreement and one for each part
/// with each group of `quorum` arbitrators: `1 + parts * C(arbitrators,
/// quorum)` scripts, and a single one when the quorum is zero.
pub proof fn law_script_count(parts: Seq<PublicKey>, arbitrators: Seq<PublicKey>, quorum: nat)
    ensures
        scripts_of(parts, arbitrators, quorum).len() == 1 + parts.len() * (if quorum == 0 {
            0
        } else {
            binomial(arbitrators.len(), quorum)
        }),
{
    let groups = arbitrator_groups(arbitrators, quorum);
    lemma_part_combinations_len(parts, groups, parts.len());
    if quorum > 0 {
        lemma_combinations_count(arbitrators.len() as int, 0, quorum);
    }
}

proof fn lemma_part_combinations_shape(
    parts: Seq<PublicKey>,
    arbitrators: Seq<PublicKey>,
    quorum: nat,
    count: nat,
)
    requires
        count <= parts.len(),
    ensures
        forall|t: int|
            0 <= t < part_combinations(parts, arbitrator_groups(arbitrators, quorum), count).len()
                ==> {
                let c = #[trigger] part_combinations(
                    parts,
                    arbitrator_groups(arbitrators, quorum),
                    count,
                )[t];
                &&& c.len() == quorum + 1
                &&& parts.contains(c[0])
                &&& is_arbitrator_group(arbitrators, quorum, c.drop_first())
            },
    decreases count,
{
    let groups = arbitrator_groups(arbitrators, quorum);
    if count > 0 {
        lemma_part_combinations_shape(parts, arbitrators, quorum, (count - 1) as nat);
        let before = part_combinations(parts, groups, (count - 1) as nat);
        let all = part_combinations(parts, groups, count);
        lemma_combinations_shape(arbitrators.len() as int, 0, quorum);
        assert forall|t: int| 0 <= t < all.len() implies {
            let c = #[trigger] all[t];
            &&& c.len() == quorum + 1
            &&& parts.contains(c[0])
            &&& is_arbitrator_group(arbitrators, quorum, c.drop_first())
        } by {
            if t >= before.len() {
                let m = t - before.len();
                let idx = index_combinations(arbitrators.len() as int, 0, quorum);
                assert(quorum > 0);
                assert(all[t] == seq![parts[count - 1]] + groups[m]);
                assert(groups[m] == idx[m].map_values(|j: int| arbitrators[j]));
                assert(all[t].drop_first() =~= groups[m]);
                assert(increasing_within(idx[m], 0, arbitrators.len() as int));
                assert(all[t][0] == parts[count - 1]);
            } else {
                assert(all[t] == before[t]);
            }
        }
    }
}

/// The first script asks for every part's signature and weighs 5; every
/// other script weighs 1 and asks for one part and a group of `quorum`
/// arbitrators, in the arbitrators' order; each script's leaf is the
/// multisig leaf of its keys.
pub proof fn law_script_shapes(parts: Seq<PublicKey>, arbitrators: Seq<PublicKey>, quorum: nat)
    ensures
        ({
            let s = scripts_of(parts, arbitrators, quorum);
            &&& s[0].combination == parts
            &&& s[0].weight == 5
            &&& forall|i: int|
                1 <= i < s.len() ==> {
                    &&& (#[trigger] s[i]).weight == 1
                    &&& s[i].combination.len() == quorum + 1
                    &&& parts.contains(s[i].combination[0])
                    &&& is_arbitrator_group(arbitrators, quorum, s[i].combination.drop_first())
                }
            &&& forall|i: int|
                0 <= i < s.len() ==> (#[trigger] s[i]).leaf == multisig_leaf(s[i].combination)
        }),
{
    let groups = arbitrator_groups(arbitrators, quorum);
    lemma_part_combinations_shape(parts, arbitrators, quorum, parts.len());
    let combos = key_combinations(parts, arbitrators, quorum);
    let s = scripts_of(parts, arbitrators, quorum);
    assert forall|i: int| 1 <= i < s.len() implies {
        &&& (#[trigger] s[i]).weight == 1
        &&& s[i].combination.len() == quorum + 1
        &&& parts.contains(s[i].combination[0])
        &&& is_arbitrator_group(arbitrators, quorum, s[i].combination.drop_first())
    } by {
        assert(s[i].combination == combos[i]);
        assert(combos[i] == part_combinations(parts, groups, parts.len())[i - 1]);
    }
}

proof fn lemma_part_combinations_at(
    parts: Seq<PublicKey>,
    groups: Seq<Seq<PublicKey>>,
    count: nat,
    p: int,
    m: int,
)
    requires
        0 <= p < count,
        0 <= m < groups.len(),
    ensures
        p * groups.len() + m < part_combinations(parts, groups, count).len(),
        part_combinations(parts, groups, count)[p * groups.len() + m] == seq![parts[p]]
            + groups[m],
    decreases count,
{
    let g = groups.len() as int;
    lemma_part_combinations_len(parts, groups, count);
    lemma_part_combinations_len(parts, groups, (count - 1) as nat);
    let before = part_combinations(parts, groups, (count - 1) as nat);
    if p == count - 1 {
        assert(p * g + m == before.len() + m) by (nonlinear_arith)
            requires
                p == count - 1,
                before.len() == (count - 1) * g,
        ;
        assert(p * g + m < count * g) by (nonlinear_arith)
            requires
                p == count - 1,
                m < g,
        ;
    } else {
        lemma_part_combinations_at(parts, groups, (count - 1) as nat, p, m);
        assert(p * g + m < count * g) by (nonlinear_arith)
            requires
                p < count - 1,
                0 <= m < g,
        ;
    }
}

/// Every part with every group of `quorum` arbitrators has its script, at
/// position `1 + p * groups + m`.
pub proof fn law_every_part_group_has_script(
    parts: Seq<PublicKey>,
    arbitrators: Seq<PublicKey>,
    quorum: nat,
    p: int,
    m: int,
)
    requires
        0 <= p < parts.len(),
        0 <= m < arbitrator_groups(arbitrators, quorum).len(),
    ensures
        ({
            let g = arbitrator_groups(arbitrators, quorum);
            let s = scripts_of(parts, arbitrators, quorum);
            &&& 1 + p * g.len() + m < s.len()
            &&& s[1 + p * g.len() + m].combination == seq![parts[p]] + g[m]
        }),
{
    let groups = arbitrator_groups(arbitrators, quorum);
    lemma_part_combinations_at(parts, groups, parts.len(), p, m);
}

/// Building a multisig is deterministic: the same data gives the same
/// multisig, address included.
pub proof fn law_deterministic(m1: MultisigModel, m2: MultisigModel, data: MultisigData)
    requires
        built_from(m1, data),
        built_from(m2, data),
    ensures
        m1 == m2,
{
}

/// Every script of a multisig is a leaf of its script tree, so any of them
/// can redeem in `start_tx_spending`.
pub proof fn law_every_script_spendable(m: MultisigModel, i: int)
    requires
        0 <= i < m.scripts.len(),
    ensures
        has_leaf(tree_leaves(m.scripts), m.scripts[i].leaf),
{
    assert(tree_leaves(m.scripts)[i].1 == m.scripts[i].leaf);
}

/// Multisigs of the same parts, arbitrators and quorum have the same scripts
/// and the same script tree, whatever their internal keys and networks; with
/// the same internal key too, they pay to the same script pubkey, and only
/// the address text can differ, by network.
pub proof fn law_same_contract_same_tree(
    m1: MultisigModel,
    m2: MultisigModel,
    d1: MultisigData,
    d2: MultisigData,
)
    requires
        built_from(m1, d1),
        built_from(m2, d2),
        d1.parts@ == d2.parts@,
        d1.arbitrators@ == d2.arbitrators@,
        d1.quorum == d2.quorum,
    ensures
        m1.scripts == m2.scripts,
        m1.merkle_root == m2.merkle_root,
        d1.internal_pubkey@ == d2.internal_pubkey@ ==> m1.address.1 == m2.address.1,
{
    assert(data_scripts(d1) == data_scripts(d2));
    if d1.internal_pubkey@ == d2.internal_pubkey@ {
        let key = x_only_of(d1.internal_pubkey@);
        assert(p2tr_address(key, m1.merkle_root, d2.network).1 == m1.address.1);
    }
}

/// The script tree of a multisig is made of its scripts' own weights and
/// leaves, one for one and in order.
pub proof fn law_tree_leaves_one_for_one(scripts: Seq<ScriptModel>)
    ensures
        tree_leaves(scripts).len() == scripts.len(),
        forall|i: int|
            0 <= i < scripts.len() ==> #[trigger] tree_leaves(scripts)[i] == (
            scripts[i].weight as u32,
            scripts[i].leaf,
        ),
{
}

/// The merkle root of a multisig is the Huffman root of its scripts' own
/// weights and leaves, in order.
pub proof fn law_root_of_own_leaves(m: MultisigModel, data: MultisigData)
    requires
        built_from(m, data),
    ensures
        huffman_merkle_root(
            data_scripts(data).map_values(|s: ScriptModel| (s.weight as u32, s.leaf)),
        ) == Some(m.merkle_root),
        m.scripts == data_scripts(data),
{
    let scripts = data_scripts(data);
    law_tree_leaves_one_for_one(scripts);
    assert(tree_leaves(scripts) =~= scripts.map_values(
        |s: ScriptModel| (s.weight as u32, s.leaf),
    ));
}

/// In the script tree of a multisig, the first leaf is the parts'
/// agreement script and it is the only one of weight 5; every other leaf
/// weighs 1.
pub proof fn law_parts_leaf_is_the_heavy_one(data: MultisigData)
    ensures
        tree_leaves(data_scripts(data)).len() >= 1,
        tree_leaves(data_scripts(data))[0] == (5u32, multisig_leaf(data.parts@)),
        forall|i: int|
            1 <= i < tree_leaves(data_scripts(data)).len() ==> (#[trigger] tree_leaves(
                data_scripts(data),
            )[i]).0 == 1,
{
    let scripts = data_scripts(data);
    lemma_some_script(data);
    law_tree_leaves_one_for_one(scripts);
    law_script_shapes(data.parts@, data.arbitrators@, data.quorum as nat);
    assert forall|i: int| 1 <= i < tree_leaves(scripts).len() implies (#[trigger] tree_leaves(
        scripts,
    )[i]).0 == 1 by {
        assert(scripts[i].weight == 1);
    }
}

} // verus!
