use pls_bitcoin_lib::multisig::{Multisig, MultisigData, Utxo};
use pls_bitcoin_lib::script::multisig_leaf_script;
use pls_bitcoin_lib::transaction::PsbtError;
use pls_bitcoin_lib::{utils, Address, Network, OutPoint, Psbt, PublicKey, TapTree, Transaction, TxIn, TxOut};

use bitcoin::secp256k1::{Secp256k1, SecretKey};

const README_PARTS: [&str; 2] = [
    "02b55f16363d70ae5034cc39554e8ce151254ab380bed2029cc7344807c22e6c1b",
    "038677177e7ce4f8090f07661ac39636e4ea921bf28f7e45ba24dcf6ea56aa5f97",
];
const README_ARBITRATOR: &str = "03017f1ce0d34892be7e930c8eea77f54ce300386dea5e883bf1da60f47d64f547";
const README_INTERNAL: &str = "03af0c7e8b8cf586f762ce1377a51fc6b7228a9caed4a5dcb43b180acf6824f7c9";

fn secp_key(hex: &str) -> bitcoin::secp256k1::PublicKey {
    hex.parse::<bitcoin::secp256k1::PublicKey>().unwrap()
}

fn lib_key(hex: &str) -> PublicKey {
    PublicKey::from_slice(&secp_key(hex).serialize()).unwrap()
}

fn key_from_secret(byte: u8) -> PublicKey {
    let secp = Secp256k1::new();
    let secret = SecretKey::from_slice(&[byte; 32]).unwrap();
    let key = bitcoin::secp256k1::PublicKey::from_secret_key(&secp, &secret);
    PublicKey::from_slice(&key.serialize()).unwrap()
}

fn readme_data() -> MultisigData {
    MultisigData {
        parts: README_PARTS.iter().map(|k| lib_key(k)).collect(),
        arbitrators: vec![lib_key(README_ARBITRATOR)],
        quorum: 1,
        internal_pubkey: lib_key(README_INTERNAL),
        network: Network::Regtest,
    }
}

fn bitcoin_script(keys: &[PublicKey]) -> Vec<u8> {
    let mut builder = bitcoin::script::Builder::new();
    for (i, key) in keys.iter().enumerate() {
        let secp = bitcoin::secp256k1::PublicKey::from_slice(&key.serialize()).unwrap();
        builder = builder.push_x_only_key(&secp.x_only_public_key().0);
        builder = builder.push_opcode(if i == 0 {
            bitcoin::opcodes::all::OP_CHECKSIG
        } else {
            bitcoin::opcodes::all::OP_CHECKSIGADD
        });
    }
    builder = builder.push_int(keys.len() as i64);
    builder = builder.push_opcode(bitcoin::opcodes::all::OP_NUMEQUAL);
    builder.into_bytes()
}

#[test]
fn combine_lists_pairs_in_lexicographic_order() {
    let result = utils::combine(&[1, 2, 3, 4], 2);
    assert_eq!(
        result,
        vec![vec![1, 2], vec![1, 3], vec![1, 4], vec![2, 3], vec![2, 4], vec![3, 4]]
    );
}

#[test]
fn combine_of_size_zero_is_empty() {
    let result: Vec<Vec<u8>> = utils::combine(&[1u8, 2, 3], 0);
    assert!(result.is_empty());
}

#[test]
fn combine_larger_than_items_is_empty() {
    let result = utils::combine(&['a', 'b'], 3);
    assert!(result.is_empty());
}

#[test]
fn combine_of_all_items_is_one_combination() {
    let result = utils::combine(&["x", "y", "z"], 3);
    assert_eq!(result, vec![vec!["x", "y", "z"]]);
}

#[test]
fn combine_count_is_binomial() {
    let items: Vec<u32> = (0..6).collect();
    assert_eq!(utils::combine(&items, 3).len(), 20);
    assert_eq!(utils::combine(&items, 1).len(), 6);
    assert_eq!(utils::combine(&items, 6).len(), 1);
}

#[test]
fn combine_from_empty_items() {
    let items: Vec<u32> = Vec::new();
    assert!(utils::combine(&items, 1).is_empty());
}

#[test]
fn public_key_parses_compressed_and_uncompressed() {
    let secp = secp_key(README_PARTS[0]);
    let from_compressed = PublicKey::from_slice(&secp.serialize()).unwrap();
    let from_uncompressed = PublicKey::from_slice(&secp.serialize_uncompressed()).unwrap();
    assert_eq!(from_compressed.serialize(), secp.serialize());
    assert_eq!(from_uncompressed.serialize(), secp.serialize());
}

#[test]
fn public_key_refuses_garbage() {
    assert!(PublicKey::from_slice(&[]).is_none());
    assert!(PublicKey::from_slice(&[5u8; 33]).is_none());
    assert!(PublicKey::from_slice(&[2u8; 12]).is_none());
}

#[test]
fn x_only_key_matches_secp256k1() {
    let secp = secp_key(README_INTERNAL);
    let key = lib_key(README_INTERNAL);
    assert_eq!(key.x_only_public_key().serialize(), secp.x_only_public_key().0.serialize());
    assert_ne!(key.x_only_public_key().serialize().to_vec(), key.serialize().to_vec());
    assert_eq!(key.x_only_public_key().serialize()[..], key.serialize()[1..33]);
}

#[test]
fn leaf_script_of_one_key() {
    let key = lib_key(README_ARBITRATOR);
    let script = multisig_leaf_script(&vec![key]);
    let mut expected = vec![0x20u8];
    expected.extend_from_slice(&key.x_only_public_key().serialize());
    expected.push(0xac);
    expected.push(0x51);
    expected.push(0x9c);
    assert_eq!(script, expected);
    assert_eq!(script, bitcoin_script(&[key]));
}

#[test]
fn leaf_script_of_two_keys() {
    let a = lib_key(README_PARTS[0]);
    let b = lib_key(README_PARTS[1]);
    let script = multisig_leaf_script(&vec![a, b]);
    let mut expected = vec![0x20u8];
    expected.extend_from_slice(&a.x_only_public_key().serialize());
    expected.push(0xac);
    expected.push(0x20);
    expected.extend_from_slice(&b.x_only_public_key().serialize());
    expected.push(0xba);
    expected.push(0x52);
    expected.push(0x9c);
    assert_eq!(script, expected);
}

#[test]
fn leaf_script_of_seventeen_keys_pushes_the_count_as_data() {
    let keys: Vec<PublicKey> = (1..=17u8).map(key_from_secret).collect();
    let script = multisig_leaf_script(&keys);
    assert_eq!(script.len(), 17 * 34 + 2 + 1);
    assert_eq!(&script[17 * 34..], &[0x01, 0x11, 0x9c]);
    assert_eq!(script, bitcoin_script(&keys));
}

#[test]
fn readme_example_address() {
    let multisig = Multisig::new(readme_data());
    assert_eq!(
        multisig.address().to_string(),
        "bcrt1pu0z0pwk4jn3naucadmr8gz9eh2xd3ts5shkat9vkslkms44hpavsvcdleq"
    );
}

#[test]
fn readme_example_scripts() {
    let data = readme_data();
    let multisig = Multisig::new(data.clone());
    let scripts = multisig.scripts();
    assert_eq!(scripts.len(), 3);
    assert_eq!(scripts[0].combination, data.parts);
    assert_eq!(scripts[0].weight, 5);
    assert_eq!(scripts[1].combination, vec![data.parts[0], data.arbitrators[0]]);
    assert_eq!(scripts[1].weight, 1);
    assert_eq!(scripts[2].combination, vec![data.parts[1], data.arbitrators[0]]);
    assert_eq!(scripts[2].weight, 1);
    for script in scripts.iter() {
        assert_eq!(script.leaf, bitcoin_script(&script.combination));
    }
    let leaves = multisig.script_tree().leaves();
    assert_eq!(leaves.len(), 3);
    assert_eq!(leaves[0], (5, scripts[0].leaf.clone()));
    assert_eq!(leaves[2], (1, scripts[2].leaf.clone()));
}

#[test]
fn same_data_gives_same_address() {
    let first = Multisig::new(readme_data());
    let second = Multisig::new(readme_data());
    assert_eq!(first.address(), second.address());
    let copy = first.clone();
    assert_eq!(copy.address(), first.address());
    assert_eq!(copy.scripts().len(), first.scripts().len());
    assert_eq!(first.script_tree().root_hash(), second.script_tree().root_hash());
}

#[test]
fn network_changes_only_the_address_text() {
    let mut data = readme_data();
    data.network = Network::Bitcoin;
    let mainnet = Multisig::new(data);
    let regtest = Multisig::new(readme_data());
    assert!(mainnet.address().to_string().starts_with("bc1p"));
    assert!(regtest.address().to_string().starts_with("bcrt1p"));
    assert_eq!(mainnet.address().script_pubkey(), regtest.address().script_pubkey());
    assert_eq!(mainnet.scripts().len(), regtest.scripts().len());
    assert_eq!(mainnet.script_tree().root_hash(), regtest.script_tree().root_hash());
}

#[test]
fn quorum_zero_leaves_only_the_parts_agreement() {
    let mut data = readme_data();
    data.quorum = 0;
    let multisig = Multisig::new(data.clone());
    assert_eq!(multisig.scripts().len(), 1);
    assert_eq!(multisig.scripts()[0].combination, data.parts);
    assert_eq!(multisig.quorum(), 0);
}

#[test]
fn quorum_above_arbitrators_leaves_only_the_parts_agreement() {
    let mut data = readme_data();
    data.quorum = 2;
    let multisig = Multisig::new(data);
    assert_eq!(multisig.scripts().len(), 1);
}

#[test]
fn script_count_with_two_of_three_arbitrators() {
    let data = MultisigData {
        parts: vec![key_from_secret(1), key_from_secret(2), key_from_secret(3)],
        arbitrators: vec![key_from_secret(4), key_from_secret(5), key_from_secret(6)],
        quorum: 2,
        internal_pubkey: key_from_secret(7),
        network: Network::Testnet,
    };
    let multisig = Multisig::new(data.clone());
    let scripts = multisig.scripts();
    assert_eq!(scripts.len(), 1 + 3 * 3);
    assert_eq!(scripts[1 + 3 + 2].combination, vec![data.parts[1], data.arbitrators[1], data.arbitrators[2]]);
}

#[test]
fn try_new_builds_what_new_builds() {
    let built = Multisig::try_new(readme_data()).unwrap();
    assert_eq!(built.address(), Multisig::new(readme_data()).address());
}

#[test]
fn internal_key_and_address_match_bitcoin() {
    let secp = Secp256k1::new();
    let multisig = Multisig::new(readme_data());
    let internal = secp_key(README_INTERNAL).x_only_public_key().0;
    assert_eq!(multisig.internal_key().serialize(), internal.serialize());
    let leaves = multisig.script_tree().leaves();
    let builder = bitcoin::taproot::TaprootBuilder::with_huffman_tree(
        leaves.iter().map(|(w, s)| (*w, bitcoin::ScriptBuf::from_bytes(s.clone()))),
    )
    .unwrap();
    let tree = bitcoin::taproot::TapTree::try_from(builder).unwrap();
    let address = bitcoin::Address::p2tr(&secp, internal, Some(tree.root_hash()), bitcoin::Network::Regtest);
    assert_eq!(address.to_string(), multisig.address().to_string());
    assert_eq!(address.script_pubkey().into_bytes(), multisig.address().script_pubkey());
    let own = Address::p2tr(
        &multisig.internal_key(),
        &multisig.script_tree().root_hash(),
        Network::Regtest,
    );
    assert_eq!(own, multisig.address());
}

#[test]
fn tap_tree_of_no_leaves_is_none() {
    assert!(TapTree::with_huffman_tree(Vec::new()).is_none());
}

#[test]
fn tap_tree_control_block_only_for_leaves() {
    let multisig = Multisig::new(readme_data());
    let tree = multisig.script_tree();
    let internal = multisig.internal_key();
    for script in multisig.scripts() {
        assert!(tree.control_block(&internal, &script.leaf).is_some());
    }
    assert!(tree.control_block(&internal, &vec![0x51]).is_none());
}

fn spending_utxos() -> Vec<Utxo> {
    vec![
        Utxo { outpoint: OutPoint { txid: [1u8; 32], vout: 0 }, value: 50_000 },
        Utxo { outpoint: OutPoint { txid: [2u8; 32], vout: 3 }, value: 50_000 },
    ]
}

fn spending_outs() -> Vec<TxOut> {
    vec![TxOut { value: 99_800, script_pubkey: vec![0x00, 0x14, 7, 7, 7] }]
}

#[test]
fn start_tx_spending_builds_the_psbt() {
    let multisig = Multisig::new(readme_data());
    let redeem = multisig.scripts()[0].leaf.clone();
    let psbt = multisig.start_tx_spending(redeem.clone(), spending_utxos(), spending_outs());

    assert_eq!(psbt.unsigned_tx.version, 2);
    assert_eq!(psbt.unsigned_tx.lock_time, 0);
    assert_eq!(psbt.unsigned_tx.output.len(), 1);
    assert_eq!(psbt.unsigned_tx.output[0].value, 99_800);
    assert_eq!(psbt.unsigned_tx.input.len(), 2);
    assert_eq!(psbt.unsigned_tx.input[1].previous_output, OutPoint { txid: [2u8; 32], vout: 3 });
    assert_eq!(psbt.unsigned_tx.input[0].sequence, 0xFFFF_FFFD);
    assert!(psbt.unsigned_tx.input[0].script_sig.is_empty());
    assert!(psbt.unsigned_tx.input[0].witness.is_empty());

    assert_eq!(psbt.inputs.len(), 2);
    let secp = Secp256k1::new();
    let leaves = multisig.script_tree().leaves();
    let internal = secp_key(README_INTERNAL).x_only_public_key().0;
    let info = bitcoin::taproot::TaprootSpendInfo::with_huffman_tree(
        &secp,
        internal,
        leaves.iter().map(|(w, s)| (*w, bitcoin::ScriptBuf::from_bytes(s.clone()))),
    )
    .unwrap();
    let control_block = info
        .control_block(&(bitcoin::ScriptBuf::from_bytes(redeem.clone()), bitcoin::taproot::LeafVersion::TapScript))
        .unwrap()
        .serialize();
    for input in psbt.inputs.iter() {
        let utxo = input.witness_utxo.as_ref().unwrap();
        assert_eq!(utxo.value, 50_000);
        assert_eq!(utxo.script_pubkey, multisig.address().script_pubkey());
        assert_eq!(input.tap_scripts.len(), 1);
        assert_eq!(input.tap_scripts[0].control_block, control_block);
        let block = &input.tap_scripts[0].control_block;
        assert!(block[0] == 0xc0 || block[0] == 0xc1);
        assert_eq!(block[1..33], internal.serialize()[..]);
        assert_eq!((block.len() - 33) % 32, 0);
        assert_eq!(input.tap_scripts[0].script, redeem);
        assert_eq!(input.tap_scripts[0].leaf_version, 0xc0);
    }
}

#[test]
fn start_tx_spending_with_an_arbitrator_script() {
    let multisig = Multisig::new(readme_data());
    let redeem = multisig.scripts()[2].leaf.clone();
    let psbt = multisig.start_tx_spending(redeem.clone(), spending_utxos(), spending_outs());
    assert_eq!(psbt.inputs[0].tap_scripts[0].script, redeem);
    let first = multisig.start_tx_spending(multisig.scripts()[0].leaf.clone(), spending_utxos(), spending_outs());
    assert_ne!(psbt.inputs[0].tap_scripts[0].control_block, first.inputs[0].tap_scripts[0].control_block);
}

#[test]
fn start_tx_spending_without_utxos() {
    let multisig = Multisig::new(readme_data());
    let psbt = multisig.start_tx_spending(multisig.scripts()[1].leaf.clone(), Vec::new(), spending_outs());
    assert!(psbt.inputs.is_empty());
    assert!(psbt.unsigned_tx.input.is_empty());
}

fn input(script_sig: Vec<u8>, witness: Vec<Vec<u8>>) -> TxIn {
    TxIn {
        previous_output: OutPoint { txid: [0u8; 32], vout: 1 },
        script_sig,
        sequence: 0xFFFF_FFFF,
        witness,
    }
}

#[test]
fn psbt_from_unsigned_tx() {
    let tx = Transaction { version: 2, lock_time: 0, input: vec![input(vec![], vec![])], output: vec![] };
    let psbt = Psbt::from_unsigned_tx(tx).unwrap();
    assert_eq!(psbt.inputs.len(), 1);
    assert!(psbt.inputs[0].witness_utxo.is_none());
    assert!(psbt.inputs[0].tap_scripts.is_empty());
}

#[test]
fn psbt_refuses_script_sigs() {
    let tx = Transaction {
        version: 2,
        lock_time: 0,
        input: vec![input(vec![], vec![]), input(vec![0x51], vec![vec![1]])],
        output: vec![],
    };
    assert_eq!(Psbt::from_unsigned_tx(tx).unwrap_err(), PsbtError::UnsignedTxHasScriptSigs);
}

#[test]
fn psbt_refuses_witnesses() {
    let tx = Transaction {
        version: 2,
        lock_time: 0,
        input: vec![input(vec![], vec![vec![1]]), input(vec![0x51], vec![])],
        output: vec![],
    };
    assert_eq!(Psbt::from_unsigned_tx(tx).unwrap_err(), PsbtError::UnsignedTxHasScriptWitnesses);
}

#[test]
fn consuming_getters() {
    let multisig = Multisig::new(readme_data());
    let address = multisig.address();
    let scripts = multisig.scripts();
    assert_eq!(multisig.clone().get_address(), address);
    let taken = multisig.get_multisig_scripts();
    assert_eq!(taken.len(), scripts.len());
    assert_eq!(taken[2].leaf, scripts[2].leaf);
}

#[test]
fn new_builds_hundreds_of_scripts() {
    let data = MultisigData {
        parts: (1..=3u8).map(key_from_secret).collect(),
        arbitrators: (4..=13u8).map(key_from_secret).collect(),
        quorum: 4,
        internal_pubkey: key_from_secret(20),
        network: Network::Signet,
    };
    let multisig = Multisig::new(data);
    assert_eq!(multisig.scripts().len(), 1 + 3 * 210);
    assert!(multisig.address().to_string().starts_with("tb1p"));
}
