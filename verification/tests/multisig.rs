use std::vec;

use bitcoin::secp256k1::Message;
use bitcoin::sighash::{Prevouts, SighashCache};
use bitcoin::taproot::{self, LeafVersion};
use bitcoin::{Amount, TapLeafHash, TapSighashType, Witness};
use pls_bitcoin_lib::multisig::Utxo;
use pls_bitcoin_lib::{OutPoint, TxOut};

use pls_bitcoin_lib::multisig::{Multisig, MultisigData};
use pls_bitcoin_lib::{utils, Network, PublicKey};

use bitcoin::key::rand::thread_rng;
use bitcoin::key::Keypair;
use bitcoin::script::Builder;
use bitcoin::secp256k1::{Secp256k1, SecretKey};
use bitcoin::taproot::{TapTree, TaprootBuilder};
use bitcoin::{opcodes, Address, ScriptBuf, XOnlyPublicKey};

fn to_lib_key(key: &bitcoin::secp256k1::PublicKey) -> PublicKey {
    PublicKey::from_slice(&key.serialize()).unwrap()
}

fn to_secp_key(key: &PublicKey) -> bitcoin::secp256k1::PublicKey {
    bitcoin::secp256k1::PublicKey::from_slice(&key.serialize()).unwrap()
}

#[test]
fn it_verifies_multisig_creation() {
    let secp = Secp256k1::new();

    let rng = &mut thread_rng();

    let mut parts: Vec<Keypair> = Vec::new();

    for _ in 0..2 {
        let secret_key = SecretKey::new(rng);
        let keypair = Keypair::from_secret_key(&secp, &secret_key);

        println!("part public key: {}", keypair.public_key().to_string());

        parts.push(keypair);
    }

    let secret_key = SecretKey::new(rng);
    let keypair = Keypair::from_secret_key(&secp, &secret_key);

    println!(
        "arbitrator public key: {}",
        keypair.public_key().to_string()
    );

    let arbitrators: Vec<Keypair> = vec![keypair];

    let secret_key = SecretKey::new(rng);
    let internal_pubkey = Keypair::from_secret_key(&secp, &secret_key).public_key();

    println!("internal pubkey: {}", internal_pubkey.to_string());

    let network = Network::Regtest;
    let quorum = 1;

    let multisig = Multisig::new(MultisigData {
        parts: parts.iter().map(|part| to_lib_key(&part.public_key())).collect(),
        quorum,
        arbitrators: arbitrators
            .iter()
            .map(|arbitrator| to_lib_key(&arbitrator.public_key()))
            .collect(),
        internal_pubkey: to_lib_key(&internal_pubkey),
        network,
    });

    assert_eq!(network, multisig.network());

    assert_eq!(quorum, multisig.quorum());

    assert_eq!(
        internal_pubkey.x_only_public_key().0.serialize(),
        multisig.internal_key().serialize(),
    );

    let mut combinations: Vec<Vec<Keypair>> = vec![parts.clone()];

    parts.clone().into_iter().for_each(|part| {
        let mut arbitrators_combinations = utils::combine(&arbitrators, quorum);

        arbitrators_combinations.iter_mut().for_each(|combination| {
            let mut new_combination = vec![part];
            new_combination.append(combination);

            combinations.push(new_combination);
        });
    });

    let combinations_pubkeys: Vec<Vec<bitcoin::secp256k1::PublicKey>> = combinations
        .iter()
        .map(|combination| {
            combination
                .iter()
                .map(|keypair| bitcoin::secp256k1::PublicKey::from_secret_key(&secp, &keypair.secret_key()))
                .collect()
        })
        .collect();
    let multisig_combinations_pubkeys: Vec<Vec<bitcoin::secp256k1::PublicKey>> = multisig
        .scripts()
        .iter()
        .map(|script| script.combination.iter().map(to_secp_key).collect())
        .collect();

    assert_eq!(combinations_pubkeys, multisig_combinations_pubkeys);

    let mut scripts: Vec<ScriptBuf> = Vec::new();

    combinations.iter().for_each(|combination| {
        let mut builder = Builder::new();

        let mut first_combination = true;

        for key in combination.iter() {
            let xonly_key = XOnlyPublicKey::from_keypair(key).0;

            builder = builder.push_x_only_key(&xonly_key);

            builder = builder.push_opcode(if first_combination {
                opcodes::all::OP_CHECKSIG
            } else {
                opcodes::all::OP_CHECKSIGADD
            });

            first_combination = false;
        }

        builder = builder.push_int(combination.len() as i64);

        builder = builder.push_opcode(opcodes::all::OP_NUMEQUAL);

        let script = builder.into_script();

        scripts.push(script);
    });

    let multisig_scripts = multisig.scripts();

    assert_eq!(scripts.len(), multisig_scripts.len());

    multisig_scripts
        .iter()
        .enumerate()
        .for_each(|(i, multisig_script)| {
            let script = scripts[i].clone();

            let multisig_combination_is_parts = multisig_script.combination.iter().all(|key| {
                let pubkeys = parts
                    .clone()
                    .iter()
                    .map(|keypair| keypair.public_key())
                    .collect::<Vec<bitcoin::secp256k1::PublicKey>>();
                pubkeys.contains(&to_secp_key(key))
            });

            assert_eq!(
                script.to_asm_string(),
                ScriptBuf::from_bytes(multisig_script.leaf.clone()).to_asm_string()
            );
            assert_eq!(
                if multisig_combination_is_parts { 5 } else { 1 },
                multisig_script.weight
            );

            let combination: Vec<bitcoin::secp256k1::PublicKey> = combinations[i]
                .clone()
                .iter()
                .map(|keypair| keypair.public_key())
                .collect();

            let multisig_combination: Vec<bitcoin::secp256k1::PublicKey> =
                multisig_script.combination.iter().map(to_secp_key).collect();

            assert_eq!(combination, multisig_combination);
        });

    let script_tree = TapTree::try_from(
        TaprootBuilder::with_huffman_tree(
            scripts
                .iter()
                .enumerate()
                .map(|(i, script)| ((if i == 0 { 5 } else { 1 }), script.clone())),
        )
        .unwrap(),
    )
    .unwrap();

    assert_eq!(
        bitcoin::hashes::Hash::to_byte_array(script_tree.root_hash()),
        multisig.script_tree().root_hash()
    );

    let address = Address::p2tr(
        &secp,
        internal_pubkey.x_only_public_key().0,
        Some(script_tree.root_hash()),
        bitcoin::Network::Regtest,
    );

    assert_eq!(address.to_string(), multisig.address().to_string());

    println!("Bitcoin address: {}", multisig.address().to_string());
}

fn to_bitcoin_tx_out(out: &TxOut) -> bitcoin::TxOut {
    bitcoin::TxOut {
        value: bitcoin::Amount::from_sat(out.value),
        script_pubkey: ScriptBuf::from_bytes(out.script_pubkey.clone()),
    }
}

fn to_bitcoin_psbt(psbt: &pls_bitcoin_lib::Psbt) -> bitcoin::Psbt {
    let tx = &psbt.unsigned_tx;
    let unsigned_tx = bitcoin::Transaction {
        version: bitcoin::transaction::Version(tx.version),
        lock_time: bitcoin::absolute::LockTime::from_consensus(tx.lock_time),
        input: tx
            .input
            .iter()
            .map(|input| bitcoin::TxIn {
                previous_output: bitcoin::OutPoint {
                    txid: bitcoin::hashes::Hash::from_byte_array(input.previous_output.txid),
                    vout: input.previous_output.vout,
                },
                script_sig: ScriptBuf::from_bytes(input.script_sig.clone()),
                sequence: bitcoin::Sequence(input.sequence),
                witness: bitcoin::Witness::from_slice(&input.witness),
            })
            .collect(),
        output: tx.output.iter().map(to_bitcoin_tx_out).collect(),
    };
    let mut result = bitcoin::Psbt::from_unsigned_tx(unsigned_tx).unwrap();
    for (target, input) in result.inputs.iter_mut().zip(psbt.inputs.iter()) {
        target.witness_utxo = input.witness_utxo.as_ref().map(to_bitcoin_tx_out);
        for tap_script in input.tap_scripts.iter() {
            target.tap_scripts.insert(
                bitcoin::taproot::ControlBlock::decode(&tap_script.control_block).unwrap(),
                (
                    ScriptBuf::from_bytes(tap_script.script.clone()),
                    bitcoin::taproot::LeafVersion::from_consensus(tap_script.leaf_version).unwrap(),
                ),
            );
        }
    }
    result
}

#[test]
fn it_spends_multisig_values() {
    let secp = Secp256k1::new();
    let rng = &mut thread_rng();

    let mut parts_keypairs: Vec<Keypair> = Vec::new();

    for _ in 0..2 {
        let secret_key = SecretKey::new(rng);
        let keypair = Keypair::from_secret_key(&secp, &secret_key);

        parts_keypairs.push(keypair);
    }

    let secret_key = SecretKey::new(rng);
    let keypair = Keypair::from_secret_key(&secp, &secret_key);

    let arbitrators: Vec<Keypair> = vec![keypair];

    let secret_key = SecretKey::new(rng);
    let internal_pubkey = Keypair::from_secret_key(&secp, &secret_key).public_key();

    let network = Network::Regtest;
    let quorum = 1;

    let multisig = Multisig::new(MultisigData {
        parts: parts_keypairs.iter().map(|part| to_lib_key(&part.public_key())).collect(),
        quorum,
        arbitrators: arbitrators
            .iter()
            .map(|arbitrator| to_lib_key(&arbitrator.public_key()))
            .collect(),
        internal_pubkey: to_lib_key(&internal_pubkey),
        network,
    });

    // Funds sent to the multisig address by an earlier transaction.
    let funding_value: u64 = 100_000;
    let utxos = vec![Utxo {
        value: funding_value,
        outpoint: OutPoint { txid: [7u8; 32], vout: 1 },
    }];

    let redeem_script = multisig
        .scripts()
        .into_iter()
        .find(|script| {
            let found_keys: Vec<PublicKey> = script
                .combination
                .clone()
                .into_iter()
                .filter(|key| {
                    parts_keypairs
                        .iter()
                        .find(|part| to_lib_key(&part.public_key()) == *key)
                        .is_some()
                })
                .collect();

            return found_keys.len() == parts_keypairs.len();
        })
        .unwrap();

    let redeemer_private_key = bitcoin::PrivateKey::new(parts_keypairs[0].secret_key(), bitcoin::Network::Regtest);
    let redeemer = redeemer_private_key.public_key(&secp);

    let redeemer_address = Address::p2pkh(redeemer.pubkey_hash(), bitcoin::Network::Regtest);

    let outs = vec![TxOut {
        value: funding_value - 200,
        script_pubkey: redeemer_address.script_pubkey().into_bytes(),
    }];

    let library_psbt = multisig.start_tx_spending(redeem_script.leaf.clone(), utxos.clone(), outs);
    let mut psbt = to_bitcoin_psbt(&library_psbt);

    let unsigned_tx = psbt.unsigned_tx.clone();
    let mut sighash_cache = SighashCache::new(unsigned_tx);

    let leaf_script = ScriptBuf::from_bytes(redeem_script.leaf.clone());
    let leaf_hash = TapLeafHash::from_script(leaf_script.as_script(), LeafVersion::TapScript);

    let multisig_script_pubkey = ScriptBuf::from_bytes(multisig.address().script_pubkey());
    let prevouts: Vec<bitcoin::TxOut> = utxos
        .iter()
        .map(|utxo| bitcoin::TxOut {
            value: Amount::from_sat(utxo.value),
            script_pubkey: multisig_script_pubkey.clone(),
        })
        .collect();

    for i in 0..psbt.inputs.len() {
        let sighash = sighash_cache
            .taproot_script_spend_signature_hash(
                i,
                &Prevouts::All(&prevouts),
                leaf_hash,
                TapSighashType::Default,
            )
            .unwrap();
        let message = Message::from(sighash);

        for keypair in parts_keypairs.iter() {
            let signature = secp.sign_schnorr(&message, keypair);

            let (xonly_key, _) = keypair.x_only_public_key();
            assert!(secp.verify_schnorr(&signature, &message, &xonly_key).is_ok());

            let final_signature = taproot::Signature {
                signature,
                sighash_type: TapSighashType::Default,
            };

            psbt.inputs[i]
                .tap_script_sigs
                .insert((xonly_key, leaf_hash), final_signature);
        }
    }

    let is_completed = parts_keypairs.iter().all(|keypair| {
        let (xonly, _) = keypair.x_only_public_key();

        psbt.inputs
            .clone()
            .iter()
            .all(|input| input.tap_script_sigs.contains_key(&(xonly, leaf_hash)))
    });

    assert!(is_completed);

    // The multisig's output key, from its script pubkey (OP_1, 32-byte push).
    let output_key = XOnlyPublicKey::from_slice(&multisig.address().script_pubkey()[2..34]).unwrap();

    psbt.inputs.iter_mut().for_each(|input| {
        let mut witness = Witness::new();

        for keypair in parts_keypairs.iter().rev() {
            let (xonly, _) = keypair.x_only_public_key();
            let sig = input
                .tap_script_sigs
                .get(&(xonly, leaf_hash))
                .unwrap()
                .clone();
            witness.push(sig.to_vec());
        }

        let control_block = input.tap_scripts.iter().next().unwrap().0.clone();
        assert!(control_block.verify_taproot_commitment(&secp, output_key, leaf_script.as_script()));

        witness.push(redeem_script.leaf.clone());
        witness.push(control_block.serialize());

        input.final_script_witness = Some(witness);
        input.tap_script_sigs.clear();
        input.tap_scripts.clear();
    });

    let tx = psbt.extract_tx().unwrap();

    assert_eq!(tx.input.len(), 1);
    assert_eq!(tx.input[0].witness.len(), parts_keypairs.len() + 2);

    let output = tx
        .output
        .iter()
        .find(|output| {
            let address = Address::from_script(&output.script_pubkey, bitcoin::Network::Regtest).unwrap();

            address == redeemer_address
        })
        .unwrap();

    assert_eq!(output.value, Amount::from_sat(funding_value - 200));

    println!(
        "sent {} btc from {} multisig address to {}",
        output.value,
        multisig.address().to_string(),
        redeemer_address,
    );
}
