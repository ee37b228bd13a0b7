//! Transactions and partially signed transactions (PSBT), as plain values.
use vstd::prelude::*;

verus! {

/// The `nSequence` that signals replace-by-fee and disables relative lock time.
pub const ENABLE_RBF_NO_LOCKTIME: u32 = 0xFFFF_FFFD;

/// A reference to an output of an earlier transaction.
#[derive(Clone, Copy, PartialEq, Eq, Debug)]
pub struct OutPoint {
    /// The id of the transaction, in its internal byte order.
    pub txid: [u8; 32],
    /// The index of the output in that transaction.
    pub vout: u32,
}

/// A transaction output: an amount and the script that locks it.
#[derive(Debug)]
pub struct TxOut {
    /// The amount, in satoshis.
    pub value: u64,
    /// The locking script.
    pub script_pubkey: Vec<u8>,
}

/// A transaction input.
#[derive(Debug)]
pub struct TxIn {
    /// The output being spent.
    pub previous_output: OutPoint,
    /// The unlocking script.
    pub script_sig: Vec<u8>,
    /// The sequence number.
    pub sequence: u32,
    /// The witness stack.
    pub witness: Vec<Vec<u8>>,
}

/// A transaction.
#[derive(Debug)]
pub struct Transaction {
    /// The transaction version.
    pub version: i32,
    /// The lock time.
    pub lock_time: u32,
    /// The inputs.
    pub input: Vec<TxIn>,
    /// The outputs.
    pub output: Vec<TxOut>,
}

/// A leaf script offered for spending, with the control block that proves it
/// part of the taproot output.
#[derive(Debug)]
pub struct TapScript {
    /// The serialized control block.
    pub control_block: Vec<u8>,
    /// The leaf script.
    pub script: Vec<u8>,
    /// The leaf version.
    pub leaf_version: u8,
}

/// The per-input data of a PSBT.
#[derive(Debug)]
pub struct PsbtInput {
    /// The output being spent, for segwit signing.
    pub witness_utxo: Option<TxOut>,
    /// The leaf scripts that may spend the input.
    pub tap_scripts: Vec<TapScript>,
}

/// A partially signed bitcoin transaction.
#[derive(Debug)]
pub struct Psbt {
    /// The transaction being signed.
    pub unsigned_tx: Transaction,
    /// The data of each input, in the order of the transaction's inputs.
    pub inputs: Vec<PsbtInput>,
}

/// Why a transaction cannot start a PSBT.
#[derive(Clone, Copy, PartialEq, Eq, Structural, Debug)]
pub enum PsbtError {
    /// An input already holds an unlocking script.
    UnsignedTxHasScriptSigs,
    /// An input already holds a witness.
    UnsignedTxHasScriptWitnesses,
}

/// Whether some input before `count` holds an unlocking script or a witness.
pub open spec fn has_signed_input(inputs: Seq<TxIn>, count: int) -> bool {
    exists|i: int|
        0 <= i < count && ((#[trigger] inputs[i]).script_sig@.len() != 0 || inputs[i].witness@.len()
            != 0)
}

/// The error of the first input, in order, that holds an unlocking script or a
/// witness.
pub open spec fn first_signed_input_error(inputs: Seq<TxIn>) -> PsbtError
    decreases inputs.len(),
{
    if inputs.len() == 0 {
        PsbtError::UnsignedTxHasScriptSigs
    } else if has_signed_input(inputs.drop_last(), inputs.len() - 1) {
        first_signed_input_error(inputs.drop_last())
    } else if inputs.last().script_sig@.len() != 0 {
        PsbtError::UnsignedTxHasScriptSigs
    } else {
        PsbtError::UnsignedTxHasScriptWitnesses
    }
}

impl Psbt {
    /// Starts a PSBT for `tx`, with empty data for each input. Fails where an
    /// input of `tx` is already signed.
    pub fn from_unsigned_tx(tx: Transaction) -> (r: Result<Psbt, PsbtError>)
        ensures
            match r {
                Ok(psbt) => {
                    &&& !has_signed_input(tx.input@, tx.input@.len() as int)
                    &&& psbt.unsigned_tx == tx
                    &&& psbt.inputs@.len() == tx.input@.len()
                    &&& forall|i: int|
                        0 <= i < psbt.inputs@.len() ==> (#[trigger] psbt.inputs@[i]).witness_utxo
                            is None && psbt.inputs@[i].tap_scripts@.len() == 0
                },
                Err(e) => {
                    &&& has_signed_input(tx.input@, tx.input@.len() as int)
                    &&& e == first_signed_input_error(tx.input@)
                },
            },
    {
        let mut i: usize = 0;
        while i < tx.input.len()
            invariant
                i <= tx.input@.len(),
                !has_signed_input(tx.input@, i as int),
            decreases tx.input@.len() - i,
        {
            if tx.input[i].script_sig.len() != 0 {
                proof {
                    assert(tx.input@.take(i + 1).drop_last() =~= tx.input@.take(i as int));
                    lemma_first_error(tx.input@, i as int);
                }
                return Err(PsbtError::UnsignedTxHasScriptSigs);
            }
            if tx.input[i].witness.len() != 0 {
                proof {
                    lemma_first_error(tx.input@, i as int);
                }
                return Err(PsbtError::UnsignedTxHasScriptWitnesses);
            }
            i = i + 1;
        }
        let mut inputs: Vec<PsbtInput> = Vec::new();
        let mut j: usize = 0;
        while j < tx.input.len()
            invariant
                j <= tx.input@.len(),
                inputs@.len() == j,
                forall|k: int|
                    0 <= k < j ==> (#[trigger] inputs@[k]).witness_utxo is None
                        && inputs@[k].tap_scripts@.len() == 0,
            decreases tx.input@.len() - j,
        {
            inputs.push(PsbtInput { witness_utxo: None, tap_scripts: Vec::new() });
            j = j + 1;
        }
        Ok(Psbt { unsigned_tx: tx, inputs })
    }
}

/// The first signed input decides the error.
proof fn lemma_first_error(inputs: Seq<TxIn>, i: int)
    requires
        0 <= i < inputs.len(),
        !has_signed_input(inputs, i),
        inputs[i].script_sig@.len() != 0 || inputs[i].witness@.len() != 0,
    ensures
        has_signed_input(inputs, inputs.len() as int),
        first_signed_input_error(inputs) == (if inputs[i].script_sig@.len() != 0 {
            PsbtError::UnsignedTxHasScriptSigs
        } else {
            PsbtError::UnsignedTxHasScriptWitnesses
        }),
    decreases inputs.len(),
{
    if i == inputs.len() - 1 {
        assert(!has_signed_input(inputs.drop_last(), inputs.len() - 1)) by {
            if has_signed_input(inputs.drop_last(), inputs.len() - 1) {
                let k = choose|k: int|
                    0 <= k < inputs.len() - 1 && ((#[trigger] inputs.drop_last()[k]).script_sig@.len()
                        != 0 || inputs.drop_last()[k].witness@.len() != 0);
                assert(inputs.drop_last()[k] == inputs[k]);
            }
        }
    } else {
        let shorter = inputs.drop_last();
        assert(shorter[i] == inputs[i]);
        assert(!has_signed_input(shorter, i)) by {
            if has_signed_input(shorter, i) {
                let k = choose|k: int|
                    0 <= k < i && ((#[trigger] shorter[k]).script_sig@.len() != 0
                        || shorter[k].witness@.len() != 0);
                assert(shorter[k] == inputs[k]);
            }
        }
        lemma_first_error(shorter, i);
        let k = choose|k: int|
            0 <= k < shorter.len() && ((#[trigger] shorter[k]).script_sig@.len() != 0
                || shorter[k].witness@.len() != 0);
        assert(shorter[k] == inputs[k]);
        assert(has_signed_input(inputs.drop_last(), inputs.len() - 1));
    }
    assert(inputs[i].script_sig@.len() != 0 || inputs[i].witness@.len() != 0);
}

} // verus!
