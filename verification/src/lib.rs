//! Taproot multisig contracts for the Private Law Society protocol.
pub mod keys;
pub mod multisig;
pub mod script;
pub mod taproot;
pub mod transaction;
pub mod utils;

pub use keys::{PublicKey, XOnlyPublicKey};
pub use multisig::{Multisig, MultisigData, MultisigScript, Utxo};
pub use taproot::{Address, Network, TapTree};
pub use transaction::{OutPoint, Psbt, PsbtInput, TapScript, Transaction, TxIn, TxOut};
