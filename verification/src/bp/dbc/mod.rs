//! Deterministic bitcoin commitments: a commitment value is embedded into a
//! key, a set of keys, a script, an output or a transaction, and whoever
//! holds the proof can compute the same embedding again and compare.

pub mod digests;
pub mod error;
pub mod keyset;
pub mod lockscript;
pub mod pubkey;
pub mod spk;
pub mod taproot;
pub mod tx;
pub mod txout;
pub mod types;

pub use error::Error;
pub use keyset::{KeysetCommitment, KeysetContainer, KeysetProof};
pub use lockscript::{LockscriptCommitment, LockscriptContainer, LockscriptProof};
pub use pubkey::{PubkeyCommitment, PubkeyContainer, PubkeyProof};
pub use spk::{
    ScriptEncodeData, ScriptEncodeMethod, SpkCommitment, SpkContainer, SpkProof,
};
pub use taproot::{TaprootCommitment, TaprootContainer, TaprootProof};
pub use tx::{Tx, TxCommitment, TxContainer, TxIn, TxProof, TxSupplement};
pub use txout::{TxOut, TxoutCommitment, TxoutContainer, TxoutProof};
pub use types::{Container, Proof};
