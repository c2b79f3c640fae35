//! Client-side validation on top of Bitcoin.
//!
//! The crate has two halves. `bp::dbc` embeds a commitment value into a
//! public key, a set of keys, a script, a script-pubkey, a taproot output,
//! an output of a list and a whole transaction, each time in a way that
//! whoever holds the proof can compute again. `rgb` holds the graph of a
//! contract (genesis, state transitions, state extensions and the anchors
//! that bind them to transactions), its binary encoding, the revelation of
//! concealed seals and the validation of a consignment against a schema.
//!
//! Every executable function has a contract over a mathematical model of
//! its data, and is proved to meet it. What the `bitcoin` crate computes
//! (hashes and arithmetic on curve points) stands behind a handful of
//! functions whose contracts are taken on trust; each of them names its
//! result and says no more of it.

pub mod bp;
pub mod lnp;
pub mod rgb;
pub mod strict_encoding;
