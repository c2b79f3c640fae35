//! Bitcoin protocol: blinded outpoints and deterministic commitments.

pub mod blind;
pub mod dbc;
