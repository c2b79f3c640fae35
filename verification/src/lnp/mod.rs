//! Lightning network protocol: what is left of it here is the error type of
//! its transport layer.

pub mod transport;
