//! Contracts validated by their holders: the graph of a contract, schemas,
//! consignments and their validation.

pub mod contract;
pub mod schema;
pub mod stash;
pub mod validation;
