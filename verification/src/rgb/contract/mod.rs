//! The data of a contract: values, seals, assignments, nodes and anchors.

pub mod anchor;
pub mod assignment;
pub mod data;
pub mod nodes;
pub mod seal;
