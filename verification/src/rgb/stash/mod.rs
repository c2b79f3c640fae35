//! What is handed from one holder of a contract to the next.

pub mod consignment;
pub mod ordered;
