pub mod error;
pub mod outside;

pub use error::Error;
