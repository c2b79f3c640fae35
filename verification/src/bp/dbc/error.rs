use vstd::prelude::*;

verus! {

/// Why a commitment could not be made.
#[derive(Clone, Copy, Debug, PartialEq, Eq, Structural)]
pub enum Error {
    /// The container has a shape that no embedding method takes.
    UnsupportedContainerKind,
    /// The container holds nothing that could carry the commitment.
    NoCommittableCarrier,
    /// Every output of the transaction is excluded.
    NoCommittableOutput,
}

} // verus!
