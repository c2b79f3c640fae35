//! Types that the transport layer hands through without reading them.

use vstd::prelude::*;

verus! {

/// The error type of the standard library's input and output; nothing of
/// it is read.
#[verifier::external_type_specification]
#[verifier::external_body]
pub struct ExIoError(std::io::Error);

} // verus!
