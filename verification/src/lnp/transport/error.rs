//! Errors of the transport layer.

use vstd::prelude::*;
use vstd::std_specs::convert::FromSpecImpl;

verus! {

#[derive(Clone, PartialEq, Eq, Hash, Debug)]
pub enum Error {
    /// The socket failed, whatever the cause.
    SocketError,
    /// The operation needs a socket of the local machine.
    RequiresLocalSocket,
    /// What cannot happen.
    UnreachableError,
}

impl From<std::io::Error> for Error {
    /// Every error of input and output is a socket error.
    fn from(e: std::io::Error) -> (r: Error) {
        Error::SocketError
    }
}

impl FromSpecImpl<std::io::Error> for Error {
    open spec fn obeys_from_spec() -> bool {
        true
    }

    open spec fn from_spec(e: std::io::Error) -> Error {
        Error::SocketError
    }
}

impl Error {
    /// The name of the error, as it is shown.
    pub fn name(&self) -> (text: &'static str)
        ensures
            text@ == match *self {
                Error::SocketError => "SocketError"@,
                Error::RequiresLocalSocket => "RequiresLocalSocket"@,
                Error::UnreachableError => "UnreachableError"@,
            },
    {
        match self {
            Error::SocketError => "SocketError",
            Error::RequiresLocalSocket => "RequiresLocalSocket",
            Error::UnreachableError => "UnreachableError",
        }
    }
}

} // verus!
