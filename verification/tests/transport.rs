use lnpbp::lnp::transport::Error;

#[test]
fn io_errors_are_socket_errors() {
    let e = std::io::Error::new(std::io::ErrorKind::Other, "down");
    assert_eq!(Error::from(e), Error::SocketError);
}

#[test]
fn errors_are_shown_by_their_names() {
    assert_eq!(Error::SocketError.name(), "SocketError");
    assert_eq!(Error::RequiresLocalSocket.name(), "RequiresLocalSocket");
    assert_eq!(Error::UnreachableError.name(), "UnreachableError");
    assert_ne!(Error::SocketError, Error::RequiresLocalSocket);
    assert_eq!(format!("{:?}", Error::UnreachableError), "UnreachableError");
}
