use aurpc::error::{Error, ErrorKind};
use std::io;

#[test]
fn invalid_input_keeps_reason() {
    let e = Error::invalid_input("bad");
    assert_eq!(e.kind(), ErrorKind::InvalidInput);
    assert_eq!(e.reason(), Some("bad"));
    assert!(e.io_error().is_none());
}

#[test]
fn other_keeps_reason() {
    let e = Error::other("odd");
    assert_eq!(e.kind(), ErrorKind::Other);
    assert_eq!(e.reason(), Some("odd"));
}

#[test]
fn io_error_converts_without_reason() {
    let e = Error::from(io::Error::new(io::ErrorKind::TimedOut, "late"));
    assert_eq!(e.kind(), ErrorKind::Io);
    assert_eq!(e.reason(), None);
    assert_eq!(e.io_error().map(|i| i.kind()), Some(io::ErrorKind::TimedOut));
}
