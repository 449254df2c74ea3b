//! The error type of the crate.

use vstd::prelude::*;

verus! {

/// Values of `std::io::Error` travel through `Error` unopened: the crate only
/// carries the ones that socket operations report.
#[verifier::external_type_specification]
#[verifier::external_body]
pub struct ExIoError(std::io::Error);

/// Where an error comes from.
#[derive(Clone, Copy, Debug, PartialEq, Eq, Structural)]
pub enum ErrorKind {
    /// An argument was refused (the `InvalidInput` kind of `std::io`).
    InvalidInput,
    /// A condition of the RPC machinery, such as a closed channel (the
    /// `Other` kind of `std::io`).
    Other,
    /// The underlying socket reported an I/O error.
    Io,
}

/// Error type returned by this crate.
///
/// The errors can originate from the underlying UDP socket, or from conditions
/// that the crate itself detects, which come with a reason.
#[derive(Debug)]
pub struct Error {
    kind: ErrorKind,
    reason: Option<&'static str>,
    io_err: Option<std::io::Error>,
}

impl Error {
    /// Where the error comes from.
    pub closed spec fn spec_kind(&self) -> ErrorKind {
        self.kind
    }

    /// The reason the crate gave, as text.
    pub closed spec fn spec_reason(&self) -> Option<Seq<char>> {
        match self.reason {
            Some(r) => Some(r@),
            None => None,
        }
    }

    /// The error reported by the socket that the error carries, if any.
    pub closed spec fn spec_io_error(&self) -> Option<std::io::Error> {
        self.io_err
    }

    /// Whether the error carries an error reported by the socket.
    pub open spec fn spec_has_io_error(&self) -> bool {
        self.spec_io_error() is Some
    }

    /// Creates an error of the `InvalidInput` kind with the given reason.
    pub fn invalid_input(reason: &'static str) -> (e: Self)
        ensures
            e.spec_kind() == ErrorKind::InvalidInput,
            e.spec_reason() == Some(reason@),
            !e.spec_has_io_error(),
    {
        Self { kind: ErrorKind::InvalidInput, reason: Some(reason), io_err: None }
    }

    /// Creates an error of the `Other` kind with the given reason.
    pub fn other(reason: &'static str) -> (e: Self)
        ensures
            e.spec_kind() == ErrorKind::Other,
            e.spec_reason() == Some(reason@),
            !e.spec_has_io_error(),
    {
        Self { kind: ErrorKind::Other, reason: Some(reason), io_err: None }
    }

    /// Where the error comes from.
    pub fn kind(&self) -> (k: ErrorKind)
        ensures
            k == self.spec_kind(),
    {
        self.kind
    }

    /// The reason the crate gave, if it gave one.
    pub fn reason(&self) -> (r: Option<&'static str>)
        ensures
            r is Some <==> self.spec_reason() is Some,
            r matches Some(s) ==> self.spec_reason() == Some(s@),
    {
        self.reason
    }

    /// The error that the socket reported, if the error comes from it.
    pub fn io_error(&self) -> (r: Option<&std::io::Error>)
        ensures
            r is Some <==> self.spec_has_io_error(),
            r matches Some(e) ==> self.spec_io_error() == Some(*e),
    {
        match &self.io_err {
            Some(e) => Some(e),
            None => None,
        }
    }
}

/// Allows for the use of the `?` operator with an `std::io::Error`. Adds no
/// reason to the error.
impl From<std::io::Error> for Error {
    fn from(io_err: std::io::Error) -> (e: Self)
        ensures
            e.spec_kind() == ErrorKind::Io,
            e.spec_reason() is None,
            e.spec_io_error() == Some(io_err),
    {
        Self { kind: ErrorKind::Io, reason: None, io_err: Some(io_err) }
    }
}

impl vstd::std_specs::convert::FromSpecImpl<std::io::Error> for Error {
    open spec fn obeys_from_spec() -> bool {
        true
    }

    closed spec fn from_spec(io_err: std::io::Error) -> Self {
        Self { kind: ErrorKind::Io, reason: None, io_err: Some(io_err) }
    }
}

} // verus!
