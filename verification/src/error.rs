//! Error type of the crate-loading pipeline.
//!
//! Independent of any error-handling crate: backend failures are captured as
//! message strings, so callers never need to name a backend's error type.
use vstd::prelude::*;

use crate::text::owned;

verus! {

/// `std::io::Error`, carried opaquely inside [`Error::Io`].
#[verifier::external_type_specification]
#[verifier::external_body]
pub struct ExIoError(std::io::Error);

/// Pipeline error.
#[derive(Debug)]
pub enum Error {
    /// A plain message, typically from a failed validation or precondition.
    Message(String),
    /// An underlying I/O failure.
    Io(std::io::Error),
    /// A failure propagated from the cargo backend, captured as a message.
    Backend(String),
}

/// The text that `Display` gives for an I/O error.
///
/// Calls `ToString::to_string` on the `std::io::Error`. The text comes from the
/// operating system's description of the error, so nothing is stated about it.
#[verifier::external_body]
fn io_error_text(e: &std::io::Error) -> String {
    e.to_string()
}

impl Error {
    /// The display text of an error that carries its message: `Message` and
    /// `Backend`. An I/O error's text comes from the operating system.
    pub open spec fn display(&self) -> Option<Seq<char>> {
        match self {
            Error::Message(m) => Some(m@),
            Error::Backend(m) => Some(m@),
            Error::Io(_) => None,
        }
    }

    /// Build a plain-message error; it displays as `msg`.
    pub fn message(msg: &str) -> (e: Error)
        ensures
            e matches Error::Message(m) && m@ == msg@,
            e.display() == Some(msg@),
    {
        Error::Message(owned(msg))
    }

    /// Build a backend error (any cargo/loader failure) from its message; it
    /// displays as `msg`.
    pub fn backend(msg: &str) -> (e: Error)
        ensures
            e matches Error::Backend(m) && m@ == msg@,
            e.display() == Some(msg@),
    {
        Error::Backend(owned(msg))
    }

    /// The error's display text: the message itself for `Message` and
    /// `Backend`, the I/O error's own description for `Io`.
    pub fn to_string(&self) -> (s: String)
        ensures
            self.display() matches Some(t) ==> s@ == t,
    {
        match self {
            Error::Message(m) => m.clone(),
            Error::Io(e) => io_error_text(e),
            Error::Backend(m) => m.clone(),
        }
    }

    /// The underlying cause: the I/O error for `Io`, nothing otherwise.
    pub fn source(&self) -> (r: Option<&std::io::Error>)
        ensures
            match self {
                Error::Io(e) => r == Some(e),
                _ => r is None,
            },
    {
        match self {
            Error::Io(e) => Some(e),
            _ => None,
        }
    }
}

impl From<std::io::Error> for Error {
    fn from(e: std::io::Error) -> (r: Self) {
        Error::Io(e)
    }
}

impl vstd::std_specs::convert::FromSpecImpl<std::io::Error> for Error {
    open spec fn obeys_from_spec() -> bool {
        true
    }

    open spec fn from_spec(e: std::io::Error) -> Self {
        Error::Io(e)
    }
}

impl From<String> for Error {
    fn from(s: String) -> (r: Self) {
        Error::Message(s)
    }
}

impl vstd::std_specs::convert::FromSpecImpl<String> for Error {
    open spec fn obeys_from_spec() -> bool {
        true
    }

    open spec fn from_spec(s: String) -> Self {
        Error::Message(s)
    }
}

impl<'a> From<&'a str> for Error {
    fn from(s: &'a str) -> (r: Self)
        ensures
            r matches Error::Message(m) && m@ == s@,
    {
        Error::Message(owned(s))
    }
}

impl<'a> vstd::std_specs::convert::FromSpecImpl<&'a str> for Error {
    open spec fn obeys_from_spec() -> bool {
        false
    }

    open spec fn from_spec(s: &'a str) -> Self {
        Error::Message(arbitrary())
    }
}

} // verus!

verus! {

/// `r` by views, where its error is a plain message: `None` when the error
/// is of another kind.
pub open spec fn message_result(r: Result<String, Error>) -> Option<Result<Seq<char>, Seq<char>>> {
    match r {
        Ok(s) => Some(Ok(s@)),
        Err(Error::Message(m)) => Some(Err(m@)),
        Err(_) => None,
    }
}

} // verus!
