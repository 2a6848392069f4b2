//! Failures of a connection to a server.

use vstd::prelude::*;

use crate::policy::retry::ErrorClass;

verus! {

/// What ended an operation on a connection.
#[derive(Clone, Copy, Debug, PartialEq, Eq, Structural)]
pub enum ConnectionErrorKind {
    TimedOut,
    Cancelled,
    /// A failure with an explicit retry category.
    Classified(ErrorClass),
}

/// A failed operation on a connection. The cause stays with the caller.
#[derive(Clone, Debug, PartialEq, Eq)]
pub struct ConnectionError {
    pub kind: ConnectionErrorKind,
    pub message: String,
}

/// The content of a connection failure.
#[verifier::ext_equal]
pub struct ConnectionFailure {
    pub kind: ConnectionErrorKind,
    pub message: Seq<char>,
}

impl View for ConnectionError {
    type V = ConnectionFailure;

    open spec fn view(&self) -> ConnectionFailure {
        ConnectionFailure { kind: self.kind, message: self.message@ }
    }
}

impl ConnectionError {
    pub fn new(kind: ConnectionErrorKind, message: &str) -> (r: Self)
        ensures
            r@ == (ConnectionFailure { kind, message: message@ }),
    {
        ConnectionError { kind, message: message.to_owned() }
    }

    pub fn timed_out(message: &str) -> (r: Self)
        ensures
            r@ == (ConnectionFailure { kind: ConnectionErrorKind::TimedOut, message: message@ }),
    {
        ConnectionError::new(ConnectionErrorKind::TimedOut, message)
    }

    pub fn cancelled(message: &str) -> (r: Self)
        ensures
            r@ == (ConnectionFailure { kind: ConnectionErrorKind::Cancelled, message: message@ }),
    {
        ConnectionError::new(ConnectionErrorKind::Cancelled, message)
    }
}

} // verus!
