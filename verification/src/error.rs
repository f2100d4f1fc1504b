//! Errors reported by the broker core.

use vstd::prelude::*;
use vstd::std_specs::convert::FromSpecImpl;

verus! {

/// What went wrong.
#[derive(Clone, Copy, Debug, PartialEq, Eq, Structural, Hash)]
pub enum ErrorKind {
    /// The listening socket could not be bound.
    BindServer,
    /// A producer could not enqueue a message for the broker.
    SendBrokerMessage,
    /// A message could not be written to a connection.
    SendConnectionMessage,
    /// The operation needs an online session and the session is not online.
    SessionOffline,
    /// No packet identifier is available.
    PacketIdentifiersExhausted,
    /// The string is not a well-formed topic filter.
    InvalidTopicFilter,
}

impl ErrorKind {
    /// The text that describes the kind.
    pub open spec fn spec_description(self) -> Seq<char> {
        match self {
            ErrorKind::BindServer => "failed to bind the server socket"@,
            ErrorKind::SendBrokerMessage => "failed to send a message to the broker"@,
            ErrorKind::SendConnectionMessage => "failed to send a message to a connection"@,
            ErrorKind::SessionOffline => "session is offline"@,
            ErrorKind::PacketIdentifiersExhausted => "all packet identifiers are in use"@,
            ErrorKind::InvalidTopicFilter => "invalid topic filter"@,
        }
    }

    /// A short human-readable description of the kind.
    pub fn description(&self) -> (text: &'static str)
        ensures
            text@ == self.spec_description(),
    {
        match self {
            ErrorKind::BindServer => "failed to bind the server socket",
            ErrorKind::SendBrokerMessage => "failed to send a message to the broker",
            ErrorKind::SendConnectionMessage => "failed to send a message to a connection",
            ErrorKind::SessionOffline => "session is offline",
            ErrorKind::PacketIdentifiersExhausted => "all packet identifiers are in use",
            ErrorKind::InvalidTopicFilter => "invalid topic filter",
        }
    }
}

/// An error of the broker core: a kind, carried by value.
#[derive(Clone, Copy, Debug, PartialEq, Eq, Structural, Hash)]
pub struct Error {
    kind: ErrorKind,
}

impl View for Error {
    type V = ErrorKind;

    closed spec fn view(&self) -> ErrorKind {
        self.kind
    }
}

impl Error {
    /// An error of the given kind.
    pub fn new(kind: ErrorKind) -> (e: Error)
        ensures
            e@ == kind,
    {
        Error { kind }
    }

    /// The kind of this error.
    pub fn kind(&self) -> (k: &ErrorKind)
        ensures
            *k == self@,
    {
        &self.kind
    }

    /// A short human-readable description of the error: that of its kind.
    pub fn message(&self) -> (text: &'static str)
        ensures
            text@ == self@.spec_description(),
    {
        self.kind.description()
    }
}

impl From<ErrorKind> for Error {
    fn from(kind: ErrorKind) -> (e: Error) {
        Error { kind }
    }
}

impl FromSpecImpl<ErrorKind> for Error {
    open spec fn obeys_from_spec() -> bool {
        true
    }

    open spec fn from_spec(kind: ErrorKind) -> Error {
        Error::of(kind)
    }
}

impl Error {
    /// The error value that carries `kind`.
    pub closed spec fn of(kind: ErrorKind) -> Error {
        Error { kind }
    }

    /// `of` builds the error whose view is the kind it was given.
    pub broadcast proof fn lemma_of_view(kind: ErrorKind)
        ensures
            (#[trigger] Error::of(kind))@ == kind,
    {
    }
}

} // verus!
