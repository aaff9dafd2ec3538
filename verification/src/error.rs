//! Typed failures for a resolution call.
//!
//! Every fallible step of a resolution surfaces one of these kinds instead
//! of panicking; no kind is recovered from locally — each is terminal to
//! the enclosing resolution call.

use vstd::prelude::*;

verus! {

/// The distinct ways a resolution can fail.
#[derive(Clone, Copy, Debug, PartialEq, Eq, Structural)]
pub enum ErrorKind {
    /// The input matches no known provider.
    UnknownQueryType,
    /// A fetch through the injected connector failed.
    Network,
    /// The provider metadata lacks a stream map entirely.
    PlaybackRestricted,
    /// A stream fragment lacks a required field.
    MalformedStreamDescriptor,
    /// The descrambling function or its body could not be located.
    DescramblerNotFound,
    /// A statement of the descrambling function matches no known transform.
    UnknownTransform,
    /// A swap or drop-prefix index reaches past the end of the signature.
    IndexOutOfRange,
}

/// An error carrying its kind and a short human-readable description.
#[derive(Clone, Copy, Debug)]
pub struct Error {
    pub kind: ErrorKind,
    pub description: &'static str,
}

impl Error {
    /// Builds an error of the given kind.
    pub fn new(kind: ErrorKind, description: &'static str) -> (r: Error)
        ensures
            r.kind == kind,
            r.description == description,
    {
        Error { kind, description }
    }

    /// Builds a network error: a fetch through the connector failed.
    pub fn network(description: &'static str) -> (r: Error)
        ensures
            r.kind == ErrorKind::Network,
            r.description == description,
    {
        Error { kind: ErrorKind::Network, description }
    }

    /// Builds a video-metadata error: a stream descriptor lacks a
    /// required field.
    pub fn video(description: &'static str) -> (r: Error)
        ensures
            r.kind == ErrorKind::MalformedStreamDescriptor,
            r.description == description,
    {
        Error::new(ErrorKind::MalformedStreamDescriptor, description)
    }

    /// Builds the error for input that matches no known provider.
    pub fn unknown_query_type() -> (r: Error)
        ensures
            r.kind == ErrorKind::UnknownQueryType,
    {
        Error { kind: ErrorKind::UnknownQueryType, description: "Unknown query type" }
    }

    /// The short description this error was built with.
    pub fn description(&self) -> (r: &'static str)
        ensures
            r == self.description,
    {
        self.description
    }
}

} // verus!
