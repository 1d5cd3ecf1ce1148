//! The unified failure taxonomy of the host.
//!
//! Every operation of the host facade reports its failure as an [`Error`]:
//! a kind drawn from the fixed taxonomy below together with a short message.
//! Errors raised while a worker dispatches an invocation are captured in the
//! invocation response instead, so a bad invocation never kills a worker.

use vstd::prelude::*;

verus! {

/// The kinds of failure the host distinguishes.
#[derive(Clone, Copy, Debug, PartialEq, Eq, Structural)]
pub enum ErrorKind {
    /// The authorization hook denied an actor, or a capability check failed.
    Authorization,
    /// A signed token was rejected: bad signature, expired, not yet valid,
    /// or its subject is not an actor key.
    ClaimsValidation,
    /// A capability provider failed to configure or to handle a call.
    CapabilityProvider,
    /// A bus call was addressed to a subject with no registered handler.
    NoSuchSubscriber,
    /// A transport failure, including timeouts; transient and retryable.
    IO,
    /// A payload could not be encoded or decoded.
    Serialization,
    /// Duplicate registration, missing actor, or another host invariant
    /// violation.
    MiscHost,
}

/// A failure surfaced by the host facade.
#[derive(Clone, Debug)]
pub struct Error {
    pub kind: ErrorKind,
    pub message: String,
}

impl Error {
    /// Builds an error of the given kind carrying the given message.
    pub fn new(kind: ErrorKind, message: String) -> (r: Error)
        ensures
            r.kind == kind,
            r.message@ == message@,
    {
        Error { kind, message }
    }

    /// The kind of this error.
    pub fn kind(&self) -> (r: ErrorKind)
        ensures
            r == self.kind,
    {
        self.kind
    }

    /// The human-readable message of this error.
    pub fn message(&self) -> (r: &str)
        ensures
            r@ == self.message@,
    {
        self.message.as_str()
    }
}

} // verus!
