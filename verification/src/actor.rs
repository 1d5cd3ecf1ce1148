//! Actors: signed modules identified by a public key.
//!
//! An actor arrives as module bytes together with its signed token and the
//! outcome of that token's cryptographic validation. Extracting the token
//! from the module and checking its signature against the wall clock happen
//! outside this crate; the host re-checks the reported outcome and the
//! claims before admitting the actor.

use vstd::prelude::*;
use crate::authz::{Claims, Token, TokenValidation};

verus! {

/// A sandboxed module and its signed identity.
#[derive(Clone, Debug)]
pub struct Actor {
    /// The signed token embedded in the module.
    pub token: Token,
    /// The outcome of validating the token cryptographically.
    pub validation: TokenValidation,
    /// The module's bytes.
    pub bytes: Vec<u8>,
}

impl Actor {
    /// Assembles an actor from its parts.
    pub fn new(token: Token, validation: TokenValidation, bytes: Vec<u8>) -> (r: Actor)
        ensures
            r.token == token,
            r.validation == validation,
            r.bytes@ == bytes@,
    {
        Actor { token, validation, bytes }
    }

    /// The actor's public key: the subject of its claims.
    pub fn public_key(&self) -> (r: String)
        ensures
            r@ == self.token.claims@.subject,
    {
        self.token.claims.subject.clone()
    }

    /// The capability ids the actor is authorized to invoke.
    pub fn capabilities(&self) -> (r: Vec<String>)
        ensures
            r@.map_values(|s: String| s@) == self.token.claims@.caps,
    {
        let c = self.token.claims.duplicate();
        proof {
            assert(c.caps@.map_values(|s: String| s@) =~= self.token.claims@.caps);
        }
        c.caps
    }
}

} // verus!
