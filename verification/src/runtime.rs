//! The contracts the host expects of its external collaborators: the module
//! runtime (the sandbox), native capability provider plugins, and the
//! optional authorization hook.
//!
//! These are deliberately uninterpreted: the host treats the sandbox and the
//! plugins as black boxes and promises nothing about what they compute, only
//! about how their answers are routed.

use vstd::prelude::*;
use crate::authz::Token;

verus! {

/// Sandbox construction parameters for portable providers: pre-opened
/// directories and the process-like environment of the module.
#[derive(Clone, Debug)]
pub struct WasiParams {
    pub argv: Vec<String>,
    pub map_dirs: Vec<(String, String)>,
    pub env_vars: Vec<(String, String)>,
    pub preopened_dirs: Vec<String>,
}

impl WasiParams {
    /// Parameters with nothing granted.
    pub fn empty() -> WasiParams {
        WasiParams { argv: Vec::new(), map_dirs: Vec::new(), env_vars: Vec::new(), preopened_dirs: Vec::new() }
    }
}

/// A sandboxed module instance: loads from bytes and answers synchronous
/// calls. One instance serves one worker and is single-threaded.
pub trait ModuleRuntime: Sized {
    /// Loads a module from its bytes, with sandbox parameters for portable
    /// providers.
    fn instantiate(bytes: &Vec<u8>, wasi: Option<&WasiParams>) -> Result<Self, String>;

    /// Performs one operation inside the sandbox.
    fn call(&mut self, op: &str, msg: &Vec<u8>) -> Result<Vec<u8>, String>;
}

/// A native capability provider plugin: a loaded handler that answers calls
/// addressed to its provider subject, configuration calls included.
pub trait CapabilityHandler {
    /// Handles one call on behalf of the origin actor.
    fn handle_call(&mut self, origin: &str, op: &str, msg: &Vec<u8>) -> Result<Vec<u8>, String>;
}

/// A plugin that answers nothing; stands in where a host runs no native
/// providers.
impl CapabilityHandler for () {
    fn handle_call(&mut self, origin: &str, op: &str, msg: &Vec<u8>) -> Result<Vec<u8>, String> {
        Err(String::from_str("no native capability handler"))
    }
}

/// A user-supplied predicate consulted when an actor is added; when absent
/// the host accepts every validated token. An implementation states what it
/// decides as a spec function, so the host's contract can name the hook's
/// effect.
pub trait AuthHook {
    /// What the hook decides of a token.
    spec fn authorize_spec(&self, token: crate::authz::TokenView) -> bool;

    /// Whether the actor holding this token may run in the host.
    fn authorize(&self, token: &Token) -> (r: bool)
        ensures
            r == self.authorize_spec(token@),
    ;
}

/// The hook that accepts everything.
impl AuthHook for () {
    open spec fn authorize_spec(&self, token: crate::authz::TokenView) -> bool {
        true
    }

    fn authorize(&self, token: &Token) -> (r: bool) {
        true
    }
}

} // verus!
