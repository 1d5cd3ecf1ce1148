//! A verified core of a WebAssembly actor host.
//!
//! The host loads cryptographically signed actors and capability providers,
//! routes invocations between them over a subject-addressed message bus, and
//! enforces that every invocation is permitted by the calling actor's signed
//! claims.

use vstd::prelude::*;
use vstd::string::*;

pub mod actor;
pub mod authz;
pub mod bus;
pub mod capability;
pub mod codec;
pub mod config;
pub mod errors;
pub mod manifest;
pub mod middleware;
pub mod runtime;

use crate::actor::Actor;
use crate::authz::{Claims, ClaimsView, can_invoke, spec_can_invoke, enforce_validation,
    spec_validation_ok, is_module_key, spec_is_module_key, starts_with_m, str_eq, SYSTEM_ACTOR,
    CAPABILITY_EXTRAS};
use crate::bus::{InprocBus, actor_subject, provider_subject, spec_actor_subject,
    spec_provider_subject, has_dot, spec_has_dot};
use crate::capability::{CapabilityDescriptor, NativeCapability};
use crate::codec::{Invocation, InvocationTarget, InvocationResponse, InvocationView};
use crate::errors::{Error, ErrorKind};
use crate::middleware::{Middleware, run_before, run_after, run_after_actor, spec_run_before};
use crate::runtime::{ModuleRuntime, CapabilityHandler, AuthHook, WasiParams};

verus! {

/// The name a binding gets when none is given.
pub const DEFAULT_BINDING: &'static str = "default";

/// The well-known operation that configures a binding on a provider.
pub const OP_BIND_ACTOR: &'static str = "BindActor";

/// The well-known operation that tears an actor's binding down.
pub const OP_REMOVE_ACTOR: &'static str = "RemoveActor";

/// The well-known operation that initializes a provider.
pub const OP_INITIALIZE: &'static str = "Initialize";

/// The well-known operation that shuts a provider down.
pub const OP_DEINITIALIZE: &'static str = "Deinitialize";

/// The key under which a capability descriptor is registered:
/// a `(binding name, capability id)` pair.
pub type RouteKey = (String, String);

/// Builds the registry key for a capability provider from its binding name
/// and capability id.
pub fn route_key(binding: &str, id: &str) -> (r: RouteKey)
    ensures
        r.0@ == binding@,
        r.1@ == id@,
{
    (binding.to_owned(), id.to_owned())
}

/// One record of the binding registry: an actor public key, a capability
/// id, and a binding name.
pub type Binding = (String, String, String);

/// The worker behind a bus subject: the executor that answers invocations
/// addressed to it.
pub enum Worker<R, P> {
    /// An actor: a sandboxed module addressed by its public key.
    Actor { runtime: R },
    /// A portable capability provider: a sandboxed module addressed by its
    /// provider subject.
    Portable { runtime: R },
    /// A native capability provider: a loaded plugin handler.
    Native { handler: P },
    /// The built-in extras provider; it answers the binding protocol so
    /// that every actor can hold a binding to it.
    Extras,
}

/// Whether `claims` holds an entry for the public key `pk`.
pub open spec fn spec_claims_has(claims: Seq<(String, Claims)>, pk: Seq<char>) -> bool {
    exists|i: int| 0 <= i < claims.len() && (#[trigger] claims[i]).0@ == pk
}

/// The claims registered for `pk`.
pub open spec fn spec_claims_for(claims: Seq<(String, Claims)>, pk: Seq<char>) -> ClaimsView
    recommends
        spec_claims_has(claims, pk),
{
    claims[choose|i: int| 0 <= i < claims.len() && (#[trigger] claims[i]).0@ == pk].1@
}

/// Whether the capability registry holds a descriptor under
/// `(binding, capid)`.
pub open spec fn spec_caps_has(
    caps: Seq<(RouteKey, CapabilityDescriptor)>,
    binding: Seq<char>,
    capid: Seq<char>,
) -> bool {
    exists|i: int|
        0 <= i < caps.len() && (#[trigger] caps[i]).0.0@ == binding && caps[i].0.1@ == capid
}

/// The capability id an invocation is checked against: the capability's id,
/// or the target actor's key for actor-to-actor calls.
pub open spec fn spec_target_capid(t: codec::TargetView) -> Seq<char> {
    match t {
        codec::TargetView::Actor { pk } => pk,
        codec::TargetView::Capability { capid, binding } => capid,
    }
}

/// Whether the claims registry permits the invocation: the host itself may
/// invoke anything; an actor must be resident and its claims must cover the
/// target capability.
pub open spec fn spec_invocation_authorized(
    claims: Seq<(String, Claims)>,
    inv: InvocationView,
) -> bool {
    inv.origin == SYSTEM_ACTOR@ || (spec_claims_has(claims, inv.origin) && spec_can_invoke(
        spec_claims_for(claims, inv.origin),
        spec_target_capid(inv.target),
    ))
}

/// The response whose only content is an error message.
pub open spec fn spec_error_response(e: Seq<char>) -> codec::ResponseView {
    codec::ResponseView { msg: Seq::<u8>::empty(), error: Some(e) }
}

/// The response a worker's raw outcome becomes: the bytes on success, the
/// message on failure.
pub open spec fn spec_response_of_outcome(rr: Result<Seq<u8>, Seq<char>>) -> codec::ResponseView {
    match rr {
        Ok(m) => codec::ResponseView { msg: m, error: None },
        Err(e) => spec_error_response(e),
    }
}

/// What dispatch makes of a worker's response: the after chain in
/// registration order, then — when the target is an actor — the
/// after-actor chain in the same order; an error from either chain becomes
/// the response.
pub open spec fn spec_after_pipeline<M: Middleware>(
    ms: Seq<M>,
    resp: codec::ResponseView,
    target_is_actor: bool,
) -> codec::ResponseView {
    match crate::middleware::spec_run_after(ms, resp) {
        Err(e) => spec_error_response(e),
        Ok(r1) => if target_is_actor {
            match crate::middleware::spec_run_after_actor(ms, r1) {
                Err(e) => spec_error_response(e),
                Ok(r2) => r2,
            }
        } else {
            r1
        },
    }
}

/// What the built-in extras provider answers: an acknowledgement of the
/// binding protocol, an error for anything else.
pub open spec fn spec_extras_response(inv: InvocationView) -> codec::ResponseView {
    if inv.operation == OP_BIND_ACTOR@ || inv.operation == OP_REMOVE_ACTOR@ {
        codec::ResponseView { msg: Seq::<u8>::empty(), error: None }
    } else {
        spec_error_response("unsupported extras operation"@)
    }
}

/// Whether `resp` is a response dispatch can produce for `inv` through the
/// middleware chain `ms`: the envelope is rewritten by the before hooks in
/// registration order ahead of the worker (the first error short-circuits
/// and becomes the response), and some worker outcome is carried through
/// the after chains.
pub open spec fn spec_dispatched<M: Middleware>(
    ms: Seq<M>,
    inv: InvocationView,
    resp: codec::ResponseView,
) -> bool {
    match spec_run_before(ms, inv) {
        Err(e) => resp == spec_error_response(e),
        Ok(rw) => exists|rr: Result<Seq<u8>, Seq<char>>|
            resp == spec_after_pipeline(ms, #[trigger] spec_response_of_outcome(rr), rw.target is Actor),
    }
}

/// Whether the subscriber of `subject` is the built-in extras worker.
pub open spec fn spec_subscriber_is_extras<R, P>(
    entries: Seq<(String, Worker<R, P>)>,
    subject: Seq<char>,
) -> bool {
    exists|i: int|
        0 <= i < entries.len() && (#[trigger] entries[i]).0@ == subject && entries[i].1 is Extras
}

/// Whether the optional hook admits the token; an absent hook admits
/// everything.
pub open spec fn spec_hook_accepts<A: AuthHook>(hook: Option<A>, token: authz::TokenView) -> bool {
    match hook {
        None => true,
        Some(h) => h.authorize_spec(token),
    }
}

/// The envelope `call_actor` issues: a system-originated call addressed to
/// the actor itself.
pub open spec fn spec_system_invocation(
    pk: Seq<char>,
    operation: Seq<char>,
    msg: Seq<u8>,
) -> InvocationView {
    InvocationView {
        origin: SYSTEM_ACTOR@,
        target: codec::TargetView::Actor { pk },
        operation,
        msg,
    }
}

/// Whether the binding registry holds the row `(actor, capid, binding)`.
pub open spec fn spec_has_binding(
    bs: Seq<Binding>,
    actor: Seq<char>,
    capid: Seq<char>,
    binding: Seq<char>,
) -> bool {
    exists|i: int|
        0 <= i < bs.len() && (#[trigger] bs[i]).0@ == actor && bs[i].1@ == capid && bs[i].2@
            == binding
}

/// The subject a binding's configuration invocation is sent to: the actor's
/// own subject for the self-configuration form (the actor key doubles as
/// the capability id, or the host itself configures an actor-key
/// capability), the provider subject otherwise.
pub open spec fn spec_bind_subject(actor: Seq<char>, capid: Seq<char>, binding: Seq<char>) -> Seq<
    char,
> {
    if (actor == capid || actor == SYSTEM_ACTOR@) && capid.len() > 0 && capid[0] == 'M' {
        spec_actor_subject(actor)
    } else {
        spec_provider_subject(capid, binding)
    }
}

/// The binding name a call gets when it names none: the default binding.
pub open spec fn spec_binding_or_default(binding_name: Option<String>) -> Seq<char> {
    match binding_name {
        Some(b) => b@,
        None => DEFAULT_BINDING@,
    }
}

/// The configuration envelope a binding issues: a system-originated
/// `OP_BIND_ACTOR` call addressed to the capability, carrying the actor's
/// key and the configuration values.
pub open spec fn spec_config_invocation(
    actor: Seq<char>,
    capid: Seq<char>,
    binding: Seq<char>,
    values: Seq<(Seq<char>, Seq<char>)>,
) -> InvocationView {
    InvocationView {
        origin: SYSTEM_ACTOR@,
        target: codec::TargetView::Capability { capid, binding },
        operation: OP_BIND_ACTOR@,
        msg: codec::spec_enc_config(actor, values),
    }
}

/// The teardown envelope an actor's binding gets when the actor leaves: a
/// system-originated `OP_REMOVE_ACTOR` call to the bound provider, carrying
/// the actor's key and no values.
pub open spec fn spec_teardown_invocation(
    pk: Seq<char>,
    capid: Seq<char>,
    binding: Seq<char>,
) -> InvocationView {
    InvocationView {
        origin: SYSTEM_ACTOR@,
        target: codec::TargetView::Capability { capid, binding },
        operation: OP_REMOVE_ACTOR@,
        msg: codec::spec_enc_config(pk, Seq::empty()),
    }
}

/// The shutdown envelope a provider gets when it is unloaded: a
/// system-originated `OP_DEINITIALIZE` call with no values.
pub open spec fn spec_deinit_invocation(capid: Seq<char>, binding: Seq<char>) -> InvocationView {
    InvocationView {
        origin: SYSTEM_ACTOR@,
        target: codec::TargetView::Capability { capid, binding },
        operation: OP_DEINITIALIZE@,
        msg: codec::spec_enc_config(SYSTEM_ACTOR@, Seq::empty()),
    }
}

/// The teardown envelopes of a list of binding rows, one per row in order,
/// each carrying its own row's actor key.
pub open spec fn spec_teardown_invocations(rows: Seq<Binding>) -> Seq<InvocationView> {
    rows.map_values(|b: Binding| spec_teardown_invocation(b.0@, b.1@, b.2@))
}

/// An instance of the host: the shared registries and the in-process bus
/// with one worker per resident actor and provider.
pub struct WasccHost<R, P, M, A> {
    /// The claims of every resident actor, keyed by public key.
    pub claims: Vec<(String, Claims)>,
    /// The recorded bindings: `(actor, capid, binding)` triples.
    pub bindings: Vec<Binding>,
    /// The descriptors of the loaded providers, keyed by
    /// `(binding, capid)`.
    pub caps: Vec<(RouteKey, CapabilityDescriptor)>,
    /// The middleware chain, in registration order.
    pub middlewares: Vec<M>,
    /// The optional authorization hook consulted when actors are added.
    pub auth_hook: Option<A>,
    /// The bus: one subscribed worker per subject.
    pub bus: InprocBus<Worker<R, P>>,
    /// Every envelope handed to the bus, oldest first: ghost
    /// instrumentation, so that contracts can say which configuration and
    /// teardown invocations an operation issues.
    pub dispatches: Ghost<Seq<InvocationView>>,
}

impl<R: ModuleRuntime, P: CapabilityHandler, M: Middleware, A: AuthHook> WasccHost<R, P, M, A> {
    /// The registries are consistent: registry keys are unique and the bus
    /// holds at most one worker per subject.
    pub open spec fn wf(&self) -> bool {
        &&& self.bus.wf()
        &&& forall|i: int, j: int|
            0 <= i < j < self.claims@.len() ==> (#[trigger] self.claims@[i]).0@ != (
            #[trigger] self.claims@[j]).0@
        &&& forall|i: int, j: int|
            0 <= i < j < self.caps@.len() ==> ((#[trigger] self.caps@[i]).0.0@, self.caps@[i].0.1@)
                != ((#[trigger] self.caps@[j]).0.0@, self.caps@[j].0.1@)
    }

    /// The descriptor of the built-in extras provider.
    fn extras_descriptor() -> (r: CapabilityDescriptor)
        ensures
            r@.id == CAPABILITY_EXTRAS@,
    {
        CapabilityDescriptor::new(
            String::from_str(CAPABILITY_EXTRAS),
            String::from_str("Extras"),
            String::from_str("1.0.0"),
            1,
        )
    }

    /// Creates a host with empty registries and the built-in extras
    /// provider already resident.
    pub fn new() -> (r: Self)
        ensures
            r.wf(),
            r.claims@ =~= Seq::<(String, Claims)>::empty(),
            r.bindings@ =~= Seq::<Binding>::empty(),
            r.middlewares@ =~= Seq::<M>::empty(),
            r.auth_hook is None,
            r.caps@.len() == 1 && r.caps@[0].0.0@ == DEFAULT_BINDING@ && r.caps@[0].0.1@
                == CAPABILITY_EXTRAS@,
            r.bus.spec_has_subscriber(spec_provider_subject(CAPABILITY_EXTRAS@, DEFAULT_BINDING@)),
            r.dispatches@ =~= Seq::<InvocationView>::empty(),
    {
        let mut bus: InprocBus<Worker<R, P>> = InprocBus::new();
        let subject = provider_subject(CAPABILITY_EXTRAS, DEFAULT_BINDING);
        let ghost subject_view = subject@;
        let res = bus.subscribe(subject, Worker::Extras);
        proof {
            assert(res is Ok);
            assert(bus.entries()[0].0@ == subject_view);
            assert(bus.spec_has_subscriber(subject_view));
        }
        let mut caps: Vec<(RouteKey, CapabilityDescriptor)> = Vec::new();
        caps.push((route_key(DEFAULT_BINDING, CAPABILITY_EXTRAS), Self::extras_descriptor()));
        WasccHost {
            claims: Vec::new(),
            bindings: Vec::new(),
            caps,
            middlewares: Vec::new(),
            auth_hook: None,
            bus,
            dispatches: Ghost(Seq::empty()),
        }
    }

    /// The position of the claims entry for `pk`, if the actor is resident.
    fn find_claims(&self, pk: &str) -> (r: Option<usize>)
        ensures
            match r {
                Some(i) => i < self.claims@.len() && self.claims@[i as int].0@ == pk@,
                None => !spec_claims_has(self.claims@, pk@),
            },
    {
        let mut i: usize = 0;
        while i < self.claims.len()
            invariant
                i <= self.claims@.len(),
                forall|j: int| 0 <= j < i ==> (#[trigger] self.claims@[j]).0@ != pk@,
            decreases self.claims@.len() - i,
        {
            if str_eq(self.claims[i].0.as_str(), pk) {
                return Some(i);
            }
            i = i + 1;
        }
        None
    }

    /// The position of the capability entry under `(binding, capid)`, if a
    /// provider is loaded there.
    fn find_cap(&self, binding: &str, capid: &str) -> (r: Option<usize>)
        ensures
            match r {
                Some(i) => i < self.caps@.len() && self.caps@[i as int].0.0@ == binding@
                    && self.caps@[i as int].0.1@ == capid@,
                None => !spec_caps_has(self.caps@, binding@, capid@),
            },
    {
        let mut i: usize = 0;
        while i < self.caps.len()
            invariant
                i <= self.caps@.len(),
                forall|j: int|
                    0 <= j < i ==> !((#[trigger] self.caps@[j]).0.0@ == binding@
                        && self.caps@[j].0.1@ == capid@),
            decreases self.caps@.len() - i,
        {
            if str_eq(self.caps[i].0.0.as_str(), binding) && str_eq(
                self.caps[i].0.1.as_str(),
                capid,
            ) {
                return Some(i);
            }
            i = i + 1;
        }
        None
    }

    /// Whether the claims registry permits the invocation; see
    /// [`spec_invocation_authorized`].
    fn invocation_authorized(&self, inv: &Invocation) -> (r: bool)
        requires
            self.wf(),
        ensures
            r == spec_invocation_authorized(self.claims@, inv@),
    {
        if str_eq(inv.origin.as_str(), SYSTEM_ACTOR) {
            return true;
        }
        let capid: &str = match &inv.target {
            InvocationTarget::Actor(pk) => pk.as_str(),
            InvocationTarget::Capability { capid, binding } => capid.as_str(),
        };
        match self.find_claims(inv.origin.as_str()) {
            None => false,
            Some(i) => {
                let r = can_invoke(&self.claims[i].1, capid);
                proof {
                    let k = choose|k: int|
                        0 <= k < self.claims@.len() && (#[trigger] self.claims@[k]).0@
                            == inv@.origin;
                    if k != i {
                        assert((self.claims@[k]).0@ != (self.claims@[i as int]).0@);
                    }
                    assert(k == i);
                }
                r
            },
        }
    }

    /// The response the built-in extras provider gives: it acknowledges the
    /// binding protocol and refuses everything else.
    fn extras_response(inv: &Invocation) -> (r: InvocationResponse)
        ensures
            r@ == spec_extras_response(inv@),
    {
        if str_eq(inv.operation.as_str(), OP_BIND_ACTOR) || str_eq(
            inv.operation.as_str(),
            OP_REMOVE_ACTOR,
        ) {
            InvocationResponse::success(Vec::new())
        } else {
            InvocationResponse::error(String::from_str("unsupported extras operation"))
        }
    }

    /// Delivers an invocation to the subscriber of `subject`: the bus
    /// request/reply path.
    ///
    /// The reply signals every failure in its `error` field: an invocation
    /// the claims registry does not permit is refused before any middleware
    /// or sandbox runs, a middleware error short-circuits dispatch, and a
    /// sandbox failure is captured. Only a subject with no subscriber is a
    /// host error. The registries are never touched; the set of subscribed
    /// subjects is preserved.
    pub fn invoke(&mut self, subject: &str, inv: &Invocation) -> (r: Result<
        InvocationResponse,
        Error,
    >)
        requires
            old(self).wf(),
        ensures
            final(self).wf(),
            final(self).claims@ == old(self).claims@,
            final(self).bindings@ == old(self).bindings@,
            final(self).caps@ == old(self).caps@,
            final(self).middlewares@ == old(self).middlewares@,
            final(self).dispatches@ == old(self).dispatches@.push(inv@),
            forall|s: Seq<char>|
                #[trigger] final(self).bus.spec_has_subscriber(s)
                    == old(self).bus.spec_has_subscriber(s),
            r is Ok <==> old(self).bus.spec_has_subscriber(subject@),
            !old(self).bus.spec_has_subscriber(subject@) ==> (r matches Err(e) && e.kind
                == ErrorKind::NoSuchSubscriber && e.message@ == "Attempted bus call for "@
                + subject@ + " with no subscribers"@ && final(self).bus.entries()
                == old(self).bus.entries()),
            old(self).bus.spec_has_subscriber(subject@) && !spec_invocation_authorized(
                old(self).claims@,
                inv@,
            ) ==> (r matches Ok(resp) && resp@ == spec_error_response("unauthorized invocation"@)
                && final(self).bus.entries() == old(self).bus.entries()),
            (old(self).bus.spec_has_subscriber(subject@) && spec_invocation_authorized(
                old(self).claims@,
                inv@,
            )) ==> (spec_run_before(old(self).middlewares@, inv@) matches Err(e) ==> (r matches Ok(
                resp,
            ) && resp@.error == Some(e) && final(self).bus.entries() == old(self).bus.entries())),
            (old(self).bus.spec_has_subscriber(subject@) && spec_invocation_authorized(
                old(self).claims@,
                inv@,
            )) ==> (r matches Ok(resp) && spec_dispatched(old(self).middlewares@, inv@, resp@)),
            (old(self).bus.spec_has_subscriber(subject@) && spec_invocation_authorized(
                old(self).claims@,
                inv@,
            ) && spec_subscriber_is_extras(old(self).bus.entries(), subject@)) ==> (
            spec_run_before(old(self).middlewares@, inv@) matches Ok(rw) ==> (r matches Ok(resp)
                && resp@ == spec_after_pipeline(
                old(self).middlewares@,
                spec_extras_response(rw),
                rw.target is Actor,
            ))),
            r matches Err(e) ==> e.kind == ErrorKind::NoSuchSubscriber,
    {
        proof {
            self.dispatches@ = self.dispatches@.push(inv@);
        }
        if !self.bus.has_subscriber(subject) {
            let mut m = String::from_str("Attempted bus call for ");
            m.append(subject);
            m.append(" with no subscribers");
            proof {
                assert(m@ =~= "Attempted bus call for "@ + subject@ + " with no subscribers"@);
            }
            return Err(Error::new(ErrorKind::NoSuchSubscriber, m));
        }
        if !self.invocation_authorized(inv) {
            return Ok(InvocationResponse::error(String::from_str("unauthorized invocation")));
        }
        let rewritten = match run_before(&self.middlewares, inv) {
            Ok(i) => i,
            Err(e) => {
                return Ok(InvocationResponse::error(e));
            },
        };
        let taken = self.bus.take(subject);
        let ghost taken_v = taken;
        let (subject_string, worker) = match taken {
            Some(entry) => entry,
            None => {
                proof {
                    assert(false);
                }
                return Err(Error::new(ErrorKind::NoSuchSubscriber, String::new()));
            },
        };
        let ghost entry_v = taken_v->Some_0;
        proof {
            let i = choose|i: int|
                0 <= i < old(self).bus.entries().len() && old(self).bus.entries()[i] == entry_v
                    && self.bus.entries() =~= old(self).bus.entries().remove(i);
            assert(spec_subscriber_is_extras(old(self).bus.entries(), subject@) == (entry_v.1
                is Extras)) by {
                if spec_subscriber_is_extras(old(self).bus.entries(), subject@) {
                    let j = choose|j: int|
                        0 <= j < old(self).bus.entries().len() && (#[trigger] old(self).bus.entries()[j]).0@ == subject@ && old(self).bus.entries()[j].1
                            is Extras;
                    if j != i {
                        assert(old(self).bus.entries()[j].0@ != old(self).bus.entries()[i].0@);
                    }
                }
                if entry_v.1 is Extras {
                    assert(old(self).bus.entries()[i].0@ == subject@ && old(self).bus.entries()[
                        i].1 is Extras);
                }
            }
        }
        let target_is_actor = match &rewritten.target {
            InvocationTarget::Actor(_) => true,
            InvocationTarget::Capability { capid, binding } => false,
        };
        proof {
            assert(target_is_actor == (rewritten@.target is Actor));
        }
        let (worker_after, resp0) = match worker {
            Worker::Actor { mut runtime } => {
                let raw = runtime.call(rewritten.operation.as_str(), &rewritten.msg);
                let resp = match raw {
                    Ok(m) => InvocationResponse::success(m),
                    Err(e) => InvocationResponse::error(e),
                };
                (Worker::Actor { runtime }, resp)
            },
            Worker::Portable { mut runtime } => {
                let raw = runtime.call(rewritten.operation.as_str(), &rewritten.msg);
                let resp = match raw {
                    Ok(m) => InvocationResponse::success(m),
                    Err(e) => InvocationResponse::error(e),
                };
                (Worker::Portable { runtime }, resp)
            },
            Worker::Native { mut handler } => {
                let raw = handler.handle_call(
                    rewritten.origin.as_str(),
                    rewritten.operation.as_str(),
                    &rewritten.msg,
                );
                let resp = match raw {
                    Ok(m) => InvocationResponse::success(m),
                    Err(e) => InvocationResponse::error(e),
                };
                (Worker::Native { handler }, resp)
            },
            Worker::Extras => {
                let resp = Self::extras_response(&rewritten);
                (Worker::Extras, resp)
            },
        };
        let ghost rr: Result<Seq<u8>, Seq<char>> = match &resp0.error {
            Some(e) => Err::<Seq<u8>, Seq<char>>(e@),
            None => Ok::<Seq<u8>, Seq<char>>(resp0.msg@),
        };
        proof {
            assert(resp0@ =~= spec_response_of_outcome(rr));
            if entry_v.1 is Extras {
                assert(resp0@ == spec_extras_response(rewritten@));
            }
        }
        let ghost bus_before_put = self.bus.entries();
        let res = self.bus.subscribe(subject_string, worker_after);
        proof {
            assert(res is Ok);
            assert forall|s: Seq<char>|
                #[trigger] self.bus.spec_has_subscriber(s) == old(self).bus.spec_has_subscriber(
                    s,
                ) by {
                let old_entries = old(self).bus.entries();
                let i = choose|i: int|
                    0 <= i < old_entries.len() && old_entries[i] == (
                    subject_string,
                    worker,
                ) && bus_before_put =~= old_entries.remove(i);
                if self.bus.spec_has_subscriber(s) {
                    let k = choose|k: int|
                        0 <= k < self.bus.entries().len() && (#[trigger] self.bus.entries()[k]).0@
                            == s;
                    if k < self.bus.entries().len() - 1 {
                        if k < i {
                            assert(old_entries[k].0@ == s);
                        } else {
                            assert(old_entries[k + 1].0@ == s);
                        }
                    } else {
                        assert(old_entries[i].0@ == s);
                    }
                }
                if old(self).bus.spec_has_subscriber(s) {
                    let k = choose|k: int|
                        0 <= k < old_entries.len() && (#[trigger] old_entries[k]).0@ == s;
                    if k == i {
                        assert(self.bus.entries()[self.bus.entries().len() - 1].0@ == s);
                    } else if k < i {
                        assert(self.bus.entries()[k].0@ == s);
                    } else {
                        assert(self.bus.entries()[k - 1].0@ == s);
                    }
                }
            }
        }
        let ghost ms = old(self).middlewares@;
        let resp1 = match run_after(&self.middlewares, &resp0) {
            Ok(x) => x,
            Err(e) => {
                let out = InvocationResponse::error(e);
                proof {
                    assert(out@ =~= spec_error_response(out@.error->Some_0));
                    assert(spec_after_pipeline(ms, resp0@, target_is_actor) == out@);
                    assert(spec_dispatched(ms, inv@, out@));
                }
                return Ok(out);
            },
        };
        if target_is_actor {
            match run_after_actor(&self.middlewares, &resp1) {
                Ok(x) => {
                    proof {
                        assert(spec_after_pipeline(ms, resp0@, target_is_actor) == x@);
                        assert(spec_dispatched(ms, inv@, x@));
                    }
                    Ok(x)
                },
                Err(e) => {
                    let out = InvocationResponse::error(e);
                    proof {
                        assert(out@ =~= spec_error_response(out@.error->Some_0));
                        assert(spec_after_pipeline(ms, resp0@, target_is_actor) == out@);
                        assert(spec_dispatched(ms, inv@, out@));
                    }
                    Ok(out)
                },
            }
        } else {
            proof {
                assert(spec_after_pipeline(ms, resp0@, target_is_actor) == resp1@);
                assert(spec_dispatched(ms, inv@, resp1@));
            }
            Ok(resp1)
        }
    }

    /// Appends a middleware item to the chain; it runs after every item
    /// added before it.
    pub fn add_middleware(&mut self, mid: M)
        ensures
            final(self).middlewares@ == old(self).middlewares@.push(mid),
            final(self).claims@ == old(self).claims@,
            final(self).bindings@ == old(self).bindings@,
            final(self).caps@ == old(self).caps@,
            final(self).bus == old(self).bus,
            final(self).auth_hook == old(self).auth_hook,
    {
        self.middlewares.push(mid);
    }

    /// Installs the authorization hook consulted when actors are added.
    pub fn set_auth_hook(&mut self, hook: A)
        ensures
            final(self).auth_hook == Some(hook),
            final(self).claims@ == old(self).claims@,
            final(self).bindings@ == old(self).bindings@,
            final(self).caps@ == old(self).caps@,
            final(self).bus == old(self).bus,
            final(self).middlewares@ == old(self).middlewares@,
    {
        self.auth_hook = Some(hook);
    }

    /// The claims of the resident actor with public key `pk`, if any.
    pub fn claims_for_actor(&self, pk: &str) -> (r: Option<Claims>)
        requires
            self.wf(),
        ensures
            match r {
                Some(c) => spec_claims_has(self.claims@, pk@) && c@ == spec_claims_for(
                    self.claims@,
                    pk@,
                ),
                None => !spec_claims_has(self.claims@, pk@),
            },
    {
        match self.find_claims(pk) {
            None => None,
            Some(i) => {
                proof {
                    let k = choose|k: int|
                        0 <= k < self.claims@.len() && (#[trigger] self.claims@[k]).0@ == pk@;
                    if k != i {
                        assert((self.claims@[k]).0@ != (self.claims@[i as int]).0@);
                    }
                }
                Some(self.claims[i].1.duplicate())
            },
        }
    }

    /// Every resident actor: its public key and its claims, in the order
    /// the actors were added.
    pub fn actors(&self) -> (r: Vec<(String, Claims)>)
        ensures
            r@.len() == self.claims@.len(),
            forall|i: int|
                0 <= i < r@.len() ==> (#[trigger] r@[i]).0@ == self.claims@[i].0@ && r@[i].1@
                    == self.claims@[i].1@,
    {
        let mut out: Vec<(String, Claims)> = Vec::new();
        let mut i: usize = 0;
        while i < self.claims.len()
            invariant
                i <= self.claims@.len(),
                out@.len() == i,
                forall|j: int|
                    0 <= j < i ==> (#[trigger] out@[j]).0@ == self.claims@[j].0@ && out@[j].1@
                        == self.claims@[j].1@,
            decreases self.claims@.len() - i,
        {
            out.push((self.claims[i].0.clone(), self.claims[i].1.duplicate()));
            i = i + 1;
        }
        out
    }

    /// Every loaded capability provider: its `(binding, capid)` key and its
    /// descriptor, in load order.
    pub fn capabilities(&self) -> (r: Vec<(RouteKey, CapabilityDescriptor)>)
        ensures
            r@.len() == self.caps@.len(),
            forall|i: int|
                0 <= i < r@.len() ==> (#[trigger] r@[i]).0.0@ == self.caps@[i].0.0@ && r@[i].0.1@
                    == self.caps@[i].0.1@ && r@[i].1@ == self.caps@[i].1@,
    {
        let mut out: Vec<(RouteKey, CapabilityDescriptor)> = Vec::new();
        let mut i: usize = 0;
        while i < self.caps.len()
            invariant
                i <= self.caps@.len(),
                out@.len() == i,
                forall|j: int|
                    0 <= j < i ==> (#[trigger] out@[j]).0.0@ == self.caps@[j].0.0@ && out@[j].0.1@
                        == self.caps@[j].0.1@ && out@[j].1@ == self.caps@[j].1@,
            decreases self.caps@.len() - i,
        {
            out.push(
                (
                    (self.caps[i].0.0.clone(), self.caps[i].0.1.clone()),
                    self.caps[i].1.duplicate(),
                ),
            );
            i = i + 1;
        }
        out
    }

    /// Admits an actor: rejects a duplicate public key, a token that failed
    /// validation, a subject that is not an actor key, and a token the
    /// authorization hook denies; then instantiates the sandbox, registers
    /// the claims, subscribes the actor's subject, and — when the actor
    /// declares the built-in extras capability — binds it to the extras
    /// provider.
    pub fn add_actor(&mut self, actor: Actor) -> (r: Result<(), Error>)
        requires
            old(self).wf(),
        ensures
            final(self).wf(),
            final(self).middlewares@ == old(self).middlewares@,
            final(self).caps@ == old(self).caps@,
            final(self).claims@.len() >= old(self).claims@.len() && final(self).claims@.take(
                old(self).claims@.len() as int,
            ) == old(self).claims@,
            final(self).bindings@.len() >= old(self).bindings@.len() && final(self).bindings@.take(old(self).bindings@.len() as int) == old(self).bindings@,
            spec_claims_has(old(self).claims@, actor.token.claims@.subject) ==> (r matches Err(e)
                && e.kind == ErrorKind::MiscHost && e.message@ == "already in this host"@ && *final(self) == *old(self)),
            !spec_claims_has(old(self).claims@, actor.token.claims@.subject)
                && !spec_validation_ok(actor.validation) ==> (r matches Err(e) && e.kind
                == ErrorKind::ClaimsValidation && e.message@
                == crate::authz::spec_validation_message(actor.validation) && *final(self) == *old(self)),
            !spec_claims_has(old(self).claims@, actor.token.claims@.subject)
                && spec_validation_ok(actor.validation) && !spec_is_module_key(
                actor.token.claims@.subject,
            ) ==> (r matches Err(e) && e.kind == ErrorKind::ClaimsValidation && e.message@
                == "token subject is not an actor key"@ && *final(self) == *old(self)),
            r is Ok ==> !spec_claims_has(old(self).claims@, actor.token.claims@.subject)
                && spec_validation_ok(actor.validation) && spec_is_module_key(
                actor.token.claims@.subject,
            ),
            r is Ok ==> final(self).claims@.len() == old(self).claims@.len() + 1 && final(self).claims@.take(old(self).claims@.len() as int) == old(self).claims@ && final(self).claims@.last().0@ == actor.token.claims@.subject && final(self).claims@.last().1@
                == actor.token.claims@,
            r is Ok ==> final(self).bus.spec_has_subscriber(
                spec_actor_subject(actor.token.claims@.subject),
            ),
            r is Ok ==> forall|s: Seq<char>|
                s != spec_actor_subject(actor.token.claims@.subject) ==> #[trigger] final(self).bus.spec_has_subscriber(s) == old(self).bus.spec_has_subscriber(s),
            r matches Err(e) && e.kind != ErrorKind::CapabilityProvider ==> *final(self) == *old(self),
            (!spec_claims_has(old(self).claims@, actor.token.claims@.subject)
                && spec_validation_ok(actor.validation) && spec_is_module_key(
                actor.token.claims@.subject,
            ) && !spec_hook_accepts(old(self).auth_hook, actor.token@)) ==> (r matches Err(e)
                && e.kind == ErrorKind::Authorization && *final(self) == *old(self)),
            r is Ok ==> spec_hook_accepts(old(self).auth_hook, actor.token@),
            (r is Ok && crate::authz::spec_has_cap(actor.token.claims@.caps, CAPABILITY_EXTRAS@))
                ==> (final(self).bindings@.len() == old(self).bindings@.len() + 1 && final(self).bindings@.take(old(self).bindings@.len() as int) == old(self).bindings@ && final(self).bindings@.last().0@ == actor.token.claims@.subject && final(self).bindings@.last().1@ == CAPABILITY_EXTRAS@ && final(self).bindings@.last().2@
                == DEFAULT_BINDING@),
            (r is Ok && !crate::authz::spec_has_cap(actor.token.claims@.caps, CAPABILITY_EXTRAS@))
                ==> final(self).bindings@ == old(self).bindings@ && final(self).dispatches@ == old(
                self,
            ).dispatches@,
            (r is Ok && crate::authz::spec_has_cap(actor.token.claims@.caps, CAPABILITY_EXTRAS@))
                ==> final(self).dispatches@ == old(self).dispatches@.push(
                spec_config_invocation(
                    actor.token.claims@.subject,
                    CAPABILITY_EXTRAS@,
                    DEFAULT_BINDING@,
                    Seq::empty(),
                ),
            ),
    {
        let pk = actor.token.claims.subject.clone();
        if self.find_claims(pk.as_str()).is_some() {
            return Err(Error::new(ErrorKind::MiscHost, String::from_str("already in this host")));
        }
        match enforce_validation(&actor.validation) {
            Err(e) => {
                return Err(e);
            },
            Ok(()) => {},
        }
        if !is_module_key(pk.as_str()) {
            return Err(
                Error::new(
                    ErrorKind::ClaimsValidation,
                    String::from_str("token subject is not an actor key"),
                ),
            );
        }
        let hook_ok = match &self.auth_hook {
            None => true,
            Some(h) => h.authorize(&actor.token),
        };
        proof {
            assert(hook_ok == spec_hook_accepts(self.auth_hook, actor.token@));
        }
        if !hook_ok {
            return Err(
                Error::new(
                    ErrorKind::Authorization,
                    String::from_str("Authorization hook denied access to module"),
                ),
            );
        }
        let runtime = match R::instantiate(&actor.bytes, None) {
            Ok(rt) => rt,
            Err(e) => {
                let mut m = String::from_str("failed to instantiate module: ");
                m.append(e.as_str());
                return Err(Error::new(ErrorKind::MiscHost, m));
            },
        };
        let subject = actor_subject(pk.as_str());
        let ghost subj_view = subject@;
        if self.bus.has_subscriber(subject.as_str()) {
            return Err(
                Error::new(
                    ErrorKind::MiscHost,
                    String::from_str("actor subject already has a subscriber"),
                ),
            );
        }
        let res = self.bus.subscribe(subject, Worker::Actor { runtime });
        proof {
            assert(res is Ok);
            lemma_subscribe_preserves_other_subjects::<Worker<R, P>>(
                self.bus,
                old(self).bus,
                self.bus.entries().last(),
                subj_view,
            );
        }
        let has_extras = crate::authz::has_cap(&actor.token.claims, CAPABILITY_EXTRAS);
        let ghost claims_before = self.claims@;
        self.claims.push((pk, actor.token.claims.duplicate()));
        proof {
            assert forall|i: int, j: int|
                0 <= i < j < self.claims@.len() implies (#[trigger] self.claims@[i]).0@ != (
            #[trigger] self.claims@[j]).0@ by {
                if j < self.claims@.len() - 1 {
                    assert(self.claims@[i] == old(self).claims@[i]);
                    assert(self.claims@[j] == old(self).claims@[j]);
                } else {
                    assert(self.claims@[i] == old(self).claims@[i]);
                    assert(!spec_claims_has(old(self).claims@, self.claims@[j].0@));
                }
            }
            assert(self.claims@.take(old(self).claims@.len() as int) =~= old(self).claims@);
        }
        proof {
            assert(self.claims@.take(old(self).claims@.len() as int) =~= old(self).claims@);
        }
        if has_extras {
            let pk2 = actor.token.claims.subject.clone();
            proof {
                assert(self.claims@.last().0@ == pk2@);
                assert(spec_claims_has(self.claims@, pk2@));
                reveal_strlit("wascc:extras");
                reveal_strlit("default");
                assert(!spec_has_dot(CAPABILITY_EXTRAS@));
                assert(!spec_has_dot(DEFAULT_BINDING@));
            }
            match self.bind_actor(pk2.as_str(), CAPABILITY_EXTRAS, None, Vec::new()) {
                Ok(()) => {},
                Err(e) => {
                    return Err(e);
                },
            }
            proof {
                assert(self.bindings@.take(old(self).bindings@.len() as int) =~= old(self).bindings@);
            }
        }
        Ok(())
    }

    /// Builds the well-known configuration invocation a binding sends to
    /// its provider: a system-originated `OP_BIND_ACTOR` call carrying the
    /// actor's key and the configuration values.
    pub fn gen_config_invocation(
        actor: &str,
        capid: &str,
        binding: &str,
        config: &Vec<(String, String)>,
    ) -> (r: Invocation)
        ensures
            r@.origin == SYSTEM_ACTOR@,
            r@.target == (codec::TargetView::Capability { capid: capid@, binding: binding@ }),
            r@.operation == OP_BIND_ACTOR@,
            r@.msg == codec::spec_enc_config(actor@, codec::spec_pairs_view(config@)),
    {
        Invocation::new(
            String::from_str(SYSTEM_ACTOR),
            InvocationTarget::Capability { capid: capid.to_owned(), binding: binding.to_owned() },
            OP_BIND_ACTOR,
            codec::serialize_capability_configuration(actor, config),
        )
    }

    /// Binds an actor to a capability provider under a binding name,
    /// default when none is given. The actor must be resident and its
    /// claims must cover the capability; the binding is recorded only after
    /// the provider acknowledged the configuration invocation.
    pub fn bind_actor(
        &mut self,
        actor: &str,
        capid: &str,
        binding_name: Option<String>,
        config: Vec<(String, String)>,
    ) -> (r: Result<(), Error>)
        requires
            old(self).wf(),
        ensures
            final(self).wf(),
            final(self).claims@ == old(self).claims@,
            final(self).caps@ == old(self).caps@,
            final(self).middlewares@ == old(self).middlewares@,
            forall|s: Seq<char>|
                #[trigger] final(self).bus.spec_has_subscriber(s)
                    == old(self).bus.spec_has_subscriber(s),
            (spec_has_dot(capid@) || spec_has_dot(spec_binding_or_default(binding_name))) ==> (
            r matches Err(e) && e.kind == ErrorKind::MiscHost && e.message@
                == "subject components must not contain dots"@ && *final(self) == *old(self)),
            (!(spec_has_dot(capid@) || spec_has_dot(spec_binding_or_default(binding_name)))
                && !spec_claims_has(old(self).claims@, actor@)) ==> (r matches Err(e) && e.kind
                == ErrorKind::MiscHost && e.message@ == "Attempted to bind non-existent actor"@
                && *final(self) == *old(self)),
            (!(spec_has_dot(capid@) || spec_has_dot(spec_binding_or_default(binding_name)))
                && spec_claims_has(old(self).claims@, actor@) && !spec_can_invoke(
                spec_claims_for(old(self).claims@, actor@),
                capid@,
            )) <==> (r matches Err(e) && e.kind == ErrorKind::Authorization),
            r matches Err(e) && e.kind == ErrorKind::Authorization ==> *final(self) == *old(self),
            r is Err ==> final(self).bindings@ == old(self).bindings@,
            r is Ok ==> final(self).bindings@.len() == old(self).bindings@.len() + 1 && final(self).bindings@.take(old(self).bindings@.len() as int) == old(self).bindings@ && final(self).bindings@.last().0@ == actor@ && final(self).bindings@.last().1@ == capid@ && final(self).bindings@.last().2@ == (match binding_name {
                Some(b) => b@,
                None => DEFAULT_BINDING@,
            }),
            r is Ok ==> spec_claims_has(old(self).claims@, actor@) && spec_can_invoke(
                spec_claims_for(old(self).claims@, actor@),
                capid@,
            ),
            r is Ok ==> final(self).dispatches@ == old(self).dispatches@.push(
                spec_config_invocation(
                    actor@,
                    capid@,
                    spec_binding_or_default(binding_name),
                    codec::spec_pairs_view(config@),
                ),
            ),
            (!(spec_has_dot(capid@) || spec_has_dot(spec_binding_or_default(binding_name)))
                && spec_claims_has(old(self).claims@, actor@) && spec_can_invoke(
                spec_claims_for(old(self).claims@, actor@),
                capid@,
            )) ==> (r matches Err(e) ==> e.kind == ErrorKind::CapabilityProvider),
            (!(spec_has_dot(capid@) || spec_has_dot(spec_binding_or_default(binding_name)))
                && spec_claims_has(old(self).claims@, actor@) && spec_can_invoke(
                spec_claims_for(old(self).claims@, actor@),
                capid@,
            ) && !old(self).bus.spec_has_subscriber(
                spec_bind_subject(actor@, capid@, spec_binding_or_default(binding_name)),
            )) ==> (r matches Err(e) && e.kind == ErrorKind::CapabilityProvider),
            (!(spec_has_dot(capid@) || spec_has_dot(spec_binding_or_default(binding_name)))
                && spec_claims_has(old(self).claims@, actor@) && spec_can_invoke(
                spec_claims_for(old(self).claims@, actor@),
                capid@,
            ) && old(self).bus.spec_has_subscriber(
                spec_bind_subject(actor@, capid@, spec_binding_or_default(binding_name)),
            )) ==> exists|resp: codec::ResponseView|
                #[trigger] spec_dispatched(
                    old(self).middlewares@,
                    spec_config_invocation(
                        actor@,
                        capid@,
                        spec_binding_or_default(binding_name),
                        codec::spec_pairs_view(config@),
                    ),
                    resp,
                ) && (r is Ok <==> resp.error is None) && (resp.error is Some ==> (r matches Err(
                    err,
                ) && err.message@ == resp.error->Some_0)),
    {
        let name_has_dot = match &binding_name {
            Some(b) => has_dot(b.as_str()),
            None => false,
        };
        proof {
            reveal_strlit("default");
            assert(!spec_has_dot(DEFAULT_BINDING@));
        }
        if has_dot(capid) || name_has_dot {
            return Err(
                Error::new(
                    ErrorKind::MiscHost,
                    String::from_str("subject components must not contain dots"),
                ),
            );
        }
        let i = match self.find_claims(actor) {
            None => {
                return Err(
                    Error::new(
                        ErrorKind::MiscHost,
                        String::from_str("Attempted to bind non-existent actor"),
                    ),
                );
            },
            Some(i) => i,
        };
        let allowed = can_invoke(&self.claims[i].1, capid);
        proof {
            let k = choose|k: int|
                0 <= k < self.claims@.len() && (#[trigger] self.claims@[k]).0@ == actor@;
            if k != i {
                assert((self.claims@[k]).0@ != (self.claims@[i as int]).0@);
            }
        }
        if !allowed {
            return Err(
                Error::new(
                    ErrorKind::Authorization,
                    String::from_str("actor is not authorized to use capability"),
                ),
            );
        }
        let binding: String = match binding_name {
            Some(b) => b,
            None => String::from_str(DEFAULT_BINDING),
        };
        let tgt_subject: String = if (str_eq(actor, capid) || str_eq(actor, SYSTEM_ACTOR))
            && starts_with_m(capid) {
            actor_subject(actor)
        } else {
            provider_subject(capid, binding.as_str())
        };
        let inv = Self::gen_config_invocation(actor, capid, binding.as_str(), &config);
        proof {
            assert(tgt_subject@ == spec_bind_subject(actor@, capid@, binding@));
            assert(inv@ =~= spec_config_invocation(
                actor@,
                capid@,
                binding@,
                codec::spec_pairs_view(config@),
            ));
            assert(spec_invocation_authorized(old(self).claims@, inv@));
        }
        match self.invoke(tgt_subject.as_str(), &inv) {
            Err(e) => Err(Error::new(ErrorKind::CapabilityProvider, e.message)),
            Ok(resp) => {
                match resp.error {
                    Some(e) => Err(Error::new(ErrorKind::CapabilityProvider, e)),
                    None => {
                        self.bindings.push((actor.to_owned(), capid.to_owned(), binding));
                        proof {
                            assert(self.bindings@.take(old(self).bindings@.len() as int)
                                =~= old(self).bindings@);
                        }
                        Ok(())
                    },
                }
            },
        }
    }

    /// Invokes an operation on a resident actor directly, as the host
    /// itself: a system-originated envelope carrying the operation and the
    /// payload is dispatched to the actor's subject. A reply without an
    /// error yields its bytes; a response-level failure — from middleware
    /// or the sandbox — is surfaced verbatim as the message of a
    /// capability-provider error, so it is never confused with the missing
    /// actor's host error.
    pub fn call_actor(&mut self, actor: &str, operation: &str, msg: &[u8]) -> (r: Result<
        Vec<u8>,
        Error,
    >)
        requires
            old(self).wf(),
        ensures
            final(self).wf(),
            final(self).claims@ == old(self).claims@,
            final(self).bindings@ == old(self).bindings@,
            final(self).caps@ == old(self).caps@,
            final(self).middlewares@ == old(self).middlewares@,
            forall|s: Seq<char>|
                #[trigger] final(self).bus.spec_has_subscriber(s)
                    == old(self).bus.spec_has_subscriber(s),
            !spec_claims_has(old(self).claims@, actor@) ==> (r matches Err(e) && e.kind
                == ErrorKind::MiscHost && e.message@ == "No such actor"@ && *final(self) == *old(self)),
            (spec_claims_has(old(self).claims@, actor@) && !old(self).bus.spec_has_subscriber(
                spec_actor_subject(actor@),
            )) ==> (r matches Err(e) && e.kind == ErrorKind::NoSuchSubscriber),
            spec_claims_has(old(self).claims@, actor@) ==> final(self).dispatches@ == old(
                self,
            ).dispatches@.push(spec_system_invocation(actor@, operation@, msg@)),
            (spec_claims_has(old(self).claims@, actor@) && old(self).bus.spec_has_subscriber(
                spec_actor_subject(actor@),
            )) ==> exists|resp: codec::ResponseView|
                #[trigger] spec_dispatched(
                    old(self).middlewares@,
                    spec_system_invocation(actor@, operation@, msg@),
                    resp,
                ) && ((resp.error is Some && (r matches Err(e) && e.kind
                    == ErrorKind::CapabilityProvider && e.message@ == resp.error->Some_0)) || (
                resp.error is None && (r matches Ok(m) && m@ == resp.msg))),
    {
        if self.find_claims(actor).is_none() {
            return Err(Error::new(ErrorKind::MiscHost, String::from_str("No such actor")));
        }
        let mut payload: Vec<u8> = Vec::new();
        codec::push_all(&mut payload, msg);
        let inv = Invocation::new(
            String::from_str(SYSTEM_ACTOR),
            InvocationTarget::Actor(actor.to_owned()),
            operation,
            payload,
        );
        proof {
            assert(inv@ =~= spec_system_invocation(actor@, operation@, msg@));
            assert(spec_invocation_authorized(old(self).claims@, inv@));
        }
        let subject = actor_subject(actor);
        match self.invoke(subject.as_str(), &inv) {
            Err(e) => Err(e),
            Ok(resp) => {
                let ghost resp_v = resp@;
                match resp.error {
                    Some(e) => {
                        proof {
                            assert(resp_v.error == Some(e@));
                        }
                        Err(Error::new(ErrorKind::CapabilityProvider, e))
                    },
                    None => {
                        proof {
                            assert(resp_v.error is None);
                        }
                        Ok(resp.msg)
                    },
                }
            },
        }
    }

    /// The bindings of the actor `pk`: its `(capid, binding)` pairs, in
    /// the order they were recorded.
    fn bindings_of_actor(&self, pk: &str) -> (r: Vec<(String, String)>)
        ensures
            r@.len() == spec_bindings_of_actor(self.bindings@, pk@).len(),
            forall|i: int|
                0 <= i < r@.len() ==> (#[trigger] r@[i]).0@ == spec_bindings_of_actor(
                    self.bindings@,
                    pk@,
                )[i].1@ && r@[i].1@ == spec_bindings_of_actor(self.bindings@, pk@)[i].2@,
    {
        let mut out: Vec<(String, String)> = Vec::new();
        let mut i: usize = 0;
        while i < self.bindings.len()
            invariant
                i <= self.bindings@.len(),
                out@.len() == spec_bindings_of_actor(self.bindings@.take(i as int), pk@).len(),
                forall|j: int|
                    0 <= j < out@.len() ==> (#[trigger] out@[j]).0@ == spec_bindings_of_actor(
                        self.bindings@.take(i as int),
                        pk@,
                    )[j].1@ && out@[j].1@ == spec_bindings_of_actor(
                        self.bindings@.take(i as int),
                        pk@,
                    )[j].2@,
            decreases self.bindings@.len() - i,
        {
            proof {
                assert(self.bindings@.take(i + 1) =~= self.bindings@.take(i as int).push(
                    self.bindings@[i as int],
                ));
                self.bindings@.take(i as int).lemma_filter_push(
                    self.bindings@[i as int],
                    binds_actor(pk@),
                );
            }
            if str_eq(self.bindings[i].0.as_str(), pk) {
                out.push((self.bindings[i].1.clone(), self.bindings[i].2.clone()));
            }
            i = i + 1;
        }
        proof {
            assert(self.bindings@.take(self.bindings@.len() as int) =~= self.bindings@);
        }
        out
    }

    /// Removes the binding rows of the actor `pk` from the registry.
    fn drop_bindings_of_actor(&mut self, pk: &str)
        ensures
            final(self).bindings@ =~= spec_bindings_without_actor(old(self).bindings@, pk@),
            final(self).claims@ == old(self).claims@,
            final(self).caps@ == old(self).caps@,
            final(self).middlewares@ == old(self).middlewares@,
            final(self).bus == old(self).bus,
            final(self).auth_hook == old(self).auth_hook,
            final(self).dispatches == old(self).dispatches,
    {
        let mut source: Vec<Binding> = Vec::new();
        core::mem::swap(&mut self.bindings, &mut source);
        let ghost orig = source@;
        proof {
            assert(self.bindings@ =~= orig.take(0).filter(outside_actor(pk@)));
        }
        while source.len() > 0
            invariant
                source@.len() <= orig.len(),
                source@ =~= orig.skip(orig.len() - source@.len()),
                self.bindings@ =~= orig.take(orig.len() - source@.len()).filter(
                    outside_actor(pk@),
                ),
                self.claims@ == old(self).claims@,
                self.caps@ == old(self).caps@,
                self.middlewares@ == old(self).middlewares@,
                self.bus == old(self).bus,
                self.auth_hook == old(self).auth_hook,
                self.dispatches == old(self).dispatches,
            decreases source@.len(),
        {
            let ghost k = orig.len() - source@.len();
            proof {
                assert(source@[0] == orig[k]);
                assert(orig.take(k + 1) =~= orig.take(k as int).push(orig[k]));
                orig.take(k as int).lemma_filter_push(orig[k], outside_actor(pk@));
                assert(orig.skip(k).drop_first() =~= orig.skip(k + 1));
            }
            let b = source.remove(0);
            if !str_eq(b.0.as_str(), pk) {
                self.bindings.push(b);
            }
        }
        proof {
            assert(orig.take(orig.len() as int) =~= orig);
        }
    }

    /// Removes an actor: issues `OP_REMOVE_ACTOR` to every provider the
    /// actor is bound to, then unsubscribes the actor's subject and clears
    /// its claims and binding rows. Fails when the actor has no worker.
    pub fn remove_actor(&mut self, pk: &str) -> (r: Result<(), Error>)
        requires
            old(self).wf(),
        ensures
            final(self).wf(),
            final(self).caps@ == old(self).caps@,
            final(self).middlewares@ == old(self).middlewares@,
            r is Ok <==> old(self).bus.spec_has_subscriber(spec_actor_subject(pk@)),
            r is Err ==> *final(self) == *old(self),
            r is Ok ==> !final(self).bus.spec_has_subscriber(spec_actor_subject(pk@)),
            r is Ok ==> final(self).dispatches@ == old(self).dispatches@
                + spec_teardown_invocations(spec_bindings_of_actor(old(self).bindings@, pk@)),
            r is Err ==> final(self).dispatches@ == old(self).dispatches@,
            r is Ok ==> forall|s: Seq<char>|
                s != spec_actor_subject(pk@) ==> #[trigger] final(self).bus.spec_has_subscriber(s)
                    == old(self).bus.spec_has_subscriber(s),
            r is Ok ==> final(self).bindings@ =~= spec_bindings_without_actor(
                old(self).bindings@,
                pk@,
            ),
            r is Ok ==> !spec_claims_has(final(self).claims@, pk@),
            r is Ok ==> (forall|q: Seq<char>|
                q != pk@ ==> #[trigger] spec_claims_has(final(self).claims@, q)
                    == spec_claims_has(old(self).claims@, q)),
            r is Ok ==> (forall|q: Seq<char>|
                q != pk@ && spec_claims_has(old(self).claims@, q) ==> spec_claims_for(
                    final(self).claims@,
                    q,
                ) == spec_claims_for(old(self).claims@, q)),
    {
        let subject = actor_subject(pk);
        if !self.bus.has_subscriber(subject.as_str()) {
            return Err(Error::new(ErrorKind::MiscHost, String::from_str("No such actor")));
        }
        let targets = self.bindings_of_actor(pk);
        let ghost rows = spec_bindings_of_actor(old(self).bindings@, pk@);
        proof {
            assert forall|j: int| 0 <= j < rows.len() implies (#[trigger] rows[j]).0@ == pk@ by {
                old(self).bindings@.lemma_filter_pred(binds_actor(pk@), j);
            }
        }
        let empty_values: Vec<(String, String)> = Vec::new();
        let teardown = codec::serialize_capability_configuration(pk, &empty_values);
        proof {
            assert(codec::spec_pairs_view(empty_values@) =~= Seq::<(Seq<char>, Seq<char>)>::empty());
        }
        let mut i: usize = 0;
        while i < targets.len()
            invariant
                old(self).wf(),
                self.wf(),
                i <= targets@.len(),
                self.claims@ == old(self).claims@,
                self.bindings@ == old(self).bindings@,
                self.caps@ == old(self).caps@,
                self.middlewares@ == old(self).middlewares@,
                rows == spec_bindings_of_actor(old(self).bindings@, pk@),
                forall|j: int| 0 <= j < rows.len() ==> (#[trigger] rows[j]).0@ == pk@,
                targets@.len() == rows.len(),
                forall|j: int|
                    0 <= j < targets@.len() ==> (#[trigger] targets@[j]).0@ == rows[j].1@
                        && targets@[j].1@ == rows[j].2@,
                teardown@ == codec::spec_enc_config(pk@, Seq::<(Seq<char>, Seq<char>)>::empty()),
                self.dispatches@ =~= old(self).dispatches@ + spec_teardown_invocations(
                    rows.take(i as int),
                ),
                forall|s: Seq<char>|
                    #[trigger] self.bus.spec_has_subscriber(s) == old(self).bus.spec_has_subscriber(s),
            decreases targets@.len() - i,
        {
            let capid = &targets[i].0;
            let binding = &targets[i].1;
            let tgt_subject = provider_subject(capid.as_str(), binding.as_str());
            let inv = Invocation::new(
                String::from_str(SYSTEM_ACTOR),
                InvocationTarget::Capability {
                    capid: capid.clone(),
                    binding: binding.clone(),
                },
                OP_REMOVE_ACTOR,
                codec::copy_bytes(&teardown),
            );
            proof {
                assert(inv@ =~= spec_teardown_invocation(
                    rows[i as int].0@,
                    rows[i as int].1@,
                    rows[i as int].2@,
                ));
            }
            let _ = self.invoke(tgt_subject.as_str(), &inv);
            proof {
                assert(rows.take(i + 1) =~= rows.take(i as int).push(rows[i as int]));
                assert(spec_teardown_invocations(rows.take(i + 1)) =~= spec_teardown_invocations(
                    rows.take(i as int),
                ).push(inv@));
                assert(self.dispatches@ =~= old(self).dispatches@ + spec_teardown_invocations(
                    rows.take(i + 1),
                ));
            }
            i = i + 1;
        }
        proof {
            assert(rows.take(rows.len() as int) =~= rows);
        }
        let ghost bus_mid = self.bus;
        self.bus.unsubscribe(subject.as_str());
        proof {
            assert forall|s: Seq<char>|
                s != subject@ implies #[trigger] self.bus.spec_has_subscriber(s) == old(self).bus.spec_has_subscriber(s) by {
                lemma_remove_preserves_other_subjects::<Worker<R, P>>(self.bus, bus_mid, subject@, s);
                assert(bus_mid.spec_has_subscriber(s) == old(self).bus.spec_has_subscriber(s));
            }
        }
        match self.find_claims(pk) {
            None => {},
            Some(ci) => {
                let ghost claims_before = self.claims@;
                let _ = self.claims.remove(ci);
                proof {
                    assert forall|a: int, b: int|
                        0 <= a < b < self.claims@.len() implies (#[trigger] self.claims@[a]).0@
                            != (#[trigger] self.claims@[b]).0@ by {
                        let a0: int = if a < ci { a } else { a + 1 };
                        let b0: int = if b < ci { b } else { b + 1 };
                        assert(self.claims@[a] == claims_before[a0]);
                        assert(self.claims@[b] == claims_before[b0]);
                    }
                    assert forall|q: Seq<char>|
                        q != pk@ implies #[trigger] spec_claims_has(self.claims@, q)
                            == spec_claims_has(claims_before, q) by {
                        if spec_claims_has(self.claims@, q) {
                            let k = choose|k: int|
                                0 <= k < self.claims@.len() && (#[trigger] self.claims@[k]).0@
                                    == q;
                            if k < ci {
                                assert(claims_before[k].0@ == q);
                            } else {
                                assert(claims_before[k + 1].0@ == q);
                            }
                        }
                        if spec_claims_has(claims_before, q) {
                            let k = choose|k: int|
                                0 <= k < claims_before.len() && (#[trigger] claims_before[k]).0@
                                    == q;
                            if k < ci {
                                assert(self.claims@[k].0@ == q);
                            } else {
                                assert(k != ci);
                                assert(self.claims@[k - 1].0@ == q);
                            }
                        }
                    }
                    assert(!spec_claims_has(self.claims@, pk@)) by {
                        if spec_claims_has(self.claims@, pk@) {
                            let k = choose|k: int|
                                0 <= k < self.claims@.len() && (#[trigger] self.claims@[k]).0@
                                    == pk@;
                            let k0: int = if k < ci { k } else { k + 1 };
                            assert(claims_before[k0].0@ == pk@);
                            assert(claims_before[ci as int].0@ == pk@);
                        }
                    }
                    assert forall|q: Seq<char>|
                        q != pk@ && spec_claims_has(claims_before, q) implies spec_claims_for(
                            self.claims@,
                            q,
                        ) == spec_claims_for(claims_before, q) by {
                        assert(spec_claims_has(self.claims@, q));
                        let k1 = choose|k: int|
                            0 <= k < self.claims@.len() && (#[trigger] self.claims@[k]).0@ == q;
                        let k2 = choose|k: int|
                            0 <= k < claims_before.len() && (#[trigger] claims_before[k]).0@ == q;
                        let k1o: int = if k1 < ci { k1 } else { k1 + 1 };
                        assert(self.claims@[k1] == claims_before[k1o]);
                        assert(claims_before[k1o].0@ == q);
                        if k1o != k2 {
                            assert(claims_before[k1o].0@ != claims_before[k2].0@);
                        }
                        assert(self.claims@[k1] == claims_before[k2]);
                    }
                }
            },
        }
        self.drop_bindings_of_actor(pk);
        Ok(())
    }

    /// Replaces a resident actor with a new module carrying the same
    /// public key: the sandbox is rebuilt from the new bytes, the claims
    /// entry is overwritten, and every binding survives untouched.
    pub fn replace_actor(&mut self, new_actor: Actor) -> (r: Result<(), Error>)
        requires
            old(self).wf(),
        ensures
            final(self).wf(),
            final(self).bindings@ == old(self).bindings@,
            final(self).caps@ == old(self).caps@,
            final(self).middlewares@ == old(self).middlewares@,
            forall|s: Seq<char>|
                #[trigger] final(self).bus.spec_has_subscriber(s)
                    == old(self).bus.spec_has_subscriber(s),
            !old(self).bus.spec_has_subscriber(
                spec_actor_subject(new_actor.token.claims@.subject),
            ) ==> (r matches Err(e) && e.kind == ErrorKind::MiscHost && *final(self) == *old(self)),
            r is Ok ==> final(self).bus.spec_has_subscriber(
                spec_actor_subject(new_actor.token.claims@.subject),
            ),
            r is Ok ==> (forall|q: Seq<char>|
                q != new_actor.token.claims@.subject ==> #[trigger] spec_claims_has(
                    final(self).claims@,
                    q,
                ) == spec_claims_has(old(self).claims@, q)),
            (r is Ok && spec_claims_has(old(self).claims@, new_actor.token.claims@.subject)) ==> (
            spec_claims_has(final(self).claims@, new_actor.token.claims@.subject)
                && spec_claims_for(final(self).claims@, new_actor.token.claims@.subject)
                == new_actor.token.claims@),
            r is Err ==> final(self).claims@ == old(self).claims@,
    {
        let pk = new_actor.token.claims.subject.clone();
        let subject = actor_subject(pk.as_str());
        if !self.bus.has_subscriber(subject.as_str()) {
            return Err(Error::new(ErrorKind::MiscHost, String::from_str("No such actor")));
        }
        let taken = self.bus.take(subject.as_str());
        let ghost taken_v = taken;
        let ghost mid_entries = self.bus.entries();
        let (subject_string, old_worker) = match taken {
            Some(entry) => entry,
            None => {
                proof {
                    assert(false);
                }
                return Err(Error::new(ErrorKind::MiscHost, String::from_str("No such actor")));
            },
        };
        let ghost entry_v = taken_v->Some_0;
        let ghost ti = choose|i: int|
            0 <= i < old(self).bus.entries().len() && old(self).bus.entries()[i] == entry_v
                && mid_entries =~= old(self).bus.entries().remove(i);
        let runtime = match R::instantiate(&new_actor.bytes, None) {
            Ok(rt) => rt,
            Err(e) => {
                let res = self.bus.subscribe(subject_string, old_worker);
                proof {
                    assert(res is Ok);
                    lemma_take_subscribe_preserves_subjects::<Worker<R, P>>(
                        self.bus,
                        old(self).bus,
                        subject@,
                        ti,
                        self.bus.entries().last().1,
                    );
                }
                let mut m = String::from_str("failed to instantiate module: ");
                m.append(e.as_str());
                return Err(Error::new(ErrorKind::MiscHost, m));
            },
        };
        let res = self.bus.subscribe(subject_string, Worker::Actor { runtime });
        proof {
            assert(res is Ok);
            lemma_take_subscribe_preserves_subjects::<Worker<R, P>>(
                self.bus,
                old(self).bus,
                subject@,
                ti,
                self.bus.entries().last().1,
            );
        }
        match self.find_claims(pk.as_str()) {
            None => {},
            Some(ci) => {
                let ghost claims_before = self.claims@;
                let entry = self.claims.remove(ci);
                self.claims.insert(ci, (entry.0, new_actor.token.claims.duplicate()));
                proof {
                    assert(self.claims@ =~= claims_before.update(
                        ci as int,
                        self.claims@[ci as int],
                    ));
                    assert(self.claims@[ci as int].0@ == claims_before[ci as int].0@);
                    assert forall|a: int, b: int|
                        0 <= a < b < self.claims@.len() implies (#[trigger] self.claims@[a]).0@
                            != (#[trigger] self.claims@[b]).0@ by {
                        assert(self.claims@[a].0@ == claims_before[a].0@);
                        assert(self.claims@[b].0@ == claims_before[b].0@);
                    }
                    assert forall|q: Seq<char>|
                        q != new_actor.token.claims@.subject implies #[trigger] spec_claims_has(
                            self.claims@,
                            q,
                        ) == spec_claims_has(claims_before, q) by {
                        assert forall|k: int| 0 <= k < self.claims@.len() implies (
                        #[trigger] self.claims@[k]).0@ == claims_before[k].0@ by {}
                        if spec_claims_has(self.claims@, q) {
                            let k = choose|k: int|
                                0 <= k < self.claims@.len() && (#[trigger] self.claims@[k]).0@
                                    == q;
                            assert(claims_before[k].0@ == q);
                        }
                        if spec_claims_has(claims_before, q) {
                            let k = choose|k: int|
                                0 <= k < claims_before.len() && (#[trigger] claims_before[k]).0@
                                    == q;
                            assert(self.claims@[k].0@ == q);
                        }
                    }
                    assert(self.claims@[ci as int].0@ == new_actor.token.claims@.subject);
                    assert(spec_claims_has(self.claims@, new_actor.token.claims@.subject));
                    let kk = choose|k: int|
                        0 <= k < self.claims@.len() && (#[trigger] self.claims@[k]).0@
                            == new_actor.token.claims@.subject;
                    if kk != ci {
                        assert(self.claims@[kk].0@ != self.claims@[ci as int].0@);
                    }
                    assert(spec_claims_for(self.claims@, new_actor.token.claims@.subject)
                        == self.claims@[ci as int].1@);
                }
            },
        }
        Ok(())
    }

    /// Loads a native capability provider plugin. At most one provider may
    /// live under a given `(binding, capid)` key; a second load under the
    /// same key is rejected and changes nothing.
    pub fn add_native_capability(&mut self, capability: NativeCapability<P>) -> (r: Result<
        (),
        Error,
    >)
        requires
            old(self).wf(),
        ensures
            final(self).wf(),
            final(self).claims@ == old(self).claims@,
            final(self).bindings@ == old(self).bindings@,
            final(self).middlewares@ == old(self).middlewares@,
            (spec_has_dot(capability.descriptor@.id) || spec_has_dot(capability.binding_name@))
                ==> (r matches Err(e) && e.kind == ErrorKind::CapabilityProvider && e.message@
                == "subject components must not contain dots"@ && *final(self) == *old(self)),
            spec_caps_has(
                old(self).caps@,
                capability.binding_name@,
                capability.descriptor@.id,
            ) ==> (r matches Err(e) && e.kind == ErrorKind::CapabilityProvider && *final(self)
                == *old(self)),
            r is Err ==> final(self).caps@ == old(self).caps@,
            r is Ok ==> !spec_caps_has(
                old(self).caps@,
                capability.binding_name@,
                capability.descriptor@.id,
            ),
            (!(spec_has_dot(capability.descriptor@.id) || spec_has_dot(
                capability.binding_name@,
            )) && !spec_caps_has(
                old(self).caps@,
                capability.binding_name@,
                capability.descriptor@.id,
            ) && !old(self).bus.spec_has_subscriber(
                spec_provider_subject(capability.descriptor@.id, capability.binding_name@),
            )) ==> r is Ok,
            r is Ok ==> final(self).caps@.len() == old(self).caps@.len() + 1 && final(self).caps@.take(old(self).caps@.len() as int) == old(self).caps@ && final(self).caps@.last().0.0@ == capability.binding_name@ && final(self).caps@.last().0.1@
                == capability.descriptor@.id && final(self).caps@.last().1@
                == capability.descriptor@,
            r is Ok ==> final(self).bus.spec_has_subscriber(
                spec_provider_subject(capability.descriptor@.id, capability.binding_name@),
            ),
            r is Ok ==> forall|s: Seq<char>|
                s != spec_provider_subject(capability.descriptor@.id, capability.binding_name@)
                    ==> #[trigger] final(self).bus.spec_has_subscriber(s)
                    == old(self).bus.spec_has_subscriber(s),
    {
        let NativeCapability { handler, descriptor, binding_name } = capability;
        if has_dot(descriptor.id.as_str()) || has_dot(binding_name.as_str()) {
            return Err(
                Error::new(
                    ErrorKind::CapabilityProvider,
                    String::from_str("subject components must not contain dots"),
                ),
            );
        }
        if self.find_cap(binding_name.as_str(), descriptor.id.as_str()).is_some() {
            return Err(
                Error::new(
                    ErrorKind::CapabilityProvider,
                    String::from_str(
                        "capability provider is already loaded under this binding name",
                    ),
                ),
            );
        }
        let subject = provider_subject(descriptor.id.as_str(), binding_name.as_str());
        let ghost subj_view = subject@;
        let res = self.bus.subscribe(subject, Worker::Native { handler });
        if res.is_err() {
            return Err(
                Error::new(
                    ErrorKind::CapabilityProvider,
                    String::from_str("provider subject already has a subscriber"),
                ),
            );
        }
        proof {
            lemma_subscribe_preserves_other_subjects::<Worker<R, P>>(
                self.bus,
                old(self).bus,
                self.bus.entries().last(),
                subj_view,
            );
        }
        let key = (binding_name, descriptor.id.clone());
        let ghost caps_before = self.caps@;
        self.caps.push((key, descriptor));
        proof {
            assert forall|a: int, b: int|
                0 <= a < b < self.caps@.len() implies ((#[trigger] self.caps@[a]).0.0@,
            self.caps@[a].0.1@) != ((#[trigger] self.caps@[b]).0.0@, self.caps@[b].0.1@) by {
                if b < self.caps@.len() - 1 {
                    assert(self.caps@[a] == caps_before[a]);
                    assert(self.caps@[b] == caps_before[b]);
                } else {
                    assert(self.caps@[a] == caps_before[a]);
                    assert(!spec_caps_has(caps_before, self.caps@[b].0.0@, self.caps@[b].0.1@));
                }
            }
            assert(self.caps@.take(caps_before.len() as int) =~= caps_before);
        }
        Ok(())
    }

    /// Loads a portable capability provider: a sandboxed module that
    /// declares the capability it provides as the first capability of its
    /// claims. At most one provider may live under a `(binding, capid)`
    /// key.
    pub fn add_capability(
        &mut self,
        actor: Actor,
        binding: Option<&str>,
        wasi: WasiParams,
    ) -> (r: Result<(), Error>)
        requires
            old(self).wf(),
        ensures
            final(self).wf(),
            final(self).claims@ == old(self).claims@,
            final(self).bindings@ == old(self).bindings@,
            final(self).middlewares@ == old(self).middlewares@,
            actor.token.claims@.caps.len() == 0 ==> (r matches Err(e) && e.kind
                == ErrorKind::CapabilityProvider && *final(self) == *old(self)),
            (actor.token.claims@.caps.len() > 0 && (spec_has_dot(actor.token.claims@.caps[0])
                || spec_has_dot(
                match binding {
                    Some(b) => b@,
                    None => DEFAULT_BINDING@,
                },
            ))) ==> (r matches Err(e) && e.kind == ErrorKind::CapabilityProvider && e.message@
                == "subject components must not contain dots"@ && *final(self) == *old(self)),
            (actor.token.claims@.caps.len() > 0 && spec_caps_has(
                old(self).caps@,
                match binding {
                    Some(b) => b@,
                    None => DEFAULT_BINDING@,
                },
                actor.token.claims@.caps[0],
            )) ==> (r matches Err(e) && e.kind == ErrorKind::CapabilityProvider && *final(self)
                == *old(self)),
            r is Err ==> *final(self) == *old(self),
            r is Ok ==> actor.token.claims@.caps.len() > 0 && !spec_caps_has(
                old(self).caps@,
                match binding {
                    Some(b) => b@,
                    None => DEFAULT_BINDING@,
                },
                actor.token.claims@.caps[0],
            ),
            r is Ok ==> final(self).caps@.len() == old(self).caps@.len() + 1 && final(self).caps@.take(old(self).caps@.len() as int) == old(self).caps@,
            r is Ok ==> final(self).bus.spec_has_subscriber(
                spec_provider_subject(
                    actor.token.claims@.caps[0],
                    match binding {
                        Some(b) => b@,
                        None => DEFAULT_BINDING@,
                    },
                ),
            ),
            r is Ok ==> forall|s: Seq<char>|
                s != spec_provider_subject(
                    actor.token.claims@.caps[0],
                    match binding {
                        Some(b) => b@,
                        None => DEFAULT_BINDING@,
                    },
                ) ==> #[trigger] final(self).bus.spec_has_subscriber(s)
                    == old(self).bus.spec_has_subscriber(s),
    {
        let binding_string: String = match binding {
            Some(b) => b.to_owned(),
            None => String::from_str(DEFAULT_BINDING),
        };
        if actor.token.claims.caps.len() == 0 {
            return Err(
                Error::new(
                    ErrorKind::CapabilityProvider,
                    String::from_str("portable provider declares no capability"),
                ),
            );
        }
        let capid: String = actor.token.claims.caps[0].clone();
        proof {
            assert(capid@ == actor.token.claims@.caps[0]);
            reveal_strlit("default");
            assert(!spec_has_dot(DEFAULT_BINDING@));
        }
        if has_dot(capid.as_str()) || has_dot(binding_string.as_str()) {
            return Err(
                Error::new(
                    ErrorKind::CapabilityProvider,
                    String::from_str("subject components must not contain dots"),
                ),
            );
        }
        if self.find_cap(binding_string.as_str(), capid.as_str()).is_some() {
            return Err(
                Error::new(
                    ErrorKind::CapabilityProvider,
                    String::from_str(
                        "capability provider is already loaded under this binding name",
                    ),
                ),
            );
        }
        let subject = provider_subject(capid.as_str(), binding_string.as_str());
        let ghost subj_view = subject@;
        if self.bus.has_subscriber(subject.as_str()) {
            return Err(
                Error::new(
                    ErrorKind::CapabilityProvider,
                    String::from_str("provider subject already has a subscriber"),
                ),
            );
        }
        let runtime = match R::instantiate(&actor.bytes, Some(&wasi)) {
            Ok(rt) => rt,
            Err(e) => {
                let mut m = String::from_str("failed to instantiate module: ");
                m.append(e.as_str());
                return Err(Error::new(ErrorKind::CapabilityProvider, m));
            },
        };
        let res = self.bus.subscribe(subject, Worker::Portable { runtime });
        proof {
            assert(res is Ok);
        }
        proof {
            lemma_subscribe_preserves_other_subjects::<Worker<R, P>>(
                self.bus,
                old(self).bus,
                self.bus.entries().last(),
                subj_view,
            );
        }
        let name = actor.token.claims.subject.clone();
        let descriptor = CapabilityDescriptor::new(
            capid,
            name,
            String::from_str("0.0.0"),
            0,
        );
        let key = (binding_string, descriptor.id.clone());
        let ghost caps_before = self.caps@;
        self.caps.push((key, descriptor));
        proof {
            assert forall|a: int, b: int|
                0 <= a < b < self.caps@.len() implies ((#[trigger] self.caps@[a]).0.0@,
            self.caps@[a].0.1@) != ((#[trigger] self.caps@[b]).0.0@, self.caps@[b].0.1@) by {
                if b < self.caps@.len() - 1 {
                    assert(self.caps@[a] == caps_before[a]);
                    assert(self.caps@[b] == caps_before[b]);
                } else {
                    assert(self.caps@[a] == caps_before[a]);
                    assert(!spec_caps_has(caps_before, self.caps@[b].0.0@, self.caps@[b].0.1@));
                }
            }
            assert(self.caps@.take(caps_before.len() as int) =~= caps_before);
        }
        Ok(())
    }

    /// Shuts the host down: issues `OP_REMOVE_ACTOR` to the bound provider
    /// of every binding row, delivers `OP_DEINITIALIZE` to every provider,
    /// terminates every worker, and clears every registry.
    pub fn shutdown(&mut self)
        requires
            old(self).wf(),
        ensures
            final(self).wf(),
            final(self).claims@ =~= Seq::<(String, Claims)>::empty(),
            final(self).bindings@ =~= Seq::<Binding>::empty(),
            final(self).caps@ =~= Seq::<(RouteKey, CapabilityDescriptor)>::empty(),
            final(self).bus.entries() =~= Seq::<(String, Worker<R, P>)>::empty(),
            final(self).middlewares@ == old(self).middlewares@,
            final(self).dispatches@ == old(self).dispatches@ + spec_teardown_invocations(
                old(self).bindings@,
            ),
    {
        let empty_values: Vec<(String, String)> = Vec::new();
        proof {
            assert(codec::spec_pairs_view(empty_values@) =~= Seq::<(Seq<char>, Seq<char>)>::empty());
        }
        let mut rows: Vec<Binding> = Vec::new();
        let mut i: usize = 0;
        while i < self.bindings.len()
            invariant
                self.wf(),
                *self == *old(self),
                i <= self.bindings@.len(),
                rows@.len() == i,
                forall|j: int|
                    0 <= j < i ==> (#[trigger] rows@[j]).0@ == old(self).bindings@[j].0@
                        && rows@[j].1@ == old(self).bindings@[j].1@ && rows@[j].2@ == old(
                        self,
                    ).bindings@[j].2@,
            decreases self.bindings@.len() - i,
        {
            rows.push(
                (
                    self.bindings[i].0.clone(),
                    self.bindings[i].1.clone(),
                    self.bindings[i].2.clone(),
                ),
            );
            i = i + 1;
        }
        let mut j: usize = 0;
        while j < rows.len()
            invariant
                self.wf(),
                self.middlewares@ == old(self).middlewares@,
                j <= rows@.len(),
                rows@.len() == old(self).bindings@.len(),
                empty_values@ =~= Seq::<(String, String)>::empty(),
                forall|q: int|
                    0 <= q < rows@.len() ==> (#[trigger] rows@[q]).0@ == old(self).bindings@[q].0@
                        && rows@[q].1@ == old(self).bindings@[q].1@ && rows@[q].2@ == old(
                        self,
                    ).bindings@[q].2@,
                self.dispatches@ =~= old(self).dispatches@ + spec_teardown_invocations(
                    old(self).bindings@.take(j as int),
                ),
            decreases rows@.len() - j,
        {
            let payload = codec::serialize_capability_configuration(
                rows[j].0.as_str(),
                &empty_values,
            );
            proof {
                assert(codec::spec_pairs_view(empty_values@) =~= Seq::<
                    (Seq<char>, Seq<char>),
                >::empty());
            }
            let subj = provider_subject(rows[j].1.as_str(), rows[j].2.as_str());
            let inv = Invocation::new(
                String::from_str(SYSTEM_ACTOR),
                InvocationTarget::Capability {
                    capid: rows[j].1.clone(),
                    binding: rows[j].2.clone(),
                },
                OP_REMOVE_ACTOR,
                payload,
            );
            proof {
                let row = old(self).bindings@[j as int];
                assert(inv@ =~= spec_teardown_invocation(row.0@, row.1@, row.2@));
            }
            let _ = self.invoke(subj.as_str(), &inv);
            proof {
                assert(old(self).bindings@.take(j + 1) =~= old(self).bindings@.take(
                    j as int,
                ).push(old(self).bindings@[j as int]));
                assert(spec_teardown_invocations(old(self).bindings@.take(j + 1))
                    =~= spec_teardown_invocations(old(self).bindings@.take(j as int)).push(inv@));
                assert(self.dispatches@ =~= old(self).dispatches@ + spec_teardown_invocations(
                    old(self).bindings@.take(j + 1),
                ));
            }
            j = j + 1;
        }
        proof {
            assert(old(self).bindings@.take(old(self).bindings@.len() as int) =~= old(
                self,
            ).bindings@);
        }
        let teardown = codec::serialize_capability_configuration(SYSTEM_ACTOR, &empty_values);
        loop
            invariant
                self.bus.wf(),
                self.middlewares@ == old(self).middlewares@,
                self.dispatches@ =~= old(self).dispatches@ + spec_teardown_invocations(
                    old(self).bindings@,
                ),
            ensures
                self.bus.entries().len() == 0,
                self.middlewares@ == old(self).middlewares@,
                self.dispatches@ =~= old(self).dispatches@ + spec_teardown_invocations(
                    old(self).bindings@,
                ),
            decreases self.bus.entries().len(),
        {
            let entry = match self.bus.pop() {
                None => {
                    break ;
                },
                Some(entry) => entry,
            };
            let (_subject, worker) = entry;
            match worker {
                Worker::Portable { mut runtime } => {
                    let _ = runtime.call(OP_DEINITIALIZE, &teardown);
                },
                Worker::Native { mut handler } => {
                    let _ = handler.handle_call(SYSTEM_ACTOR, OP_DEINITIALIZE, &teardown);
                },
                Worker::Actor { runtime } => {},
                Worker::Extras => {},
            }
        }
        self.claims.clear();
        self.bindings.clear();
        self.caps.clear();
    }

    /// Unloads the provider under `(binding, capid)`: delivers
    /// `OP_DEINITIALIZE` to it, unsubscribes its subject, and removes its
    /// descriptor. Fails when no provider lives there.
    pub fn remove_native_capability(
        &mut self,
        capability_id: &str,
        binding_name: Option<String>,
    ) -> (r: Result<(), Error>)
        requires
            old(self).wf(),
        ensures
            final(self).wf(),
            final(self).claims@ == old(self).claims@,
            final(self).bindings@ == old(self).bindings@,
            final(self).middlewares@ == old(self).middlewares@,
            r is Ok <==> old(self).bus.spec_has_subscriber(
                spec_provider_subject(
                    capability_id@,
                    match binding_name {
                        Some(b) => b@,
                        None => DEFAULT_BINDING@,
                    },
                ),
            ),
            r is Err ==> *final(self) == *old(self),
            r matches Err(e) ==> e.kind == ErrorKind::MiscHost && e.message@
                == "No such capability"@,
            r is Ok ==> final(self).dispatches@ == old(self).dispatches@.push(
                spec_deinit_invocation(
                    capability_id@,
                    match binding_name {
                        Some(b) => b@,
                        None => DEFAULT_BINDING@,
                    },
                ),
            ),
            r is Err ==> final(self).dispatches@ == old(self).dispatches@,
            r is Ok ==> !final(self).bus.spec_has_subscriber(
                spec_provider_subject(
                    capability_id@,
                    match binding_name {
                        Some(b) => b@,
                        None => DEFAULT_BINDING@,
                    },
                ),
            ),
            r is Ok ==> !spec_caps_has(
                final(self).caps@,
                match binding_name {
                    Some(b) => b@,
                    None => DEFAULT_BINDING@,
                },
                capability_id@,
            ),
    {
        let binding: String = match binding_name {
            Some(b) => b,
            None => String::from_str(DEFAULT_BINDING),
        };
        let subject = provider_subject(capability_id, binding.as_str());
        if !self.bus.has_subscriber(subject.as_str()) {
            return Err(Error::new(ErrorKind::MiscHost, String::from_str("No such capability")));
        }
        let empty_values: Vec<(String, String)> = Vec::new();
        let inv = Invocation::new(
            String::from_str(SYSTEM_ACTOR),
            InvocationTarget::Capability {
                capid: capability_id.to_owned(),
                binding: binding.clone(),
            },
            OP_DEINITIALIZE,
            codec::serialize_capability_configuration(SYSTEM_ACTOR, &empty_values),
        );
        let _ = self.invoke(subject.as_str(), &inv);
        self.bus.unsubscribe(subject.as_str());
        match self.find_cap(binding.as_str(), capability_id) {
            None => {},
            Some(ci) => {
                let ghost caps_before = self.caps@;
                let _ = self.caps.remove(ci);
                proof {
                    assert forall|a: int, b: int|
                        0 <= a < b < self.caps@.len() implies ((#[trigger] self.caps@[a]).0.0@,
                    self.caps@[a].0.1@) != ((#[trigger] self.caps@[b]).0.0@,
                    self.caps@[b].0.1@) by {
                        let a0: int = if a < ci { a } else { a + 1 };
                        let b0: int = if b < ci { b } else { b + 1 };
                        assert(self.caps@[a] == caps_before[a0]);
                        assert(self.caps@[b] == caps_before[b0]);
                    }
                    assert(!spec_caps_has(self.caps@, binding@, capability_id@)) by {
                        if spec_caps_has(self.caps@, binding@, capability_id@) {
                            let k = choose|k: int|
                                0 <= k < self.caps@.len() && (#[trigger] self.caps@[k]).0.0@
                                    == binding@ && self.caps@[k].0.1@ == capability_id@;
                            let k0: int = if k < ci { k } else { k + 1 };
                            assert(caps_before[k0].0.0@ == binding@ && caps_before[k0].0.1@
                                == capability_id@);
                            assert(caps_before[ci as int].0.0@ == binding@ && caps_before[
                                ci as int].0.1@ == capability_id@);
                        }
                    }
                }
            },
        }
        Ok(())
    }
}

} // verus!

verus! {

/// The predicate that keeps a binding row: it does not belong to the actor
/// `pk`.
pub open spec fn outside_actor(pk: Seq<char>) -> spec_fn(Binding) -> bool {
    |b: Binding| b.0@ != pk
}

/// The predicate that selects the binding rows of the actor `pk`.
pub open spec fn binds_actor(pk: Seq<char>) -> spec_fn(Binding) -> bool {
    |b: Binding| b.0@ == pk
}

/// The binding rows of the actor `pk`, in order.
pub open spec fn spec_bindings_of_actor(bs: Seq<Binding>, pk: Seq<char>) -> Seq<Binding> {
    bs.filter(binds_actor(pk))
}

/// The binding registry with the rows of the actor `pk` removed.
pub open spec fn spec_bindings_without_actor(bs: Seq<Binding>, pk: Seq<char>) -> Seq<Binding> {
    bs.filter(outside_actor(pk))
}

/// Unsubscribing one subject leaves every other subject's subscription as
/// it was.
proof fn lemma_remove_preserves_other_subjects<W>(
    now: InprocBus<W>,
    before: InprocBus<W>,
    removed: Seq<char>,
    s: Seq<char>,
)
    requires
        s != removed,
        before.wf(),
        before.spec_has_subscriber(removed) ==> exists|i: int|
            0 <= i < before.entries().len() && (#[trigger] before.entries()[i]).0@ == removed
                && now.entries() =~= before.entries().remove(i),
        !before.spec_has_subscriber(removed) ==> now.entries() =~= before.entries(),
    ensures
        now.spec_has_subscriber(s) == before.spec_has_subscriber(s),
{
    if before.spec_has_subscriber(removed) {
        let i = choose|i: int|
            0 <= i < before.entries().len() && (#[trigger] before.entries()[i]).0@ == removed
                && now.entries() =~= before.entries().remove(i);
        if now.spec_has_subscriber(s) {
            let k = choose|k: int|
                0 <= k < now.entries().len() && (#[trigger] now.entries()[k]).0@ == s;
            if k < i {
                assert(before.entries()[k].0@ == s);
            } else {
                assert(before.entries()[k + 1].0@ == s);
            }
        }
        if before.spec_has_subscriber(s) {
            let k = choose|k: int|
                0 <= k < before.entries().len() && (#[trigger] before.entries()[k]).0@ == s;
            assert(k != i);
            if k < i {
                assert(now.entries()[k].0@ == s);
            } else {
                assert(now.entries()[k - 1].0@ == s);
            }
        }
    }
}

/// Subscribing a fresh subject leaves every other subject's subscription
/// as it was, and the fresh subject subscribed.
proof fn lemma_subscribe_preserves_other_subjects<W>(
    now: InprocBus<W>,
    before: InprocBus<W>,
    entry: (String, W),
    subject: Seq<char>,
)
    requires
        entry.0@ == subject,
        now.entries() =~= before.entries().push(entry),
    ensures
        now.spec_has_subscriber(subject),
        forall|s: Seq<char>|
            s != subject ==> #[trigger] now.spec_has_subscriber(s) == before.spec_has_subscriber(
                s,
            ),
{
    assert(now.entries().last().0@ == subject);
    assert(now.spec_has_subscriber(subject));
    assert forall|s: Seq<char>|
        s != subject implies #[trigger] now.spec_has_subscriber(s) == before.spec_has_subscriber(
        s,
    ) by {
        if now.spec_has_subscriber(s) {
            let k = choose|k: int|
                0 <= k < now.entries().len() && (#[trigger] now.entries()[k]).0@ == s;
            assert(k < now.entries().len() - 1);
            assert(before.entries()[k] == now.entries()[k]);
        }
        if before.spec_has_subscriber(s) {
            let k = choose|k: int|
                0 <= k < before.entries().len() && (#[trigger] before.entries()[k]).0@ == s;
            assert(now.entries()[k] == before.entries()[k]);
        }
    }
}

/// Taking a subject's worker out and subscribing a new worker under the
/// same subject leaves every subject's subscription as it was.
proof fn lemma_take_subscribe_preserves_subjects<W>(
    now: InprocBus<W>,
    before: InprocBus<W>,
    subject: Seq<char>,
    i: int,
    w2: W,
)
    requires
        before.wf(),
        0 <= i < before.entries().len(),
        before.entries()[i].0@ == subject,
        now.entries() =~= before.entries().remove(i).push((before.entries()[i].0, w2)),
    ensures
        forall|s: Seq<char>|
            #[trigger] now.spec_has_subscriber(s) == before.spec_has_subscriber(s),
{
    assert forall|s: Seq<char>|
        #[trigger] now.spec_has_subscriber(s) == before.spec_has_subscriber(s) by {
        if now.spec_has_subscriber(s) {
            let k = choose|k: int|
                0 <= k < now.entries().len() && (#[trigger] now.entries()[k]).0@ == s;
            if k == now.entries().len() - 1 {
                assert(before.entries()[i].0@ == s);
            } else if k < i {
                assert(before.entries()[k].0@ == s);
            } else {
                assert(before.entries()[k + 1].0@ == s);
            }
        }
        if before.spec_has_subscriber(s) {
            let k = choose|k: int|
                0 <= k < before.entries().len() && (#[trigger] before.entries()[k]).0@ == s;
            if k == i {
                assert(now.entries()[now.entries().len() - 1].0@ == s);
            } else if k < i {
                assert(now.entries()[k].0@ == s);
            } else {
                assert(now.entries()[k - 1].0@ == s);
            }
        }
    }
}

/// The predicate selecting claims entries keyed by `pk`.
pub open spec fn keyed_by(pk: Seq<char>) -> spec_fn((String, Claims)) -> bool {
    |e: (String, Claims)| e.0@ == pk
}

/// Nothing passes a filter that rejects every element.
proof fn lemma_filter_none<T>(s: Seq<T>, pred: spec_fn(T) -> bool)
    requires
        forall|i: int| 0 <= i < s.len() ==> !pred(#[trigger] s[i]),
    ensures
        s.filter(pred).len() == 0,
    decreases s.len(),
{
    reveal_with_fuel(Seq::filter, 2);
    if s.len() > 0 {
        assert(forall|i: int| 0 <= i < s.drop_last().len() ==> !pred(#[trigger] s.drop_last()[i]));
        lemma_filter_none(s.drop_last(), pred);
    }
}

/// A resident actor is visible exactly once: after its claims entry joins
/// a registry that did not hold its key, looking the key up yields exactly
/// that entry's claims, and the registry holds the key exactly once.
pub proof fn lemma_resident_actor_visible(claims: Seq<(String, Claims)>, entry: (String, Claims))
    requires
        !spec_claims_has(claims, entry.0@),
    ensures
        spec_claims_has(claims.push(entry), entry.0@),
        spec_claims_for(claims.push(entry), entry.0@) == entry.1@,
        claims.push(entry).filter(keyed_by(entry.0@)).len() == 1,
{
    let after = claims.push(entry);
    assert(after[after.len() - 1] == entry);
    assert(spec_claims_has(after, entry.0@));
    let k = choose|i: int| 0 <= i < after.len() && (#[trigger] after[i]).0@ == entry.0@;
    if k != after.len() - 1 {
        assert(claims[k].0@ == entry.0@);
        assert(false);
    }
    assert forall|i: int| 0 <= i < claims.len() implies !keyed_by(entry.0@)(
        #[trigger] claims[i],
    ) by {
        assert(claims[i].0@ != entry.0@);
    }
    lemma_filter_none(claims, keyed_by(entry.0@));
    claims.lemma_filter_push(entry, keyed_by(entry.0@));
    assert(keyed_by(entry.0@)(entry));
}

/// A provider key is taken once its load succeeds: the registry holds the
/// `(binding, capid)` key afterwards, so a second load under the same key
/// is refused as a duplicate.
pub proof fn lemma_provider_key_taken(
    caps: Seq<(RouteKey, CapabilityDescriptor)>,
    entry: (RouteKey, CapabilityDescriptor),
)
    ensures
        spec_caps_has(caps.push(entry), entry.0.0@, entry.0.1@),
{
    assert(caps.push(entry)[caps.len() as int] == entry);
}

} // verus!
