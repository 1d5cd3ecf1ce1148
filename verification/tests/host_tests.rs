use std::cell::RefCell;
use std::rc::Rc;

use wascc_host::actor::Actor;
use wascc_host::authz::{Claims, Token, TokenValidation};
use wascc_host::capability::{CapabilityDescriptor, NativeCapability};
use wascc_host::codec::{Invocation, InvocationTarget};
use wascc_host::errors::ErrorKind;
use wascc_host::middleware::Middleware;
use wascc_host::runtime::{AuthHook, CapabilityHandler, ModuleRuntime, WasiParams};
use wascc_host::WasccHost;

/// A stub sandbox: the module bytes are its identity tag. `ping` answers
/// the tag, `count` a growing counter, `Initialize` fails with the tag as
/// the sentinel.
struct StubRuntime {
    tag: Vec<u8>,
    counter: u32,
}

impl ModuleRuntime for StubRuntime {
    fn instantiate(bytes: &Vec<u8>, _wasi: Option<&WasiParams>) -> Result<Self, String> {
        if bytes.is_empty() {
            Err("empty module".to_string())
        } else {
            Ok(StubRuntime { tag: bytes.clone(), counter: 0 })
        }
    }

    fn call(&mut self, op: &str, msg: &Vec<u8>) -> Result<Vec<u8>, String> {
        match op {
            "ping" => Ok(self.tag.clone()),
            "count" => {
                self.counter += 1;
                Ok(format!("{{\"counter\":{}}}", self.counter).into_bytes())
            }
            "Initialize" => Err(String::from_utf8(self.tag.clone()).unwrap_or_default()),
            _ => Ok(msg.clone()),
        }
    }
}

/// A native provider that acknowledges everything and records each call.
#[derive(Clone)]
struct RecordingProvider {
    name: String,
    log: Rc<RefCell<Vec<String>>>,
}

impl CapabilityHandler for RecordingProvider {
    fn handle_call(&mut self, origin: &str, op: &str, _msg: &Vec<u8>) -> Result<Vec<u8>, String> {
        self.log.borrow_mut().push(format!("{}:{}:{}", self.name, origin, op));
        Ok(Vec::new())
    }
}

/// A native provider that always fails.
#[derive(Clone)]
struct FailingProvider;

impl CapabilityHandler for FailingProvider {
    fn handle_call(&mut self, _origin: &str, _op: &str, _msg: &Vec<u8>) -> Result<Vec<u8>, String> {
        Err("provider out of order".to_string())
    }
}

/// A middleware that records the order its hooks run in.
struct RecordingMiddleware {
    name: String,
    log: Rc<RefCell<Vec<String>>>,
}

impl Middleware for RecordingMiddleware {
    // The specification functions of the trait are ghost code: they are
    // erased from every call site and never run, but the compiled trait
    // still declares them, so an implementation outside the verified crate
    // supplies unreachable bodies.
    fn before_spec(
        &self,
        _inv: wascc_host::codec::InvocationView,
    ) -> Result<wascc_host::codec::InvocationView, vstd::seq::Seq<char>> {
        panic!()
    }

    fn after_spec(
        &self,
        _resp: wascc_host::codec::ResponseView,
    ) -> Result<wascc_host::codec::ResponseView, vstd::seq::Seq<char>> {
        panic!()
    }

    fn after_actor_spec(
        &self,
        _resp: wascc_host::codec::ResponseView,
    ) -> Result<wascc_host::codec::ResponseView, vstd::seq::Seq<char>> {
        panic!()
    }

    fn before_invoke(&self, inv: Invocation) -> Result<Invocation, String> {
        self.log.borrow_mut().push(format!("{}:before", self.name));
        Ok(inv)
    }

    fn after_invoke(
        &self,
        resp: wascc_host::codec::InvocationResponse,
    ) -> Result<wascc_host::codec::InvocationResponse, String> {
        self.log.borrow_mut().push(format!("{}:after", self.name));
        Ok(resp)
    }

    fn after_actor_invoke(
        &self,
        resp: wascc_host::codec::InvocationResponse,
    ) -> Result<wascc_host::codec::InvocationResponse, String> {
        self.log.borrow_mut().push(format!("{}:after_actor", self.name));
        Ok(resp)
    }
}

/// A hook that denies every actor.
struct DenyAll;

impl AuthHook for DenyAll {
    // The trait's specification function is ghost code, never run; an
    // implementation outside the verified crate supplies an unreachable
    // body.
    fn authorize_spec(&self, _token: wascc_host::authz::TokenView) -> bool {
        panic!()
    }

    fn authorize(&self, _token: &Token) -> bool {
        false
    }
}

fn make_pk(seed: char) -> String {
    let mut pk = String::from("M");
    for _ in 0..55 {
        pk.push(seed);
    }
    pk
}

fn good_validation() -> TokenValidation {
    TokenValidation { signature_valid: true, expired: false, cannot_use_yet: false }
}

fn make_actor(seed: char, caps: Vec<&str>, bytes: &[u8]) -> Actor {
    let claims = Claims {
        subject: make_pk(seed),
        issuer: "AISSUER".to_string(),
        caps: caps.into_iter().map(|c| c.to_string()).collect(),
        expires: None,
        not_before: None,
    };
    let token = Token { jwt: "header.claims.sig".to_string(), claims };
    Actor::new(token, good_validation(), bytes.to_vec())
}

fn descriptor(id: &str) -> CapabilityDescriptor {
    CapabilityDescriptor::new(id.to_string(), format!("{} provider", id), "1.0.0".to_string(), 1)
}

type PlainHost = WasccHost<StubRuntime, RecordingProvider, (), ()>;
type MwHost = WasccHost<StubRuntime, RecordingProvider, RecordingMiddleware, ()>;

#[test]
fn actor_visible_after_add_and_gone_after_remove() {
    let mut host: PlainHost = WasccHost::new();
    let actor = make_actor('A', vec!["wascc:keyvalue"], b"module-a");
    let pk = actor.public_key();
    host.add_actor(actor).unwrap();

    let claims = host.claims_for_actor(&pk).expect("claims must be resident");
    assert_eq!(claims.subject, pk);
    assert_eq!(claims.caps, vec!["wascc:keyvalue".to_string()]);

    let listed: Vec<String> = host.actors().into_iter().map(|p| p.0).collect();
    assert_eq!(listed.iter().filter(|s| **s == pk).count(), 1);

    host.remove_actor(&pk).unwrap();
    assert!(host.claims_for_actor(&pk).is_none());
    assert_eq!(host.actors().len(), 0);
}

#[test]
fn duplicate_actor_is_rejected() {
    let mut host: PlainHost = WasccHost::new();
    let first = make_actor('A', vec![], b"module-a");
    let second = make_actor('A', vec![], b"module-a-again");
    host.add_actor(first).unwrap();
    let err = host.add_actor(second).unwrap_err();
    assert_eq!(err.kind(), ErrorKind::MiscHost);
    assert_eq!(err.message(), "already in this host");
}

#[test]
fn invalid_tokens_are_rejected() {
    let mut host: PlainHost = WasccHost::new();

    let mut actor = make_actor('B', vec![], b"module-b");
    actor.validation.signature_valid = false;
    let err = host.add_actor(actor).unwrap_err();
    assert_eq!(err.kind(), ErrorKind::ClaimsValidation);
    assert_eq!(err.message(), "token signature is invalid");

    let mut actor = make_actor('B', vec![], b"module-b");
    actor.validation.expired = true;
    let err = host.add_actor(actor).unwrap_err();
    assert_eq!(err.kind(), ErrorKind::ClaimsValidation);
    assert_eq!(err.message(), "token has expired");

    let mut actor = make_actor('B', vec![], b"module-b");
    actor.validation.cannot_use_yet = true;
    let err = host.add_actor(actor).unwrap_err();
    assert_eq!(err.kind(), ErrorKind::ClaimsValidation);
    assert_eq!(err.message(), "token cannot be used yet");

    let mut actor = make_actor('B', vec![], b"module-b");
    actor.token.claims.subject = "not-a-key".to_string();
    let err = host.add_actor(actor).unwrap_err();
    assert_eq!(err.kind(), ErrorKind::ClaimsValidation);
    assert_eq!(err.message(), "token subject is not an actor key");
}

#[test]
fn auth_hook_denies_actor() {
    let mut host: WasccHost<StubRuntime, RecordingProvider, (), DenyAll> = WasccHost::new();
    host.set_auth_hook(DenyAll);
    let err = host.add_actor(make_actor('C', vec![], b"module-c")).unwrap_err();
    assert_eq!(err.kind(), ErrorKind::Authorization);
}

#[test]
fn duplicate_native_capability_is_rejected() {
    let mut host: PlainHost = WasccHost::new();
    let log = Rc::new(RefCell::new(Vec::new()));
    let provider =
        |name: &str| RecordingProvider { name: name.to_string(), log: log.clone() };
    host.add_native_capability(NativeCapability::new(
        provider("kv1"),
        descriptor("wascc:keyvalue"),
        None,
    ))
    .unwrap();
    let err = host
        .add_native_capability(NativeCapability::new(
            provider("kv2"),
            descriptor("wascc:keyvalue"),
            None,
        ))
        .unwrap_err();
    assert_eq!(err.kind(), ErrorKind::CapabilityProvider);
    // The same capability under another binding name is fine.
    host.add_native_capability(NativeCapability::new(
        provider("kv3"),
        descriptor("wascc:keyvalue"),
        Some("backup".to_string()),
    ))
    .unwrap();
}

#[test]
fn unauthorized_invocation_never_reaches_the_provider() {
    let mut host: PlainHost = WasccHost::new();
    let log = Rc::new(RefCell::new(Vec::new()));
    host.add_native_capability(NativeCapability::new(
        RecordingProvider { name: "http".to_string(), log: log.clone() },
        descriptor("wascc:http_server"),
        None,
    ))
    .unwrap();
    let actor = make_actor('D', vec!["wascc:keyvalue"], b"module-d");
    let pk = actor.public_key();
    host.add_actor(actor).unwrap();

    let inv = Invocation::new(
        pk.clone(),
        InvocationTarget::Capability {
            capid: "wascc:http_server".to_string(),
            binding: "default".to_string(),
        },
        "HandleRequest",
        Vec::new(),
    );
    let resp = host.invoke("wasmbus.provider.wascc:http_server.default", &inv).unwrap();
    assert!(resp.error.is_some());
    assert!(log.borrow().is_empty(), "the provider must not be entered");
}

#[test]
fn middleware_hooks_run_in_registration_order() {
    let mut host: MwHost = WasccHost::new();
    let log = Rc::new(RefCell::new(Vec::new()));
    for name in ["m1", "m2", "m3"] {
        host.add_middleware(RecordingMiddleware { name: name.to_string(), log: log.clone() });
    }
    let actor = make_actor('E', vec![], b"module-e");
    let pk = actor.public_key();
    host.add_actor(actor).unwrap();
    let answer = host.call_actor(&pk, "ping", b"x").unwrap();
    assert_eq!(answer, b"module-e".to_vec());
    let entries = log.borrow().clone();
    assert_eq!(
        entries,
        vec![
            "m1:before",
            "m2:before",
            "m3:before",
            "m1:after",
            "m2:after",
            "m3:after",
            "m1:after_actor",
            "m2:after_actor",
            "m3:after_actor",
        ]
    );
}

#[test]
fn removing_an_actor_tears_its_bindings_down() {
    let mut host: PlainHost = WasccHost::new();
    let log = Rc::new(RefCell::new(Vec::new()));
    host.add_native_capability(NativeCapability::new(
        RecordingProvider { name: "c1".to_string(), log: log.clone() },
        descriptor("wascc:keyvalue"),
        Some("b1".to_string()),
    ))
    .unwrap();
    host.add_native_capability(NativeCapability::new(
        RecordingProvider { name: "c2".to_string(), log: log.clone() },
        descriptor("wascc:messaging"),
        Some("b2".to_string()),
    ))
    .unwrap();
    let actor = make_actor('F', vec!["wascc:keyvalue", "wascc:messaging"], b"module-f");
    let pk = actor.public_key();
    host.add_actor(actor).unwrap();
    host.bind_actor(&pk, "wascc:keyvalue", Some("b1".to_string()), Vec::new()).unwrap();
    host.bind_actor(&pk, "wascc:messaging", Some("b2".to_string()), Vec::new()).unwrap();
    log.borrow_mut().clear();

    host.remove_actor(&pk).unwrap();
    let entries = log.borrow().clone();
    assert_eq!(
        entries,
        vec![
            format!("c1:system:RemoveActor"),
            format!("c2:system:RemoveActor"),
        ]
    );
    assert!(host.bindings.is_empty());
}

#[test]
fn unauthorized_binding_is_refused_and_not_recorded() {
    let mut host: PlainHost = WasccHost::new();
    let log = Rc::new(RefCell::new(Vec::new()));
    host.add_native_capability(NativeCapability::new(
        RecordingProvider { name: "http".to_string(), log: log.clone() },
        descriptor("wascc:http_server"),
        None,
    ))
    .unwrap();
    let actor = make_actor('G', vec!["wascc:keyvalue"], b"module-g");
    let pk = actor.public_key();
    host.add_actor(actor).unwrap();
    let err = host
        .bind_actor(&pk, "wascc:http_server", None, vec![("PORT".to_string(), "9090".to_string())])
        .unwrap_err();
    assert_eq!(err.kind(), ErrorKind::Authorization);
    assert!(host.bindings.is_empty());
}

#[test]
fn binding_failure_reports_the_provider_message() {
    let mut host: WasccHost<StubRuntime, FailingProvider, (), ()> = WasccHost::new();
    host.add_native_capability(NativeCapability::new(
        FailingProvider,
        descriptor("wascc:fs"),
        None,
    ))
    .unwrap();
    let actor = make_actor('H', vec!["wascc:fs"], b"module-h");
    let pk = actor.public_key();
    host.add_actor(actor).unwrap();
    let err = host.bind_actor(&pk, "wascc:fs", None, Vec::new()).unwrap_err();
    assert_eq!(err.kind(), ErrorKind::CapabilityProvider);
    assert_eq!(err.message(), "provider out of order");
    assert!(host.bindings.is_empty());
}

#[test]
fn provider_error_surfaces_and_shutdown_still_succeeds() {
    let mut host: PlainHost = WasccHost::new();
    let actor = make_actor('I', vec![], b"sentinel-breakage");
    let pk = actor.public_key();
    host.add_actor(actor).unwrap();
    let err = host.call_actor(&pk, "Initialize", b"").unwrap_err();
    assert_eq!(err.kind(), ErrorKind::CapabilityProvider);
    assert!(err.message().ends_with("sentinel-breakage"));
    host.shutdown();
    assert_eq!(host.actors().len(), 0);
    assert_eq!(host.capabilities().len(), 0);
}

#[test]
fn hot_swap_keeps_subject_and_bindings() {
    let mut host: PlainHost = WasccHost::new();
    let log = Rc::new(RefCell::new(Vec::new()));
    host.add_native_capability(NativeCapability::new(
        RecordingProvider { name: "kv".to_string(), log: log.clone() },
        descriptor("wascc:keyvalue"),
        None,
    ))
    .unwrap();
    let v1 = make_actor('J', vec!["wascc:keyvalue"], b"v1");
    let pk = v1.public_key();
    host.add_actor(v1).unwrap();
    host.bind_actor(&pk, "wascc:keyvalue", None, Vec::new()).unwrap();
    assert_eq!(host.call_actor(&pk, "ping", b"").unwrap(), b"v1".to_vec());
    let bindings_before = host.bindings.clone();

    let v2 = make_actor('J', vec!["wascc:keyvalue"], b"v2");
    host.replace_actor(v2).unwrap();
    assert_eq!(host.call_actor(&pk, "ping", b"").unwrap(), b"v2".to_vec());
    assert_eq!(host.bindings, bindings_before);
}

#[test]
fn replace_requires_a_resident_actor() {
    let mut host: PlainHost = WasccHost::new();
    let err = host.replace_actor(make_actor('K', vec![], b"v1")).unwrap_err();
    assert_eq!(err.kind(), ErrorKind::MiscHost);
}

#[test]
fn counter_actor_counts_three_calls() {
    let mut host: PlainHost = WasccHost::new();
    let actor = make_actor('L', vec![], b"counter");
    let pk = actor.public_key();
    host.add_actor(actor).unwrap();
    host.call_actor(&pk, "count", b"").unwrap();
    host.call_actor(&pk, "count", b"").unwrap();
    let third = host.call_actor(&pk, "count", b"").unwrap();
    assert_eq!(third, b"{\"counter\":3}".to_vec());
}

#[test]
fn invoking_an_unknown_subject_is_a_bus_error() {
    let mut host: PlainHost = WasccHost::new();
    let inv = Invocation::new(
        "system".to_string(),
        InvocationTarget::Actor(make_pk('Z')),
        "ping",
        Vec::new(),
    );
    let err = host.invoke("wasmbus.actor.unknown", &inv).unwrap_err();
    assert_eq!(err.kind(), ErrorKind::NoSuchSubscriber);
}

#[test]
fn extras_provider_is_preloaded_and_auto_bound() {
    let mut host: PlainHost = WasccHost::new();
    let caps = host.capabilities();
    assert_eq!(caps.len(), 1);
    assert_eq!(caps[0].0 .0, "default");
    assert_eq!(caps[0].0 .1, "wascc:extras");

    let actor = make_actor('N', vec!["wascc:extras"], b"module-n");
    let pk = actor.public_key();
    host.add_actor(actor).unwrap();
    assert_eq!(
        host.bindings,
        vec![(pk, "wascc:extras".to_string(), "default".to_string())]
    );
}

#[test]
fn remove_native_capability_unloads_the_provider() {
    let mut host: PlainHost = WasccHost::new();
    let log = Rc::new(RefCell::new(Vec::new()));
    host.add_native_capability(NativeCapability::new(
        RecordingProvider { name: "kv".to_string(), log: log.clone() },
        descriptor("wascc:keyvalue"),
        None,
    ))
    .unwrap();
    host.remove_native_capability("wascc:keyvalue", None).unwrap();
    let entries = log.borrow().clone();
    assert_eq!(entries, vec!["kv:system:Deinitialize".to_string()]);
    let err = host.remove_native_capability("wascc:keyvalue", None).unwrap_err();
    assert_eq!(err.kind(), ErrorKind::MiscHost);
}

#[test]
fn apply_manifest_sets_a_host_up_in_order() {
    let mut host: PlainHost = WasccHost::new();
    let log = Rc::new(RefCell::new(Vec::new()));
    let manifest = wascc_host::manifest::HostManifest {
        actors: vec![make_actor('P', vec!["wascc:keyvalue"], b"module-p")],
        capabilities: vec![NativeCapability::new(
            RecordingProvider { name: "kv".to_string(), log: log.clone() },
            descriptor("wascc:keyvalue"),
            None,
        )],
        bindings: vec![wascc_host::manifest::BindingEntry {
            actor: make_pk('P'),
            capability: "wascc:keyvalue".to_string(),
            binding: None,
            values: vec![("URL".to_string(), "redis://localhost".to_string())],
        }],
    };
    host.apply_manifest(manifest).unwrap();
    assert_eq!(host.bindings.len(), 1);
    assert!(host.claims_for_actor(&make_pk('P')).is_some());
}

#[test]
fn two_actors_bind_to_one_provider_with_distinct_ports() {
    let mut host: PlainHost = WasccHost::new();
    let log = Rc::new(RefCell::new(Vec::new()));
    host.add_native_capability(NativeCapability::new(
        RecordingProvider { name: "http".to_string(), log: log.clone() },
        descriptor("wascc:http_server"),
        None,
    ))
    .unwrap();
    let first = make_actor('Q', vec!["wascc:http_server"], b"module-q");
    let second = make_actor('R', vec!["wascc:http_server"], b"module-r");
    let (pk1, pk2) = (first.public_key(), second.public_key());
    host.add_actor(first).unwrap();
    host.add_actor(second).unwrap();
    host.bind_actor(&pk1, "wascc:http_server", None, vec![(
        "PORT".to_string(),
        "9090".to_string(),
    )])
    .unwrap();
    host.bind_actor(&pk2, "wascc:http_server", None, vec![(
        "PORT".to_string(),
        "9091".to_string(),
    )])
    .unwrap();
    assert_eq!(host.actors().len(), 2);
    assert_eq!(host.bindings.len(), 2);
    assert_eq!(host.bindings[0].0, pk1);
    assert_eq!(host.bindings[1].0, pk2);
    let entries = log.borrow().clone();
    assert_eq!(
        entries,
        vec!["http:system:BindActor".to_string(), "http:system:BindActor".to_string()]
    );
    // Each actor still answers on its own subject.
    assert_eq!(host.call_actor(&pk1, "ping", b"").unwrap(), b"module-q".to_vec());
    assert_eq!(host.call_actor(&pk2, "ping", b"").unwrap(), b"module-r".to_vec());
}

#[test]
fn shutdown_tears_bindings_down_before_draining_providers() {
    let mut host: PlainHost = WasccHost::new();
    let log = Rc::new(RefCell::new(Vec::new()));
    host.add_native_capability(NativeCapability::new(
        RecordingProvider { name: "kv".to_string(), log: log.clone() },
        descriptor("wascc:keyvalue"),
        None,
    ))
    .unwrap();
    let actor = make_actor('S', vec!["wascc:keyvalue"], b"module-s");
    let pk = actor.public_key();
    host.add_actor(actor).unwrap();
    host.bind_actor(&pk, "wascc:keyvalue", None, Vec::new()).unwrap();
    log.borrow_mut().clear();
    host.shutdown();
    let entries = log.borrow().clone();
    assert_eq!(
        entries,
        vec!["kv:system:RemoveActor".to_string(), "kv:system:Deinitialize".to_string()]
    );
    assert!(host.bindings.is_empty());
    assert_eq!(host.capabilities().len(), 0);
}

#[test]
fn dotted_subject_components_are_rejected() {
    let mut host: PlainHost = WasccHost::new();
    let log = Rc::new(RefCell::new(Vec::new()));
    let err = host
        .add_native_capability(NativeCapability::new(
            RecordingProvider { name: "kv".to_string(), log: log.clone() },
            descriptor("wascc.keyvalue"),
            None,
        ))
        .unwrap_err();
    assert_eq!(err.kind(), ErrorKind::CapabilityProvider);
    assert_eq!(err.message(), "subject components must not contain dots");

    let actor = make_actor('T', vec!["wascc:keyvalue"], b"module-t");
    let pk = actor.public_key();
    host.add_actor(actor).unwrap();
    let err = host
        .bind_actor(&pk, "wascc:keyvalue", Some("a.b".to_string()), Vec::new())
        .unwrap_err();
    assert_eq!(err.kind(), ErrorKind::MiscHost);
    assert_eq!(err.message(), "subject components must not contain dots");
    assert!(host.bindings.is_empty());
}

#[test]
fn route_key_builds_the_registry_key() {
    let key = wascc_host::route_key("default", "wascc:http_server");
    assert_eq!(key.0, "default");
    assert_eq!(key.1, "wascc:http_server");
}
