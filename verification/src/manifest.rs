//! Declarative host manifests.
//!
//! A manifest enumerates actors, native capability providers, and bindings.
//! Loading manifest files and module bytes from disk happens outside this
//! crate; a manifest arrives here with every module already loaded, and is
//! applied in order — actors, then providers, then bindings — stopping at
//! the first error.

use vstd::prelude::*;
use crate::actor::Actor;
use crate::capability::NativeCapability;
use crate::errors::Error;
use crate::middleware::Middleware;
use crate::runtime::{ModuleRuntime, CapabilityHandler, AuthHook};
use crate::{WasccHost, spec_claims_has, spec_caps_has, spec_has_binding, spec_binding_or_default};

verus! {

/// One binding a manifest asks for.
pub struct BindingEntry {
    /// The actor's public key.
    pub actor: String,
    /// The capability id to bind to.
    pub capability: String,
    /// The binding name; default when absent.
    pub binding: Option<String>,
    /// The configuration values handed to the provider.
    pub values: Vec<(String, String)>,
}

/// A loaded manifest: what to add to a host, in application order.
pub struct HostManifest<P: CapabilityHandler> {
    pub actors: Vec<Actor>,
    pub capabilities: Vec<NativeCapability<P>>,
    pub bindings: Vec<BindingEntry>,
}

impl<R: ModuleRuntime, P: CapabilityHandler, M: Middleware, A: AuthHook> WasccHost<R, P, M, A> {
    /// Applies a manifest: adds its actors, then its native providers, then
    /// its bindings, in that order, stopping at the first error. On success
    /// every manifest actor is resident, every provider key is registered,
    /// and every asked-for binding row is recorded.
    pub fn apply_manifest(&mut self, manifest: HostManifest<P>) -> (r: Result<(), Error>)
        requires
            old(self).wf(),
        ensures
            final(self).wf(),
            final(self).middlewares@ == old(self).middlewares@,
            (manifest.actors@.len() == 0 && manifest.capabilities@.len() == 0
                && manifest.bindings@.len() == 0) ==> r is Ok,
            final(self).claims@.len() >= old(self).claims@.len() && final(self).claims@.take(
                old(self).claims@.len() as int,
            ) == old(self).claims@,
            final(self).caps@.len() >= old(self).caps@.len() && final(self).caps@.take(
                old(self).caps@.len() as int,
            ) == old(self).caps@,
            final(self).bindings@.len() >= old(self).bindings@.len() && final(self).bindings@.take(old(self).bindings@.len() as int) == old(self).bindings@,
            final(self).caps@.len() > old(self).caps@.len() ==> forall|i: int|
                0 <= i < manifest.actors@.len() ==> spec_claims_has(
                    final(self).claims@,
                    (#[trigger] manifest.actors@[i]).token.claims@.subject,
                ),
            r is Ok ==> forall|i: int|
                0 <= i < manifest.actors@.len() ==> spec_claims_has(
                    final(self).claims@,
                    (#[trigger] manifest.actors@[i]).token.claims@.subject,
                ),
            r is Ok ==> forall|i: int|
                0 <= i < manifest.capabilities@.len() ==> spec_caps_has(
                    final(self).caps@,
                    (#[trigger] manifest.capabilities@[i]).binding_name@,
                    manifest.capabilities@[i].descriptor@.id,
                ),
            r is Ok ==> forall|i: int|
                0 <= i < manifest.bindings@.len() ==> spec_has_binding(
                    final(self).bindings@,
                    (#[trigger] manifest.bindings@[i]).actor@,
                    manifest.bindings@[i].capability@,
                    spec_binding_or_default(manifest.bindings@[i].binding),
                ),
    {
        let HostManifest { mut actors, mut capabilities, mut bindings } = manifest;
        let ghost actors0 = actors@;
        let ghost caps0 = capabilities@;
        let ghost binds0 = bindings@;
        while actors.len() > 0
            invariant
                self.wf(),
                self.middlewares@ == old(self).middlewares@,
                actors0 == manifest.actors@,
                actors@.len() <= actors0.len(),
                actors@ =~= actors0.skip(actors0.len() - actors@.len()),
                self.caps@ == old(self).caps@,
                self.claims@.len() >= old(self).claims@.len() && self.claims@.take(
                    old(self).claims@.len() as int,
                ) == old(self).claims@,
                self.bindings@.len() >= old(self).bindings@.len() && self.bindings@.take(
                    old(self).bindings@.len() as int,
                ) == old(self).bindings@,
                forall|i: int|
                    0 <= i < actors0.len() - actors@.len() ==> spec_claims_has(
                        self.claims@,
                        (#[trigger] actors0[i]).token.claims@.subject,
                    ),
            decreases actors@.len(),
        {
            let ghost k = actors0.len() - actors@.len();
            proof {
                assert(actors@[0] == actors0[k as int]);
                assert(actors0.skip(k as int).drop_first() =~= actors0.skip(k + 1));
            }
            let a = actors.remove(0);
            let ghost pre = self.claims@;
            let ghost pre_binds = self.bindings@;
            match self.add_actor(a) {
                Ok(()) => {},
                Err(e) => {
                    proof {
                        assert(self.claims@.take(pre.len() as int) == pre);
                        assert(self.claims@.take(old(self).claims@.len() as int) =~= old(
                            self,
                        ).claims@);
                        assert(self.bindings@.take(pre_binds.len() as int) == pre_binds);
                        assert(self.bindings@.take(old(self).bindings@.len() as int) =~= old(
                            self,
                        ).bindings@);
                    }
                    return Err(e);
                },
            }
            proof {
                assert(self.claims@.take(pre.len() as int) == pre);
                assert(self.claims@.take(old(self).claims@.len() as int) =~= old(self).claims@);
                assert(self.bindings@.take(pre_binds.len() as int) == pre_binds || self.bindings@
                    == pre_binds);
                assert(self.bindings@.take(old(self).bindings@.len() as int) =~= old(self).bindings@);
                assert forall|i: int|
                    0 <= i < k + 1 implies spec_claims_has(
                    self.claims@,
                    (#[trigger] actors0[i]).token.claims@.subject,
                ) by {
                    if i < k {
                        let w = choose|w: int|
                            0 <= w < pre.len() && (#[trigger] pre[w]).0@
                                == actors0[i].token.claims@.subject;
                        assert(self.claims@.take(pre.len() as int)[w] == pre[w]);
                        assert(self.claims@[w].0@ == actors0[i].token.claims@.subject);
                    } else {
                        assert(self.claims@.last().0@ == actors0[i].token.claims@.subject);
                    }
                }
            }
        }
        while capabilities.len() > 0
            invariant
                self.wf(),
                self.middlewares@ == old(self).middlewares@,
                actors0 == manifest.actors@,
                caps0 == manifest.capabilities@,
                capabilities@.len() <= caps0.len(),
                capabilities@ =~= caps0.skip(caps0.len() - capabilities@.len()),
                self.claims@.len() >= old(self).claims@.len() && self.claims@.take(
                    old(self).claims@.len() as int,
                ) == old(self).claims@,
                self.caps@.len() >= old(self).caps@.len() && self.caps@.take(
                    old(self).caps@.len() as int,
                ) == old(self).caps@,
                self.bindings@.len() >= old(self).bindings@.len() && self.bindings@.take(
                    old(self).bindings@.len() as int,
                ) == old(self).bindings@,
                forall|i: int|
                    0 <= i < actors0.len() ==> spec_claims_has(
                        self.claims@,
                        (#[trigger] actors0[i]).token.claims@.subject,
                    ),
                forall|i: int|
                    0 <= i < caps0.len() - capabilities@.len() ==> spec_caps_has(
                        self.caps@,
                        (#[trigger] caps0[i]).binding_name@,
                        caps0[i].descriptor@.id,
                    ),
            decreases capabilities@.len(),
        {
            let ghost k = caps0.len() - capabilities@.len();
            proof {
                assert(capabilities@[0] == caps0[k as int]);
                assert(caps0.skip(k as int).drop_first() =~= caps0.skip(k + 1));
            }
            let c = capabilities.remove(0);
            let ghost pre = self.caps@;
            match self.add_native_capability(c) {
                Ok(()) => {},
                Err(e) => {
                    return Err(e);
                },
            }
            proof {
                assert(self.caps@.take(pre.len() as int) == pre);
                assert(self.caps@.take(old(self).caps@.len() as int) =~= old(self).caps@);
                assert forall|i: int|
                    0 <= i < k + 1 implies spec_caps_has(
                    self.caps@,
                    (#[trigger] caps0[i]).binding_name@,
                    caps0[i].descriptor@.id,
                ) by {
                    if i < k {
                        let w = choose|w: int|
                            0 <= w < pre.len() && (#[trigger] pre[w]).0.0@ == caps0[i].binding_name@
                                && pre[w].0.1@ == caps0[i].descriptor@.id;
                        assert(self.caps@.take(pre.len() as int)[w] == pre[w]);
                        assert(self.caps@[w].0.0@ == caps0[i].binding_name@ && self.caps@[w].0.1@
                            == caps0[i].descriptor@.id);
                    } else {
                        assert(self.caps@.last().0.0@ == caps0[i].binding_name@
                            && self.caps@.last().0.1@ == caps0[i].descriptor@.id);
                    }
                }
            }
        }
        while bindings.len() > 0
            invariant
                self.wf(),
                self.middlewares@ == old(self).middlewares@,
                actors0 == manifest.actors@,
                caps0 == manifest.capabilities@,
                binds0 == manifest.bindings@,
                bindings@.len() <= binds0.len(),
                bindings@ =~= binds0.skip(binds0.len() - bindings@.len()),
                self.claims@.len() >= old(self).claims@.len() && self.claims@.take(
                    old(self).claims@.len() as int,
                ) == old(self).claims@,
                self.caps@.len() >= old(self).caps@.len() && self.caps@.take(
                    old(self).caps@.len() as int,
                ) == old(self).caps@,
                self.bindings@.len() >= old(self).bindings@.len() && self.bindings@.take(
                    old(self).bindings@.len() as int,
                ) == old(self).bindings@,
                forall|i: int|
                    0 <= i < actors0.len() ==> spec_claims_has(
                        self.claims@,
                        (#[trigger] actors0[i]).token.claims@.subject,
                    ),
                forall|i: int|
                    0 <= i < caps0.len() ==> spec_caps_has(
                        self.caps@,
                        (#[trigger] caps0[i]).binding_name@,
                        caps0[i].descriptor@.id,
                    ),
                forall|i: int|
                    0 <= i < binds0.len() - bindings@.len() ==> spec_has_binding(
                        self.bindings@,
                        (#[trigger] binds0[i]).actor@,
                        binds0[i].capability@,
                        spec_binding_or_default(binds0[i].binding),
                    ),
            decreases bindings@.len(),
        {
            let ghost k = binds0.len() - bindings@.len();
            proof {
                assert(bindings@[0] == binds0[k as int]);
                assert(binds0.skip(k as int).drop_first() =~= binds0.skip(k + 1));
            }
            let b = bindings.remove(0);
            let ghost pre = self.bindings@;
            match self.bind_actor(b.actor.as_str(), b.capability.as_str(), b.binding, b.values) {
                Ok(()) => {},
                Err(e) => {
                    return Err(e);
                },
            }
            proof {
                assert(self.bindings@.take(pre.len() as int) == pre);
                assert(self.bindings@.take(old(self).bindings@.len() as int) =~= old(self).bindings@);
                assert forall|i: int|
                    0 <= i < k + 1 implies spec_has_binding(
                    self.bindings@,
                    (#[trigger] binds0[i]).actor@,
                    binds0[i].capability@,
                    spec_binding_or_default(binds0[i].binding),
                ) by {
                    if i < k {
                        let w = choose|w: int|
                            0 <= w < pre.len() && (#[trigger] pre[w]).0@ == binds0[i].actor@
                                && pre[w].1@ == binds0[i].capability@ && pre[w].2@
                                == spec_binding_or_default(binds0[i].binding);
                        assert(self.bindings@.take(pre.len() as int)[w] == pre[w]);
                        assert(self.bindings@[w].0@ == binds0[i].actor@ && self.bindings@[w].1@
                            == binds0[i].capability@ && self.bindings@[w].2@
                            == spec_binding_or_default(binds0[i].binding));
                    } else {
                        assert(self.bindings@.last().0@ == binds0[i].actor@
                            && self.bindings@.last().1@ == binds0[i].capability@
                            && self.bindings@.last().2@ == spec_binding_or_default(
                            binds0[i].binding,
                        ));
                    }
                }
            }
        }
        Ok(())
    }
}

} // verus!
