//! The message bus: subject naming and the in-process subscription registry.
//!
//! Every actor and every capability provider is addressed by exactly one
//! subject. The in-process transport keeps a table from subjects to
//! subscribers; the networked transport lives outside this crate and uses the
//! same subject grammar and the wire codec of [`crate::codec`].
//!
//! A subject may have at most one subscriber; a second subscription to the
//! same subject is rejected. Unsubscribing a subject with no subscriber does
//! nothing.

use vstd::prelude::*;
use vstd::string::*;
use crate::errors::{Error, ErrorKind};

verus! {

/// The subject prefix for actors.
pub const ACTOR_SUBJECT_PREFIX: &'static str = "wasmbus.actor.";

/// The subject prefix for capability providers.
pub const PROVIDER_SUBJECT_PREFIX: &'static str = "wasmbus.provider.";

/// The subject under which an actor with public key `pk` is addressed.
pub open spec fn spec_actor_subject(pk: Seq<char>) -> Seq<char> {
    ACTOR_SUBJECT_PREFIX@ + pk
}

/// The subject under which the provider of capability `capid` bound under
/// `binding` is addressed.
pub open spec fn spec_provider_subject(capid: Seq<char>, binding: Seq<char>) -> Seq<char> {
    PROVIDER_SUBJECT_PREFIX@ + capid + "."@ + binding
}

/// Builds the bus subject of the actor with public key `pk`.
///
/// The subject grammar expects components without `.`; an actor key never
/// contains one. The result is exactly the prefixed key, so two distinct
/// keys always give two distinct subjects.
pub fn actor_subject(pk: &str) -> (r: String)
    ensures
        r@ == spec_actor_subject(pk@),
{
    let mut s = String::from_str(ACTOR_SUBJECT_PREFIX);
    s.append(pk);
    s
}

/// Builds the bus subject of the provider of capability `capid` under the
/// binding name `binding`.
///
/// The subject grammar expects components without `.`. The builder itself
/// is total — the result is exactly the prefixed, dot-joined pair, so a
/// dotted component could collide with another pair's subject — and the
/// host therefore refuses dotted capability ids and binding names wherever
/// providers and bindings are registered.
pub fn provider_subject(capid: &str, binding: &str) -> (r: String)
    ensures
        r@ == spec_provider_subject(capid@, binding@),
{
    let mut s = String::from_str(PROVIDER_SUBJECT_PREFIX);
    s.append(capid);
    s.append(".");
    s.append(binding);
    s
}

/// Whether `s` contains the subject separator `.`. Subject components must
/// not, or two distinct component pairs could collide on one subject.
pub open spec fn spec_has_dot(s: Seq<char>) -> bool {
    exists|i: int| 0 <= i < s.len() && s[i] == '.'
}

/// Whether `s` contains the subject separator `.`.
pub fn has_dot(s: &str) -> (r: bool)
    ensures
        r == spec_has_dot(s@),
{
    let n = s.unicode_len();
    let mut i: usize = 0;
    while i < n
        invariant
            i <= n,
            n == s@.len(),
            forall|j: int| 0 <= j < i ==> s@[j] != '.',
        decreases n - i,
    {
        if s.get_char(i) == '.' {
            return true;
        }
        i = i + 1;
    }
    false
}

/// The in-process message bus: a table from subjects to subscribers, at most
/// one subscriber per subject.
pub struct InprocBus<W> {
    subs: Vec<(String, W)>,
}

impl<W> InprocBus<W> {
    /// The table of subscriptions, in subscription order.
    pub closed spec fn entries(&self) -> Seq<(String, W)> {
        self.subs@
    }

    /// No two subscriptions share a subject.
    pub open spec fn wf(&self) -> bool {
        forall|i: int, j: int|
            0 <= i < j < self.entries().len() ==> (#[trigger] self.entries()[i]).0@ != (
            #[trigger] self.entries()[j]).0@
    }

    /// Whether some subscriber is registered under `subject`.
    pub open spec fn spec_has_subscriber(&self, subject: Seq<char>) -> bool {
        exists|i: int|
            0 <= i < self.entries().len() && (#[trigger] self.entries()[i]).0@ == subject
    }

    /// An empty bus with no subscriptions.
    pub fn new() -> (r: Self)
        ensures
            r.entries() =~= Seq::<(String, W)>::empty(),
            r.wf(),
    {
        InprocBus { subs: Vec::new() }
    }

    /// The position of the subscriber registered under `subject`, if any.
    pub fn find(&self, subject: &str) -> (r: Option<usize>)
        ensures
            match r {
                Some(i) => i < self.entries().len() && self.entries()[i as int].0@ == subject@,
                None => !self.spec_has_subscriber(subject@),
            },
    {
        let mut i: usize = 0;
        while i < self.subs.len()
            invariant
                i <= self.entries().len(),
                forall|j: int| 0 <= j < i ==> (#[trigger] self.entries()[j]).0@ != subject@,
            decreases self.entries().len() - i,
        {
            if crate::authz::str_eq(self.subs[i].0.as_str(), subject) {
                return Some(i);
            }
            i = i + 1;
        }
        None
    }

    /// Whether a subscriber is registered under `subject`.
    pub fn has_subscriber(&self, subject: &str) -> (r: bool)
        ensures
            r == self.spec_has_subscriber(subject@),
    {
        self.find(subject).is_some()
    }

    /// Registers `w` as the subscriber of `subject`. Rejected when the
    /// subject already has a subscriber: the bus never silently replaces a
    /// live subscription.
    pub fn subscribe(&mut self, subject: String, w: W) -> (r: Result<(), Error>)
        requires
            old(self).wf(),
        ensures
            final(self).wf(),
            r is Ok <==> !old(self).spec_has_subscriber(subject@),
            r is Ok ==> final(self).entries() =~= old(self).entries().push((subject, w)),
            r is Err ==> final(self).entries() =~= old(self).entries() && (r matches Err(e)
                ==> e.kind == ErrorKind::MiscHost),
    {
        if self.has_subscriber(subject.as_str()) {
            return Err(
                Error::new(
                    ErrorKind::MiscHost,
                    String::from_str("subject already has a subscriber"),
                ),
            );
        }
        self.subs.push((subject, w));
        proof {
            assert forall|i: int, j: int|
                0 <= i < j < self.entries().len() implies (#[trigger] self.entries()[i]).0@ != (
            #[trigger] self.entries()[j]).0@ by {
                if j < self.entries().len() - 1 {
                    assert(self.entries()[i] == old(self).entries()[i]);
                    assert(self.entries()[j] == old(self).entries()[j]);
                } else {
                    assert(self.entries()[i] == old(self).entries()[i]);
                    assert(!old(self).spec_has_subscriber(self.entries()[j].0@));
                }
            }
        }
        Ok(())
    }

    /// Removes and returns the subscriber of `subject`. Idempotent: on a
    /// subject with no subscriber the bus is unchanged and `None` comes back.
    pub fn take(&mut self, subject: &str) -> (r: Option<(String, W)>)
        requires
            old(self).wf(),
        ensures
            final(self).wf(),
            match r {
                Some(entry) => old(self).spec_has_subscriber(subject@) && entry.0@ == subject@
                    && (exists|i: int|
                    0 <= i < old(self).entries().len() && old(self).entries()[i] == entry
                        && final(self).entries() =~= old(self).entries().remove(i)),
                None => !old(self).spec_has_subscriber(subject@) && final(self).entries()
                    =~= old(self).entries(),
            },
            !final(self).spec_has_subscriber(subject@),
    {
        let found = self.find(subject);
        match found {
            Some(i) => {
                let entry = self.subs.remove(i);
                proof {
                    assert forall|k: int|
                        0 <= k < self.entries().len() implies (
                    #[trigger] self.entries()[k]).0@ != subject@ by {
                        if k < i {
                            assert(self.entries()[k] == old(self).entries()[k]);
                        } else {
                            assert(self.entries()[k] == old(self).entries()[k + 1]);
                        }
                    }
                }
                Some(entry)
            },
            None => None,
        }
    }

    /// Removes and returns the most recently added subscription, if any.
    pub fn pop(&mut self) -> (r: Option<(String, W)>)
        requires
            old(self).wf(),
        ensures
            final(self).wf(),
            match r {
                Some(entry) => old(self).entries().len() > 0 && entry == old(self).entries().last()
                    && final(self).entries() =~= old(self).entries().drop_last(),
                None => old(self).entries().len() == 0 && final(self).entries() =~= old(
                    self,
                ).entries(),
            },
    {
        self.subs.pop()
    }

    /// Removes the subscription of `subject` if one exists; never fails.
    pub fn unsubscribe(&mut self, subject: &str)
        requires
            old(self).wf(),
        ensures
            final(self).wf(),
            !final(self).spec_has_subscriber(subject@),
            old(self).spec_has_subscriber(subject@) ==> exists|i: int|
                0 <= i < old(self).entries().len() && (#[trigger] old(self).entries()[i]).0@
                    == subject@ && final(self).entries() =~= old(self).entries().remove(i),
            !old(self).spec_has_subscriber(subject@) ==> final(self).entries() =~= old(
                self,
            ).entries(),
    {
        let r = self.take(subject);
        proof {
            if old(self).spec_has_subscriber(subject@) {
                let entry = r->Some_0;
                let i = choose|i: int|
                    0 <= i < old(self).entries().len() && old(self).entries()[i] == entry
                        && self.entries() =~= old(self).entries().remove(i);
                assert(old(self).entries()[i].0@ == subject@);
            }
        }
    }
}

} // verus!
