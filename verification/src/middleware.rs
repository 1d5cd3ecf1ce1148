//! Ordered middleware around invocation dispatch.
//!
//! A middleware may rewrite the envelope before dispatch and the response
//! after it. The hooks run in registration order for `before_invoke`, and in
//! **the same order** — not reversed — for `after_invoke` and
//! `after_actor_invoke`. An error from any hook short-circuits the chain;
//! the sandbox is not entered in that case.
//!
//! Each implementation states what its hooks compute as spec functions, so
//! the chain runners below can promise exactly the fold of the hooks in
//! order.

use vstd::prelude::*;
use crate::codec::{Invocation, InvocationResponse, InvocationView, ResponseView};

verus! {

/// A middleware item: three synchronous hooks around dispatch.
pub trait Middleware {
    /// What `before_invoke` does to an envelope.
    spec fn before_spec(&self, inv: InvocationView) -> Result<InvocationView, Seq<char>>;

    /// What `after_invoke` does to a response.
    spec fn after_spec(&self, resp: ResponseView) -> Result<ResponseView, Seq<char>>;

    /// What `after_actor_invoke` does to a response.
    spec fn after_actor_spec(&self, resp: ResponseView) -> Result<ResponseView, Seq<char>>;

    /// Runs before dispatch; may rewrite the envelope or fail the call.
    fn before_invoke(&self, inv: Invocation) -> (r: Result<Invocation, String>)
        ensures
            r matches Ok(i) ==> self.before_spec(inv@) == Ok::<InvocationView, Seq<char>>(i@),
            r matches Err(e) ==> self.before_spec(inv@) == Err::<InvocationView, Seq<char>>(e@),
    ;

    /// Runs after dispatch; may rewrite the response or fail the call.
    fn after_invoke(&self, resp: InvocationResponse) -> (r: Result<InvocationResponse, String>)
        ensures
            r matches Ok(i) ==> self.after_spec(resp@) == Ok::<ResponseView, Seq<char>>(i@),
            r matches Err(e) ==> self.after_spec(resp@) == Err::<ResponseView, Seq<char>>(e@),
    ;

    /// Runs after dispatch when the target is an actor.
    fn after_actor_invoke(&self, resp: InvocationResponse) -> (r: Result<
        InvocationResponse,
        String,
    >)
        ensures
            r matches Ok(i) ==> self.after_actor_spec(resp@) == Ok::<ResponseView, Seq<char>>(i@),
            r matches Err(e) ==> self.after_actor_spec(resp@) == Err::<ResponseView, Seq<char>>(
                e@,
            ),
    ;
}

/// The middleware that does nothing: every hook passes its argument on.
impl Middleware for () {
    open spec fn before_spec(&self, inv: InvocationView) -> Result<InvocationView, Seq<char>> {
        Ok(inv)
    }

    open spec fn after_spec(&self, resp: ResponseView) -> Result<ResponseView, Seq<char>> {
        Ok(resp)
    }

    open spec fn after_actor_spec(&self, resp: ResponseView) -> Result<ResponseView, Seq<char>> {
        Ok(resp)
    }

    fn before_invoke(&self, inv: Invocation) -> (r: Result<Invocation, String>) {
        Ok(inv)
    }

    fn after_invoke(&self, resp: InvocationResponse) -> (r: Result<InvocationResponse, String>) {
        Ok(resp)
    }

    fn after_actor_invoke(&self, resp: InvocationResponse) -> (r: Result<
        InvocationResponse,
        String,
    >) {
        Ok(resp)
    }
}

/// The fold of the `before_invoke` hooks of `ms`, first to last: each hook
/// sees the envelope the previous one produced, and the first error stops
/// the chain.
pub open spec fn spec_run_before<M: Middleware>(ms: Seq<M>, inv: InvocationView) -> Result<
    InvocationView,
    Seq<char>,
>
    decreases ms.len(),
{
    if ms.len() == 0 {
        Ok(inv)
    } else {
        match ms[0].before_spec(inv) {
            Err(e) => Err(e),
            Ok(next) => spec_run_before(ms.drop_first(), next),
        }
    }
}

/// The fold of the `after_invoke` hooks of `ms`, in the same first-to-last
/// order as the before chain.
pub open spec fn spec_run_after<M: Middleware>(ms: Seq<M>, resp: ResponseView) -> Result<
    ResponseView,
    Seq<char>,
>
    decreases ms.len(),
{
    if ms.len() == 0 {
        Ok(resp)
    } else {
        match ms[0].after_spec(resp) {
            Err(e) => Err(e),
            Ok(next) => spec_run_after(ms.drop_first(), next),
        }
    }
}

/// The fold of the `after_actor_invoke` hooks of `ms`, first to last.
pub open spec fn spec_run_after_actor<M: Middleware>(ms: Seq<M>, resp: ResponseView) -> Result<
    ResponseView,
    Seq<char>,
>
    decreases ms.len(),
{
    if ms.len() == 0 {
        Ok(resp)
    } else {
        match ms[0].after_actor_spec(resp) {
            Err(e) => Err(e),
            Ok(next) => spec_run_after_actor(ms.drop_first(), next),
        }
    }
}

/// Runs the `before_invoke` chain in registration order. The result is
/// exactly the fold of the hooks, first to last, stopping at the first
/// error.
pub fn run_before<M: Middleware>(ms: &Vec<M>, inv: &Invocation) -> (r: Result<Invocation, String>)
    ensures
        r matches Ok(i) ==> spec_run_before(ms@, inv@) == Ok::<InvocationView, Seq<char>>(i@),
        r matches Err(e) ==> spec_run_before(ms@, inv@) == Err::<InvocationView, Seq<char>>(e@),
{
    let ghost inv0 = inv@;
    proof {
        assert(ms@.skip(0) =~= ms@);
    }
    let mut cur = inv.duplicate();
    let mut i: usize = 0;
    while i < ms.len()
        invariant
            i <= ms@.len(),
            inv0 == inv@,
            spec_run_before(ms@, inv0) == spec_run_before(ms@.skip(i as int), cur@),
        decreases ms@.len() - i,
    {
        proof {
            assert(ms@.skip(i as int)[0] == ms@[i as int]);
            assert(ms@.skip(i as int).drop_first() =~= ms@.skip(i + 1));
        }
        let ghost cur_v = cur@;
        match ms[i].before_invoke(cur) {
            Ok(next) => {
                cur = next;
            },
            Err(e) => {
                proof {
                    assert(ms@[i as int].before_spec(cur_v) == Err::<InvocationView, Seq<char>>(e@));
                    assert(spec_run_before(ms@.skip(i as int), cur_v) == Err::<InvocationView, Seq<char>>(e@));
                }
                return Err(e);
            },
        }
        i = i + 1;
    }
    proof {
        assert(ms@.skip(ms@.len() as int).len() == 0);
    }
    Ok(cur)
}

/// Runs the `after_invoke` chain, in the same order as the before chain.
pub fn run_after<M: Middleware>(ms: &Vec<M>, resp: &InvocationResponse) -> (r: Result<
    InvocationResponse,
    String,
>)
    ensures
        r matches Ok(i) ==> spec_run_after(ms@, resp@) == Ok::<ResponseView, Seq<char>>(i@),
        r matches Err(e) ==> spec_run_after(ms@, resp@) == Err::<ResponseView, Seq<char>>(e@),
{
    let ghost r0 = resp@;
    proof {
        assert(ms@.skip(0) =~= ms@);
    }
    let mut cur = resp.duplicate();
    let mut i: usize = 0;
    while i < ms.len()
        invariant
            i <= ms@.len(),
            r0 == resp@,
            spec_run_after(ms@, r0) == spec_run_after(ms@.skip(i as int), cur@),
        decreases ms@.len() - i,
    {
        proof {
            assert(ms@.skip(i as int)[0] == ms@[i as int]);
            assert(ms@.skip(i as int).drop_first() =~= ms@.skip(i + 1));
        }
        let ghost cur_v = cur@;
        match ms[i].after_invoke(cur) {
            Ok(next) => {
                cur = next;
            },
            Err(e) => {
                proof {
                    assert(ms@[i as int].after_spec(cur_v) == Err::<ResponseView, Seq<char>>(e@));
                    assert(spec_run_after(ms@.skip(i as int), cur_v) == Err::<ResponseView, Seq<char>>(e@));
                }
                return Err(e);
            },
        }
        i = i + 1;
    }
    proof {
        assert(ms@.skip(ms@.len() as int).len() == 0);
    }
    Ok(cur)
}

/// Runs the `after_actor_invoke` chain, first to last.
pub fn run_after_actor<M: Middleware>(ms: &Vec<M>, resp: &InvocationResponse) -> (r: Result<
    InvocationResponse,
    String,
>)
    ensures
        r matches Ok(i) ==> spec_run_after_actor(ms@, resp@) == Ok::<ResponseView, Seq<char>>(i@),
        r matches Err(e) ==> spec_run_after_actor(ms@, resp@) == Err::<ResponseView, Seq<char>>(
            e@,
        ),
{
    let ghost r0 = resp@;
    proof {
        assert(ms@.skip(0) =~= ms@);
    }
    let mut cur = resp.duplicate();
    let mut i: usize = 0;
    while i < ms.len()
        invariant
            i <= ms@.len(),
            r0 == resp@,
            spec_run_after_actor(ms@, r0) == spec_run_after_actor(ms@.skip(i as int), cur@),
        decreases ms@.len() - i,
    {
        proof {
            assert(ms@.skip(i as int)[0] == ms@[i as int]);
            assert(ms@.skip(i as int).drop_first() =~= ms@.skip(i + 1));
        }
        let ghost cur_v = cur@;
        match ms[i].after_actor_invoke(cur) {
            Ok(next) => {
                cur = next;
            },
            Err(e) => {
                proof {
                    assert(ms@[i as int].after_actor_spec(cur_v) == Err::<ResponseView, Seq<char>>(e@));
                    assert(spec_run_after_actor(ms@.skip(i as int), cur_v) == Err::<ResponseView, Seq<char>>(e@));
                }
                return Err(e);
            },
        }
        i = i + 1;
    }
    proof {
        assert(ms@.skip(ms@.len() as int).len() == 0);
    }
    Ok(cur)
}

} // verus!
