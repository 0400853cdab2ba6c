//! The process-wide fault-handler slot, modeled as a single ordered list of
//! handlers invoked front to back when a fault occurs. Replace-mode
//! registration makes the slot exactly the supplied handler; chain-mode
//! registration puts the supplied handler in front of every handler already
//! installed, preserving them.

use vstd::prelude::*;

verus! {

/// `states` records a run of `handlers` front to back: it holds the fault
/// datum as it stood before the first handler, between every two handlers,
/// and after the last one, and each handler can indeed take its entry datum
/// to its exit datum.
pub open spec fn threads_through<S, H: Fn(S) -> S>(handlers: Seq<H>, states: Seq<S>) -> bool {
    &&& states.len() == handlers.len() + 1
    &&& forall|i: int| 0 <= i < handlers.len()
        ==> call_ensures(#[trigger] handlers[i], (states[i],), states[i + 1])
}

/// The handlers in `handlers`, run front to back and each handed the fault
/// datum as the handler before it left it, can relate the starting datum `s0`
/// to the final datum `s1`.
pub open spec fn runs_to<S, H: Fn(S) -> S>(handlers: Seq<H>, s0: S, s1: S) -> bool {
    exists|states: Seq<S>| #[trigger] threads_through(handlers, states)
        && states.first() == s0 && states.last() == s1
}

/// The fault-handler slot: an ordered list of handlers, the front one run
/// first on a fault.
#[verifier::reject_recursive_types(S)]
pub struct FaultChain<S, H> where H: Fn(S) -> S {
    handlers: Vec<H>,
    datum: core::marker::PhantomData<S>,
}

impl<S, H> FaultChain<S, H> where H: Fn(S) -> S {
    /// The installed handlers, in the order a fault runs them.
    pub closed spec fn handlers(self) -> Seq<H> {
        self.handlers@
    }

    /// An empty slot: no handler is installed, so a fault passes through
    /// unchanged.
    pub fn new() -> (c: Self)
        ensures
            c.handlers() == Seq::<H>::empty(),
    {
        FaultChain { handlers: Vec::new(), datum: core::marker::PhantomData }
    }

    /// Replace-mode registration: afterwards the slot holds exactly the
    /// supplied handler; whatever was installed before is gone.
    pub fn replace(self, handler: H) -> (c: Self)
        ensures
            c.handlers() == seq![handler],
    {
        let mut v: Vec<H> = Vec::new();
        v.push(handler);
        proof {
            assert(v@ =~= seq![handler]);
        }
        FaultChain { handlers: v, datum: core::marker::PhantomData }
    }

    /// Chain-mode registration: the supplied handler will run first on a
    /// fault, and every previously installed handler after it, in its
    /// previous place.
    pub fn chain(self, handler: H) -> (c: Self)
        ensures
            c.handlers() == seq![handler] + self.handlers(),
    {
        let mut v = self.handlers;
        v.insert(0, handler);
        proof {
            assert(v@ =~= seq![handler] + self.handlers());
        }
        FaultChain { handlers: v, datum: core::marker::PhantomData }
    }

    /// Run every installed handler on a fault, front to back, starting from
    /// the fault datum `fault`; the result is what the last handler leaves.
    pub fn dispatch(&self, fault: S) -> (out: S)
        requires
            forall|i: int, s: S| 0 <= i < self.handlers().len()
                ==> #[trigger] call_requires(self.handlers()[i], (s,)),
        ensures
            runs_to(self.handlers(), fault, out),
    {
        let mut cur = fault;
        let ghost mut states: Seq<S> = seq![fault];
        let mut i: usize = 0;
        while i < self.handlers.len()
            invariant
                0 <= i <= self.handlers.len(),
                forall|j: int, s: S| 0 <= j < self.handlers().len()
                    ==> #[trigger] call_requires(self.handlers()[j], (s,)),
                states.len() == i + 1,
                states.first() == fault,
                states.last() == cur,
                forall|j: int| 0 <= j < i
                    ==> call_ensures(#[trigger] self.handlers()[j], (states[j],), states[j + 1]),
            decreases self.handlers.len() - i,
        {
            let h = &self.handlers[i];
            proof {
                assert(*h == self.handlers()[i as int]);
                assert(call_requires(self.handlers()[i as int], (cur,)));
            }
            cur = h(cur);
            proof {
                states = states.push(cur);
            }
            i = i + 1;
        }
        proof {
            assert(threads_through(self.handlers(), states));
        }
        cur
    }
}

/// Chained registration order: with a prior handler installed, a slot that
/// chained a newer handler in front runs the newer handler first and the
/// prior one second. The pair relates fault datum `s0` to outcome `s2`
/// exactly when some intermediate datum links a run of the newer handler
/// from `s0` to a run of the prior handler ending at `s2`.
pub proof fn lemma_chain_runs_new_then_prior<S, H: Fn(S) -> S>(newer: H, prior: H, s0: S, s2: S)
    ensures
        runs_to(seq![newer, prior], s0, s2)
            <==> exists|mid: S| #![auto]
                call_ensures(newer, (s0,), mid) && call_ensures(prior, (mid,), s2),
{
    let pair = seq![newer, prior];
    if runs_to(pair, s0, s2) {
        let states = choose|states: Seq<S>| #[trigger] threads_through(pair, states)
            && states.first() == s0 && states.last() == s2;
        assert(call_ensures(pair[0], (states[0],), states[1]));
        assert(call_ensures(pair[1], (states[1],), states[2]));
        assert(call_ensures(newer, (s0,), states[1]) && call_ensures(prior, (states[1],), s2));
    }
    if exists|mid: S| #![auto] call_ensures(newer, (s0,), mid) && call_ensures(prior, (mid,), s2) {
        let mid = choose|m: S| #![auto] call_ensures(newer, (s0,), m) && call_ensures(prior, (m,), s2);
        let states = seq![s0, mid, s2];
        assert(threads_through(pair, states)) by {
            assert forall|i: int| 0 <= i < pair.len()
                implies call_ensures(#[trigger] pair[i], (states[i],), states[i + 1]) by {
                if i == 0 {
                    assert(pair[0] == newer && states[0] == s0 && states[1] == mid);
                } else {
                    assert(pair[1] == prior && states[1] == mid && states[2] == s2);
                }
            }
        }
        assert(states.first() == s0 && states.last() == s2);
    }
}

} // verus!
