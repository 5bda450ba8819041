//! Middleware: predicates that may veto an event before any listener runs.
use vstd::prelude::*;
use crate::event::ErasedEvent;

verus! {

/// A predicate over events of any type: `true` lets the event through, `false` blocks it.
pub trait ErasedMiddleware: Send + Sync {
    /// Whether the predicate may be evaluated.
    spec fn ready(&self) -> bool;

    /// Whether evaluating the predicate on `event` may give `verdict`.
    spec fn may_return(&self, event: ErasedEvent<'_>, verdict: bool) -> bool;

    /// Evaluates the predicate on `event`.
    fn allows(&self, event: &ErasedEvent<'_>) -> (verdict: bool)
        requires
            self.ready(),
        ensures
            self.may_return(*event, verdict),
    ;
}

struct FnMiddleware<F> {
    predicate: F,
}

impl<F: Fn(&ErasedEvent) -> bool + Send + Sync> ErasedMiddleware for FnMiddleware<F> {
    closed spec fn ready(&self) -> bool {
        forall|event: &ErasedEvent| call_requires(self.predicate, (event,))
    }

    closed spec fn may_return(&self, event: ErasedEvent<'_>, verdict: bool) -> bool {
        call_ensures(self.predicate, (&event,), verdict)
    }

    fn allows(&self, event: &ErasedEvent<'_>) -> (verdict: bool) {
        (self.predicate)(event)
    }
}

/// One predicate of the chain.
pub struct MiddlewareFunction {
    predicate: Box<dyn ErasedMiddleware>,
}

impl MiddlewareFunction {
    /// Whether the predicate may be evaluated.
    pub closed spec fn ready(&self) -> bool {
        self.predicate.ready()
    }

    /// Whether evaluating the predicate on `event` may give `verdict`.
    pub closed spec fn may_return(&self, event: ErasedEvent<'_>, verdict: bool) -> bool {
        self.predicate.may_return(event, verdict)
    }

    /// Stores the closure `middleware` as a predicate of the chain.
    pub fn new<F: Fn(&ErasedEvent) -> bool + Send + Sync + 'static>(middleware: F) -> (r: Self)
        requires
            forall|event: &ErasedEvent| call_requires(middleware, (event,)),
        ensures
            r.ready(),
            forall|event: ErasedEvent<'_>, verdict: bool|
                r.may_return(event, verdict) <==> call_ensures(middleware, (&event,), verdict),
    {
        MiddlewareFunction { predicate: Box::new(FnMiddleware { predicate: middleware }) }
    }

    /// Evaluates the predicate on `event`.
    pub fn allows(&self, event: &ErasedEvent<'_>) -> (verdict: bool)
        requires
            self.ready(),
        ensures
            self.may_return(*event, verdict),
    {
        self.predicate.allows(event)
    }
}

/// Whether `verdict` may be what the chain gives for `event`.
///
/// The chain lets an event through when every predicate does; an empty chain lets
/// everything through. It blocks an event when some predicate blocks it after all the
/// predicates before it let it through: evaluation stops at the first veto.
pub open spec fn chain_verdict(
    chain: Seq<MiddlewareFunction>,
    event: ErasedEvent<'_>,
    verdict: bool,
) -> bool {
    if verdict {
        forall|i: int| 0 <= i < chain.len() ==> (#[trigger] chain[i]).may_return(event, true)
    } else {
        exists|k: int|
            0 <= k < chain.len() && (#[trigger] chain[k]).may_return(event, false) && forall|i: int|
                0 <= i < k ==> (#[trigger] chain[i]).may_return(event, true)
    }
}

/// The middleware chain: predicates in the order in which they were added, which is the
/// order in which they are evaluated.
pub struct MiddlewareManager {
    middleware: Vec<MiddlewareFunction>,
}

impl MiddlewareManager {
    /// The predicates of the chain, in evaluation order.
    pub closed spec fn chain(&self) -> Seq<MiddlewareFunction> {
        self.middleware@
    }

    /// Every predicate of the chain may be evaluated.
    pub open spec fn wf(&self) -> bool {
        forall|i: int| 0 <= i < self.chain().len() ==> (#[trigger] self.chain()[i]).ready()
    }

    /// An empty chain, which lets every event through.
    pub fn new() -> (r: Self)
        ensures
            r.wf(),
            r.chain().len() == 0,
    {
        MiddlewareManager { middleware: Vec::new() }
    }

    /// Appends `middleware` to the chain.
    pub fn add<F: Fn(&ErasedEvent) -> bool + Send + Sync + 'static>(&mut self, middleware: F)
        requires
            old(self).wf(),
            forall|event: &ErasedEvent| call_requires(middleware, (event,)),
        ensures
            final(self).wf(),
            final(self).chain().len() == old(self).chain().len() + 1,
            final(self).chain().drop_last() == old(self).chain(),
            forall|event: ErasedEvent<'_>, verdict: bool|
                final(self).chain().last().may_return(event, verdict) <==> call_ensures(
                    middleware,
                    (&event,),
                    verdict,
                ),
    {
        let ghost before = self.middleware@;
        let wrapped = MiddlewareFunction::new(middleware);
        self.middleware.push(wrapped);
        assert(self.middleware@.drop_last() =~= before);
        assert forall|i: int| 0 <= i < self.chain().len() implies (#[trigger] self.chain()[i]).ready() by {
            if i < before.len() {
                assert(self.chain()[i] == old(self).chain()[i]);
            }
        }
    }

    /// Evaluates the chain on `event`, stopping at the first predicate that blocks it.
    /// Returns whether the event may go on to the listeners.
    pub fn process(&self, event: &ErasedEvent<'_>) -> (allowed: bool)
        requires
            self.wf(),
        ensures
            chain_verdict(self.chain(), *event, allowed),
    {
        let mut i: usize = 0;
        while i < self.middleware.len()
            invariant
                self.wf(),
                i <= self.middleware.len(),
                forall|j: int| 0 <= j < i ==> (#[trigger] self.chain()[j]).may_return(*event, true),
            decreases self.middleware.len() - i,
        {
            assert(self.chain()[i as int].ready());
            if !self.middleware[i].allows(event) {
                return false;
            }
            i += 1;
        }
        true
    }

    /// The number of predicates in the chain.
    pub fn count(&self) -> (r: usize)
        ensures
            r == self.chain().len(),
    {
        self.middleware.len()
    }

    /// Removes every predicate from the chain.
    pub fn clear(&mut self)
        ensures
            final(self).wf(),
            final(self).chain().len() == 0,
    {
        self.middleware.clear();
    }
}

impl Default for MiddlewareManager {
    /// An empty chain.
    fn default() -> (r: Self)
        ensures
            r.wf(),
            r.chain().len() == 0,
    {
        MiddlewareManager::new()
    }
}

} // verus!
