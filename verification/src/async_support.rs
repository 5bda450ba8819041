//! Asynchronous listeners: handlers that return a pending computation.
use vstd::prelude::*;
use std::future::Future;
use std::marker::PhantomData;
use std::pin::Pin;
use std::sync::Arc;
use std::sync::Mutex;
use crate::event::concrete;
use crate::event::erases;
use crate::event::ErasedEvent;
use crate::event::Event;
use crate::priority::Priority;
use crate::registry::ListenerEntry;
use crate::result::DispatchResult;
use crate::result::Outcome;

verus! {

/// A listener's computation that has been started and not yet awaited. The verifier
/// cannot read a pinned, boxed future, so it is kept out of its sight; whoever drives the
/// dispatch awaits `future` to obtain the listener's outcome.
#[verifier::external_body]
pub struct PendingOutcome {
    pub future: Pin<Box<dyn Future<Output = Outcome> + Send>>,
}

impl PendingOutcome {
    /// Calls `Box::pin` on `future`. Nothing is promised of the result: what the future
    /// resolves to is known only once it has been awaited.
    #[verifier::external_body]
    pub(crate) fn new<Fut: Future<Output = Outcome> + Send + 'static>(future: Fut) -> (r: Self) {
        PendingOutcome { future: Box::pin(future) }
    }
}

/// What an asynchronous listener hands back when it is invoked: either an outcome that
/// is already settled, or a computation that must be awaited for the outcome.
pub enum AsyncEventResult {
    /// The outcome is known without awaiting anything.
    Settled(Outcome),
    /// The outcome is what the pending computation resolves to.
    Pending(PendingOutcome),
}

/// A reusable asynchronous listener for events of type `T`.
pub trait AsyncEventListener<T: Event>: Send + Sync {
    /// Starts handling one event.
    fn handle(&self, event: &T) -> AsyncEventResult;

    /// The priority to register the listener with; `Normal` unless overridden.
    fn priority(&self) -> (r: Priority)
        default_ensures
            r == Priority::Normal,
    {
        Priority::Normal
    }
}

trait ErasedAsyncListener: Send + Sync {
    spec fn ready(&self) -> bool;

    spec fn may_start(&self, event: ErasedEvent<'_>, started: AsyncEventResult) -> bool;

    fn start(&self, event: &ErasedEvent<'_>) -> (started: AsyncEventResult)
        requires
            self.ready(),
        ensures
            self.may_start(*event, started),
    ;
}

/// Whether a listener made of the typed handler `listener` may hand back `started` for
/// `event`: for an event of type `T`, a pending computation, `listener` having been
/// called with the event and having returned a future; for an event of another type, a
/// settled success, without calling `listener`.
pub open spec fn typed_start<T: Event, F: Fn(&T) -> Fut, Fut>(
    listener: F,
    event: ErasedEvent<'_>,
    started: AsyncEventResult,
) -> bool {
    match concrete::<T>(event.payload()) {
        Some(e) => started is Pending && exists|future: Fut| call_ensures(listener, (e,), future),
        None => started == AsyncEventResult::Settled(Ok(())),
    }
}

/// `std::sync::Mutex`. No value of it is ever made: the type stands in a marker, where
/// it names the type of a listener's futures without asking that they can be shared
/// between threads.
#[verifier::external_type_specification]
#[verifier::external_body]
#[verifier::reject_recursive_types(T)]
pub struct ExMutex<T: ?Sized>(std::sync::Mutex<T>);

#[verifier::reject_recursive_types(Fut)]
struct TypedAsyncListener<T, F, Fut> {
    listener: F,
    event: PhantomData<T>,
    future: PhantomData<Mutex<Fut>>,
}

impl<T, F, Fut> ErasedAsyncListener for TypedAsyncListener<T, F, Fut> where
    T: Event,
    F: Fn(&T) -> Fut + Send + Sync,
    Fut: Future<Output = Outcome> + Send + 'static,
 {
    closed spec fn ready(&self) -> bool {
        forall|e: &T| call_requires(self.listener, (e,))
    }

    closed spec fn may_start(&self, event: ErasedEvent<'_>, started: AsyncEventResult) -> bool {
        typed_start::<T, F, Fut>(self.listener, event, started)
    }

    fn start(&self, event: &ErasedEvent<'_>) -> (started: AsyncEventResult) {
        match event.downcast_ref::<T>() {
            Some(e) => {
                let future = (self.listener)(e);
                AsyncEventResult::Pending(PendingOutcome::new(future))
            },
            None => AsyncEventResult::Settled(Ok(())),
        }
    }
}

/// An asynchronous handler that accepts any event, whatever its type.
pub struct AsyncHandler {
    inner: Box<dyn ErasedAsyncListener>,
}

impl AsyncHandler {
    /// Whether the handler may be invoked.
    pub closed spec fn ready(&self) -> bool {
        self.inner.ready()
    }

    /// Whether invoking the handler with `event` may hand back `started`.
    pub closed spec fn may_start(&self, event: ErasedEvent<'_>, started: AsyncEventResult) -> bool {
        self.inner.may_start(event, started)
    }

    /// Wraps the typed asynchronous handler `listener` so that it accepts any event: it
    /// starts `listener` on events of type `T` and settles with success on others.
    pub fn new<T, F, Fut>(listener: F) -> (r: Self) where
        T: Event,
        F: Fn(&T) -> Fut + Send + Sync + 'static,
        Fut: Future<Output = Outcome> + Send + 'static,

        requires
            forall|e: &T| call_requires(listener, (e,)),
        ensures
            r.ready(),
            forall|event: ErasedEvent<'_>, started: AsyncEventResult|
                #[trigger] r.may_start(event, started) <==> typed_start::<T, F, Fut>(
                    listener,
                    event,
                    started,
                ),
    {
        AsyncHandler {
            inner: Box::new(
                TypedAsyncListener::<T, F, Fut> { listener, event: PhantomData, future: PhantomData },
            ),
        }
    }

    /// Invokes the handler with `event`, which starts its computation without awaiting
    /// it.
    pub fn start(&self, event: &ErasedEvent<'_>) -> (started: AsyncEventResult)
        requires
            self.ready(),
        ensures
            self.may_start(*event, started),
    {
        self.inner.start(event)
    }
}

/// Calls `Arc::clone`. Trusted: the clone points to the same handler.
#[verifier::external_body]
fn share(handler: &Arc<AsyncHandler>) -> (r: Arc<AsyncHandler>)
    ensures
        r == *handler,
{
    Arc::clone(handler)
}

/// A registered asynchronous listener. Its handler is shared, so that a dispatch can keep
/// invoking it after it has let go of the registry.
pub type AsyncListenerWrapper = ListenerEntry<Arc<AsyncHandler>>;

impl ListenerEntry<Arc<AsyncHandler>> {
    /// A registration of the typed asynchronous handler `listener`.
    pub fn new<T, F, Fut>(listener: F, priority: Priority, id: usize) -> (r: Self) where
        T: Event,
        F: Fn(&T) -> Fut + Send + Sync + 'static,
        Fut: Future<Output = Outcome> + Send + 'static,

        requires
            forall|e: &T| call_requires(listener, (e,)),
        ensures
            wraps_async::<T, F, Fut>(r, listener, priority, id),
    {
        ListenerEntry { handler: Arc::new(AsyncHandler::new::<T, F, Fut>(listener)), priority, id }
    }
}

/// Whether `entry` is a registration of the typed asynchronous handler `listener` with
/// the given priority and sequence number.
pub open spec fn wraps_async<T: Event, F: Fn(&T) -> Fut, Fut>(
    entry: AsyncListenerWrapper,
    listener: F,
    priority: Priority,
    id: usize,
) -> bool {
    &&& entry.priority == priority
    &&& entry.id == id
    &&& entry.handler.ready()
    &&& forall|event: ErasedEvent<'_>, started: AsyncEventResult|
        #[trigger] entry.handler.may_start(event, started) <==> typed_start::<T, F, Fut>(
            listener,
            event,
            started,
        )
}

/// Whether every handler in `entries` may be invoked.
pub open spec fn all_ready_async(entries: Seq<AsyncListenerWrapper>) -> bool {
    forall|i: int| 0 <= i < entries.len() ==> (#[trigger] entries[i]).handler.ready()
}

/// The handlers of `entries`, in the order of `entries`.
pub open spec fn handlers_of(entries: Seq<AsyncListenerWrapper>) -> Seq<Arc<AsyncHandler>> {
    entries.map_values(|e: AsyncListenerWrapper| e.handler)
}

/// Clones the handlers out of `entries`, keeping their order.
pub fn collect_handlers(entries: &Vec<AsyncListenerWrapper>) -> (handlers: Vec<Arc<AsyncHandler>>)
    ensures
        handlers@ == handlers_of(entries@),
{
    let mut handlers: Vec<Arc<AsyncHandler>> = Vec::new();
    let mut i: usize = 0;
    while i < entries.len()
        invariant
            i <= entries.len(),
            handlers@ == handlers_of(entries@.take(i as int)),
        decreases entries.len() - i,
    {
        handlers.push(share(&entries[i].handler));
        assert(handlers_of(entries@.take(i + 1)) =~= handlers_of(entries@.take(i as int)).push(
            entries@[i as int].handler,
        ));
        i += 1;
    }
    assert(entries@.take(i as int) =~= entries@);
    handlers
}

/// A dispatch to asynchronous listeners that is under way.
///
/// The dispatch holds the event and the handlers to invoke, in dispatch order. Whoever
/// drives it asks for the next handler to be started, awaits what the handler handed
/// back, reports the outcome, and repeats until no handler is left. So the listeners run
/// strictly one after the other, and nothing of the dispatcher is borrowed while one of
/// them is awaited.
pub struct AsyncDispatch<T> {
    event: T,
    handlers: Vec<Arc<AsyncHandler>>,
    outcomes: Vec<Outcome>,
    started: usize,
    blocked: bool,
}

impl<T: Event> AsyncDispatch<T> {
    /// The event being dispatched.
    pub closed spec fn event(&self) -> T {
        self.event
    }

    /// The handlers to invoke, in dispatch order; none if the event was blocked.
    pub closed spec fn handlers(&self) -> Seq<Arc<AsyncHandler>> {
        self.handlers@
    }

    /// The outcomes reported so far, in invocation order.
    pub closed spec fn outcomes(&self) -> Seq<Outcome> {
        self.outcomes@
    }

    /// The number of handlers started so far.
    pub closed spec fn started(&self) -> nat {
        self.started as nat
    }

    /// Whether middleware vetoed the event.
    pub closed spec fn is_blocked(&self) -> bool {
        self.blocked
    }

    /// Whether a handler has been started whose outcome has not been reported yet.
    pub open spec fn awaiting(&self) -> bool {
        self.started() == self.outcomes().len() + 1
    }

    /// Whether every handler has been started and has had its outcome reported.
    pub open spec fn complete(&self) -> bool {
        self.started() == self.handlers().len() && self.outcomes().len() == self.handlers().len()
    }

    /// Handlers are started in order and at most one outcome is outstanding; a blocked
    /// dispatch has no handlers.
    pub open spec fn wf(&self) -> bool {
        &&& self.started() <= self.handlers().len()
        &&& self.outcomes().len() <= self.started() <= self.outcomes().len() + 1
        &&& self.is_blocked() ==> self.handlers().len() == 0
        &&& forall|i: int| 0 <= i < self.handlers().len() ==> (#[trigger] self.handlers()[i]).ready()
    }

    /// The listeners run strictly one after the other: while the outcome of a started
    /// handler is outstanding, exactly the handlers before it have reported, it is the
    /// only one that was started and has not, and no further handler can be started
    /// until its outcome is reported.
    pub proof fn law_one_at_a_time(&self)
        requires
            self.wf(),
            self.awaiting(),
        ensures
            self.outcomes().len() == self.started() - 1,
            self.started() <= self.handlers().len(),
            !self.complete(),
    {
    }

    /// A dispatch of `event` to `handlers` that has not started any of them; with
    /// `blocked` set, a dispatch that middleware vetoed, which has no handlers.
    pub fn new(event: T, handlers: Vec<Arc<AsyncHandler>>, blocked: bool) -> (r: Self)
        requires
            blocked ==> handlers@.len() == 0,
            forall|i: int| 0 <= i < handlers@.len() ==> (#[trigger] handlers@[i]).ready(),
        ensures
            r.wf(),
            r.event() == event,
            r.handlers() == handlers@,
            r.outcomes().len() == 0,
            r.started() == 0,
            r.is_blocked() == blocked,
    {
        AsyncDispatch { event, handlers, outcomes: Vec::new(), started: 0, blocked }
    }

    /// Starts the next handler and returns what it handed back, or returns `None` if
    /// every handler has been started. The outcome of the started handler must be
    /// reported with `resolve` before the next one is asked for.
    pub fn next(&mut self) -> (step: Option<AsyncEventResult>)
        requires
            old(self).wf(),
            !old(self).awaiting(),
        ensures
            final(self).wf(),
            final(self).event() == old(self).event(),
            final(self).handlers() == old(self).handlers(),
            final(self).outcomes() == old(self).outcomes(),
            final(self).is_blocked() == old(self).is_blocked(),
            match step {
                Some(handed_back) => {
                    &&& old(self).started() < old(self).handlers().len()
                    &&& final(self).started() == old(self).started() + 1
                    &&& exists|e: ErasedEvent<'_>|
                        erases(e, &old(self).event()) && #[trigger] old(self).handlers()[old(
                            self,
                        ).started() as int].may_start(e, handed_back)
                },
                None => old(self).complete() && final(self).started() == old(self).started(),
            },
    {
        if self.started < self.handlers.len() {
            let erased_event = ErasedEvent::of(&self.event);
            assert(self.handlers()[self.started as int].ready());
            let handed_back = self.handlers[self.started].start(&erased_event);
            self.started = self.started + 1;
            Some(handed_back)
        } else {
            None
        }
    }

    /// Reports the outcome of the handler that was started last.
    pub fn resolve(&mut self, outcome: Outcome)
        requires
            old(self).wf(),
            old(self).awaiting(),
        ensures
            final(self).wf(),
            final(self).event() == old(self).event(),
            final(self).handlers() == old(self).handlers(),
            final(self).outcomes() == old(self).outcomes().push(outcome),
            final(self).started() == old(self).started(),
            final(self).is_blocked() == old(self).is_blocked(),
            !final(self).awaiting(),
    {
        self.outcomes.push(outcome);
    }

    /// The result of the dispatch: blocked if middleware vetoed the event, and otherwise
    /// the reported outcomes, one per handler, in invocation order.
    pub fn finish(self) -> (r: DispatchResult)
        requires
            self.wf(),
            self.complete(),
        ensures
            r.wf(),
            r@.blocked == self.is_blocked(),
            r@.outcomes == self.outcomes(),
    {
        if self.blocked {
            DispatchResult::blocked()
        } else {
            DispatchResult::new(self.outcomes)
        }
    }
}

} // verus!
