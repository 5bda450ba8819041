//! The dispatcher: registration, removal and dispatch.
use vstd::prelude::*;
use std::any::TypeId;
use std::future::Future;
use std::sync::Arc;
use std::time::Instant;
use crate::async_support::all_ready_async;
use crate::async_support::collect_handlers;
use crate::async_support::handlers_of;
use crate::async_support::wraps_async;
use crate::async_support::AsyncDispatch;
use crate::async_support::AsyncHandler;
use crate::async_support::AsyncListenerWrapper;
use crate::event::erases;
use crate::event::identity_of;
use crate::event::type_identity;
use crate::event::ErasedEvent;
use crate::event::Event;
use crate::event::ListenerId;
use crate::listener::all_ready;
use crate::listener::delivered;
use crate::listener::invoke_all;
use crate::listener::wraps;
use crate::listener::wraps_infallible;
use crate::listener::ErasedListener;
use crate::listener::ListenerWrapper;
use crate::metrics::counted_dispatch;
use crate::metrics::counted_listeners;
use crate::metrics::EventMetadata;
use crate::metrics::MetricsStore;
use crate::middleware::chain_verdict;
use crate::middleware::MiddlewareFunction;
use crate::middleware::MiddlewareManager;
use crate::priority::Priority;
use crate::registry::all_older;
use crate::registry::distinct_ids;
use crate::registry::has_id;
use crate::registry::in_dispatch_order;
use crate::registry::law_placed_keeps_dispatch_order;
use crate::registry::law_without_removes_exactly;
use crate::registry::placed;
use crate::registry::runs_before;
use crate::registry::without;
use crate::registry::ListenerEntry;
use crate::registry::Registry;
use crate::result::DispatchResult;
use crate::result::DispatchView;
use crate::result::failures;
use crate::result::lemma_outcomes_partition;
use crate::result::successes;
use crate::result::Outcome;

verus! {

/// Whether `result` may be the result of dispatching `event` through the middleware
/// `chain` to `listeners`.
///
/// The event is blocked exactly when the chain vetoes it. A blocked event reaches no
/// listener and has no outcomes. An event that is let through reaches every listener
/// once, in the order of `listeners`, and has one outcome per listener in that order.
pub open spec fn dispatched(
    chain: Seq<MiddlewareFunction>,
    listeners: Seq<ListenerWrapper>,
    event: ErasedEvent<'_>,
    result: DispatchView,
) -> bool {
    &&& chain_verdict(chain, event, !result.blocked)
    &&& if result.blocked {
        result.outcomes.len() == 0
    } else {
        delivered(listeners, event, result.outcomes)
    }
}

/// If every member of `before` has the property `p`, and every member of `after` either
/// has it or is a member of `before`, then every member of `after` has it.
proof fn lemma_members_keep<H>(
    before: Seq<ListenerEntry<H>>,
    after: Seq<ListenerEntry<H>>,
    p: spec_fn(ListenerEntry<H>) -> bool,
)
    requires
        forall|i: int| 0 <= i < before.len() ==> p(#[trigger] before[i]),
        forall|i: int| 0 <= i < after.len() ==> p(after[i]) || before.contains(#[trigger] after[i]),
    ensures
        forall|i: int| 0 <= i < after.len() ==> p(#[trigger] after[i]),
{
    assert forall|i: int| 0 <= i < after.len() implies p(#[trigger] after[i]) by {
        if !p(after[i]) {
            let j = choose|j: int| 0 <= j < before.len() && before[j] == after[i];
            assert(p(before[j]));
        }
    }
}

/// An in-process publish/subscribe dispatcher.
///
/// Listeners are registered per event type. An event is first counted, then shown to the
/// middleware chain, and, unless the chain vetoes it, handed to every synchronous listener
/// of its type, by falling priority and, among equal priorities, in registration order.
pub struct EventDispatcher {
    listeners: Registry<Box<dyn ErasedListener>>,
    async_listeners: Registry<Arc<AsyncHandler>>,
    next_id: usize,
    metrics: MetricsStore,
    middleware: MiddlewareManager,
}

impl EventDispatcher {
    /// The synchronous listeners of event type `t`, in dispatch order.
    pub closed spec fn listeners(&self, t: TypeId) -> Seq<ListenerWrapper> {
        self.listeners.listeners(t)
    }

    /// The asynchronous listeners of event type `t`, in dispatch order.
    pub closed spec fn async_listeners(&self, t: TypeId) -> Seq<AsyncListenerWrapper> {
        self.async_listeners.listeners(t)
    }

    /// The number of listeners of event type `t`, synchronous and asynchronous.
    pub open spec fn listener_total(&self, t: TypeId) -> nat {
        self.listeners(t).len() + self.async_listeners(t).len()
    }

    /// The sequence number that the next registration will get.
    pub closed spec fn next_id(&self) -> usize {
        self.next_id
    }

    /// The metrics record of event type `t`, if there is one.
    pub closed spec fn metric(&self, t: TypeId) -> Option<EventMetadata> {
        self.metrics.record(t)
    }

    /// The number of event types that have a metrics record.
    pub closed spec fn metric_count(&self) -> nat {
        self.metrics.len()
    }

    /// The middleware chain, in evaluation order.
    pub closed spec fn middleware(&self) -> Seq<MiddlewareFunction> {
        self.middleware.chain()
    }

    /// The invariant of the dispatcher: every slot of both registries is in dispatch
    /// order, every sequence number in use is below the next one to be given out, and
    /// every stored handler and predicate may be invoked.
    pub closed spec fn wf(&self) -> bool {
        &&& self.listeners.wf()
        &&& self.async_listeners.wf()
        &&& self.metrics.wf()
        &&& self.middleware.wf()
        &&& self.listeners.size() + self.async_listeners.size() <= self.next_id
        &&& forall|t: TypeId| all_ready(#[trigger] self.listeners.listeners(t))
        &&& forall|t: TypeId| all_ready_async(#[trigger] self.async_listeners.listeners(t))
        &&& forall|t: TypeId| all_older(#[trigger] self.listeners.listeners(t), self.next_id)
        &&& forall|t: TypeId| all_older(#[trigger] self.async_listeners.listeners(t), self.next_id)
    }

    /// Whether `self` has the same listeners, middleware and next sequence number as
    /// `other`.
    pub open spec fn same_registrations(&self, other: &Self) -> bool {
        &&& forall|t: TypeId| self.listeners(t) == other.listeners(t)
        &&& forall|t: TypeId| self.async_listeners(t) == other.async_listeners(t)
        &&& self.middleware() == other.middleware()
        &&& self.next_id() == other.next_id()
    }

    /// Whether `self` has the same metrics records as `other`, except possibly for event
    /// type `t`, for which it has one record more if `other` has none.
    pub open spec fn same_metrics_except(&self, other: &Self, t: TypeId) -> bool {
        &&& forall|u: TypeId| u != t ==> self.metric(u) == other.metric(u)
        &&& self.metric_count() == other.metric_count() + (if other.metric(t) is Some {
            0int
        } else {
            1int
        })
    }

    /// Whether `self` has the same metrics records as `other`.
    pub open spec fn same_metrics(&self, other: &Self) -> bool {
        &&& forall|t: TypeId| self.metric(t) == other.metric(t)
        &&& self.metric_count() == other.metric_count()
    }

    /// What counting a dispatch does to a dispatcher: `self` is `before` with one more
    /// dispatch of an event of type `T`, made at the time `now`, counted in the metrics.
    /// The record of `T` shows `now` as the time of the last dispatch. Nothing else
    /// changes.
    pub open spec fn counted<T: Event>(&self, before: &Self, now: Instant) -> bool {
        &&& self.wf()
        &&& self.same_registrations(before)
        &&& counted_dispatch::<T>(
            before.metric(type_identity::<T>()),
            self.metric(type_identity::<T>()),
            now,
        )
        &&& self.same_metrics_except(before, type_identity::<T>())
    }

    /// What a registration does to a dispatcher: `self` is `before` with `entry`
    /// registered at the time `now` as a synchronous listener for events of type `T`,
    /// under the identifier `id`.
    ///
    /// The new listener takes the next sequence number and is placed in dispatch order
    /// among the synchronous listeners of `T`. Nothing else is registered, removed or
    /// moved. The metrics record of `T` shows the new number of listeners of `T`.
    pub open spec fn registered<T: Event>(
        &self,
        before: &Self,
        entry: ListenerWrapper,
        id: ListenerId,
        now: Instant,
    ) -> bool {
        let key = type_identity::<T>();
        &&& self.wf()
        &&& id.number() == before.next_id()
        &&& id.event_type() == key
        &&& entry.id == id.number()
        &&& self.next_id() == before.next_id() + 1
        &&& self.listeners(key) == placed(before.listeners(key), entry)
        &&& forall|t: TypeId| t != key ==> self.listeners(t) == before.listeners(t)
        &&& forall|t: TypeId| self.async_listeners(t) == before.async_listeners(t)
        &&& self.middleware() == before.middleware()
        &&& counted_listeners::<T>(
            before.metric(key),
            self.metric(key),
            self.listener_total(key) as usize,
            now,
        )
        &&& self.same_metrics_except(before, key)
    }

    /// What a registration of an asynchronous listener does to a dispatcher: as
    /// `registered`, with `entry` placed among the asynchronous listeners of `T`.
    pub open spec fn registered_async<T: Event>(
        &self,
        before: &Self,
        entry: AsyncListenerWrapper,
        id: ListenerId,
        now: Instant,
    ) -> bool {
        let key = type_identity::<T>();
        &&& self.wf()
        &&& id.number() == before.next_id()
        &&& id.event_type() == key
        &&& entry.id == id.number()
        &&& self.next_id() == before.next_id() + 1
        &&& self.async_listeners(key) == placed(before.async_listeners(key), entry)
        &&& forall|t: TypeId| t != key ==> self.async_listeners(t) == before.async_listeners(t)
        &&& forall|t: TypeId| self.listeners(t) == before.listeners(t)
        &&& self.middleware() == before.middleware()
        &&& counted_listeners::<T>(
            before.metric(key),
            self.metric(key),
            self.listener_total(key) as usize,
            now,
        )
        &&& self.same_metrics_except(before, key)
    }

    /// What `subscribe_with_priority` does to a dispatcher: `self` is `before` with a
    /// registration of the typed handler `listener`, made at some time, under the
    /// identifier `id`.
    pub open spec fn subscribed<T: Event, F: Fn(&T) -> Outcome>(
        &self,
        before: &Self,
        listener: F,
        priority: Priority,
        id: ListenerId,
    ) -> bool {
        exists|entry: ListenerWrapper, now: Instant|
            wraps::<T, F>(entry, listener, priority, id.number()) && #[trigger] self.registered::<T>(
                before,
                entry,
                id,
                now,
            )
    }

    /// What `on` does to a dispatcher: `self` is `before` with a registration of the
    /// handler `listener`, which cannot fail, made at some time with priority `Normal`
    /// under the identifier `id`.
    pub open spec fn subscribed_infallible<T: Event, F: Fn(&T)>(
        &self,
        before: &Self,
        listener: F,
        id: ListenerId,
    ) -> bool {
        exists|entry: ListenerWrapper, now: Instant|
            wraps_infallible::<T, F>(entry, listener, Priority::Normal, id.number())
                && #[trigger] self.registered::<T>(before, entry, id, now)
    }

    /// What `subscribe_async_with_priority` does to a dispatcher: `self` is `before`
    /// with a registration of the typed asynchronous handler `listener`, made at some
    /// time, under the identifier `id`.
    pub open spec fn subscribed_async<T: Event, F: Fn(&T) -> Fut, Fut>(
        &self,
        before: &Self,
        listener: F,
        priority: Priority,
        id: ListenerId,
    ) -> bool {
        exists|entry: AsyncListenerWrapper, now: Instant|
            wraps_async::<T, F, Fut>(entry, listener, priority, id.number())
                && #[trigger] self.registered_async::<T>(before, entry, id, now)
    }

    /// In a well-formed dispatcher the listeners of every event type stand in dispatch
    /// order: by falling priority and, among equal priorities, in registration order.
    /// All of them may be invoked, and no sequence number is used twice.
    pub proof fn lemma_wf(&self, t: TypeId)
        requires
            self.wf(),
        ensures
            in_dispatch_order(self.listeners(t)),
            in_dispatch_order(self.async_listeners(t)),
            distinct_ids(self.listeners(t)),
            distinct_ids(self.async_listeners(t)),
            all_older(self.listeners(t), self.next_id()),
            all_older(self.async_listeners(t), self.next_id()),
            all_ready(self.listeners(t)),
            all_ready_async(self.async_listeners(t)),
            self.listener_total(t) <= self.next_id(),
    {
        self.listeners.lemma_wf(t);
        self.async_listeners.lemma_wf(t);
        assert(all_ready(self.listeners.listeners(t)));
        assert(all_ready_async(self.async_listeners.listeners(t)));
        assert(all_older(self.listeners.listeners(t), self.next_id));
        assert(all_older(self.async_listeners.listeners(t), self.next_id));
    }

    /// The next sequence number is not in use: the identifier that the next registration
    /// returns differs from every identifier that is still registered.
    pub proof fn lemma_next_id_is_fresh(&self, t: TypeId)
        requires
            self.wf(),
        ensures
            !has_id(self.listeners(t), self.next_id()),
            !has_id(self.async_listeners(t), self.next_id()),
    {
        self.lemma_wf(t);
    }

    /// A slot whose members were all in the slot `before`, or are ready and older than
    /// `next`, has only members that are ready and older than `next`.
    proof fn lemma_slot_kept(before: Seq<ListenerWrapper>, after: Seq<ListenerWrapper>, next: usize)
        requires
            all_ready(before),
            all_older(before, next),
            forall|i: int|
                0 <= i < after.len() ==> (after[i].handler.ready() && after[i].id < next)
                    || before.contains(#[trigger] after[i]),
        ensures
            all_ready(after),
            all_older(after, next),
    {
        lemma_members_keep(before, after, |e: ListenerWrapper| e.handler.ready() && e.id < next);
    }

    /// The same for a slot of asynchronous listeners.
    proof fn lemma_async_slot_kept(
        before: Seq<AsyncListenerWrapper>,
        after: Seq<AsyncListenerWrapper>,
        next: usize,
    )
        requires
            all_ready_async(before),
            all_older(before, next),
            forall|i: int|
                0 <= i < after.len() ==> (after[i].handler.ready() && after[i].id < next)
                    || before.contains(#[trigger] after[i]),
        ensures
            all_ready_async(after),
            all_older(after, next),
    {
        lemma_members_keep(before, after, |e: AsyncListenerWrapper| e.handler.ready() && e.id < next);
    }

    /// A dispatcher without listeners, middleware or metrics.
    pub fn new() -> (r: Self)
        ensures
            r.wf(),
            r.next_id() == 0,
            r.middleware().len() == 0,
            r.metric_count() == 0,
            forall|t: TypeId| r.listeners(t).len() == 0,
            forall|t: TypeId| r.async_listeners(t).len() == 0,
            forall|t: TypeId| r.metric(t) is None,
    {
        EventDispatcher {
            listeners: Registry::new(),
            async_listeners: Registry::new(),
            next_id: 0,
            metrics: MetricsStore::new(),
            middleware: MiddlewareManager::new(),
        }
    }

    /// Whether a sequence number is left for one more registration.
    pub fn has_room(&self) -> (r: bool)
        ensures
            r == (self.next_id() < usize::MAX),
    {
        self.next_id < usize::MAX
    }

    /// Whether one more dispatch of an event of type `T` can be counted.
    pub fn can_count<T: Event>(&self) -> (r: bool)
        requires
            self.wf(),
        ensures
            r == (self.metric(type_identity::<T>()) matches Some(m) ==> m.dispatch_count
                < usize::MAX),
    {
        let type_id = identity_of::<T>();
        match self.metrics.get(&type_id) {
            Some(record) => record.dispatch_count < usize::MAX,
            None => true,
        }
    }

    /// Registers `listener` for events of type `T` with priority `Normal`.
    pub fn subscribe<T, F>(&mut self, listener: F) -> (id: ListenerId) where
        T: Event,
        F: Fn(&T) -> Outcome + Send + Sync + 'static,

        requires
            old(self).wf(),
            old(self).next_id() < usize::MAX,
            forall|e: &T| call_requires(listener, (e,)),
        ensures
            final(self).subscribed::<T, F>(old(self), listener, Priority::Normal, id),
    {
        self.subscribe_with_priority(listener, Priority::Normal)
    }

    /// Registers `listener` for events of type `T` with the given priority, and returns
    /// the identifier by which it can be removed again.
    pub fn subscribe_with_priority<T, F>(&mut self, listener: F, priority: Priority) -> (id:
        ListenerId) where T: Event, F: Fn(&T) -> Outcome + Send + Sync + 'static
        requires
            old(self).wf(),
            old(self).next_id() < usize::MAX,
            forall|e: &T| call_requires(listener, (e,)),
        ensures
            final(self).subscribed::<T, F>(old(self), listener, priority, id),
    {
        let wrapper = ListenerWrapper::new(listener, priority, self.next_id);
        let now = Instant::now();
        let ghost entry = wrapper;
        let id = self.register::<T>(wrapper, now);
        assert(self.registered::<T>(old(self), entry, id, now));
        id
    }

    /// Registers `listener`, which cannot fail, for events of type `T` with priority
    /// `Normal`. The registered listener calls `listener` and then succeeds.
    pub fn on<T, F>(&mut self, listener: F) -> (id: ListenerId) where
        T: Event,
        F: Fn(&T) + Send + Sync + 'static,

        requires
            old(self).wf(),
            old(self).next_id() < usize::MAX,
            forall|e: &T| call_requires(listener, (e,)),
        ensures
            final(self).subscribed_infallible::<T, F>(old(self), listener, id),
    {
        let wrapper = ListenerWrapper::infallible(listener, Priority::Normal, self.next_id);
        let now = Instant::now();
        let ghost entry = wrapper;
        let id = self.register::<T>(wrapper, now);
        assert(self.registered::<T>(old(self), entry, id, now));
        id
    }

    /// Registers the asynchronous `listener` for events of type `T` with priority
    /// `Normal`.
    pub fn subscribe_async<T, F, Fut>(&mut self, listener: F) -> (id: ListenerId) where
        T: Event,
        F: Fn(&T) -> Fut + Send + Sync + 'static,
        Fut: Future<Output = Outcome> + Send + 'static,

        requires
            old(self).wf(),
            old(self).next_id() < usize::MAX,
            forall|e: &T| call_requires(listener, (e,)),
        ensures
            final(self).subscribed_async::<T, F, Fut>(old(self), listener, Priority::Normal, id),
    {
        self.subscribe_async_with_priority(listener, Priority::Normal)
    }

    /// Registers the asynchronous `listener` for events of type `T` with the given
    /// priority, and returns the identifier by which it can be removed again.
    pub fn subscribe_async_with_priority<T, F, Fut>(&mut self, listener: F, priority: Priority) -> (id:
        ListenerId) where
        T: Event,
        F: Fn(&T) -> Fut + Send + Sync + 'static,
        Fut: Future<Output = Outcome> + Send + 'static,

        requires
            old(self).wf(),
            old(self).next_id() < usize::MAX,
            forall|e: &T| call_requires(listener, (e,)),
        ensures
            final(self).subscribed_async::<T, F, Fut>(old(self), listener, priority, id),
    {
        let wrapper = AsyncListenerWrapper::new::<T, F, Fut>(listener, priority, self.next_id);
        let now = Instant::now();
        let ghost entry = wrapper;
        let id = self.register_async::<T>(wrapper, now);
        assert(self.registered_async::<T>(old(self), entry, id, now));
        id
    }

    /// Gives `wrapper` the next sequence number, places it among the synchronous
    /// listeners of `T` and records the new listener count of `T`.
    fn register<T: Event>(&mut self, wrapper: ListenerWrapper, now: Instant) -> (id: ListenerId)
        requires
            old(self).wf(),
            old(self).next_id() < usize::MAX,
            wrapper.id == old(self).next_id(),
            wrapper.handler.ready(),
        ensures
            final(self).registered::<T>(old(self), wrapper, id, now),
    {
        let type_id = identity_of::<T>();
        let id = self.next_id;
        proof {
            self.lemma_wf(type_id);
            law_placed_keeps_dispatch_order(self.listeners(type_id), wrapper);
        }
        self.listeners.insert(type_id, wrapper);
        self.next_id = id + 1;
        proof {
            assert forall|t: TypeId| all_ready(#[trigger] self.listeners.listeners(t)) && all_older(
                self.listeners.listeners(t),
                self.next_id,
            ) by {
                old(self).lemma_wf(t);
                Self::lemma_slot_kept(old(self).listeners(t), self.listeners.listeners(t), self.next_id);
            }
            assert forall|t: TypeId| all_older(
                #[trigger] self.async_listeners.listeners(t),
                self.next_id,
            ) by {
                old(self).lemma_wf(t);
            }
        }
        self.update_listener_count::<T>(now);
        ListenerId::new(id, type_id)
    }

    /// Gives `wrapper` the next sequence number, places it among the asynchronous
    /// listeners of `T` and records the new listener count of `T`.
    fn register_async<T: Event>(&mut self, wrapper: AsyncListenerWrapper, now: Instant) -> (id:
        ListenerId)
        requires
            old(self).wf(),
            old(self).next_id() < usize::MAX,
            wrapper.id == old(self).next_id(),
            wrapper.handler.ready(),
        ensures
            final(self).registered_async::<T>(old(self), wrapper, id, now),
    {
        let type_id = identity_of::<T>();
        let id = self.next_id;
        proof {
            self.lemma_wf(type_id);
            law_placed_keeps_dispatch_order(self.async_listeners(type_id), wrapper);
        }
        self.async_listeners.insert(type_id, wrapper);
        self.next_id = id + 1;
        proof {
            assert forall|t: TypeId|
                all_ready_async(#[trigger] self.async_listeners.listeners(t)) && all_older(
                    self.async_listeners.listeners(t),
                    self.next_id,
                ) by {
                old(self).lemma_wf(t);
                Self::lemma_async_slot_kept(
                    old(self).async_listeners(t),
                    self.async_listeners.listeners(t),
                    self.next_id,
                );
            }
            assert forall|t: TypeId| all_older(#[trigger] self.listeners.listeners(t), self.next_id) by {
                old(self).lemma_wf(t);
            }
        }
        self.update_listener_count::<T>(now);
        ListenerId::new(id, type_id)
    }

    /// Removes the listener that `listener_id` identifies, and says whether there was one.
    ///
    /// The synchronous listeners of the identifier's event type are searched first, then
    /// the asynchronous ones. Exactly the identified listener goes; every other listener
    /// stays where it is.
    pub fn unsubscribe(&mut self, listener_id: ListenerId) -> (removed: bool)
        requires
            old(self).wf(),
        ensures
            final(self).wf(),
            removed == (has_id(old(self).listeners(listener_id.event_type()), listener_id.number())
                || has_id(old(self).async_listeners(listener_id.event_type()), listener_id.number())),
            final(self).listeners(listener_id.event_type()) == without(
                old(self).listeners(listener_id.event_type()),
                listener_id.number(),
            ),
            final(self).async_listeners(listener_id.event_type()) == (if has_id(
                old(self).listeners(listener_id.event_type()),
                listener_id.number(),
            ) {
                old(self).async_listeners(listener_id.event_type())
            } else {
                without(old(self).async_listeners(listener_id.event_type()), listener_id.number())
            }),
            forall|t: TypeId|
                t != listener_id.event_type() ==> final(self).listeners(t) == old(self).listeners(t)
                    && final(self).async_listeners(t) == old(self).async_listeners(t),
            final(self).listener_total(listener_id.event_type()) == old(self).listener_total(
                listener_id.event_type(),
            ) - (if removed { 1int } else { 0int }),
            final(self).middleware() == old(self).middleware(),
            final(self).next_id() == old(self).next_id(),
            final(self).same_metrics(old(self)),
    {
        let type_id = listener_id.owner();
        let id = listener_id.sequence();
        proof {
            self.lemma_wf(type_id);
            law_without_removes_exactly(self.listeners(type_id), id);
            law_without_removes_exactly(self.async_listeners(type_id), id);
        }
        let mut removed = self.listeners.remove(&type_id, id);
        proof {
            assert forall|t: TypeId| all_ready(#[trigger] self.listeners.listeners(t)) && all_older(
                self.listeners.listeners(t),
                self.next_id,
            ) by {
                old(self).lemma_wf(t);
                Self::lemma_slot_kept(old(self).listeners(t), self.listeners.listeners(t), self.next_id);
            }
        }
        if !removed {
            removed = self.async_listeners.remove(&type_id, id);
            proof {
                assert forall|t: TypeId|
                    all_ready_async(#[trigger] self.async_listeners.listeners(t)) && all_older(
                        self.async_listeners.listeners(t),
                        self.next_id,
                    ) by {
                    old(self).lemma_wf(t);
                    Self::lemma_async_slot_kept(
                        old(self).async_listeners(t),
                        self.async_listeners.listeners(t),
                        self.next_id,
                    );
                }
            }
        }
        removed
    }

    /// The number of listeners registered for events of type `T`, synchronous and
    /// asynchronous.
    pub fn listener_count<T: Event>(&self) -> (r: usize)
        requires
            self.wf(),
        ensures
            r == self.listener_total(type_identity::<T>()),
    {
        let type_id = identity_of::<T>();
        let sync_count = self.listeners.count(&type_id);
        let async_count = self.async_listeners.count(&type_id);
        sync_count + async_count
    }

    /// A copy of the metrics as they are now: one record for every event type that has
    /// one, and no other.
    pub fn metrics(&self) -> (r: MetricsStore)
        requires
            self.wf(),
        ensures
            r.wf(),
            r.len() == self.metric_count(),
            forall|t: TypeId| r.record(t) == self.metric(t),
    {
        self.metrics.snapshot()
    }

    /// Removes every listener of every event type. Middleware and metrics stay as they
    /// are.
    pub fn clear(&mut self)
        requires
            old(self).wf(),
        ensures
            final(self).wf(),
            forall|t: TypeId| final(self).listeners(t).len() == 0,
            forall|t: TypeId| final(self).async_listeners(t).len() == 0,
            final(self).middleware() == old(self).middleware(),
            final(self).next_id() == old(self).next_id(),
            final(self).same_metrics(old(self)),
    {
        self.listeners.clear();
        self.async_listeners.clear();
    }

    /// Appends `middleware` to the chain that every event passes before it reaches a
    /// listener.
    pub fn add_middleware<F>(&mut self, middleware: F) where
        F: Fn(&ErasedEvent) -> bool + Send + Sync + 'static,

        requires
            old(self).wf(),
            forall|event: &ErasedEvent| call_requires(middleware, (event,)),
        ensures
            final(self).wf(),
            final(self).middleware().len() == old(self).middleware().len() + 1,
            final(self).middleware().drop_last() == old(self).middleware(),
            final(self).middleware().last().ready(),
            forall|event: ErasedEvent<'_>, verdict: bool|
                final(self).middleware().last().may_return(event, verdict) <==> call_ensures(
                    middleware,
                    (&event,),
                    verdict,
                ),
            forall|t: TypeId| final(self).listeners(t) == old(self).listeners(t),
            forall|t: TypeId| final(self).async_listeners(t) == old(self).async_listeners(t),
            final(self).next_id() == old(self).next_id(),
            final(self).same_metrics(old(self)),
    {
        self.middleware.add(middleware);
    }

    /// Dispatches `event` to the synchronous listeners of its type.
    ///
    /// The dispatch is counted in the metrics first, with the time at which it is made,
    /// whether or not the event is then blocked. If the middleware chain vetoes the
    /// event, no listener runs and the result is blocked. Otherwise every listener runs,
    /// in dispatch order; a failing listener does not stop the others, and the result
    /// holds one outcome per listener.
    pub fn dispatch<T: Event>(&mut self, event: T) -> (r: DispatchResult)
        requires
            old(self).wf(),
            old(self).metric(type_identity::<T>()) matches Some(m) ==> m.dispatch_count
                < usize::MAX,
        ensures
            exists|now: Instant| #[trigger] final(self).counted::<T>(old(self), now),
            r.wf(),
            exists|e: ErasedEvent<'_>|
                erases(e, &event) && #[trigger] dispatched(
                    old(self).middleware(),
                    old(self).listeners(type_identity::<T>()),
                    e,
                    r@,
                ),
    {
        let now = Instant::now();
        self.update_metrics(&event, now);
        let erased_event = ErasedEvent::of(&event);
        if !self.check_middleware(&erased_event) {
            let r = DispatchResult::blocked();
            assert(dispatched(
                old(self).middleware(),
                old(self).listeners(type_identity::<T>()),
                erased_event,
                r@,
            ));
            return r;
        }
        let type_id = identity_of::<T>();
        proof {
            self.lemma_wf(type_id);
        }
        let results = match self.listeners.get(&type_id) {
            Some(entries) => invoke_all(entries, &erased_event),
            None => Vec::new(),
        };
        let r = DispatchResult::new(results);
        assert(dispatched(
            old(self).middleware(),
            old(self).listeners(type_identity::<T>()),
            erased_event,
            r@,
        ));
        r
    }

    /// Begins the dispatch of `event` to the asynchronous listeners of its type.
    ///
    /// The dispatch is counted in the metrics and the event is shown to the middleware
    /// chain, as in `dispatch`. The handlers of the listeners are then cloned out of the
    /// registry, in dispatch order, so that the returned dispatch can be driven to its
    /// end without the dispatcher: see [`AsyncDispatch`]. A blocked event has no handlers.
    pub fn begin_dispatch_async<T: Event>(&mut self, event: T) -> (run: AsyncDispatch<T>)
        requires
            old(self).wf(),
            old(self).metric(type_identity::<T>()) matches Some(m) ==> m.dispatch_count
                < usize::MAX,
        ensures
            exists|now: Instant| #[trigger] final(self).counted::<T>(old(self), now),
            run.wf(),
            run.event() == event,
            run.started() == 0,
            run.outcomes().len() == 0,
            exists|e: ErasedEvent<'_>| #[trigger]
                erases(e, &event) && chain_verdict(old(self).middleware(), e, !run.is_blocked()),
            run.handlers() == (if run.is_blocked() {
                Seq::<Arc<AsyncHandler>>::empty()
            } else {
                handlers_of(old(self).async_listeners(type_identity::<T>()))
            }),
    {
        let now = Instant::now();
        self.update_metrics(&event, now);
        let erased_event = ErasedEvent::of(&event);
        let allowed = self.check_middleware(&erased_event);
        assert(erases(erased_event, &event));
        if !allowed {
            return AsyncDispatch::new(event, Vec::new(), true);
        }
        let type_id = identity_of::<T>();
        proof {
            self.lemma_wf(type_id);
        }
        let handlers = match self.async_listeners.get(&type_id) {
            Some(entries) => collect_handlers(entries),
            None => Vec::new(),
        };
        assert(handlers@ =~= handlers_of(self.async_listeners(type_id)));
        AsyncDispatch::new(event, handlers, false)
    }

    /// Dispatches `event` like `dispatch` and discards the result: the dispatch is
    /// counted, and the event goes through the middleware chain to the synchronous
    /// listeners of its type.
    pub fn emit<T: Event>(&mut self, event: T)
        requires
            old(self).wf(),
            old(self).metric(type_identity::<T>()) matches Some(m) ==> m.dispatch_count
                < usize::MAX,
        ensures
            exists|now: Instant| #[trigger] final(self).counted::<T>(old(self), now),
            exists|e: ErasedEvent<'_>, r: DispatchView|
                erases(e, &event) && #[trigger] dispatched(
                    old(self).middleware(),
                    old(self).listeners(type_identity::<T>()),
                    e,
                    r,
                ),
    {
        let _ = self.dispatch(event);
    }

    fn update_metrics<T: Event>(&mut self, _event: &T, now: Instant)
        requires
            old(self).wf(),
            old(self).metric(type_identity::<T>()) matches Some(m) ==> m.dispatch_count
                < usize::MAX,
        ensures
            final(self).counted::<T>(old(self), now),
    {
        self.metrics.record_dispatch_at::<T>(now);
    }

    fn update_listener_count<T: Event>(&mut self, now: Instant)
        requires
            old(self).wf(),
        ensures
            final(self).wf(),
            final(self).same_registrations(old(self)),
            counted_listeners::<T>(
                old(self).metric(type_identity::<T>()),
                final(self).metric(type_identity::<T>()),
                old(self).listener_total(type_identity::<T>()) as usize,
                now,
            ),
            final(self).same_metrics_except(old(self), type_identity::<T>()),
    {
        let count = self.listener_count::<T>();
        self.metrics.record_listener_count_at::<T>(count, now);
    }

    fn check_middleware(&self, event: &ErasedEvent<'_>) -> (allowed: bool)
        requires
            self.wf(),
        ensures
            chain_verdict(self.middleware(), *event, allowed),
    {
        self.middleware.process(event)
    }

    /// Listeners run by falling priority and, among equal priorities, in the order of
    /// their registration: of any two outcomes of a dispatch that was let through, the
    /// earlier one belongs to a listener that has the higher priority, or the same
    /// priority and the smaller sequence number. The outcome at each place is one that
    /// the listener at that place of the slot may give for the event.
    pub proof fn law_dispatch_order(
        &self,
        t: TypeId,
        event: ErasedEvent<'_>,
        result: DispatchView,
        i: int,
        j: int,
    )
        requires
            self.wf(),
            dispatched(self.middleware(), self.listeners(t), event, result),
            !result.blocked,
            0 <= i < j < result.outcomes.len(),
        ensures
            result.outcomes.len() == self.listeners(t).len(),
            runs_before(self.listeners(t)[i], self.listeners(t)[j]),
            self.listeners(t)[i].priority.rank() >= self.listeners(t)[j].priority.rank(),
            self.listeners(t)[i].priority == self.listeners(t)[j].priority ==> self.listeners(t)[i].id
                < self.listeners(t)[j].id,
            self.listeners(t)[i].handler.may_return(event, result.outcomes[i]),
            self.listeners(t)[j].handler.may_return(event, result.outcomes[j]),
    {
        self.lemma_wf(t);
        assert(runs_before(self.listeners(t)[i], self.listeners(t)[j]));
    }

    /// Every listener of a dispatch that was let through is counted once, as a success
    /// or as a failure, and there is one outcome for each listener that was registered
    /// for the event's type. A blocked dispatch counts nothing.
    pub proof fn law_dispatch_counts(&self, t: TypeId, event: ErasedEvent<'_>, result: DispatchView)
        requires
            dispatched(self.middleware(), self.listeners(t), event, result),
        ensures
            !result.blocked ==> result.outcomes.len() == self.listeners(t).len(),
            !result.blocked ==> successes(result.outcomes) + failures(result.outcomes)
                == self.listeners(t).len(),
            result.blocked ==> result.outcomes.len() == 0 && successes(result.outcomes) == 0
                && failures(result.outcomes) == 0,
    {
        lemma_outcomes_partition(result.outcomes);
    }

    /// The handlers of an asynchronous dispatch stand in dispatch order: of any two, the
    /// earlier one belongs to a listener that has the higher priority, or the same
    /// priority and the smaller sequence number.
    pub proof fn law_async_dispatch_order(&self, t: TypeId, i: int, j: int)
        requires
            self.wf(),
            0 <= i < j < self.async_listeners(t).len(),
        ensures
            handlers_of(self.async_listeners(t)).len() == self.async_listeners(t).len(),
            handlers_of(self.async_listeners(t))[i] == self.async_listeners(t)[i].handler,
            handlers_of(self.async_listeners(t))[j] == self.async_listeners(t)[j].handler,
            runs_before(self.async_listeners(t)[i], self.async_listeners(t)[j]),
    {
        self.lemma_wf(t);
        assert(runs_before(self.async_listeners(t)[i], self.async_listeners(t)[j]));
    }

    /// A dispatcher without listeners knows no identifier, and a dispatch that it lets
    /// through has no outcome. This is the state that `clear` leaves behind, for every
    /// event type.
    pub proof fn law_cleared(&self, t: TypeId, id: usize, event: ErasedEvent<'_>, result: DispatchView)
        requires
            self.listeners(t).len() == 0,
            self.async_listeners(t).len() == 0,
        ensures
            self.listener_total(t) == 0,
            !has_id(self.listeners(t), id),
            !has_id(self.async_listeners(t), id),
            without(self.listeners(t), id) == self.listeners(t),
            dispatched(self.middleware(), self.listeners(t), event, result) ==> result.outcomes.len()
                == 0,
    {
    }
}

impl Default for EventDispatcher {
    /// A dispatcher without listeners, middleware or metrics.
    fn default() -> (r: Self)
        ensures
            r.wf(),
            r.next_id() == 0,
            r.middleware().len() == 0,
            r.metric_count() == 0,
            forall|t: TypeId| r.listeners(t).len() == 0,
            forall|t: TypeId| r.async_listeners(t).len() == 0,
            forall|t: TypeId| r.metric(t) is None,
    {
        EventDispatcher::new()
    }
}

} // verus!
