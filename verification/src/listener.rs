//! Listeners: the typed handlers that callers register, and their type-erased form.
use vstd::prelude::*;
use std::marker::PhantomData;
use crate::event::concrete;
use crate::event::ErasedEvent;
use crate::event::Event;
use crate::priority::Priority;
use crate::registry::ListenerEntry;
use crate::result::Outcome;

verus! {

/// A reusable listener for events of type `T`.
pub trait EventListener<T: Event>: Send + Sync {
    /// Handles one event: `Ok(())` on success, an error on failure.
    fn handle(&self, event: &T) -> Outcome;

    /// The priority to register the listener with; `Normal` unless overridden.
    fn priority(&self) -> (r: Priority)
        default_ensures
            r == Priority::Normal,
    {
        Priority::Normal
    }
}

/// A listener that accepts any event, whatever its type.
pub trait ErasedListener: Send + Sync {
    /// Whether the listener may be invoked.
    spec fn ready(&self) -> bool;

    /// Whether invoking the listener with `event` may give `outcome`.
    spec fn may_return(&self, event: ErasedEvent<'_>, outcome: Outcome) -> bool;

    /// Invokes the listener with `event`.
    fn invoke(&self, event: &ErasedEvent<'_>) -> (outcome: Outcome)
        requires
            self.ready(),
        ensures
            self.may_return(*event, outcome),
    ;
}

/// Whether a listener made of the typed handler `listener` may give `outcome` for
/// `event`: what `listener` may return for the event if the event is of type `T`, and
/// success without calling `listener` if it is of another type.
pub open spec fn typed_outcome<T: Event, F: Fn(&T) -> Outcome>(
    listener: F,
    event: ErasedEvent<'_>,
    outcome: Outcome,
) -> bool {
    match concrete::<T>(event.payload()) {
        Some(e) => call_ensures(listener, (e,), outcome),
        None => outcome == Ok::<(), crate::error::ListenerError>(()),
    }
}

/// Whether `entry` is a registration of the typed handler `listener` with the given
/// priority and sequence number.
pub open spec fn wraps<T: Event, F: Fn(&T) -> Outcome>(
    entry: ListenerWrapper,
    listener: F,
    priority: Priority,
    id: usize,
) -> bool {
    &&& entry.priority == priority
    &&& entry.id == id
    &&& entry.handler.ready()
    &&& forall|event: ErasedEvent<'_>, outcome: Outcome|
        #[trigger] entry.handler.may_return(event, outcome) <==> typed_outcome::<T, F>(
            listener,
            event,
            outcome,
        )
}

/// Whether a listener made of the handler `listener`, which cannot fail, may give
/// `outcome` for `event`: the outcome is always success, and an event of type `T` is one
/// that `listener` was called with and returned from.
pub open spec fn infallible_outcome<T: Event, F: Fn(&T)>(
    listener: F,
    event: ErasedEvent<'_>,
    outcome: Outcome,
) -> bool {
    &&& outcome == Ok::<(), crate::error::ListenerError>(())
    &&& concrete::<T>(event.payload()) matches Some(e) ==> call_ensures(listener, (e,), ())
}

/// Whether `entry` is a registration of the handler `listener`, which cannot fail, with
/// the given priority and sequence number.
pub open spec fn wraps_infallible<T: Event, F: Fn(&T)>(
    entry: ListenerWrapper,
    listener: F,
    priority: Priority,
    id: usize,
) -> bool {
    &&& entry.priority == priority
    &&& entry.id == id
    &&& entry.handler.ready()
    &&& forall|event: ErasedEvent<'_>, outcome: Outcome|
        #[trigger] entry.handler.may_return(event, outcome) <==> infallible_outcome::<T, F>(
            listener,
            event,
            outcome,
        )
}

struct TypedListener<T, F> {
    listener: F,
    marker: PhantomData<T>,
}

impl<T: Event, F: Fn(&T) -> Outcome + Send + Sync> ErasedListener for TypedListener<T, F> {
    closed spec fn ready(&self) -> bool {
        forall|e: &T| call_requires(self.listener, (e,))
    }

    closed spec fn may_return(&self, event: ErasedEvent<'_>, outcome: Outcome) -> bool {
        typed_outcome::<T, F>(self.listener, event, outcome)
    }

    fn invoke(&self, event: &ErasedEvent<'_>) -> (outcome: Outcome) {
        match event.downcast_ref::<T>() {
            Some(e) => (self.listener)(e),
            None => Ok(()),
        }
    }
}

struct InfallibleListener<T, F> {
    listener: F,
    marker: PhantomData<T>,
}

impl<T: Event, F: Fn(&T) + Send + Sync> ErasedListener for InfallibleListener<T, F> {
    closed spec fn ready(&self) -> bool {
        forall|e: &T| call_requires(self.listener, (e,))
    }

    closed spec fn may_return(&self, event: ErasedEvent<'_>, outcome: Outcome) -> bool {
        infallible_outcome::<T, F>(self.listener, event, outcome)
    }

    fn invoke(&self, event: &ErasedEvent<'_>) -> (outcome: Outcome) {
        match event.downcast_ref::<T>() {
            Some(e) => {
                (self.listener)(e);
                Ok(())
            },
            None => Ok(()),
        }
    }
}

/// A registered synchronous listener.
pub type ListenerWrapper = ListenerEntry<Box<dyn ErasedListener>>;

impl ListenerEntry<Box<dyn ErasedListener>> {
    /// Wraps the typed handler `listener` so that it accepts any event: it runs
    /// `listener` on events of type `T` and succeeds without running it on others.
    pub fn new<T: Event, F: Fn(&T) -> Outcome + Send + Sync + 'static>(
        listener: F,
        priority: Priority,
        id: usize,
    ) -> (r: Self)
        requires
            forall|e: &T| call_requires(listener, (e,)),
        ensures
            wraps::<T, F>(r, listener, priority, id),
    {
        let typed = TypedListener::<T, F> { listener, marker: PhantomData };
        ListenerEntry { handler: Box::new(typed), priority, id }
    }

    /// Wraps the handler `listener`, which cannot fail, so that it accepts any event: it
    /// runs `listener` on events of type `T`, skips it on others, and always succeeds.
    pub fn infallible<T: Event, F: Fn(&T) + Send + Sync + 'static>(
        listener: F,
        priority: Priority,
        id: usize,
    ) -> (r: Self)
        requires
            forall|e: &T| call_requires(listener, (e,)),
        ensures
            wraps_infallible::<T, F>(r, listener, priority, id),
    {
        let typed = InfallibleListener::<T, F> { listener, marker: PhantomData };
        ListenerEntry { handler: Box::new(typed), priority, id }
    }
}

/// Whether every listener in `entries` may be invoked.
pub open spec fn all_ready(entries: Seq<ListenerWrapper>) -> bool {
    forall|i: int| 0 <= i < entries.len() ==> (#[trigger] entries[i]).handler.ready()
}

/// Whether `outcomes` may be what the listeners in `entries` give for `event`, each
/// invoked once, in the order of `entries`.
pub open spec fn delivered(
    entries: Seq<ListenerWrapper>,
    event: ErasedEvent<'_>,
    outcomes: Seq<Outcome>,
) -> bool {
    &&& outcomes.len() == entries.len()
    &&& forall|i: int|
        0 <= i < entries.len() ==> (#[trigger] entries[i]).handler.may_return(event, outcomes[i])
}

/// Invokes every listener in `entries` with `event`, front to back. A failing listener
/// does not stop the ones behind it.
pub fn invoke_all(entries: &Vec<ListenerWrapper>, event: &ErasedEvent<'_>) -> (outcomes: Vec<
    Outcome,
>)
    requires
        all_ready(entries@),
    ensures
        delivered(entries@, *event, outcomes@),
{
    let mut outcomes: Vec<Outcome> = Vec::new();
    let mut i: usize = 0;
    while i < entries.len()
        invariant
            all_ready(entries@),
            i <= entries.len(),
            outcomes.len() == i,
            forall|j: int|
                0 <= j < i ==> (#[trigger] entries@[j]).handler.may_return(*event, outcomes@[j]),
        decreases entries.len() - i,
    {
        let outcome = entries[i].handler.invoke(event);
        outcomes.push(outcome);
        i += 1;
    }
    outcomes
}

} // verus!
