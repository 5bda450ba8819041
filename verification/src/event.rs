//! Events, their type identity, and type-erased references to them.
use vstd::prelude::*;
use std::any::Any;
use std::any::TypeId;

verus! {

/// The identity of a type, as the standard library assigns it. Two identities are equal
/// exactly when they belong to the same type; nothing else is known of their contents.
#[verifier::external_type_specification]
#[verifier::external_body]
pub struct ExTypeId(std::any::TypeId);

/// Implemented by every `'static` type, so that any such value can stand behind
/// `&dyn Payload`.
pub trait Payload: 'static {

}

impl<T: 'static> Payload for T {

}

/// A value whose concrete type has been erased, as specifications speak of it.
pub struct Erased<'a> {
    pub value: &'a dyn Payload,
}

/// The value `e`, with its concrete type erased.
pub open spec fn erased<T: 'static>(e: &T) -> Erased<'_> {
    Erased { value: e }
}

/// The type identity of an erased value.
pub uninterp spec fn payload_identity(payload: Erased<'_>) -> TypeId;

/// The identity shared by all values of type `T`.
pub open spec fn type_identity<T: 'static>() -> TypeId {
    payload_identity(erased(&arbitrary::<T>()))
}

/// The erased value itself, if it is of type `T`.
pub open spec fn concrete<T: 'static>(payload: Erased<'_>) -> Option<&T> {
    if exists|v: &T| erased(v) == payload {
        Some(choose|v: &T| erased(v) == payload)
    } else {
        None
    }
}

/// Calls `std::any::TypeId::of`. Trusted: the identity it returns for `T` is the
/// identity of every value of type `T`, so all values of one type share one identity.
#[verifier::external_body]
pub(crate) fn identity_of<T: 'static>() -> (r: TypeId)
    ensures
        forall|e: &T| #[trigger] payload_identity(erased(e)) == r,
        r == type_identity::<T>(),
{
    TypeId::of::<T>()
}

/// Calls `==` of `std::any::TypeId`. Trusted: it compares the two identities.
#[verifier::external_body]
pub(crate) fn same_type(a: &TypeId, b: &TypeId) -> (r: bool)
    ensures
        r == (*a == *b),
{
    a == b
}

/// A reference to a value behind `std::any::Any`. The verifier cannot read a `dyn Any`,
/// so the reference is kept out of its sight and `any_payload` says what it refers to.
#[verifier::external_body]
pub struct AnyRef<'a> {
    inner: &'a dyn Any,
}

/// The value that an [`AnyRef`] refers to.
pub uninterp spec fn any_payload(r: AnyRef<'_>) -> Erased<'_>;

impl<'a> AnyRef<'a> {
    /// Converts `&T` to `&dyn Any`. Trusted: the result refers to `value`, and `value`
    /// is what a downcast of the result to `T` gives back.
    #[verifier::external_body]
    pub(crate) fn new<T: 'static>(value: &'a T) -> (r: Self)
        ensures
            any_payload(r) == erased(value),
            concrete::<T>(any_payload(r)) == Some(value),
    {
        AnyRef { inner: value }
    }

    /// Calls `downcast_ref` of `dyn Any`. Trusted: it returns the value referred to when
    /// that value is of type `T`, and `None` when it is of another type.
    #[verifier::external_body]
    pub(crate) fn downcast_ref<T: 'static>(&self) -> (r: Option<&'a T>)
        ensures
            r == concrete::<T>(any_payload(*self)),
    {
        self.inner.downcast_ref::<T>()
    }
}

/// An event payload type.
///
/// All values of one implementing type share one identity, by which listeners are
/// selected, and one display name, which the metrics report.
pub trait Event: Sized + Send + Sync + 'static {
    /// A human-readable name of the event type.
    fn event_name() -> &'static str;

    /// The identity of the event type, shared by all of its values.
    fn type_id() -> (r: TypeId)
        ensures
            r == type_identity::<Self>(),
    {
        identity_of::<Self>()
    }
}

/// A reference to an event whose concrete type has been erased, as middleware and
/// type-erased listeners receive it.
pub struct ErasedEvent<'a> {
    payload: AnyRef<'a>,
    name: &'static str,
    type_id: TypeId,
}

impl<'a> ErasedEvent<'a> {
    /// The event referred to.
    pub closed spec fn payload(&self) -> Erased<'_> {
        any_payload(self.payload)
    }

    /// The identity recorded for the event's type.
    pub closed spec fn identity(&self) -> TypeId {
        self.type_id
    }

    /// The display name recorded for the event's type.
    pub closed spec fn name(&self) -> &'static str {
        self.name
    }

    /// Erases the type of `event`, recording the identity and display name of `T`.
    pub fn of<T: Event>(event: &'a T) -> (r: Self)
        ensures
            erases(r, event),
            call_ensures(T::event_name, (), r.name()),
    {
        ErasedEvent { payload: AnyRef::new(event), name: T::event_name(), type_id: identity_of::<T>() }
    }

    /// The display name of the event's type.
    pub fn event_name(&self) -> (r: &'static str)
        ensures
            r == self.name(),
    {
        self.name
    }

    /// The identity of the event's type.
    pub fn type_id(&self) -> (r: TypeId)
        ensures
            r == self.identity(),
    {
        self.type_id
    }

    /// The event itself, if it is of type `T`; `None` if it is of another type.
    pub fn downcast_ref<T: 'static>(&self) -> (r: Option<&'a T>)
        ensures
            r == concrete::<T>(self.payload()),
    {
        self.payload.downcast_ref::<T>()
    }
}

/// Whether `e` is the event `event` with its type erased: it refers to `event`, gives
/// `event` back when it is downcast to `T`, and carries the identity of `T`.
pub open spec fn erases<T: Event>(e: ErasedEvent<'_>, event: &T) -> bool {
    &&& e.payload() == erased(event)
    &&& concrete::<T>(e.payload()) == Some(event)
    &&& e.identity() == type_identity::<T>()
}

/// Identifies one registered listener: the sequence number it was given at registration
/// and the identity of the event type it listens to. Sequence numbers are never reused.
#[derive(Debug, Clone, Copy, PartialEq, Eq, Hash)]
pub struct ListenerId {
    id: usize,
    type_id: TypeId,
}

impl ListenerId {
    /// The sequence number of the listener.
    pub closed spec fn number(&self) -> usize {
        self.id
    }

    /// The identity of the event type that the listener listens to.
    pub closed spec fn event_type(&self) -> TypeId {
        self.type_id
    }

    /// The identifier of the listener numbered `id` of event type `type_id`.
    pub fn new(id: usize, type_id: TypeId) -> (r: Self)
        ensures
            r.number() == id,
            r.event_type() == type_id,
    {
        ListenerId { id, type_id }
    }

    /// The sequence number of the listener.
    pub fn sequence(&self) -> (r: usize)
        ensures
            r == self.number(),
    {
        self.id
    }

    /// The identity of the event type that the listener listens to.
    pub fn owner(&self) -> (r: TypeId)
        ensures
            r == self.event_type(),
    {
        self.type_id
    }
}

} // verus!
