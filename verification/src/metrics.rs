//! Per-event-type dispatch metrics.
use vstd::prelude::*;
use std::any::TypeId;
use std::time::Duration;
use std::time::Instant;
use crate::event::identity_of;
use crate::event::same_type;
use crate::event::type_identity;
use crate::event::Event;

verus! {

/// A point in time, as the standard library's monotonic clock reports it. Nothing is
/// known of its value.
#[verifier::external_type_specification]
#[verifier::external_body]
pub struct ExInstant(std::time::Instant);

/// `std::time::Instant::now`. The result depends on the clock, so nothing is promised.
pub assume_specification[ Instant::now ]() -> (r: Instant);

/// `std::time::Instant::elapsed`. The result depends on the clock, so nothing is promised.
pub assume_specification[ Instant::elapsed ](instant: &Instant) -> (r: Duration);

/// What the dispatcher records about one event type.
#[derive(Debug, Clone, Copy)]
pub struct EventMetadata {
    /// The display name of the event type.
    pub event_name: &'static str,
    /// The identity of the event type.
    pub type_id: TypeId,
    /// When an event of the type was last dispatched, or when the record was created if
    /// none was dispatched yet.
    pub last_dispatch: Instant,
    /// How many events of the type were dispatched, blocked ones included.
    pub dispatch_count: usize,
    /// How many listeners the type had when a listener was last registered for it.
    pub listener_count: usize,
}

impl EventMetadata {
    /// A record for event type `T` that is created at the time `now`, with both counts
    /// at zero.
    pub fn new_at<T: Event>(now: Instant) -> (r: Self)
        ensures
            r.type_id == type_identity::<T>(),
            call_ensures(T::event_name, (), r.event_name),
            r.last_dispatch == now,
            r.dispatch_count == 0,
            r.listener_count == 0,
    {
        EventMetadata {
            event_name: T::event_name(),
            type_id: identity_of::<T>(),
            last_dispatch: now,
            dispatch_count: 0,
            listener_count: 0,
        }
    }

    /// A record for event type `T` that is created now, with both counts at zero.
    pub fn new<T: Event>() -> (r: Self)
        ensures
            r.type_id == type_identity::<T>(),
            call_ensures(T::event_name, (), r.event_name),
            r.dispatch_count == 0,
            r.listener_count == 0,
    {
        EventMetadata::new_at::<T>(Instant::now())
    }

    /// Counts one more dispatch, made at the time `now`.
    pub fn increment_dispatch_at(&mut self, now: Instant)
        requires
            old(self).dispatch_count < usize::MAX,
        ensures
            final(self).dispatch_count == old(self).dispatch_count + 1,
            final(self).last_dispatch == now,
            final(self).event_name == old(self).event_name,
            final(self).type_id == old(self).type_id,
            final(self).listener_count == old(self).listener_count,
    {
        self.dispatch_count += 1;
        self.last_dispatch = now;
    }

    /// Counts one more dispatch, made now.
    pub fn increment_dispatch(&mut self)
        requires
            old(self).dispatch_count < usize::MAX,
        ensures
            final(self).dispatch_count == old(self).dispatch_count + 1,
            final(self).event_name == old(self).event_name,
            final(self).type_id == old(self).type_id,
            final(self).listener_count == old(self).listener_count,
    {
        self.increment_dispatch_at(Instant::now());
    }

    /// Records the current number of listeners.
    pub fn update_listener_count(&mut self, count: usize)
        ensures
            final(self).listener_count == count,
            final(self).event_name == old(self).event_name,
            final(self).type_id == old(self).type_id,
            final(self).dispatch_count == old(self).dispatch_count,
            final(self).last_dispatch == old(self).last_dispatch,
    {
        self.listener_count = count;
    }

    /// The time that has passed since the last dispatch.
    pub fn time_since_last_dispatch(&self) -> Duration {
        self.last_dispatch.elapsed()
    }
}

/// Whether `after` is the record of event type `T` once one more dispatch, made at the
/// time `now`, has been counted on `before`. The record shows `now` as the time of the
/// last dispatch. A missing record is created with the name that `T` reports.
pub open spec fn counted_dispatch<T: Event>(
    before: Option<EventMetadata>,
    after: Option<EventMetadata>,
    now: Instant,
) -> bool {
    &&& after matches Some(n)
    &&& n.type_id == type_identity::<T>()
    &&& n.last_dispatch == now
    &&& match before {
        Some(m) => {
            &&& n.dispatch_count == m.dispatch_count + 1
            &&& n.listener_count == m.listener_count
            &&& n.event_name == m.event_name
        },
        None => {
            &&& n.dispatch_count == 1
            &&& n.listener_count == 0
            &&& call_ensures(T::event_name, (), n.event_name)
        },
    }
}

/// Whether `after` is the record of event type `T` once the listener count `count` has
/// been recorded on `before` at the time `now`. A record that exists keeps the time of
/// its last dispatch. A missing record is created with the name that `T` reports and
/// with `now` in place of the time of a last dispatch.
pub open spec fn counted_listeners<T: Event>(
    before: Option<EventMetadata>,
    after: Option<EventMetadata>,
    count: usize,
    now: Instant,
) -> bool {
    &&& after matches Some(n)
    &&& n.type_id == type_identity::<T>()
    &&& n.listener_count == count
    &&& match before {
        Some(m) => {
            &&& n.dispatch_count == m.dispatch_count
            &&& n.event_name == m.event_name
            &&& n.last_dispatch == m.last_dispatch
        },
        None => {
            &&& n.dispatch_count == 0
            &&& n.last_dispatch == now
            &&& call_ensures(T::event_name, (), n.event_name)
        },
    }
}

/// The metrics of all event types: at most one record per type.
///
/// A record is created when a listener is first registered for a type or when an event of
/// the type is first dispatched, whichever comes first, and is never removed.
pub struct MetricsStore {
    records: Vec<EventMetadata>,
}

spec fn has_record(records: Seq<EventMetadata>, t: TypeId, i: int) -> bool {
    0 <= i < records.len() && records[i].type_id == t
}

spec fn record_index(records: Seq<EventMetadata>, t: TypeId) -> Option<int> {
    if exists|i: int| has_record(records, t, i) {
        Some(choose|i: int| has_record(records, t, i))
    } else {
        None
    }
}

spec fn one_record_per_type(records: Seq<EventMetadata>) -> bool {
    forall|i: int, j: int|
        0 <= i < records.len() && 0 <= j < records.len() && i != j ==> records[i].type_id
            != records[j].type_id
}

proof fn lemma_record_index(records: Seq<EventMetadata>, t: TypeId, i: int)
    requires
        one_record_per_type(records),
        has_record(records, t, i),
    ensures
        record_index(records, t) == Some(i),
{
    let c = choose|c: int| has_record(records, t, c);
    assert(has_record(records, t, c));
}

impl MetricsStore {
    /// The record of event type `t`, if there is one.
    pub closed spec fn record(&self, t: TypeId) -> Option<EventMetadata> {
        match record_index(self.records@, t) {
            Some(i) => Some(self.records@[i]),
            None => None,
        }
    }

    /// The number of event types that have a record.
    pub closed spec fn len(&self) -> nat {
        self.records@.len()
    }

    /// Each event type has at most one record, filed under the type's own identity.
    pub closed spec fn wf(&self) -> bool {
        one_record_per_type(self.records@)
    }

    /// A record is filed under the identity it carries.
    pub proof fn lemma_record_key(&self, t: TypeId)
        requires
            self.wf(),
        ensures
            self.record(t) matches Some(m) ==> m.type_id == t,
    {
        match record_index(self.records@, t) {
            Some(i) => {
                assert(has_record(self.records@, t, i));
            },
            None => {},
        }
    }

    /// A store without records.
    pub fn new() -> (r: Self)
        ensures
            r.wf(),
            r.len() == 0,
            forall|t: TypeId| r.record(t) is None,
    {
        let r = MetricsStore { records: Vec::new() };
        assert forall|t: TypeId| r.record(t) is None by {
            assert(forall|i: int| !has_record(r.records@, t, i));
        }
        r
    }

    fn find(&self, type_id: &TypeId) -> (r: Option<usize>)
        requires
            self.wf(),
        ensures
            match r {
                Some(i) => has_record(self.records@, *type_id, i as int) && record_index(
                    self.records@,
                    *type_id,
                ) == Some(i as int),
                None => record_index(self.records@, *type_id) is None,
            },
    {
        let mut i: usize = 0;
        while i < self.records.len()
            invariant
                one_record_per_type(self.records@),
                i <= self.records.len(),
                forall|j: int| 0 <= j < i ==> !has_record(self.records@, *type_id, j),
            decreases self.records.len() - i,
        {
            if same_type(&self.records[i].type_id, type_id) {
                proof {
                    lemma_record_index(self.records@, *type_id, i as int);
                }
                return Some(i);
            }
            i += 1;
        }
        None
    }

    /// The record of event type `type_id`, if there is one.
    pub fn get(&self, type_id: &TypeId) -> (r: Option<&EventMetadata>)
        requires
            self.wf(),
        ensures
            match r {
                Some(m) => self.record(*type_id) == Some(*m),
                None => self.record(*type_id) is None,
            },
    {
        match self.find(type_id) {
            Some(i) => Some(&self.records[i]),
            None => None,
        }
    }

    /// The number of event types that have a record.
    pub fn count(&self) -> (r: usize)
        ensures
            r == self.len(),
    {
        self.records.len()
    }

    /// Counts one dispatch of an event of type `T`, made now, creating the record of `T`
    /// if there is none yet.
    pub fn record_dispatch<T: Event>(&mut self)
        requires
            old(self).wf(),
            old(self).record(type_identity::<T>()) matches Some(m) ==> m.dispatch_count < usize::MAX,
        ensures
            final(self).wf(),
            exists|now: Instant| #[trigger]
                counted_dispatch::<T>(
                    old(self).record(type_identity::<T>()),
                    final(self).record(type_identity::<T>()),
                    now,
                ),
            final(self).len() == old(self).len() + (if old(self).record(type_identity::<T>()) is Some {
                0int
            } else {
                1int
            }),
            forall|t: TypeId| t != type_identity::<T>() ==> final(self).record(t) == old(self).record(t),
    {
        self.record_dispatch_at::<T>(Instant::now());
    }

    /// Counts one dispatch of an event of type `T`, made at the time `now`, creating the
    /// record of `T` if there is none yet.
    pub fn record_dispatch_at<T: Event>(&mut self, now: Instant)
        requires
            old(self).wf(),
            old(self).record(type_identity::<T>()) matches Some(m) ==> m.dispatch_count < usize::MAX,
        ensures
            final(self).wf(),
            counted_dispatch::<T>(
                old(self).record(type_identity::<T>()),
                final(self).record(type_identity::<T>()),
                now,
            ),
            final(self).len() == old(self).len() + (if old(self).record(type_identity::<T>()) is Some {
                0int
            } else {
                1int
            }),
            forall|t: TypeId| t != type_identity::<T>() ==> final(self).record(t) == old(self).record(t),
    {
        let ghost before = self.records@;
        let type_id = identity_of::<T>();
        match self.find(&type_id) {
            Some(i) => {
                self.records[i].increment_dispatch_at(now);
                proof {
                    self.lemma_updated(before, i as int);
                }
            },
            None => {
                let mut meta = EventMetadata::new_at::<T>(now);
                meta.increment_dispatch_at(now);
                self.records.push(meta);
                proof {
                    assert(self.records@.drop_last() =~= before);
                    self.lemma_pushed(before, type_id);
                }
            },
        }
    }

    /// Records that event type `T` now has `count` listeners, creating the record of
    /// `T` if there is none yet.
    pub fn record_listener_count<T: Event>(&mut self, count: usize)
        requires
            old(self).wf(),
        ensures
            final(self).wf(),
            exists|now: Instant| #[trigger]
                counted_listeners::<T>(
                    old(self).record(type_identity::<T>()),
                    final(self).record(type_identity::<T>()),
                    count,
                    now,
                ),
            final(self).len() == old(self).len() + (if old(self).record(type_identity::<T>()) is Some {
                0int
            } else {
                1int
            }),
            forall|t: TypeId| t != type_identity::<T>() ==> final(self).record(t) == old(self).record(t),
    {
        self.record_listener_count_at::<T>(count, Instant::now());
    }

    /// Records that event type `T` has `count` listeners at the time `now`, creating the
    /// record of `T` if there is none yet.
    pub fn record_listener_count_at<T: Event>(&mut self, count: usize, now: Instant)
        requires
            old(self).wf(),
        ensures
            final(self).wf(),
            counted_listeners::<T>(
                old(self).record(type_identity::<T>()),
                final(self).record(type_identity::<T>()),
                count,
                now,
            ),
            final(self).len() == old(self).len() + (if old(self).record(type_identity::<T>()) is Some {
                0int
            } else {
                1int
            }),
            forall|t: TypeId| t != type_identity::<T>() ==> final(self).record(t) == old(self).record(t),
    {
        let ghost before = self.records@;
        let type_id = identity_of::<T>();
        match self.find(&type_id) {
            Some(i) => {
                self.records[i].update_listener_count(count);
                proof {
                    self.lemma_updated(before, i as int);
                }
            },
            None => {
                let mut meta = EventMetadata::new_at::<T>(now);
                meta.update_listener_count(count);
                self.records.push(meta);
                proof {
                    assert(self.records@.drop_last() =~= before);
                    self.lemma_pushed(before, type_id);
                }
            },
        }
    }

    /// A copy of the store as it is now.
    pub fn snapshot(&self) -> (r: Self)
        requires
            self.wf(),
        ensures
            r.wf(),
            r.len() == self.len(),
            forall|t: TypeId| r.record(t) == self.record(t),
    {
        let mut records: Vec<EventMetadata> = Vec::new();
        let mut i: usize = 0;
        while i < self.records.len()
            invariant
                i <= self.records.len(),
                records@ == self.records@.take(i as int),
            decreases self.records.len() - i,
        {
            records.push(self.records[i]);
            assert(self.records@.take(i + 1) =~= self.records@.take(i as int).push(self.records@[i as int]));
            i += 1;
        }
        assert(records@ =~= self.records@);
        MetricsStore { records }
    }

    proof fn lemma_updated(&self, before: Seq<EventMetadata>, i: int)
        requires
            one_record_per_type(before),
            0 <= i < before.len(),
            self.records@.len() == before.len(),
            self.records@[i].type_id == before[i].type_id,
            forall|j: int| 0 <= j < before.len() && j != i ==> self.records@[j] == before[j],
        ensures
            self.wf(),
            self.record(before[i].type_id) == Some(self.records@[i]),
            forall|t: TypeId|
                t != before[i].type_id ==> self.record(t) == (match record_index(before, t) {
                    Some(j) => Some(before[j]),
                    None => None,
                }),
    {
        let after = self.records@;
        assert forall|a: int, b: int|
            0 <= a < after.len() && 0 <= b < after.len() && a != b implies after[a].type_id
            != after[b].type_id by {
            assert(after[a].type_id == before[a].type_id);
            assert(after[b].type_id == before[b].type_id);
        }
        lemma_record_index(after, before[i].type_id, i);
        assert forall|t: TypeId| t != before[i].type_id implies self.record(t) == (match record_index(
            before,
            t,
        ) {
            Some(j) => Some(before[j]),
            None => None,
        }) by {
            assert(forall|j: int| has_record(before, t, j) <==> has_record(after, t, j));
            match record_index(before, t) {
                Some(j) => {
                    assert(has_record(before, t, j));
                    lemma_record_index(after, t, j);
                },
                None => {},
            }
        }
    }

    proof fn lemma_pushed(&self, before: Seq<EventMetadata>, type_id: TypeId)
        requires
            one_record_per_type(before),
            record_index(before, type_id) is None,
            self.records@.len() == before.len() + 1,
            self.records@.drop_last() == before,
            self.records@.last().type_id == type_id,
        ensures
            self.wf(),
            self.record(type_id) == Some(self.records@.last()),
            forall|t: TypeId|
                t != type_id ==> self.record(t) == (match record_index(before, t) {
                    Some(j) => Some(before[j]),
                    None => None,
                }),
    {
        let after = self.records@;
        let n = before.len() as int;
        assert(forall|j: int| 0 <= j < n ==> after[j] == before[j]);
        assert forall|a: int, b: int|
            0 <= a < after.len() && 0 <= b < after.len() && a != b implies after[a].type_id
            != after[b].type_id by {
            if a < n {
                assert(!has_record(before, type_id, a));
            }
            if b < n {
                assert(!has_record(before, type_id, b));
            }
        }
        lemma_record_index(after, type_id, n);
        assert forall|t: TypeId| t != type_id implies self.record(t) == (match record_index(before, t) {
            Some(j) => Some(before[j]),
            None => None,
        }) by {
            assert(forall|j: int| has_record(before, t, j) <==> has_record(after, t, j));
            match record_index(before, t) {
                Some(j) => {
                    assert(has_record(before, t, j));
                    lemma_record_index(after, t, j);
                },
                None => {},
            }
        }
    }
}

} // verus!
