//! The listener registry: for each event type, its listeners in dispatch order.
use vstd::prelude::*;
use std::any::TypeId;
use crate::event::same_type;
use crate::priority::Priority;

verus! {

/// One registered listener: its handler, its priority and the sequence number it was
/// given at registration. Later registrations have larger sequence numbers.
pub struct ListenerEntry<H> {
    pub handler: H,
    pub priority: Priority,
    pub id: usize,
}

/// Whether `a` is dispatched before `b`: it has the higher priority, or the same
/// priority and was registered earlier.
pub open spec fn runs_before<H>(a: ListenerEntry<H>, b: ListenerEntry<H>) -> bool {
    ||| a.priority.rank() > b.priority.rank()
    ||| (a.priority.rank() == b.priority.rank() && a.id < b.id)
}

/// Whether `s` is in dispatch order: by falling priority and, among equal priorities,
/// in registration order.
pub open spec fn in_dispatch_order<H>(s: Seq<ListenerEntry<H>>) -> bool {
    forall|i: int, j: int| 0 <= i < j < s.len() ==> runs_before(s[i], s[j])
}

/// Whether no two entries of `s` share a sequence number.
pub open spec fn distinct_ids<H>(s: Seq<ListenerEntry<H>>) -> bool {
    forall|i: int, j: int| 0 <= i < s.len() && 0 <= j < s.len() && i != j ==> s[i].id != s[j].id
}

/// Whether every entry of `s` was registered before sequence number `id` was given out.
pub open spec fn all_older<H>(s: Seq<ListenerEntry<H>>, id: usize) -> bool {
    forall|i: int| 0 <= i < s.len() ==> (#[trigger] s[i]).id < id
}

/// The length of the leading run of entries that are at least as urgent as `p`: where
/// a new listener of priority `p` goes, behind every listener it must not overtake.
pub open spec fn position_for<H>(s: Seq<ListenerEntry<H>>, p: Priority) -> int
    decreases s.len(),
{
    if s.len() == 0 || s[0].priority.rank() < p.rank() {
        0
    } else {
        1 + position_for(s.drop_first(), p)
    }
}

/// `s` with `e` added at its place in dispatch order.
pub open spec fn placed<H>(s: Seq<ListenerEntry<H>>, e: ListenerEntry<H>) -> Seq<ListenerEntry<H>> {
    s.insert(position_for(s, e.priority), e)
}

/// The index of the first entry with sequence number `id`, or `s.len()` if there is none.
pub open spec fn position_of_id<H>(s: Seq<ListenerEntry<H>>, id: usize) -> int
    decreases s.len(),
{
    if s.len() == 0 || s[0].id == id {
        0
    } else {
        1 + position_of_id(s.drop_first(), id)
    }
}

/// Whether some entry of `s` has sequence number `id`.
pub open spec fn has_id<H>(s: Seq<ListenerEntry<H>>, id: usize) -> bool {
    exists|i: int| 0 <= i < s.len() && (#[trigger] s[i]).id == id
}

/// `s` without the first entry that has sequence number `id`; `s` itself if there is none.
pub open spec fn without<H>(s: Seq<ListenerEntry<H>>, id: usize) -> Seq<ListenerEntry<H>> {
    if has_id(s, id) {
        s.remove(position_of_id(s, id))
    } else {
        s
    }
}

/// `position_for(s, p)` is the one index that has only entries at least as urgent as
/// `p` before it and a less urgent entry, or the end, at it.
pub proof fn lemma_position_for<H>(s: Seq<ListenerEntry<H>>, p: Priority, k: int)
    requires
        0 <= k <= s.len(),
        forall|j: int| 0 <= j < k ==> (#[trigger] s[j]).priority.rank() >= p.rank(),
        k < s.len() ==> s[k].priority.rank() < p.rank(),
    ensures
        position_for(s, p) == k,
    decreases s.len(),
{
    if k > 0 {
        let rest = s.drop_first();
        assert(s[0].priority.rank() >= p.rank());
        assert forall|j: int| 0 <= j < k - 1 implies (#[trigger] rest[j]).priority.rank() >= p.rank() by {
            assert(rest[j] == s[j + 1]);
        }
        lemma_position_for(rest, p, k - 1);
    }
}

/// What `position_for` returns: an index within bounds, behind entries at least as
/// urgent as `p` only, and in front of a less urgent entry or at the end.
pub proof fn lemma_position_for_bounds<H>(s: Seq<ListenerEntry<H>>, p: Priority)
    ensures
        0 <= position_for(s, p) <= s.len(),
        forall|j: int| 0 <= j < position_for(s, p) ==> (#[trigger] s[j]).priority.rank() >= p.rank(),
        position_for(s, p) < s.len() ==> s[position_for(s, p)].priority.rank() < p.rank(),
    decreases s.len(),
{
    if !(s.len() == 0 || s[0].priority.rank() < p.rank()) {
        let rest = s.drop_first();
        lemma_position_for_bounds(rest, p);
        let k = position_for(s, p);
        assert forall|j: int| 0 <= j < k implies (#[trigger] s[j]).priority.rank() >= p.rank() by {
            if j > 0 {
                assert(s[j] == rest[j - 1]);
            }
        }
        if k < s.len() {
            assert(s[k] == rest[k - 1]);
        }
    }
}

/// `position_of_id(s, id)` is the one index that has no entry numbered `id` before it
/// and an entry numbered `id`, or the end, at it.
pub proof fn lemma_position_of_id<H>(s: Seq<ListenerEntry<H>>, id: usize, k: int)
    requires
        0 <= k <= s.len(),
        forall|j: int| 0 <= j < k ==> (#[trigger] s[j]).id != id,
        k < s.len() ==> s[k].id == id,
    ensures
        position_of_id(s, id) == k,
        has_id(s, id) <==> k < s.len(),
    decreases s.len(),
{
    if k > 0 {
        let rest = s.drop_first();
        assert(s[0].id != id);
        assert forall|j: int| 0 <= j < k - 1 implies (#[trigger] rest[j]).id != id by {
            assert(rest[j] == s[j + 1]);
        }
        if k < s.len() {
            assert(rest[k - 1] == s[k]);
        }
        lemma_position_of_id(rest, id, k - 1);
    }
    if k < s.len() {
        assert(s[k].id == id);
    }
}

/// A new listener is placed behind every listener that is at least as urgent and
/// in front of every less urgent one, and nothing else moves. So a slot that was in
/// dispatch order stays in dispatch order: listeners run by falling priority, and
/// listeners of equal priority run in the order of their registration.
pub proof fn law_placed_keeps_dispatch_order<H>(s: Seq<ListenerEntry<H>>, e: ListenerEntry<H>)
    requires
        in_dispatch_order(s),
        distinct_ids(s),
        all_older(s, e.id),
    ensures
        in_dispatch_order(placed(s, e)),
        distinct_ids(placed(s, e)),
        placed(s, e).len() == s.len() + 1,
        forall|i: int| 0 <= i < placed(s, e).len() ==> placed(s, e)[i] == e || s.contains(#[trigger] placed(s, e)[i]),
        placed(s, e)[position_for(s, e.priority)] == e,
        placed(s, e).remove(position_for(s, e.priority)) == s,
        forall|j: int|
            0 <= j < position_for(s, e.priority) ==> (#[trigger] placed(s, e)[j]).priority.rank()
                >= e.priority.rank(),
        forall|j: int|
            position_for(s, e.priority) < j < placed(s, e).len() ==> (#[trigger] placed(
                s,
                e,
            )[j]).priority.rank() < e.priority.rank(),
{
    lemma_position_for_bounds(s, e.priority);
    let k = position_for(s, e.priority);
    let t = placed(s, e);
    assert(t.remove(k) =~= s);
    assert forall|i: int| 0 <= i < t.len() implies t[i] == e || s.contains(#[trigger] t[i]) by {
        if i < k {
            assert(s[i] == t[i]);
        } else if i > k {
            assert(s[i - 1] == t[i]);
        }
    }
    assert forall|j: int| k <= j < s.len() implies (#[trigger] s[j]).priority.rank()
        < e.priority.rank() by {
        if j > k {
            assert(runs_before(s[k], s[j]));
        }
    }
    assert forall|i: int, j: int| 0 <= i < j < t.len() implies runs_before(t[i], t[j]) by {
        if j < k {
            assert(runs_before(s[i], s[j]));
        } else if j == k {
            assert(s[i].id < e.id);
        } else if i < k {
            assert(runs_before(s[i], s[j - 1]));
        } else if i == k {
            assert(s[j - 1].priority.rank() < e.priority.rank());
        } else {
            assert(runs_before(s[i - 1], s[j - 1]));
        }
    }
    assert forall|i: int, j: int| 0 <= i < t.len() && 0 <= j < t.len() && i != j implies t[i].id
        != t[j].id by {
        let a = if i < k { i } else { i - 1 };
        let b = if j < k { j } else { j - 1 };
        if i == k {
            assert(s[b].id < e.id);
        } else if j == k {
            assert(s[a].id < e.id);
        } else {
            assert(s[a].id != s[b].id);
        }
    }
}

/// The place of a new listener is forced: wherever else it were inserted, the slot
/// would no longer be in dispatch order. So placing a listener gives what appending it
/// and sorting the slot by falling priority, without reordering equal priorities, gives.
pub proof fn law_placed_is_the_only_place<H>(s: Seq<ListenerEntry<H>>, e: ListenerEntry<H>, k: int)
    requires
        all_older(s, e.id),
        0 <= k <= s.len(),
        in_dispatch_order(s.insert(k, e)),
    ensures
        k == position_for(s, e.priority),
        s.insert(k, e) == placed(s, e),
{
    let t = s.insert(k, e);
    assert forall|j: int| 0 <= j < k implies (#[trigger] s[j]).priority.rank()
        >= e.priority.rank() by {
        assert(t[j] == s[j]);
        assert(runs_before(t[j], t[k]));
    }
    if k < s.len() {
        assert(t[k + 1] == s[k]);
        assert(runs_before(t[k], t[k + 1]));
        assert(s[k].id < e.id);
    }
    lemma_position_for(s, e.priority, k);
}

/// Removing a listener by its sequence number removes exactly that listener. The
/// others stay, in their order, and the slot is shorter by one; a number that is not in
/// the slot removes nothing.
pub proof fn law_without_removes_exactly<H>(s: Seq<ListenerEntry<H>>, id: usize)
    requires
        in_dispatch_order(s),
        distinct_ids(s),
    ensures
        in_dispatch_order(without(s, id)),
        distinct_ids(without(s, id)),
        !has_id(without(s, id), id),
        has_id(s, id) ==> without(s, id).len() == s.len() - 1,
        !has_id(s, id) ==> without(s, id) == s,
        forall|i: int| 0 <= i < without(s, id).len() ==> s.contains(#[trigger] without(s, id)[i]),
        forall|e: ListenerEntry<H>| e.id != id ==> (s.contains(e) <==> without(s, id).contains(e)),
{
    if has_id(s, id) {
        let w = choose|i: int| 0 <= i < s.len() && (#[trigger] s[i]).id == id;
        assert forall|j: int| 0 <= j < s.len() && j != w implies (#[trigger] s[j]).id != id by {
            assert(s[j].id != s[w].id);
        }
        lemma_position_of_id(s, id, w);
        let t = without(s, id);
        assert forall|i: int| 0 <= i < t.len() implies (#[trigger] t[i]).id != id by {
            let a = if i < w { i } else { i + 1 };
            assert(t[i] == s[a]);
        }
        assert forall|i: int| 0 <= i < t.len() implies s.contains(#[trigger] t[i]) by {
            let a = if i < w { i } else { i + 1 };
            assert(t[i] == s[a]);
        }
        assert forall|i: int, j: int| 0 <= i < j < t.len() implies runs_before(t[i], t[j]) by {
            let a = if i < w { i } else { i + 1 };
            let b = if j < w { j } else { j + 1 };
            assert(runs_before(s[a], s[b]));
        }
        assert forall|i: int, j: int| 0 <= i < t.len() && 0 <= j < t.len() && i != j implies t[i].id
            != t[j].id by {
            let a = if i < w { i } else { i + 1 };
            let b = if j < w { j } else { j + 1 };
            assert(s[a].id != s[b].id);
        }
        assert forall|e: ListenerEntry<H>| e.id != id implies (s.contains(e) <==> t.contains(e)) by {
            if s.contains(e) {
                let a = choose|a: int| 0 <= a < s.len() && s[a] == e;
                let i = if a < w { a } else { a - 1 };
                assert(t[i] == e);
            }
            if t.contains(e) {
                let i = choose|i: int| 0 <= i < t.len() && t[i] == e;
                let a = if i < w { i } else { i + 1 };
                assert(s[a] == e);
            }
        }
    }
}

/// The listeners of one event type.
pub struct Slot<H> {
    type_id: TypeId,
    entries: Vec<ListenerEntry<H>>,
}

/// For each event type, its registered listeners in dispatch order.
///
/// `H` is the type of a type-erased handler. The registry never calls a handler; it
/// keeps every slot ordered so that a dispatch can walk it from front to back.
pub struct Registry<H> {
    slots: Vec<Slot<H>>,
}

spec fn has_slot<H>(slots: Seq<Slot<H>>, t: TypeId, i: int) -> bool {
    0 <= i < slots.len() && slots[i].type_id == t
}

spec fn slot_index<H>(slots: Seq<Slot<H>>, t: TypeId) -> Option<int> {
    if exists|i: int| has_slot(slots, t, i) {
        Some(choose|i: int| has_slot(slots, t, i))
    } else {
        None
    }
}

spec fn keys_distinct<H>(slots: Seq<Slot<H>>) -> bool {
    forall|i: int, j: int|
        0 <= i < slots.len() && 0 <= j < slots.len() && i != j ==> slots[i].type_id
            != slots[j].type_id
}

spec fn total<H>(slots: Seq<Slot<H>>) -> nat
    decreases slots.len(),
{
    if slots.len() == 0 {
        0
    } else {
        total(slots.drop_last()) + slots.last().entries@.len()
    }
}

proof fn lemma_slot_index<H>(slots: Seq<Slot<H>>, t: TypeId, i: int)
    requires
        keys_distinct(slots),
        has_slot(slots, t, i),
    ensures
        slot_index(slots, t) == Some(i),
{
    let c = choose|c: int| has_slot(slots, t, c);
    assert(has_slot(slots, t, c));
}

proof fn lemma_total_bound<H>(slots: Seq<Slot<H>>, i: int)
    requires
        0 <= i < slots.len(),
    ensures
        slots[i].entries@.len() <= total(slots),
    decreases slots.len(),
{
    if i < slots.len() - 1 {
        lemma_total_bound(slots.drop_last(), i);
    }
}

proof fn lemma_total_update<H>(slots: Seq<Slot<H>>, i: int, slot: Slot<H>)
    requires
        0 <= i < slots.len(),
    ensures
        total(slots.update(i, slot)) == total(slots) - slots[i].entries@.len() + slot.entries@.len(),
    decreases slots.len(),
{
    let updated = slots.update(i, slot);
    if i < slots.len() - 1 {
        lemma_total_update(slots.drop_last(), i, slot);
        assert(updated.drop_last() =~= slots.drop_last().update(i, slot));
    } else {
        assert(updated.drop_last() =~= slots.drop_last());
    }
    lemma_total_bound(slots, i);
}

impl<H> Registry<H> {
    /// The listeners registered for event type `t`, in dispatch order; empty if there
    /// are none.
    pub closed spec fn listeners(&self, t: TypeId) -> Seq<ListenerEntry<H>> {
        match slot_index(self.slots@, t) {
            Some(i) => self.slots@[i].entries@,
            None => Seq::empty(),
        }
    }

    /// The number of listeners registered, over all event types.
    pub closed spec fn size(&self) -> nat {
        total(self.slots@)
    }

    /// Every slot is in dispatch order and holds no sequence number twice.
    pub closed spec fn wf(&self) -> bool {
        &&& keys_distinct(self.slots@)
        &&& forall|i: int|
            0 <= i < self.slots@.len() ==> in_dispatch_order((#[trigger] self.slots@[i]).entries@)
                && distinct_ids(self.slots@[i].entries@)
    }

    /// What well-formedness means for the listeners of one event type.
    pub proof fn lemma_wf(&self, t: TypeId)
        requires
            self.wf(),
        ensures
            in_dispatch_order(self.listeners(t)),
            distinct_ids(self.listeners(t)),
            self.listeners(t).len() <= self.size(),
    {
        match slot_index(self.slots@, t) {
            Some(i) => {
                assert(has_slot(self.slots@, t, i));
                lemma_total_bound(self.slots@, i);
            },
            None => {},
        }
    }

    /// A registry without listeners.
    pub fn new() -> (r: Self)
        ensures
            r.wf(),
            r.size() == 0,
            forall|t: TypeId| r.listeners(t).len() == 0,
    {
        let r = Registry { slots: Vec::new() };
        assert forall|t: TypeId| r.listeners(t).len() == 0 by {
            assert(forall|i: int| !has_slot(r.slots@, t, i));
        }
        r
    }

    fn find(&self, type_id: &TypeId) -> (r: Option<usize>)
        requires
            self.wf(),
        ensures
            match r {
                Some(i) => has_slot(self.slots@, *type_id, i as int) && slot_index(
                    self.slots@,
                    *type_id,
                ) == Some(i as int),
                None => slot_index(self.slots@, *type_id) is None,
            },
    {
        let mut i: usize = 0;
        while i < self.slots.len()
            invariant
                keys_distinct(self.slots@),
                i <= self.slots.len(),
                forall|j: int| 0 <= j < i ==> !has_slot(self.slots@, *type_id, j),
            decreases self.slots.len() - i,
        {
            if same_type(&self.slots[i].type_id, type_id) {
                proof {
                    lemma_slot_index(self.slots@, *type_id, i as int);
                }
                return Some(i);
            }
            i += 1;
        }
        None
    }

    /// Registers `entry` for event type `type_id`, at its place in dispatch order: behind
    /// the listeners that are at least as urgent, in front of the less urgent ones.
    /// `entry` must be newer than every listener already registered for that type.
    pub fn insert(&mut self, type_id: TypeId, entry: ListenerEntry<H>)
        requires
            old(self).wf(),
            all_older(old(self).listeners(type_id), entry.id),
        ensures
            final(self).wf(),
            final(self).listeners(type_id) == placed(old(self).listeners(type_id), entry),
            forall|t: TypeId| t != type_id ==> final(self).listeners(t) == old(self).listeners(t),
            final(self).size() == old(self).size() + 1,
    {
        let ghost before = self.slots@;
        match self.find(&type_id) {
            Some(i) => {
                let ghost slot = before[i as int].entries@;
                let mut k: usize = 0;
                while k < self.slots[i].entries.len() && self.slots[i].entries[k].priority.at_least(
                    entry.priority,
                )
                    invariant
                        self.slots@ == before,
                        i < before.len(),
                        slot == before[i as int].entries@,
                        k <= slot.len(),
                        forall|j: int|
                            0 <= j < k ==> (#[trigger] slot[j]).priority.rank() >= entry.priority.rank(),
                    decreases slot.len() - k,
                {
                    k += 1;
                }
                proof {
                    lemma_position_for(slot, entry.priority, k as int);
                    law_placed_keeps_dispatch_order(slot, entry);
                }
                self.slots[i].entries.insert(k, entry);
                proof {
                    let after = self.slots@;
                    assert(after =~= before.update(i as int, after[i as int]));
                    lemma_total_update(before, i as int, after[i as int]);
                    assert(keys_distinct(after));
                    lemma_slot_index(after, type_id, i as int);
                    assert forall|t: TypeId| t != type_id implies self.listeners(t) == old(
                        self,
                    ).listeners(t) by {
                        Self::lemma_frame(before, after, i as int, t);
                    }
                }
            },
            None => {
                let mut entries: Vec<ListenerEntry<H>> = Vec::new();
                entries.push(entry);
                self.slots.push(Slot { type_id, entries });
                proof {
                    let after = self.slots@;
                    let n = before.len() as int;
                    assert(after.drop_last() =~= before);
                    assert forall|a: int, b: int|
                        0 <= a < after.len() && 0 <= b < after.len() && a != b implies after[a].type_id
                        != after[b].type_id by {
                        if a < n {
                            assert(after[a] == before[a]);
                            assert(!has_slot(before, type_id, a));
                        }
                        if b < n {
                            assert(after[b] == before[b]);
                            assert(!has_slot(before, type_id, b));
                        }
                    }
                    lemma_slot_index(after, type_id, n);
                    assert(after[n].entries@ =~= placed(Seq::<ListenerEntry<H>>::empty(), entry));
                    assert forall|t: TypeId| t != type_id implies self.listeners(t) == old(
                        self,
                    ).listeners(t) by {
                        Self::lemma_frame_push(before, after, t);
                    }
                }
            },
        }
    }

    /// Removes the listener numbered `id` from the listeners of event type `type_id`, and
    /// says whether there was one.
    pub fn remove(&mut self, type_id: &TypeId, id: usize) -> (found: bool)
        requires
            old(self).wf(),
        ensures
            final(self).wf(),
            found == has_id(old(self).listeners(*type_id), id),
            final(self).listeners(*type_id) == without(old(self).listeners(*type_id), id),
            forall|t: TypeId| t != *type_id ==> final(self).listeners(t) == old(self).listeners(t),
            final(self).size() == old(self).size() - (if found { 1int } else { 0int }),
    {
        let ghost before = self.slots@;
        match self.find(type_id) {
            Some(i) => {
                let ghost slot = before[i as int].entries@;
                let mut k: usize = 0;
                while k < self.slots[i].entries.len() && self.slots[i].entries[k].id != id
                    invariant
                        self.slots@ == before,
                        i < before.len(),
                        slot == before[i as int].entries@,
                        k <= slot.len(),
                        forall|j: int| 0 <= j < k ==> (#[trigger] slot[j]).id != id,
                    decreases slot.len() - k,
                {
                    k += 1;
                }
                proof {
                    lemma_position_of_id(slot, id, k as int);
                    law_without_removes_exactly(slot, id);
                }
                if k < self.slots[i].entries.len() {
                    self.slots[i].entries.remove(k);
                    proof {
                        let after = self.slots@;
                        assert(after =~= before.update(i as int, after[i as int]));
                        lemma_total_update(before, i as int, after[i as int]);
                        assert(keys_distinct(after));
                        lemma_slot_index(after, *type_id, i as int);
                        assert forall|t: TypeId| t != *type_id implies self.listeners(t) == old(
                            self,
                        ).listeners(t) by {
                            Self::lemma_frame(before, after, i as int, t);
                        }
                    }
                    true
                } else {
                    false
                }
            },
            None => {
                assert(!has_id(self.listeners(*type_id), id));
                false
            },
        }
    }

    /// The number of listeners registered for event type `type_id`.
    pub fn count(&self, type_id: &TypeId) -> (r: usize)
        requires
            self.wf(),
        ensures
            r == self.listeners(*type_id).len(),
            r <= self.size(),
    {
        proof {
            self.lemma_wf(*type_id);
        }
        match self.find(type_id) {
            Some(i) => self.slots[i].entries.len(),
            None => 0,
        }
    }

    /// The listeners registered for event type `type_id`, in dispatch order, if any
    /// were ever registered for it.
    pub fn get(&self, type_id: &TypeId) -> (r: Option<&Vec<ListenerEntry<H>>>)
        requires
            self.wf(),
        ensures
            match r {
                Some(entries) => entries@ == self.listeners(*type_id),
                None => self.listeners(*type_id).len() == 0,
            },
    {
        match self.find(type_id) {
            Some(i) => Some(&self.slots[i].entries),
            None => None,
        }
    }

    /// Removes every listener of every event type.
    pub fn clear(&mut self)
        ensures
            final(self).wf(),
            final(self).size() == 0,
            forall|t: TypeId| final(self).listeners(t).len() == 0,
    {
        self.slots.clear();
        assert forall|t: TypeId| self.listeners(t).len() == 0 by {
            assert(forall|i: int| !has_slot(self.slots@, t, i));
        }
    }

    proof fn lemma_frame(before: Seq<Slot<H>>, after: Seq<Slot<H>>, i: int, t: TypeId)
        requires
            keys_distinct(before),
            0 <= i < before.len(),
            after.len() == before.len(),
            after[i].type_id == before[i].type_id,
            forall|j: int| 0 <= j < before.len() && j != i ==> after[j] == before[j],
            t != before[i].type_id,
        ensures
            match slot_index(before, t) {
                Some(j) => slot_index(after, t) == Some(j) && after[j] == before[j],
                None => slot_index(after, t) is None,
            },
    {
        assert(keys_distinct(after));
        assert(forall|j: int| has_slot(before, t, j) <==> has_slot(after, t, j));
        match slot_index(before, t) {
            Some(j) => {
                assert(has_slot(before, t, j));
                lemma_slot_index(after, t, j);
            },
            None => {},
        }
    }

    proof fn lemma_frame_push(before: Seq<Slot<H>>, after: Seq<Slot<H>>, t: TypeId)
        requires
            keys_distinct(after),
            after.len() == before.len() + 1,
            after.drop_last() == before,
            t != after.last().type_id,
        ensures
            match slot_index(before, t) {
                Some(j) => slot_index(after, t) == Some(j) && after[j] == before[j],
                None => slot_index(after, t) is None,
            },
    {
        assert(forall|j: int| 0 <= j < before.len() ==> before[j] == after[j]);
        assert(forall|j: int| has_slot(before, t, j) <==> has_slot(after, t, j));
        match slot_index(before, t) {
            Some(j) => {
                assert(has_slot(before, t, j));
                lemma_slot_index(after, t, j);
            },
            None => {},
        }
    }
}

} // verus!
