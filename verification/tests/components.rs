//! The parts of the dispatcher on their own.

use mod_events::invoke_all;
use mod_events::DispatchResult;
use mod_events::ErasedEvent;
use mod_events::Event;
use mod_events::EventListener;
use mod_events::EventMetadata;
use mod_events::ListenerEntry;
use mod_events::ListenerError;
use mod_events::ListenerWrapper;
use mod_events::MetricsStore;
use mod_events::MiddlewareFunction;
use mod_events::MiddlewareManager;
use mod_events::Outcome;
use mod_events::Priority;
use mod_events::Registry;
use std::any::TypeId;
use std::sync::atomic::{AtomicUsize, Ordering};
use std::sync::Arc;

#[derive(Debug, Clone, PartialEq)]
struct Ping {
    id: u64,
}

impl Event for Ping {
    fn event_name() -> &'static str {
        "components::Ping"
    }
}

#[derive(Debug, Clone)]
struct Pong {
    id: u64,
}

impl Event for Pong {
    fn event_name() -> &'static str {
        "components::Pong"
    }
}

#[test]
fn priority_ranks() {
    assert_eq!(Priority::Lowest.value(), 0);
    assert_eq!(Priority::Low.value(), 25);
    assert_eq!(Priority::Normal.value(), 50);
    assert_eq!(Priority::High.value(), 75);
    assert_eq!(Priority::Highest.value(), 100);
    assert_eq!(Priority::Critical.value(), 125);
    assert_eq!(Priority::default(), Priority::Normal);
}

#[test]
fn priority_order() {
    assert!(Priority::Critical > Priority::Highest);
    assert!(Priority::Highest > Priority::High);
    assert!(Priority::High > Priority::Normal);
    assert!(Priority::Normal > Priority::Low);
    assert!(Priority::Low > Priority::Lowest);
    assert!(Priority::High.at_least(Priority::High));
    assert!(Priority::High.at_least(Priority::Low));
    assert!(!Priority::Low.at_least(Priority::Normal));
}

#[test]
fn priority_all_lists_every_level_most_urgent_first() {
    assert_eq!(
        Priority::all().to_vec(),
        vec![
            Priority::Critical,
            Priority::Highest,
            Priority::High,
            Priority::Normal,
            Priority::Low,
            Priority::Lowest
        ]
    );
    for pair in Priority::all().windows(2) {
        assert!(pair[0].value() > pair[1].value());
    }
}

#[test]
fn listener_error_keeps_its_text() {
    let from_str: ListenerError = "Test error".into();
    assert_eq!(from_str.message(), "Test error");
    let from_string = ListenerError::from("other".to_string());
    assert_eq!(from_string.message(), "other");
    let made = ListenerError::new("made".to_string());
    assert_eq!(made.to_string(), "made".to_string());
    assert_eq!(made, ListenerError::from("made"));
    assert_ne!(made, from_str);
}

#[test]
fn dispatch_result_counts() {
    let outcomes: Vec<Outcome> = vec![
        Ok(()),
        Err("one".into()),
        Ok(()),
        Err("two".into()),
        Ok(()),
    ];
    let result = DispatchResult::new(outcomes);
    assert!(!result.is_blocked());
    assert_eq!(result.listener_count(), 5);
    assert_eq!(result.success_count(), 3);
    assert_eq!(result.error_count(), 2);
    assert!(result.has_errors());
    assert!(!result.all_succeeded());
    let errors = result.errors();
    assert_eq!(errors.len(), 2);
    assert_eq!(errors[0].message(), "one");
    assert_eq!(errors[1].message(), "two");

    let clean = DispatchResult::new(vec![Ok(()), Ok(())]);
    assert!(clean.all_succeeded());
    assert!(!clean.has_errors());
    assert_eq!(clean.success_count(), 2);
    assert_eq!(clean.error_count(), 0);
    assert!(clean.errors().is_empty());

    let empty = DispatchResult::new(Vec::new());
    assert!(empty.all_succeeded());
    assert_eq!(empty.listener_count(), 0);

    let blocked = DispatchResult::blocked();
    assert!(blocked.is_blocked());
    assert!(!blocked.all_succeeded());
    assert!(!blocked.has_errors());
    assert_eq!(blocked.listener_count(), 0);
    assert_eq!(blocked.success_count(), 0);
    assert_eq!(blocked.error_count(), 0);
}

#[test]
fn erased_event_gives_back_only_its_own_type() {
    let ping = Ping { id: 7 };
    let erased = ErasedEvent::of(&ping);
    assert_eq!(erased.event_name(), "components::Ping");
    assert_eq!(erased.type_id(), TypeId::of::<Ping>());
    assert_eq!(erased.downcast_ref::<Ping>(), Some(&ping));
    assert!(erased.downcast_ref::<Pong>().is_none());
    assert!(erased.downcast_ref::<u64>().is_none());

    let pong = Pong { id: 7 };
    let other = ErasedEvent::of(&pong);
    assert_ne!(other.type_id(), erased.type_id());
    assert_eq!(other.downcast_ref::<Pong>().map(|p| p.id), Some(7));
    assert!(other.downcast_ref::<Ping>().is_none());
}

#[test]
fn a_typed_listener_ignores_events_of_another_type() {
    let calls = Arc::new(AtomicUsize::new(0));
    let calls_clone = calls.clone();
    let wrapper = ListenerWrapper::new(
        move |ping: &Ping| {
            calls_clone.fetch_add(1, Ordering::SeqCst);
            if ping.id == 999 {
                Err("bad ping".into())
            } else {
                Ok(())
            }
        },
        Priority::High,
        4,
    );
    assert_eq!(wrapper.priority, Priority::High);
    assert_eq!(wrapper.id, 4);
    let entries = vec![wrapper];

    let good = invoke_all(&entries, &ErasedEvent::of(&Ping { id: 1 }));
    assert_eq!(good, vec![Ok(())]);
    assert_eq!(calls.load(Ordering::SeqCst), 1);

    let bad = invoke_all(&entries, &ErasedEvent::of(&Ping { id: 999 }));
    assert_eq!(bad, vec![Err(ListenerError::from("bad ping"))]);
    assert_eq!(calls.load(Ordering::SeqCst), 2);

    let mismatch = invoke_all(&entries, &ErasedEvent::of(&Pong { id: 999 }));
    assert_eq!(mismatch, vec![Ok(())]);
    assert_eq!(calls.load(Ordering::SeqCst), 2);

    let none: Vec<ListenerWrapper> = Vec::new();
    assert!(invoke_all(&none, &ErasedEvent::of(&Ping { id: 1 })).is_empty());
}

fn entry(priority: Priority, id: usize) -> ListenerEntry<&'static str> {
    ListenerEntry {
        handler: "handler",
        priority,
        id,
    }
}

fn ids(registry: &Registry<&'static str>, type_id: &TypeId) -> Vec<usize> {
    match registry.get(type_id) {
        Some(entries) => entries.iter().map(|e| e.id).collect(),
        None => Vec::new(),
    }
}

#[test]
fn registry_keeps_each_slot_in_dispatch_order() {
    let ping = TypeId::of::<Ping>();
    let pong = TypeId::of::<Pong>();
    let mut registry: Registry<&'static str> = Registry::new();
    assert_eq!(registry.count(&ping), 0);
    assert!(registry.get(&ping).is_none());

    registry.insert(ping, entry(Priority::Low, 0));
    registry.insert(ping, entry(Priority::High, 1));
    registry.insert(pong, entry(Priority::Normal, 2));
    registry.insert(ping, entry(Priority::Normal, 3));
    registry.insert(ping, entry(Priority::High, 4));
    registry.insert(ping, entry(Priority::Critical, 5));
    registry.insert(ping, entry(Priority::Low, 6));

    assert_eq!(ids(&registry, &ping), vec![5, 1, 4, 3, 0, 6]);
    assert_eq!(ids(&registry, &pong), vec![2]);
    assert_eq!(registry.count(&ping), 6);
    assert_eq!(registry.count(&pong), 1);

    assert!(registry.remove(&ping, 4));
    assert!(!registry.remove(&ping, 4));
    assert!(!registry.remove(&ping, 2));
    assert!(!registry.remove(&TypeId::of::<u8>(), 0));
    assert_eq!(ids(&registry, &ping), vec![5, 1, 3, 0, 6]);
    assert_eq!(ids(&registry, &pong), vec![2]);

    assert!(registry.remove(&pong, 2));
    assert_eq!(registry.count(&pong), 0);
    assert_eq!(ids(&registry, &pong), Vec::<usize>::new());

    registry.clear();
    assert_eq!(registry.count(&ping), 0);
    assert!(registry.get(&ping).is_none());
}

#[test]
fn middleware_manager_is_a_short_circuiting_conjunction() {
    let ping = Ping { id: 1 };
    let event = ErasedEvent::of(&ping);
    let mut manager = MiddlewareManager::new();
    assert_eq!(manager.count(), 0);
    assert!(manager.process(&event));

    let evaluated = Arc::new(AtomicUsize::new(0));
    let first = evaluated.clone();
    manager.add(move |_: &ErasedEvent| {
        first.fetch_add(1, Ordering::SeqCst);
        true
    });
    assert_eq!(manager.count(), 1);
    assert!(manager.process(&event));

    let second = evaluated.clone();
    manager.add(move |event: &ErasedEvent| {
        second.fetch_add(10, Ordering::SeqCst);
        event.downcast_ref::<Ping>().is_none()
    });
    let third = evaluated.clone();
    manager.add(move |_: &ErasedEvent| {
        third.fetch_add(100, Ordering::SeqCst);
        true
    });
    assert_eq!(manager.count(), 3);

    evaluated.store(0, Ordering::SeqCst);
    assert!(!manager.process(&event));
    assert_eq!(evaluated.load(Ordering::SeqCst), 11);

    evaluated.store(0, Ordering::SeqCst);
    let pong = Pong { id: 1 };
    assert!(manager.process(&ErasedEvent::of(&pong)));
    assert_eq!(evaluated.load(Ordering::SeqCst), 111);

    manager.clear();
    assert_eq!(manager.count(), 0);
    assert!(manager.process(&event));
    assert_eq!(MiddlewareManager::default().count(), 0);
}

#[test]
fn a_middleware_function_evaluates_its_closure() {
    let odd = MiddlewareFunction::new(|event: &ErasedEvent| match event.downcast_ref::<Ping>() {
        Some(ping) => ping.id % 2 == 1,
        None => false,
    });
    assert!(odd.allows(&ErasedEvent::of(&Ping { id: 3 })));
    assert!(!odd.allows(&ErasedEvent::of(&Ping { id: 4 })));
    assert!(!odd.allows(&ErasedEvent::of(&Pong { id: 3 })));
}

#[test]
fn metrics_store_counts_per_event_type() {
    let mut store = MetricsStore::new();
    assert_eq!(store.count(), 0);
    assert!(store.get(&TypeId::of::<Ping>()).is_none());

    store.record_dispatch::<Ping>();
    store.record_dispatch::<Ping>();
    store.record_listener_count::<Pong>(4);
    store.record_dispatch::<Ping>();
    store.record_listener_count::<Ping>(2);
    store.record_dispatch::<Pong>();

    assert_eq!(store.count(), 2);
    let ping = store.get(&TypeId::of::<Ping>()).unwrap();
    assert_eq!(ping.dispatch_count, 3);
    assert_eq!(ping.listener_count, 2);
    assert_eq!(ping.event_name, "components::Ping");
    assert_eq!(ping.type_id, TypeId::of::<Ping>());
    let pong = store.get(&TypeId::of::<Pong>()).unwrap();
    assert_eq!(pong.dispatch_count, 1);
    assert_eq!(pong.listener_count, 4);
    assert_eq!(pong.event_name, "components::Pong");

    let snapshot = store.snapshot();
    store.record_dispatch::<Ping>();
    assert_eq!(snapshot.get(&TypeId::of::<Ping>()).unwrap().dispatch_count, 3);
    assert_eq!(store.get(&TypeId::of::<Ping>()).unwrap().dispatch_count, 4);
    assert_eq!(snapshot.count(), 2);
}

#[test]
fn event_metadata_starts_at_zero() {
    let mut meta = EventMetadata::new::<Ping>();
    assert_eq!(meta.event_name, "components::Ping");
    assert_eq!(meta.type_id, TypeId::of::<Ping>());
    assert_eq!(meta.dispatch_count, 0);
    assert_eq!(meta.listener_count, 0);
    let created = meta.last_dispatch;

    meta.update_listener_count(3);
    assert_eq!(meta.listener_count, 3);
    assert_eq!(meta.dispatch_count, 0);
    assert_eq!(meta.last_dispatch, created);

    meta.increment_dispatch();
    meta.increment_dispatch();
    assert_eq!(meta.dispatch_count, 2);
    assert_eq!(meta.listener_count, 3);
    assert!(meta.last_dispatch >= created);
    assert!(meta.time_since_last_dispatch() <= created.elapsed());
}

struct Audit;

impl EventListener<Ping> for Audit {
    fn handle(&self, event: &Ping) -> Outcome {
        if event.id == 0 {
            Err("no id".into())
        } else {
            Ok(())
        }
    }
}

struct Urgent;

impl EventListener<Ping> for Urgent {
    fn handle(&self, _event: &Ping) -> Outcome {
        Ok(())
    }

    fn priority(&self) -> Priority {
        Priority::Critical
    }
}

#[test]
fn event_listener_priority_defaults_to_normal() {
    assert_eq!(Audit.priority(), Priority::Normal);
    assert_eq!(Urgent.priority(), Priority::Critical);
    assert!(Audit.handle(&Ping { id: 1 }).is_ok());
    assert_eq!(Audit.handle(&Ping { id: 0 }), Err(ListenerError::from("no id")));
    assert!(Urgent.handle(&Ping { id: 0 }).is_ok());
}

#[test]
fn an_infallible_listener_runs_its_handler_and_succeeds() {
    let calls = Arc::new(AtomicUsize::new(0));
    let calls_clone = calls.clone();
    let wrapper = ListenerWrapper::infallible(
        move |ping: &Ping| {
            calls_clone.fetch_add(ping.id as usize, Ordering::SeqCst);
        },
        Priority::Normal,
        9,
    );
    assert_eq!(wrapper.priority, Priority::Normal);
    assert_eq!(wrapper.id, 9);
    let entries = vec![wrapper];

    assert_eq!(invoke_all(&entries, &ErasedEvent::of(&Ping { id: 5 })), vec![Ok(())]);
    assert_eq!(calls.load(Ordering::SeqCst), 5);
    assert_eq!(invoke_all(&entries, &ErasedEvent::of(&Pong { id: 5 })), vec![Ok(())]);
    assert_eq!(calls.load(Ordering::SeqCst), 5);
    assert_eq!(invoke_all(&entries, &ErasedEvent::of(&Ping { id: 2 })), vec![Ok(())]);
    assert_eq!(calls.load(Ordering::SeqCst), 7);
}

#[test]
fn records_show_the_time_they_are_given() {
    let start = std::time::Instant::now();
    let later = start + std::time::Duration::from_secs(5);
    let latest = start + std::time::Duration::from_secs(9);

    let mut meta = EventMetadata::new_at::<Ping>(start);
    assert_eq!(meta.last_dispatch, start);
    assert_eq!(meta.dispatch_count, 0);
    assert_eq!(meta.listener_count, 0);
    assert_eq!(meta.event_name, "components::Ping");
    assert_eq!(meta.type_id, TypeId::of::<Ping>());
    meta.increment_dispatch_at(later);
    assert_eq!(meta.last_dispatch, later);
    assert_eq!(meta.dispatch_count, 1);

    let mut store = MetricsStore::new();
    store.record_listener_count_at::<Ping>(3, start);
    {
        let record = store.get(&TypeId::of::<Ping>()).unwrap();
        assert_eq!(record.last_dispatch, start);
        assert_eq!(record.listener_count, 3);
        assert_eq!(record.dispatch_count, 0);
    }
    store.record_dispatch_at::<Ping>(later);
    store.record_dispatch_at::<Pong>(later);
    store.record_listener_count_at::<Ping>(4, latest);
    {
        let record = store.get(&TypeId::of::<Ping>()).unwrap();
        assert_eq!(record.last_dispatch, later);
        assert_eq!(record.listener_count, 4);
        assert_eq!(record.dispatch_count, 1);
    }
    store.record_dispatch_at::<Ping>(latest);
    let ping = store.get(&TypeId::of::<Ping>()).unwrap();
    assert_eq!(ping.last_dispatch, latest);
    assert_eq!(ping.dispatch_count, 2);
    let pong = store.get(&TypeId::of::<Pong>()).unwrap();
    assert_eq!(pong.last_dispatch, later);
    assert_eq!(pong.dispatch_count, 1);
    assert_eq!(pong.listener_count, 0);
    assert_eq!(store.count(), 2);
}
