//! An in-process, typed publish/subscribe dispatcher.
//!
//! Producers emit typed event values. Listeners are registered per event type and are
//! invoked in priority order, highest first, with registration order breaking ties.
//! A chain of middleware predicates may veto an event before any listener runs, and
//! every emission is counted per event type.
pub mod async_support;
pub mod dispatcher;
pub mod error;
pub mod event;
pub mod listener;
pub mod metrics;
pub mod middleware;
pub mod prelude;
pub mod priority;
pub mod registry;
pub mod result;

pub use async_support::AsyncDispatch;
pub use async_support::AsyncEventListener;
pub use async_support::AsyncEventResult;
pub use async_support::AsyncHandler;
pub use async_support::AsyncListenerWrapper;
pub use async_support::PendingOutcome;
pub use dispatcher::EventDispatcher;
pub use error::ListenerError;
pub use event::ErasedEvent;
pub use event::Event;
pub use event::ListenerId;
pub use listener::invoke_all;
pub use listener::EventListener;
pub use listener::ListenerWrapper;
pub use metrics::EventMetadata;
pub use metrics::MetricsStore;
pub use middleware::MiddlewareFunction;
pub use middleware::MiddlewareManager;
pub use priority::Priority;
pub use registry::ListenerEntry;
pub use registry::Registry;
pub use result::DispatchResult;
pub use result::Outcome;
