//! The names that most users of the dispatcher need.
pub use crate::async_support::AsyncEventListener;
pub use crate::dispatcher::EventDispatcher;
pub use crate::event::ErasedEvent;
pub use crate::event::Event;
pub use crate::priority::Priority;
