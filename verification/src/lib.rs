//! A bidirectional synchronizer for calendar/task collections: a remote
//! authority ("server") and a local cache are reconciled into one merged
//! state, with a fixed server-wins conflict policy.

pub mod calendar;
pub mod event;
pub mod ical;
pub mod item;
pub mod keyed;
pub mod laws;
pub mod provider;
pub mod source;
pub mod utils;

pub use event::Event;
pub use item::Item;
pub use item::Task;
