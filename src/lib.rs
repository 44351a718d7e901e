//! Usage accounting for an AI coding assistant's transcript logs: token
//! counters, transcript summaries, the rolling-window budget, the aggregated
//! snapshot, the session store and the change-event debouncer.

pub mod budget;
pub mod history;
pub mod session;
pub mod stats;
pub mod store;
pub mod time;
pub mod usage;
pub mod watcher;
