//! The task aggregate: one run of a workflow — its journal, its gates, where
//! its artifacts land, and the run context.

pub mod context;
pub mod journal;
pub mod landings;
pub mod model;
pub mod progress;
pub mod round_trip;

pub use crate::paths::expand_placeholders;
pub use context::{RunContext, RunContextModel};
pub use journal::{JournalEvent, JournalEventModel};
pub use model::{Task, TaskModel};
