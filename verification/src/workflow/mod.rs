//! The workflow aggregate: the model, reading and checking a definition, and
//! checking a definition against the workspace.

pub mod check;
pub mod findings;
pub mod model;
pub mod round_trip;
pub mod validate;

pub use crate::paths::expand_placeholders;
pub use model::{Step, StepModel, Workflow, WorkflowModel};
pub use validate::validate;
pub use check::{Finding, all_ok, check, describe, looks_like_section};
