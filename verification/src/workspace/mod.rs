//! The workspace aggregate: the bounds of one piece of work, tying the loaded
//! definitions to the tasks that run them.
//!
//! The model is in [`model`]; the operations that span definitions and tasks
//! live beside it: checking a definition ([`check`]), where artifacts land and
//! what the placeholders stand for ([`place`]), and how far a task has come
//! ([`progress`]). A workspace holds content, not a location: the directory
//! everything is joined to is the platform's, handed in as a parameter.

pub mod check;
pub mod model;
pub mod place;
pub mod progress;

pub use check::{Finding, looks_like_section};
pub use model::{Workspace, WorkspaceModel};
pub use place::Placeholders;
