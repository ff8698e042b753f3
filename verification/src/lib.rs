//! Knowledge-work toolkit: the fixed core of workflow definitions, criteria,
//! tasks and their journals, artifact landings and placeholder expansion.

pub mod text;
pub mod yaml;
pub mod executor;
pub mod fields;
pub mod error;
pub mod criterion;
pub mod paths;
pub mod workflow;
pub mod task;
pub mod artifact;
pub mod workspace;
pub mod record;
pub mod outcome;
pub mod tasklog;
pub mod prompts;

use vstd::prelude::*;

verus! {

/// The domain this toolkit serves.
pub const DOMAIN: &'static str = "knowledge-work";

/// The toolkit's version, the same as the package's.
pub const VERSION: &'static str = "0.1.0";

} // verus!
