//! Who carries out a step and who judges a criterion.
//!
//! The three values are fixed. A step can only name [`AGENT`] or [`HUMAN`];
//! a criterion may also name [`RULE`] (a mechanical check, no agent involved).

use vstd::prelude::*;

verus! {

/// The agent.
pub const AGENT: &'static str = "agent";

/// The rule engine: a mechanical check.
pub const RULE: &'static str = "rule";

/// A person: decides only at the gates.
pub const HUMAN: &'static str = "human";

/// Who may carry out a step.
pub const EXECUTORS: [&'static str; 2] = [AGENT, HUMAN];

/// Who may judge a criterion.
pub const CRITERION_TYPES: [&'static str; 3] = [RULE, AGENT, HUMAN];

} // verus!
