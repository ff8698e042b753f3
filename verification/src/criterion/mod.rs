//! The criterion aggregate: the model, how it is read from a definition, and
//! what of it a platform has to run.

pub mod items;
pub mod model;
pub mod read;

pub use items::{RuleItem, RuleItemModel, items_of};
pub use model::{Criterion, CriterionModel, RuleKind};
pub use read::{criterion_of, read_criterion};
