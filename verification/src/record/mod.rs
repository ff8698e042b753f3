//! The work record aggregate: one entry of a ledger, the syntax it must keep,
//! and the error a ledger line that cannot be read gives.

pub mod errors;
pub mod models;

pub use errors::RecordError;
pub use models::{SyntaxFault, SyntaxFaultModel, WorkRecord, WorkRecordModel, validate};
