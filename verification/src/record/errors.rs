//! The error for a ledger line that cannot be read.
//!
//! It holds only which entry (counted from 1, top down) and why; the file's
//! name is the caller's to put in front when it shows the error.

use crate::text::{chars_of, decimal, decimal_chars, push_str, string_of};
use vstd::prelude::*;

verus! {

/// An entry that cannot be read: which one, and why.
#[derive(Debug, Clone, PartialEq, Eq)]
pub struct RecordError {
    /// The entry's place in the ledger, counted from 1, top down.
    pub ordinal: usize,
    /// Why it cannot be read.
    pub reason: String,
}

/// How the error reads: `第 <n> 笔<reason>`.
pub open spec fn record_error_text(ordinal: nat, reason: Seq<char>) -> Seq<char> {
    "第 "@ + decimal(ordinal) + " 笔"@ + reason
}

impl RecordError {
    /// The error for entry `ordinal`, with its reason.
    pub fn new(ordinal: usize, reason: &str) -> (e: RecordError)
        ensures
            e.ordinal == ordinal,
            e.reason@ == reason@,
    {
        RecordError { ordinal, reason: String::from_str(reason) }
    }

    /// The error as it is shown: `第 <n> 笔<reason>`.
    pub fn to_string(&self) -> (r: String)
        ensures
            r@ == record_error_text(self.ordinal as nat, self.reason@),
    {
        let mut out = chars_of("第 ");
        let n = decimal_chars(self.ordinal);
        crate::text::push_chars(&mut out, &n);
        push_str(&mut out, " 笔");
        push_str(&mut out, self.reason.as_str());
        string_of(&out)
    }
}

} // verus!
