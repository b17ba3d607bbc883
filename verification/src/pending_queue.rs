//! The write kinds a moderation queue distinguishes.
//!
//! When a knowledge base requires approval, writes wait in a local queue
//! until a human admits them. The durable queue itself belongs to the
//! persistence layer; the closed set of operations lives here.

use vstd::prelude::*;

use crate::text::fold_eq;

verus! {

/// A queued write operation awaiting approval.
#[derive(Debug, Clone, Copy, PartialEq, Eq, Structural)]
pub enum PendingWriteType {
    /// Add a new fact.
    Add,
    /// Correct an existing fact.
    Correct,
    /// Extend an existing fact.
    Extend,
    /// Deprecate a fact.
    Deprecate,
}

/// The canonical name of a pending write kind.
pub open spec fn spec_pending_write_name(t: PendingWriteType) -> Seq<char> {
    match t {
        PendingWriteType::Add => "add"@,
        PendingWriteType::Correct => "correct"@,
        PendingWriteType::Extend => "extend"@,
        PendingWriteType::Deprecate => "deprecate"@,
    }
}

impl PendingWriteType {
    /// The canonical lowercase name.
    pub fn as_str(&self) -> (r: &'static str)
        ensures
            r@ == spec_pending_write_name(*self),
    {
        match self {
            PendingWriteType::Add => "add",
            PendingWriteType::Correct => "correct",
            PendingWriteType::Extend => "extend",
            PendingWriteType::Deprecate => "deprecate",
        }
    }

    /// Parse a pending-write name, ignoring ASCII case.
    pub fn parse_str(s: &str) -> (r: Option<PendingWriteType>)
        ensures
            match r {
                Some(t) => fold_eq(s@, spec_pending_write_name(t)),
                None => !fold_eq(s@, "add"@) && !fold_eq(s@, "correct"@) && !fold_eq(
                    s@,
                    "extend"@,
                ) && !fold_eq(s@, "deprecate"@),
            },
    {
        if crate::text::str_eq_fold(s, "add") {
            Some(PendingWriteType::Add)
        } else if crate::text::str_eq_fold(s, "correct") {
            Some(PendingWriteType::Correct)
        } else if crate::text::str_eq_fold(s, "extend") {
            Some(PendingWriteType::Extend)
        } else if crate::text::str_eq_fold(s, "deprecate") {
            Some(PendingWriteType::Deprecate)
        } else {
            None
        }
    }
}

} // verus!
