//! The error taxonomy of the tree engine. All conditions are
//! recoverable and are returned to the immediate caller; no operation
//! of the library panics on them.

use vstd::prelude::*;

use crate::title::Generation;

verus! {

/// Why an operation was refused. Each variant carries the offending
/// name (and, for an ineligible successor, the generation found).
#[derive(Debug)]
pub enum TreeError {
    /// The named member is not in the tree.
    NotFound(String),
    /// The name already belongs to a member of the tree, or occurs
    /// twice in one batch.
    DuplicateName(String),
    /// The member was already marked dead.
    AlreadyDead(String),
    /// A batch payload could not be understood at all.
    InvalidBatchPayload,
    /// The named member is too many generations below the head to
    /// inherit.
    IneligibleSuccessor(String, Generation),
}

} // verus!
