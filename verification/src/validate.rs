//! Authorship validation.
//!
//! Every record has exactly one legitimate writer, its owner.  The store
//! substrate checks each mutation it replicates against the rule that the
//! author of a revision equals the author of the revision it updates or
//! deletes; this module is that rule.

use vstd::prelude::*;

verus! {

/// A mutation as seen by validation: who signed it, and — for updates and
/// deletions — who authored the revision it acts on.
#[derive(Clone, Copy, Debug, PartialEq, Eq, Structural)]
pub enum Op {
    /// A fresh entry; any identity may create its own records.
    Create { author: u64 },
    /// A revision of an existing entry.
    Update { author: u64, original_author: u64 },
    /// A logical deletion of an existing entry.
    Delete { author: u64, original_author: u64 },
    /// A new link-index edge.
    CreateLink { author: u64 },
    /// The removal of a link-index edge.
    DeleteLink { author: u64 },
    /// Replication bookkeeping that carries no mutation of its own.
    AgentActivity,
}

/// The verdict on one operation.
#[derive(Debug, PartialEq, Eq)]
pub enum ValidateCallbackResult {
    Valid,
    Invalid(String),
}

/// The authorship rule: creations, link operations and bookkeeping are
/// always valid; an update or deletion is valid exactly when its author
/// is the author of the revision it acts on.
pub open spec fn op_valid(op: Op) -> bool {
    match op {
        Op::Update { author, original_author } => author == original_author,
        Op::Delete { author, original_author } => author == original_author,
        _ => true,
    }
}

/// Validates one operation against the authorship rule.  A violation is a
/// hard rejection, surfaced as `Invalid`, never silently recovered.
pub fn validate(op: &Op) -> (r: ValidateCallbackResult)
    ensures
        r is Valid <==> op_valid(*op),
{
    match op {
        Op::Update { author, original_author } => {
            if author == original_author {
                ValidateCallbackResult::Valid
            } else {
                ValidateCallbackResult::Invalid(String::from_str("Only original author can update"))
            }
        },
        Op::Delete { author, original_author } => {
            if author == original_author {
                ValidateCallbackResult::Valid
            } else {
                ValidateCallbackResult::Invalid(String::from_str("Only original author can delete"))
            }
        },
        _ => ValidateCallbackResult::Valid,
    }
}

/// The membrane check run when an identity joins the private store.  The
/// proof of admission is enforced by the replication substrate itself;
/// this additional layer admits everyone it is asked about.
pub fn genesis_self_check() -> (r: ValidateCallbackResult)
    ensures
        r is Valid,
{
    ValidateCallbackResult::Valid
}

} // verus!
