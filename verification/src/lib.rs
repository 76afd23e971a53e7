//! A per-owner, privately replicated record store.
//!
//! Every record is an immutable, content-addressed entry owned by exactly one
//! identity.  A logical mutable value (a profile, a secret, a setting) is
//! represented as a chain of such entries: each revision names its predecessor,
//! and the authoritative current value is found by walking forward to the
//! unique entry with no successors.  Discovery is by identity-scoped link
//! edges rather than global scans.
//!
//! The storage substrate (content-addressed blobs plus an insertion-ordered
//! link index) is modelled explicitly by [`store::Store`]: an arena of entries,
//! an adjacency index from entry to its ordered successors, and an edge table.
//! All operations of the record lifecycle, chain resolution, migration and
//! retention are verified against that model.

pub mod types;
pub mod store;
pub mod resolve;
pub mod lifecycle;
pub mod activity;
pub mod permissions;
pub mod validate;
pub mod migrate;
