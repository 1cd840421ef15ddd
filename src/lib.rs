//! Recovery of bare repositories scattered over a storage tree: discovery by
//! directory shape, confirmation, cloning into a recovery area, triage of empty
//! clones and removal of clones that share a content fingerprint.
//!
//! Every decision is made here over plain values; reading directories, running
//! the version-control tool and moving directories is left to the caller.

pub mod shape;
pub mod scan;
pub mod error;
pub mod validate;
pub mod naming;
pub mod recover;
pub mod triage;
pub mod fingerprint;
pub mod dedup;

use vstd::prelude::*;

verus! {

/// The strings held by a vector, as sequences of characters.
pub open spec fn texts(v: Seq<String>) -> Seq<Seq<char>> {
    v.map_values(|s: String| s@)
}

} // verus!
