//! Errors a query can surface. Per-query failures are returned as values and
//! never panic the serving process; an empty result is not an error.

use vstd::prelude::*;

verus! {

/// Why a search could not be answered.
#[derive(Clone, Copy, PartialEq, Eq, Structural, Debug)]
pub enum Error {
    /// An index structure was queried before its one-time load completed — a
    /// startup-ordering bug, not a user-facing condition.
    NotInitialized,
    /// The posting store could not return data for the requested dimensions —
    /// a failed search, distinct from a legitimate empty result.
    NotFound,
}

} // verus!
