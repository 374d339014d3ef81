//! Recoverable validation errors surfaced to callers.

use vstd::prelude::*;

verus! {

/// Error returned by the non-aborting registration variant.
///
/// Fatal conditions (bad metadata reference, missing metadata entry, failed
/// authorization) are not represented here: the operations concerned reject
/// those inputs outright, by precondition, and the adapter refuses the
/// invocation before calling them.
#[derive(Clone, Copy, Debug, PartialEq, Eq, Structural)]
pub enum RevoraError {
    /// The requested revenue share exceeds 10000 basis points (100%).
    InvalidRevenueShareBps,
}

impl RevoraError {
    /// Stable numeric code published for integrators.
    pub fn code(&self) -> (c: u32)
        ensures
            c == 1,
    {
        1
    }
}

} // verus!
