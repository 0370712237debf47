//! The error taxonomy: nothing is retried or reinterpreted anywhere in the
//! core; every failure is surfaced unchanged to the caller.

use vstd::prelude::*;

verus! {

/// Why a cache or hierarchy operation failed.
#[derive(Debug, Clone, PartialEq, Eq)]
pub enum HierError {
    /// The provider cannot resolve this identifier to a handle.
    NotFound(String),
    /// A provider call failed; the message is passed through unchanged.
    ProviderFailure(String),
    /// An internal guard was poisoned by an earlier failure; the cache
    /// instance should not be used further.
    ConcurrencyFault(String),
    /// The entry's back-link into the cache can no longer be resolved
    /// because the owning cache was cleared.
    DanglingReference(String),
}

pub type HierResult<T> = Result<T, HierError>;

} // verus!
