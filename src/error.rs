//! Errors reported by the scheduler facade.
use vstd::prelude::*;

verus! {

/// The kinds of failure a facade operation can report.
#[derive(Clone, Copy, Debug, PartialEq, Eq, Structural)]
pub enum ConstellationError {
    /// An operation was called in a state that does not allow it.
    StateError,
    /// `done` found work left; the caller may retry later.
    ShutdownPending,
    /// An internal invariant was broken (identifier space exhausted).
    InternalInvariant,
    /// The inter-node transport failed or is not available.
    TransportError,
}

impl ConstellationError {
    /// A short human readable description of the error.
    pub fn describe(&self) -> (r: &'static str)
        ensures
            *self == ConstellationError::StateError ==> r@ == "operation not allowed in this state"@,
            *self == ConstellationError::ShutdownPending ==> r@ == "work is left, shutdown pending"@,
            *self == ConstellationError::InternalInvariant ==> r@ == "internal invariant violated"@,
            *self == ConstellationError::TransportError ==> r@ == "transport failure"@,
    {
        match self {
            ConstellationError::StateError => "operation not allowed in this state",
            ConstellationError::ShutdownPending => "work is left, shutdown pending",
            ConstellationError::InternalInvariant => "internal invariant violated",
            ConstellationError::TransportError => "transport failure",
        }
    }
}

} // verus!
