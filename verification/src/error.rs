//! The failures that the pipeline tells apart.

use vstd::prelude::*;

verus! {

/// Why an operation of the pipeline failed. A lookup that finds nothing
/// is no failure: it returns `None`.
#[derive(Clone, Copy, Debug, PartialEq, Eq, Structural)]
pub enum RagError {
    /// The input holds nothing to work on, or does not fit the store.
    ValidationError,
    /// The service could not be reached.
    TransportError,
    /// The service answered with an error status or a malformed payload.
    ServiceError,
    /// A record with the given id is already stored.
    DuplicateIdError,
}

impl RagError {
    /// Whether trying again may help: only a transport failure is
    /// transient.
    pub fn is_retryable(&self) -> (r: bool)
        ensures
            r == (*self == RagError::TransportError),
    {
        match self {
            RagError::TransportError => true,
            _ => false,
        }
    }
}

} // verus!
