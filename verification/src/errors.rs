use vstd::prelude::*;

verus! {

/// Typed failure surfaced by the feed registry and the entry repositories.
#[derive(Clone, Copy, Debug, PartialEq, Eq, Structural)]
pub enum StoreError {
    /// The requested feed or entry does not exist.
    NotFound,
    /// A feed with the requested name already exists.
    Conflict,
    /// A storage-level constraint was violated: the referenced feed is
    /// missing, or the id space of the collection is exhausted.
    Storage,
    /// The value is malformed for the feed's entry kind.
    Validation,
}

/// Client-visible outcome of a failed render request. Internal error detail
/// is never echoed to the client.
#[derive(Clone, Copy, Debug, PartialEq, Eq, Structural)]
pub enum ServeError {
    /// The requested feed does not exist.
    NotFound,
    /// Opaque generic failure; nothing about the cause is disclosed.
    Failure,
}

/// Maps an internal storage failure to its client-visible outcome: a missing
/// feed is reported as `NotFound`, every other failure as an opaque generic
/// failure.
pub fn client_outcome(err: StoreError) -> (r: ServeError)
    ensures
        r == (if err == StoreError::NotFound {
            ServeError::NotFound
        } else {
            ServeError::Failure
        }),
{
    match err {
        StoreError::NotFound => ServeError::NotFound,
        _ => ServeError::Failure,
    }
}

} // verus!
