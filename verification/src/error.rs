//! Error values for registry operations.
//!
//! Every resolution failure is returned as a value, never thrown. The only
//! deliberately fatal condition, registering on a locked scope, is excluded
//! by precondition instead (see `container`).

use crate::ServiceKey;
use vstd::prelude::*;

verus! {

/// Errors that registry operations can return.
#[derive(Clone, Copy, PartialEq, Eq, Debug, Structural)]
pub enum DiError {
    /// The requested key is absent from the whole visible scope chain.
    NotFound { key: ServiceKey },
    /// A dependency cycle was detected while resolving the key.
    CircularDependency { key: ServiceKey },
    /// A factory could not produce a value for the key.
    CreationFailed { key: ServiceKey },
    /// The scope is locked and cannot accept registrations.
    Locked,
    /// The key is already registered.
    AlreadyRegistered { key: ServiceKey },
    /// An ancestor registry no longer exists. This container keeps every
    /// ancestor alive for as long as a descendant scope exists, so it never
    /// produces this value itself; it is kept for callers that adopt a
    /// checked weak-parent variant.
    ParentDropped,
    /// An unclassified internal failure.
    Internal,
}

impl DiError {
    /// A `NotFound` error for the given key.
    pub fn not_found(key: ServiceKey) -> (e: DiError)
        ensures
            e == (DiError::NotFound { key }),
    {
        DiError::NotFound { key }
    }

    /// A `CreationFailed` error for the given key.
    pub fn creation_failed(key: ServiceKey) -> (e: DiError)
        ensures
            e == (DiError::CreationFailed { key }),
    {
        DiError::CreationFailed { key }
    }

    /// An `AlreadyRegistered` error for the given key.
    pub fn already_registered(key: ServiceKey) -> (e: DiError)
        ensures
            e == (DiError::AlreadyRegistered { key }),
    {
        DiError::AlreadyRegistered { key }
    }

    /// A `CircularDependency` error for the given key.
    pub fn circular(key: ServiceKey) -> (e: DiError)
        ensures
            e == (DiError::CircularDependency { key }),
    {
        DiError::CircularDependency { key }
    }
}

} // verus!
