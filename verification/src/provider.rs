//! Provider traits and registration metadata.
//!
//! These define what can be registered and how a registration is described;
//! the container itself only ever sees keys, handles and factory entries.

use crate::ServiceKey;
use vstd::prelude::*;

verus! {

/// Marker for values that can be registered in the container: a service is
/// anything that can be shared between resolutions.
pub trait Injectable {

}

/// Backward compatibility alias for `Injectable`.
pub trait Provider: Injectable {

}

/// Service lifetime specification.
#[derive(Debug, Clone, Copy, PartialEq, Eq, Hash, Structural)]
pub enum Lifetime {
    /// Single instance shared across all resolves.
    Singleton,
    /// New instance created lazily on first access, then shared.
    Lazy,
    /// New instance created on every resolve.
    Transient,
    /// One instance per scope.
    Scoped,
}

impl Default for Lifetime {
    /// The default lifetime is the shared singleton.
    fn default() -> (r: Lifetime)
        ensures
            r == Lifetime::Singleton,
    {
        Lifetime::Singleton
    }
}

/// Registration information for a provider: the key it registers under and
/// a human-readable name for diagnostics.
#[derive(Debug, Clone, Copy)]
pub struct ProviderRegistration {
    /// The key the provider registers under.
    pub key: ServiceKey,
    /// Human-readable type name.
    pub service_name: &'static str,
}

impl ProviderRegistration {
    /// A registration record for the given key and name.
    pub fn new(key: ServiceKey, service_name: &'static str) -> (r: ProviderRegistration)
        ensures
            r.key == key,
            r.service_name == service_name,
    {
        ProviderRegistration { key, service_name }
    }

    /// A registration record describing a singleton of the given key.
    pub fn singleton(key: ServiceKey, service_name: &'static str) -> (r: ProviderRegistration)
        ensures
            r.key == key,
            r.service_name == service_name,
    {
        ProviderRegistration { key, service_name }
    }
}

} // verus!
