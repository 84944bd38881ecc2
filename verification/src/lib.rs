//! A hierarchical, type-keyed service registry with three lifecycle policies
//! (eager singleton, lazy singleton, transient) and scope inheritance.
//!
//! Services are keyed by a stable [`ServiceKey`] and stored as shared
//! [`ServiceHandle`] values. A [`container::Container`] owns a tree of
//! registries; child scopes see every ancestor registration and may shadow
//! them with local ones. Each public operation carries a contract phrased
//! over a ghost model of the registry tree.

pub mod container;
pub mod error;
pub mod factory;
pub mod logging;
pub mod provider;
pub mod scope;
pub mod storage;
pub mod typed;

pub use container::Container;
pub use container::BatchBuilder;
pub use container::HotCache;
pub use container::ScopePool;
pub use container::ScopeRef;
pub use error::DiError;
pub use factory::AnyFactory;
pub use factory::Factory;
pub use factory::LazyFactory;
pub use factory::SingletonFactory;
pub use factory::TransientFactory;
pub use logging::LogFormat;
pub use logging::LogLevel;
pub use logging::LoggingBuilder;
pub use provider::Injectable;
pub use provider::Lifetime;
pub use provider::Provider;
pub use provider::ProviderRegistration;
pub use scope::Scope;
pub use scope::ScopeIdSource;
pub use scope::ScopedContainer;
pub use storage::FrozenStorage;
pub use storage::ServiceStorage;

use vstd::prelude::*;

verus! {

/// A stable identifier distinguishing one registered service type from
/// another. Keys are compared only for equality: no two distinct service
/// types share a key, and the same type always maps to the same key.
#[derive(Clone, Copy, PartialEq, Eq, Hash, Debug, Structural)]
pub struct ServiceKey {
    pub id: u64,
}

impl ServiceKey {
    /// Build a key from its raw identifier.
    pub fn new(id: u64) -> (k: ServiceKey)
        ensures
            k.id == id,
    {
        ServiceKey { id }
    }
}

/// Ghost view of a shared service handle: its identity token and the bytes
/// it was produced from.
#[verifier::ext_equal]
pub struct HandleModel {
    pub token: u64,
    pub payload: Seq<u8>,
}

/// A shared, type-erased service value: a stable identity token plus the
/// payload bytes the value was built from.
///
/// This stands for the reference-counted "any" handle that resolution hands
/// out. Two handles with the same token denote the same underlying instance,
/// so identity questions ("did both calls return the same object?") are
/// questions about tokens.
#[derive(Clone, Debug)]
pub struct ServiceHandle {
    pub token: u64,
    pub payload: Vec<u8>,
}

impl View for ServiceHandle {
    type V = HandleModel;

    open spec fn view(&self) -> HandleModel {
        HandleModel { token: self.token, payload: self.payload@ }
    }
}

impl ServiceHandle {
    /// Build a handle with the given identity and payload.
    pub fn new(token: u64, payload: Vec<u8>) -> (h: ServiceHandle)
        ensures
            h@ == (HandleModel { token, payload: payload@ }),
    {
        ServiceHandle { token, payload }
    }

    /// A second handle to the same instance: same identity, same bytes.
    pub fn duplicate(&self) -> (h: ServiceHandle)
        ensures
            h@ == self@,
    {
        let p = self.payload.clone();
        proof {
            assert forall|i: int| 0 <= i < p@.len() implies p@[i] == self.payload@[i] by {
                assert(cloned::<u8>(self.payload[i], p[i]));
            }
            assert(p@ =~= self.payload@);
        }
        ServiceHandle { token: self.token, payload: p }
    }

    /// True when both handles denote the same underlying instance.
    pub fn same_instance(&self, other: &ServiceHandle) -> (b: bool)
        ensures
            b == (self@.token == other@.token),
    {
        self.token == other.token
    }
}

} // verus!
