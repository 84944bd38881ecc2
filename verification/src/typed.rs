//! Type-level registration tracking: the marker types and traits a
//! compile-time-checked builder uses to record, in a type parameter, which
//! services have been registered.

use crate::provider::Injectable;
use vstd::prelude::*;

verus! {

/// Marker for a registered type in a builder's type-level registry: `T` was
/// registered, and `Rest` lists what was registered before it.
pub struct Reg<T, Rest> {
    t: core::marker::PhantomData<T>,
    rest: core::marker::PhantomData<Rest>,
}

/// A type-level registry that records a registration of `T`.
pub trait HasType<T: Injectable> {

}

impl<T: Injectable, Rest> HasType<T> for Reg<T, Rest> {

}

/// Alias for `HasType`.
pub trait Has<T: Injectable>: HasType<T> {

}

impl<T: Injectable, R: HasType<T>> Has<T> for R {

}

/// Alias for `HasType`.
pub trait HasService<T: Injectable>: HasType<T> {

}

impl<T: Injectable, R: HasType<T>> HasService<T> for R {

}

/// A service that declares its dependencies, for documentation and runtime
/// checks.
pub trait DeclaresDeps: Injectable {

}

/// A registry whose recorded registrations cover the dependency list `D`.
pub trait VerifyDeps<D> {

}

impl<R, D> VerifyDeps<D> for R {

}

/// Alias for `VerifyDeps`.
pub trait DepsPresent<D> {

}

impl<R, D> DepsPresent<D> for R {

}

/// A dependency list that can name its members.
pub trait DependencyInfo {
    /// The names of all dependencies.
    fn dependency_names() -> Vec<&'static str>;
}

} // verus!
