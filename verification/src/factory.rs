//! Factory entries: the stored rule for producing a value of a given key.
//!
//! An entry is one of three kinds. A `Singleton` holds one eagerly created
//! instance shared by every resolution. A `Lazy` entry holds a recipe and a
//! one-shot product cell: the cell is written at most once, and every
//! resolution after that returns the single published product. A `Transient`
//! entry produces a fresh instance, with a fresh identity token, on every
//! resolution.

use crate::{HandleModel, ServiceHandle};
use vstd::prelude::*;

verus! {

/// Ghost model of a stored factory entry.
#[verifier::ext_equal]
pub enum FactoryModel {
    /// One eagerly created instance shared by every resolution.
    Singleton { instance: HandleModel },
    /// A recipe evaluated at most once; `created` holds the single product.
    Lazy { recipe: Seq<u8>, created: Option<HandleModel> },
    /// A recipe evaluated anew, with a fresh token, on every resolution.
    Transient { payload: Seq<u8> },
}

impl FactoryModel {
    /// True exactly for the `Transient` variant.
    pub open spec fn is_transient(self) -> bool {
        self matches FactoryModel::Transient { .. }
    }

    /// Whether resolving this entry consumes the offered fresh token:
    /// true when a new instance identity is minted.
    pub open spec fn consumes_token(self) -> bool {
        match self {
            FactoryModel::Singleton { .. } => false,
            FactoryModel::Lazy { created, .. } => created is None,
            FactoryModel::Transient { .. } => true,
        }
    }

    /// The handle a resolution of this entry returns, given the fresh token
    /// `token` to mint a new identity from where one is needed.
    pub open spec fn resolve_value(self, token: u64) -> HandleModel {
        match self {
            FactoryModel::Singleton { instance } => instance,
            FactoryModel::Lazy { recipe, created } => match created {
                Some(c) => c,
                None => HandleModel { token, payload: recipe },
            },
            FactoryModel::Transient { payload } => HandleModel { token, payload },
        }
    }

    /// The entry after one resolution: only an uncreated lazy entry changes,
    /// by publishing its product; every other entry is left as it was.
    pub open spec fn resolve_after(self, token: u64) -> FactoryModel {
        match self {
            FactoryModel::Lazy { recipe, created: None } => FactoryModel::Lazy {
                recipe,
                created: Some(HandleModel { token, payload: recipe }),
            },
            _ => self,
        }
    }
}

/// A lazy entry's product cell is written at most once: resolving an entry
/// whose product already exists returns that product and changes nothing,
/// whatever token is offered.
pub proof fn lemma_lazy_created_stable(fm: FactoryModel, t: u64)
    requires
        fm matches FactoryModel::Lazy { created: Some(_), .. },
    ensures
        fm.resolve_after(t) == fm,
        forall|t2: u64| fm.resolve_value(t2) == fm.resolve_value(t),
{
}

/// Exactly-once creation, stated over any two successive resolutions of one
/// lazy entry: the second resolution returns the value the first one
/// published, and leaves the entry unchanged, whatever tokens are offered.
pub proof fn lemma_lazy_exactly_once(fm: FactoryModel, t1: u64, t2: u64)
    requires
        fm matches FactoryModel::Lazy { .. },
    ensures
        fm.resolve_after(t1).resolve_value(t2) == fm.resolve_value(t1),
        fm.resolve_after(t1).resolve_after(t2) == fm.resolve_after(t1),
{
}

/// A factory that produces service instances.
pub trait Factory {
    /// True when this factory produces a new instance on each resolution.
    fn is_transient(&self) -> bool;
}

/// Eager singleton factory: stores the single pre-created instance.
#[derive(Clone, Debug)]
pub struct SingletonFactory {
    pub instance: ServiceHandle,
}

impl View for SingletonFactory {
    type V = FactoryModel;

    open spec fn view(&self) -> FactoryModel {
        FactoryModel::Singleton { instance: self.instance@ }
    }
}

impl SingletonFactory {
    /// Create from an existing instance.
    pub fn new(instance: ServiceHandle) -> (f: SingletonFactory)
        ensures
            f@ == (FactoryModel::Singleton { instance: instance@ }),
    {
        SingletonFactory { instance }
    }

    /// Create from an already shared handle.
    pub fn from_arc(instance: ServiceHandle) -> (f: SingletonFactory)
        ensures
            f@ == (FactoryModel::Singleton { instance: instance@ }),
    {
        SingletonFactory { instance }
    }

    /// Resolve the instance: always the same identity, whatever came before.
    pub fn resolve(&self) -> (h: ServiceHandle)
        ensures
            h@ == self.instance@,
    {
        self.instance.duplicate()
    }
}

impl Factory for SingletonFactory {
    fn is_transient(&self) -> bool {
        false
    }
}

/// Lazy singleton factory: holds the recipe and the one-shot product cell.
#[derive(Clone, Debug)]
pub struct LazyFactory {
    pub recipe: Vec<u8>,
    pub created: Option<ServiceHandle>,
}

impl View for LazyFactory {
    type V = FactoryModel;

    open spec fn view(&self) -> FactoryModel {
        FactoryModel::Lazy {
            recipe: self.recipe@,
            created: match self.created {
                Some(c) => Some(c@),
                None => None,
            },
        }
    }
}

impl LazyFactory {
    /// A fresh lazy factory whose product cell is still empty.
    pub fn new(recipe: Vec<u8>) -> (f: LazyFactory)
        ensures
            f@ == (FactoryModel::Lazy { recipe: recipe@, created: None }),
    {
        LazyFactory { recipe, created: None }
    }

    /// Resolve: publish the product on first use, return the single product
    /// ever after. `token` is the fresh identity used if this call creates.
    pub fn resolve(&mut self, token: u64) -> (h: ServiceHandle)
        ensures
            h@ == old(self)@.resolve_value(token),
            final(self)@ == old(self)@.resolve_after(token),
    {
        if let Some(c) = &self.created {
            return c.duplicate();
        }
        let h = ServiceHandle::new(token, clone_bytes(&self.recipe));
        self.created = Some(h.duplicate());
        h
    }
}

impl Factory for LazyFactory {
    fn is_transient(&self) -> bool {
        false
    }
}

/// Transient factory: produces a fresh instance on every resolution.
#[derive(Clone, Debug)]
pub struct TransientFactory {
    pub payload: Vec<u8>,
}

impl View for TransientFactory {
    type V = FactoryModel;

    open spec fn view(&self) -> FactoryModel {
        FactoryModel::Transient { payload: self.payload@ }
    }
}

impl TransientFactory {
    /// A transient factory producing instances from the given payload.
    pub fn new(payload: Vec<u8>) -> (f: TransientFactory)
        ensures
            f@ == (FactoryModel::Transient { payload: payload@ }),
    {
        TransientFactory { payload }
    }

    /// Create a new instance under the given fresh identity token.
    pub fn create(&self, token: u64) -> (h: ServiceHandle)
        ensures
            h@ == (HandleModel { token, payload: self.payload@ }),
    {
        ServiceHandle::new(token, clone_bytes(&self.payload))
    }
}

impl Factory for TransientFactory {
    fn is_transient(&self) -> bool {
        true
    }
}

/// Type-erased factory entry, the value a registry stores under one key.
#[derive(Clone, Debug)]
pub enum AnyFactory {
    /// Eager singleton: instance already created.
    Singleton(SingletonFactory),
    /// Lazy singleton: created on first access.
    Lazy(LazyFactory),
    /// Transient: new instance each time.
    Transient(TransientFactory),
}

impl View for AnyFactory {
    type V = FactoryModel;

    open spec fn view(&self) -> FactoryModel {
        match self {
            AnyFactory::Singleton(f) => f@,
            AnyFactory::Lazy(f) => f@,
            AnyFactory::Transient(f) => f@,
        }
    }
}

impl AnyFactory {
    /// A singleton entry holding the given instance.
    pub fn singleton(instance: ServiceHandle) -> (f: AnyFactory)
        ensures
            f@ == (FactoryModel::Singleton { instance: instance@ }),
    {
        AnyFactory::Singleton(SingletonFactory::new(instance))
    }

    /// A lazy entry holding the given recipe, not yet created.
    pub fn lazy(recipe: Vec<u8>) -> (f: AnyFactory)
        ensures
            f@ == (FactoryModel::Lazy { recipe: recipe@, created: None }),
    {
        AnyFactory::Lazy(LazyFactory::new(recipe))
    }

    /// A transient entry producing instances from the given payload.
    pub fn transient(payload: Vec<u8>) -> (f: AnyFactory)
        ensures
            f@ == (FactoryModel::Transient { payload: payload@ }),
    {
        AnyFactory::Transient(TransientFactory::new(payload))
    }

    /// True when this entry produces a new instance on each resolution.
    pub fn is_transient(&self) -> (r: bool)
        ensures
            r == self@.is_transient(),
    {
        matches!(self, AnyFactory::Transient(_))
    }

    /// True when the entry is a lazy one whose product cell is still empty.
    pub fn is_uncreated_lazy(&self) -> (r: bool)
        ensures
            r == (self@ matches FactoryModel::Lazy { created: None, .. }),
    {
        match self {
            AnyFactory::Lazy(f) => f.created.is_none(),
            _ => false,
        }
    }

    /// True when resolving this entry would consume a fresh identity token.
    pub fn consumes_token(&self) -> (r: bool)
        ensures
            r == self@.consumes_token(),
    {
        match self {
            AnyFactory::Singleton(_) => false,
            AnyFactory::Lazy(f) => f.created.is_none(),
            AnyFactory::Transient(_) => true,
        }
    }

    /// Produce the handle this entry's lifecycle rule dictates, without
    /// changing the entry: an uncreated lazy entry's product is built from
    /// the recipe but not published.
    pub fn produce(&self, token: u64) -> (h: ServiceHandle)
        ensures
            h@ == self@.resolve_value(token),
    {
        match self {
            AnyFactory::Singleton(f) => f.resolve(),
            AnyFactory::Lazy(f) => match &f.created {
                Some(c) => c.duplicate(),
                None => ServiceHandle::new(token, clone_bytes(&f.recipe)),
            },
            AnyFactory::Transient(f) => f.create(token),
        }
    }

    /// Resolve the entry, producing the handle this entry's lifecycle rule
    /// dictates, together with the entry as it stands after the resolution.
    pub fn resolve(self, token: u64) -> (r: (AnyFactory, ServiceHandle))
        ensures
            r.1@ == self@.resolve_value(token),
            r.0@ == self@.resolve_after(token),
    {
        match self {
            AnyFactory::Singleton(f) => {
                let h = f.resolve();
                (AnyFactory::Singleton(f), h)
            },
            AnyFactory::Lazy(mut f) => {
                let h = f.resolve(token);
                (AnyFactory::Lazy(f), h)
            },
            AnyFactory::Transient(f) => {
                let h = f.create(token);
                (AnyFactory::Transient(f), h)
            },
        }
    }
}

impl Factory for AnyFactory {
    fn is_transient(&self) -> bool {
        matches!(self, AnyFactory::Transient(_))
    }
}

/// Copy a payload byte for byte.
pub fn clone_bytes(v: &Vec<u8>) -> (r: Vec<u8>)
    ensures
        r@ == v@,
{
    let r = v.clone();
    proof {
        assert forall|i: int| 0 <= i < r@.len() implies r@[i] == v@[i] by {
            assert(cloned::<u8>(v[i], r[i]));
        }
        assert(r@ =~= v@);
    }
    r
}

} // verus!
