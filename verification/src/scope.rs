//! Scope identities and the scoped-container handle.
//!
//! A `Scope` is a unique identifier for one request-like unit of work; a
//! `ScopeIdSource` mints them in strictly increasing order, so no two draws
//! collide. A `ScopedContainer` pairs such an identity with the registry
//! node it works against.

use crate::container::{Container, ScopeRef};
use crate::error::DiError;
use crate::factory::FactoryModel;
use crate::{ServiceHandle, ServiceKey};
use vstd::prelude::*;

verus! {

/// Unique scope identifier, used for tracking and debugging.
#[derive(Debug, Clone, Copy, PartialEq, Eq, Hash, Structural)]
pub struct Scope(pub u64);

impl Scope {
    /// A scope identity with the given raw id.
    pub fn new(id: u64) -> (s: Scope)
        ensures
            s.0 == id,
    {
        Scope(id)
    }

    /// The raw id value.
    pub fn id(&self) -> (r: u64)
        ensures
            r == self.0,
    {
        self.0
    }

    /// The identity rendered as text, `scope-` followed by the decimal id.
    pub fn to_display_string(&self) -> (r: String)
        ensures
            r@ == "scope-"@ + dec_seq(self.0 as int),
    {
        let mut out = String::from_str("scope-");
        push_dec(self.0, &mut out);
        out
    }
}

/// The decimal digit character for one digit value.
pub open spec fn dec_digit(d: int) -> char {
    if d == 0 {
        '0'
    } else if d == 1 {
        '1'
    } else if d == 2 {
        '2'
    } else if d == 3 {
        '3'
    } else if d == 4 {
        '4'
    } else if d == 5 {
        '5'
    } else if d == 6 {
        '6'
    } else if d == 7 {
        '7'
    } else if d == 8 {
        '8'
    } else {
        '9'
    }
}

/// The decimal rendering of a number, most significant digit first.
pub open spec fn dec_seq(n: int) -> Seq<char>
    decreases n,
{
    if n < 10 {
        seq![dec_digit(n)]
    } else {
        dec_seq(n / 10).push(dec_digit(n % 10))
    }
}

/// Append the decimal rendering of `n` to the string.
fn push_dec(n: u64, out: &mut String)
    ensures
        final(out)@ == old(out)@ + dec_seq(n as int),
    decreases n,
{
    let ghost mid = out@;
    if n >= 10 {
        push_dec(n / 10, out);
        proof {
            assert(out@ == mid + dec_seq(n as int / 10));
        }
    }
    let d = n % 10;
    let digit: &str = if d == 0 {
        "0"
    } else if d == 1 {
        "1"
    } else if d == 2 {
        "2"
    } else if d == 3 {
        "3"
    } else if d == 4 {
        "4"
    } else if d == 5 {
        "5"
    } else if d == 6 {
        "6"
    } else if d == 7 {
        "7"
    } else if d == 8 {
        "8"
    } else {
        "9"
    };
    proof {
        reveal_strlit("0");
        reveal_strlit("1");
        reveal_strlit("2");
        reveal_strlit("3");
        reveal_strlit("4");
        reveal_strlit("5");
        reveal_strlit("6");
        reveal_strlit("7");
        reveal_strlit("8");
        reveal_strlit("9");
        assert(digit@ =~= seq![dec_digit(d as int)]);
    }
    out.append(digit);
    proof {
        if n < 10 {
            assert(out@ =~= mid + dec_seq(n as int));
        } else {
            assert(out@ =~= mid + dec_seq(n as int));
        }
    }
}

/// A mint for scope identities: each draw returns a fresh, never-repeated
/// id, strictly larger than every id drawn before.
pub struct ScopeIdSource {
    next: u64,
}

impl ScopeIdSource {
    /// The id the next draw will return.
    pub closed spec fn next_id(self) -> u64 {
        self.next
    }

    /// A new mint, starting at 1.
    pub fn new() -> (g: ScopeIdSource)
        ensures
            g.next_id() == 1,
    {
        ScopeIdSource { next: 1 }
    }

    /// What one draw does: it returns the mint's current id and advances it.
    pub open spec fn fresh_post(pre: ScopeIdSource, post: ScopeIdSource, s: Scope) -> bool {
        &&& s.0 == pre.next_id()
        &&& post.next_id() == pre.next_id() + 1
    }

    /// Draw a fresh scope identity.
    pub fn fresh(&mut self) -> (s: Scope)
        requires
            old(self).next_id() < u64::MAX,
        ensures
            Self::fresh_post(*old(self), *final(self), s),
    {
        let s = Scope(self.next);
        self.next = self.next + 1;
        s
    }
}

/// Identities drawn from one mint never repeat: any two successive draws
/// return distinct ids, the later one strictly larger.
pub proof fn lemma_fresh_ids_distinct(
    g0: ScopeIdSource,
    g1: ScopeIdSource,
    g2: ScopeIdSource,
    s1: Scope,
    s2: Scope,
)
    requires
        ScopeIdSource::fresh_post(g0, g1, s1),
        ScopeIdSource::fresh_post(g1, g2, s2),
    ensures
        s1.0 != s2.0,
        s1.0 < s2.0,
{
}

/// A container scope paired with a unique scope identity: the unit of
/// registration visibility for request- or session-scoped services.
pub struct ScopedContainer {
    scope: Scope,
    handle: ScopeRef,
}

impl ScopedContainer {
    /// The registry node this scoped container works against.
    pub closed spec fn handle_spec(self) -> ScopeRef {
        self.handle
    }

    /// The scope identity.
    pub closed spec fn scope_spec(self) -> Scope {
        self.scope
    }

    /// A scoped container over a child scope of the given parent node.
    pub fn from_parent(c: &mut Container, parent: ScopeRef, scope: Scope) -> (r: ScopedContainer)
        requires
            old(c).wf(),
            old(c).valid_ref(parent),
            old(c).node_count() < usize::MAX,
            old(c).depth_at(parent.idx as int) < u64::MAX,
        ensures
            final(c).wf(),
            final(c).valid_ref(r.handle_spec()),
            r.scope_spec() == scope,
            Container::scope_post(*old(c), *final(c), parent.idx as int, r.handle_spec()),
    {
        let handle = c.scope(parent);
        ScopedContainer { scope, handle }
    }

    /// A scoped container over a child scope of another scoped container.
    pub fn from_scope(c: &mut Container, parent: &ScopedContainer, scope: Scope) -> (r:
        ScopedContainer)
        requires
            old(c).wf(),
            old(c).valid_ref(parent.handle_spec()),
            old(c).node_count() < usize::MAX,
            old(c).depth_at(parent.handle_spec().idx as int) < u64::MAX,
        ensures
            final(c).wf(),
            final(c).valid_ref(r.handle_spec()),
            r.scope_spec() == scope,
            Container::scope_post(
                *old(c),
                *final(c),
                parent.handle_spec().idx as int,
                r.handle_spec(),
            ),
    {
        let handle = c.scope(parent.handle);
        ScopedContainer { scope, handle }
    }

    /// The scope identity.
    pub fn scope(&self) -> (s: Scope)
        ensures
            s == self.scope_spec(),
    {
        self.scope
    }

    /// The registry node handle.
    pub fn container(&self) -> (h: ScopeRef)
        ensures
            h == self.handle_spec(),
    {
        self.handle
    }

    /// Register an eager singleton in this scope.
    pub fn singleton(&self, c: &mut Container, key: ServiceKey, instance: ServiceHandle)
        requires
            old(c).wf(),
            old(c).valid_ref(self.handle_spec()),
            !old(c).locked_at(self.handle_spec().idx as int),
        ensures
            final(c).wf(),
            Container::register_post(
                *old(c),
                *final(c),
                self.handle_spec().idx as int,
                key.id,
                FactoryModel::Singleton { instance: instance@ },
            ),
    {
        c.singleton(self.handle, key, instance);
    }

    /// Register a lazy singleton in this scope.
    pub fn lazy(&self, c: &mut Container, key: ServiceKey, recipe: Vec<u8>)
        requires
            old(c).wf(),
            old(c).valid_ref(self.handle_spec()),
            !old(c).locked_at(self.handle_spec().idx as int),
        ensures
            final(c).wf(),
            Container::register_post(
                *old(c),
                *final(c),
                self.handle_spec().idx as int,
                key.id,
                FactoryModel::Lazy { recipe: recipe@, created: None },
            ),
    {
        c.lazy(self.handle, key, recipe);
    }

    /// Register a transient service in this scope.
    pub fn transient(&self, c: &mut Container, key: ServiceKey, payload: Vec<u8>)
        requires
            old(c).wf(),
            old(c).valid_ref(self.handle_spec()),
            !old(c).locked_at(self.handle_spec().idx as int),
        ensures
            final(c).wf(),
            Container::register_post(
                *old(c),
                *final(c),
                self.handle_spec().idx as int,
                key.id,
                FactoryModel::Transient { payload: payload@ },
            ),
    {
        c.transient(self.handle, key, payload);
    }

    /// Resolve a service from this scope or its ancestors.
    pub fn get(&self, c: &mut Container, key: ServiceKey) -> (r: Result<ServiceHandle, DiError>)
        requires
            old(c).wf(),
            old(c).valid_ref(self.handle_spec()),
            old(c).fresh_token() < u64::MAX,
        ensures
            final(c).wf(),
            Container::get_post(*old(c), *final(c), self.handle_spec().idx as int, key.id, r),
    {
        c.get(self.handle, key)
    }

    /// Resolve a service, turning a miss into absence.
    pub fn try_get(&self, c: &mut Container, key: ServiceKey) -> (r: Option<ServiceHandle>)
        requires
            old(c).wf(),
            old(c).valid_ref(self.handle_spec()),
            old(c).fresh_token() < u64::MAX,
        ensures
            final(c).wf(),
            Container::get_post(
                *old(c),
                *final(c),
                self.handle_spec().idx as int,
                key.id,
                match r {
                    Some(h) => Result::<ServiceHandle, DiError>::Ok(h),
                    None => Result::<ServiceHandle, DiError>::Err(DiError::NotFound { key }),
                },
            ),
    {
        c.try_get(self.handle, key)
    }

    /// Whether the key is registered in this scope or any ancestor.
    pub fn contains(&self, c: &Container, key: ServiceKey) -> (r: bool)
        requires
            c.wf(),
            c.valid_ref(self.handle_spec()),
        ensures
            r == c.chain_has(self.handle_spec().idx as int, key.id),
    {
        c.contains(self.handle, key)
    }

    /// The scope's depth in the registry tree.
    pub fn depth(&self, c: &Container) -> (r: u64)
        requires
            c.wf(),
            c.valid_ref(self.handle_spec()),
        ensures
            r == c.depth_at(self.handle_spec().idx as int),
    {
        c.depth(self.handle)
    }
}

} // verus!
