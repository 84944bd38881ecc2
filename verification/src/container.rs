//! The container: a tree of registry nodes with scope inheritance.
//!
//! A `Container` owns an arena of registry nodes. Each node holds its own
//! entries, a lock flag, a depth, and a link to its parent node; children are
//! always created after their parents, so every parent link points strictly
//! downwards in the arena and chain walks terminate. A `ScopeRef` is a cheap
//! handle naming one node.
//!
//! Resolution walks the chain nearest-first: a node's own entry always
//! shadows any ancestor's. A small direct-mapped hot cache short-circuits
//! repeated lookups of non-transient services; this crate keeps the cache
//! coherent by invalidating it whenever a node's entries change, a deliberate
//! trade-off that buys an exact resolution contract for a cheap clear of four
//! slots.

use crate::error::DiError;
use crate::factory::{AnyFactory, FactoryModel};
use crate::storage::{empty_entries, ServiceStorage};
use crate::{ServiceHandle, ServiceKey};
use vstd::pervasive::VecAdditionalExecFns;
use vstd::prelude::*;

verus! {

/// A handle naming one registry node of a container.
#[derive(Clone, Copy, PartialEq, Eq, Debug, Structural)]
pub struct ScopeRef {
    pub idx: usize,
}

/// One arena node: its storage, lock flag and depth.
struct ScopeNode {
    storage: ServiceStorage,
    locked: bool,
    depth: u64,
}

/// Number of slots in the per-worker hot cache (a power of two, so a slot
/// index is a simple mask).
pub const HOT_CACHE_SLOTS: usize = 4;

/// A cached resolution: the key it answers, the node it answers for, and the
/// handle it answers with.
pub struct CacheEntry {
    /// The raw service key this entry answers.
    pub type_hash: u64,
    /// The arena position of the node the lookup started from.
    pub storage_ptr: usize,
    /// The cached service handle.
    pub service: ServiceHandle,
}

/// A small direct-mapped cache that short-circuits registry lookups for
/// non-transient services. It is an accelerator, never a source of truth:
/// absence only costs a registry walk.
pub struct HotCache {
    entries: Vec<Option<CacheEntry>>,
}

impl HotCache {
    /// The cache's slots.
    pub closed spec fn slots(self) -> Seq<Option<CacheEntry>> {
        self.entries@
    }

    /// A cache always has exactly `HOT_CACHE_SLOTS` slots.
    pub closed spec fn wf(self) -> bool {
        self.entries@.len() == HOT_CACHE_SLOTS
    }

    /// An empty cache.
    pub fn new() -> (c: HotCache)
        ensures
            c.wf(),
            forall|j: int| 0 <= j < c.slots().len() ==> c.slots()[j] is None,
    {
        let mut entries: Vec<Option<CacheEntry>> = Vec::new();
        entries.push(None);
        entries.push(None);
        entries.push(None);
        entries.push(None);
        HotCache { entries }
    }

    /// The slot a (key, node) pair maps to, as contracts see it: mix the
    /// two identities and mask down to the slot count.
    pub open spec fn spec_slot_for_hash(type_hash: u64, storage_ptr: usize) -> u64 {
        let p = storage_ptr as u64;
        let rotated = (p << 32) | (p >> 32);
        let mixed = type_hash ^ rotated;
        vstd::wrapping::u64_specs::wrapping_mul(mixed, 0x9e3779b97f4a7c15u64) & 3u64
    }

    /// The slot a (key, node) pair maps to: mix the two identities and mask
    /// down to the slot count.
    pub fn slot_for_hash(type_hash: u64, storage_ptr: usize) -> (r: usize)
        ensures
            r < HOT_CACHE_SLOTS,
            r == Self::spec_slot_for_hash(type_hash, storage_ptr),
    {
        let p = storage_ptr as u64;
        let rotated: u64 = (p << 32u64) | (p >> 32u64);
        let mixed: u64 = type_hash ^ rotated;
        let spread: u64 = mixed.wrapping_mul(0x9e3779b97f4a7c15u64);
        let slot: u64 = spread & 3u64;
        proof {
            assert(spread & 3u64 < 4u64) by (bit_vector);
        }
        slot as usize
    }

    /// Look up the cached handle for a (key, node) pair. A hit hands back a
    /// duplicate of a stored entry that matches both identities.
    pub fn get(&self, type_hash: u64, storage_ptr: usize) -> (r: Option<ServiceHandle>)
        requires
            self.wf(),
        ensures
            match r {
                Some(h) => exists|j: int|
                    0 <= j < self.slots().len() && ((#[trigger] self.slots()[j]) matches Some(e)
                        && e.type_hash == type_hash && e.storage_ptr == storage_ptr && h@
                        == e.service@),
                None => true,
            },
            (self.slots()[Self::spec_slot_for_hash(type_hash, storage_ptr) as int] matches Some(e)
                && e.type_hash == type_hash && e.storage_ptr == storage_ptr) ==> r is Some,
    {
        let slot = Self::slot_for_hash(type_hash, storage_ptr);
        match &self.entries[slot] {
            Some(e) => {
                if e.type_hash == type_hash && e.storage_ptr == storage_ptr {
                    let h = e.service.duplicate();
                    proof {
                        assert((self.slots()[slot as int] matches Some(e2) && e2.type_hash
                            == type_hash && e2.storage_ptr == storage_ptr && h@ == e2.service@));
                    }
                    Some(h)
                } else {
                    None
                }
            },
            None => None,
        }
    }

    /// Insert a resolution, unconditionally overwriting the computed slot.
    /// Every slot afterwards holds either what it held before or the new
    /// entry.
    pub fn insert(&mut self, type_hash: u64, storage_ptr: usize, service: ServiceHandle)
        requires
            old(self).wf(),
        ensures
            final(self).wf(),
            forall|j: int|
                0 <= j < final(self).slots().len() ==> (#[trigger] final(self).slots()[j] == old(
                    self,
                ).slots()[j] || (final(self).slots()[j] matches Some(e) && e.type_hash == type_hash
                    && e.storage_ptr == storage_ptr && e.service@ == service@)),
            final(self).slots()[Self::spec_slot_for_hash(type_hash, storage_ptr) as int] matches Some(
                e,
            ) && e.type_hash == type_hash && e.storage_ptr == storage_ptr && e.service@ == service@,
    {
        let slot = Self::slot_for_hash(type_hash, storage_ptr);
        self.entries.set(slot, Some(CacheEntry { type_hash, storage_ptr, service }));
    }

    /// Drop every cached resolution.
    pub fn clear(&mut self)
        ensures
            final(self).wf(),
            forall|j: int| 0 <= j < final(self).slots().len() ==> final(self).slots()[j] is None,
    {
        let mut entries: Vec<Option<CacheEntry>> = Vec::new();
        entries.push(None);
        entries.push(None);
        entries.push(None);
        entries.push(None);
        self.entries = entries;
    }
}

/// Chain lookup over the ghost model: starting at node `i`, return the
/// position and entry of the nearest node on the parent chain whose entries
/// contain `k`. Parent links point strictly downwards, which bounds the walk.
pub open spec fn chain_find_m(
    entries: Seq<Map<u64, FactoryModel>>,
    parents: Seq<Option<usize>>,
    i: int,
    k: u64,
) -> Option<(int, FactoryModel)>
    decreases i,
{
    if i < 0 || i >= entries.len() || entries.len() != parents.len() {
        None
    } else if entries[i].dom().contains(k) {
        Some((i, entries[i][k]))
    } else {
        match parents[i] {
            Some(p) => if (p as int) < i {
                chain_find_m(entries, parents, p as int, k)
            } else {
                None
            },
            None => None,
        }
    }
}

/// Whatever chain lookup finds lies on the chain at or below the start, and
/// is exactly that node's own entry for the key.
pub proof fn lemma_chain_find_m_found(
    entries: Seq<Map<u64, FactoryModel>>,
    parents: Seq<Option<usize>>,
    i: int,
    k: u64,
)
    ensures
        chain_find_m(entries, parents, i, k) matches Some(q) ==> 0 <= q.0 <= i && q.0
            < entries.len() && entries[q.0].dom().contains(k) && q.1 == entries[q.0][k],
    decreases i,
{
    if 0 <= i < entries.len() && entries.len() == parents.len() && !entries[i].dom().contains(k) {
        match parents[i] {
            Some(p) => {
                if (p as int) < i {
                    lemma_chain_find_m_found(entries, parents, p as int, k);
                }
            },
            None => {},
        }
    }
}

/// Chain lookup reads only the nodes at or below its start: two models that
/// agree pointwise up to the start agree on the lookup.
pub proof fn lemma_chain_find_m_prefix(
    e1: Seq<Map<u64, FactoryModel>>,
    p1: Seq<Option<usize>>,
    e2: Seq<Map<u64, FactoryModel>>,
    p2: Seq<Option<usize>>,
    i: int,
    k: u64,
)
    requires
        e1.len() == p1.len(),
        e2.len() == p2.len(),
        i < e1.len(),
        i < e2.len(),
        forall|j: int| 0 <= j <= i ==> e2[j] == e1[j] && p2[j] == p1[j],
    ensures
        chain_find_m(e2, p2, i, k) == chain_find_m(e1, p1, i, k),
    decreases i,
{
    if 0 <= i {
        if !e1[i].dom().contains(k) {
            match p1[i] {
                Some(p) => {
                    if (p as int) < i {
                        lemma_chain_find_m_prefix(e1, p1, e2, p2, p as int, k);
                    }
                },
                None => {},
            }
        }
    }
}

/// Whether node `j` lies on the parent chain that starts at node `i`.
pub open spec fn on_chain_m(parents: Seq<Option<usize>>, i: int, j: int) -> bool
    decreases i,
{
    if i == j {
        true
    } else if 0 <= i < parents.len() {
        match parents[i] {
            Some(p) => (p as int) < i && on_chain_m(parents, p as int, j),
            None => false,
        }
    } else {
        false
    }
}

/// Chain lookup succeeds exactly when some node on the chain holds the key.
pub proof fn lemma_chain_has_iff(
    entries: Seq<Map<u64, FactoryModel>>,
    parents: Seq<Option<usize>>,
    i: int,
    k: u64,
)
    requires
        entries.len() == parents.len(),
    ensures
        chain_find_m(entries, parents, i, k) is Some <==> exists|j: int|
            #[trigger] on_chain_m(parents, i, j) && entries_has(entries, j, k),
    decreases i,
{
    if 0 <= i < entries.len() {
        if entries[i].dom().contains(k) {
            assert(on_chain_m(parents, i, i) && entries_has(entries, i, k));
        } else {
            match parents[i] {
                Some(p) => {
                    if (p as int) < i {
                        lemma_chain_has_iff(entries, parents, p as int, k);
                        if chain_find_m(entries, parents, p as int, k) is Some {
                            let j = choose|j: int|
                                #[trigger] on_chain_m(parents, p as int, j) && entries_has(
                                    entries,
                                    j,
                                    k,
                                );
                            assert(on_chain_m(parents, i, j));
                        } else {
                            assert forall|j: int|
                                #[trigger] on_chain_m(parents, i, j) implies !entries_has(
                                entries,
                                j,
                                k,
                            ) by {
                                if j != i {
                                    assert(on_chain_m(parents, p as int, j));
                                }
                            }
                        }
                    } else {
                        assert forall|j: int|
                            #[trigger] on_chain_m(parents, i, j) implies !entries_has(
                            entries,
                            j,
                            k,
                        ) by {}
                    }
                },
                None => {
                    assert forall|j: int|
                        #[trigger] on_chain_m(parents, i, j) implies !entries_has(entries, j, k) by {}
                },
            }
        }
    } else {
        assert forall|j: int|
            #[trigger] on_chain_m(parents, i, j) implies !entries_has(entries, j, k) by {}
    }
}

/// After overwriting the one entry the lookup found, the lookup finds the
/// overwriting entry at the same node, from the same start.
pub proof fn lemma_chain_find_m_after_update(
    e1: Seq<Map<u64, FactoryModel>>,
    parents: Seq<Option<usize>>,
    e2: Seq<Map<u64, FactoryModel>>,
    i: int,
    at: int,
    k: u64,
    fm2: FactoryModel,
)
    requires
        e1.len() == parents.len(),
        e2.len() == e1.len(),
        chain_find_m(e1, parents, i, k) matches Some(q) && q.0 == at,
        forall|j: int| 0 <= j < e1.len() && j != at ==> e2[j] == e1[j],
        0 <= at < e1.len(),
        e2[at] == e1[at].insert(k, fm2),
    ensures
        chain_find_m(e2, parents, i, k) == Some((at, fm2)),
    decreases i,
{
    lemma_chain_find_m_found(e1, parents, i, k);
    if entries_has(e1, i, k) {
        // found locally, so at == i and the updated node answers directly
        assert(e2[at].dom().contains(k));
    } else {
        // the hit lies strictly below: step to the parent on both sides
        match parents[i] {
            Some(p) => {
                if (p as int) < i {
                    assert(at != i);
                    lemma_chain_find_m_after_update(e1, parents, e2, p as int, at, k, fm2);
                    assert(!e2[i].dom().contains(k));
                }
            },
            None => {},
        }
    }
}

/// Whether node `i` itself holds an entry for `k`.
pub open spec fn entries_has(entries: Seq<Map<u64, FactoryModel>>, i: int, k: u64) -> bool {
    0 <= i < entries.len() && entries[i].dom().contains(k)
}

/// A hierarchical service container: an arena of registry nodes, the mint
/// for fresh instance identities, and the hot cache.
pub struct Container {
    nodes: Vec<ScopeNode>,
    next_token: u64,
    cache: HotCache,
}

impl Container {
    /// How many registry nodes the container holds.
    pub closed spec fn node_count(self) -> nat {
        self.nodes@.len()
    }

    /// The entries of the node at arena position `i`.
    pub closed spec fn entries_at(self, i: int) -> Map<u64, FactoryModel> {
        self.nodes@[i].storage.contents()
    }

    /// The parent link of the node at arena position `i`.
    pub closed spec fn parent_at(self, i: int) -> Option<usize> {
        self.nodes@[i].storage.parent_link()
    }

    /// Whether the node at arena position `i` is locked.
    pub closed spec fn locked_at(self, i: int) -> bool {
        self.nodes@[i].locked
    }

    /// The depth of the node at arena position `i` (root nodes have 0).
    pub closed spec fn depth_at(self, i: int) -> u64 {
        self.nodes@[i].depth
    }

    /// The next unused instance identity token.
    pub closed spec fn fresh_token(self) -> u64 {
        self.next_token
    }

    /// All nodes' entries, by arena position.
    pub closed spec fn entries_all(self) -> Seq<Map<u64, FactoryModel>> {
        Seq::new(self.node_count(), |i: int| self.entries_at(i))
    }

    /// All nodes' parent links, by arena position.
    pub closed spec fn parents_all(self) -> Seq<Option<usize>> {
        Seq::new(self.node_count(), |i: int| self.parent_at(i))
    }

    /// Chain lookup from node `i`: the nearest entry for `k` on the parent
    /// chain, together with the arena position of the node holding it.
    pub open spec fn chain_find(self, i: int, k: u64) -> Option<(int, FactoryModel)> {
        chain_find_m(self.entries_all(), self.parents_all(), i, k)
    }

    /// Whether `k` is registered anywhere on the chain starting at node `i`.
    pub open spec fn chain_has(self, i: int, k: u64) -> bool {
        self.chain_find(i, k) is Some
    }

    /// The handle names a node of this container.
    pub open spec fn valid_ref(self, s: ScopeRef) -> bool {
        s.idx < self.node_count()
    }

    /// Structural soundness of one node: the parent link points strictly
    /// downwards, depths follow the parent links, and the entry map is
    /// finite.
    pub closed spec fn wf_node(self, i: int) -> bool {
        &&& match self.parent_at(i) {
            Some(p) => (p as int) < i && self.depth_at(i) == self.depth_at(p as int) + 1,
            None => self.depth_at(i) == 0,
        }
        &&& self.entries_at(i).dom().finite()
    }

    /// A cache entry answers exactly what chain lookup from its node would
    /// answer now, and never caches a transient entry.
    pub closed spec fn cache_entry_ok(self, e: CacheEntry) -> bool {
        match self.chain_find(e.storage_ptr as int, e.type_hash) {
            Some(q) => match q.1 {
                FactoryModel::Singleton { instance } => e.service@ == instance,
                FactoryModel::Lazy { created, .. } => created == Some(e.service@),
                FactoryModel::Transient { .. } => false,
            },
            None => false,
        }
    }

    /// Well-formedness of the whole container: every node is structurally
    /// sound and every cached resolution is coherent with the registry tree.
    pub closed spec fn wf(self) -> bool {
        &&& forall|i: int| 0 <= i < self.node_count() ==> self.wf_node(i)
        &&& self.cache.wf()
        &&& forall|j: int|
            0 <= j < self.cache.slots().len() ==> match #[trigger] self.cache.slots()[j] {
                Some(e) => e.storage_ptr < self.node_count() && self.cache_entry_ok(e),
                None => true,
            }
    }

    /// The two containers have the same tree skeleton: node count, parent
    /// links, lock flags and depths.
    pub open spec fn same_skeleton(pre: Container, post: Container) -> bool {
        &&& post.node_count() == pre.node_count()
        &&& forall|j: int| 0 <= j < pre.node_count() ==> post.parent_at(j) == pre.parent_at(j)
        &&& forall|j: int| 0 <= j < pre.node_count() ==> post.locked_at(j) == pre.locked_at(j)
        &&& forall|j: int| 0 <= j < pre.node_count() ==> post.depth_at(j) == pre.depth_at(j)
    }

    /// What registration leaves behind: the target node's entries gain the
    /// new factory under the key, and nothing else observable changes.
    pub open spec fn register_post(
        pre: Container,
        post: Container,
        s: int,
        k: u64,
        fm: FactoryModel,
    ) -> bool {
        &&& Self::same_skeleton(pre, post)
        &&& forall|j: int|
            0 <= j < pre.node_count() && j != s ==> post.entries_at(j) == pre.entries_at(j)
        &&& post.entries_at(s) == pre.entries_at(s).insert(k, fm)
        &&& post.fresh_token() == pre.fresh_token()
    }

    /// A new root container: one unlocked, empty node of depth 0.
    pub fn new() -> (c: Container)
        ensures
            c.wf(),
            c.node_count() == 1,
            c.entries_at(0) == empty_entries(),
            c.parent_at(0) is None,
            c.locked_at(0) == false,
            c.depth_at(0) == 0,
            c.fresh_token() == 1,
    {
        let mut nodes: Vec<ScopeNode> = Vec::new();
        nodes.push(ScopeNode { storage: ServiceStorage::new(), locked: false, depth: 0 });
        Container { nodes, next_token: 1, cache: HotCache::new() }
    }

    /// A new root container whose root node is sized for the given number of
    /// services.
    pub fn with_capacity(capacity: usize) -> (c: Container)
        ensures
            c.wf(),
            c.node_count() == 1,
            c.entries_at(0) == empty_entries(),
            c.parent_at(0) is None,
            c.locked_at(0) == false,
            c.depth_at(0) == 0,
            c.fresh_token() == 1,
    {
        let mut nodes: Vec<ScopeNode> = Vec::new();
        nodes.push(
            ScopeNode { storage: ServiceStorage::with_capacity(capacity), locked: false, depth: 0 },
        );
        Container { nodes, next_token: 1, cache: HotCache::new() }
    }

    /// The handle of the root node.
    pub fn root(&self) -> (s: ScopeRef)
        ensures
            s.idx == 0,
    {
        ScopeRef { idx: 0 }
    }

    /// What creating a child scope leaves behind: one new node, empty and
    /// unlocked, whose parent is the given node and whose depth is one more;
    /// everything that existed before is untouched.
    pub open spec fn scope_post(pre: Container, post: Container, parent: int, c: ScopeRef) -> bool {
        &&& c.idx == pre.node_count()
        &&& post.node_count() == pre.node_count() + 1
        &&& forall|j: int|
            0 <= j < pre.node_count() ==> post.entries_at(j) == pre.entries_at(j)
                && post.parent_at(j) == pre.parent_at(j) && post.locked_at(j) == pre.locked_at(j)
                && post.depth_at(j) == pre.depth_at(j)
        &&& post.entries_at(c.idx as int) == empty_entries()
        &&& post.parent_at(c.idx as int) == Some(parent as usize)
        &&& post.locked_at(c.idx as int) == false
        &&& post.depth_at(c.idx as int) == pre.depth_at(parent) + 1
        &&& post.fresh_token() == pre.fresh_token()
    }

    /// Create a child scope of the given node: the child sees every ancestor
    /// registration and starts with no local entries.
    pub fn scope(&mut self, parent: ScopeRef) -> (c: ScopeRef)
        requires
            old(self).wf(),
            old(self).valid_ref(parent),
            old(self).node_count() < usize::MAX,
            old(self).depth_at(parent.idx as int) < u64::MAX,
        ensures
            final(self).wf(),
            final(self).valid_ref(c),
            Self::scope_post(*old(self), *final(self), parent.idx as int, c),
    {
        let idx = self.nodes.len();
        let depth = self.nodes[parent.idx].depth;
        let storage = ServiceStorage::with_parent(parent.idx);
        self.nodes.push(ScopeNode { storage, locked: false, depth: depth + 1 });
        let c = ScopeRef { idx };
        proof {
            let pre = *old(self);
            let post = *self;
            assert forall|j: int| 0 <= j < pre.node_count() implies post.entries_at(j)
                == pre.entries_at(j) && post.parent_at(j) == pre.parent_at(j) && post.locked_at(j)
                == pre.locked_at(j) && post.depth_at(j) == pre.depth_at(j) by {
                assert(post.nodes@[j] == pre.nodes@[j]);
            }
            assert forall|j: int| 0 <= j < post.node_count() implies post.wf_node(j) by {
                if j < pre.node_count() {
                    assert(pre.wf_node(j));
                } else {
                    assert(j == idx);
                }
            }
            assert forall|j: int|
                0 <= j < post.cache.slots().len() implies match #[trigger] post.cache.slots()[j] {
                Some(e) => e.storage_ptr < post.node_count() && post.cache_entry_ok(e),
                None => true,
            } by {
                match post.cache.slots()[j] {
                    Some(e) => {
                        assert(pre.cache_entry_ok(e));
                        lemma_chain_find_m_prefix(
                            pre.entries_all(),
                            pre.parents_all(),
                            post.entries_all(),
                            post.parents_all(),
                            e.storage_ptr as int,
                            e.type_hash,
                        );
                    },
                    None => {},
                }
            }
        }
        c
    }

    /// Alias for `scope`: create a child scope.
    pub fn create_scope(&mut self, parent: ScopeRef) -> (c: ScopeRef)
        requires
            old(self).wf(),
            old(self).valid_ref(parent),
            old(self).node_count() < usize::MAX,
            old(self).depth_at(parent.idx as int) < u64::MAX,
        ensures
            final(self).wf(),
            final(self).valid_ref(c),
            Self::scope_post(*old(self), *final(self), parent.idx as int, c),
    {
        self.scope(parent)
    }

    /// Store a factory under the key at the given node, replacing any
    /// previous entry, and drop every cached resolution so lookups see the
    /// change at once.
    fn put_entry(&mut self, s: ScopeRef, key: ServiceKey, factory: AnyFactory)
        requires
            old(self).wf(),
            old(self).valid_ref(s),
        ensures
            final(self).wf(),
            final(self).valid_ref(s),
            Self::register_post(*old(self), *final(self), s.idx as int, key.id, factory@),
    {
        let ghost fm = factory@;
        self.cache.clear();
        let node = node_at_mut(&mut self.nodes, s.idx);
        node.storage.insert(key, factory);
        proof {
            let pre = *old(self);
            let post = *self;
            assert forall|j: int|
                0 <= j < pre.node_count() && j != s.idx as int implies post.entries_at(j)
                == pre.entries_at(j) by {
                assert(post.nodes@[j] == pre.nodes@[j]);
            }
            assert forall|j: int| 0 <= j < pre.node_count() implies post.parent_at(j)
                == pre.parent_at(j) && post.locked_at(j) == pre.locked_at(j) && post.depth_at(j)
                == pre.depth_at(j) by {
                if j != s.idx as int {
                    assert(post.nodes@[j] == pre.nodes@[j]);
                }
            }
            assert(post.entries_at(s.idx as int).dom() =~= pre.entries_at(s.idx as int).dom(
            ).insert(key.id));
            assert forall|j: int| 0 <= j < post.node_count() implies post.wf_node(j) by {
                assert(pre.wf_node(j));
            }
        }
    }

    /// Register an eager singleton: the instance is stored now and every
    /// resolution returns this same instance. The scope must not be locked.
    pub fn singleton(&mut self, s: ScopeRef, key: ServiceKey, instance: ServiceHandle)
        requires
            old(self).wf(),
            old(self).valid_ref(s),
            !old(self).locked_at(s.idx as int),
        ensures
            final(self).wf(),
            final(self).valid_ref(s),
            Self::register_post(
                *old(self),
                *final(self),
                s.idx as int,
                key.id,
                FactoryModel::Singleton { instance: instance@ },
            ),
    {
        self.put_entry(s, key, AnyFactory::singleton(instance));
    }

    /// Register a lazy singleton: the recipe is evaluated on first
    /// resolution, at most once, and the single product is shared ever
    /// after. The scope must not be locked.
    pub fn lazy(&mut self, s: ScopeRef, key: ServiceKey, recipe: Vec<u8>)
        requires
            old(self).wf(),
            old(self).valid_ref(s),
            !old(self).locked_at(s.idx as int),
        ensures
            final(self).wf(),
            final(self).valid_ref(s),
            Self::register_post(
                *old(self),
                *final(self),
                s.idx as int,
                key.id,
                FactoryModel::Lazy { recipe: recipe@, created: None },
            ),
    {
        self.put_entry(s, key, AnyFactory::lazy(recipe));
    }

    /// Register a transient service: every resolution produces a fresh
    /// instance with a fresh identity. The scope must not be locked.
    pub fn transient(&mut self, s: ScopeRef, key: ServiceKey, payload: Vec<u8>)
        requires
            old(self).wf(),
            old(self).valid_ref(s),
            !old(self).locked_at(s.idx as int),
        ensures
            final(self).wf(),
            final(self).valid_ref(s),
            Self::register_post(
                *old(self),
                *final(self),
                s.idx as int,
                key.id,
                FactoryModel::Transient { payload: payload@ },
            ),
    {
        self.put_entry(s, key, AnyFactory::transient(payload));
    }

    /// Register an instance (alias for `singleton`).
    pub fn register(&mut self, s: ScopeRef, key: ServiceKey, instance: ServiceHandle)
        requires
            old(self).wf(),
            old(self).valid_ref(s),
            !old(self).locked_at(s.idx as int),
        ensures
            final(self).wf(),
            final(self).valid_ref(s),
            Self::register_post(
                *old(self),
                *final(self),
                s.idx as int,
                key.id,
                FactoryModel::Singleton { instance: instance@ },
            ),
    {
        self.singleton(s, key, instance);
    }

    /// Register using a factory recipe (alias for `lazy`).
    pub fn register_factory(&mut self, s: ScopeRef, key: ServiceKey, recipe: Vec<u8>)
        requires
            old(self).wf(),
            old(self).valid_ref(s),
            !old(self).locked_at(s.idx as int),
        ensures
            final(self).wf(),
            final(self).valid_ref(s),
            Self::register_post(
                *old(self),
                *final(self),
                s.idx as int,
                key.id,
                FactoryModel::Lazy { recipe: recipe@, created: None },
            ),
    {
        self.lazy(s, key, recipe);
    }
}

impl Container {
    /// The handle of the scope's parent, if it has one.
    pub fn parent_of(&self, s: ScopeRef) -> (r: Option<ScopeRef>)
        requires
            self.wf(),
            self.valid_ref(s),
        ensures
            match r {
                Some(p) => self.parent_at(s.idx as int) == Some(p.idx) && p.idx < s.idx,
                None => self.parent_at(s.idx as int) is None,
            },
    {
        proof {
            assert(self.wf_node(s.idx as int));
        }
        match self.nodes[s.idx].storage.parent_index() {
            Some(p) => Some(ScopeRef { idx: p }),
            None => None,
        }
    }

    /// Copy out the scope's local entries, each key exactly once, in no
    /// promised order: the raw material for freezing a locked scope.
    pub fn collect_entries(&self, s: ScopeRef) -> (r: Vec<(ServiceKey, AnyFactory)>)
        requires
            self.wf(),
            self.valid_ref(s),
        ensures
            forall|a: int, b: int|
                0 <= a < b < r@.len() ==> (#[trigger] r@[a]).0.id != (#[trigger] r@[b]).0.id,
            forall|idx: int|
                0 <= idx < r@.len() ==> self.entries_at(s.idx as int).dom().contains(
                    (#[trigger] r@[idx]).0.id,
                ) && r@[idx].1@ == self.entries_at(s.idx as int)[r@[idx].0.id],
            forall|k: u64|
                #[trigger] self.entries_at(s.idx as int).dom().contains(k) ==> exists|idx: int|
                    0 <= idx < r@.len() && (#[trigger] r@[idx]).0.id == k,
    {
        let keys = self.registered_types(s);
        let node = &self.nodes[s.idx];
        let mut out: Vec<(ServiceKey, AnyFactory)> = Vec::new();
        let mut i: usize = 0;
        while i < keys.len()
            invariant
                i <= keys.len(),
                out@.len() == i,
                self.wf(),
                self.valid_ref(s),
                node == &self.nodes@[s.idx as int],
                forall|a: int, b: int|
                    0 <= a < b < keys@.len() ==> (#[trigger] keys@[a]).id != (#[trigger] keys@[b]).id,
                forall|idx: int|
                    0 <= idx < keys@.len() ==> self.entries_at(s.idx as int).dom().contains(
                        (#[trigger] keys@[idx]).id,
                    ),
                forall|idx: int| 0 <= idx < i ==> (#[trigger] out@[idx]).0 == keys@[idx],
                forall|idx: int|
                    0 <= idx < i ==> (#[trigger] out@[idx]).1@ == self.entries_at(s.idx as int)[out@[idx].0.id],
            decreases keys.len() - i,
        {
            let k = keys[i];
            let fac = node.storage.lookup(k).unwrap();
            out.push((k, fac));
            i = i + 1;
        }
        proof {
            assert forall|k: u64| #[trigger]
                self.entries_at(s.idx as int).dom().contains(k) implies exists|idx: int|
                0 <= idx < out@.len() && (#[trigger] out@[idx]).0.id == k by {
                let w = choose|w: int| 0 <= w < keys@.len() && (#[trigger] keys@[w]).id == k;
                assert(out@[w].0.id == k);
            }
        }
        out
    }
}

/// The entries of a scope after a batch of registrations is applied in
/// order: each item overwrites the key it names, later items winning.
pub open spec fn batch_applied(
    m: Map<u64, FactoryModel>,
    items: Seq<(ServiceKey, AnyFactory)>,
) -> Map<u64, FactoryModel>
    decreases items.len(),
{
    if items.len() == 0 {
        m
    } else {
        batch_applied(m.insert(items.first().0.id, items.first().1@), items.drop_first())
    }
}

/// A collected batch of registrations, applied to one scope in a single
/// operation with a single lock check.
pub struct BatchBuilder {
    items: Vec<(ServiceKey, AnyFactory)>,
}

impl BatchBuilder {
    /// The collected registrations, in the order they will be applied.
    pub closed spec fn items(self) -> Seq<(ServiceKey, AnyFactory)> {
        self.items@
    }

    /// An empty batch.
    pub fn new() -> (b: BatchBuilder)
        ensures
            b.items().len() == 0,
    {
        BatchBuilder { items: Vec::new() }
    }

    /// Add an eager singleton registration and continue the chain.
    pub fn singleton(self, key: ServiceKey, instance: ServiceHandle) -> (r: BatchBuilder)
        ensures
            r.items().len() == self.items().len() + 1,
            forall|j: int| 0 <= j < self.items().len() ==> r.items()[j] == self.items()[j],
            r.items().last().0 == key,
            r.items().last().1@ == (FactoryModel::Singleton { instance: instance@ }),
    {
        let mut items = self.items;
        items.push((key, AnyFactory::singleton(instance)));
        BatchBuilder { items }
    }

    /// Add a lazy singleton registration and continue the chain.
    pub fn lazy(self, key: ServiceKey, recipe: Vec<u8>) -> (r: BatchBuilder)
        ensures
            r.items().len() == self.items().len() + 1,
            forall|j: int| 0 <= j < self.items().len() ==> r.items()[j] == self.items()[j],
            r.items().last().0 == key,
            r.items().last().1@ == (FactoryModel::Lazy { recipe: recipe@, created: None }),
    {
        let mut items = self.items;
        items.push((key, AnyFactory::lazy(recipe)));
        BatchBuilder { items }
    }

    /// Add a transient registration and continue the chain.
    pub fn transient(self, key: ServiceKey, payload: Vec<u8>) -> (r: BatchBuilder)
        ensures
            r.items().len() == self.items().len() + 1,
            forall|j: int| 0 <= j < self.items().len() ==> r.items()[j] == self.items()[j],
            r.items().last().0 == key,
            r.items().last().1@ == (FactoryModel::Transient { payload: payload@ }),
    {
        let mut items = self.items;
        items.push((key, AnyFactory::transient(payload)));
        BatchBuilder { items }
    }

    /// Apply the batch to one scope, in order. The scope must not be
    /// locked; afterwards its entries are the old ones overwritten by the
    /// batch, and no other scope has changed.
    pub fn done(self, c: &mut Container, s: ScopeRef)
        requires
            old(c).wf(),
            old(c).valid_ref(s),
            !old(c).locked_at(s.idx as int),
        ensures
            final(c).wf(),
            Container::same_skeleton(*old(c), *final(c)),
            forall|j: int|
                0 <= j < old(c).node_count() && j != s.idx as int ==> final(c).entries_at(j) == old(
                    c,
                ).entries_at(j),
            final(c).entries_at(s.idx as int) == batch_applied(
                old(c).entries_at(s.idx as int),
                self.items(),
            ),
            final(c).fresh_token() == old(c).fresh_token(),
    {
        let ghost pre = *old(c);
        let ghost orig = self.items@;
        let mut items = self.items;
        while items.len() > 0
            invariant
                c.wf(),
                c.valid_ref(s),
                !c.locked_at(s.idx as int),
                Container::same_skeleton(pre, *c),
                forall|j: int|
                    0 <= j < pre.node_count() && j != s.idx as int ==> c.entries_at(j)
                        == pre.entries_at(j),
                batch_applied(c.entries_at(s.idx as int), items@) == batch_applied(
                    pre.entries_at(s.idx as int),
                    orig,
                ),
                c.fresh_token() == pre.fresh_token(),
            decreases items@.len(),
        {
            let ghost before = items@;
            let ghost entries_before = c.entries_at(s.idx as int);
            let (k, f) = items.remove(0);
            let ghost fm = f@;
            c.put_entry(s, k, f);
            proof {
                assert(items@ =~= before.drop_first());
                assert(c.entries_at(s.idx as int) == entries_before.insert(before.first().0.id, fm));
            }
        }
    }
}

impl Container {
    /// Start a fluent batch registration for this container's scopes.
    pub fn register_batch(&self) -> (b: BatchBuilder)
        ensures
            b.items().len() == 0,
    {
        BatchBuilder::new()
    }

    /// Register a singleton under an explicit key (alias for `singleton`,
    /// for callers that computed the key themselves).
    pub fn register_by_id(&mut self, s: ScopeRef, key: ServiceKey, instance: ServiceHandle)
        requires
            old(self).wf(),
            old(self).valid_ref(s),
            !old(self).locked_at(s.idx as int),
        ensures
            final(self).wf(),
            Self::register_post(
                *old(self),
                *final(self),
                s.idx as int,
                key.id,
                FactoryModel::Singleton { instance: instance@ },
            ),
    {
        self.singleton(s, key, instance);
    }
}

impl Default for Container {
    /// The default container is a fresh root container.
    fn default() -> (c: Container)
        ensures
            c.wf(),
            c.node_count() == 1,
            c.entries_at(0) == empty_entries(),
            c.parent_at(0) is None,
            c.locked_at(0) == false,
            c.depth_at(0) == 0,
            c.fresh_token() == 1,
    {
        Container::new()
    }
}

/// Mutable access to one arena node.
fn node_at_mut(nodes: &mut Vec<ScopeNode>, i: usize) -> (node: &mut ScopeNode)
    requires
        i < old(nodes).len(),
    ensures
        *node == old(nodes)@[i as int],
        final(nodes)@ == old(nodes)@.update(i as int, *final(node)),
{
    &mut nodes[i]
}


impl Container {
    /// The entries of every node are unchanged between the two states.
    pub open spec fn entries_unchanged(pre: Container, post: Container) -> bool {
        forall|j: int| 0 <= j < pre.node_count() ==> post.entries_at(j) == pre.entries_at(j)
    }

    /// What resolution leaves behind and returns. On a miss, the error names
    /// the key and nothing changes. On a hit at node `q.0` with entry `q.1`,
    /// the result is exactly the handle the entry's lifecycle rule produces,
    /// the found entry is replaced by its post-resolution state (only an
    /// uncreated lazy entry actually changes), and the token mint advances
    /// exactly when a new instance identity was handed out.
    pub open spec fn get_post(
        pre: Container,
        post: Container,
        s: int,
        k: u64,
        r: Result<ServiceHandle, DiError>,
    ) -> bool {
        &&& Self::same_skeleton(pre, post)
        &&& match pre.chain_find(s, k) {
            None => {
                &&& r == Result::<ServiceHandle, DiError>::Err(
                    DiError::NotFound { key: ServiceKey { id: k } },
                )
                &&& Self::entries_unchanged(pre, post)
                &&& post.fresh_token() == pre.fresh_token()
            },
            Some(q) => {
                &&& r matches Result::Ok(h) && h@ == q.1.resolve_value(pre.fresh_token())
                &&& forall|j: int|
                    0 <= j < pre.node_count() && j != q.0 ==> post.entries_at(j)
                        == pre.entries_at(j)
                &&& post.entries_at(q.0) == pre.entries_at(q.0).insert(
                    k,
                    q.1.resolve_after(pre.fresh_token()),
                )
                &&& post.fresh_token() == pre.fresh_token() + (if q.1.consumes_token() {
                    1int
                } else {
                    0int
                })
            },
        }
    }

    /// Walk the chain from `at` towards the root and copy out the nearest
    /// entry for the key, with the arena position of the node holding it.
    fn find_in_chain(&self, at: usize, key: ServiceKey) -> (r: Option<(usize, AnyFactory)>)
        requires
            self.wf(),
            at < self.node_count(),
        ensures
            match r {
                Some(p) => self.chain_find(at as int, key.id) == Some((p.0 as int, p.1@)) && p.0
                    < self.node_count(),
                None => self.chain_find(at as int, key.id) is None,
            },
        decreases at,
    {
        let node = &self.nodes[at];
        match node.storage.lookup(key) {
            Some(f) => Some((at, f)),
            None => {
                match node.storage.parent_index() {
                    Some(p) => {
                        proof {
                            assert(self.wf_node(at as int));
                        }
                        self.find_in_chain(p, key)
                    },
                    None => None,
                }
            },
        }
    }

    /// Walk the chain from `at` towards the root and report whether any node
    /// on it has an entry for the key.
    fn has_in_chain(&self, at: usize, key: ServiceKey) -> (r: bool)
        requires
            self.wf(),
            at < self.node_count(),
        ensures
            r == self.chain_has(at as int, key.id),
        decreases at,
    {
        let node = &self.nodes[at];
        if node.storage.contains(key) {
            true
        } else {
            match node.storage.parent_index() {
                Some(p) => {
                    proof {
                        assert(self.wf_node(at as int));
                    }
                    self.has_in_chain(p, key)
                },
                None => false,
            }
        }
    }

    /// Resolve a service from the given scope.
    ///
    /// The hot cache is probed first; on a miss the local node is consulted
    /// and then the ancestor chain, nearest first, and the first entry found
    /// wins. A non-transient result is written back into the cache under the
    /// asking scope's identity. The returned handle is exactly what the found
    /// entry's lifecycle rule produces; when nothing on the chain has the
    /// key, the result is `NotFound` for that key and nothing changes. The
    /// identity mint must not be exhausted, so that a fresh token is there
    /// for an entry that needs one.
    pub fn get(&mut self, s: ScopeRef, key: ServiceKey) -> (r: Result<ServiceHandle, DiError>)
        requires
            old(self).wf(),
            old(self).valid_ref(s),
            old(self).fresh_token() < u64::MAX,
        ensures
            final(self).wf(),
            final(self).node_count() == old(self).node_count(),
            Self::get_post(*old(self), *final(self), s.idx as int, key.id, r),
    {
        let ghost pre = *old(self);
        let probe = self.cache.get(key.id, s.idx);
        if let Some(h) = probe {
            proof {
                let j = choose|j: int|
                    0 <= j < pre.cache.slots().len() && ((#[trigger] pre.cache.slots()[j]) matches Some(
                        e,
                    ) && e.type_hash == key.id && e.storage_ptr == s.idx && h@ == e.service@);
                let e = pre.cache.slots()[j]->0;
                assert(pre.cache_entry_ok(e));
                let q = pre.chain_find(s.idx as int, key.id)->0;
                lemma_chain_find_m_found(pre.entries_all(), pre.parents_all(), s.idx as int, key.id);
                assert(pre.entries_at(q.0)[key.id] == q.1);
                assert(pre.entries_at(q.0).insert(key.id, q.1.resolve_after(pre.fresh_token()))
                    =~= pre.entries_at(q.0));
            }
            return Ok(h);
        }
        match self.find_in_chain(s.idx, key) {
            None => Err(DiError::not_found(key)),
            Some((i, fac)) => {
                let ghost q = pre.chain_find(s.idx as int, key.id)->0;
                proof {
                    lemma_chain_find_m_found(
                        pre.entries_all(),
                        pre.parents_all(),
                        s.idx as int,
                        key.id,
                    );
                }
                let is_trans = fac.is_transient();
                let store_back = fac.is_uncreated_lazy();
                let consumes = fac.consumes_token();
                let token = self.next_token;
                let (newfac, h) = fac.resolve(token);
                if consumes {
                    self.next_token = self.next_token + 1;
                }
                if store_back {
                    self.cache.clear();
                    let node = node_at_mut(&mut self.nodes, i);
                    node.storage.insert(key, newfac);
                    proof {
                        let post = *self;
                        assert forall|j: int|
                            0 <= j < pre.node_count() && j != i as int implies post.entries_at(j)
                            == pre.entries_at(j) by {
                            assert(post.nodes@[j] == pre.nodes@[j]);
                        }
                        assert forall|j: int| 0 <= j < pre.node_count() implies post.parent_at(j)
                            == pre.parent_at(j) && post.locked_at(j) == pre.locked_at(j)
                            && post.depth_at(j) == pre.depth_at(j) by {
                            if j != i as int {
                                assert(post.nodes@[j] == pre.nodes@[j]);
                            }
                        }
                        assert(post.entries_at(i as int).dom() =~= pre.entries_at(
                            i as int,
                        ).dom().insert(key.id));
                        assert forall|j: int| 0 <= j < post.node_count() implies post.wf_node(
                            j,
                        ) by {
                            assert(pre.wf_node(j));
                        }
                        lemma_chain_find_m_after_update(
                            pre.entries_all(),
                            pre.parents_all(),
                            post.entries_all(),
                            s.idx as int,
                            i as int,
                            key.id,
                            q.1.resolve_after(pre.fresh_token()),
                        );
                    }
                } else {
                    proof {
                        assert(pre.entries_at(i as int).insert(
                            key.id,
                            q.1.resolve_after(pre.fresh_token()),
                        ) =~= pre.entries_at(i as int));
                    }
                }
                let ghost cache_mid = self.cache;
                if !is_trans {
                    let dup = h.duplicate();
                    self.cache.insert(key.id, s.idx, dup);
                }
                proof {
                    let post = *self;
                    let ghost fm2 = q.1.resolve_after(pre.fresh_token());
                    assert(Self::same_skeleton(pre, post));
                    assert forall|j: int| 0 <= j < post.node_count() implies post.wf_node(j) by {
                        assert(pre.wf_node(j));
                        if !store_back {
                            assert(post.nodes@[j] == pre.nodes@[j]);
                        }
                    }
                    assert(post.parents_all() =~= pre.parents_all());
                    if store_back {
                        assert(post.entries_all() =~= pre.entries_all().update(
                            i as int,
                            pre.entries_at(i as int).insert(key.id, fm2),
                        ));
                        lemma_chain_find_m_after_update(
                            pre.entries_all(),
                            pre.parents_all(),
                            post.entries_all(),
                            s.idx as int,
                            i as int,
                            key.id,
                            fm2,
                        );
                        assert(post.chain_find(s.idx as int, key.id) == Some((i as int, fm2)));
                    } else {
                        assert(post.entries_all() =~= pre.entries_all());
                        assert(post.chain_find(s.idx as int, key.id) == pre.chain_find(
                            s.idx as int,
                            key.id,
                        ));
                    }
                    assert forall|j: int|
                        0 <= j < post.cache.slots().len() implies match #[trigger] post.cache.slots()[j] {
                        Some(e) => e.storage_ptr < post.node_count() && post.cache_entry_ok(e),
                        None => true,
                    } by {
                        match post.cache.slots()[j] {
                            Some(e) => {
                                if e.type_hash == key.id && e.storage_ptr == s.idx && e.service@
                                    == h@ {
                                    assert(post.cache_entry_ok(e));
                                } else {
                                    // an entry kept from before the resolution
                                    assert(post.cache.slots()[j] == cache_mid.slots()[j]);
                                    assert(!store_back);
                                    assert(cache_mid == pre.cache);
                                    assert(pre.cache_entry_ok(e));
                                    assert(post.cache_entry_ok(e));
                                }
                            },
                            None => {},
                        }
                    }
                }
                Ok(h)
            },
        }
    }

    /// Alias for `get`: resolve a service.
    pub fn resolve(&mut self, s: ScopeRef, key: ServiceKey) -> (r: Result<ServiceHandle, DiError>)
        requires
            old(self).wf(),
            old(self).valid_ref(s),
            old(self).fresh_token() < u64::MAX,
        ensures
            final(self).wf(),
            final(self).node_count() == old(self).node_count(),
            Self::get_post(*old(self), *final(self), s.idx as int, key.id, r),
    {
        self.get(s, key)
    }

    /// Resolve a service, turning a miss into absence instead of an error.
    pub fn try_get(&mut self, s: ScopeRef, key: ServiceKey) -> (r: Option<ServiceHandle>)
        requires
            old(self).wf(),
            old(self).valid_ref(s),
            old(self).fresh_token() < u64::MAX,
        ensures
            final(self).wf(),
            final(self).node_count() == old(self).node_count(),
            Self::get_post(
                *old(self),
                *final(self),
                s.idx as int,
                key.id,
                match r {
                    Some(h) => Result::<ServiceHandle, DiError>::Ok(h),
                    None => Result::<ServiceHandle, DiError>::Err(DiError::NotFound { key }),
                },
            ),
    {
        match self.get(s, key) {
            Ok(h) => Some(h),
            Err(_) => None,
        }
    }

    /// Alias for `try_get`.
    pub fn try_resolve(&mut self, s: ScopeRef, key: ServiceKey) -> (r: Option<ServiceHandle>)
        requires
            old(self).wf(),
            old(self).valid_ref(s),
            old(self).fresh_token() < u64::MAX,
        ensures
            final(self).wf(),
            final(self).node_count() == old(self).node_count(),
            Self::get_post(
                *old(self),
                *final(self),
                s.idx as int,
                key.id,
                match r {
                    Some(h) => Result::<ServiceHandle, DiError>::Ok(h),
                    None => Result::<ServiceHandle, DiError>::Err(DiError::NotFound { key }),
                },
            ),
    {
        self.try_get(s, key)
    }

    /// Resolve once and discard the result, so the hot cache is primed for
    /// the services a worker is about to use.
    pub fn warm_cache(&mut self, s: ScopeRef, key: ServiceKey)
        requires
            old(self).wf(),
            old(self).valid_ref(s),
            old(self).fresh_token() < u64::MAX,
        ensures
            final(self).wf(),
            final(self).node_count() == old(self).node_count(),
            exists|r: Result<ServiceHandle, DiError>| #[trigger] Self::get_post(
                *old(self),
                *final(self),
                s.idx as int,
                key.id,
                r,
            ),
    {
        let r = self.get(s, key);
        proof {
            assert(Self::get_post(*old(self), *self, s.idx as int, key.id, r));
        }
    }

    /// Drop every cached resolution; the registry tree itself is untouched.
    pub fn clear_cache(&mut self)
        requires
            old(self).wf(),
        ensures
            final(self).wf(),
            Self::same_skeleton(*old(self), *final(self)),
            Self::entries_unchanged(*old(self), *final(self)),
            final(self).fresh_token() == old(self).fresh_token(),
    {
        self.cache.clear();
        proof {
            let pre = *old(self);
            let post = *self;
            assert forall|j: int| 0 <= j < post.node_count() implies post.wf_node(j) by {
                assert(pre.wf_node(j));
            }
        }
    }

    /// Whether the key is registered at this scope or any ancestor. Never
    /// triggers creation.
    pub fn contains(&self, s: ScopeRef, key: ServiceKey) -> (r: bool)
        requires
            self.wf(),
            self.valid_ref(s),
        ensures
            r == self.chain_has(s.idx as int, key.id),
    {
        self.has_in_chain(s.idx, key)
    }

    /// Alias for `contains`.
    pub fn has(&self, s: ScopeRef, key: ServiceKey) -> (r: bool)
        requires
            self.wf(),
            self.valid_ref(s),
        ensures
            r == self.chain_has(s.idx as int, key.id),
    {
        self.contains(s, key)
    }

    /// The number of services registered locally at this scope, parents not
    /// included.
    pub fn len(&self, s: ScopeRef) -> (r: usize)
        requires
            self.wf(),
            self.valid_ref(s),
        ensures
            r == self.entries_at(s.idx as int).dom().len(),
    {
        proof {
            assert(self.wf_node(s.idx as int));
        }
        self.nodes[s.idx].storage.len()
    }

    /// Whether this scope has no local registrations.
    pub fn is_empty(&self, s: ScopeRef) -> (r: bool)
        requires
            self.wf(),
            self.valid_ref(s),
        ensures
            r == self.entries_at(s.idx as int).dom().is_empty(),
    {
        proof {
            assert(self.wf_node(s.idx as int));
        }
        self.nodes[s.idx].storage.is_empty()
    }

    /// The keys registered locally at this scope, each exactly once, in no
    /// promised order.
    pub fn registered_types(&self, s: ScopeRef) -> (r: Vec<ServiceKey>)
        requires
            self.wf(),
            self.valid_ref(s),
        ensures
            forall|i: int, j: int| 0 <= i < j < r@.len() ==> r@[i].id != r@[j].id,
            forall|k: u64|
                #[trigger] self.entries_at(s.idx as int).dom().contains(k) <==> (exists|i: int|
                    0 <= i < r@.len() && (#[trigger] r@[i]).id == k),
    {
        self.nodes[s.idx].storage.type_ids()
    }

    /// The scope's depth: 0 for a root, one more than the parent otherwise.
    pub fn depth(&self, s: ScopeRef) -> (r: u64)
        requires
            self.wf(),
            self.valid_ref(s),
        ensures
            r == self.depth_at(s.idx as int),
    {
        self.nodes[s.idx].depth
    }

    /// Lock the scope: registration on it is refused from now on, while
    /// resolution and every other read keeps working. Locking is
    /// irreversible through this interface.
    pub fn lock(&mut self, s: ScopeRef)
        requires
            old(self).wf(),
            old(self).valid_ref(s),
        ensures
            final(self).wf(),
            Self::same_skeleton_but_lock(*old(self), *final(self), s.idx as int),
            Self::entries_unchanged(*old(self), *final(self)),
            final(self).locked_at(s.idx as int),
            final(self).fresh_token() == old(self).fresh_token(),
    {
        let node = node_at_mut(&mut self.nodes, s.idx);
        node.locked = true;
        proof {
            let pre = *old(self);
            let post = *self;
            assert forall|j: int| 0 <= j < pre.node_count() implies post.entries_at(j)
                == pre.entries_at(j) && post.parent_at(j) == pre.parent_at(j) && post.depth_at(j)
                == pre.depth_at(j) by {
                if j != s.idx as int {
                    assert(post.nodes@[j] == pre.nodes@[j]);
                }
            }
            assert(post.entries_all() =~= pre.entries_all());
            assert(post.parents_all() =~= pre.parents_all());
            assert forall|j: int| 0 <= j < post.node_count() implies post.wf_node(j) by {
                assert(pre.wf_node(j));
            }
        }
    }

    /// The tree is unchanged except that the one node may now be locked.
    pub open spec fn same_skeleton_but_lock(pre: Container, post: Container, s: int) -> bool {
        &&& post.node_count() == pre.node_count()
        &&& forall|j: int| 0 <= j < pre.node_count() ==> post.parent_at(j) == pre.parent_at(j)
        &&& forall|j: int| 0 <= j < pre.node_count() ==> post.depth_at(j) == pre.depth_at(j)
        &&& forall|j: int|
            0 <= j < pre.node_count() && j != s ==> post.locked_at(j) == pre.locked_at(j)
    }

    /// Whether the scope is locked.
    pub fn is_locked(&self, s: ScopeRef) -> (r: bool)
        requires
            self.wf(),
            self.valid_ref(s),
        ensures
            r == self.locked_at(s.idx as int),
    {
        self.nodes[s.idx].locked
    }

    /// Remove every local registration of this scope. Ancestors are not
    /// touched, and handles already resolved by callers stay valid.
    pub fn clear(&mut self, s: ScopeRef)
        requires
            old(self).wf(),
            old(self).valid_ref(s),
        ensures
            final(self).wf(),
            Self::same_skeleton(*old(self), *final(self)),
            forall|j: int|
                0 <= j < old(self).node_count() && j != s.idx as int ==> final(self).entries_at(j)
                    == old(self).entries_at(j),
            final(self).entries_at(s.idx as int) == empty_entries(),
            final(self).fresh_token() == old(self).fresh_token(),
    {
        self.cache.clear();
        let node = node_at_mut(&mut self.nodes, s.idx);
        node.storage.clear();
        proof {
            let pre = *old(self);
            let post = *self;
            assert forall|j: int|
                0 <= j < pre.node_count() && j != s.idx as int implies post.entries_at(j)
                == pre.entries_at(j) by {
                assert(post.nodes@[j] == pre.nodes@[j]);
            }
            assert forall|j: int| 0 <= j < pre.node_count() implies post.parent_at(j)
                == pre.parent_at(j) && post.locked_at(j) == pre.locked_at(j) && post.depth_at(j)
                == pre.depth_at(j) by {
                if j != s.idx as int {
                    assert(post.nodes@[j] == pre.nodes@[j]);
                }
            }
            assert forall|j: int| 0 <= j < post.node_count() implies post.wf_node(j) by {
                assert(pre.wf_node(j));
            }
        }
    }

    /// Remove the key's local registration at this scope; true when one was
    /// there. Ancestors are never touched.
    pub fn remove(&mut self, s: ScopeRef, key: ServiceKey) -> (r: bool)
        requires
            old(self).wf(),
            old(self).valid_ref(s),
        ensures
            final(self).wf(),
            Self::same_skeleton(*old(self), *final(self)),
            forall|j: int|
                0 <= j < old(self).node_count() && j != s.idx as int ==> final(self).entries_at(j)
                    == old(self).entries_at(j),
            final(self).entries_at(s.idx as int) == old(self).entries_at(s.idx as int).remove(
                key.id,
            ),
            r == old(self).entries_at(s.idx as int).dom().contains(key.id),
            final(self).fresh_token() == old(self).fresh_token(),
    {
        self.cache.clear();
        let node = node_at_mut(&mut self.nodes, s.idx);
        let r = node.storage.remove(key);
        proof {
            let pre = *old(self);
            let post = *self;
            assert forall|j: int|
                0 <= j < pre.node_count() && j != s.idx as int implies post.entries_at(j)
                == pre.entries_at(j) by {
                assert(post.nodes@[j] == pre.nodes@[j]);
            }
            assert forall|j: int| 0 <= j < pre.node_count() implies post.parent_at(j)
                == pre.parent_at(j) && post.locked_at(j) == pre.locked_at(j) && post.depth_at(j)
                == pre.depth_at(j) by {
                if j != s.idx as int {
                    assert(post.nodes@[j] == pre.nodes@[j]);
                }
            }
            assert(post.entries_at(s.idx as int).dom() =~= pre.entries_at(s.idx as int).dom(
            ).remove(key.id));
            assert forall|j: int| 0 <= j < post.node_count() implies post.wf_node(j) by {
                assert(pre.wf_node(j));
            }
        }
        r
    }
}


/// A recycler for child scopes of one fixed parent: a free list of
/// pre-built, empty registry nodes, handed out and taken back so that
/// request-like units of work do not pay for a fresh registry each time.
/// Returning a scope is an explicit `release`, since putting it back needs
/// the container; a released scope is cleared and unlocked before it is
/// pooled, so no use ever leaks registrations into the next.
pub struct ScopePool {
    parent: usize,
    available: Vec<usize>,
}

impl ScopePool {
    /// The arena position of the parent every pooled scope hangs under.
    pub closed spec fn parent_of(self) -> usize {
        self.parent
    }

    /// The free list: pooled node positions, most recently released last.
    pub closed spec fn free_list(self) -> Seq<usize> {
        self.available@
    }

    /// A pooled slot is an empty, unlocked child of the pool's parent, one
    /// level below it.
    pub open spec fn slot_ok(c: Container, parent: usize, idx: usize) -> bool {
        &&& (idx as int) < c.node_count()
        &&& c.entries_at(idx as int) == empty_entries()
        &&& !c.locked_at(idx as int)
        &&& c.parent_at(idx as int) == Some(parent)
        &&& c.depth_at(idx as int) == c.depth_at(parent as int) + 1
    }

    /// The pool is consistent with the container: the parent exists and can
    /// still take children, and every free slot is an empty, unlocked child
    /// of it.
    pub open spec fn pool_wf(self, c: Container) -> bool {
        &&& (self.parent_of() as int) < c.node_count()
        &&& c.depth_at(self.parent_of() as int) < u64::MAX
        &&& forall|j: int|
            0 <= j < self.free_list().len() ==> Self::slot_ok(
                c,
                self.parent_of(),
                #[trigger] self.free_list()[j],
            )
    }

    /// Build a pool of `capacity` pre-allocated child scopes of `parent`.
    pub fn new(c: &mut Container, parent: ScopeRef, capacity: usize) -> (pool: ScopePool)
        requires
            old(c).wf(),
            old(c).valid_ref(parent),
            old(c).node_count() + capacity < usize::MAX,
            old(c).depth_at(parent.idx as int) < u64::MAX,
        ensures
            final(c).wf(),
            pool.pool_wf(*final(c)),
            pool.parent_of() == parent.idx,
            pool.free_list().len() == capacity,
            final(c).node_count() == old(c).node_count() + capacity,
            forall|j: int|
                0 <= j < old(c).node_count() ==> final(c).entries_at(j) == old(c).entries_at(j)
                    && final(c).parent_at(j) == old(c).parent_at(j) && final(c).locked_at(j) == old(
                    c,
                ).locked_at(j) && final(c).depth_at(j) == old(c).depth_at(j),
            final(c).fresh_token() == old(c).fresh_token(),
    {
        let mut available: Vec<usize> = Vec::new();
        let mut n: usize = 0;
        while n < capacity
            invariant
                n <= capacity,
                c.wf(),
                c.valid_ref(parent),
                c.node_count() == old(c).node_count() + n,
                c.depth_at(parent.idx as int) == old(c).depth_at(parent.idx as int),
                old(c).node_count() + capacity < usize::MAX,
                old(c).depth_at(parent.idx as int) < u64::MAX,
                available@.len() == n,
                forall|j: int|
                    0 <= j < n ==> Self::slot_ok(*c, parent.idx, #[trigger] available@[j]),
                forall|j: int|
                    0 <= j < old(c).node_count() ==> c.entries_at(j) == old(c).entries_at(j)
                        && c.parent_at(j) == old(c).parent_at(j) && c.locked_at(j) == old(
                        c,
                    ).locked_at(j) && c.depth_at(j) == old(c).depth_at(j),
                c.fresh_token() == old(c).fresh_token(),
            decreases capacity - n,
        {
            let sref = c.scope(parent);
            available.push(sref.idx);
            n = n + 1;
        }
        ScopePool { parent: parent.idx, available }
    }

    /// Take a scope from the pool, or build a fresh child scope when the
    /// free list is empty. The scope handed out has no local registrations
    /// and is unlocked, whatever any earlier user registered on it.
    pub fn acquire(&mut self, c: &mut Container) -> (s: ScopeRef)
        requires
            old(self).pool_wf(*old(c)),
            old(c).wf(),
            old(c).node_count() < usize::MAX,
        ensures
            final(c).wf(),
            final(self).pool_wf(*final(c)),
            final(self).parent_of() == old(self).parent_of(),
            final(c).valid_ref(s),
            final(c).entries_at(s.idx as int) == empty_entries(),
            !final(c).locked_at(s.idx as int),
            final(c).parent_at(s.idx as int) == Some(old(self).parent_of()),
            final(c).depth_at(s.idx as int) == final(c).depth_at(final(self).parent_of() as int)
                + 1,
            final(c).node_count() >= old(c).node_count(),
            final(c).node_count() <= old(c).node_count() + 1,
            old(self).free_list().len() > 0 ==> final(c).node_count() == old(c).node_count(),
            forall|j: int|
                0 <= j < old(c).node_count() ==> final(c).entries_at(j) == old(c).entries_at(j)
                    && final(c).parent_at(j) == old(c).parent_at(j) && final(c).locked_at(j) == old(
                    c,
                ).locked_at(j) && final(c).depth_at(j) == old(c).depth_at(j),
            final(c).fresh_token() == old(c).fresh_token(),
            final(self).free_list().len() == if old(self).free_list().len() > 0 {
                old(self).free_list().len() - 1
            } else {
                0
            },
    {
        let slot = self.available.pop();
        match slot {
            Some(idx) => {
                proof {
                    assert(Self::slot_ok(
                        *c,
                        self.parent,
                        old(self).free_list()[old(self).free_list().len() - 1],
                    ));
                }
                ScopeRef { idx }
            },
            None => c.scope(ScopeRef { idx: self.parent }),
        }
    }

    /// Return a scope to the pool: its local entries are removed, its lock
    /// flag reset, and its node pushed onto the free list for the next
    /// acquisition.
    pub fn release(&mut self, c: &mut Container, s: ScopeRef)
        requires
            old(self).pool_wf(*old(c)),
            old(c).wf(),
            old(c).valid_ref(s),
            old(c).parent_at(s.idx as int) == Some(old(self).parent_of()),
            old(self).free_list().len() < usize::MAX,
        ensures
            final(c).wf(),
            final(self).pool_wf(*final(c)),
            final(self).parent_of() == old(self).parent_of(),
            final(self).free_list().len() == old(self).free_list().len() + 1,
            final(c).node_count() == old(c).node_count(),
            final(c).entries_at(s.idx as int) == empty_entries(),
            !final(c).locked_at(s.idx as int),
            forall|j: int|
                0 <= j < old(c).node_count() && j != s.idx as int ==> final(c).entries_at(j) == old(
                    c,
                ).entries_at(j) && final(c).locked_at(j) == old(c).locked_at(j),
            forall|j: int|
                0 <= j < old(c).node_count() ==> final(c).parent_at(j) == old(c).parent_at(j)
                    && final(c).depth_at(j) == old(c).depth_at(j),
            final(c).fresh_token() == old(c).fresh_token(),
    {
        proof {
            assert(old(c).wf_node(s.idx as int));
        }
        c.cache.clear();
        let node = node_at_mut(&mut c.nodes, s.idx);
        node.storage.clear();
        node.locked = false;
        self.available.push(s.idx);
        proof {
            let pre = *old(c);
            let post = *c;
            assert forall|j: int|
                0 <= j < pre.node_count() && j != s.idx as int implies post.entries_at(j)
                == pre.entries_at(j) && post.locked_at(j) == pre.locked_at(j) by {
                assert(post.nodes@[j] == pre.nodes@[j]);
            }
            assert forall|j: int| 0 <= j < pre.node_count() implies post.parent_at(j)
                == pre.parent_at(j) && post.depth_at(j) == pre.depth_at(j) by {
                if j != s.idx as int {
                    assert(post.nodes@[j] == pre.nodes@[j]);
                }
            }
            assert forall|j: int| 0 <= j < post.node_count() implies post.wf_node(j) by {
                assert(pre.wf_node(j));
            }
        }
    }

    /// How many scopes are waiting in the pool.
    pub fn available_count(&self) -> (r: usize)
        ensures
            r == self.free_list().len(),
    {
        self.available.len()
    }
}


// ---------------------------------------------------------------------
// Laws: what the resolution contracts add up to, stated and proved once
// over the ghost model for every container, scope and key.
// ---------------------------------------------------------------------

/// Lookup is congruent in the model: two containers with equal per-node
/// entries and parent links answer every lookup alike.
proof fn lemma_chain_find_congruent(c1: Container, c2: Container, i: int, k: u64)
    requires
        c2.node_count() == c1.node_count(),
        forall|j: int| 0 <= j < c1.node_count() ==> c2.entries_at(j) == c1.entries_at(j),
        forall|j: int| 0 <= j < c1.node_count() ==> c2.parent_at(j) == c1.parent_at(j),
    ensures
        c2.chain_find(i, k) == c1.chain_find(i, k),
{
    assert(c2.entries_all() =~= c1.entries_all());
    assert(c2.parents_all() =~= c1.parents_all());
}

/// After a resolution that changed nothing but possibly republished the
/// entry it found, every lookup answers as before.
proof fn lemma_get_noop_keeps_model(c1: Container, c2: Container, s: int, k: u64, r: Result<
    ServiceHandle,
    DiError,
>)
    requires
        Container::get_post(c1, c2, s, k, r),
        c1.chain_find(s, k) matches Some(q) && !(q.1 matches FactoryModel::Lazy {
            created: None,
            ..
        }),
    ensures
        forall|j: int| 0 <= j < c1.node_count() ==> c2.entries_at(j) == c1.entries_at(j),
        c2.chain_find(s, k) == c1.chain_find(s, k),
{
    let q = c1.chain_find(s, k)->0;
    lemma_chain_find_m_found(c1.entries_all(), c1.parents_all(), s, k);
    assert(c1.entries_at(q.0).insert(k, q.1.resolve_after(c1.fresh_token())) =~= c1.entries_at(
        q.0,
    ));
    lemma_chain_find_congruent(c1, c2, s, k);
}

/// Resolving an eagerly registered singleton twice returns the same
/// instance, identity and payload alike, both times.
pub proof fn lemma_singleton_same_identity(
    c0: Container,
    c1: Container,
    c2: Container,
    s: int,
    k: u64,
    r1: Result<ServiceHandle, DiError>,
    r2: Result<ServiceHandle, DiError>,
)
    requires
        Container::get_post(c0, c1, s, k, r1),
        Container::get_post(c1, c2, s, k, r2),
        c0.chain_find(s, k) matches Some(q) && q.1 matches FactoryModel::Singleton { .. },
    ensures
        r1 matches Result::Ok(h1) && r2 matches Result::Ok(h2) && h1@ == h2@,
{
    lemma_get_noop_keeps_model(c0, c1, s, k, r1);
}

/// Exactly once across the container: two successive resolutions of a
/// lazily registered key return the same instance, and only the first of
/// them can have evaluated the recipe; the second changes nothing and
/// mints no identity.
pub proof fn lemma_lazy_exactly_once_in_container(
    c0: Container,
    c1: Container,
    c2: Container,
    s: int,
    k: u64,
    r1: Result<ServiceHandle, DiError>,
    r2: Result<ServiceHandle, DiError>,
)
    requires
        Container::get_post(c0, c1, s, k, r1),
        Container::get_post(c1, c2, s, k, r2),
        c0.chain_find(s, k) matches Some(q) && q.1 matches FactoryModel::Lazy { .. },
    ensures
        r1 matches Result::Ok(h1) && r2 matches Result::Ok(h2) && h1@ == h2@,
        c2.fresh_token() == c1.fresh_token(),
        forall|j: int| 0 <= j < c1.node_count() ==> c2.entries_at(j) == c1.entries_at(j),
{
    let q = c0.chain_find(s, k)->0;
    lemma_chain_find_m_found(c0.entries_all(), c0.parents_all(), s, k);
    let fm2 = q.1.resolve_after(c0.fresh_token());
    if q.1 matches FactoryModel::Lazy { created: Some(_), .. } {
        lemma_get_noop_keeps_model(c0, c1, s, k, r1);
        lemma_get_noop_keeps_model(c1, c2, s, k, r2);
    } else {
        // the first call published the product at the found node
        assert(c1.entries_all() =~= c0.entries_all().update(
            q.0,
            c0.entries_at(q.0).insert(k, fm2),
        ));
        assert(c1.parents_all() =~= c0.parents_all());
        lemma_chain_find_m_after_update(
            c0.entries_all(),
            c0.parents_all(),
            c1.entries_all(),
            s,
            q.0,
            k,
            fm2,
        );
        assert(c1.chain_find(s, k) == Some((q.0, fm2)));
        lemma_get_noop_keeps_model(c1, c2, s, k, r2);
    }
}

/// After `m` resolutions of a lazily registered key, the found node still
/// holds the entry in its once-created state, and the `m`-th result is the
/// single product the first resolution published.
proof fn lemma_lazy_run_stable(
    states: Seq<Container>,
    results: Seq<Result<ServiceHandle, DiError>>,
    s: int,
    k: u64,
    m: int,
)
    requires
        states.len() == results.len() + 1,
        1 <= m <= results.len(),
        forall|i: int|
            0 <= i < results.len() ==> Container::get_post(
                states[i],
                states[i + 1],
                s,
                k,
                #[trigger] results[i],
            ),
        states[0].chain_find(s, k) matches Some(q) && q.1 matches FactoryModel::Lazy { .. },
    ensures
        ({
            let q = states[0].chain_find(s, k)->0;
            let fm1 = q.1.resolve_after(states[0].fresh_token());
            let v = q.1.resolve_value(states[0].fresh_token());
            &&& states[m].chain_find(s, k) == Some((q.0, fm1))
            &&& results[m - 1] matches Result::Ok(h) && h@ == v
        }),
    decreases m,
{
    let q = states[0].chain_find(s, k)->0;
    let t0 = states[0].fresh_token();
    let fm1 = q.1.resolve_after(t0);
    if m == 1 {
        lemma_chain_find_m_found(states[0].entries_all(), states[0].parents_all(), s, k);
        if q.1 matches FactoryModel::Lazy { created: Some(_), .. } {
            lemma_get_noop_keeps_model(states[0], states[1], s, k, results[0]);
        } else {
            // the first resolution published the product at the found node
            assert(states[1].entries_all() =~= states[0].entries_all().update(
                q.0,
                states[0].entries_at(q.0).insert(k, fm1),
            ));
            assert(states[1].parents_all() =~= states[0].parents_all());
            lemma_chain_find_m_after_update(
                states[0].entries_all(),
                states[0].parents_all(),
                states[1].entries_all(),
                s,
                q.0,
                k,
                fm1,
            );
        }
    } else {
        lemma_lazy_run_stable(states, results, s, k, m - 1);
        // the entry is created now, so the next resolution changes nothing
        lemma_get_noop_keeps_model(states[m - 1], states[m], s, k, results[m - 1]);
        lemma_chain_find_m_found(states[m - 1].entries_all(), states[m - 1].parents_all(), s, k);
        assert(states[m - 1].entries_at(q.0).insert(
            k,
            fm1.resolve_after(states[m - 1].fresh_token()),
        ) =~= states[m - 1].entries_at(q.0));
    }
}

/// Exactly-once across any number of successive resolutions of one lazily
/// registered key: every resolution succeeds with the same instance,
/// identity and payload alike, and after the first resolution none of the
/// later ones changes the token mint.
pub proof fn lemma_lazy_exactly_once_run(
    states: Seq<Container>,
    results: Seq<Result<ServiceHandle, DiError>>,
    s: int,
    k: u64,
)
    requires
        states.len() == results.len() + 1,
        forall|i: int|
            0 <= i < results.len() ==> Container::get_post(
                states[i],
                states[i + 1],
                s,
                k,
                #[trigger] results[i],
            ),
        states[0].chain_find(s, k) matches Some(q) && q.1 matches FactoryModel::Lazy { .. },
    ensures
        forall|i: int| 0 <= i < results.len() ==> (#[trigger] results[i]) is Ok,
        forall|i: int, j: int|
            0 <= i < results.len() && 0 <= j < results.len() ==> (#[trigger] results[i])->Ok_0@
                == (#[trigger] results[j])->Ok_0@,
        forall|i: int|
            1 <= i < results.len() ==> #[trigger] states[i + 1].fresh_token()
                == states[i].fresh_token(),
{
    let q = states[0].chain_find(s, k)->0;
    let v = q.1.resolve_value(states[0].fresh_token());
    assert forall|i: int| 0 <= i < results.len() implies (#[trigger] results[i]) is Ok && results[i]->Ok_0@
        == v by {
        lemma_lazy_run_stable(states, results, s, k, i + 1);
    }
    assert forall|i: int|
        1 <= i < results.len() implies #[trigger] states[i + 1].fresh_token()
        == states[i].fresh_token() by {
        lemma_lazy_run_stable(states, results, s, k, i);
        let fm1 = q.1.resolve_after(states[0].fresh_token());
        assert(states[i].chain_find(s, k) == Some((q.0, fm1)));
        assert(!fm1.consumes_token());
        assert(Container::get_post(states[i], states[i + 1], s, k, results[i]));
    }
}

/// Two successive resolutions of a transient key return distinct
/// instances, with strictly increasing identity tokens.
pub proof fn lemma_transient_distinct(
    c0: Container,
    c1: Container,
    c2: Container,
    s: int,
    k: u64,
    r1: Result<ServiceHandle, DiError>,
    r2: Result<ServiceHandle, DiError>,
)
    requires
        Container::get_post(c0, c1, s, k, r1),
        Container::get_post(c1, c2, s, k, r2),
        c0.chain_find(s, k) matches Some(q) && q.1 matches FactoryModel::Transient { .. },
    ensures
        r1 matches Result::Ok(h1) && r2 matches Result::Ok(h2) && h1@.token < h2@.token,
{
    lemma_get_noop_keeps_model(c0, c1, s, k, r1);
}

/// A child scope sees its parent's visibility: whatever resolves on the
/// parent chain resolves from the child, and where the child has no local
/// entry it resolves exactly what the parent does.
pub proof fn lemma_child_sees_parent(c: Container, child: int, p: usize, k: u64)
    requires
        0 <= child < c.node_count(),
        c.parent_at(child) == Some(p),
        (p as int) < child,
    ensures
        !c.entries_at(child).dom().contains(k) ==> c.chain_find(child, k) == c.chain_find(
            p as int,
            k,
        ),
        c.chain_has(p as int, k) ==> c.chain_has(child, k),
{
}

/// A key is visible from a scope exactly when some scope on its parent
/// chain holds an entry for it; in particular a key registered only in a
/// child scope is invisible from the parent, which never has the child on
/// its chain.
pub proof fn lemma_visibility_is_chain_membership(c: Container, i: int, k: u64)
    ensures
        c.chain_has(i, k) <==> exists|j: int|
            #[trigger] on_chain_m(c.parents_all(), i, j) && entries_has(c.entries_all(), j, k),
{
    lemma_chain_has_iff(c.entries_all(), c.parents_all(), i, k);
}

/// Every node on a chain lies at or below its start, so a descendant
/// scope is never on an ancestor's chain.
pub proof fn lemma_on_chain_descends(parents: Seq<Option<usize>>, i: int, j: int)
    ensures
        on_chain_m(parents, i, j) ==> j <= i,
    decreases i,
{
    if i != j && 0 <= i < parents.len() {
        match parents[i] {
            Some(p) => {
                if (p as int) < i {
                    lemma_on_chain_descends(parents, p as int, j);
                }
            },
            None => {},
        }
    }
}

/// Shadowing: a scope's own entry always wins over any ancestor's.
pub proof fn lemma_local_shadows(c: Container, i: int, k: u64)
    requires
        0 <= i < c.node_count(),
        c.entries_at(i).dom().contains(k),
    ensures
        c.chain_find(i, k) == Some((i, c.entries_at(i)[k])),
{
}

/// Overriding is local: registering on one scope changes no resolution
/// whose chain starts strictly below it. In particular registering on a
/// child leaves every resolution of the parent untouched.
pub proof fn lemma_register_on_descendant_invisible(
    pre: Container,
    post: Container,
    child: int,
    k: u64,
    fm: FactoryModel,
    i: int,
    k2: u64,
)
    requires
        Container::register_post(pre, post, child, k, fm),
        0 <= i < child,
        child < pre.node_count(),
    ensures
        post.chain_find(i, k2) == pre.chain_find(i, k2),
{
    lemma_chain_find_m_prefix(
        pre.entries_all(),
        pre.parents_all(),
        post.entries_all(),
        post.parents_all(),
        i,
        k2,
    );
}

/// Clearing a scope keeps every ancestor resolvable from it: afterwards
/// the scope resolves exactly what its parent chain resolves, for every
/// key.
pub proof fn lemma_clear_resolves_through_parent(
    pre: Container,
    post: Container,
    s: int,
    p: usize,
    k: u64,
)
    requires
        Container::same_skeleton(pre, post),
        0 <= s < pre.node_count(),
        forall|j: int| 0 <= j < pre.node_count() && j != s ==> post.entries_at(j) == pre.entries_at(
            j,
        ),
        post.entries_at(s) == empty_entries(),
        pre.parent_at(s) == Some(p),
        (p as int) < s,
    ensures
        post.chain_find(s, k) == pre.chain_find(p as int, k),
{
    assert(!post.entries_at(s).dom().contains(k));
    assert(post.chain_find(s, k) == post.chain_find(p as int, k));
    lemma_chain_find_m_prefix(
        pre.entries_all(),
        pre.parents_all(),
        post.entries_all(),
        post.parents_all(),
        p as int,
        k,
    );
}

/// Locking changes no resolution anywhere: after a lock, every lookup from
/// every scope answers exactly as before, while registration on the locked
/// scope is refused by precondition.
pub proof fn lemma_lock_preserves_resolution(pre: Container, post: Container, i: int, k: u64)
    requires
        post.node_count() == pre.node_count(),
        Container::entries_unchanged(pre, post),
        forall|j: int| 0 <= j < pre.node_count() ==> post.parent_at(j) == pre.parent_at(j),
    ensures
        post.chain_find(i, k) == pre.chain_find(i, k),
{
    assert(post.entries_all() =~= pre.entries_all());
    assert(post.parents_all() =~= pre.parents_all());
}

/// A registration anywhere on a scope's ancestor chain, however many
/// levels up, is visible from that scope.
pub proof fn lemma_ancestor_registration_visible(c: Container, leaf: int, a: int, k: u64)
    requires
        on_chain_m(c.parents_all(), leaf, a),
        entries_has(c.entries_all(), a, k),
    ensures
        c.chain_has(leaf, k),
{
    lemma_chain_has_iff(c.entries_all(), c.parents_all(), leaf, k);
}

/// Success is owed exactly where membership promises it: a resolution
/// returns a value precisely when the key was visible from the scope, and
/// returns `NotFound` precisely when it was not.
pub proof fn lemma_get_iff_contains(
    pre: Container,
    post: Container,
    s: int,
    k: u64,
    r: Result<ServiceHandle, DiError>,
)
    requires
        Container::get_post(pre, post, s, k, r),
    ensures
        (r is Ok) <==> pre.chain_has(s, k),
        (r is Err) <==> !pre.chain_has(s, k),
{
}

/// A scope with no local entries resolves exactly what its parent chain
/// resolves: a freshly acquired pooled scope leaks nothing from an earlier
/// use.
pub proof fn lemma_empty_scope_resolves_through_parent(c: Container, s: int, p: usize, k: u64)
    requires
        0 <= s < c.node_count(),
        c.entries_at(s) == empty_entries(),
        c.parent_at(s) == Some(p),
        (p as int) < s,
    ensures
        c.chain_find(s, k) == c.chain_find(p as int, k),
        !c.entries_at(s).dom().contains(k),
{
}


/// One unfolding step of chain lookup, phrased over the per-node spec
/// functions, so that callers can compute lookups from the contracts of
/// the operations that built the container.
pub proof fn lemma_chain_find_unfold(c: Container, i: int, k: u64)
    requires
        0 <= i < c.node_count(),
    ensures
        c.chain_find(i, k) == (if c.entries_at(i).dom().contains(k) {
            Some((i, c.entries_at(i)[k]))
        } else {
            match c.parent_at(i) {
                Some(p) => if (p as int) < i {
                    c.chain_find(p as int, k)
                } else {
                    None
                },
                None => None,
            }
        }),
{
    lemma_model_index(c, i);
}

/// The ghost model sequences index back to the per-node spec functions.
pub proof fn lemma_model_index(c: Container, i: int)
    requires
        0 <= i < c.node_count(),
    ensures
        c.entries_all().len() == c.node_count(),
        c.parents_all().len() == c.node_count(),
        c.entries_all()[i] == c.entries_at(i),
        c.parents_all()[i] == c.parent_at(i),
{
}

} // verus!
