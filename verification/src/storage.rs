//! Backing storage for one registry node.
//!
//! Entries live in a concurrent hash map from the `dashmap` crate, hashed
//! with `ahash`, exactly as the resolution hot path wants them. The map is
//! opaque to verification, so its contents are named by an uninterpreted
//! ghost map and every operation the registry performs goes through a thin
//! trusted wrapper whose contract states what the crate's source shows.

use crate::factory::{AnyFactory, FactoryModel};
use crate::{ServiceHandle, ServiceKey};
use vstd::prelude::*;

verus! {

/// dashmap's concurrent hash map, the backing store for a registry node.
#[verifier::external_type_specification]
#[verifier::external_body]
#[verifier::reject_recursive_types(K)]
#[verifier::reject_recursive_types(V)]
#[verifier::reject_recursive_types(S)]
pub struct ExDashMap<K, V, S>(dashmap::DashMap<K, V, S>);

/// ahash's hasher state, the hash builder the backing map is created with.
#[verifier::external_type_specification]
#[verifier::external_body]
pub struct ExRandomState(ahash::RandomState);

/// The concrete backing map type: raw service keys to factory entries.
pub type EntryMap = dashmap::DashMap<u64, AnyFactory, ahash::RandomState>;

/// The entries a backing map holds, as a ghost map from raw key to the
/// model of the stored factory.
pub uninterp spec fn dash_contents(m: EntryMap) -> Map<u64, FactoryModel>;

/// The empty store: no key has an entry.
pub open spec fn empty_entries() -> Map<u64, FactoryModel> {
    Map::empty()
}

/// Relies on ahash::RandomState::new: builds a hasher state for the map.
/// Nothing is promised of it.
#[verifier::external_body]
fn new_random_state() -> ahash::RandomState {
    ahash::RandomState::new()
}

/// Relies on dashmap::DashMap::with_capacity_and_hasher_and_shard_amount:
/// a freshly built map holds no entries. The call panics unless the shard
/// count is a power of two greater than one, so the shard counts this
/// crate uses are required here.
#[verifier::external_body]
fn dash_new(capacity: usize, hasher: ahash::RandomState, shards: usize) -> (m: EntryMap)
    requires
        shards == 8 || shards == 16 || shards == 32,
    ensures
        dash_contents(m) == empty_entries(),
{
    dashmap::DashMap::with_capacity_and_hasher_and_shard_amount(capacity, hasher, shards)
}

/// Relies on dashmap::DashMap::insert: stores the value under the key,
/// replacing any previous entry for that key.
#[verifier::external_body]
fn dash_insert(m: &mut EntryMap, k: u64, v: AnyFactory)
    ensures
        dash_contents(*final(m)) == dash_contents(*old(m)).insert(k, v@),
{
    m.insert(k, v);
}

/// Relies on dashmap::DashMap::get: returns a copy of the entry stored
/// under the key, or nothing when the key is absent.
#[verifier::external_body]
fn dash_get(m: &EntryMap, k: u64) -> (r: Option<AnyFactory>)
    ensures
        match r {
            Some(f) => dash_contents(*m).dom().contains(k) && f@ == dash_contents(*m)[k],
            None => !dash_contents(*m).dom().contains(k),
        },
{
    m.get(&k).map(|e| e.value().clone())
}

/// Relies on dashmap::DashMap::contains_key: whether the key has an entry.
#[verifier::external_body]
fn dash_contains(m: &EntryMap, k: u64) -> (r: bool)
    ensures
        r == dash_contents(*m).dom().contains(k),
{
    m.contains_key(&k)
}

/// Relies on dashmap::DashMap::len: the number of stored entries.
#[verifier::external_body]
fn dash_len(m: &EntryMap) -> (r: usize)
    requires
        dash_contents(*m).dom().finite(),
    ensures
        r == dash_contents(*m).dom().len(),
{
    m.len()
}

/// Relies on dashmap::DashMap::clear: removes every entry.
#[verifier::external_body]
fn dash_clear(m: &mut EntryMap)
    ensures
        dash_contents(*final(m)) == empty_entries(),
{
    m.clear();
}

/// Relies on dashmap::DashMap::remove: takes the key's entry out and says
/// whether one was there.
#[verifier::external_body]
fn dash_remove(m: &mut EntryMap, k: u64) -> (r: bool)
    ensures
        dash_contents(*final(m)) == dash_contents(*old(m)).remove(k),
        r == dash_contents(*old(m)).dom().contains(k),
{
    m.remove(&k).is_some()
}

/// Relies on dashmap::DashMap::iter: visits each entry exactly once, so the
/// collected keys are exactly the map's keys, each once.
#[verifier::external_body]
fn dash_keys(m: &EntryMap) -> (r: Vec<u64>)
    ensures
        r@.no_duplicates(),
        forall|k: u64| #[trigger] r@.contains(k) <==> dash_contents(*m).dom().contains(k),
{
    m.iter().map(|e| *e.key()).collect()
}

/// One registry node: a concurrent map from service key to factory entry,
/// plus the position of the parent node in the owning container's arena.
pub struct ServiceStorage {
    entries: EntryMap,
    parent: Option<usize>,
}

impl ServiceStorage {
    /// The stored entries, keyed by raw service key.
    pub closed spec fn contents(self) -> Map<u64, FactoryModel> {
        dash_contents(self.entries)
    }

    /// The arena position of the parent node, if this node has one.
    pub closed spec fn parent_link(self) -> Option<usize> {
        self.parent
    }

    /// New empty storage with no parent. Eight shards balance creation
    /// cost against concurrent-read contention for typical registries.
    pub fn new() -> (s: ServiceStorage)
        ensures
            s.contents() == empty_entries(),
            s.parent_link() is None,
    {
        ServiceStorage { entries: dash_new(0, new_random_state(), 8), parent: None }
    }

    /// New empty storage sized for the given number of services: the shard
    /// count grows with the expected capacity.
    pub fn with_capacity(capacity: usize) -> (s: ServiceStorage)
        ensures
            s.contents() == empty_entries(),
            s.parent_link() is None,
    {
        let shards: usize = if capacity <= 16 {
            8
        } else if capacity <= 64 {
            16
        } else {
            32
        };
        ServiceStorage { entries: dash_new(capacity, new_random_state(), shards), parent: None }
    }

    /// New empty storage whose parent is the node at the given arena
    /// position.
    pub fn with_parent(parent: usize) -> (s: ServiceStorage)
        ensures
            s.contents() == empty_entries(),
            s.parent_link() == Some(parent),
    {
        ServiceStorage { entries: dash_new(0, new_random_state(), 8), parent: Some(parent) }
    }

    /// Store a factory under the key, replacing any previous entry.
    pub fn insert(&mut self, key: ServiceKey, factory: AnyFactory)
        ensures
            final(self).contents() == old(self).contents().insert(key.id, factory@),
            final(self).parent_link() == old(self).parent_link(),
    {
        dash_insert(&mut self.entries, key.id, factory);
    }

    /// Whether the key has a local entry. Local only: ancestors are not
    /// consulted.
    pub fn contains(&self, key: ServiceKey) -> (r: bool)
        ensures
            r == self.contents().dom().contains(key.id),
    {
        dash_contains(&self.entries, key.id)
    }

    /// A copy of the key's local entry, if there is one.
    pub fn lookup(&self, key: ServiceKey) -> (r: Option<AnyFactory>)
        ensures
            match r {
                Some(f) => self.contents().dom().contains(key.id) && f@ == self.contents()[key.id],
                None => !self.contents().dom().contains(key.id),
            },
    {
        dash_get(&self.entries, key.id)
    }

    /// The arena position of the parent node, if any.
    pub fn parent_index(&self) -> (r: Option<usize>)
        ensures
            r == self.parent_link(),
    {
        self.parent
    }

    /// Whether this storage has a parent.
    pub fn has_parent(&self) -> (r: bool)
        ensures
            r == (self.parent_link() is Some),
    {
        self.parent.is_some()
    }

    /// The number of local entries.
    pub fn len(&self) -> (r: usize)
        requires
            self.contents().dom().finite(),
        ensures
            r == self.contents().dom().len(),
    {
        dash_len(&self.entries)
    }

    /// Whether this storage holds no local entries.
    pub fn is_empty(&self) -> (r: bool)
        requires
            self.contents().dom().finite(),
        ensures
            r == self.contents().dom().is_empty(),
    {
        let n = dash_len(&self.entries);
        proof {
            if n == 0 {
                self.contents().dom().lemma_len0_is_empty();
            } else {
                assert(self.contents().dom() =~= Set::empty() ==> self.contents().dom().len()
                    == 0);
            }
        }
        n == 0
    }

    /// Remove every local entry; the parent link is kept.
    pub fn clear(&mut self)
        ensures
            final(self).contents() == empty_entries(),
            final(self).parent_link() == old(self).parent_link(),
    {
        dash_clear(&mut self.entries);
    }

    /// Remove the key's local entry; true when one was there.
    pub fn remove(&mut self, key: ServiceKey) -> (r: bool)
        ensures
            final(self).contents() == old(self).contents().remove(key.id),
            final(self).parent_link() == old(self).parent_link(),
            r == old(self).contents().dom().contains(key.id),
    {
        dash_remove(&mut self.entries, key.id)
    }

    /// The keys of all local entries, each exactly once, in no promised
    /// order.
    pub fn type_ids(&self) -> (r: Vec<ServiceKey>)
        ensures
            forall|i: int, j: int| 0 <= i < j < r@.len() ==> r@[i].id != r@[j].id,
            forall|k: u64|
                #[trigger] self.contents().dom().contains(k) <==> (exists|i: int|
                    0 <= i < r@.len() && (#[trigger] r@[i]).id == k),
    {
        let raw = dash_keys(&self.entries);
        let mut out: Vec<ServiceKey> = Vec::new();
        let mut i: usize = 0;
        while i < raw.len()
            invariant
                i <= raw.len(),
                out@.len() == i,
                forall|j: int| 0 <= j < i ==> (#[trigger] out@[j]).id == raw@[j],
            decreases raw.len() - i,
        {
            out.push(ServiceKey { id: raw[i] });
            i = i + 1;
        }
        proof {
            assert forall|k: u64| #[trigger]
                self.contents().dom().contains(k) implies (exists|i: int|
                0 <= i < out@.len() && (#[trigger] out@[i]).id == k) by {
                assert(raw@.contains(k));
                let w = choose|w: int| 0 <= w < raw@.len() && raw@[w] == k;
                assert(out@[w].id == k);
            }
            assert forall|k: u64|
                (exists|i: int|
                    0 <= i < out@.len() && (#[trigger] out@[i]).id
                        == k) implies #[trigger] self.contents().dom().contains(k) by {
                let w = choose|w: int| 0 <= w < out@.len() && out@[w].id == k;
                assert(raw@[w] == k);
                assert(raw@.contains(k));
            }
        }
        out
    }

    /// Resolve the key's local entry, invoking the stored factory's
    /// production rule. Local only: ancestors are not consulted. `token` is
    /// the fresh identity used where the entry mints one; a first lazy
    /// resolution publishes its product back into the store.
    pub fn resolve(&mut self, key: ServiceKey, token: u64) -> (r: Option<ServiceHandle>)
        ensures
            final(self).parent_link() == old(self).parent_link(),
            match r {
                Some(h) => {
                    &&& old(self).contents().dom().contains(key.id)
                    &&& h@ == old(self).contents()[key.id].resolve_value(token)
                    &&& final(self).contents() == old(self).contents().insert(
                        key.id,
                        old(self).contents()[key.id].resolve_after(token),
                    )
                },
                None => {
                    &&& !old(self).contents().dom().contains(key.id)
                    &&& final(self).contents() == old(self).contents()
                },
            },
    {
        match self.lookup(key) {
            Some(f) => {
                let ghost fm = f@;
                let (after, h) = f.resolve(token);
                self.insert(key, after);
                Some(h)
            },
            None => None,
        }
    }

    /// Resolve the key's local entry and report, in the same lookup,
    /// whether it is transient, so callers deciding about caching need not
    /// look the entry up twice.
    pub fn get_with_transient_flag(&self, key: ServiceKey) -> (r: Option<(AnyFactory, bool)>)
        ensures
            match r {
                Some(p) => self.contents().dom().contains(key.id) && p.0@
                    == self.contents()[key.id] && p.1 == self.contents()[key.id].is_transient(),
                None => !self.contents().dom().contains(key.id),
            },
    {
        match self.lookup(key) {
            Some(f) => {
                let t = f.is_transient();
                Some((f, t))
            },
            None => None,
        }
    }

    /// Whether the key's local entry is transient; false when the key is
    /// absent.
    pub fn is_transient(&self, key: ServiceKey) -> (r: bool)
        ensures
            r == (self.contents().dom().contains(key.id) && self.contents()[key.id].is_transient()),
    {
        match self.lookup(key) {
            Some(f) => f.is_transient(),
            None => false,
        }
    }
}


impl Default for ServiceStorage {
    /// The default storage is a fresh empty one with no parent.
    fn default() -> (s: ServiceStorage)
        ensures
            s.contents() == empty_entries(),
            s.parent_link() is None,
    {
        ServiceStorage::new()
    }
}

// ---------------------------------------------------------------------
// Frozen storage: an immutable, perfect-hash-indexed snapshot of a locked
// registry chain.
// ---------------------------------------------------------------------

/// boomphf's minimal perfect hash function over a set of keys.
#[verifier::external_type_specification]
#[verifier::external_body]
#[verifier::reject_recursive_types(T)]
pub struct ExMphf<T>(boomphf::Mphf<T>);

/// The slot boomphf's hash function assigns to a key: a pure function of
/// the built structure and the key.
pub uninterp spec fn mphf_slot(f: boomphf::Mphf<u64>, k: u64) -> Option<u64>;

/// Relies on boomphf::Mphf::try_hash: a deterministic lookup in the built
/// structure. For a key of the construction set it returns that key's slot;
/// for any other key it may return an arbitrary slot or nothing, so callers
/// verify key equality after indexing.
#[verifier::external_body]
fn mphf_try_hash(f: &boomphf::Mphf<u64>, k: u64) -> (r: Option<u64>)
    ensures
        r == mphf_slot(*f, k),
{
    f.try_hash(&k)
}

/// The hash function assigns every listed key a slot of its own within the
/// range of the entry count: exactly what a sound minimal perfect hash over
/// these keys guarantees.
pub open spec fn assigns_distinct_slots(
    f: boomphf::Mphf<u64>,
    entries: Seq<(ServiceKey, AnyFactory)>,
) -> bool {
    &&& forall|i: int|
        0 <= i < entries.len() ==> ((#[trigger] mphf_slot(f, entries[i].0.id)) matches Some(j) && (
        j as int) < entries.len())
    &&& forall|a: int, b: int|
        #![trigger mphf_slot(f, entries[a].0.id), mphf_slot(f, entries[b].0.id)]
        0 <= a < b < entries.len() ==> mphf_slot(f, entries[a].0.id) != mphf_slot(
            f,
            entries[b].0.id,
        )
}

/// An immutable snapshot of one registry node, addressed by a minimal
/// perfect hash function instead of general hashing, chaining to a frozen
/// parent. Built once from a locked registry; lookups verify key equality
/// after indexing, since the hash function can send unknown keys to
/// plausible slots.
pub struct FrozenStorage {
    mphf: boomphf::Mphf<u64>,
    slots: Vec<Option<(ServiceKey, AnyFactory)>>,
    parent: Option<Box<FrozenStorage>>,
    model: Ghost<Map<u64, FactoryModel>>,
}

impl FrozenStorage {
    /// The entries this frozen node carries.
    pub closed spec fn local_model(self) -> Map<u64, FactoryModel> {
        self.model@
    }

    /// The frozen parent, if the snapshot chains on.
    pub closed spec fn frozen_parent(self) -> Option<FrozenStorage> {
        match self.parent {
            Some(b) => Some(*b),
            None => None,
        }
    }

    /// The snapshot is internally consistent: every filled slot holds one
    /// of the model's entries at the slot the hash function assigns to its
    /// key, every model entry is reachable that way, and the chain below is
    /// consistent too.
    pub closed spec fn wf(self) -> bool
        decreases self,
    {
        &&& forall|j: int|
            0 <= j < self.slots@.len() ==> match #[trigger] self.slots@[j] {
                Some(p) => self.model@.dom().contains(p.0.id) && p.1@ == self.model@[p.0.id]
                    && mphf_slot(self.mphf, p.0.id) == Some(j as u64),
                None => true,
            }
        &&& forall|k: u64|
            #[trigger] self.model@.dom().contains(k) ==> (mphf_slot(self.mphf, k) matches Some(j)
                && j < self.slots@.len() && (self.slots@[j as int] matches Some(p) && p.0.id == k))
        &&& match self.parent {
            Some(b) => b.wf(),
            None => true,
        }
    }

    /// Chain lookup in the snapshot: the nearest frozen node whose entries
    /// contain the key answers.
    pub closed spec fn frozen_find(self, k: u64) -> Option<FactoryModel>
        decreases self,
    {
        if self.local_model().dom().contains(k) {
            Some(self.local_model()[k])
        } else {
            match self.parent {
                Some(b) => b.frozen_find(k),
                None => None,
            }
        }
    }

    /// Build one frozen node from the collected entries of a registry node
    /// and a perfect hash function for their keys; chain it onto an already
    /// frozen parent. Succeeds whenever the hash function assigns every key
    /// a slot of its own within range — which a sound minimal perfect hash
    /// over exactly these keys always does — and returns nothing otherwise.
    pub fn from_parts(
        mphf: boomphf::Mphf<u64>,
        entries: Vec<(ServiceKey, AnyFactory)>,
        parent: Option<FrozenStorage>,
    ) -> (r: Option<FrozenStorage>)
        requires
            match parent {
                Some(fp) => fp.wf(),
                None => true,
            },
            forall|a: int, b: int|
                0 <= a < b < entries@.len() ==> (#[trigger] entries@[a]).0.id
                    != (#[trigger] entries@[b]).0.id,
        ensures
            assigns_distinct_slots(mphf, entries@) ==> r is Some,
            match r {
                Some(fz) => {
                    &&& fz.wf()
                    &&& fz.frozen_parent() == parent
                    &&& fz.slot_count() == entries@.len()
                    &&& fz.local_model().dom().finite()
                    &&& fz.local_model().dom().len() == entries@.len()
                    &&& forall|idx: int|
                        0 <= idx < entries@.len() ==> fz.local_model().dom().contains(
                            (#[trigger] entries@[idx]).0.id,
                        ) && fz.local_model()[entries@[idx].0.id] == entries@[idx].1@
                    &&& forall|k: u64|
                        #[trigger] fz.local_model().dom().contains(k) ==> exists|idx: int|
                            0 <= idx < entries@.len() && (#[trigger] entries@[idx]).0.id == k
                },
                None => true,
            },
    {
        let ghost orig = entries@;
        let n = entries.len();
        let mut slots: Vec<Option<(ServiceKey, AnyFactory)>> = Vec::new();
        let mut i: usize = 0;
        while i < n
            invariant
                i <= n,
                slots@.len() == i,
                forall|j: int| 0 <= j < i ==> slots@[j] is None,
            decreases n - i,
        {
            slots.push(None);
            i = i + 1;
        }
        let ghost m0 = Map::<u64, FactoryModel>::empty();
        let ghost mphf_spec = mphf;
        let mut model: Ghost<Map<u64, FactoryModel>> = Ghost(m0);
        let mut remaining = entries;
        while remaining.len() > 0
            invariant
                mphf_spec == mphf,
                orig == entries@,
                slots@.len() == n,
                remaining@.len() <= n,
                remaining@ == orig.take(remaining@.len() as int),
                forall|a: int, b: int|
                    0 <= a < b < orig.len() ==> (#[trigger] orig[a]).0.id != (#[trigger] orig[b]).0.id,
                orig.len() == n,
                model@.dom().finite(),
                model@.dom().len() + remaining@.len() == n,
                forall|j: int|
                    0 <= j < slots@.len() ==> match #[trigger] slots@[j] {
                        Some(p) => model@.dom().contains(p.0.id) && p.1@ == model@[p.0.id]
                            && mphf_slot(mphf_spec, p.0.id) == Some(j as u64),
                        None => true,
                    },
                forall|k: u64|
                    #[trigger] model@.dom().contains(k) ==> (mphf_slot(mphf_spec, k) matches Some(
                        j,
                    ) && j < slots@.len() && (slots@[j as int] matches Some(p) && p.0.id == k)),
                forall|idx: int|
                    remaining@.len() <= idx < n ==> model@.dom().contains(
                        (#[trigger] orig[idx]).0.id,
                    ) && model@[orig[idx].0.id] == orig[idx].1@,
                forall|k: u64|
                    #[trigger] model@.dom().contains(k) ==> exists|idx: int|
                        remaining@.len() <= idx < n && (#[trigger] orig[idx]).0.id == k,
            decreases remaining@.len(),
        {
            let ghost rem = remaining@.len();
            let pair = remaining.pop().unwrap();
            proof {
                assert(pair == orig[rem - 1]);
                assert(remaining@ =~= orig.take(rem - 1));
            }
            let (key, fac) = pair;
            match mphf_try_hash(&mphf, key.id) {
                Some(j) => {
                    if j >= n as u64 {
                        proof {
                            // the key's slot is out of range, so the hash
                            // does not cover the keys
                            assert(orig[rem - 1].0.id == key.id);
                            assert(!assigns_distinct_slots(mphf, orig)) by {
                                if assigns_distinct_slots(mphf, orig) {
                                    assert((mphf_slot(mphf, orig[rem - 1].0.id) matches Some(jj)
                                        && (jj as int) < orig.len()));
                                    assert(false);
                                }
                            }
                        }
                        return None;
                    }
                    let ju = j as usize;
                    let occupied = slots[ju].is_some();
                    if occupied {
                        proof {
                            // a key placed earlier owns this slot already,
                            // so two keys share a slot
                            assert(orig[rem - 1].0.id == key.id);
                            let p = slots@[ju as int]->0;
                            assert(model@.dom().contains(p.0.id));
                            let idx2 = choose|idx2: int|
                                rem <= idx2 < n && (#[trigger] orig[idx2]).0.id == p.0.id;
                            assert(mphf_slot(mphf, orig[idx2].0.id) == Some(ju as u64));
                            assert(ju as u64 == j);
                            assert(!assigns_distinct_slots(mphf, orig)) by {
                                if assigns_distinct_slots(mphf, orig) {
                                    assert(mphf_slot(mphf, orig[rem - 1].0.id) != mphf_slot(
                                        mphf,
                                        orig[idx2].0.id,
                                    ));
                                    assert(false);
                                }
                            }
                        }
                        return None;
                    }
                    let ghost slots0 = slots@;
                    let ghost m_prev = model@;
                    proof {
                        assert(!m_prev.dom().contains(key.id));
                    }
                    slots.set(ju, Some((key, fac)));
                    proof {
                        model@ = m_prev.insert(key.id, orig[rem - 1].1@);
                        let m = model@;
                        assert forall|j2: int|
                            0 <= j2 < slots@.len() implies match #[trigger] slots@[j2] {
                            Some(p) => m.dom().contains(p.0.id) && p.1@ == m[p.0.id] && mphf_slot(
                                mphf_spec,
                                p.0.id,
                            ) == Some(j2 as u64),
                            None => true,
                        } by {
                            if j2 == ju as int {
                                assert(slots@[j2] == Some((key, fac)));
                                assert(ju as u64 == j);
                                assert(mphf_slot(mphf_spec, key.id) == Some(j));
                                assert(fac@ == orig[rem - 1].1@);
                                assert(m[key.id] == orig[rem - 1].1@);
                            } else {
                                assert(slots@[j2] == slots0[j2]);
                                match slots0[j2] {
                                    Some(p) => {
                                        assert(m_prev.dom().contains(p.0.id));
                                        assert(p.0.id != key.id);
                                    },
                                    None => {},
                                }
                            }
                        }
                        assert forall|k2: u64| #[trigger] m.dom().contains(k2) implies (mphf_slot(
                            mphf_spec,
                            k2,
                        ) matches Some(j2) && j2 < slots@.len() && (slots@[j2 as int] matches Some(
                            p,
                        ) && p.0.id == k2)) by {
                            if k2 == key.id {
                                assert(slots@[ju as int] == Some((key, fac)));
                            } else {
                                assert(m_prev.dom().contains(k2));
                                let j2 = mphf_slot(mphf_spec, k2)->0;
                                assert(slots0[j2 as int] matches Some(p) && p.0.id == k2);
                                assert(j2 as int != ju as int);
                                assert(slots@[j2 as int] == slots0[j2 as int]);
                            }
                        }
                    }
                },
                None => {
                    proof {
                        // the hash assigns the key no slot at all
                        assert(orig[rem - 1].0.id == key.id);
                        assert(!assigns_distinct_slots(mphf, orig)) by {
                            if assigns_distinct_slots(mphf, orig) {
                                assert((mphf_slot(mphf, orig[rem - 1].0.id) matches Some(jj) && (
                                jj as int) < orig.len()));
                                assert(false);
                            }
                        }
                    }
                    return None;
                },
            }
        }
        proof {
            assert(model@.dom().len() == n);
        }
        let parent_box = match parent {
            Some(fp) => Some(Box::new(fp)),
            None => None,
        };
        let fz = FrozenStorage { mphf, slots, parent: parent_box, model };
        proof {
            assert(fz.wf());
        }
        Some(fz)
    }
}


impl FrozenStorage {
    /// Look the key up in this frozen node alone: index by the perfect
    /// hash, then verify key equality, since unknown keys can land on
    /// plausible slots. `token` is the fresh identity used where the stored
    /// entry mints one; the snapshot itself is never changed.
    pub fn resolve(&self, key: ServiceKey, token: u64) -> (r: Option<ServiceHandle>)
        requires
            self.wf(),
        ensures
            match r {
                Some(h) => self.local_model().dom().contains(key.id) && h@ == self.local_model()[key.id].resolve_value(token),
                None => !self.local_model().dom().contains(key.id),
            },
    {
        match mphf_try_hash(&self.mphf, key.id) {
            Some(j) => {
                if j >= self.slots.len() as u64 {
                    return None;
                }
                let ju = j as usize;
                match &self.slots[ju] {
                    Some(p) => {
                        if p.0.id == key.id {
                            Some(p.1.produce(token))
                        } else {
                            proof {
                                assert(!self.local_model().dom().contains(key.id));
                            }
                            None
                        }
                    },
                    None => {
                        proof {
                            assert(!self.local_model().dom().contains(key.id));
                        }
                        None
                    },
                }
            },
            None => {
                proof {
                    assert(!self.local_model().dom().contains(key.id));
                }
                None
            },
        }
    }

    /// Whether this frozen node itself holds the key.
    pub fn contains(&self, key: ServiceKey) -> (r: bool)
        requires
            self.wf(),
        ensures
            r == self.local_model().dom().contains(key.id),
    {
        match mphf_try_hash(&self.mphf, key.id) {
            Some(j) => {
                if j >= self.slots.len() as u64 {
                    return false;
                }
                let ju = j as usize;
                match &self.slots[ju] {
                    Some(p) => p.0.id == key.id,
                    None => false,
                }
            },
            None => false,
        }
    }

    /// Look the key up along the whole frozen chain, nearest node first.
    pub fn resolve_from_chain(&self, key: ServiceKey, token: u64) -> (r: Option<ServiceHandle>)
        requires
            self.wf(),
        ensures
            match self.frozen_find(key.id) {
                Some(fm) => r matches Some(h) && h@ == fm.resolve_value(token),
                None => r is None,
            },
        decreases *self,
    {
        match self.resolve(key, token) {
            Some(h) => Some(h),
            None => {
                match &self.parent {
                    Some(p) => p.resolve_from_chain(key, token),
                    None => None,
                }
            },
        }
    }

    /// Whether any node of the frozen chain holds the key.
    pub fn contains_in_chain(&self, key: ServiceKey) -> (r: bool)
        requires
            self.wf(),
        ensures
            r == (self.frozen_find(key.id) is Some),
        decreases *self,
    {
        if self.contains(key) {
            true
        } else {
            match &self.parent {
                Some(p) => p.contains_in_chain(key),
                None => false,
            }
        }
    }

    /// How many entries this frozen node carries.
    pub fn len(&self) -> (r: usize)
        requires
            self.wf(),
            self.local_model().dom().finite(),
            self.local_model().dom().len() == self.slot_count(),
        ensures
            r == self.local_model().dom().len(),
    {
        self.slots.len()
    }

    /// The number of slots, which a snapshot built by `from_parts` makes
    /// equal to the number of entries.
    pub closed spec fn slot_count(self) -> nat {
        self.slots@.len()
    }

    /// Whether this frozen node carries no entries.
    pub fn is_empty(&self) -> (r: bool)
        requires
            self.wf(),
            self.local_model().dom().finite(),
            self.local_model().dom().len() == self.slot_count(),
        ensures
            r == (self.local_model().dom().len() == 0),
    {
        self.slots.len() == 0
    }

    /// Whether the key's entry in this frozen node is transient; false when
    /// the key is absent.
    pub fn is_transient(&self, key: ServiceKey) -> (r: bool)
        requires
            self.wf(),
        ensures
            r == (self.local_model().dom().contains(key.id) && self.local_model()[key.id].is_transient()),
    {
        match mphf_try_hash(&self.mphf, key.id) {
            Some(j) => {
                if j >= self.slots.len() as u64 {
                    return false;
                }
                let ju = j as usize;
                match &self.slots[ju] {
                    Some(p) => {
                        if p.0.id == key.id {
                            p.1.is_transient()
                        } else {
                            false
                        }
                    },
                    None => false,
                }
            },
            None => false,
        }
    }

    /// The frozen chain carries, node for node, the entries of the live
    /// chain that starts at arena position `i` of the container.
    pub open spec fn mirrors(self, c: crate::container::Container, i: int) -> bool
        decreases self,
    {
        &&& 0 <= i < c.node_count()
        &&& self.local_model() == c.entries_at(i)
        &&& match self.frozen_parent() {
            Some(fp) => (c.parent_at(i) matches Some(p) && (p as int) < i && fp.mirrors(
                c,
                p as int,
            )),
            None => c.parent_at(i) is None,
        }
    }
}

/// A frozen chain that carries the live chain's entries answers every
/// lookup exactly as the live chain does: freezing after `lock()` loses
/// nothing and invents nothing.
pub proof fn lemma_frozen_matches_chain(
    fz: FrozenStorage,
    c: crate::container::Container,
    i: int,
    k: u64,
)
    requires
        fz.mirrors(c, i),
    ensures
        match c.chain_find(i, k) {
            Some(q) => fz.frozen_find(k) == Some(q.1),
            None => fz.frozen_find(k) is None,
        },
    decreases i,
{
    crate::container::lemma_model_index(c, i);
    if fz.local_model().dom().contains(k) {
        assert(c.entries_at(i).dom().contains(k));
        assert(c.chain_find(i, k) == Some((i, c.entries_at(i)[k])));
    } else {
        assert(!c.entries_at(i).dom().contains(k));
        match fz.frozen_parent() {
            Some(fp) => {
                let p = c.parent_at(i)->0;
                assert(c.chain_find(i, k) == c.chain_find(p as int, k));
                lemma_frozen_matches_chain(fp, c, p as int, k);
            },
            None => {
                assert(c.chain_find(i, k) is None);
            },
        }
    }
}

} // verus!
