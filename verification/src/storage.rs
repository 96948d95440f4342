//! Durable storage primitives: a persisted counter cell and key-ordered
//! persisted maps, each backed by its own partition of one durable memory
//! space.
//!
//! The two types wrap `ic_stable_structures` structures. Verus sees them
//! only through the names `counter_value` and `map_entries` and through
//! the contracts of the methods below, which state what the wrapped
//! crate's source shows.

use vstd::prelude::*;
use ic_stable_structures::memory_manager::{MemoryId, MemoryManager};
use ic_stable_structures::memory_manager::VirtualMemory;
use ic_stable_structures::{DefaultMemoryImpl, StableBTreeMap, StableCell};

verus! {

/// A persisted `u64` cell: the identifier allocator's backing.
#[verifier::external_body]
pub struct StableCounter {
    inner: StableCell<u64, VirtualMemory<DefaultMemoryImpl>>,
}

/// A persisted map from `u64` keys to encoded records, ordered by key.
#[verifier::external_body]
pub struct StableMap {
    inner: StableBTreeMap<u64, Vec<u8>, VirtualMemory<DefaultMemoryImpl>>,
}

/// The value a counter cell holds.
pub uninterp spec fn counter_value(c: StableCounter) -> u64;

/// The entries a persisted map holds.
pub uninterp spec fn map_entries(m: StableMap) -> Map<u64, Seq<u8>>;

/// Every listed pair stands in the map.
pub open spec fn entries_sound(es: Seq<(u64, Vec<u8>)>, m: Map<u64, Seq<u8>>) -> bool {
    forall|i: int|
        #![trigger es[i]]
        0 <= i < es.len() ==> m.contains_key(es[i].0) && es[i].1@ == m[es[i].0]
}

/// The listed keys are strictly ascending.
pub open spec fn entries_sorted(es: Seq<(u64, Vec<u8>)>) -> bool {
    forall|i: int, j: int|
        #![trigger es[i], es[j]]
        0 <= i < j < es.len() ==> es[i].0 < es[j].0
}

/// Every key of the map is listed.
pub open spec fn entries_complete(es: Seq<(u64, Vec<u8>)>, m: Map<u64, Seq<u8>>) -> bool {
    forall|k: u64|
        #![trigger m.contains_key(k)]
        m.contains_key(k) ==> exists|i: int|
            #![trigger es[i]]
            0 <= i < es.len() && es[i].0 == k
}

/// The listing holds exactly the map's entries, in ascending key order.
pub open spec fn entries_of(es: Seq<(u64, Vec<u8>)>, m: Map<u64, Seq<u8>>) -> bool {
    &&& entries_sound(es, m)
    &&& entries_sorted(es)
    &&& entries_complete(es, m)
}

impl StableCounter {
    /// Relies on `ic_stable_structures::Cell::get`: it returns the value
    /// the cell holds.
    #[verifier::external_body]
    pub fn get(&self) -> (r: u64)
        ensures
            r == counter_value(*self),
    {
        *self.inner.get()
    }

    /// Relies on `ic_stable_structures::Cell::set`: afterwards the cell
    /// holds the given value, and the prior value is returned. A failed
    /// write of the backing memory aborts the call, as the host treats a
    /// failed durable write as fatal.
    #[verifier::external_body]
    pub fn set(&mut self, value: u64) -> (prev: u64)
        ensures
            counter_value(*final(self)) == value,
            prev == counter_value(*old(self)),
    {
        self.inner.set(value)
    }
}

impl StableMap {
    /// Relies on `ic_stable_structures::BTreeMap::get`: it returns the
    /// value stored under the key, or nothing when the key is absent.
    #[verifier::external_body]
    pub fn get(&self, key: u64) -> (r: Option<Vec<u8>>)
        ensures
            r matches Some(v) ==> map_entries(*self).contains_key(key) && v@ == map_entries(
                *self,
            )[key],
            r is None ==> !map_entries(*self).contains_key(key),
    {
        self.inner.get(&key)
    }

    /// Relies on `ic_stable_structures::BTreeMap::insert`: it stores the
    /// value under the key unconditionally and returns the prior value,
    /// if one was present.
    #[verifier::external_body]
    pub fn insert(&mut self, key: u64, value: Vec<u8>) -> (prev: Option<Vec<u8>>)
        ensures
            map_entries(*final(self)) == map_entries(*old(self)).insert(key, value@),
            prev matches Some(v) ==> map_entries(*old(self)).contains_key(key) && v@ == map_entries(
                *old(self),
            )[key],
            prev is None ==> !map_entries(*old(self)).contains_key(key),
    {
        self.inner.insert(key, value)
    }

    /// Relies on `ic_stable_structures::BTreeMap::remove`: it removes the
    /// entry under the key, returning its value, and does nothing when the
    /// key is absent.
    #[verifier::external_body]
    pub fn remove(&mut self, key: u64) -> (prev: Option<Vec<u8>>)
        ensures
            map_entries(*final(self)) == map_entries(*old(self)).remove(key),
            prev matches Some(v) ==> map_entries(*old(self)).contains_key(key) && v@ == map_entries(
                *old(self),
            )[key],
            prev is None ==> !map_entries(*old(self)).contains_key(key),
    {
        self.inner.remove(&key)
    }

    /// Relies on `ic_stable_structures::BTreeMap::iter`: it walks exactly
    /// the stored entries, in ascending key order.
    #[verifier::external_body]
    pub fn entries(&self) -> (r: Vec<(u64, Vec<u8>)>)
        ensures
            entries_of(r@, map_entries(*self)),
    {
        self.inner.iter().map(|e| e.into_pair()).collect()
    }
}

/// A zeroed counter and four maps with no entries.
pub open spec fn fresh_backing(
    r: (StableCounter, StableMap, StableMap, StableMap, StableMap),
) -> bool {
    &&& counter_value(r.0) == 0
    &&& map_entries(r.1) == Map::<u64, Seq<u8>>::empty()
    &&& map_entries(r.2) == Map::<u64, Seq<u8>>::empty()
    &&& map_entries(r.3) == Map::<u64, Seq<u8>>::empty()
    &&& map_entries(r.4) == Map::<u64, Seq<u8>>::empty()
}

/// Relies on `ic_stable_structures`: `MemoryManager::init` over a fresh
/// process-local memory hands out partitions holding no prior data,
/// `Cell::init` on an empty partition holds the given default, and
/// `StableBTreeMap::init` on an empty partition holds no entries. The
/// counter sits in partition 0 and the maps in partitions 1 to 4; on a
/// host whose default memory is durable, the same calls restore whatever
/// those partitions already hold, and the emptiness stated here is that
/// of the first start.
#[verifier::external_body]
pub fn fresh_partitions() -> (r: (StableCounter, StableMap, StableMap, StableMap, StableMap))
    ensures
        fresh_backing(r),
{
    let mm = MemoryManager::init(DefaultMemoryImpl::default());
    (
        StableCounter { inner: StableCell::init(mm.get(MemoryId::new(0)), 0) },
        StableMap { inner: StableBTreeMap::init(mm.get(MemoryId::new(1))) },
        StableMap { inner: StableBTreeMap::init(mm.get(MemoryId::new(2))) },
        StableMap { inner: StableBTreeMap::init(mm.get(MemoryId::new(3))) },
        StableMap { inner: StableBTreeMap::init(mm.get(MemoryId::new(4))) },
    )
}

} // verus!
