//! The durable ordered key-value engine. Records live in stable B-tree maps
//! from `ic_stable_structures`, one isolated virtual-memory region per
//! repository, plus one stable cell for the identifier counter. Each call the
//! library makes into that crate stands behind a trusted wrapper here; the
//! contents of a region and the value of the counter are named by
//! uninterpreted functions the wrappers' contracts share.

use ic_stable_structures::memory_manager::{MemoryId, MemoryManager, VirtualMemory};
use ic_stable_structures::{Cell, DefaultMemoryImpl, StableBTreeMap};
use vstd::prelude::*;

use crate::codec::{parse_note, parse_tag, parse_version};
use crate::types::{no_dup_u64, MAX_RECORD_SIZE};

verus! {

/// One isolated region of the engine: a durable ordered map from integer
/// keys to serialized records.
#[verifier::external_body]
pub struct Region {
    map: StableBTreeMap<u64, Vec<u8>, VirtualMemory<DefaultMemoryImpl>>,
}

/// The persisted identifier counter.
#[verifier::external_body]
pub struct Counter {
    cell: Cell<u64, VirtualMemory<DefaultMemoryImpl>>,
}

/// The records a region holds, keyed by record key.
pub uninterp spec fn region_bytes(r: Region) -> Map<u64, Seq<u8>>;

/// The value the counter holds.
pub uninterp spec fn counter_value(c: Counter) -> u64;

/// The engine's pieces as loaded from the backing memory: the counter and
/// one region per repository, all carved out of one managed memory.
pub struct StorageParts {
    pub counter: Counter,
    pub notes: Region,
    pub tags: Region,
    pub versions: Region,
}

/// Every note record in the region is the canonical encoding of a note keyed
/// by its own id, the id was issued by the allocator (so lies between one
/// and the counter), the record is within the size bound, and the note's tag
/// list holds no duplicates.
pub open spec fn notes_region_consistent(bytes: Map<u64, Seq<u8>>, counter: u64) -> bool {
    &&& bytes.dom().finite()
    &&& forall|k: u64| #[trigger]
        bytes.dom().contains(k) ==> {
            let p = parse_note(bytes[k]);
            &&& p is Some
            &&& (p->0).id == k
            &&& no_dup_u64((p->0).tag_ids)
            &&& 1 <= k <= counter
            &&& bytes[k].len() <= MAX_RECORD_SIZE
        }
}

/// Every tag record in the region is the canonical encoding of a tag keyed
/// by its own allocator-issued id, within the size bound.
pub open spec fn tags_region_consistent(bytes: Map<u64, Seq<u8>>, counter: u64) -> bool {
    &&& bytes.dom().finite()
    &&& forall|k: u64| #[trigger]
        bytes.dom().contains(k) ==> {
            let p = parse_tag(bytes[k]);
            &&& p is Some
            &&& (p->0).id == k
            &&& 1 <= k <= counter
            &&& bytes[k].len() <= MAX_RECORD_SIZE
        }
}

/// Every version record in the region is the canonical encoding of a version
/// keyed by its own allocator-issued id, within the size bound.
pub open spec fn versions_region_consistent(bytes: Map<u64, Seq<u8>>, counter: u64) -> bool {
    &&& bytes.dom().finite()
    &&& forall|k: u64| #[trigger]
        bytes.dom().contains(k) ==> {
            let p = parse_version(bytes[k]);
            &&& p is Some
            &&& (p->0).id == k
            &&& 1 <= k <= counter
            &&& bytes[k].len() <= MAX_RECORD_SIZE
        }
}

/// The storage as a whole is consistent: each region holds only records this
/// library's codec produced, keyed by ids the loaded counter accounts for.
pub open spec fn storage_consistent(parts: StorageParts) -> bool {
    &&& notes_region_consistent(region_bytes(parts.notes), counter_value(parts.counter))
    &&& tags_region_consistent(region_bytes(parts.tags), counter_value(parts.counter))
    &&& versions_region_consistent(region_bytes(parts.versions), counter_value(parts.counter))
}

/// Relies on MemoryManager::init, Cell::init and StableBTreeMap::init over
/// DefaultMemoryImpl::default(): distinct memory ids give regions that never
/// touch each other; a memory never written before loads as counter zero and
/// empty maps, and a memory that already holds data loads exactly the
/// persisted counter and records back. The contract therefore promises only
/// consistency of whatever was loaded, taking on trust that this backing
/// memory is written by nothing but this library — every store operation
/// here is verified to preserve `storage_consistent`, a never-written memory
/// satisfies it trivially, and the engine persists state exactly. One region
/// id between the tag and version regions is deliberately skipped, so the
/// persisted layout keeps its established region numbering.
#[verifier::external_body]
pub(crate) fn open_storage() -> (parts: StorageParts)
    ensures
        storage_consistent(parts),
{
    let mm = MemoryManager::init(DefaultMemoryImpl::default());
    StorageParts {
        counter: Counter { cell: Cell::init(mm.get(MemoryId::new(0)), 0) },
        notes: Region { map: StableBTreeMap::init(mm.get(MemoryId::new(1))) },
        tags: Region { map: StableBTreeMap::init(mm.get(MemoryId::new(2))) },
        versions: Region { map: StableBTreeMap::init(mm.get(MemoryId::new(4))) },
    }
}

/// Relies on Cell::get: returns the value the cell holds.
#[verifier::external_body]
pub(crate) fn counter_get(c: &Counter) -> (v: u64)
    ensures
        v == counter_value(*c),
{
    *c.cell.get()
}

/// Relies on Cell::set: durably replaces the cell's value. An eight-byte
/// value always fits the cell's memory, so the write cannot fail or panic.
#[verifier::external_body]
pub(crate) fn counter_set(c: &mut Counter, v: u64)
    ensures
        counter_value(*final(c)) == v,
    no_unwind
{
    c.cell.set(v);
}

/// Relies on StableBTreeMap::get: returns the record stored under the key,
/// if there is one.
#[verifier::external_body]
pub(crate) fn region_get(r: &Region, key: u64) -> (res: Option<Vec<u8>>)
    ensures
        match res {
            Some(v) => region_bytes(*r).dom().contains(key) && v@ == region_bytes(*r)[key],
            None => !region_bytes(*r).dom().contains(key),
        },
{
    r.map.get(&key)
}

/// Relies on StableBTreeMap::contains_key: whether a record is stored under
/// the key.
#[verifier::external_body]
pub(crate) fn region_contains(r: &Region, key: u64) -> (res: bool)
    ensures
        res == region_bytes(*r).dom().contains(key),
{
    r.map.contains_key(&key)
}

/// Relies on StableBTreeMap::insert: stores the record under the key and
/// returns the record previously stored there, if any.
#[verifier::external_body]
pub(crate) fn region_insert(r: &mut Region, key: u64, value: Vec<u8>) -> (prev: Option<Vec<u8>>)
    ensures
        region_bytes(*final(r)) == region_bytes(*old(r)).insert(key, value@),
        match prev {
            Some(v) => region_bytes(*old(r)).dom().contains(key) && v@ == region_bytes(*old(r))[key],
            None => !region_bytes(*old(r)).dom().contains(key),
        },
    no_unwind
{
    r.map.insert(key, value)
}

/// Relies on StableBTreeMap::remove: removes the record stored under the key
/// and returns it, if there was one.
#[verifier::external_body]
pub(crate) fn region_remove(r: &mut Region, key: u64) -> (prev: Option<Vec<u8>>)
    ensures
        region_bytes(*final(r)) == region_bytes(*old(r)).remove(key),
        match prev {
            Some(v) => region_bytes(*old(r)).dom().contains(key) && v@ == region_bytes(*old(r))[key],
            None => !region_bytes(*old(r)).dom().contains(key),
        },
    no_unwind
{
    r.map.remove(&key)
}

/// Relies on StableBTreeMap::iter and LazyEntry::into_pair: the iterator
/// visits every entry of the map exactly once, in ascending key order.
#[verifier::external_body]
pub(crate) fn region_entries(r: &Region) -> (entries: Vec<(u64, Vec<u8>)>)
    ensures
        forall|i: int|
            0 <= i < entries@.len() ==> region_bytes(*r).contains_pair(
                #[trigger] entries@[i].0,
                entries@[i].1@,
            ),
        forall|k: u64|
            region_bytes(*r).dom().contains(k) ==> exists|i: int|
                0 <= i < entries@.len() && #[trigger] entries@[i].0 == k,
        forall|i: int, j: int| 0 <= i < j < entries@.len() ==> entries@[i].0 < entries@[j].0,
{
    let mut out = Vec::new();
    for e in r.map.iter() {
        out.push(e.into_pair());
    }
    out
}

} // verus!

