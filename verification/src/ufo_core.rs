//! The state of one engine: the registry of live objects, their address
//! ranges, and the chunk cache. The control plane changes the registry; the
//! fault handler reads it and fills the cache.

use vstd::prelude::*;
use std::collections::HashMap;
use std::sync::Arc;
use segment_map::SegmentMap;
use crate::chunk::UfoChunk;
use crate::chunks::{lemma_total_split, spec_tombstoned, spec_total_size, UfoChunks};
use crate::config::{UfoCoreConfig, UfoObjectConfig};
use crate::error::UfoError;
use crate::fault::UfoFault;
use crate::hashing::{blake3_hash, hash_bytes};
use crate::ids::{
    lemma_unused_id_exists, spec_candidate, spec_probe_distance, surely_unused, UfoId, UfoIdGen,
};
use crate::object::{UfoHandle, UfoObject};
use crate::segments::{
    no_segments, segment_entries, segment_holds, segment_is_free, segments_apart,
    segments_disjoint, segments_get, segments_get_entry, segments_insert, segments_list,
    segments_new, segments_remove,
};
use crate::writeback::UfoFileWriteback;

verus! {

/// The state that the control plane and the fault handler share.
pub struct UfoCoreState {
    object_id_gen: UfoIdGen,
    objects_by_id: HashMap<u64, UfoObject>,
    objects_by_segment: SegmentMap<usize, u64>,
    loaded_chunks: UfoChunks,
}

/// The address range that an object has reserved.
pub open spec fn segment_of(obj: UfoObject) -> (usize, usize) {
    (obj.base, (obj.base + obj.config.true_size) as usize)
}

/// Every chunk of `chunks` that holds bytes is a chunk of a live object.
pub open spec fn chunks_owned(chunks: Seq<UfoChunk>, objects: Map<u64, UfoObject>) -> bool {
    forall|i: int|
        0 <= i < chunks.len() && (#[trigger] chunks[i]).length > 0 ==> objects.contains_key(
            chunks[i].ufo_id.0,
        ) && objects[chunks[i].ufo_id.0].owns_chunk(chunks[i])
}

/// The object that `config` describes, reserved at `base` under `id`.
pub open spec fn spec_new_object(id: u64, config: UfoObjectConfig, base: usize) -> UfoObject {
    UfoObject {
        id: UfoId(id),
        config,
        base,
        writeback_util: UfoFileWriteback {
            total_bytes: UfoFileWriteback::spec_total_bytes(config) as usize,
            bitmap_bytes: UfoFileWriteback::spec_bitmap_bytes(config) as usize,
            chunk_bytes: config.load_size() as usize,
        },
    }
}

impl UfoCoreState {
    /// The live objects by identifier.
    pub closed spec fn objects(&self) -> Map<u64, UfoObject> {
        self.objects_by_id@
    }

    /// The reserved address ranges, each with the identifier of its object.
    pub closed spec fn segments(&self) -> Map<(usize, usize), u64> {
        segment_entries(self.objects_by_segment)
    }

    /// The chunks in the cache, oldest first.
    pub closed spec fn chunks(&self) -> Seq<UfoChunk> {
        self.loaded_chunks.chunks()
    }

    /// The bytes that the cache accounts for.
    pub closed spec fn used(&self) -> usize {
        self.loaded_chunks.used()
    }

    /// The engine's configuration.
    pub closed spec fn config(&self) -> UfoCoreConfig {
        self.loaded_chunks.config()
    }

    /// The identifier that was handed out last.
    pub closed spec fn last_id(&self) -> u64 {
        self.object_id_gen.last()
    }

    /// The invariant of the engine:
    /// - the watermarks are in order, the cache accounts for exactly the bytes
    ///   of its chunks, and for no more than the high watermark;
    /// - every live object is well-formed, is registered under its own
    ///   identifier, and its reservation is a segment that maps to it;
    /// - the segments are those of the live objects, and no two overlap;
    /// - every chunk that holds bytes is a chunk of a live object.
    pub open spec fn wf(&self) -> bool {
        &&& self.config().valid()
        &&& self.used() == spec_total_size(self.chunks())
        &&& self.used() <= self.config().high_watermark
        &&& self.objects().dom().finite()
        &&& forall|id: u64| #[trigger]
            self.objects().contains_key(id) ==> {
                &&& self.objects()[id].wf()
                &&& self.objects()[id].id == UfoId(id)
                &&& self.segments().contains_key(segment_of(self.objects()[id]))
                &&& self.segments()[segment_of(self.objects()[id])] == id
            }
        &&& segments_disjoint(self.segments())
        &&& forall|s: (usize, usize)| #[trigger]
            self.segments().contains_key(s) ==> {
                &&& self.objects().contains_key(self.segments()[s])
                &&& segment_of(self.objects()[self.segments()[s]]) == s
            }
        &&& chunks_owned(self.chunks(), self.objects())
    }

    /// Registry and identifiers of `self` are those of `other`.
    pub open spec fn same_registry(&self, other: &Self) -> bool {
        &&& self.objects() == other.objects()
        &&& self.segments() == other.segments()
        &&& self.last_id() == other.last_id()
        &&& self.config() == other.config()
    }

    /// The cache of `self` is that of `other`.
    pub open spec fn same_cache(&self, other: &Self) -> bool {
        &&& self.chunks() == other.chunks()
        &&& self.used() == other.used()
    }

    /// The reservations of two live objects share no address.
    pub proof fn lemma_reservations_disjoint(&self, a: u64, b: u64)
        requires
            self.wf(),
            self.objects().contains_key(a),
            self.objects().contains_key(b),
            a != b,
        ensures
            self.objects()[a].end() <= self.objects()[b].base || self.objects()[b].end()
                <= self.objects()[a].base,
            forall|addr: usize|
                !(self.objects()[a].holds(addr) && self.objects()[b].holds(addr)),
    {
        let sa = segment_of(self.objects()[a]);
        let sb = segment_of(self.objects()[b]);
        assert(self.segments().contains_key(sa));
        assert(self.segments().contains_key(sb));
        assert(sa != sb);
        assert(segments_apart(sa, sb));
    }

    /// The cache keeps to the watermarks: it never accounts for more than the
    /// high watermark, and what it accounts for is what its chunks hold.
    pub proof fn lemma_watermark_compliance(&self)
        requires
            self.wf(),
        ensures
            self.used() <= self.config().high_watermark,
            self.used() == spec_total_size(self.chunks()),
    {
    }

    /// An eviction pass reaches the low watermark, and takes no more chunks
    /// than that needs: before the last chunk left, the cache was above the low
    /// watermark.
    pub proof fn lemma_eviction_pass(&self, to_load: usize, after: &Self, evicted: Seq<UfoChunk>)
        requires
            self.wf(),
            to_load + self.config().low_watermark < self.config().high_watermark,
            to_load + self.used() > self.config().high_watermark,
            self.spec_made_room(to_load, after, evicted),
        ensures
            after.used() <= self.config().low_watermark,
            0 < evicted.len() <= self.chunks().len(),
            spec_total_size(self.chunks().skip(evicted.len() - 1))
                > self.config().low_watermark,
    {
        let low = self.config().low_watermark as int;
        UfoChunks::lemma_evict_ct(self.chunks(), low);
        lemma_total_split(self.chunks(), evicted.len() as int);
        assert(self.chunks().skip(0) =~= self.chunks());
    }

    /// Resetting an object twice is resetting it once: the second reset
    /// answers as the first and changes nothing. After a reset no chunk of the
    /// object holds bytes.
    pub proof fn lemma_reset_idempotent(
        &self,
        id: UfoId,
        once: &Self,
        twice: &Self,
        first: Result<UfoObject, UfoError>,
        second: Result<UfoObject, UfoError>,
    )
        requires
            self.spec_was_reset(id, once, first),
            once.spec_was_reset(id, twice, second),
        ensures
            second == first,
            twice.same_registry(once),
            twice.same_cache(once),
            first is Ok ==> forall|i: int|
                0 <= i < once.chunks().len() && (#[trigger] once.chunks()[i]).ufo_id == id
                    ==> once.chunks()[i].length == 0,
    {
        crate::chunks::lemma_tombstoned_idempotent(self.chunks(), id);
    }

    /// A freed object is gone: it has left the registry and the segments, none
    /// of its chunks holds bytes, a fault in its old reservation finds no
    /// object, and every other object is as before.
    pub proof fn lemma_freed_is_gone(&self, id: UfoId, after: &Self, ufo: UfoObject, addr: usize)
        requires
            self.wf(),
            self.spec_was_freed(id, after, Ok(ufo)),
        ensures
            !after.objects().contains_key(id.0),
            !after.segments().contains_key(segment_of(ufo)),
            forall|i: int|
                0 <= i < after.chunks().len() && (#[trigger] after.chunks()[i]).ufo_id == id
                    ==> after.chunks()[i].length == 0,
            ufo.holds(addr) ==> after.spec_located(addr, Err(UfoError::UnknownAddress)),
            forall|k: u64|
                k != id.0 && self.objects().contains_key(k) ==> #[trigger] after.objects().contains_key(
                    k,
                ) && after.objects()[k] == self.objects()[k],
    {
        if ufo.holds(addr) {
            assert forall|k: u64| #[trigger] after.objects().contains_key(k) implies !after.objects()[k].holds(
                addr,
            ) by {
                self.lemma_reservations_disjoint(k, id.0);
            }
        }
    }

    /// The state of an engine without objects. It fails where the watermarks
    /// are not in order.
    pub fn new(config: UfoCoreConfig) -> (state: Result<UfoCoreState, UfoError>)
        ensures
            match state {
                Ok(s) => {
                    &&& config.valid()
                    &&& s.wf()
                    &&& s.config() == config
                    &&& s.objects() == Map::<u64, UfoObject>::empty()
                    &&& s.segments() == no_segments()
                    &&& s.chunks() == Seq::<UfoChunk>::empty()
                    &&& s.used() == 0
                    &&& s.last_id() == 0
                },
                Err(e) => e == UfoError::WatermarkInversion && !config.valid(),
            },
    {
        if !config.is_valid() {
            return Err(UfoError::WatermarkInversion);
        }
        let config = Arc::new(config);
        let state = UfoCoreState {
            object_id_gen: UfoIdGen::new(),
            loaded_chunks: UfoChunks::new(Arc::clone(&config)),
            objects_by_id: HashMap::new(),
            objects_by_segment: segments_new(),
        };
        proof {
            state.loaded_chunks.lemma_wf();
        }
        Ok(state)
    }

    /// The bytes that the cache accounts for.
    pub fn used_memory(&self) -> (bytes: usize)
        ensures
            bytes == self.used(),
    {
        self.loaded_chunks.used_memory()
    }

    /// Number of live objects.
    pub fn object_ct(&self) -> (n: usize)
        ensures
            n == self.objects().dom().len(),
    {
        self.objects_by_id.len()
    }

    /// Number of chunks in the cache, freed ones included.
    pub fn chunk_ct(&self) -> (n: usize)
        ensures
            n == self.chunks().len(),
    {
        self.loaded_chunks.len()
    }

    /// The live object with identifier `id`.
    pub fn get_ufo(&self, id: UfoId) -> (ufo: Option<UfoObject>)
        ensures
            match ufo {
                Some(o) => self.objects().contains_key(id.0) && o == self.objects()[id.0],
                None => !self.objects().contains_key(id.0),
            },
    {
        match self.objects_by_id.get(&id.0) {
            Some(o) => Some(*o),
            None => None,
        }
    }

    /// The live object whose reservation holds `addr`.
    pub fn get_ufo_by_address(&self, addr: usize) -> (ufo: Option<UfoObject>)
        requires
            self.wf(),
        ensures
            match ufo {
                Some(o) => self.objects().contains_key(o.id.0) && o == self.objects()[o.id.0]
                    && o.holds(addr),
                None => forall|id: u64| #[trigger]
                    self.objects().contains_key(id) ==> !self.objects()[id].holds(addr),
            },
    {
        match segments_get(&self.objects_by_segment, addr) {
            None => {
                assert forall|id: u64| #[trigger]
                    self.objects().contains_key(id) implies !self.objects()[id].holds(addr) by {
                    let seg = segment_of(self.objects()[id]);
                    assert(self.objects()[id].wf());
                    assert(self.segments().contains_key(seg));
                    assert(!segment_holds(seg, addr));
                }
                None
            },
            Some(id) => {
                let ghost seg: (usize, usize) = choose|s: (usize, usize)|
                    self.segments().contains_key(s) && segment_holds(s, addr)
                        && self.segments()[s] == id;
                assert(self.segments().contains_key(seg));
                match self.objects_by_id.get(&id) {
                    Some(o) => Some(*o),
                    None => {
                        assert(false);
                        None
                    },
                }
            },
        }
    }

    /// What `locate_fault` answers for a fault at `addr`: the chunk to load
    /// where a live object holds the address behind its header, and else why
    /// there is none.
    pub open spec fn spec_located(&self, addr: usize, found: Result<UfoFault, UfoError>) -> bool {
        match found {
            Ok(fault) => {
                &&& self.objects().contains_key(fault.ufo_id.0)
                &&& self.objects()[fault.ufo_id.0].in_body(addr)
                &&& self.objects()[fault.ufo_id.0].is_fault_at(fault, addr)
            },
            Err(e) => {
                ||| {
                    &&& e == UfoError::UnknownAddress
                    &&& forall|id: u64| #[trigger]
                        self.objects().contains_key(id) ==> !self.objects()[id].holds(addr)
                }
                ||| {
                    &&& e == UfoError::HeaderFault
                    &&& exists|id: u64| #[trigger]
                        self.objects().contains_key(id) && self.objects()[id].holds(addr)
                            && !self.objects()[id].in_body(addr)
                }
            },
        }
    }

    /// What a fault at `addr` asks for. A fault at an address that no live
    /// object has reserved, or inside a header, is an error.
    pub fn locate_fault(&self, addr: usize) -> (found: Result<UfoFault, UfoError>)
        requires
            self.wf(),
        ensures
            self.spec_located(addr, found),
            found matches Ok(fault) ==> fault.start < fault.pop_end && 0 < fault.copy_size
                <= fault.load_size,
    {
        // if we get a fault for an address we don't have, there is nothing to load
        match self.get_ufo_by_address(addr) {
            None => Err(UfoError::UnknownAddress),
            Some(ufo) => {
                if addr - ufo.base < ufo.config.header_size_with_padding {
                    Err(UfoError::HeaderFault)
                } else {
                    Ok(ufo.fault_window(addr))
                }
            },
        }
    }

    /// What `ensure_capcity` does for `to_load` bytes: where they would lift
    /// the cache above the high watermark, the oldest chunks leave until the
    /// low watermark is reached; else nothing changes. `evicted` are the chunks
    /// that left, oldest first, each as it was.
    pub open spec fn spec_made_room(
        &self,
        to_load: usize,
        after: &Self,
        evicted: Seq<UfoChunk>,
    ) -> bool {
        &&& after.same_registry(self)
        &&& evicted.len() == if to_load + self.used() > self.config().high_watermark {
            UfoChunks::spec_evict_ct(self.chunks(), self.config().low_watermark as int)
        } else {
            0
        }
        &&& evicted == self.chunks().take(evicted.len() as int)
        &&& after.chunks() == self.chunks().skip(evicted.len() as int)
        &&& after.used() == self.used() - spec_total_size(evicted)
        &&& after.used() + to_load <= self.config().high_watermark
        &&& chunks_owned(evicted, self.objects())
    }

    /// Makes room for `to_load` more bytes below the high watermark, and hands
    /// out the chunks that had to leave: the caller evicts each.
    pub fn ensure_capcity(&mut self, to_load: usize) -> (evicted: Vec<UfoChunk>)
        requires
            old(self).wf(),
            to_load + old(self).config().low_watermark < old(self).config().high_watermark,
        ensures
            final(self).wf(),
            old(self).spec_made_room(to_load, final(self), evicted@),
    {
        proof {
            self.loaded_chunks.lemma_wf();
        }
        let high: usize = self.loaded_chunks.high_watermark();
        if to_load > high - self.loaded_chunks.used_memory() {
            let evicted: Vec<UfoChunk> = self.loaded_chunks.free_until_low_water_mark();
            proof {
                self.loaded_chunks.lemma_wf();
                let n: int = evicted@.len() as int;
                UfoChunks::lemma_evict_ct(
                    old(self).chunks(),
                    old(self).config().low_watermark as int,
                );
                lemma_total_split(old(self).chunks(), n);
                assert forall|i: int|
                    0 <= i < evicted@.len() implies #[trigger] evicted@[i] == old(
                    self,
                ).chunks()[i] by {}
                assert forall|i: int|
                    0 <= i < self.chunks().len() implies #[trigger] self.chunks()[i] == old(
                    self,
                ).chunks()[i + n] by {}
            }
            evicted
        } else {
            let evicted: Vec<UfoChunk> = Vec::new();
            proof {
                assert(old(self).chunks().take(0) =~= evicted@);
                assert(old(self).chunks().skip(0) =~= old(self).chunks());
            }
            evicted
        }
    }

    /// The first half of serving a fault at `addr`: finds what to load and
    /// makes room for it. It fails, and changes nothing, where `locate_fault`
    /// fails, and where a chunk of the object does not fit between the
    /// watermarks.
    pub fn begin_fault(&mut self, addr: usize) -> (begun: Result<
        (UfoFault, Vec<UfoChunk>),
        UfoError,
    >)
        requires
            old(self).wf(),
        ensures
            final(self).wf(),
            match begun {
                Ok((fault, evicted)) => {
                    &&& old(self).spec_located(addr, Ok(fault))
                    &&& fault.load_size + old(self).config().low_watermark < old(
                        self,
                    ).config().high_watermark
                    &&& old(self).spec_made_room(fault.load_size, final(self), evicted@)
                },
                Err(e) => {
                    &&& final(self).same_registry(old(self))
                    &&& final(self).same_cache(old(self))
                    &&& if e == UfoError::ChunkTooLarge {
                        exists|fault: UfoFault|
                            old(self).spec_located(addr, Ok(fault)) && #[trigger] fault.load_size
                                + old(self).config().low_watermark >= old(
                                self,
                            ).config().high_watermark
                    } else {
                        old(self).spec_located(addr, Err(e))
                    }
                },
            },
    {
        let fault: UfoFault = match self.locate_fault(addr) {
            Ok(f) => f,
            Err(e) => {
                return Err(e);
            },
        };
        let high: usize = self.loaded_chunks.high_watermark();
        let low: usize = self.loaded_chunks.low_watermark();
        if fault.load_size >= high - low {
            return Err(UfoError::ChunkTooLarge);
        }
        // Before we perform the load ensure that there is capacity
        let evicted: Vec<UfoChunk> = self.ensure_capcity(fault.load_size);
        Ok((fault, evicted))
    }

    /// What `record_chunk` does at `addr` with `length` bytes of hash `hash`:
    /// it admits the chunk that holds `addr` as the newest, where a live object
    /// holds the address behind its header, `length` is that chunk's size, and
    /// the chunk fits below the high watermark.
    pub open spec fn spec_recorded(
        &self,
        addr: usize,
        length: usize,
        hash: Seq<u8>,
        after: &Self,
        recorded: Result<UfoChunk, UfoError>,
    ) -> bool {
        match recorded {
            Ok(chunk) => {
                &&& exists|fault: UfoFault|
                    self.spec_located(addr, Ok(fault)) && #[trigger] fault.copy_size == length
                        && chunk.ufo_id == fault.ufo_id && chunk.offset == fault.populate_offset
                &&& chunk.length == length
                &&& chunk.hash@ == hash
                &&& self.used() + length <= self.config().high_watermark
                &&& after.same_registry(self)
                &&& after.chunks() == self.chunks().push(chunk)
                &&& after.used() == self.used() + length
            },
            Err(e) => {
                &&& after.same_registry(self)
                &&& after.same_cache(self)
                &&& if e == UfoError::ChunkNotValid {
                    exists|fault: UfoFault|
                        self.spec_located(addr, Ok(fault)) && #[trigger] fault.copy_size
                            != length
                } else if e == UfoError::ChunkTooLarge {
                    &&& exists|fault: UfoFault|
                        self.spec_located(addr, Ok(fault)) && #[trigger] fault.copy_size
                            == length
                    &&& self.used() + length > self.config().high_watermark
                } else {
                    self.spec_located(addr, Err(e))
                }
            },
        }
    }

    /// Admits the chunk that holds `addr`, which became resident with `length`
    /// bytes of hash `hash`.
    pub fn record_chunk(&mut self, addr: usize, length: usize, hash: [u8; 32]) -> (recorded:
        Result<UfoChunk, UfoError>)
        requires
            old(self).wf(),
        ensures
            final(self).wf(),
            old(self).spec_recorded(addr, length, hash@, final(self), recorded),
    {
        let fault: UfoFault = match self.locate_fault(addr) {
            Ok(f) => f,
            Err(e) => {
                return Err(e);
            },
        };
        if length != fault.copy_size {
            return Err(UfoError::ChunkNotValid);
        }
        proof {
            self.loaded_chunks.lemma_wf();
        }
        let high: usize = self.loaded_chunks.high_watermark();
        if length > high - self.loaded_chunks.used_memory() {
            return Err(UfoError::ChunkTooLarge);
        }
        let chunk = UfoChunk {
            ufo_id: fault.ufo_id,
            offset: fault.populate_offset,
            length,
            hash,
        };
        proof {
            self.objects()[fault.ufo_id.0].lemma_chunk_of_addr(addr);
        }
        self.loaded_chunks.add(chunk);
        proof {
            self.loaded_chunks.lemma_wf();
        }
        Ok(chunk)
    }

    /// The second half of serving a fault at `addr`: admits the chunk that
    /// holds the address, which became resident with the bytes `data`.
    pub fn finish_fault(&mut self, addr: usize, data: &[u8]) -> (recorded: Result<
        UfoChunk,
        UfoError,
    >)
        requires
            old(self).wf(),
        ensures
            final(self).wf(),
            old(self).spec_recorded(
                addr,
                data@.len() as usize,
                blake3_hash(data@),
                final(self),
                recorded,
            ),
    {
        let hash: [u8; 32] = hash_bytes(data);
        self.record_chunk(addr, data.len(), hash)
    }
}

/// A request to the control plane.
#[derive(Clone, Copy, Debug)]
pub enum UfoInstanceMsg {
    /// Free every object and stop.
    Shutdown,
    /// Register an object of this geometry, reserved at this address.
    Allocate(UfoObjectConfig, usize),
    /// Forget the resident and the persisted chunks of an object.
    Reset(UfoId),
    /// Take an object out of the registry.
    Free(UfoId),
}

/// What the control plane did with a request.
#[derive(Debug)]
pub enum UfoReply {
    /// Every object was freed; these are the objects that were live.
    Shutdown(Vec<UfoObject>),
    /// The object was registered; this is its handle.
    Allocated(UfoHandle),
    /// The chunks of this object were dropped from the cache.
    Reset(UfoObject),
    /// This object left the registry.
    Freed(UfoObject),
    /// The request failed and nothing changed.
    Failed(UfoError),
}

/// `s` with every chunk freed.
pub open spec fn spec_all_freed(s: Seq<UfoChunk>) -> Seq<UfoChunk> {
    Seq::new(s.len(), |i: int| s[i].spec_freed())
}

/// Chunks without bytes take no room.
pub proof fn lemma_total_of_freed(s: Seq<UfoChunk>)
    requires
        forall|i: int| 0 <= i < s.len() ==> (#[trigger] s[i]).length == 0,
    ensures
        spec_total_size(s) == 0,
    decreases s.len(),
{
    if s.len() > 0 {
        assert forall|i: int| 0 <= i < s.drop_last().len() implies (#[trigger] s.drop_last()[i]).length
            == 0 by {
            assert(s.drop_last()[i] == s[i]);
        }
        lemma_total_of_freed(s.drop_last());
    }
}

impl UfoCoreState {
    /// Why an object of geometry `config` cannot be registered at `base`, if it
    /// cannot: its reservation or its writeback store does not fit in the
    /// address space, or the reservation overlaps that of a live object.
    pub open spec fn spec_alloc_error(&self, config: UfoObjectConfig, base: usize) -> Option<
        UfoError,
    > {
        if base + config.true_size > usize::MAX {
            Some(UfoError::AddressOverflow)
        } else if UfoFileWriteback::spec_total_bytes(config) > usize::MAX {
            Some(UfoError::WritebackTooLarge)
        } else if !segment_is_free(
            self.segments(),
            (base, (base + config.true_size) as usize),
        ) {
            Some(UfoError::SegmentOverlap)
        } else {
            None
        }
    }

    /// What `allocate` does: where nothing stands against it, the object is
    /// registered under the first identifier behind the last one that no live
    /// object has, and its reservation becomes a segment; else nothing changes.
    pub open spec fn spec_allocated(
        &self,
        config: UfoObjectConfig,
        base: usize,
        after: &Self,
        allocated: Result<UfoHandle, UfoError>,
    ) -> bool {
        match allocated {
            Ok(handle) => {
                let id = handle.id.0;
                let obj = spec_new_object(id, config, base);
                &&& self.spec_alloc_error(config, base) is None
                &&& !self.objects().contains_key(id)
                &&& forall|j: int|
                    1 <= j < spec_probe_distance(self.last_id(), id)
                        ==> self.objects().contains_key(
                        #[trigger] spec_candidate(self.last_id(), j),
                    )
                &&& handle == obj.spec_handle()
                &&& handle.wf()
                &&& after.objects() == self.objects().insert(id, obj)
                &&& after.segments() == self.segments().insert(segment_of(obj), id)
                &&& after.last_id() == id
                &&& after.config() == self.config()
                &&& after.same_cache(self)
            },
            Err(e) => {
                &&& self.spec_alloc_error(config, base) == Some(e)
                &&& after.same_registry(self)
                &&& after.same_cache(self)
            },
        }
    }

    /// Registers an object of geometry `config` whose reservation starts at
    /// `base`, and hands out its handle.
    pub fn allocate(&mut self, config: UfoObjectConfig, base: usize) -> (allocated: Result<
        UfoHandle,
        UfoError,
    >)
        requires
            old(self).wf(),
            config.wf(),
        ensures
            final(self).wf(),
            old(self).spec_allocated(config, base, final(self), allocated),
    {
        let true_size: usize = config.true_size;
        let end: usize = match base.checked_add(true_size) {
            Some(e) => e,
            None => {
                return Err(UfoError::AddressOverflow);
            },
        };
        let writeback: UfoFileWriteback = match UfoFileWriteback::new(&config) {
            Ok(w) => w,
            Err(e) => {
                return Err(e);
            },
        };
        proof {
            config.lemma_true_size();
        }

        // the reservation must not meet that of a live object
        let taken: Vec<(usize, usize, u64)> = segments_list(&self.objects_by_segment);
        let mut i: usize = 0;
        while i < taken.len()
            invariant
                i <= taken@.len(),
                base < end,
                end == base + config.true_size,
                UfoFileWriteback::spec_total_bytes(config) <= usize::MAX,
                *self == *old(self),
                self.wf(),
                forall|j: int|
                    0 <= j < i ==> segments_apart((#[trigger] taken@[j].0, taken@[j].1), (base, end)),
                forall|j: int|
                    0 <= j < taken@.len() ==> self.segments().contains_key(
                        (#[trigger] taken@[j].0, taken@[j].1),
                    ),
            decreases taken@.len() - i,
        {
            let entry: (usize, usize, u64) = taken[i];
            if !(entry.1 <= base || end <= entry.0) {
                proof {
                    let s: (usize, usize) = (taken@[i as int].0, taken@[i as int].1);
                    assert(self.segments().contains_key(s));
                    assert(!segments_apart(s, (base, end)));
                    assert(!segment_is_free(self.segments(), (base, end)));
                }
                return Err(UfoError::SegmentOverlap);
            }
            i = i + 1;
        }
        assert(segment_is_free(self.segments(), (base, end))) by {
            assert forall|s: (usize, usize)| self.segments().contains_key(s) implies segments_apart(
                s,
                (base, end),
            ) by {
                let j = choose|j: int|
                    0 <= j < taken@.len() && (#[trigger] taken@[j].0, taken@[j].1) == s;
                assert(segments_apart((taken@[j].0, taken@[j].1), (base, end)));
            }
        }

        let id_map = &self.objects_by_id;
        let used_ct: usize = id_map.len();
        let is_unused = |k: &UfoId| -> (unused: bool)
            ensures
                unused == !id_map@.contains_key(k.0),
            { !id_map.contains_key(&k.0) };
        proof {
            lemma_unused_id_exists(id_map@.dom());
            let free: u64 = choose|k: u64| !id_map@.dom().contains(k);
            assert(surely_unused(is_unused, UfoId(free)));
        }
        let id: UfoId = self.object_id_gen.next(is_unused);
        assert(!old(self).objects().contains_key(id.0));
        assert forall|j: int|
            1 <= j < spec_probe_distance(old(self).last_id(), id.0) implies old(
            self,
        ).objects().contains_key(#[trigger] spec_candidate(old(self).last_id(), j)) by {
            let k = UfoId(spec_candidate(old(self).last_id(), j));
            assert(call_ensures(is_unused, (&k,), false));
        }

        let ufo = UfoObject { id, config, base, writeback_util: writeback };
        assert(ufo == spec_new_object(id.0, config, base));
        assert(ufo.wf()) by {
            assert(writeback.data_bytes() == config.body_bytes());
        }
        let handle: UfoHandle = ufo.handle();

        self.objects_by_id.insert(id.0, ufo);
        segments_insert(&mut self.objects_by_segment, base, end, id.0);

        proof {
            let seg = (base, end);
            assert(segment_of(ufo) == seg);
            assert(!old(self).segments().contains_key(seg)) by {
                if old(self).segments().contains_key(seg) {
                    assert(segments_apart(seg, seg));
                }
            }
            assert forall|k: u64| #[trigger] self.objects().contains_key(k) implies {
                &&& self.objects()[k].wf()
                &&& self.objects()[k].id == UfoId(k)
                &&& self.segments().contains_key(segment_of(self.objects()[k]))
                &&& self.segments()[segment_of(self.objects()[k])] == k
            } by {
                if k != id.0 {
                    assert(old(self).objects().contains_key(k));
                    assert(old(self).segments().contains_key(segment_of(old(self).objects()[k])));
                }
            }
            assert forall|s: (usize, usize)| #[trigger] self.segments().contains_key(s) implies {
                &&& self.objects().contains_key(self.segments()[s])
                &&& segment_of(self.objects()[self.segments()[s]]) == s
            } by {
                if s != seg {
                    assert(old(self).segments().contains_key(s));
                }
            }
            assert(segments_disjoint(self.segments())) by {
                assert forall|s: (usize, usize), t: (usize, usize)|
                    self.segments().contains_key(s) && self.segments().contains_key(t) && s
                        != t implies segments_apart(s, t) by {
                    if s == seg {
                        assert(old(self).segments().contains_key(t));
                    } else if t == seg {
                        assert(old(self).segments().contains_key(s));
                    } else {
                        assert(old(self).segments().contains_key(s));
                        assert(old(self).segments().contains_key(t));
                    }
                }
                assert forall|s: (usize, usize)| self.segments().contains_key(s) implies s.0
                    < s.1 by {
                    if s != seg {
                        assert(old(self).segments().contains_key(s));
                    }
                }
            }
            assert(chunks_owned(self.chunks(), self.objects())) by {
                assert forall|k: int|
                    0 <= k < self.chunks().len() && (#[trigger] self.chunks()[k]).length
                        > 0 implies self.objects().contains_key(self.chunks()[k].ufo_id.0)
                    && self.objects()[self.chunks()[k].ufo_id.0].owns_chunk(
                    self.chunks()[k],
                ) by {
                    assert(old(self).objects().contains_key(old(self).chunks()[k].ufo_id.0));
                }
            }
        }
        Ok(handle)
    }

    /// What `reset` does: the chunks of a live object leave the cache as
    /// freed, and the object is handed out; for an unknown object nothing
    /// changes.
    pub open spec fn spec_was_reset(
        &self,
        id: UfoId,
        after: &Self,
        reset: Result<UfoObject, UfoError>,
    ) -> bool {
        match reset {
            Ok(ufo) => {
                &&& self.objects().contains_key(id.0)
                &&& ufo == self.objects()[id.0]
                &&& after.same_registry(self)
                &&& after.chunks() == spec_tombstoned(self.chunks(), id)
                &&& after.used() == spec_total_size(after.chunks())
            },
            Err(e) => {
                &&& e == UfoError::UnknownUfo
                &&& !self.objects().contains_key(id.0)
                &&& after.same_registry(self)
                &&& after.same_cache(self)
            },
        }
    }

    /// Resets the object `ufo_id`: its resident chunks are dropped from the
    /// cache without being written back. The caller releases the object's
    /// pages and clears its writeback store, for which it gets the object.
    pub fn reset(&mut self, ufo_id: UfoId) -> (reset: Result<UfoObject, UfoError>)
        requires
            old(self).wf(),
        ensures
            final(self).wf(),
            old(self).spec_was_reset(ufo_id, final(self), reset),
    {
        let ufo: UfoObject = match self.objects_by_id.get(&ufo_id.0) {
            Some(o) => *o,
            None => {
                return Err(UfoError::UnknownUfo);
            },
        };
        proof {
            self.loaded_chunks.lemma_wf();
        }

        self.loaded_chunks.drop_ufo_chunks(ufo_id);

        proof {
            self.loaded_chunks.lemma_wf();
            assert forall|k: int|
                0 <= k < self.chunks().len() && (#[trigger] self.chunks()[k]).length
                    > 0 implies self.objects().contains_key(self.chunks()[k].ufo_id.0)
                && self.objects()[self.chunks()[k].ufo_id.0].owns_chunk(self.chunks()[k]) by {
                assert(self.chunks()[k] == old(self).chunks()[k]);
            }
        }
        Ok(ufo)
    }

    /// What `free` does: a live object leaves the registry with its segment,
    /// its chunks leave the cache as freed, and the object is handed out; for an
    /// unknown object nothing changes.
    pub open spec fn spec_was_freed(
        &self,
        id: UfoId,
        after: &Self,
        freed: Result<UfoObject, UfoError>,
    ) -> bool {
        match freed {
            Ok(ufo) => {
                &&& self.objects().contains_key(id.0)
                &&& ufo == self.objects()[id.0]
                &&& after.objects() == self.objects().remove(id.0)
                &&& after.segments() == self.segments().remove(segment_of(ufo))
                &&& after.last_id() == self.last_id()
                &&& after.config() == self.config()
                &&& after.chunks() == spec_tombstoned(self.chunks(), id)
                &&& after.used() == spec_total_size(after.chunks())
            },
            Err(e) => {
                &&& e == UfoError::UnknownUfo
                &&& !self.objects().contains_key(id.0)
                &&& after.same_registry(self)
                &&& after.same_cache(self)
            },
        }
    }

    /// Frees the object `ufo_id`. The caller gives the reservation back, for
    /// which it gets the object.
    pub fn free(&mut self, ufo_id: UfoId) -> (freed: Result<UfoObject, UfoError>)
        requires
            old(self).wf(),
        ensures
            final(self).wf(),
            old(self).spec_was_freed(ufo_id, final(self), freed),
    {
        let ufo: UfoObject = match self.objects_by_id.remove(&ufo_id.0) {
            Some(o) => o,
            None => {
                assert(self.objects() =~= old(self).objects());
                return Err(UfoError::UnknownUfo);
            },
        };
        let ghost seg: (usize, usize) = segment_of(ufo);
        proof {
            self.loaded_chunks.lemma_wf();
            assert(old(self).objects().contains_key(ufo_id.0));
            assert(old(self).segments().contains_key(seg));
            assert(segment_holds(seg, ufo.base));
        }

        let mmap_base: usize = ufo.base;
        match segments_get_entry(&self.objects_by_segment, mmap_base) {
            Some(entry) => {
                assert((entry.0, entry.1) == seg) by {
                    if (entry.0, entry.1) != seg {
                        assert(segments_apart((entry.0, entry.1), seg));
                    }
                }
                segments_remove(&mut self.objects_by_segment, entry.0, entry.1);
            },
            None => {
                assert(false);
            },
        }

        self.loaded_chunks.drop_ufo_chunks(ufo_id);

        proof {
            self.loaded_chunks.lemma_wf();
            assert forall|k: u64| #[trigger] self.objects().contains_key(k) implies {
                &&& self.objects()[k].wf()
                &&& self.objects()[k].id == UfoId(k)
                &&& self.segments().contains_key(segment_of(self.objects()[k]))
                &&& self.segments()[segment_of(self.objects()[k])] == k
            } by {
                assert(old(self).objects().contains_key(k));
                assert(old(self).segments().contains_key(segment_of(old(self).objects()[k])));
            }
            assert forall|s: (usize, usize)| #[trigger] self.segments().contains_key(s) implies {
                &&& self.objects().contains_key(self.segments()[s])
                &&& segment_of(self.objects()[self.segments()[s]]) == s
            } by {
                assert(old(self).segments().contains_key(s));
            }
            assert(segments_disjoint(self.segments())) by {
                assert forall|s: (usize, usize), t: (usize, usize)|
                    self.segments().contains_key(s) && self.segments().contains_key(t) && s
                        != t implies segments_apart(s, t) by {
                    assert(old(self).segments().contains_key(s));
                    assert(old(self).segments().contains_key(t));
                }
                assert forall|s: (usize, usize)| self.segments().contains_key(s) implies s.0
                    < s.1 by {
                    assert(old(self).segments().contains_key(s));
                }
            }
            assert forall|k: int|
                0 <= k < self.chunks().len() && (#[trigger] self.chunks()[k]).length
                    > 0 implies self.objects().contains_key(self.chunks()[k].ufo_id.0)
                && self.objects()[self.chunks()[k].ufo_id.0].owns_chunk(self.chunks()[k]) by {
                assert(self.chunks()[k] == old(self).chunks()[k]);
                assert(old(self).objects().contains_key(old(self).chunks()[k].ufo_id.0));
            }
        }
        Ok(ufo)
    }

    /// What `shutdown` does: no object and no segment is left, every chunk in
    /// the cache is freed, and `freed` are the objects that were live, in the
    /// order of their addresses.
    pub open spec fn spec_shut_down(&self, after: &Self, freed: Seq<UfoObject>) -> bool {
        &&& after.objects() == Map::<u64, UfoObject>::empty()
        &&& after.segments() == no_segments()
        &&& after.last_id() == self.last_id()
        &&& after.config() == self.config()
        &&& after.chunks() == spec_all_freed(self.chunks())
        &&& after.used() == 0
        &&& forall|k: int|
            0 <= k < freed.len() ==> self.objects().contains_key((#[trigger] freed[k]).id.0)
                && self.objects()[freed[k].id.0] == freed[k]
        &&& forall|id: u64|
            self.objects().contains_key(id) ==> exists|k: int|
                0 <= k < freed.len() && (#[trigger] freed[k]).id.0 == id
        &&& forall|k: int, l: int|
            0 <= k < l < freed.len() ==> (#[trigger] freed[k]).end() <= (#[trigger] freed[l]).base
    }

    /// Frees every live object, in the order of their addresses, and hands them
    /// out: the caller gives each reservation back.
    pub fn shutdown(&mut self) -> (freed: Vec<UfoObject>)
        requires
            old(self).wf(),
        ensures
            final(self).wf(),
            old(self).spec_shut_down(final(self), freed@),
    {
        let live: Vec<(usize, usize, u64)> = segments_list(&self.objects_by_segment);
        let mut freed: Vec<UfoObject> = Vec::new();
        let mut i: usize = 0;
        while i < live.len()
            invariant
                i <= live@.len(),
                old(self).wf(),
                self.wf(),
                self.last_id() == old(self).last_id(),
                self.config() == old(self).config(),
                forall|j: int|
                    0 <= j < live@.len() ==> old(self).segments().contains_key(
                        (#[trigger] live@[j].0, live@[j].1),
                    ) && old(self).segments()[(live@[j].0, live@[j].1)] == live@[j].2,
                forall|s: (usize, usize)|
                    old(self).segments().contains_key(s) ==> exists|j: int|
                        0 <= j < live@.len() && (#[trigger] live@[j].0, live@[j].1) == s,
                forall|s: (usize, usize)| #[trigger]
                    self.segments().contains_key(s) ==> {
                        &&& old(self).segments().contains_key(s)
                        &&& self.segments()[s] == old(self).segments()[s]
                        &&& forall|j: int| 0 <= j < i ==> (#[trigger] live@[j].0, live@[j].1) != s
                    },
                forall|id: u64| #[trigger]
                    self.objects().contains_key(id) ==> old(self).objects().contains_key(id)
                        && self.objects()[id] == old(self).objects()[id],
                self.chunks().len() == old(self).chunks().len(),
                forall|k: int|
                    0 <= k < self.chunks().len() ==> (#[trigger] self.chunks()[k]) == old(
                        self,
                    ).chunks()[k] || self.chunks()[k] == old(self).chunks()[k].spec_freed(),
                forall|k: int|
                    0 <= k < freed@.len() ==> old(self).objects().contains_key(
                        (#[trigger] freed@[k]).id.0,
                    ) && old(self).objects()[freed@[k].id.0] == freed@[k]
                        && !self.objects().contains_key(freed@[k].id.0),
                forall|id: u64|
                    old(self).objects().contains_key(id) ==> self.objects().contains_key(id)
                        || exists|k: int| 0 <= k < freed@.len() && (#[trigger] freed@[k]).id.0 == id,
                forall|k: int, l: int|
                    0 <= k < l < freed@.len() ==> (#[trigger] freed@[k]).end() <= (
                    #[trigger] freed@[l]).base,
                forall|j: int, l: int|
                    0 <= j < l < live@.len() ==> (#[trigger] live@[j]).1 <= (
                    #[trigger] live@[l]).0,
                forall|k: int, j: int|
                    0 <= k < freed@.len() && i <= j < live@.len() ==> (
                    #[trigger] freed@[k]).end() <= (#[trigger] live@[j]).0,
            decreases live@.len() - i,
        {
            let entry: (usize, usize, u64) = live[i];
            let ghost before = *self;
            let ghost seg: (usize, usize) = (entry.0, entry.1);
            let ghost freed_before: Seq<UfoObject> = freed@;
            match self.free(UfoId(entry.2)) {
                Ok(ufo) => {
                    proof {
                        assert(old(self).objects().contains_key(entry.2));
                        assert(old(self).segments().contains_key(seg));
                        assert(segment_of(ufo) == seg);
                        assert(ufo.wf());
                        assert(live@[i as int] == entry);
                    }
                    freed.push(ufo);
                    proof {
                        assert forall|id: u64|
                            old(self).objects().contains_key(id) implies self.objects().contains_key(
                            id,
                        ) || exists|k: int|
                            0 <= k < freed@.len() && (#[trigger] freed@[k]).id.0 == id by {
                            if id == entry.2 {
                                assert(freed@[freed@.len() - 1].id.0 == id);
                            } else if before.objects().contains_key(id) {
                            } else {
                                let k = choose|k: int|
                                    0 <= k < freed_before.len() && (
                                    #[trigger] freed_before[k]).id.0 == id;
                                assert(freed@[k].id.0 == id);
                            }
                        }
                    }
                },
                Err(_) => {
                    proof {
                        if self.segments().contains_key(seg) {
                            assert(old(self).segments().contains_key(seg));
                            assert(self.objects().contains_key(self.segments()[seg]));
                        }
                    }
                },
            }
            i = i + 1;
        }
        proof {
            assert(self.segments() =~= no_segments()) by {
                assert forall|s: (usize, usize)| !self.segments().contains_key(s) by {
                    if self.segments().contains_key(s) {
                        let j = choose|j: int|
                            0 <= j < live@.len() && (#[trigger] live@[j].0, live@[j].1) == s;
                        assert((live@[j].0, live@[j].1) != s);
                    }
                }
            }
            assert(self.objects() =~= Map::<u64, UfoObject>::empty()) by {
                assert forall|id: u64| !self.objects().contains_key(id) by {
                    if self.objects().contains_key(id) {
                        assert(self.segments().contains_key(segment_of(self.objects()[id])));
                    }
                }
            }
            assert(self.chunks() =~= spec_all_freed(old(self).chunks())) by {
                assert forall|k: int| 0 <= k < self.chunks().len() implies self.chunks()[k]
                    == old(self).chunks()[k].spec_freed() by {
                    if (#[trigger] self.chunks()[k]).length > 0 {
                        assert(self.objects().contains_key(self.chunks()[k].ufo_id.0));
                    }
                }
            }
            lemma_total_of_freed(self.chunks());
        }
        freed
    }

    /// What the control plane does with `msg`.
    pub open spec fn spec_handled(&self, msg: UfoInstanceMsg, after: &Self, reply: UfoReply) -> bool {
        match msg {
            UfoInstanceMsg::Shutdown => reply matches UfoReply::Shutdown(freed)
                && self.spec_shut_down(after, freed@),
            UfoInstanceMsg::Allocate(config, base) => match reply {
                UfoReply::Allocated(handle) => self.spec_allocated(config, base, after, Ok(handle)),
                UfoReply::Failed(e) => self.spec_allocated(config, base, after, Err(e)),
                _ => false,
            },
            UfoInstanceMsg::Reset(id) => match reply {
                UfoReply::Reset(ufo) => self.spec_was_reset(id, after, Ok(ufo)),
                UfoReply::Failed(e) => self.spec_was_reset(id, after, Err(e)),
                _ => false,
            },
            UfoInstanceMsg::Free(id) => match reply {
                UfoReply::Freed(ufo) => self.spec_was_freed(id, after, Ok(ufo)),
                UfoReply::Failed(e) => self.spec_was_freed(id, after, Err(e)),
                _ => false,
            },
        }
    }

    /// One step of the control plane: does what `msg` asks and says what came of
    /// it. After a shutdown no further request is to be handled.
    pub fn handle_msg(&mut self, msg: UfoInstanceMsg) -> (reply: UfoReply)
        requires
            old(self).wf(),
            msg matches UfoInstanceMsg::Allocate(config, _) ==> config.wf(),
        ensures
            final(self).wf(),
            old(self).spec_handled(msg, final(self), reply),
    {
        match msg {
            UfoInstanceMsg::Allocate(cfg, base) => match self.allocate(cfg, base) {
                Ok(handle) => UfoReply::Allocated(handle),
                Err(e) => UfoReply::Failed(e),
            },
            UfoInstanceMsg::Reset(ufo_id) => match self.reset(ufo_id) {
                Ok(ufo) => UfoReply::Reset(ufo),
                Err(e) => UfoReply::Failed(e),
            },
            UfoInstanceMsg::Free(ufo_id) => match self.free(ufo_id) {
                Ok(ufo) => UfoReply::Freed(ufo),
                Err(e) => UfoReply::Failed(e),
            },
            UfoInstanceMsg::Shutdown => UfoReply::Shutdown(self.shutdown()),
        }
    }
}

} // verus!
