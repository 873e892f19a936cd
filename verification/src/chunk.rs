//! Resident chunks.

use vstd::prelude::*;
use crate::error::UfoError;
use crate::hashing::{blake3_hash, hash_bytes, hash_eq};
use crate::ids::UfoId;
use crate::object::UfoObject;
use crate::offset::UfoOffset;

verus! {

/// One chunk of an object that is, or was, resident in memory.
#[derive(Clone, Copy, Debug)]
pub struct UfoChunk {
    /// The object that the chunk belongs to.
    pub ufo_id: UfoId,
    /// Where in the object the chunk starts.
    pub offset: UfoOffset,
    /// Resident bytes; zero once the chunk has been freed.
    pub length: usize,
    /// Hash of the bytes with which the chunk became resident.
    pub hash: [u8; 32],
}

impl UfoChunk {
    /// This chunk once freed: no bytes, all else as before.
    pub open spec fn spec_freed(self) -> UfoChunk {
        UfoChunk { length: 0, ..self }
    }

    /// Whether bytes with hash `calculated` differ from those the chunk became
    /// resident with.
    pub open spec fn is_dirty(&self, calculated: Seq<u8>) -> bool {
        self.hash@ != calculated
    }

    /// The chunk of object `ufo_id` at `offset` that became resident with
    /// `initial_data`.
    pub fn new(ufo_id: UfoId, offset: UfoOffset, initial_data: &[u8]) -> (chunk: UfoChunk)
        ensures
            chunk.ufo_id == ufo_id,
            chunk.offset == offset,
            chunk.length == initial_data@.len(),
            chunk.hash@ == blake3_hash(initial_data@),
    {
        UfoChunk { ufo_id, offset, length: initial_data.len(), hash: hash_bytes(initial_data) }
    }

    /// Evicts the chunk, whose bytes are now `live` and whose object `obj` has
    /// the writeback store `region`. Where the bytes have changed since the
    /// chunk became resident, they are written back first. It returns the bytes
    /// that were freed, none for a chunk that was freed before. The pages
    /// themselves are released by the caller.
    pub fn free_and_writeback_dirty(
        &mut self,
        obj: &UfoObject,
        live: &[u8],
        region: &mut [u8],
    ) -> (freed: Result<usize, UfoError>)
        requires
            obj.writeback_util.wf(),
            old(region)@.len() == obj.writeback_util.total_bytes,
            live@.len() == old(self).length,
        ensures
            old(self).spec_evicted(
                *obj,
                blake3_hash(live@),
                live@,
                old(region)@,
                *final(self),
                final(region)@,
                freed,
            ),
    {
        if self.length > 0 {
            let calculated_hash: [u8; 32] = hash_bytes(live);
            self.free_with_hash(&calculated_hash, obj, live, region)
        } else {
            Ok(0)
        }
    }

    /// What an eviction does to a chunk and to the store of its object, given
    /// the hash `calculated` of the live bytes:
    /// - a chunk without bytes stays as it is, and nothing is freed;
    /// - a clean chunk is freed, and the store stays as it is;
    /// - a dirty chunk is written back and then freed;
    /// - where a dirty chunk cannot be written back, nothing changes and
    ///   the eviction fails.
    pub open spec fn spec_evicted(
        self,
        obj: UfoObject,
        calculated: Seq<u8>,
        live: Seq<u8>,
        region: Seq<u8>,
        after: UfoChunk,
        region_after: Seq<u8>,
        freed: Result<usize, UfoError>,
    ) -> bool {
        if self.length == 0 {
            freed == Ok::<usize, UfoError>(0) && after == self && region_after == region
        } else if !self.is_dirty(calculated) {
            freed == Ok::<usize, UfoError>(self.length) && after == self.spec_freed()
                && region_after == region
        } else if obj.can_write_back(self, live.len() as int) {
            freed == Ok::<usize, UfoError>(self.length) && after == self.spec_freed()
                && region_after == obj.writeback_util.spec_persisted(
                region,
                self.offset.spec_offset_from_header(),
                obj.kept_bytes(self, live),
            )
        } else {
            freed == Err::<usize, UfoError>(UfoError::ChunkNotValid) && after == self
                && region_after == region
        }
    }

    /// Evicting a chunk that was freed before does nothing: nothing is
    /// written back, and no bytes are freed.
    pub proof fn lemma_freed_chunk_stays(
        self,
        obj: UfoObject,
        calculated: Seq<u8>,
        live: Seq<u8>,
        region: Seq<u8>,
        after: UfoChunk,
        region_after: Seq<u8>,
        freed: Result<usize, UfoError>,
    )
        requires
            self.length == 0,
            self.spec_evicted(obj, calculated, live, region, after, region_after, freed),
        ensures
            freed == Ok::<usize, UfoError>(0),
            after == self,
            region_after == region,
    {
    }

    /// Dirty chunks persist: where a chunk of `obj` is evicted with bytes whose
    /// hash differs from that of its admission, the eviction succeeds, and
    /// afterwards the store marks the chunk and holds the chunk's live bytes,
    /// so that the next fault restores them. Every other chunk of the store is
    /// as before.
    pub proof fn lemma_dirty_persistence(
        self,
        obj: UfoObject,
        calculated: Seq<u8>,
        live: Seq<u8>,
        region: Seq<u8>,
        after: UfoChunk,
        region_after: Seq<u8>,
        freed: Result<usize, UfoError>,
        other: int,
    )
        requires
            obj.wf(),
            obj.owns_chunk(self),
            self.length > 0,
            live.len() == self.length,
            region.len() == obj.writeback_util.total_bytes,
            self.spec_evicted(obj, calculated, live, region, after, region_after, freed),
            obj.writeback_util.is_chunk_start(other),
            other != self.offset.spec_offset_from_header(),
        ensures
            freed == Ok::<usize, UfoError>(self.length),
            after == self.spec_freed(),
            self.is_dirty(calculated) ==> obj.writeback_util.marked(
                region_after,
                self.offset.spec_offset_from_header(),
            ) && obj.writeback_util.data_at(region_after, self.offset.spec_offset_from_header())
                == obj.kept_bytes(self, live),
            !self.is_dirty(calculated) ==> region_after == region,
            obj.writeback_util.marked(region_after, other) == obj.writeback_util.marked(
                region,
                other,
            ),
            obj.writeback_util.data_at(region_after, other) == obj.writeback_util.data_at(
                region,
                other,
            ),
    {
        let store = obj.writeback_util;
        let off = self.offset.spec_offset_from_header();
        obj.lemma_owned_chunk(self);
        let kept = obj.kept_bytes(self, live);
        if self.is_dirty(calculated) {
            store.lemma_persisted_chunk(region, off, kept);
            store.lemma_persisted_other(region, off, kept, other);
        }
    }

    /// The eviction of a resident chunk, once the hash `calculated_hash` of its
    /// live bytes is known.
    pub fn free_with_hash(
        &mut self,
        calculated_hash: &[u8; 32],
        obj: &UfoObject,
        live: &[u8],
        region: &mut [u8],
    ) -> (freed: Result<usize, UfoError>)
        requires
            obj.writeback_util.wf(),
            old(region)@.len() == obj.writeback_util.total_bytes,
            live@.len() == old(self).length,
        ensures
            old(self).spec_evicted(
                *obj,
                calculated_hash@,
                live@,
                old(region)@,
                *final(self),
                final(region)@,
                freed,
            ),
    {
        let length: usize = self.length;
        if length == 0 {
            return Ok(0);
        }
        if !hash_eq(&self.hash, calculated_hash) {
            match obj.writeback(self, live, region) {
                Ok(()) => {},
                Err(e) => {
                    return Err(e);
                },
            }
        }
        self.length = 0;
        Ok(length)
    }

    /// Marks the chunk as freed without writing anything back.
    pub fn mark_freed(&mut self)
        ensures
            *final(self) == old(self).spec_freed(),
    {
        self.length = 0;
    }

    /// The object that the chunk belongs to.
    pub fn ufo_id(&self) -> (id: UfoId)
        ensures
            id == self.ufo_id,
    {
        self.ufo_id
    }

    /// Resident bytes of the chunk: zero once it has been freed.
    pub fn size(&self) -> (bytes: usize)
        ensures
            bytes == self.length,
    {
        self.length
    }
}

} // verus!
