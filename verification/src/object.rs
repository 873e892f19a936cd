//! One object: its identity, geometry, place in memory and writeback store.

use vstd::prelude::*;
use vstd::slice::slice_subrange;
use crate::chunk::UfoChunk;
use crate::config::UfoObjectConfig;
use crate::error::UfoError;
use crate::ids::UfoId;
use crate::ufo_core::UfoInstanceMsg;
use crate::writeback::UfoFileWriteback;

verus! {

/// A live object as the engine knows it.
#[derive(Clone, Copy, Debug)]
pub struct UfoObject {
    pub id: UfoId,
    pub config: UfoObjectConfig,
    /// Address of the reservation of `config.true_size` bytes.
    pub base: usize,
    /// Layout of the object's writeback store.
    pub writeback_util: UfoFileWriteback,
}

/// What the holder of an object gets: where the object lies, and where its
/// header and body start.
#[derive(Clone, Copy, Debug)]
pub struct UfoHandle {
    pub id: UfoId,
    /// Address at which the object's reservation starts.
    pub ptr: usize,
    /// Bytes from `ptr` to the user-visible header.
    pub header_offset: usize,
    /// Bytes from `ptr` to the first element.
    pub body_offset: usize,
}

impl UfoHandle {
    /// The handle points into the address space: header and body start at
    /// addresses that exist, the header before the body.
    pub open spec fn wf(&self) -> bool {
        self.header_offset <= self.body_offset && self.ptr + self.body_offset <= usize::MAX
    }

    /// Address of the user-visible header.
    pub fn header_ptr(&self) -> (addr: usize)
        requires
            self.wf(),
        ensures
            addr == self.ptr + self.header_offset,
    {
        self.ptr + self.header_offset
    }

    /// Address of the first element.
    pub fn body_ptr(&self) -> (addr: usize)
        requires
            self.wf(),
        ensures
            addr == self.ptr + self.body_offset,
    {
        self.ptr + self.body_offset
    }

    /// The request that resets the object of this handle.
    pub fn reset(&self) -> (msg: UfoInstanceMsg)
        ensures
            msg == UfoInstanceMsg::Reset(self.id),
    {
        UfoInstanceMsg::Reset(self.id)
    }

    /// The request that frees the object of this handle, which is used up.
    pub fn free(self) -> (msg: UfoInstanceMsg)
        ensures
            msg == UfoInstanceMsg::Free(self.id),
    {
        UfoInstanceMsg::Free(self.id)
    }
}

impl UfoObject {
    /// The geometry is well-formed, the reservation ends inside the address
    /// space, and the writeback store is laid out for this geometry.
    pub open spec fn wf(&self) -> bool {
        &&& self.config.wf()
        &&& self.base + self.config.true_size <= usize::MAX
        &&& self.writeback_util.wf()
        &&& self.writeback_util.chunk_bytes == self.config.load_size()
        &&& self.writeback_util.data_bytes() == self.config.body_bytes()
    }

    /// One past the last address of the reservation.
    pub open spec fn end(&self) -> int {
        self.base + self.config.true_size
    }

    /// The handle to this object: the header ends where the body starts, at
    /// the end of the padded header.
    pub open spec fn spec_handle(&self) -> UfoHandle {
        UfoHandle {
            id: self.id,
            ptr: self.base,
            header_offset: (self.config.header_size_with_padding
                - self.config.header_size) as usize,
            body_offset: self.config.header_size_with_padding,
        }
    }

    /// The handle to this object.
    pub fn handle(&self) -> (h: UfoHandle)
        requires
            self.wf(),
        ensures
            h == self.spec_handle(),
            h.wf(),
    {
        proof {
            crate::math::lemma_up_to_nearest(
                self.config.header_size as int,
                self.config.page_size as int,
            );
            crate::math::lemma_up_to_nearest(
                self.config.body_bytes(),
                self.config.page_size as int,
            );
            assert(self.config.body_bytes() >= 0) by (nonlinear_arith)
                requires
                    self.config.body_bytes() == self.config.stride * self.config.element_ct,
            ;
        }
        UfoHandle {
            id: self.id,
            ptr: self.base,
            header_offset: self.config.header_size_with_padding - self.config.header_size,
            body_offset: self.config.header_size_with_padding,
        }
    }

    /// `chunk`, resident with `live_len` bytes, can be written back: it holds
    /// bytes, starts where the store has a chunk, and covers the bytes that the
    /// store keeps for it.
    pub open spec fn can_write_back(&self, chunk: UfoChunk, live_len: int) -> bool {
        &&& chunk.length > 0
        &&& live_len == chunk.length
        &&& self.writeback_util.is_chunk_start(chunk.offset.spec_offset_from_header())
        &&& self.writeback_util.chunk_len(chunk.offset.spec_offset_from_header()) <= live_len
    }

    /// The bytes of `live` that the store keeps for `chunk`: all but the
    /// padding behind the last element.
    pub open spec fn kept_bytes(&self, chunk: UfoChunk, live: Seq<u8>) -> Seq<u8> {
        live.subrange(
            0,
            self.writeback_util.chunk_len(chunk.offset.spec_offset_from_header()),
        )
    }

    /// Copies the live bytes of `chunk` into the writeback store `region` and
    /// marks the chunk as persisted. It fails, and changes nothing, where the
    /// chunk cannot be written back.
    pub fn writeback(&self, chunk: &UfoChunk, live: &[u8], region: &mut [u8]) -> (done: Result<
        (),
        UfoError,
    >)
        requires
            self.writeback_util.wf(),
            old(region)@.len() == self.writeback_util.total_bytes,
        ensures
            final(region)@.len() == old(region)@.len(),
            done is Ok <==> self.can_write_back(*chunk, live@.len() as int),
            done is Ok ==> final(region)@ == self.writeback_util.spec_persisted(
                old(region)@,
                chunk.offset.spec_offset_from_header(),
                self.kept_bytes(*chunk, live@),
            ),
            done is Err ==> done == Err::<(), UfoError>(UfoError::ChunkNotValid) && final(region)@
                == old(region)@,
    {
        let length: usize = chunk.size();
        if length == 0 || live.len() != length {
            return Err(UfoError::ChunkNotValid);
        }
        let store = &self.writeback_util;
        let off: usize = chunk.offset.offset_from_header();
        let data_bytes: usize = store.total_bytes - store.bitmap_bytes;
        if off >= data_bytes {
            return Err(UfoError::ChunkNotValid);
        }
        let kept: usize = if store.chunk_bytes <= data_bytes - off {
            store.chunk_bytes
        } else {
            data_bytes - off
        };
        if kept > length {
            return Err(UfoError::ChunkNotValid);
        }
        store.persist(region, &chunk.offset, slice_subrange(live, 0, kept))
    }

    /// Forgets what was written back: afterwards the store `region` holds no
    /// chunk of this object.
    pub fn reset(&self, region: &mut [u8])
        requires
            self.writeback_util.wf(),
            old(region)@.len() == self.writeback_util.total_bytes,
        ensures
            final(region)@ == self.writeback_util.spec_cleared(old(region)@),
    {
        self.writeback_util.clear_all(region);
    }
}

} // verus!
