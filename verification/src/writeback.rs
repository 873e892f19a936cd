//! The writeback store of one object: where dirty chunks go on eviction.
//!
//! The store is one region of bytes. It starts with a bitmap of one bit per
//! chunk, padded to whole pages; the bytes of the object's body follow. Bit
//! `k` says that the chunk that starts `k` chunk sizes into the body has been
//! persisted.

use vstd::prelude::*;
use vstd::slice::slice_subrange;
use vstd::arithmetic::div_mod::*;
use crate::config::UfoObjectConfig;
use crate::error::UfoError;
use crate::math::{checked_up_to_nearest, div_ceil, lemma_div_ceil, spec_up_to_nearest};
use crate::offset::UfoOffset;

verus! {

/// Layout of the writeback store of one object.
#[derive(Clone, Copy, Debug)]
pub struct UfoFileWriteback {
    /// Bytes of the whole region: bitmap and data.
    pub total_bytes: usize,
    /// Bytes of the bitmap at the start of the region.
    pub bitmap_bytes: usize,
    /// Bytes per chunk.
    pub chunk_bytes: usize,
}

/// `x / y` rounded up.
pub open spec fn spec_div_ceil(x: int, y: int) -> int {
    x / y + if x % y == 0 {
        0int
    } else {
        1int
    }
}

/// The bit of chunk `k` within its byte of the bitmap.
pub open spec fn spec_mask(k: int) -> u8 {
    1u8 << ((k % 8) as u8)
}

/// Whether the bitmap at the start of `region` has the bit of chunk `k` set.
pub open spec fn spec_bit(region: Seq<u8>, k: int) -> bool {
    region[k / 8] & spec_mask(k) != 0
}

proof fn lemma_set_bit(b: u8, r: u8, s: u8)
    by (bit_vector)
    requires
        r < 8,
        s < 8,
    ensures
        ((b | (1u8 << r)) & (1u8 << s) != 0) <==> (r == s || (b & (1u8 << s)) != 0),
{
}

proof fn lemma_zero_has_no_bit(s: u8)
    by (bit_vector)
    ensures
        0u8 & s == 0,
{
}

impl UfoFileWriteback {
    /// Bytes of the data that follows the bitmap.
    pub open spec fn data_bytes(&self) -> int {
        self.total_bytes - self.bitmap_bytes
    }

    /// Number of chunks that the data is made of; the last one may be short.
    pub open spec fn chunk_ct(&self) -> int {
        spec_div_ceil(self.data_bytes(), self.chunk_bytes as int)
    }

    /// Chunks have a size, and the bitmap has a bit for each of them.
    pub open spec fn wf(&self) -> bool {
        &&& self.chunk_bytes > 0
        &&& self.bitmap_bytes <= self.total_bytes
        &&& self.chunk_ct() <= self.bitmap_bytes * 8
    }

    /// Bytes of the bitmap for an object of geometry `cfg`: one bit per chunk,
    /// rounded up to whole bytes and then to whole pages.
    pub open spec fn spec_bitmap_bytes(cfg: UfoObjectConfig) -> int {
        spec_up_to_nearest(
            spec_div_ceil(
                spec_div_ceil(cfg.element_ct as int, cfg.elements_loaded_at_once as int),
                8,
            ),
            cfg.page_size as int,
        )
    }

    /// Bytes of the whole store for an object of geometry `cfg`.
    pub open spec fn spec_total_bytes(cfg: UfoObjectConfig) -> int {
        Self::spec_bitmap_bytes(cfg) + cfg.body_bytes()
    }

    /// `off` bytes into the data a chunk starts.
    pub open spec fn is_chunk_start(&self, off: int) -> bool {
        0 <= off < self.data_bytes() && off % (self.chunk_bytes as int) == 0
    }

    /// Bytes of the chunk that starts `off` bytes into the data: a whole chunk,
    /// or what is left of the data.
    pub open spec fn chunk_len(&self, off: int) -> int {
        if self.chunk_bytes <= self.data_bytes() - off {
            self.chunk_bytes as int
        } else {
            self.data_bytes() - off
        }
    }

    /// Whether `region` marks the chunk at `off` as persisted.
    pub open spec fn marked(&self, region: Seq<u8>, off: int) -> bool {
        spec_bit(region, off / (self.chunk_bytes as int))
    }

    /// The bytes that `region` holds for the chunk at `off`.
    pub open spec fn data_at(&self, region: Seq<u8>, off: int) -> Seq<u8> {
        region.subrange(
            self.bitmap_bytes + off,
            self.bitmap_bytes + off + self.chunk_len(off),
        )
    }

    /// `region` after `bytes` were persisted as the chunk at `off`: the bytes
    /// stand in the chunk's place, its bit is set, all else is as before.
    pub open spec fn spec_persisted(&self, region: Seq<u8>, off: int, bytes: Seq<u8>) -> Seq<u8> {
        let start = self.bitmap_bytes + off;
        let k = off / (self.chunk_bytes as int);
        Seq::new(
            region.len(),
            |i: int|
                if start <= i < start + bytes.len() {
                    bytes[i - start]
                } else if i == k / 8 {
                    region[i] | spec_mask(k)
                } else {
                    region[i]
                },
        )
    }

    /// `region` with every bit of the bitmap cleared and the data as before.
    pub open spec fn spec_cleared(&self, region: Seq<u8>) -> Seq<u8> {
        Seq::new(
            region.len(),
            |i: int|
                if i < self.bitmap_bytes {
                    0u8
                } else {
                    region[i]
                },
        )
    }

    /// Every chunk start has its bit inside the bitmap, and its bytes inside
    /// the data.
    pub proof fn lemma_chunk_in_bounds(&self, off: int)
        requires
            self.wf(),
            self.is_chunk_start(off),
        ensures
            0 <= off / (self.chunk_bytes as int),
            (off / (self.chunk_bytes as int)) / 8 < self.bitmap_bytes,
            0 <= (off / (self.chunk_bytes as int)) % 8 < 8,
            0 < self.chunk_len(off) <= self.chunk_bytes,
            self.bitmap_bytes + off + self.chunk_len(off) <= self.total_bytes,
    {
        let c = self.chunk_bytes as int;
        let d = self.data_bytes();
        let k = off / c;
        lemma_fundamental_div_mod(off, c);
        lemma_fundamental_div_mod(d, c);
        lemma_div_pos_is_pos(off, c);
        lemma_div_is_ordered(off, d, c);
        // k < chunk_ct
        if d % c == 0 {
            assert(k < d / c) by (nonlinear_arith)
                requires
                    off == c * k,
                    d == c * (d / c),
                    off < d,
                    c > 0,
            ;
        }
        assert(k < self.chunk_ct());
    }

    /// Two different chunk starts lie at least a chunk apart and have
    /// different bits.
    pub proof fn lemma_chunks_apart(&self, off1: int, off2: int)
        requires
            self.wf(),
            self.is_chunk_start(off1),
            self.is_chunk_start(off2),
            off1 < off2,
        ensures
            off1 + self.chunk_bytes <= off2,
            off1 / (self.chunk_bytes as int) < off2 / (self.chunk_bytes as int),
    {
        let c = self.chunk_bytes as int;
        lemma_fundamental_div_mod(off1, c);
        lemma_fundamental_div_mod(off2, c);
        let k1 = off1 / c;
        let k2 = off2 / c;
        assert(k1 < k2 && c * k1 + c <= c * k2) by (nonlinear_arith)
            requires
                off1 == c * k1,
                off2 == c * k2,
                off1 < off2,
                c > 0,
        ;
    }

    /// Persisting a chunk marks it and stores its bytes.
    pub proof fn lemma_persisted_chunk(&self, region: Seq<u8>, off: int, bytes: Seq<u8>)
        requires
            self.wf(),
            region.len() == self.total_bytes,
            self.is_chunk_start(off),
            bytes.len() == self.chunk_len(off),
        ensures
            self.spec_persisted(region, off, bytes).len() == region.len(),
            self.marked(self.spec_persisted(region, off, bytes), off),
            self.data_at(self.spec_persisted(region, off, bytes), off) == bytes,
    {
        self.lemma_chunk_in_bounds(off);
        let after = self.spec_persisted(region, off, bytes);
        let k = off / (self.chunk_bytes as int);
        let r = (k % 8) as u8;
        lemma_set_bit(region[k / 8], r, r);
        assert(after[k / 8] == region[k / 8] | spec_mask(k));
        assert(self.data_at(after, off) =~= bytes);
    }

    /// Persisting a chunk leaves every other chunk as it was: neither its mark
    /// nor its bytes change.
    pub proof fn lemma_persisted_other(&self, region: Seq<u8>, off: int, bytes: Seq<u8>, other: int)
        requires
            self.wf(),
            region.len() == self.total_bytes,
            self.is_chunk_start(off),
            bytes.len() == self.chunk_len(off),
            self.is_chunk_start(other),
            other != off,
        ensures
            self.marked(self.spec_persisted(region, off, bytes), other) == self.marked(
                region,
                other,
            ),
            self.data_at(self.spec_persisted(region, off, bytes), other) == self.data_at(
                region,
                other,
            ),
    {
        self.lemma_chunk_in_bounds(off);
        self.lemma_chunk_in_bounds(other);
        if off < other {
            self.lemma_chunks_apart(off, other);
        } else {
            self.lemma_chunks_apart(other, off);
        }
        let after = self.spec_persisted(region, off, bytes);
        let k = off / (self.chunk_bytes as int);
        let j = other / (self.chunk_bytes as int);
        if j / 8 == k / 8 {
            assert(j % 8 != k % 8);
            lemma_set_bit(region[k / 8], (k % 8) as u8, (j % 8) as u8);
        }
        assert(self.data_at(after, other) =~= self.data_at(region, other));
    }

    /// After clearing, no chunk is marked; the data is as before; clearing
    /// again changes nothing.
    pub proof fn lemma_cleared(&self, region: Seq<u8>, off: int)
        requires
            self.wf(),
            region.len() == self.total_bytes,
            self.is_chunk_start(off),
        ensures
            !self.marked(self.spec_cleared(region), off),
            self.data_at(self.spec_cleared(region), off) == self.data_at(region, off),
            self.spec_cleared(self.spec_cleared(region)) == self.spec_cleared(region),
    {
        self.lemma_chunk_in_bounds(off);
        let k = off / (self.chunk_bytes as int);
        lemma_zero_has_no_bit(spec_mask(k));
        assert(self.data_at(self.spec_cleared(region), off) =~= self.data_at(region, off));
        assert(self.spec_cleared(self.spec_cleared(region)) =~= self.spec_cleared(region));
    }

    /// The layout of the store for an object of geometry `cfg`. It fails where
    /// the store would not fit in the address space.
    pub fn new(cfg: &UfoObjectConfig) -> (store: Result<UfoFileWriteback, UfoError>)
        requires
            cfg.wf(),
        ensures
            match store {
                Ok(w) => {
                    &&& w.wf()
                    &&& w.chunk_bytes == cfg.load_size()
                    &&& w.bitmap_bytes == Self::spec_bitmap_bytes(*cfg)
                    &&& w.total_bytes == Self::spec_total_bytes(*cfg)
                },
                Err(e) => e == UfoError::WritebackTooLarge && Self::spec_total_bytes(*cfg)
                    > usize::MAX,
            },
    {
        let page_size: usize = cfg.page_size;

        let chunk_ct: usize = div_ceil(cfg.element_ct, cfg.elements_loaded_at_once);
        proof {
            lemma_div_ceil(cfg.element_ct as int, cfg.elements_loaded_at_once as int);
            lemma_div_ceil(chunk_ct as int, 8);
        }
        assert(chunk_ct * cfg.elements_loaded_at_once >= cfg.element_ct);

        let bitmap_bytes: usize = div_ceil(chunk_ct, 8);  /*8 bits per byte*/
        // Now we want to get the bitmap bytes up to the next multiple of the page size
        let bitmap_bytes: usize = match checked_up_to_nearest(bitmap_bytes, page_size) {
            Some(b) => b,
            None => {
                assert(cfg.body_bytes() >= 0) by (nonlinear_arith)
                    requires
                        cfg.body_bytes() == cfg.stride * cfg.element_ct,
                ;
                return Err(UfoError::WritebackTooLarge);
            },
        };
        proof {
            crate::math::lemma_up_to_nearest(
                spec_div_ceil(chunk_ct as int, 8),
                page_size as int,
            );
        }
        assert(bitmap_bytes * 8 >= chunk_ct);

        let data_bytes: usize = cfg.element_ct * cfg.stride;
        assert(data_bytes == cfg.body_bytes()) by (nonlinear_arith)
            requires
                data_bytes == cfg.element_ct * cfg.stride,
                cfg.body_bytes() == cfg.stride * cfg.element_ct,
        ;
        let chunk_bytes: usize = cfg.elements_loaded_at_once * cfg.stride;
        let total_bytes: usize = match bitmap_bytes.checked_add(data_bytes) {
            Some(t) => t,
            None => {
                return Err(UfoError::WritebackTooLarge);
            },
        };
        let store = UfoFileWriteback { total_bytes, bitmap_bytes, chunk_bytes };
        proof {
            // chunk_ct chunks cover the data, so the data has at most chunk_ct of them
            let c: int = chunk_bytes as int;
            let d: int = data_bytes as int;
            let n: int = chunk_ct as int;
            assert(c > 0) by (nonlinear_arith)
                requires
                    c == cfg.elements_loaded_at_once * cfg.stride,
                    cfg.elements_loaded_at_once > 0,
                    cfg.stride > 0,
            ;
            assert(n * c >= d) by (nonlinear_arith)
                requires
                    n * cfg.elements_loaded_at_once >= cfg.element_ct,
                    c == cfg.elements_loaded_at_once * cfg.stride,
                    d == cfg.element_ct * cfg.stride,
                    cfg.stride > 0,
            ;
            lemma_fundamental_div_mod(d, c);
            let q = d / c;
            assert(spec_div_ceil(d, c) <= n) by (nonlinear_arith)
                requires
                    d == c * q + d % c,
                    0 <= d % c < c,
                    n * c >= d,
                    c > 0,
                    spec_div_ceil(d, c) == q + if d % c == 0 { 0int } else { 1int },
            ;
        }
        Ok(store)
    }

    /// The persisted bytes of the chunk at `offset`, where the store holds
    /// them: where `offset` is the start of a chunk whose bit is set.
    pub fn try_readback<'a>(&self, region: &'a [u8], offset: &UfoOffset) -> (data: Option<
        &'a [u8],
    >)
        requires
            self.wf(),
            region@.len() == self.total_bytes,
        ensures
            match data {
                Some(s) => {
                    &&& self.is_chunk_start(offset.spec_offset_from_header())
                    &&& self.marked(region@, offset.spec_offset_from_header())
                    &&& s@ == self.data_at(region@, offset.spec_offset_from_header())
                },
                None => !(self.is_chunk_start(offset.spec_offset_from_header()) && self.marked(
                    region@,
                    offset.spec_offset_from_header(),
                )),
            },
    {
        let off: usize = offset.offset_from_header();
        let data_bytes: usize = self.total_bytes - self.bitmap_bytes;
        if off >= data_bytes || off % self.chunk_bytes != 0 {
            return None;
        }
        proof {
            self.lemma_chunk_in_bounds(off as int);
        }
        let k: usize = off / self.chunk_bytes;
        let mask: u8 = 1u8 << ((k % 8) as u8);
        if region[k / 8] & mask == 0 {
            return None;
        }
        let len: usize = if self.chunk_bytes <= data_bytes - off {
            self.chunk_bytes
        } else {
            data_bytes - off
        };
        let start: usize = self.bitmap_bytes + off;
        Some(slice_subrange(region, start, start + len))
    }

    /// Persists `bytes` as the chunk at `offset` and sets its bit. It fails,
    /// and changes nothing, unless `offset` is the start of a chunk and `bytes`
    /// are as many as that chunk has.
    pub fn persist(&self, region: &mut [u8], offset: &UfoOffset, bytes: &[u8]) -> (done: Result<
        (),
        UfoError,
    >)
        requires
            self.wf(),
            old(region)@.len() == self.total_bytes,
        ensures
            final(region)@.len() == old(region)@.len(),
            done is Ok <==> self.is_chunk_start(offset.spec_offset_from_header()) && bytes@.len()
                == self.chunk_len(offset.spec_offset_from_header()),
            done is Ok ==> final(region)@ == self.spec_persisted(
                old(region)@,
                offset.spec_offset_from_header(),
                bytes@,
            ),
            done is Err ==> done == Err::<(), UfoError>(UfoError::ChunkNotValid) && final(region)@
                == old(region)@,
    {
        let off: usize = offset.offset_from_header();
        let data_bytes: usize = self.total_bytes - self.bitmap_bytes;
        if off >= data_bytes || off % self.chunk_bytes != 0 {
            return Err(UfoError::ChunkNotValid);
        }
        let len: usize = if self.chunk_bytes <= data_bytes - off {
            self.chunk_bytes
        } else {
            data_bytes - off
        };
        if bytes.len() != len {
            return Err(UfoError::ChunkNotValid);
        }
        proof {
            self.lemma_chunk_in_bounds(off as int);
        }
        let start: usize = self.bitmap_bytes + off;
        let mut i: usize = 0;
        while i < len
            invariant
                i <= len,
                len == bytes@.len(),
                start + len <= self.total_bytes,
                region@.len() == self.total_bytes,
                forall|j: int| 0 <= j < i ==> region@[start + j] == bytes@[j],
                forall|j: int|
                    0 <= j < region@.len() && !(start <= j < start + i) ==> region@[j] == old(
                        region,
                    )@[j],
            decreases len - i,
        {
            region[start + i] = bytes[i];
            i = i + 1;
        }
        let k: usize = off / self.chunk_bytes;
        let mask: u8 = 1u8 << ((k % 8) as u8);
        let marked: u8 = region[k / 8] | mask;
        region[k / 8] = marked;
        assert(region@ =~= self.spec_persisted(old(region)@, off as int, bytes@));
        Ok(())
    }

    /// Clears every bit of the bitmap, so that no chunk counts as persisted.
    pub fn clear_all(&self, region: &mut [u8])
        requires
            self.wf(),
            old(region)@.len() == self.total_bytes,
        ensures
            final(region)@ == self.spec_cleared(old(region)@),
    {
        let mut i: usize = 0;
        while i < self.bitmap_bytes
            invariant
                i <= self.bitmap_bytes <= self.total_bytes,
                region@.len() == self.total_bytes,
                forall|j: int| 0 <= j < i ==> region@[j] == 0u8,
                forall|j: int| i <= j < region@.len() ==> region@[j] == old(region)@[j],
            decreases self.bitmap_bytes - i,
        {
            region[i] = 0u8;
            i = i + 1;
        }
        assert(region@ =~= self.spec_cleared(old(region)@));
    }
}

} // verus!
