//! What a page fault asks for: the chunk around the faulting address.

use vstd::prelude::*;
use vstd::arithmetic::div_mod::*;
use crate::ids::UfoId;
use crate::math::{
    lemma_down_to_nearest, lemma_multiple_of_multiple, lemma_up_to_nearest,
    lemma_up_to_nearest_least, spec_down_to_nearest,
};
use crate::object::UfoObject;
use crate::offset::UfoOffset;

verus! {

/// The work that one fault asks for: which chunk of which object to make
/// resident, and from which elements.
#[derive(Clone, Copy, Debug)]
pub struct UfoFault {
    /// The object that was touched.
    pub ufo_id: UfoId,
    /// Start of the chunk that holds the faulting address.
    pub populate_offset: UfoOffset,
    /// Index of the first element of the chunk.
    pub start: usize,
    /// One past the index of the chunk's last element.
    pub pop_end: usize,
    /// Bytes of a whole chunk of the object.
    pub load_size: usize,
    /// Bytes to install: a whole chunk, or what is left of the object.
    pub copy_size: usize,
}

impl UfoObject {
    /// `addr` lies in the reservation.
    pub open spec fn holds(&self, addr: usize) -> bool {
        self.base <= addr < self.end()
    }

    /// `addr` lies in the reservation behind the padded header.
    pub open spec fn in_body(&self, addr: usize) -> bool {
        self.base + self.config.header_size_with_padding <= addr < self.end()
    }

    /// Bytes from the end of the padded header to the start of the chunk that
    /// holds `addr`.
    pub open spec fn chunk_start_of(&self, addr: usize) -> int {
        spec_down_to_nearest(
            addr - self.base - self.config.header_size_with_padding,
            self.config.load_size(),
        )
    }

    /// Bytes of the chunk that starts `chunk_start` bytes behind the padded
    /// header: a whole chunk, or what is left of the reservation.
    pub open spec fn copy_size_at(&self, chunk_start: int) -> int {
        let left = self.config.true_size - (self.config.header_size_with_padding + chunk_start);
        if self.config.load_size() <= left {
            self.config.load_size()
        } else {
            left
        }
    }

    /// `chunk` is a chunk of this object: it starts at a chunk boundary of the
    /// body and is resident with all its bytes.
    pub open spec fn owns_chunk(&self, chunk: crate::chunk::UfoChunk) -> bool {
        &&& chunk.ufo_id == self.id
        &&& chunk.offset.base_addr() == self.base
        &&& chunk.offset.stride() == self.config.stride
        &&& chunk.offset.header_bytes() == self.config.header_size_with_padding
        &&& self.writeback_util.is_chunk_start(chunk.offset.spec_offset_from_header())
        &&& chunk.length == self.copy_size_at(chunk.offset.spec_offset_from_header())
    }

    /// `fault` is what a fault at `addr` asks of this object.
    pub open spec fn is_fault_at(&self, fault: UfoFault, addr: usize) -> bool {
        &&& fault.ufo_id == self.id
        &&& fault.populate_offset.base_addr() == self.base
        &&& fault.populate_offset.stride() == self.config.stride
        &&& fault.populate_offset.header_bytes() == self.config.header_size_with_padding
        &&& fault.populate_offset.spec_offset_from_header() == self.chunk_start_of(addr)
        &&& fault.start == self.chunk_start_of(addr) / (self.config.stride as int)
        &&& fault.pop_end == if fault.start + self.config.elements_loaded_at_once
            <= self.config.element_ct {
            fault.start + self.config.elements_loaded_at_once
        } else {
            self.config.element_ct as int
        }
        &&& fault.load_size == self.config.load_size()
        &&& fault.copy_size == self.copy_size_at(self.chunk_start_of(addr))
    }

    /// The chunk that holds an address of the body starts at a chunk boundary
    /// inside the data, holds the address, and ends inside the reservation.
    pub proof fn lemma_chunk_of_addr(&self, addr: usize)
        requires
            self.wf(),
            self.in_body(addr),
        ensures
            self.writeback_util.is_chunk_start(self.chunk_start_of(addr)),
            self.chunk_start_of(addr) % self.config.load_size() == 0,
            self.chunk_start_of(addr) <= addr - self.base - self.config.header_size_with_padding
                < self.chunk_start_of(addr) + self.copy_size_at(self.chunk_start_of(addr)),
            0 < self.copy_size_at(self.chunk_start_of(addr)) <= self.config.load_size(),
            self.config.header_size_with_padding + self.chunk_start_of(addr) + self.copy_size_at(
                self.chunk_start_of(addr),
            ) <= self.config.true_size,
            self.writeback_util.chunk_len(self.chunk_start_of(addr)) <= self.copy_size_at(
                self.chunk_start_of(addr),
            ),
            0 <= self.chunk_start_of(addr) / (self.config.stride as int)
                < self.config.element_ct,
    {
        let cfg = self.config;
        let rel: int = addr - self.base - cfg.header_size_with_padding;
        let load: int = cfg.load_size();
        let page: int = cfg.page_size as int;
        let body: int = cfg.body_bytes();
        let cs: int = self.chunk_start_of(addr);
        assert(body > 0) by (nonlinear_arith)
            requires
                body == cfg.stride * cfg.element_ct,
                cfg.stride > 0,
                cfg.element_ct > 0,
        ;
        assert(load > 0) by (nonlinear_arith)
            requires
                load == cfg.elements_loaded_at_once * cfg.stride,
                cfg.stride > 0,
                cfg.elements_loaded_at_once > 0,
        ;
        lemma_down_to_nearest(rel, load);
        lemma_up_to_nearest(body, page);
        // a chunk starts at a page boundary, and the padded body ends at the
        // first page boundary behind the data
        lemma_multiple_of_multiple(cs, load, page);
        if cs >= body {
            lemma_up_to_nearest_least(body, page, cs);
        }
        assert(cs < body);
        lemma_div_pos_is_pos(cs, cfg.stride as int);
        lemma_fundamental_div_mod(cs, cfg.stride as int);
        let q = cs / (cfg.stride as int);
        assert(q < cfg.element_ct) by (nonlinear_arith)
            requires
                cs == cfg.stride * q + cs % (cfg.stride as int),
                0 <= cs % (cfg.stride as int),
                cs < cfg.stride * cfg.element_ct,
                cfg.stride > 0,
        ;
    }

    /// A chunk of this object that holds bytes ends inside the reservation and
    /// can be written back.
    pub proof fn lemma_owned_chunk(&self, chunk: crate::chunk::UfoChunk)
        requires
            self.wf(),
            self.owns_chunk(chunk),
            chunk.length > 0,
        ensures
            chunk.offset.spec_absolute_offset() + chunk.length <= self.config.true_size,
            self.can_write_back(chunk, chunk.length as int),
    {
        self.config.lemma_true_size();
        self.writeback_util.lemma_chunk_in_bounds(chunk.offset.spec_offset_from_header());
    }

    /// Faults are deterministic: what a fault asks for depends on the object
    /// and on the chunk that holds the faulting address, and on nothing else.
    /// Two faults in one chunk ask for the same elements into the same place.
    pub proof fn lemma_fault_determinism(
        &self,
        addr1: usize,
        addr2: usize,
        fault1: UfoFault,
        fault2: UfoFault,
    )
        requires
            self.wf(),
            self.in_body(addr1),
            self.in_body(addr2),
            self.chunk_start_of(addr1) == self.chunk_start_of(addr2),
            self.is_fault_at(fault1, addr1),
            self.is_fault_at(fault2, addr2),
        ensures
            fault1 == fault2,
    {
        fault1.populate_offset.lemma_same_parts(&fault2.populate_offset);
    }

    /// A fault asks for the element that was touched: where the faulting
    /// address lies in an element, that element is one of those to load, and
    /// its bytes lie in the chunk to install.
    pub proof fn lemma_fault_covers(&self, addr: usize, fault: UfoFault)
        requires
            self.wf(),
            self.in_body(addr),
            self.is_fault_at(fault, addr),
            addr - self.base - self.config.header_size_with_padding < self.config.body_bytes(),
        ensures
            fault.start <= (addr - self.base - self.config.header_size_with_padding) / (
            self.config.stride as int) < fault.pop_end,
            fault.populate_offset.spec_absolute_offset() <= addr - self.base
                < fault.populate_offset.spec_absolute_offset() + fault.copy_size,
    {
        self.lemma_chunk_of_addr(addr);
        let cfg = self.config;
        let stride: int = cfg.stride as int;
        let el: int = cfg.elements_loaded_at_once as int;
        let rel: int = addr - self.base - cfg.header_size_with_padding;
        let cs: int = self.chunk_start_of(addr);
        let load: int = cfg.load_size();
        lemma_fundamental_div_mod(cs, load);
        lemma_fundamental_div_mod(rel, stride);
        lemma_fundamental_div_mod(cs, stride);
        let k = cs / load;
        let idx = rel / stride;
        let start = cs / stride;
        // the chunk starts at element k * el
        assert(cs == stride * (k * el)) by (nonlinear_arith)
            requires
                cs == load * k,
                load == el * stride,
        ;
        lemma_fundamental_div_mod_converse(cs, stride, k * el, 0);
        assert(start <= idx < start + el && idx < cfg.element_ct) by (nonlinear_arith)
            requires
                cs == stride * start,
                rel == stride * idx + rel % stride,
                0 <= rel % stride < stride,
                cs <= rel < cs + el * stride,
                rel < stride * cfg.element_ct,
                stride > 0,
        ;
    }

    /// The elements that a fault asks for fill exactly the bytes that the
    /// writeback store keeps for the chunk: what is populated now is what is
    /// restored later.
    pub proof fn lemma_fault_fills_chunk(&self, addr: usize, fault: UfoFault)
        requires
            self.wf(),
            self.in_body(addr),
            self.is_fault_at(fault, addr),
        ensures
            (fault.pop_end - fault.start) * self.config.stride == self.writeback_util.chunk_len(
                fault.populate_offset.spec_offset_from_header(),
            ),
            (fault.pop_end - fault.start) * self.config.stride <= fault.copy_size,
    {
        self.lemma_chunk_of_addr(addr);
        self.config.lemma_alignment();
        let cfg = self.config;
        let stride: int = cfg.stride as int;
        let el: int = cfg.elements_loaded_at_once as int;
        let ct: int = cfg.element_ct as int;
        let cs: int = self.chunk_start_of(addr);
        let load: int = cfg.load_size();
        let start: int = fault.start as int;
        let end: int = fault.pop_end as int;
        lemma_multiple_of_multiple(cs, load, stride);
        lemma_fundamental_div_mod(cs, stride);
        assert(cs == stride * start);
        if start + el <= ct {
            assert((end - start) * stride == load && load <= stride * ct - cs)
                by (nonlinear_arith)
                requires
                    end == start + el,
                    load == el * stride,
                    cs == stride * start,
                    start + el <= ct,
                    stride > 0,
            ;
        } else {
            assert((end - start) * stride == stride * ct - cs && stride * ct - cs < load)
                by (nonlinear_arith)
                requires
                    end == ct,
                    load == el * stride,
                    cs == stride * start,
                    start + el > ct,
                    stride > 0,
            ;
        }
    }

    /// What a fault at `addr`, an address of the body, asks for.
    pub fn fault_window(&self, addr: usize) -> (fault: UfoFault)
        requires
            self.wf(),
            self.in_body(addr),
        ensures
            self.is_fault_at(fault, addr),
            fault.start < fault.pop_end <= self.config.element_ct,
            0 < fault.copy_size <= fault.load_size,
    {
        proof {
            self.lemma_chunk_of_addr(addr);
        }
        let fault_offset: UfoOffset = UfoOffset::from_addr(self, addr);

        let config = &self.config;

        let load_size: usize = config.elements_loaded_at_once * config.stride;

        let populate_offset: UfoOffset = fault_offset.down_to_nearest_n_relative_to_header(
            load_size,
        );

        let start: usize = populate_offset.as_index_floor();
        let pop_end: usize = if config.element_ct - start < config.elements_loaded_at_once {
            config.element_ct
        } else {
            start + config.elements_loaded_at_once
        };

        let left: usize = config.true_size - populate_offset.absolute_offset();
        let copy_size: usize = if load_size <= left {
            load_size
        } else {
            left
        };

        UfoFault { ufo_id: self.id, populate_offset, start, pop_end, load_size, copy_size }
    }
}

} // verus!
