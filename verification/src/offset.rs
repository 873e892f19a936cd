//! Positions inside one object.

use vstd::prelude::*;
use crate::math::{div_floor, down_to_nearest, lemma_down_to_nearest, spec_down_to_nearest};
use crate::object::UfoObject;

verus! {

/// A byte position in the body of one object, measured from the object's
/// base address. It never lies inside the header.
#[derive(Clone, Copy, Debug)]
pub struct UfoOffset {
    base_addr: usize,
    stride: usize,
    header_bytes: usize,
    absolute_offset_bytes: usize,
}

impl UfoOffset {
    /// Address at which the object starts.
    pub closed spec fn base_addr(&self) -> usize {
        self.base_addr
    }

    /// Bytes per element of the object.
    pub closed spec fn stride(&self) -> usize {
        self.stride
    }

    /// Bytes of the object's padded header.
    pub closed spec fn header_bytes(&self) -> usize {
        self.header_bytes
    }

    /// Bytes from the object's base to this position.
    pub closed spec fn spec_absolute_offset(&self) -> usize {
        self.absolute_offset_bytes
    }

    /// Bytes from the end of the padded header to this position.
    pub open spec fn spec_offset_from_header(&self) -> int {
        self.spec_absolute_offset() - self.header_bytes()
    }

    /// The position lies behind the header, its address fits the machine, and
    /// elements have a size.
    #[verifier::type_invariant]
    pub closed spec fn wf(&self) -> bool {
        &&& self.stride > 0
        &&& self.header_bytes <= self.absolute_offset_bytes
        &&& self.base_addr + self.absolute_offset_bytes <= usize::MAX
    }

    /// What well-formedness says of the parts of an offset.
    pub proof fn lemma_wf(&self)
        requires
            self.wf(),
        ensures
            self.stride() > 0,
            self.header_bytes() <= self.spec_absolute_offset(),
            self.base_addr() + self.spec_absolute_offset() <= usize::MAX,
    {
    }

    /// Two offsets with the same parts are the same offset.
    pub proof fn lemma_same_parts(&self, other: &UfoOffset)
        requires
            self.base_addr() == other.base_addr(),
            self.stride() == other.stride(),
            self.header_bytes() == other.header_bytes(),
            self.spec_absolute_offset() == other.spec_absolute_offset(),
        ensures
            *self == *other,
    {
    }

    /// The position of address `addr` in `ufo`. The address must not lie below
    /// the object, nor inside its header.
    pub fn from_addr(ufo: &UfoObject, addr: usize) -> (offset: UfoOffset)
        requires
            ufo.config.stride > 0,
            ufo.base <= addr,
            ufo.config.header_size_with_padding <= addr - ufo.base,
        ensures
            offset.wf(),
            offset.base_addr() == ufo.base,
            offset.stride() == ufo.config.stride,
            offset.header_bytes() == ufo.config.header_size_with_padding,
            offset.spec_absolute_offset() == addr - ufo.base,
    {
        let base_addr: usize = ufo.base;
        let absolute_offset_bytes: usize = addr - base_addr;
        let header_bytes: usize = ufo.config.header_size_with_padding;
        UfoOffset { base_addr, stride: ufo.config.stride, header_bytes, absolute_offset_bytes }
    }

    /// Bytes from the object's base to this position.
    #[verifier::when_used_as_spec(spec_absolute_offset)]
    pub fn absolute_offset(&self) -> (bytes: usize)
        ensures
            bytes == self.spec_absolute_offset(),
    {
        self.absolute_offset_bytes
    }

    /// Bytes from the end of the padded header to this position.
    pub fn offset_from_header(&self) -> (bytes: usize)
        ensures
            bytes == self.spec_offset_from_header(),
    {
        proof {
            use_type_invariant(self);
        }
        self.absolute_offset_bytes - self.header_bytes
    }

    /// The address of this position.
    pub fn as_ptr_int(&self) -> (addr: usize)
        ensures
            addr == self.base_addr() + self.spec_absolute_offset(),
    {
        proof {
            use_type_invariant(self);
        }
        self.base_addr + self.absolute_offset()
    }

    /// Index of the element that this position lies in.
    pub fn as_index_floor(&self) -> (index: usize)
        ensures
            index == self.spec_offset_from_header() / (self.stride() as int),
    {
        proof {
            use_type_invariant(self);
        }
        div_floor(self.offset_from_header(), self.stride)
    }

    /// This position moved down to a multiple of `nearest` bytes behind the
    /// header.
    pub fn down_to_nearest_n_relative_to_header(&self, nearest: usize) -> (offset: UfoOffset)
        requires
            nearest > 0,
        ensures
            offset.wf(),
            offset.base_addr() == self.base_addr(),
            offset.stride() == self.stride(),
            offset.header_bytes() == self.header_bytes(),
            offset.spec_offset_from_header() == spec_down_to_nearest(
                self.spec_offset_from_header(),
                nearest as int,
            ),
    {
        proof {
            use_type_invariant(self);
            lemma_down_to_nearest(self.spec_offset_from_header(), nearest as int);
        }
        let offset: usize = self.offset_from_header();
        let offset: usize = down_to_nearest(offset, nearest);

        let absolute_offset_bytes: usize = self.header_bytes + offset;

        UfoOffset {
            base_addr: self.base_addr,
            stride: self.stride,
            header_bytes: self.header_bytes,
            absolute_offset_bytes,
        }
    }
}

} // verus!
