//! The scratch buffer that populate functions write into.

use vstd::prelude::*;

verus! {

/// A block of bytes that is kept between faults and only ever grows, so that
/// populating a chunk does not allocate each time.
pub struct UfoWriteBuffer {
    data: Vec<u8>,
}

impl UfoWriteBuffer {
    /// The bytes of the buffer.
    pub closed spec fn bytes(&self) -> Seq<u8> {
        self.data@
    }

    /// An empty buffer.
    pub fn new() -> (buffer: UfoWriteBuffer)
        ensures
            buffer.bytes().len() == 0,
    {
        UfoWriteBuffer { data: Vec::new() }
    }

    /// Bytes that the buffer holds.
    pub fn size(&self) -> (bytes: usize)
        ensures
            bytes == self.bytes().len(),
    {
        self.data.len()
    }

    /// Grows the buffer to at least `capacity` bytes and hands it out for
    /// writing. What it held stays, new bytes are zero, and a buffer that is
    /// large enough is left alone.
    pub fn ensure_capcity(&mut self, capacity: usize) -> (block: &mut [u8])
        ensures
            block@.len() == if old(self).bytes().len() < capacity {
                capacity as int
            } else {
                old(self).bytes().len() as int
            },
            block@.take(old(self).bytes().len() as int) == old(self).bytes(),
            forall|i: int| old(self).bytes().len() <= i < block@.len() ==> block@[i] == 0u8,
            final(self).bytes() == final(block)@,
    {
        if self.data.len() < capacity {
            self.data.resize(capacity, 0u8);
        }
        assert(self.data@.take(old(self).data@.len() as int) =~= old(self).data@);
        self.data.as_mut_slice()
    }

    /// The bytes of the buffer.
    pub fn slice(&self) -> (bytes: &[u8])
        ensures
            bytes@ == self.bytes(),
    {
        self.data.as_slice()
    }
}

} // verus!
