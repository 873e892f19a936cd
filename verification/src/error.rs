//! The failures that the engine reports.

use vstd::prelude::*;

verus! {

/// Why an operation of the engine failed.
#[derive(Debug, PartialEq, Eq, Copy, Clone, Structural)]
pub enum UfoError {
    /// The low watermark is not below the high one.
    WatermarkInversion,
    /// No live object has this identifier.
    UnknownUfo,
    /// A reservation would run past the end of the address space.
    AddressOverflow,
    /// A reservation overlaps that of a live object.
    SegmentOverlap,
    /// The writeback store of an object would not fit in the address space.
    WritebackTooLarge,
    /// A chunk does not lie where its object keeps chunks, or holds no bytes.
    ChunkNotValid,
    /// A fault at an address that no live object has reserved.
    UnknownAddress,
    /// A fault inside the header of an object.
    HeaderFault,
    /// A chunk that cannot be admitted even after an eviction pass.
    ChunkTooLarge,
}

} // verus!
