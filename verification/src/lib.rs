//! User-faulted virtual memory objects: the verified core.
//!
//! An object is a large logical array whose pages are materialised on demand.
//! This crate holds the decisions of the engine: object geometry, offset
//! arithmetic, the writeback store layout, the chunk cache with its watermarks,
//! and the registry that the control plane and the fault handler share. The
//! platform work (reserving memory, fault channels, threads) is done by the
//! program that embeds the crate, which feeds it plain values.

pub mod buffer;
pub mod chunk;
pub mod chunks;
pub mod config;
pub mod error;
pub mod fault;
pub mod hashing;
pub mod ids;
pub mod math;
pub mod object;
pub mod offset;
pub mod segments;
pub mod ufo_core;
pub mod writeback;

pub use crate::buffer::UfoWriteBuffer;
pub use crate::chunk::UfoChunk;
pub use crate::chunks::UfoChunks;
pub use crate::config::{UfoCoreConfig, UfoObjectConfig, UfoObjectConfigPrototype};
pub use crate::error::UfoError;
pub use crate::fault::UfoFault;
pub use crate::ids::{UfoId, UfoIdGen};
pub use crate::object::{UfoHandle, UfoObject};
pub use crate::offset::UfoOffset;
pub use crate::ufo_core::{UfoCoreState, UfoInstanceMsg, UfoReply};
pub use crate::writeback::UfoFileWriteback;
