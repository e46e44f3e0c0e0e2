//! Chunked execution engine for elementwise addition of two `f32` vectors on a
//! compute device.
//!
//! The library holds the logic of the engine: splitting an arbitrarily large
//! input into buffer-size-bounded chunks, splitting each chunk into
//! workgroup-count-bounded dispatches, checking the kernel's fixed resource
//! layout, and reassembling per-chunk results in order. Elements are carried
//! as their 32-bit IEEE-754 bit patterns (`u32`): the engine never interprets
//! them, it only plans, moves and concatenates them. The device work itself
//! (adapter and device acquisition, kernel compilation, buffer upload,
//! dispatch recording, asynchronous readback) is performed by the caller, who
//! drives a [`engine::AddSession`] chunk by chunk.

pub mod assembly;
pub mod chunk_plan;
pub mod dispatch_plan;
pub mod engine;
pub mod errors;
pub mod kernel;

use vstd::prelude::*;

verus! {

/// Byte size of one vector element (a 32-bit float carried as its bit pattern).
pub const ELEMENT_BYTES: usize = 4;

} // verus!
