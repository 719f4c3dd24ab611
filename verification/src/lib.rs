//! Verified core of a job worker's child-process supervision subsystem.
//!
//! The library models the decision logic of supervising one child process:
//! draining its output under a character budget, deciding when and how to
//! kill it (timeout, cancellation, oversized logs), tracking peak memory,
//! interpolating job arguments, and reporting a single exit outcome.
//! All I/O (process handling, pipes, database, filesystem) lives outside
//! the library and exchanges plain values with it.
use vstd::prelude::*;

pub mod cache;
pub mod envmap;
pub mod error;
pub mod hash;
pub mod interp;
pub mod logbuf;
pub mod mem;
pub mod outside;
pub mod supervise;
pub mod text;

verus! {

/// Hard ceiling on a job's result size, in bytes, and on its log size, in
/// Unicode scalar values, when running cloud-hosted.
pub const MAX_RESULT_SIZE: usize = 2097152;

} // verus!
