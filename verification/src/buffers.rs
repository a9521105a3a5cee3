//! Audio buffers as the planner sees them.
//!
//! A buffer is a fixed-size block of samples; the planner only ever reasons
//! about buffer identities (registry keys) and sizes, never about sample
//! data, so the model carries the size alone. One distinguished empty buffer
//! holds silence and is shared read-only by every unconnected audio input.

use vstd::prelude::*;

verus! {

/// A fixed-size block of audio samples, identified by its registry key.
#[derive(Clone, Copy, Debug, PartialEq, Eq, Structural)]
pub struct Buffer {
    pub size: usize,
}

impl Buffer {
    pub fn new(size: usize) -> (r: Self)
        ensures
            r.size == size,
    {
        Buffer { size }
    }
}

} // verus!
