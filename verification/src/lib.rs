//! Offline planner for an audio engine: it turns a user-editable audio
//! processing graph into a flat render plan (a sequence of render operations
//! over a pool of audio buffers) that an audio-callback thread can execute
//! without allocating or blocking.
//!
//! The heart of the crate is [`controller::Controller`]: it walks the graph
//! in dependency order, keeps a per-node cache of processors, parameter
//! value cells and buffer assignments, recycles buffers as soon as their
//! last consumer has been planned, and ships the finished plan to the
//! renderer over a lock-free channel.

use vstd::prelude::*;

pub mod bridge;
pub mod buffers;
pub mod controller;
pub mod graph;
pub mod laws;
pub mod plan;
pub mod processor;
pub mod registry;

verus! {

/// Default number of samples per buffer.
pub const DEFAULT_BUFFER_SIZE: usize = 512;

/// Engine-wide configuration, fixed for the life of a controller.
#[derive(Clone, Copy, Debug, PartialEq, Eq, Structural)]
pub struct EngineConfig {
    pub buffer_size: usize,
}

impl Default for EngineConfig {
    fn default() -> (r: Self)
        ensures
            r.buffer_size == DEFAULT_BUFFER_SIZE,
    {
        EngineConfig { buffer_size: DEFAULT_BUFFER_SIZE }
    }
}

/// Current value of one parameter, held as the raw 32-bit pattern of the
/// sample value so that the planner never computes with it.
#[derive(Clone, Copy, Debug, PartialEq, Eq, Structural)]
pub struct ParamValue {
    pub bits: u32,
}

impl ParamValue {
    pub fn new(bits: u32) -> (r: Self)
        ensures
            r.bits == bits,
    {
        ParamValue { bits }
    }

    pub fn get(&self) -> (r: u32)
        ensures
            r == self.bits,
    {
        self.bits
    }
}

} // verus!
