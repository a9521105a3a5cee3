//! Processors and their factories, as the planner consumes them.
//!
//! The planner knows nothing of DSP: a processor is an opaque handle created
//! by a factory from a node, stored in a registry and referenced by key from
//! render operations. The factory contract is a capability the host
//! implements; nothing is assumed about which classes it supports or when
//! creation succeeds.

use vstd::prelude::*;
use crate::graph::Node;

verus! {

/// Opaque handle for one instantiated DSP object. The class name records
/// which kind of processor the factory built.
pub struct Processor {
    pub class: String,
}

impl Processor {
    pub fn new(class: String) -> (r: Self)
        ensures
            r.class@ == class@,
    {
        Processor { class }
    }
}

/// Builds processors for the node classes it supports. Implemented by the
/// host; the planner promises nothing about either method's result.
pub trait ProcessorFactory {
    /// The class names this factory can build.
    fn supported_classes(&self) -> Vec<String>;

    /// Build a processor for a node, or refuse it.
    fn create(&self, node: &Node) -> Option<Processor>;
}

} // verus!
