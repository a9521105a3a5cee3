//! The lock-free channel to the renderer.
//!
//! Finished plans travel to the render thread through a single-producer,
//! single-consumer ring buffer; the renderer sends replaced plans back on a
//! second ring buffer, and the controller drains and destroys them off the
//! audio thread. The ring buffer itself comes from the `ringbuf` crate; the
//! two calls the planner makes are wrapped here with the contracts its
//! source shows.

use vstd::prelude::*;
use crate::plan::Message;

verus! {

#[verifier::external_type_specification]
#[verifier::external_body]
#[verifier::reject_recursive_types(T)]
pub struct ExProducer<T>(ringbuf::Producer<T>);

#[verifier::external_type_specification]
#[verifier::external_body]
#[verifier::reject_recursive_types(T)]
pub struct ExConsumer<T>(ringbuf::Consumer<T>);

/// Relies on `ringbuf::Producer::push`: the message is appended to the ring
/// buffer if there is room, and otherwise handed back unchanged. Whether
/// there is room depends on what the consumer has drained, so nothing more
/// is promised of the outcome.
#[verifier::external_body]
pub(crate) fn ring_push(tx: &mut ringbuf::Producer<Message>, message: Message) -> (r: Option<
    Message,
>)
    ensures
        r matches Some(m) ==> m == message,
{
    match tx.push(message) {
        Ok(()) => None,
        Err(m) => Some(m),
    }
}

/// Relies on `ringbuf::Consumer::pop_each`: every message currently queued
/// is handed to the closure, which accepts and drops it, so the queue is
/// emptied of what had arrived by then.
#[verifier::external_body]
pub(crate) fn ring_drain(rx: &mut ringbuf::Consumer<Message>) {
    rx.pop_each(|_message| true, None);
}

} // verus!
