//! Shutdown signalling between a publisher's handle and its background
//! tasks.
use std::sync::mpsc::Receiver;

use vstd::prelude::*;

verus! {

#[verifier::external_type_specification]
#[verifier::external_body]
#[verifier::reject_recursive_types(T)]
pub struct ExReceiver<T>(std::sync::mpsc::Receiver<T>);

/// What a non-blocking look at the destructor channel found.
#[derive(Debug, Clone, Copy, PartialEq, Eq, Structural)]
pub enum DestructSignal {
    /// A destruct message was waiting.
    Received,
    /// No message is waiting and the sender is alive.
    Empty,
    /// The sender is gone.
    Disconnected,
}

/// `Receiver::try_recv`, with its outcome told apart: a message, an empty
/// channel, or a disconnected one. Which it is depends on the other end of
/// the channel, so nothing is stated of it.
#[verifier::external_body]
fn try_recv_signal(rx: &mut Receiver<()>) -> (r: DestructSignal) {
    match rx.try_recv() {
        Ok(()) => DestructSignal::Received,
        Err(std::sync::mpsc::TryRecvError::Empty) => DestructSignal::Empty,
        Err(std::sync::mpsc::TryRecvError::Disconnected) => DestructSignal::Disconnected,
    }
}

/// Whether a look at the destructor channel calls for shutting down: a
/// received signal does, and so does a sender that is gone; an empty
/// channel does not.
pub fn destruct_decision(signal: DestructSignal) -> (r: bool)
    ensures
        r == (signal != DestructSignal::Empty),
{
    match signal {
        DestructSignal::Empty => false,
        DestructSignal::Received => true,
        DestructSignal::Disconnected => true,
    }
}

/// Check whether a message has been sent on the destructor channel (or its
/// sender has gone). The channel is read without blocking.
pub fn should_destruct(rx: &mut Receiver<()>) -> (r: bool) {
    destruct_decision(try_recv_signal(rx))
}

} // verus!
