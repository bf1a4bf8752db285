//! The decisions of the aggregator, which applies the deltas of a
//! sequenced stream to a shared state and publishes a snapshot of it each
//! time it has caught up with the stream.
use vstd::prelude::*;

use crate::subscriber::message::SubscriberStreamMessage;
use crate::subscriber::sequencer::SubscriberStream;

verus! {

/// The delta a stream event carries, if it carries one.
pub fn get_delta<T>(data: SubscriberStream<T>) -> (r: Option<T>)
    ensures
        match data {
            SubscriberStream::Message { msg: SubscriberStreamMessage::Delta(d), .. } => r == Some(d),
            _ => r is None,
        },
{
    if let SubscriberStream::Message { msg: SubscriberStreamMessage::Delta(delta), .. } = data {
        Some(delta)
    } else {
        None
    }
}

/// How the next delta is to be read from the channel.
#[derive(Debug, Clone, Copy, PartialEq, Eq, Structural)]
pub enum ReceiveMode {
    /// Wait until a delta arrives or the channel closes.
    Wait,
    /// Take a delta only if one is already waiting.
    Poll,
}

/// What reading the channel gave.
#[derive(Debug)]
pub enum Received<T> {
    /// A delta.
    Delta(T),
    /// Nothing was waiting.
    Empty,
    /// The sending side is gone.
    Disconnected,
}

/// What the snapshot producer does next.
#[derive(Debug)]
pub enum SnapshotStep<T> {
    /// Apply this delta to the state.
    Apply(T),
    /// The channel is drained: publish the state as it stands.
    Publish,
    /// The stream has ended.
    Stop,
}

/// The snapshot producer drains the channel of deltas without waiting,
/// publishes a snapshot once it is empty, and then waits for more.
pub struct SnapshotProducer {
    empty: bool,
}

impl SnapshotProducer {
    /// The channel was last seen empty (or never read).
    pub closed spec fn drained(&self) -> bool {
        self.empty
    }

    /// A producer that starts by waiting for the first delta.
    pub fn new() -> (r: Self)
        ensures
            r.drained(),
    {
        SnapshotProducer { empty: true }
    }

    /// How to read the channel next: wait after a snapshot was published
    /// (or at the start), poll while draining.
    pub fn next_mode(&mut self) -> (r: ReceiveMode)
        ensures
            r == if old(self).drained() {
                ReceiveMode::Wait
            } else {
                ReceiveMode::Poll
            },
            !final(self).drained(),
    {
        if self.empty {
            self.empty = false;
            ReceiveMode::Wait
        } else {
            ReceiveMode::Poll
        }
    }

    /// What to do with what the channel gave: apply a delta, publish a
    /// snapshot once nothing waits (and wait next time), stop when the
    /// stream is gone.
    pub fn on_received<T>(&mut self, received: Received<T>) -> (r: SnapshotStep<T>)
        ensures
            match received {
                Received::Delta(d) => r == SnapshotStep::Apply(d) && final(self).drained()
                    == old(self).drained(),
                Received::Empty => r == SnapshotStep::<T>::Publish && final(self).drained(),
                Received::Disconnected => r == SnapshotStep::<T>::Stop && final(self).drained()
                    == old(self).drained(),
            },
    {
        match received {
            Received::Delta(delta) => SnapshotStep::Apply(delta),
            Received::Empty => {
                self.empty = true;
                SnapshotStep::Publish
            },
            Received::Disconnected => SnapshotStep::Stop,
        }
    }
}

} // verus!
