//! Messages as the subscriber receives and hands them on.
use vstd::prelude::*;

use crate::clock::now_nanos;
use crate::proto::grapevine::RawMessage;
use crate::subscriber::heap::Sequenced;

verus! {

/// What a message in sequence turns out to be.
#[derive(Debug)]
pub enum SubscriberStreamMessage<T> {
    Delta(T),
    Started,
    Heartbeat,
}

/// How a message reached the subscriber.
#[derive(Debug, PartialEq, Eq, Clone, Copy, Structural)]
pub enum Origin {
    /// Batch sync
    Sync,
    /// Packet from stream
    Udp,
    /// Single missing udp packet recovered over gRPC
    Missing,
}

/// A message together with when and how it was received.
#[derive(Debug, Clone, PartialEq, Eq)]
pub struct ReceivedMessage {
    /// according to our process (in nano-seconds)
    pub recv_ts: i64,
    pub origin: Origin,
    pub raw: RawMessage,
}

impl ReceivedMessage {
    /// Stamps `raw` with the current time as its time of receipt.
    pub fn new(raw: RawMessage, origin: Origin) -> (r: Self)
        ensures
            r.raw == raw,
            r.origin == origin,
    {
        ReceivedMessage { recv_ts: now_nanos(), origin, raw }
    }
}

impl Sequenced for ReceivedMessage {
    open spec fn seq_of(&self) -> i64 {
        self.raw.metadata.sequence
    }

    fn sequence(&self) -> (r: i64) {
        self.raw.metadata.sequence
    }
}

} // verus!
