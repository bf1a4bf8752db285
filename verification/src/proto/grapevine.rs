//! The envelope every publisher message travels in.
pub mod raw_message;

use vstd::prelude::*;

use crate::proto::grapevine::raw_message::Payload;
use crate::subscriber::heap::Sequenced;

verus! {

/// The publisher has checked in.
#[derive(Clone, Copy, Debug, PartialEq, Eq, Default)]
pub struct Heartbeat {}

/// The publisher has started publishing.
#[derive(Clone, Copy, Debug, PartialEq, Eq, Default)]
pub struct Started {}

/// An incremental update of custom state.
#[derive(Clone, Debug, PartialEq, Eq, Default)]
pub struct Delta {
    /// The custom delta as bytes.
    pub body: Vec<u8>,
}

/// Metadata for the message payload.
#[derive(Clone, Copy, Debug, PartialEq, Eq, Default)]
pub struct Metadata {
    /// The creation timestamp of this message in nano-seconds.
    pub timestamp: i64,
    /// A unique monotonically-increasing sequence ID for this message.
    pub sequence: i64,
}

/// A self contained message which must be sent as a single frame.
#[derive(Clone, Debug, PartialEq, Eq, Default)]
pub struct RawMessage {
    /// The header of the message.
    pub metadata: Metadata,
    /// Signals what type of message this is and carries custom data.
    pub payload: Option<Payload>,
}

impl RawMessage {
    /// A message of the given sequence, timestamp and payload.
    pub fn stamped(sequence: i64, timestamp: i64, payload: Payload) -> (r: RawMessage)
        ensures
            r.metadata.sequence == sequence,
            r.metadata.timestamp == timestamp,
            r.payload == Some(payload),
    {
        RawMessage { metadata: Metadata { timestamp, sequence }, payload: Some(payload) }
    }
}

impl Sequenced for RawMessage {
    open spec fn seq_of(&self) -> i64 {
        self.metadata.sequence
    }

    fn sequence(&self) -> (r: i64) {
        self.metadata.sequence
    }
}

} // verus!
