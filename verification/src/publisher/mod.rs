//! The publisher side: the sequence stamping of the publisher's state and
//! the messages it sends.
pub mod recovery;
pub mod state_wrapper;

pub use state_wrapper::PublisherStateWrapper;

use vstd::prelude::*;

use crate::clock::now_nanos;
use crate::proto::grapevine::raw_message::Payload;
use crate::proto::grapevine::{Delta, RawMessage};

verus! {

/// The message that carries an encoded delta under the sequence it was
/// stamped with, timestamped now.
pub fn delta_message(sequence: i64, body: Vec<u8>) -> (r: RawMessage)
    ensures
        r.metadata.sequence == sequence,
        r.payload == Some(Payload::Delta(Delta { body })),
{
    RawMessage::stamped(sequence, now_nanos(), Payload::Delta(Delta { body }))
}

} // verus!
