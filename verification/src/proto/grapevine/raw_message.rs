//! The kinds of payload a [`crate::proto::grapevine::RawMessage`] carries.
use vstd::prelude::*;

use crate::proto::grapevine::{Delta, Heartbeat, Started};

verus! {

/// Signals what type of message this is and provides custom data.
#[derive(Clone, Debug, PartialEq, Eq)]
pub enum Payload {
    Heartbeat(Heartbeat),
    Started(Started),
    Delta(Delta),
}

} // verus!
