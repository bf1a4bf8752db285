//! Grapevine: state synchronisation over a multicast stream of sequenced
//! messages. This crate holds the protocol's logic: the frame codec, the
//! message types, the publisher's sequence stamping, the subscriber's
//! re-ordering and recovery decisions, and the in-memory message log.
pub mod buf;
pub mod clock;
pub mod codec;
pub mod constants;
pub mod persistence;
pub mod proto;
pub mod publisher;
pub mod state_sync;
pub mod subscriber;
pub mod util;

pub use persistence::{MessageLog, MockPersistenceError};
pub use state_sync::StateSync;
pub use util::should_destruct;
