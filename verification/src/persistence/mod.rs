//! Records of the messages a publisher sent (its master log) and of those a
//! subscriber received (its replica log).
//!
//! Every publisher must record each message it produces so that there is a
//! source of truth to compare downstream sequences to, and subscribers that
//! process each message exactly once keep a replica of what they applied.
pub mod log;

pub use log::{MessageLog, MockPersistenceError};
