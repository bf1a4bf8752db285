//! The subscriber side: re-ordering of received messages, recovery
//! decisions and the state a subscriber keeps.
pub mod aggregator;
pub mod errors;
pub mod heap;
pub mod message;
pub mod min_max_heap;
pub mod order;
pub mod sequencer;
pub mod state_wrapper;
pub mod stream;
pub mod sync_status;

pub use sequencer::SubscriberStreamError;
pub use state_wrapper::SubscriberStateWrapper;
pub use sync_status::SyncStatus;
