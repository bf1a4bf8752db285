//! The messages of the protocol and of the example state.
pub mod grapevine;
pub mod tree_state;
