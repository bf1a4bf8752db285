//! Framing of messages on the wire.
//!
//! Every message is sent with a future compatible compression flag (always
//! zero for now) and a body size (n) in big-endian order. The next n bytes
//! are the encoded message.
pub mod decoder;
pub mod encoder;
pub mod frame;

pub use decoder::Decoder;
pub use encoder::Encoder;
pub use frame::CodecError;
