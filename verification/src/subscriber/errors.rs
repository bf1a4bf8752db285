//! Errors a subscriber has no resolution for.
use vstd::prelude::*;

verus! {

/// Errors which we have no resolution for.
#[derive(Debug, Copy, Clone, PartialEq, Eq, Structural)]
pub enum IrrecoverableError {
    DeserializationError,
    SocketDisconnect,
    IoError,
    GrpcError,
    PersistenceError,
}

/// The text that describes each error.
pub open spec fn irrecoverable_text(e: IrrecoverableError) -> Seq<char> {
    match e {
        IrrecoverableError::DeserializationError => "Deserialization error"@,
        IrrecoverableError::SocketDisconnect => "Socket disconnect"@,
        IrrecoverableError::IoError => "Io error"@,
        IrrecoverableError::GrpcError => "Grpc error"@,
        IrrecoverableError::PersistenceError => "Persistence error"@,
    }
}

impl IrrecoverableError {
    /// The text that describes the error (what `Display` shows of it).
    pub fn as_str(&self) -> (r: &'static str)
        ensures
            r@ == irrecoverable_text(*self),
    {
        match self {
            IrrecoverableError::DeserializationError => "Deserialization error",
            IrrecoverableError::SocketDisconnect => "Socket disconnect",
            IrrecoverableError::IoError => "Io error",
            IrrecoverableError::GrpcError => "Grpc error",
            IrrecoverableError::PersistenceError => "Persistence error",
        }
    }
}

/// `prost::DecodeError`: a protobuf message could not be decoded. It is
/// only carried, never looked into.
#[verifier::external_type_specification]
#[verifier::external_body]
pub struct ExDecodeError(prost::DecodeError);

/// A message that cannot be decoded is a deserialization error.
impl From<prost::DecodeError> for IrrecoverableError {
    fn from(e: prost::DecodeError) -> (r: Self) {
        IrrecoverableError::DeserializationError
    }
}

impl vstd::std_specs::convert::FromSpecImpl<prost::DecodeError> for IrrecoverableError {
    open spec fn obeys_from_spec() -> bool {
        true
    }

    open spec fn from_spec(e: prost::DecodeError) -> Self {
        IrrecoverableError::DeserializationError
    }
}

} // verus!
