use vstd::prelude::*;

verus! {

/// Maximum Transmission Unit.
pub const MTU: usize = 1500;

/// Header size in contiguous bytes: a one byte compression flag followed by
/// a two byte (big-endian) body length.
pub const HEADER_SIZE: usize = 1 + 2;

/// Sailing close to the wind of the MTU is not a good idea: leave some room
/// (the header is not included in this capacity).
pub const MAX_PAYLOAD_SIZE: usize = MTU - HEADER_SIZE - 100;

} // verus!
