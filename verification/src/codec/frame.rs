//! The frame format shared by the encoder and the decoder.
use vstd::prelude::*;

use vstd::slice::slice_subrange;

use crate::constants::{HEADER_SIZE, MAX_PAYLOAD_SIZE};

verus! {

/// Errors raised while framing or unframing a message.
#[derive(Debug, Clone, Copy, PartialEq, Eq)]
pub enum CodecError {
    /// The compression flag of a received header was not zero.
    CompressionNotSupported(u8),
    /// The encoded message does not fit in one frame (its length is given).
    MessageTooLarge(usize),
}

/// The three header bytes announcing a body of `len` bytes: the compression
/// flag (zero) and the length, most significant byte first.
pub open spec fn frame_header(len: nat) -> Seq<u8> {
    seq![0u8, (len / 256) as u8, (len % 256) as u8]
}

/// The frame that carries `payload`: its header followed by the payload.
pub open spec fn frame_of(payload: Seq<u8>) -> Seq<u8> {
    frame_header(payload.len()) + payload
}

/// The body length that a header announces.
pub open spec fn announced_len(header: Seq<u8>) -> nat {
    (header[1] as nat) * 256 + header[2] as nat
}

/// A payload can be framed when its length is at most `MAX_PAYLOAD_SIZE`.
pub open spec fn frameable(payload: Seq<u8>) -> bool {
    payload.len() <= MAX_PAYLOAD_SIZE
}

/// Every frameable payload has a header of `HEADER_SIZE` bytes, and the
/// header announces exactly the payload's length.
pub proof fn lemma_header_announces_len(payload: Seq<u8>)
    requires
        frameable(payload),
    ensures
        frame_of(payload).len() == payload.len() + HEADER_SIZE,
        frame_of(payload)[0] == 0,
        announced_len(frame_of(payload)) == payload.len(),
        frame_of(payload).subrange(HEADER_SIZE as int, frame_of(payload).len() as int) == payload,
{
    let n = payload.len();
    assert(n < 65536);
    assert(((n / 256) as u8) as nat == n / 256);
    assert(((n % 256) as u8) as nat == n % 256);
    assert(frame_of(payload).subrange(3, frame_of(payload).len() as int) =~= payload);
}

/// The body of a frame: what follows its header. A publisher records the
/// body of each frame it sends, which for the frame of a payload is the
/// payload itself.
pub fn frame_body(frame: &[u8]) -> (r: &[u8])
    requires
        frame@.len() >= HEADER_SIZE,
    ensures
        r@ == frame@.subrange(HEADER_SIZE as int, frame@.len() as int),
        forall|p: Seq<u8>| frameable(p) && frame@ == frame_of(p) ==> r@ == p,
{
    proof {
        assert forall|p: Seq<u8>| frameable(p) && frame@ == frame_of(p) implies frame@.subrange(
            HEADER_SIZE as int,
            frame@.len() as int,
        ) == p by {
            lemma_header_announces_len(p);
        }
    }
    slice_subrange(frame, HEADER_SIZE, frame.len())
}

} // verus!
