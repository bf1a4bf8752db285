use std::marker::PhantomData;

use bytes::BytesMut;
use vstd::prelude::*;

use crate::buf::{buf_extend_from_slice, buf_put_u16, buf_put_u8, buf_reserve, bytes_contents};
use crate::codec::frame::{frame_of, frameable, lemma_header_announces_len, CodecError};
use crate::constants::{HEADER_SIZE, MAX_PAYLOAD_SIZE};

verus! {

/// Writes encoded messages as frames: a header holding the compression flag
/// (always zero) and the body length, followed by the body.
#[derive(Debug)]
pub struct Encoder<U> {
    _phantom: PhantomData<U>,
}

impl<U> Default for Encoder<U> {
    fn default() -> Self {
        Encoder { _phantom: PhantomData }
    }
}

impl<U> Clone for Encoder<U> {
    fn clone(&self) -> Self {
        Encoder { _phantom: PhantomData }
    }
}

impl<U> Encoder<U> {
    /// A new encoder.
    pub fn new() -> (r: Self) {
        Encoder { _phantom: PhantomData }
    }


    /// Appends the frame of `payload` (an encoded message) to `dst`.
    ///
    /// A payload longer than `MAX_PAYLOAD_SIZE` is refused with
    /// [`CodecError::MessageTooLarge`] and `dst` is left as it was: no header
    /// room and no part of the payload is written to it.
    pub fn encode(&mut self, payload: &[u8], dst: &mut BytesMut) -> (r: Result<(), CodecError>)
        requires
            bytes_contents(*old(dst)).len() + HEADER_SIZE + payload@.len() <= isize::MAX,
        ensures
            match r {
                Ok(()) => frameable(payload@) && bytes_contents(*final(dst)) == bytes_contents(
                    *old(dst),
                ) + frame_of(payload@),
                Err(e) => !frameable(payload@) && e == CodecError::MessageTooLarge(payload@.len() as usize)
                    && bytes_contents(*final(dst)) == bytes_contents(*old(dst)),
            },
    {
        let len = payload.len();
        if len > MAX_PAYLOAD_SIZE {
            return Err(CodecError::MessageTooLarge(len));
        }
        let ghost start = bytes_contents(*dst);
        buf_reserve(dst, HEADER_SIZE + len);
        // forward-compatible compression flag
        buf_put_u8(dst, 0);
        buf_put_u16(dst, len as u16);
        buf_extend_from_slice(dst, payload);
        proof {
            lemma_header_announces_len(payload@);
            assert(bytes_contents(*dst) =~= start + frame_of(payload@));
        }
        Ok(())
    }
}

} // verus!
