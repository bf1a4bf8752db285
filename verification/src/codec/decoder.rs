use std::marker::PhantomData;

use bytes::BytesMut;
use vstd::prelude::*;

use crate::buf::{
    buf_get_u16, buf_get_u8, buf_len, buf_remaining, buf_reserve, buf_split_to, bytes_contents,
};
use crate::codec::frame::{
    announced_len, frame_of, frameable, lemma_header_announces_len, CodecError,
};
use crate::constants::HEADER_SIZE;

verus! {

/// Where the decoder stands in the current frame.
#[derive(Debug, Copy, Clone, PartialEq, Eq)]
pub enum DecodeState {
    /// Waiting for a complete header.
    ReadHeader,
    /// The header announced a body of `len` bytes.
    ReadBody { len: usize },
}

/// Reads frames written by [`crate::codec::Encoder`].
///
/// Once a body is complete, [`Decoder::decode`] hands out the bytes that
/// hold the encoded message, leaves whatever follows them in the buffer and
/// waits for the next header.
#[derive(Debug)]
pub struct Decoder<U> {
    _phantom: PhantomData<U>,
    state: DecodeState,
}

impl<U> View for Decoder<U> {
    type V = DecodeState;

    closed spec fn view(&self) -> DecodeState {
        self.state
    }
}

/// One step of reading a body of `len` bytes from `buf`: the next state,
/// what remains in the buffer, and the result. A complete body is the first
/// `len` bytes; what follows it stays in the buffer for the next frame.
pub open spec fn body_step(len: usize, buf: Seq<u8>) -> (
    DecodeState,
    Seq<u8>,
    Result<Option<Seq<u8>>, CodecError>,
) {
    if buf.len() < len {
        (DecodeState::ReadBody { len }, buf, Ok(None))
    } else {
        (
            DecodeState::ReadHeader,
            buf.subrange(len as int, buf.len() as int),
            Ok(Some(buf.subrange(0, len as int))),
        )
    }
}

/// What one call of [`Decoder::decode`] does, from the decoder's state and
/// the bytes in the buffer.
pub open spec fn decode_step(state: DecodeState, buf: Seq<u8>) -> (
    DecodeState,
    Seq<u8>,
    Result<Option<Seq<u8>>, CodecError>,
) {
    match state {
        DecodeState::ReadHeader => {
            if buf.len() < HEADER_SIZE {
                (DecodeState::ReadHeader, buf, Ok(None))
            } else if buf[0] != 0 {
                (
                    DecodeState::ReadHeader,
                    buf.subrange(1, buf.len() as int),
                    Err(CodecError::CompressionNotSupported(buf[0])),
                )
            } else {
                body_step(
                    announced_len(buf) as usize,
                    buf.subrange(HEADER_SIZE as int, buf.len() as int),
                )
            }
        },
        DecodeState::ReadBody { len } => body_step(len, buf),
    }
}

impl<U> Default for Decoder<U> {
    fn default() -> (r: Self)
        ensures
            r@ == DecodeState::ReadHeader,
    {
        Decoder::new()
    }
}

impl<U> Decoder<U> {
    /// A decoder waiting for a header.
    pub fn new() -> (r: Self)
        ensures
            r@ == DecodeState::ReadHeader,
    {
        Decoder { _phantom: PhantomData, state: DecodeState::ReadHeader }
    }

    /// Where the decoder stands in the current frame.
    pub fn state(&self) -> (r: DecodeState)
        ensures
            r == self@,
    {
        self.state
    }

    /// Reads as much of the next frame as `src` holds.
    ///
    /// Returns `Ok(None)` while the header or the body is incomplete, the
    /// bytes of a complete body (the announced number of them, taken off the
    /// front of `src`), or an error when the header's compression flag is
    /// not zero.
    pub fn decode(&mut self, src: &mut BytesMut) -> (r: Result<Option<BytesMut>, CodecError>)
        requires
            bytes_contents(*old(src)).len() + 65536 <= isize::MAX,
        ensures
            ({
                let (state, rest, res) = decode_step(old(self)@, bytes_contents(*old(src)));
                &&& final(self)@ == state
                &&& bytes_contents(*final(src)) == rest
                &&& match r {
                    Ok(Some(body)) => res == Ok::<Option<Seq<u8>>, CodecError>(
                        Some(bytes_contents(body)),
                    ),
                    Ok(None) => res == Ok::<Option<Seq<u8>>, CodecError>(None),
                    Err(e) => res == Err::<Option<Seq<u8>>, CodecError>(e),
                }
            }),
            old(self)@ matches DecodeState::ReadBody { len } ==> {
                &&& bytes_contents(*old(src)).len() < len ==> {
                    &&& r == Ok::<Option<BytesMut>, CodecError>(None)
                    &&& final(self)@ == old(self)@
                    &&& bytes_contents(*final(src)) == bytes_contents(*old(src))
                }
                &&& bytes_contents(*old(src)).len() >= len ==> {
                    &&& r matches Ok(Some(body)) && bytes_contents(body) == bytes_contents(
                        *old(src),
                    ).subrange(0, len as int)
                    &&& final(self)@ == DecodeState::ReadHeader
                    &&& bytes_contents(*final(src)) == bytes_contents(*old(src)).subrange(
                        len as int,
                        bytes_contents(*old(src)).len() as int,
                    )
                }
            },
            r matches Ok(Some(body)) ==> final(self)@ == DecodeState::ReadHeader && bytes_contents(
                body,
            ) + bytes_contents(*final(src)) =~= bytes_contents(*old(src)).subrange(
                bytes_contents(*old(src)).len() - bytes_contents(body).len() - bytes_contents(
                    *final(src),
                ).len(),
                bytes_contents(*old(src)).len() as int,
            ),
    {
        let ghost buf0 = bytes_contents(*src);
        if let DecodeState::ReadHeader = self.state {
            if buf_remaining(src) < HEADER_SIZE {
                return Ok(None);
            }
            // compression is not supported, but the flag is kept in place
            let flag = buf_get_u8(src);
            if flag != 0 {
                return Err(CodecError::CompressionNotSupported(flag));
            }
            let len = buf_get_u16(src) as usize;
            buf_reserve(src, len);
            self.state = DecodeState::ReadBody { len };
            assert(bytes_contents(*src) =~= buf0.subrange(HEADER_SIZE as int, buf0.len() as int));
        }
        if let DecodeState::ReadBody { len } = self.state {
            if buf_remaining(src) < len || buf_len(src) < len {
                Ok(None)
            } else {
                let body = buf_split_to(src, len);
                self.state = DecodeState::ReadHeader;
                Ok(Some(body))
            }
        } else {
            Ok(None)
        }
    }
}

/// Decoding undoes encoding: a decoder waiting for a header, given the
/// frame of a payload that fits in one frame followed by any bytes `more`,
/// hands out exactly that payload, leaves exactly `more` in the buffer (the
/// next frame is not touched), and waits for the next header.
pub proof fn lemma_decode_encode_roundtrip(payload: Seq<u8>, more: Seq<u8>)
    requires
        frameable(payload),
    ensures
        decode_step(DecodeState::ReadHeader, frame_of(payload) + more) == (
            DecodeState::ReadHeader,
            more,
            Ok::<Option<Seq<u8>>, CodecError>(Some(payload)),
        ),
{
    lemma_header_announces_len(payload);
    let buf = frame_of(payload) + more;
    let body = buf.subrange(HEADER_SIZE as int, buf.len() as int);
    assert(buf[0] == frame_of(payload)[0]);
    assert(announced_len(buf) == announced_len(frame_of(payload)));
    assert(body =~= payload + more);
    assert(body.subrange(0, payload.len() as int) =~= payload);
    assert(body.subrange(payload.len() as int, body.len() as int) =~= more);
}

/// Frames sent back to back are read one by one: from the frames of two
/// payloads in one buffer, a decoder waiting for a header hands out the
/// first payload, then the second, and leaves nothing behind.
pub proof fn lemma_two_frames_decode_in_turn(p1: Seq<u8>, p2: Seq<u8>)
    requires
        frameable(p1),
        frameable(p2),
    ensures
        ({
            let (s1, rest1, res1) = decode_step(DecodeState::ReadHeader, frame_of(p1) + frame_of(p2));
            let (s2, rest2, res2) = decode_step(s1, rest1);
            &&& res1 == Ok::<Option<Seq<u8>>, CodecError>(Some(p1))
            &&& res2 == Ok::<Option<Seq<u8>>, CodecError>(Some(p2))
            &&& s2 == DecodeState::ReadHeader
            &&& rest2 == Seq::<u8>::empty()
        }),
{
    lemma_decode_encode_roundtrip(p1, frame_of(p2));
    lemma_decode_encode_roundtrip(p2, Seq::empty());
    assert(frame_of(p2) + Seq::<u8>::empty() =~= frame_of(p2));
}

/// A body that has arrived only in part is waited for: a decoder that
/// expects a body of `len` bytes and holds fewer hands nothing out, keeps
/// what it holds and keeps waiting for the same body; once it holds `len`
/// bytes or more it hands out exactly the first `len` of them.
pub proof fn lemma_incomplete_body_waits(len: usize, buf: Seq<u8>)
    ensures
        buf.len() < len ==> decode_step(DecodeState::ReadBody { len }, buf) == (
            DecodeState::ReadBody { len },
            buf,
            Ok::<Option<Seq<u8>>, CodecError>(None),
        ),
        buf.len() >= len ==> decode_step(DecodeState::ReadBody { len }, buf) == (
            DecodeState::ReadHeader,
            buf.subrange(len as int, buf.len() as int),
            Ok::<Option<Seq<u8>>, CodecError>(Some(buf.subrange(0, len as int))),
        ),
{
}

/// A frame split across two reads is decoded once it is whole: after a
/// decoder waiting for a header has read the first `n` bytes of a frame,
/// appending the remaining bytes to what it left in the buffer makes it
/// hand out exactly the payload, leave nothing behind and wait for the next
/// header.
pub proof fn lemma_split_frame_decodes(payload: Seq<u8>, n: int)
    requires
        frameable(payload),
        0 <= n < frame_of(payload).len(),
    ensures
        ({
            let frame = frame_of(payload);
            let (state, rest, res) = decode_step(DecodeState::ReadHeader, frame.subrange(0, n));
            let (state2, rest2, res2) = decode_step(state, rest + frame.subrange(n, frame.len() as int));
            &&& res == Ok::<Option<Seq<u8>>, CodecError>(None)
            &&& res2 == Ok::<Option<Seq<u8>>, CodecError>(Some(payload))
            &&& rest2 == Seq::<u8>::empty()
            &&& state2 == DecodeState::ReadHeader
        }),
{
    lemma_header_announces_len(payload);
    lemma_partial_frame_waits(payload, n);
    let frame = frame_of(payload);
    let part = frame.subrange(0, n);
    let tail = frame.subrange(n, frame.len() as int);
    if n < HEADER_SIZE {
        assert(part + tail =~= frame);
        lemma_decode_encode_roundtrip(payload, Seq::empty());
        assert(frame + Seq::<u8>::empty() =~= frame);
    } else {
        assert(part[0] == frame[0]);
        assert(announced_len(part) == announced_len(frame));
        let rest = part.subrange(HEADER_SIZE as int, part.len() as int);
        assert(rest + tail =~= frame.subrange(HEADER_SIZE as int, frame.len() as int));
        assert(payload.subrange(0, payload.len() as int) =~= payload);
        assert(payload.subrange(payload.len() as int, payload.len() as int) =~= Seq::<u8>::empty());
    }
}

/// A frame that has arrived only in part yields nothing yet: while fewer
/// bytes than the whole frame are held, a decoder waiting for a header
/// consumes no body and reports `Ok(None)`.
pub proof fn lemma_partial_frame_waits(payload: Seq<u8>, n: int)
    requires
        frameable(payload),
        0 <= n < frame_of(payload).len(),
    ensures
        ({
            let (state, rest, res) = decode_step(
                DecodeState::ReadHeader,
                frame_of(payload).subrange(0, n),
            );
            res == Ok::<Option<Seq<u8>>, CodecError>(None)
        }),
{
    lemma_header_announces_len(payload);
    let part = frame_of(payload).subrange(0, n);
    if n >= HEADER_SIZE {
        assert(part[0] == frame_of(payload)[0]);
        assert(announced_len(part) == announced_len(frame_of(payload)));
    }
}

} // verus!
