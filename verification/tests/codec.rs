use bytes::{BufMut, BytesMut};

use grapevine::codec::decoder::DecodeState;
use grapevine::codec::frame::frame_body;
use grapevine::codec::{CodecError, Decoder, Encoder};
use grapevine::constants::{HEADER_SIZE, MAX_PAYLOAD_SIZE};

#[test]
fn constants() {
    assert_eq!(HEADER_SIZE, 3);
    assert_eq!(MAX_PAYLOAD_SIZE, 1397);
}

#[test]
fn encode_writes_header_and_body() {
    let mut encoder = Encoder::<()>::default();
    let mut dst = BytesMut::new();
    encoder.encode(&[7, 8, 9], &mut dst).unwrap();
    assert_eq!(dst.as_ref(), &[0, 0, 3, 7, 8, 9]);
}

#[test]
fn encode_length_is_big_endian() {
    let mut encoder = Encoder::<()>::new();
    let payload = vec![1u8; 300];
    let mut dst = BytesMut::new();
    encoder.encode(&payload, &mut dst).unwrap();
    assert_eq!(&dst[..3], &[0, 1, 44]);
    assert_eq!(dst.len(), 303);
    assert_eq!(frame_body(&dst), payload.as_slice());
}

#[test]
fn encode_refuses_oversized_payload() {
    let mut encoder = Encoder::<()>::new();
    let payload = vec![0u8; MAX_PAYLOAD_SIZE + 1];
    let mut dst = BytesMut::new();
    dst.put_u8(42);
    assert_eq!(
        encoder.encode(&payload, &mut dst),
        Err(CodecError::MessageTooLarge(MAX_PAYLOAD_SIZE + 1))
    );
    assert_eq!(dst.as_ref(), &[42]);
    let payload = vec![0u8; MAX_PAYLOAD_SIZE];
    assert!(encoder.encode(&payload, &mut BytesMut::new()).is_ok());
}

#[test]
fn decode_roundtrip() {
    let mut encoder = Encoder::<()>::new();
    let mut decoder = Decoder::<()>::new();
    let mut buf = BytesMut::new();
    encoder.encode(&[1, 2, 3, 4], &mut buf).unwrap();
    let body = decoder.decode(&mut buf).unwrap().unwrap();
    assert_eq!(body.as_ref(), &[1, 2, 3, 4]);
    assert!(buf.is_empty());
    assert_eq!(decoder.state(), DecodeState::ReadHeader);
    assert_eq!(decoder.decode(&mut buf), Ok(None));
}

#[test]
fn frames_back_to_back_decode_in_turn() {
    let mut encoder = Encoder::<()>::new();
    let mut decoder = Decoder::<()>::new();
    let mut buf = BytesMut::new();
    encoder.encode(&[1, 2, 3], &mut buf).unwrap();
    encoder.encode(&[4, 5], &mut buf).unwrap();
    let first = decoder.decode(&mut buf).unwrap().unwrap();
    assert_eq!(first.as_ref(), &[1, 2, 3]);
    assert_eq!(buf.as_ref(), &[0, 0, 2, 4, 5]);
    let second = decoder.decode(&mut buf).unwrap().unwrap();
    assert_eq!(second.as_ref(), &[4, 5]);
    assert!(buf.is_empty());
    assert_eq!(decoder.state(), DecodeState::ReadHeader);
}

#[test]
fn decode_waits_for_header_and_body() {
    let mut decoder = Decoder::<()>::default();
    let mut buf = BytesMut::new();
    buf.put_slice(&[0, 0]);
    assert_eq!(decoder.decode(&mut buf), Ok(None));
    assert_eq!(buf.len(), 2);
    buf.put_slice(&[5, 1, 2]);
    assert_eq!(decoder.decode(&mut buf), Ok(None));
    assert_eq!(decoder.state(), DecodeState::ReadBody { len: 5 });
    assert_eq!(buf.as_ref(), &[1, 2]);
    buf.put_slice(&[3, 4, 5]);
    let body = decoder.decode(&mut buf).unwrap().unwrap();
    assert_eq!(body.as_ref(), &[1, 2, 3, 4, 5]);
}

#[test]
fn decode_refuses_compression() {
    let mut decoder = Decoder::<()>::new();
    let mut buf = BytesMut::new();
    buf.put_slice(&[3, 0, 1, 9]);
    assert_eq!(decoder.decode(&mut buf), Err(CodecError::CompressionNotSupported(3)));
    assert_eq!(buf.as_ref(), &[0, 1, 9]);
    assert_eq!(decoder.state(), DecodeState::ReadHeader);
}

#[test]
fn frame_split_at_any_point_decodes_once_whole() {
    let mut encoder = Encoder::<()>::new();
    let payload = [10u8, 20, 30, 40, 50, 60];
    let mut frame = BytesMut::new();
    encoder.encode(&payload, &mut frame).unwrap();
    for n in 0..frame.len() {
        let mut decoder = Decoder::<()>::new();
        let mut buf = BytesMut::new();
        buf.put_slice(&frame[..n]);
        assert_eq!(decoder.decode(&mut buf), Ok(None));
        buf.put_slice(&frame[n..]);
        let body = decoder.decode(&mut buf).unwrap().unwrap();
        assert_eq!(body.as_ref(), &payload);
        assert!(buf.is_empty());
    }
}
