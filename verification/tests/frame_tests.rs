//! The framing codec: partial delivery, frame boundaries, and error cases.

use bytes::BytesMut;
use repo_wire::frame::Codec;
use repo_wire::{CodecError, Message, RepoId};

fn join(id: &str) -> Message {
    Message::Join(RepoId(id.to_string()))
}

fn frame_of(m: &Message) -> Vec<u8> {
    let body = m.encode();
    let mut out = (body.len() as u32).to_be_bytes().to_vec();
    out.extend_from_slice(&body);
    out
}

#[test]
fn needs_more_data_on_empty_buffer() {
    let mut codec = Codec::new();
    let mut buf = BytesMut::new();
    assert!(matches!(codec.decode(&mut buf), Ok(None)));
}

#[test]
fn partial_delivery_byte_at_a_time() {
    let m = join("peer-a");
    let bytes = frame_of(&m);
    let mut codec = Codec::new();
    let mut buf = BytesMut::new();
    for (i, b) in bytes.iter().enumerate() {
        buf.extend_from_slice(&[*b]);
        let step = codec.decode(&mut buf).unwrap();
        if i + 1 < bytes.len() {
            assert!(step.is_none(), "spurious output after {} bytes", i + 1);
        } else {
            assert_eq!(step, Some(m.clone()));
        }
    }
    assert_eq!(buf.len(), 0);
}

#[test]
fn partial_delivery_two_halves() {
    let m = join("peer-b");
    let bytes = frame_of(&m);
    let mid = bytes.len() / 2;
    let mut codec = Codec::new();
    let mut buf = BytesMut::new();
    buf.extend_from_slice(&bytes[..mid]);
    assert!(matches!(codec.decode(&mut buf), Ok(None)));
    buf.extend_from_slice(&bytes[mid..]);
    assert_eq!(codec.decode(&mut buf).unwrap(), Some(m));
}

#[test]
fn two_frames_in_one_buffer() {
    let m1 = join("one");
    let m2 = join("two");
    let mut codec = Codec::new();
    let mut buf = BytesMut::new();
    buf.extend_from_slice(&frame_of(&m1));
    buf.extend_from_slice(&frame_of(&m2));
    assert_eq!(codec.decode(&mut buf).unwrap(), Some(m1));
    assert_eq!(codec.decode(&mut buf).unwrap(), Some(m2));
    assert!(matches!(codec.decode(&mut buf), Ok(None)));
}

#[test]
fn encode_then_decode() {
    let m = join("peer-c");
    let mut codec = Codec::new();
    let mut buf = BytesMut::new();
    codec.encode(m.clone(), &mut buf).unwrap();
    assert_eq!(&buf[..], &frame_of(&m)[..]);
    assert_eq!(codec.decode(&mut buf).unwrap(), Some(m));
    assert_eq!(buf.len(), 0);
}

#[test]
fn bad_body_is_a_decode_error_and_consumes_the_frame() {
    let mut codec = Codec::new();
    let mut buf = BytesMut::new();
    // length 1, body one byte that is not a map
    buf.extend_from_slice(&[0, 0, 0, 1, 0x01]);
    buf.extend_from_slice(&frame_of(&join("after")));
    match codec.decode(&mut buf) {
        Err(CodecError::Decode(_)) => {}
        other => panic!("expected a decode error, got {:?}", other),
    }
    // the bad frame was consumed; the next frame still decodes
    assert_eq!(codec.decode(&mut buf).unwrap(), Some(join("after")));
}

#[test]
fn zero_length_frame_fails_message_decoding() {
    let mut codec = Codec::new();
    let mut buf = BytesMut::new();
    buf.extend_from_slice(&[0, 0, 0, 0]);
    assert!(matches!(codec.decode(&mut buf), Err(CodecError::Decode(_))));
    assert_eq!(buf.len(), 0);
}
