//! The message model: encoding, decoding, required fields, unknown types,
//! and wire compatibility with an independent CBOR implementation.

use repo_wire::{DocumentId, Message, RepoId, RepoMessage};
use repo_wire::DecodeError;

fn join(id: &str) -> Message {
    Message::Join(RepoId(id.to_string()))
}

fn joined(id: &str) -> Message {
    Message::Joined(RepoId(id.to_string()))
}

fn sync(from: &str, to: &str, doc: &str, payload: &[u8]) -> Message {
    Message::Repo(RepoMessage::Sync {
        from_repo_id: RepoId(from.to_string()),
        to_repo_id: RepoId(to.to_string()),
        document_id: DocumentId(doc.to_string()),
        message: payload.to_vec(),
    })
}

// Hand-rolled CBOR pieces for malformed-body tests.
fn text(out: &mut Vec<u8>, s: &str) {
    let b = s.as_bytes();
    assert!(b.len() < 24);
    out.push(0x60 + b.len() as u8);
    out.extend_from_slice(b);
}

fn map_header(out: &mut Vec<u8>, n: u8) {
    assert!(n < 24);
    out.push(0xa0 + n);
}

fn body(pairs: &[(&str, &str)]) -> Vec<u8> {
    let mut out = Vec::new();
    map_header(&mut out, pairs.len() as u8);
    for (k, v) in pairs {
        text(&mut out, k);
        text(&mut out, v);
    }
    out
}

#[test]
fn round_trip_join() {
    let m = join("peer-a");
    assert_eq!(Message::decode(&m.encode()), Ok(m));
}

#[test]
fn round_trip_joined() {
    let m = joined("peer-b");
    assert_eq!(Message::decode(&m.encode()), Ok(m));
}

#[test]
fn round_trip_sync() {
    let m = sync("peer-a", "peer-b", "doc-1", &[0, 1, 2, 250]);
    assert_eq!(Message::decode(&m.encode()), Ok(m));
}

#[test]
fn round_trip_empty_strings_and_payload() {
    let m = sync("", "", "", &[]);
    assert_eq!(Message::decode(&m.encode()), Ok(m));
}

#[test]
fn round_trip_long_id() {
    // long enough to need a two-byte length header
    let long: String = "x".repeat(300);
    let m = join(&long);
    assert_eq!(Message::decode(&m.encode()), Ok(m));
}

#[test]
fn round_trip_non_ascii_id() {
    let m = join("pèer-ü\u{1F600}");
    assert_eq!(Message::decode(&m.encode()), Ok(m));
}

#[test]
fn zero_length_body_is_missing_type() {
    assert_eq!(Message::decode(&[]), Err(DecodeError::MissingType));
}

#[test]
fn missing_type_field() {
    let b = body(&[("senderId", "a")]);
    assert_eq!(Message::decode(&b), Err(DecodeError::MissingType));
}

#[test]
fn join_missing_sender() {
    let b = body(&[("type", "join")]);
    assert_eq!(Message::decode(&b), Err(DecodeError::MissingSenderId));
}

#[test]
fn message_missing_sender() {
    let b = body(&[("type", "message"), ("targetId", "b"), ("documentId", "d")]);
    assert_eq!(Message::decode(&b), Err(DecodeError::MissingSenderId));
}

#[test]
fn message_missing_target() {
    let b = body(&[("type", "message"), ("senderId", "a"), ("documentId", "d")]);
    assert_eq!(Message::decode(&b), Err(DecodeError::MissingTargetId));
}

#[test]
fn message_missing_document() {
    let b = body(&[("type", "message"), ("senderId", "a"), ("targetId", "b")]);
    assert_eq!(Message::decode(&b), Err(DecodeError::MissingDocumentId));
}

#[test]
fn message_missing_payload() {
    let b = body(&[
        ("type", "message"),
        ("senderId", "a"),
        ("targetId", "b"),
        ("documentId", "d"),
    ]);
    assert_eq!(Message::decode(&b), Err(DecodeError::MissingData));
}

#[test]
fn unknown_type_is_reported_with_its_name() {
    let b = body(&[("type", "frobnicate"), ("senderId", "a")]);
    assert_eq!(
        Message::decode(&b),
        Err(DecodeError::UnknownType("frobnicate".to_string()))
    );
}

#[test]
fn indefinite_length_map_is_missing_len() {
    assert_eq!(Message::decode(&[0xbf, 0xff]), Err(DecodeError::MissingLen));
}

#[test]
fn non_map_body_is_structural_error() {
    match Message::decode(&[0x01]) {
        Err(DecodeError::Cbor(_)) => {}
        other => panic!("expected a structural error, got {:?}", other),
    }
}

#[test]
fn truncated_body_is_structural_error() {
    let mut b = body(&[("type", "join"), ("senderId", "abc")]);
    b.pop();
    match Message::decode(&b) {
        Err(DecodeError::Cbor(_)) => {}
        other => panic!("expected a structural error, got {:?}", other),
    }
}

#[test]
fn unknown_keys_are_skipped() {
    // {future: [1, [2, 3]], type: "join", extra: {1: 2}, senderId: "a"}
    let mut b = Vec::new();
    map_header(&mut b, 4);
    text(&mut b, "future");
    b.extend_from_slice(&[0x82, 0x01, 0x82, 0x02, 0x03]);
    text(&mut b, "type");
    text(&mut b, "join");
    text(&mut b, "extra");
    b.extend_from_slice(&[0xa1, 0x01, 0x02]);
    text(&mut b, "senderId");
    text(&mut b, "a");
    assert_eq!(Message::decode(&b), Ok(join("a")));
}

#[test]
fn later_duplicate_key_wins() {
    let b = body(&[("type", "join"), ("senderId", "a"), ("senderId", "b")]);
    assert_eq!(Message::decode(&b), Ok(join("b")));
}

#[test]
fn errors_describe_themselves() {
    assert_eq!(DecodeError::MissingType.describe(), "no type field");
    assert_eq!(
        DecodeError::UnknownType("frobnicate".to_string()).describe(),
        "frobnicate"
    );
    assert_eq!(DecodeError::MissingLen.describe(), "missing len");
}

#[test]
fn minicbor_decodes_our_encoding() {
    let m = sync("peer-a", "peer-b", "doc-1", &[9, 8, 7]);
    let bytes = m.encode();
    let mut d = minicbor::Decoder::new(&bytes);
    let n = d.map().unwrap().unwrap();
    assert_eq!(n, 5);
    assert_eq!(d.str().unwrap(), "type");
    assert_eq!(d.str().unwrap(), "message");
    assert_eq!(d.str().unwrap(), "senderId");
    assert_eq!(d.str().unwrap(), "peer-a");
    assert_eq!(d.str().unwrap(), "targetId");
    assert_eq!(d.str().unwrap(), "peer-b");
    assert_eq!(d.str().unwrap(), "documentId");
    assert_eq!(d.str().unwrap(), "doc-1");
    assert_eq!(d.str().unwrap(), "message");
    assert_eq!(d.bytes().unwrap(), &[9, 8, 7]);
}

#[test]
fn we_decode_minicbor_encoding() {
    let out: Vec<u8> = Vec::new();
    let mut e = minicbor::Encoder::new(out);
    e.map(2).unwrap();
    e.str("type").unwrap();
    e.str("joined").unwrap();
    e.str("senderId").unwrap();
    e.str("peer-z").unwrap();
    let bytes = e.into_writer();
    assert_eq!(Message::decode(&bytes), Ok(joined("peer-z")));
}
