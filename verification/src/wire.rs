//! Mapping between [`Message`] values and the frame-body byte encoding: a
//! CBOR map with string keys, a `type` discriminant naming the variant, and
//! variant-specific named fields. Decoding walks the declared entries, skips
//! keys it does not recognize, and only then dispatches on `type`.

use vstd::prelude::*;
use vstd::utf8::{decode_utf8, encode_utf8, valid_utf8};

use crate::cbor::{
    bytes_to_string, lemma_header_round_trip, parse_header, skip_items, spec_header,
    spec_parse_header, spec_skip_items, write_header,
};
use crate::error::{DecodeError, DecodeErrorV};
use crate::message::{DocumentId, Message, MessageV, RepoId, RepoMessage, SyncV};

verus! {

broadcast use vstd::utf8::encode_utf8_valid_utf8, vstd::utf8::encode_utf8_decode_utf8;

/// One definite-length text string item: header plus UTF-8 payload.
pub open spec fn spec_text_item(s: Seq<char>) -> Seq<u8> {
    spec_header(3, encode_utf8(s).len()) + encode_utf8(s)
}

/// One definite-length byte string item: header plus raw payload.
pub open spec fn spec_bytes_item(b: Seq<u8>) -> Seq<u8> {
    spec_header(2, b.len()) + b
}

/// The exact bytes the encoder produces for a message: a map of two entries
/// for the handshake variants, five for a sync message, fields always in the
/// same order for a given variant.
pub open spec fn spec_encode_message(m: MessageV) -> Seq<u8> {
    match m {
        MessageV::Join(id) => spec_header(5, 2) + (spec_text_item("type"@) + (spec_text_item(
            "join"@,
        ) + (spec_text_item("senderId"@) + spec_text_item(id)))),
        MessageV::Joined(id) => spec_header(5, 2) + (spec_text_item("type"@) + (spec_text_item(
            "joined"@,
        ) + (spec_text_item("senderId"@) + spec_text_item(id)))),
        MessageV::Repo(s) => spec_header(5, 5) + (spec_text_item("type"@) + (spec_text_item(
            "message"@,
        ) + (spec_text_item("senderId"@) + (spec_text_item(s.from_repo_id) + (spec_text_item(
            "targetId"@,
        ) + (spec_text_item(s.to_repo_id) + (spec_text_item("documentId"@) + (spec_text_item(
            s.document_id,
        ) + (spec_text_item("message"@) + spec_bytes_item(s.message)))))))))),
    }
}

/// Concatenation of byte sequences is associative.
proof fn lemma_concat_assoc(a: Seq<u8>, b: Seq<u8>, c: Seq<u8>)
    ensures
        (a + b) + c == a + (b + c),
{
    assert((a + b) + c =~= a + (b + c));
}

/// Appends one text string item to `out`.
fn write_text(out: &mut Vec<u8>, s: &str)
    ensures
        final(out)@ == old(out)@ + spec_text_item(s@),
{
    let b = s.as_bytes();
    let blen = b.len();
    assert(blen <= usize::MAX && usize::MAX <= u64::MAX);
    write_header(out, 3, blen as u64);
    out.extend_from_slice(b);
    proof {
        assert(out@ =~= old(out)@ + spec_text_item(s@));
    }
}

impl Message {
    /// Serializes the message body, ready for length-prefixed framing.
    #[verifier::rlimit(100)]
    pub fn encode(&self) -> (r: Vec<u8>)
        ensures
            r@ == spec_encode_message(self@),
    {
        let mut out: Vec<u8> = Vec::new();
        match self {
            Message::Join(id) => {
                write_header(&mut out, 5, 2);
                write_text(&mut out, "type");
                write_text(&mut out, "join");
                write_text(&mut out, "senderId");
                write_text(&mut out, id.0.as_str());
                proof {
                    assert(out@ =~= spec_encode_message(self@));
                }
                out
            },
            Message::Joined(id) => {
                write_header(&mut out, 5, 2);
                write_text(&mut out, "type");
                write_text(&mut out, "joined");
                write_text(&mut out, "senderId");
                write_text(&mut out, id.0.as_str());
                proof {
                    assert(out@ =~= spec_encode_message(self@));
                }
                out
            },
            Message::Repo(RepoMessage::Sync { from_repo_id, to_repo_id, document_id, message }) => {
                write_header(&mut out, 5, 5);
                write_text(&mut out, "type");
                write_text(&mut out, "message");
                write_text(&mut out, "senderId");
                write_text(&mut out, from_repo_id.0.as_str());
                write_text(&mut out, "targetId");
                write_text(&mut out, to_repo_id.0.as_str());
                write_text(&mut out, "documentId");
                write_text(&mut out, document_id.0.as_str());
                write_text(&mut out, "message");
                let mlen = message.len();
                assert(mlen <= usize::MAX && usize::MAX <= u64::MAX);
                write_header(&mut out, 2, mlen as u64);
                out.extend_from_slice(message.as_slice());
                proof {
                    let t1 = spec_text_item("type"@);
                    let t2 = spec_text_item("message"@);
                    let t3 = spec_text_item("senderId"@);
                    let t4 = spec_text_item(from_repo_id@);
                    let t5 = spec_text_item("targetId"@);
                    let t6 = spec_text_item(to_repo_id@);
                    let t7 = spec_text_item("documentId"@);
                    let t8 = spec_text_item(document_id@);
                    let t10 = spec_bytes_item(message@);
                    let h = spec_header(5, 5);
                    let l1 = h + t1;
                    let l2 = l1 + t2;
                    let l3 = l2 + t3;
                    let l4 = l3 + t4;
                    let l5 = l4 + t5;
                    let l6 = l5 + t6;
                    let l7 = l6 + t7;
                    let l8 = l7 + t8;
                    let l9 = l8 + t2;
                    assert(out@ == l9 + t10);
                    lemma_concat_assoc(l8, t2, t10);
                    lemma_concat_assoc(l7, t8, t2 + t10);
                    lemma_concat_assoc(l6, t7, t8 + (t2 + t10));
                    lemma_concat_assoc(l5, t6, t7 + (t8 + (t2 + t10)));
                    lemma_concat_assoc(l4, t5, t6 + (t7 + (t8 + (t2 + t10))));
                    lemma_concat_assoc(l3, t4, t5 + (t6 + (t7 + (t8 + (t2 + t10)))));
                    lemma_concat_assoc(l2, t3, t4 + (t5 + (t6 + (t7 + (t8 + (t2 + t10))))));
                    lemma_concat_assoc(l1, t2, t3 + (t4 + (t5 + (t6 + (t7 + (t8 + (t2 + t10)))))));
                    lemma_concat_assoc(
                        h,
                        t1,
                        t2 + (t3 + (t4 + (t5 + (t6 + (t7 + (t8 + (t2 + t10))))))),
                    );
                    assert(out@ == spec_encode_message(self@));
                }
                out
            },
        }
    }
}

/// The field values gathered while walking the entries of a body's map;
/// a later entry under the same key replaces an earlier one.
pub struct FieldsV {
    pub kind_name: Option<Seq<char>>,
    pub sender_id: Option<Seq<char>>,
    pub target_id: Option<Seq<char>>,
    pub document_id: Option<Seq<char>>,
    pub message: Option<Seq<u8>>,
}

/// No field seen yet.
pub open spec fn spec_empty_fields() -> FieldsV {
    FieldsV {
        kind_name: None,
        sender_id: None,
        target_id: None,
        document_id: None,
        message: None,
    }
}

/// Parses one text string item at the front of `data`: its characters and
/// what follows it. The payload must be valid UTF-8.
pub open spec fn spec_parse_text(data: Seq<u8>) -> Option<(Seq<char>, Seq<u8>)> {
    match spec_parse_header(data) {
        None => None,
        Some((major, arg, c)) => {
            if major == 3 && c + arg <= data.len() {
                let payload = data.subrange(c, c + arg);
                if valid_utf8(payload) {
                    Some((decode_utf8(payload), data.skip(c + arg)))
                } else {
                    None
                }
            } else {
                None
            }
        },
    }
}

/// Parses one byte string item at the front of `data`.
pub open spec fn spec_parse_payload(data: Seq<u8>) -> Option<(Seq<u8>, Seq<u8>)> {
    match spec_parse_header(data) {
        None => None,
        Some((major, arg, c)) => {
            if major == 2 && c + arg <= data.len() {
                Some((data.subrange(c, c + arg), data.skip(c + arg)))
            } else {
                None
            }
        },
    }
}

/// Walks `n` map entries at the front of `data`, recording the fields this
/// layer knows and stepping over any other key's value.
pub open spec fn spec_read_entries(data: Seq<u8>, n: int, acc: FieldsV) -> Option<FieldsV>
    decreases n,
{
    if n <= 0 {
        Some(acc)
    } else {
        match spec_parse_text(data) {
            None => None,
            Some((key, rest1)) => {
                if key == "senderId"@ {
                    match spec_parse_text(rest1) {
                        None => None,
                        Some((v, rest2)) => spec_read_entries(
                            rest2,
                            n - 1,
                            FieldsV { sender_id: Some(v), ..acc },
                        ),
                    }
                } else if key == "targetId"@ {
                    match spec_parse_text(rest1) {
                        None => None,
                        Some((v, rest2)) => spec_read_entries(
                            rest2,
                            n - 1,
                            FieldsV { target_id: Some(v), ..acc },
                        ),
                    }
                } else if key == "documentId"@ {
                    match spec_parse_text(rest1) {
                        None => None,
                        Some((v, rest2)) => spec_read_entries(
                            rest2,
                            n - 1,
                            FieldsV { document_id: Some(v), ..acc },
                        ),
                    }
                } else if key == "type"@ {
                    match spec_parse_text(rest1) {
                        None => None,
                        Some((v, rest2)) => spec_read_entries(
                            rest2,
                            n - 1,
                            FieldsV { kind_name: Some(v), ..acc },
                        ),
                    }
                } else if key == "message"@ {
                    match spec_parse_payload(rest1) {
                        None => None,
                        Some((v, rest2)) => spec_read_entries(
                            rest2,
                            n - 1,
                            FieldsV { message: Some(v), ..acc },
                        ),
                    }
                } else {
                    match spec_skip_items(rest1, 1) {
                        None => None,
                        Some(rest2) => spec_read_entries(rest2, n - 1, acc),
                    }
                }
            },
        }
    }
}

/// Once every entry is consumed, the `type` field decides the variant; each
/// variant's required fields are checked in a fixed order, and the first
/// absent one is reported.
pub open spec fn spec_dispatch(f: FieldsV) -> Result<MessageV, DecodeErrorV> {
    match f.kind_name {
        None => Err(DecodeErrorV::MissingType),
        Some(t) => {
            if t == "join"@ {
                match f.sender_id {
                    None => Err(DecodeErrorV::MissingSenderId),
                    Some(s) => Ok(MessageV::Join(s)),
                }
            } else if t == "message"@ {
                match f.sender_id {
                    None => Err(DecodeErrorV::MissingSenderId),
                    Some(from) => match f.target_id {
                        None => Err(DecodeErrorV::MissingTargetId),
                        Some(to) => match f.document_id {
                            None => Err(DecodeErrorV::MissingDocumentId),
                            Some(doc) => match f.message {
                                None => Err(DecodeErrorV::MissingData),
                                Some(payload) => Ok(
                                    MessageV::Repo(
                                        SyncV {
                                            from_repo_id: from,
                                            to_repo_id: to,
                                            document_id: doc,
                                            message: payload,
                                        },
                                    ),
                                ),
                            },
                        },
                    },
                }
            } else if t == "joined"@ {
                match f.sender_id {
                    None => Err(DecodeErrorV::MissingSenderId),
                    Some(s) => Ok(MessageV::Joined(s)),
                }
            } else {
                Err(DecodeErrorV::UnknownType(t))
            }
        },
    }
}

/// What decoding a frame body yields: the message, or exactly which error.
/// An empty body reads as an empty map and so fails with a missing `type`;
/// an indefinite-length map is rejected as carrying no length; anything else
/// that is not `n` well-formed entries is a structural failure.
pub open spec fn spec_decode_message(data: Seq<u8>) -> Result<MessageV, DecodeErrorV> {
    if data.len() == 0 {
        spec_dispatch(spec_empty_fields())
    } else if data[0] / 32 != 5 {
        Err(DecodeErrorV::Cbor)
    } else if data[0] % 32 == 31 {
        Err(DecodeErrorV::MissingLen)
    } else {
        match spec_parse_header(data) {
            None => Err(DecodeErrorV::Cbor),
            Some((major, n, c)) => match spec_read_entries(
                data.skip(c),
                n as int,
                spec_empty_fields(),
            ) {
                None => Err(DecodeErrorV::Cbor),
                Some(f) => spec_dispatch(f),
            },
        }
    }
}

/// The decode still owed from position `pos`, with `remaining` entries left
/// and `acc` already gathered.
pub open spec fn spec_decode_from(data: Seq<u8>, pos: int, remaining: int, acc: FieldsV) -> Result<
    MessageV,
    DecodeErrorV,
> {
    match spec_read_entries(data.skip(pos), remaining, acc) {
        None => Err(DecodeErrorV::Cbor),
        Some(f) => spec_dispatch(f),
    }
}

/// The UTF-8 encoding of a character sequence takes at most four bytes per
/// character.
pub proof fn lemma_encode_utf8_len(chars: Seq<char>)
    ensures
        encode_utf8(chars).len() <= 4 * chars.len(),
    decreases chars.len(),
{
    if chars.len() == 0 {
    } else {
        lemma_encode_utf8_len(chars.drop_first());
    }
}

/// A text string item parses back to the characters it was built from,
/// leaving exactly what followed it.
pub proof fn lemma_parse_text_item(s: Seq<char>, rest: Seq<u8>)
    requires
        encode_utf8(s).len() < 0x10000000000000000,
    ensures
        spec_parse_text(spec_text_item(s) + rest) == Some((s, rest)),
{
    let e = encode_utf8(s);
    let h = spec_header(3, e.len());
    let data = spec_text_item(s) + rest;
    lemma_header_round_trip(3, e.len(), e + rest);
    assert(data =~= h + (e + rest));
    assert(spec_parse_header(data) == Some((3u8, e.len(), h.len() as int)));
    assert(data.subrange(h.len() as int, (h.len() + e.len()) as int) =~= e);
    assert(data.skip((h.len() + e.len()) as int) =~= rest);
}

/// A byte string item parses back to the bytes it was built from.
pub proof fn lemma_parse_payload_item(b: Seq<u8>, rest: Seq<u8>)
    requires
        b.len() < 0x10000000000000000,
    ensures
        spec_parse_payload(spec_bytes_item(b) + rest) == Some((b, rest)),
{
    let h = spec_header(2, b.len());
    let data = spec_bytes_item(b) + rest;
    lemma_header_round_trip(2, b.len(), b + rest);
    assert(data =~= h + (b + rest));
    assert(spec_parse_header(data) == Some((2u8, b.len(), h.len() as int)));
    assert(data.subrange(h.len() as int, (h.len() + b.len()) as int) =~= b);
    assert(data.skip((h.len() + b.len()) as int) =~= rest);
}

/// Every field of the message is small enough for a definite-length header:
/// the only machine limit the encoding imposes.
pub open spec fn msg_wf(m: MessageV) -> bool {
    match m {
        MessageV::Join(id) => encode_utf8(id).len() < 0x10000000000000000,
        MessageV::Joined(id) => encode_utf8(id).len() < 0x10000000000000000,
        MessageV::Repo(s) => encode_utf8(s.from_repo_id).len() < 0x10000000000000000 && encode_utf8(
            s.to_repo_id,
        ).len() < 0x10000000000000000 && encode_utf8(s.document_id).len() < 0x10000000000000000
            && s.message.len() < 0x10000000000000000,
    }
}

/// The lengths and mutual distinctness of the key and type strings of the
/// wire format, and that each is small enough for a text item.
proof fn lemma_wire_literals()
    ensures
        "type"@.len() == 4,
        "join"@.len() == 4,
        "joined"@.len() == 6,
        "message"@.len() == 7,
        "senderId"@.len() == 8,
        "targetId"@.len() == 8,
        "documentId"@.len() == 10,
        "targetId"@ != "senderId"@,
        encode_utf8("type"@).len() < 0x10000000000000000,
        encode_utf8("join"@).len() < 0x10000000000000000,
        encode_utf8("joined"@).len() < 0x10000000000000000,
        encode_utf8("message"@).len() < 0x10000000000000000,
        encode_utf8("senderId"@).len() < 0x10000000000000000,
        encode_utf8("targetId"@).len() < 0x10000000000000000,
        encode_utf8("documentId"@).len() < 0x10000000000000000,
{
    reveal_strlit("type");
    reveal_strlit("join");
    reveal_strlit("joined");
    reveal_strlit("message");
    reveal_strlit("senderId");
    reveal_strlit("targetId");
    reveal_strlit("documentId");
    lemma_encode_utf8_len("type"@);
    lemma_encode_utf8_len("join"@);
    lemma_encode_utf8_len("joined"@);
    lemma_encode_utf8_len("message"@);
    lemma_encode_utf8_len("senderId"@);
    lemma_encode_utf8_len("targetId"@);
    lemma_encode_utf8_len("documentId"@);
    assert("targetId"@[0] == 't' && "senderId"@[0] == 's');
}

/// Round trip of a two-entry handshake body: `kind` is the type string and
/// `make` rebuilds the variant from the sender identity.
#[verifier::rlimit(100)]
proof fn lemma_round_trip_handshake(id: Seq<char>, kind: Seq<char>, m: MessageV)
    requires
        encode_utf8(id).len() < 0x10000000000000000,
        kind == "join"@ || kind == "joined"@,
        m == if kind == "join"@ {
            MessageV::Join(id)
        } else {
            MessageV::Joined(id)
        },
    ensures
        spec_decode_message(
            spec_header(5, 2) + (spec_text_item("type"@) + (spec_text_item(kind) + (spec_text_item(
                "senderId"@,
            ) + spec_text_item(id)))),
        ) == Ok::<MessageV, DecodeErrorV>(m),
{
    lemma_wire_literals();
    let empty = Seq::<u8>::empty();
    let t1 = spec_text_item("type"@);
    let t2 = spec_text_item(kind);
    let t3 = spec_text_item("senderId"@);
    let t4 = spec_text_item(id);
    let rest0 = t1 + (t2 + (t3 + t4));
    let rest1 = t2 + (t3 + t4);
    let rest2 = t3 + t4;
    let data = spec_header(5, 2) + rest0;
    lemma_header_round_trip(5, 2, rest0);
    assert(data[0] == 162);
    assert(data.skip(1) =~= rest0);
    lemma_parse_text_item("type"@, rest1);
    assert(spec_parse_text(rest0) == Some(("type"@, rest1)));
    lemma_parse_text_item(kind, rest2);
    assert(spec_parse_text(rest1) == Some((kind, rest2)));
    lemma_parse_text_item("senderId"@, t4);
    assert(spec_parse_text(rest2) == Some(("senderId"@, t4)));
    lemma_parse_text_item(id, empty);
    assert(t4 + empty =~= t4);
    assert(spec_parse_text(t4) == Some((id, empty)));
    let acc0 = spec_empty_fields();
    let acc1 = FieldsV { kind_name: Some(kind), ..acc0 };
    let acc2 = FieldsV { sender_id: Some(id), ..acc1 };
    assert(spec_read_entries(empty, 0, acc2) == Some(acc2));
    assert(spec_read_entries(rest2, 1, acc1) == Some(acc2));
    assert(spec_read_entries(rest0, 2, acc0) == Some(acc2));
    assert(spec_dispatch(acc2) == Ok::<MessageV, DecodeErrorV>(m));
}

/// Round trip of a five-entry sync body.
#[verifier::rlimit(100)]
proof fn lemma_round_trip_sync(s: SyncV)
    requires
        msg_wf(MessageV::Repo(s)),
    ensures
        spec_decode_message(spec_encode_message(MessageV::Repo(s))) == Ok::<
            MessageV,
            DecodeErrorV,
        >(MessageV::Repo(s)),
{
    lemma_wire_literals();
    let empty = Seq::<u8>::empty();
    let t1 = spec_text_item("type"@);
    let t2 = spec_text_item("message"@);
    let t3 = spec_text_item("senderId"@);
    let t4 = spec_text_item(s.from_repo_id);
    let t5 = spec_text_item("targetId"@);
    let t6 = spec_text_item(s.to_repo_id);
    let t7 = spec_text_item("documentId"@);
    let t8 = spec_text_item(s.document_id);
    let t9 = spec_text_item("message"@);
    let t10 = spec_bytes_item(s.message);
    let rest9 = t10;
    let rest8 = t9 + rest9;
    let rest7 = t8 + rest8;
    let rest6 = t7 + rest7;
    let rest5 = t6 + rest6;
    let rest4 = t5 + rest5;
    let rest3 = t4 + rest4;
    let rest2 = t3 + rest3;
    let rest1 = t2 + rest2;
    let rest0 = t1 + rest1;
    let data = spec_header(5, 5) + rest0;
    assert(data == spec_encode_message(MessageV::Repo(s)));
    lemma_header_round_trip(5, 5, rest0);
    assert(data[0] == 165);
    assert(data.skip(1) =~= rest0);
    lemma_parse_text_item("type"@, rest1);
    assert(spec_parse_text(rest0) == Some(("type"@, rest1)));
    lemma_parse_text_item("message"@, rest2);
    assert(spec_parse_text(rest1) == Some(("message"@, rest2)));
    lemma_parse_text_item("senderId"@, rest3);
    assert(spec_parse_text(rest2) == Some(("senderId"@, rest3)));
    lemma_parse_text_item(s.from_repo_id, rest4);
    assert(spec_parse_text(rest3) == Some((s.from_repo_id, rest4)));
    lemma_parse_text_item("targetId"@, rest5);
    assert(spec_parse_text(rest4) == Some(("targetId"@, rest5)));
    lemma_parse_text_item(s.to_repo_id, rest6);
    assert(spec_parse_text(rest5) == Some((s.to_repo_id, rest6)));
    lemma_parse_text_item("documentId"@, rest7);
    assert(spec_parse_text(rest6) == Some(("documentId"@, rest7)));
    lemma_parse_text_item(s.document_id, rest8);
    assert(spec_parse_text(rest7) == Some((s.document_id, rest8)));
    lemma_parse_text_item("message"@, rest9);
    assert(spec_parse_text(rest8) == Some(("message"@, rest9)));
    lemma_parse_payload_item(s.message, empty);
    assert(t10 + empty =~= t10);
    assert(spec_parse_payload(rest9) == Some((s.message, empty)));
    let acc0 = spec_empty_fields();
    let acc1 = FieldsV { kind_name: Some("message"@), ..acc0 };
    let acc2 = FieldsV { sender_id: Some(s.from_repo_id), ..acc1 };
    let acc3 = FieldsV { target_id: Some(s.to_repo_id), ..acc2 };
    let acc4 = FieldsV { document_id: Some(s.document_id), ..acc3 };
    let acc5 = FieldsV { message: Some(s.message), ..acc4 };
    assert(spec_read_entries(empty, 0, acc5) == Some(acc5));
    assert(spec_read_entries(rest8, 1, acc4) == Some(acc5));
    assert(spec_read_entries(rest6, 2, acc3) == Some(acc5));
    assert(spec_read_entries(rest4, 3, acc2) == Some(acc5));
    assert(spec_read_entries(rest2, 4, acc1) == Some(acc5));
    assert(spec_read_entries(rest0, 5, acc0) == Some(acc5));
    assert(spec_dispatch(acc5) == Ok::<MessageV, DecodeErrorV>(MessageV::Repo(s)));
}

/// Round-trip law: decoding the encoding of any constructible message yields
/// that same message.
pub proof fn lemma_message_round_trip(m: MessageV)
    requires
        msg_wf(m),
    ensures
        spec_decode_message(spec_encode_message(m)) == Ok::<MessageV, DecodeErrorV>(m),
{
    lemma_wire_literals();
    match m {
        MessageV::Join(id) => {
            lemma_round_trip_handshake(id, "join"@, m);
        },
        MessageV::Joined(id) => {
            lemma_round_trip_handshake(id, "joined"@, m);
        },
        MessageV::Repo(s) => {
            lemma_round_trip_sync(s);
        },
    }
}

/// Required-field enforcement: a body whose `type` is `"message"` dispatches
/// to the missing-field error of the first absent required field, checked in
/// a fixed order and independent of which other fields are present; with all
/// four present it dispatches to a sync message.
pub proof fn lemma_required_field_enforcement(f: FieldsV)
    requires
        f.kind_name == Some("message"@),
    ensures
        f.sender_id is None ==> spec_dispatch(f) == Err::<MessageV, DecodeErrorV>(
            DecodeErrorV::MissingSenderId,
        ),
        f.sender_id is Some && f.target_id is None ==> spec_dispatch(f) == Err::<
            MessageV,
            DecodeErrorV,
        >(DecodeErrorV::MissingTargetId),
        f.sender_id is Some && f.target_id is Some && f.document_id is None ==> spec_dispatch(f)
            == Err::<MessageV, DecodeErrorV>(DecodeErrorV::MissingDocumentId),
        f.sender_id is Some && f.target_id is Some && f.document_id is Some && f.message is None
            ==> spec_dispatch(f) == Err::<MessageV, DecodeErrorV>(DecodeErrorV::MissingData),
        f.sender_id is Some && f.target_id is Some && f.document_id is Some && f.message is Some
            ==> spec_dispatch(f) is Ok,
{
    reveal_strlit("message");
    reveal_strlit("join");
    assert("message"@.len() == 7 && "join"@.len() == 4);
}

/// Unknown-type rejection: a `type` value this layer does not know dispatches
/// to an unknown-type error carrying that very string.
pub proof fn lemma_unknown_type_rejection(f: FieldsV, t: Seq<char>)
    requires
        f.kind_name == Some(t),
        t != "join"@,
        t != "joined"@,
        t != "message"@,
    ensures
        spec_dispatch(f) == Err::<MessageV, DecodeErrorV>(DecodeErrorV::UnknownType(t)),
{
}

pub struct Fields {
    pub kind_name: Option<String>,
    pub sender_id: Option<String>,
    pub target_id: Option<String>,
    pub document_id: Option<String>,
    pub message: Option<Vec<u8>>,
}

impl View for Fields {
    type V = FieldsV;

    open spec fn view(&self) -> FieldsV {
        FieldsV {
            kind_name: match &self.kind_name {
                Some(s) => Some(s@),
                None => None,
            },
            sender_id: match &self.sender_id {
                Some(s) => Some(s@),
                None => None,
            },
            target_id: match &self.target_id {
                Some(s) => Some(s@),
                None => None,
            },
            document_id: match &self.document_id {
                Some(s) => Some(s@),
                None => None,
            },
            message: match &self.message {
                Some(s) => Some(s@),
                None => None,
            },
        }
    }
}

/// Reads one text string item starting at `pos`; returns the string and the
/// position just past it.
fn parse_text(data: &[u8], pos: usize) -> (r: Option<(String, usize)>)
    requires
        pos <= data@.len(),
    ensures
        match r {
            Some(t) => {
                &&& pos < t.1 <= data@.len()
                &&& spec_parse_text(data@.skip(pos as int)) == Some(
                    (t.0@, data@.skip(t.1 as int)),
                )
            },
            None => spec_parse_text(data@.skip(pos as int)) is None,
        },
{
    let ghost tail = data@.skip(pos as int);
    match parse_header(data, pos) {
        None => None,
        Some((major, arg, np)) => {
            if major != 3 {
                return None;
            }
            let rem = data.len() - np;
            if arg > rem as u64 {
                return None;
            }
            let end = np + arg as usize;
            let payload = vstd::slice::slice_to_vec(vstd::slice::slice_subrange(data, np, end));
            proof {
                assert(payload@ =~= tail.subrange(np - pos, np - pos + arg as int));
                assert(data@.skip(end as int) =~= tail.skip(np - pos + arg as int));
            }
            match bytes_to_string(payload) {
                None => None,
                Some(s) => Some((s, end)),
            }
        },
    }
}

/// Reads one byte string item starting at `pos`.
fn parse_payload(data: &[u8], pos: usize) -> (r: Option<(Vec<u8>, usize)>)
    requires
        pos <= data@.len(),
    ensures
        match r {
            Some(t) => {
                &&& pos < t.1 <= data@.len()
                &&& spec_parse_payload(data@.skip(pos as int)) == Some(
                    (t.0@, data@.skip(t.1 as int)),
                )
            },
            None => spec_parse_payload(data@.skip(pos as int)) is None,
        },
{
    let ghost tail = data@.skip(pos as int);
    match parse_header(data, pos) {
        None => None,
        Some((major, arg, np)) => {
            if major != 2 {
                return None;
            }
            let rem = data.len() - np;
            if arg > rem as u64 {
                return None;
            }
            let end = np + arg as usize;
            let payload = vstd::slice::slice_to_vec(vstd::slice::slice_subrange(data, np, end));
            proof {
                assert(payload@ =~= tail.subrange(np - pos, np - pos + arg as int));
                assert(data@.skip(end as int) =~= tail.skip(np - pos + arg as int));
            }
            Some((payload, end))
        },
    }
}

impl Message {
    /// Decodes one frame body, yielding exactly what [`spec_decode_message`]
    /// says for those bytes.
    #[verifier::rlimit(60)]
    pub fn decode(data: &[u8]) -> (r: Result<Message, DecodeError>)
        ensures
            match r {
                Ok(m) => spec_decode_message(data@) == Ok::<MessageV, DecodeErrorV>(m@),
                Err(e) => spec_decode_message(data@) == Err::<MessageV, DecodeErrorV>(e@),
            },
    {
        let n = data.len();
        if n == 0 {
            return Err(DecodeError::MissingType);
        }
        let ib = data[0];
        if ib / 32 != 5 {
            return Err(DecodeError::Cbor("expected a map".to_owned()));
        }
        if ib % 32 == 31 {
            return Err(DecodeError::MissingLen);
        }
        proof {
            assert(data@.skip(0) =~= data@);
        }
        let (entries, start) = match parse_header(data, 0) {
            None => {
                return Err(DecodeError::Cbor("truncated map header".to_owned()));
            },
            Some((_, a, p)) => (a, p),
        };
        let mut fields = Fields {
            kind_name: None,
            sender_id: None,
            target_id: None,
            document_id: None,
            message: None,
        };
        let mut pos = start;
        let mut i: u64 = 0;
        while i < entries
            invariant
                i <= entries,
                pos <= data@.len(),
                spec_decode_message(data@) == spec_decode_from(
                    data@,
                    pos as int,
                    entries - i,
                    fields@,
                ),
            decreases entries - i,
        {
            let (key, p1) = match parse_text(data, pos) {
                None => {
                    return Err(DecodeError::Cbor("malformed map entry".to_owned()));
                },
                Some(t) => t,
            };
            if key == "senderId".to_owned() {
                match parse_text(data, p1) {
                    None => {
                        return Err(DecodeError::Cbor("malformed map entry".to_owned()));
                    },
                    Some((v, p2)) => {
                        fields.sender_id = Some(v);
                        pos = p2;
                    },
                }
            } else if key == "targetId".to_owned() {
                match parse_text(data, p1) {
                    None => {
                        return Err(DecodeError::Cbor("malformed map entry".to_owned()));
                    },
                    Some((v, p2)) => {
                        fields.target_id = Some(v);
                        pos = p2;
                    },
                }
            } else if key == "documentId".to_owned() {
                match parse_text(data, p1) {
                    None => {
                        return Err(DecodeError::Cbor("malformed map entry".to_owned()));
                    },
                    Some((v, p2)) => {
                        fields.document_id = Some(v);
                        pos = p2;
                    },
                }
            } else if key == "type".to_owned() {
                match parse_text(data, p1) {
                    None => {
                        return Err(DecodeError::Cbor("malformed map entry".to_owned()));
                    },
                    Some((v, p2)) => {
                        fields.kind_name = Some(v);
                        pos = p2;
                    },
                }
            } else if key == "message".to_owned() {
                match parse_payload(data, p1) {
                    None => {
                        return Err(DecodeError::Cbor("malformed map entry".to_owned()));
                    },
                    Some((v, p2)) => {
                        fields.message = Some(v);
                        pos = p2;
                    },
                }
            } else {
                match skip_items(data, p1, 1) {
                    None => {
                        return Err(DecodeError::Cbor("malformed map entry".to_owned()));
                    },
                    Some(p2) => {
                        pos = p2;
                    },
                }
            }
            i = i + 1;
        }
        match fields.kind_name {
            None => Err(DecodeError::MissingType),
            Some(t) => {
                if t == "join".to_owned() {
                    match fields.sender_id {
                        None => Err(DecodeError::MissingSenderId),
                        Some(s) => Ok(Message::Join(RepoId(s))),
                    }
                } else if t == "message".to_owned() {
                    match fields.sender_id {
                        None => Err(DecodeError::MissingSenderId),
                        Some(from) => match fields.target_id {
                            None => Err(DecodeError::MissingTargetId),
                            Some(to) => match fields.document_id {
                                None => Err(DecodeError::MissingDocumentId),
                                Some(doc) => match fields.message {
                                    None => Err(DecodeError::MissingData),
                                    Some(payload) => Ok(
                                        Message::Repo(
                                            RepoMessage::Sync {
                                                from_repo_id: RepoId(from),
                                                to_repo_id: RepoId(to),
                                                document_id: DocumentId(doc),
                                                message: payload,
                                            },
                                        ),
                                    ),
                                },
                            },
                        },
                    }
                } else if t == "joined".to_owned() {
                    match fields.sender_id {
                        None => Err(DecodeError::MissingSenderId),
                        Some(s) => Ok(Message::Joined(RepoId(s))),
                    }
                } else {
                    Err(DecodeError::UnknownType(t))
                }
            },
        }
    }
}

} // verus!
