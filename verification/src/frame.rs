//! The length-prefixed framing codec: a 4-byte big-endian length followed by
//! exactly that many bytes of encoded message body. Bytes arrive in arbitrary
//! chunks; a step over the receive buffer either finds a whole frame and
//! consumes exactly it, or consumes nothing and asks for more data.

use vstd::prelude::*;

use bytes::BytesMut;

use crate::error::{CodecError, CodecErrorV};
use crate::message::{Message, MessageV};
use crate::wire::{spec_decode_message, spec_encode_message};

verus! {

/// `bytes::BytesMut`, the growable receive/send buffer the transport layer
/// hands to the codec.
#[verifier::external_type_specification]
#[verifier::external_body]
pub struct ExBytesMut(BytesMut);

/// The bytes a framing buffer holds, oldest first.
pub uninterp spec fn buf_contents(b: BytesMut) -> Seq<u8>;

/// Relies on `BytesMut::len`: how many bytes the buffer holds.
#[verifier::external_body]
fn buf_len(b: &BytesMut) -> (n: usize)
    ensures
        n == buf_contents(*b).len(),
{
    b.len()
}

/// Relies on `BytesMut`'s deref to a byte slice: copies the bytes between the
/// two positions out of the buffer without consuming them.
#[verifier::external_body]
fn buf_copy_range(b: &BytesMut, start: usize, end: usize) -> (r: Vec<u8>)
    requires
        start <= end <= buf_contents(*b).len(),
    ensures
        r@ == buf_contents(*b).subrange(start as int, end as int),
{
    b[start..end].to_vec()
}

/// Relies on `bytes::Buf::advance`: drops the first `n` bytes from the front
/// of the buffer. Advancing past the end panics, so it is kept out.
#[verifier::external_body]
fn buf_advance(b: &mut BytesMut, n: usize)
    requires
        n <= buf_contents(*old(b)).len(),
    ensures
        buf_contents(*final(b)) == buf_contents(*old(b)).skip(n as int),
{
    bytes::Buf::advance(b, n);
}

/// Relies on `BytesMut::reserve`: grows capacity only, the contents stay as
/// they are. A new capacity past `usize::MAX` panics, so it is kept out.
#[verifier::external_body]
fn buf_reserve(b: &mut BytesMut, additional: usize)
    requires
        buf_contents(*old(b)).len() + additional <= usize::MAX,
    ensures
        buf_contents(*final(b)) == buf_contents(*old(b)),
{
    b.reserve(additional);
}

/// Relies on `BytesMut::extend_from_slice`: appends the bytes to the back of
/// the buffer.
#[verifier::external_body]
fn buf_put(b: &mut BytesMut, s: &[u8])
    requires
        buf_contents(*old(b)).len() + s@.len() <= usize::MAX,
    ensures
        buf_contents(*final(b)) == buf_contents(*old(b)) + s@,
{
    b.extend_from_slice(s);
}

/// The 4-byte big-endian length prefix for a body of `n` bytes.
pub open spec fn spec_len_prefix(n: nat) -> Seq<u8>
    recommends
        n < 0x100000000,
{
    seq![
        (n / 0x1000000) as u8,
        ((n / 0x10000) % 0x100) as u8,
        ((n / 0x100) % 0x100) as u8,
        (n % 0x100) as u8,
    ]
}

/// The length a buffer's first four bytes declare.
pub open spec fn spec_from_be32(b: Seq<u8>) -> nat
    recommends
        b.len() >= 4,
{
    (b[0] as nat) * 0x1000000 + (b[1] as nat) * 0x10000 + (b[2] as nat) * 0x100 + (b[3] as nat)
}

/// One whole frame: length prefix, then exactly that many body bytes.
pub open spec fn spec_frame(body: Seq<u8>) -> Seq<u8>
    recommends
        body.len() < 0x100000000,
{
    spec_len_prefix(body.len()) + body
}

/// A full frame is buffered: the length is known and that many bytes follow.
pub open spec fn spec_frame_ready(b: Seq<u8>) -> bool {
    b.len() >= 4 && b.len() >= 4 + spec_from_be32(b)
}

/// A length prefix reads back as the length it was built from, whatever
/// follows it.
pub proof fn lemma_len_prefix_round_trip(n: nat, rest: Seq<u8>)
    requires
        n < 0x100000000,
    ensures
        spec_from_be32(spec_len_prefix(n) + rest) == n,
{
    let x = n as u64;
    let d = spec_len_prefix(n) + rest;
    let d1: u64 = d[0] as u64;
    let d2: u64 = d[1] as u64;
    let d3: u64 = d[2] as u64;
    let d4: u64 = d[3] as u64;
    assert(x / 0x1000000 < 0x100) by (bit_vector)
        requires
            x < 0x100000000,
    ;
    assert(d1 == x / 0x1000000 && d2 == (x / 0x10000) % 0x100 && d3 == (x / 0x100) % 0x100 && d4
        == x % 0x100);
    assert(d1 * 0x1000000 + d2 * 0x10000 + d3 * 0x100 + d4 == x) by (bit_vector)
        requires
            x < 0x100000000,
            d1 == x / 0x1000000,
            d2 == (x / 0x10000) % 0x100,
            d3 == (x / 0x100) % 0x100,
            d4 == x % 0x100,
    ;
}

/// A simple length-prefixed codec over [`Message`] for use over
/// stream-oriented transports.
pub struct Codec;

impl Codec {
    pub fn new() -> (r: Codec) {
        Codec
    }

    /// One decode step, invoked as bytes arrive. With less than a whole frame
    /// buffered nothing is consumed and no message produced; with a whole
    /// frame buffered, exactly the frame is consumed and its body decoded.
    /// A body that does not decode is a terminal error for the connection:
    /// the frame's bytes are already consumed.
    pub fn decode(&mut self, src: &mut BytesMut) -> (r: Result<Option<Message>, CodecError>)
        ensures
            ({
                let b0 = buf_contents(*old(src));
                let b1 = buf_contents(*final(src));
                if !spec_frame_ready(b0) {
                    b1 == b0 && r matches Ok(None)
                } else {
                    let len = spec_from_be32(b0) as int;
                    &&& b1 == b0.skip(4 + len)
                    &&& match spec_decode_message(b0.subrange(4, 4 + len)) {
                        Ok(v) => r matches Ok(Some(m)) && m@ == v,
                        Err(ev) => r matches Err(e) && e@ == CodecErrorV::Decode(ev),
                    }
                }
            }),
    {
        let ghost b0 = buf_contents(*src);
        let n = buf_len(src);
        if n < 4 {
            return Ok(None);
        }
        let lb = buf_copy_range(src, 0, 4);
        let len64: u64 = (lb[0] as u64) * 0x1000000 + (lb[1] as u64) * 0x10000 + (lb[2] as u64)
            * 0x100 + (lb[3] as u64);
        assert(len64 as nat == spec_from_be32(b0));
        if (n as u64) < len64 + 4 {
            // Not all body bytes are here yet: reserve room for the rest so
            // the transport can fill it, and ask for more data.
            let need64: u64 = len64 + 4 - (n as u64);
            assert(usize::MAX <= u64::MAX);
            if need64 <= (usize::MAX - n) as u64 {
                buf_reserve(src, need64 as usize);
            }
            return Ok(None);
        }
        let len = len64 as usize;
        let body = buf_copy_range(src, 4, 4 + len);
        buf_advance(src, 4 + len);
        match Message::decode(body.as_slice()) {
            Ok(m) => Ok(Some(m)),
            Err(e) => Err(CodecError::Decode(e)),
        }
    }

    /// Frames and writes one message: the body's length as a 4-byte
    /// big-endian prefix, then the body. The destination is pre-reserved to
    /// the exact required capacity. The two bounds are machine limits: the
    /// prefix holds 32 bits, and the buffer cannot outgrow the address space.
    pub fn encode(&mut self, msg: Message, dst: &mut BytesMut) -> (r: Result<(), CodecError>)
        requires
            spec_encode_message(msg@).len() < 0x100000000,
            buf_contents(*old(dst)).len() + 4 + spec_encode_message(msg@).len() <= usize::MAX,
        ensures
            r is Ok,
            buf_contents(*final(dst)) == buf_contents(*old(dst)) + spec_frame(
                spec_encode_message(msg@),
            ),
    {
        let encoded = msg.encode();
        let elen = encoded.len();
        let len32: u32 = elen as u32;
        let mut prefix: Vec<u8> = Vec::new();
        prefix.push((len32 / 0x1000000) as u8);
        prefix.push(((len32 / 0x10000) % 0x100) as u8);
        prefix.push(((len32 / 0x100) % 0x100) as u8);
        prefix.push((len32 % 0x100) as u8);
        assert(prefix@ =~= spec_len_prefix(elen as nat));
        buf_reserve(dst, 4 + elen);
        buf_put(dst, prefix.as_slice());
        buf_put(dst, encoded.as_slice());
        proof {
            assert(buf_contents(*dst) =~= buf_contents(*old(dst)) + spec_frame(
                spec_encode_message(msg@),
            ));
        }
        Ok(())
    }
}

/// Partial-delivery invariance: while any strict prefix of a frame is
/// buffered, the frame is not ready, so a decode step consumes nothing and
/// yields no message; the whole frame is ready, declares exactly the body's
/// length, carries exactly the body, and nothing follows it.
pub proof fn lemma_partial_delivery(body: Seq<u8>, k: int)
    requires
        body.len() < 0x100000000,
        0 <= k < spec_frame(body).len(),
    ensures
        !spec_frame_ready(spec_frame(body).take(k)),
        spec_frame_ready(spec_frame(body)),
        spec_from_be32(spec_frame(body)) == body.len(),
        spec_frame(body).subrange(4, 4 + body.len() as int) == body,
        spec_frame(body).skip(4 + body.len() as int) == Seq::<u8>::empty(),
{
    let f = spec_frame(body);
    lemma_len_prefix_round_trip(body.len(), body);
    assert(f.subrange(4, 4 + body.len() as int) =~= body);
    assert(f.skip(4 + body.len() as int) =~= Seq::<u8>::empty());
    let p = f.take(k);
    if k >= 4 {
        assert(p[0] == f[0] && p[1] == f[1] && p[2] == f[2] && p[3] == f[3]);
        assert(spec_from_be32(p) == body.len());
    }
}

} // verus!
