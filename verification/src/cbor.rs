//! The structured byte encoding underneath a frame body: a small, verified
//! CBOR subset. The encoder emits definite-length items with minimal-width
//! headers; the decoder accepts any definite-length header and can step over
//! one whole item of any major type, so unknown map keys can be skipped.

use vstd::prelude::*;

verus! {

/// The bytes of one definite-length item header: major type `major` with
/// unsigned argument `n`, encoded in the fewest bytes that hold `n`.
pub open spec fn spec_header(major: u8, n: nat) -> Seq<u8>
    recommends
        major < 8,
        n < 0x10000000000000000,
{
    let mt = (major as nat) * 32;
    if n < 24 {
        seq![(mt + n) as u8]
    } else if n < 0x100 {
        seq![(mt + 24) as u8, n as u8]
    } else if n < 0x10000 {
        seq![(mt + 25) as u8, (n / 0x100) as u8, (n % 0x100) as u8]
    } else if n < 0x100000000 {
        seq![
            (mt + 26) as u8,
            (n / 0x1000000) as u8,
            ((n / 0x10000) % 0x100) as u8,
            ((n / 0x100) % 0x100) as u8,
            (n % 0x100) as u8,
        ]
    } else {
        seq![
            (mt + 27) as u8,
            (n / 0x100000000000000) as u8,
            ((n / 0x1000000000000) % 0x100) as u8,
            ((n / 0x10000000000) % 0x100) as u8,
            ((n / 0x100000000) % 0x100) as u8,
            ((n / 0x1000000) % 0x100) as u8,
            ((n / 0x10000) % 0x100) as u8,
            ((n / 0x100) % 0x100) as u8,
            (n % 0x100) as u8,
        ]
    }
}

/// Parses one definite-length item header at the front of `data`: the major
/// type, the unsigned argument, and how many bytes the header took. Reserved
/// additional-information values and indefinite-length markers parse to
/// nothing.
#[verifier::opaque]
pub open spec fn spec_parse_header(data: Seq<u8>) -> Option<(u8, nat, int)> {
    if data.len() < 1 {
        None
    } else {
        let major = data[0] / 32;
        let add = data[0] % 32;
        if add < 24 {
            Some((major, add as nat, 1))
        } else if add == 24 {
            if data.len() >= 2 {
                Some((major, data[1] as nat, 2))
            } else {
                None
            }
        } else if add == 25 {
            if data.len() >= 3 {
                Some((major, (data[1] as nat) * 0x100 + data[2] as nat, 3))
            } else {
                None
            }
        } else if add == 26 {
            if data.len() >= 5 {
                Some(
                    (
                        major,
                        (data[1] as nat) * 0x1000000 + (data[2] as nat) * 0x10000 + (
                        data[3] as nat) * 0x100 + data[4] as nat,
                        5,
                    ),
                )
            } else {
                None
            }
        } else if add == 27 {
            if data.len() >= 9 {
                Some(
                    (
                        major,
                        (data[1] as nat) * 0x100000000000000 + (data[2] as nat) * 0x1000000000000
                            + (data[3] as nat) * 0x10000000000 + (data[4] as nat) * 0x100000000 + (
                        data[5] as nat) * 0x1000000 + (data[6] as nat) * 0x10000 + (data[7] as nat)
                            * 0x100 + data[8] as nat,
                        9,
                    ),
                )
            } else {
                None
            }
        } else {
            None
        }
    }
}

/// A header always parses back to the major type and argument it was built
/// from, regardless of what follows it.
pub proof fn lemma_header_round_trip(major: u8, n: nat, rest: Seq<u8>)
    requires
        major < 8,
        n < 0x10000000000000000,
    ensures
        ({
            let h = spec_header(major, n);
            &&& 1 <= h.len() <= 9
            &&& spec_parse_header(h + rest) == Some((major, n, h.len() as int))
        }),
{
    reveal(spec_parse_header);
    let h = spec_header(major, n);
    let d = h + rest;
    let x = n as u64;
    assert(x as nat == n);
    let m = major;
    let b0: u8 = d[0];
    if n < 24 {
        assert(b0 as int == 32 * (m as int) + n);
        let k: u8 = n as u8;
        assert(b0 / 32 == m && b0 % 32 == k) by (bit_vector)
            requires
                m < 8,
                k < 24,
                b0 == 32 * m + k,
        ;
    } else if n < 0x100 {
        assert(b0 as int == 32 * (m as int) + 24);
        assert(b0 / 32 == m && b0 % 32 == 24) by (bit_vector)
            requires
                m < 8,
                b0 == 32 * m + 24,
        ;
        assert(d[1] as nat == n);
    } else if n < 0x10000 {
        assert(b0 as int == 32 * (m as int) + 25);
        assert(b0 / 32 == m && b0 % 32 == 25) by (bit_vector)
            requires
                m < 8,
                b0 == 32 * m + 25,
        ;
        let d1: u64 = d[1] as u64;
        let d2: u64 = d[2] as u64;
        assert(x / 0x100 < 0x100) by (bit_vector)
            requires
                x < 0x10000,
        ;
        assert(d1 == x / 0x100 && d2 == x % 0x100);
        assert(d1 * 0x100 + d2 == x) by (bit_vector)
            requires
                x < 0x10000,
                d1 == x / 0x100,
                d2 == x % 0x100,
        ;
    } else if n < 0x100000000 {
        assert(b0 as int == 32 * (m as int) + 26);
        assert(b0 / 32 == m && b0 % 32 == 26) by (bit_vector)
            requires
                m < 8,
                b0 == 32 * m + 26,
        ;
        let d1: u64 = d[1] as u64;
        let d2: u64 = d[2] as u64;
        let d3: u64 = d[3] as u64;
        let d4: u64 = d[4] as u64;
        assert(x / 0x1000000 < 0x100) by (bit_vector)
            requires
                x < 0x100000000,
        ;
        assert(d1 == x / 0x1000000 && d2 == (x / 0x10000) % 0x100 && d3 == (x / 0x100) % 0x100
            && d4 == x % 0x100);
        assert(d1 * 0x1000000 + d2 * 0x10000 + d3 * 0x100 + d4 == x) by (bit_vector)
            requires
                x < 0x100000000,
                d1 == x / 0x1000000,
                d2 == (x / 0x10000) % 0x100,
                d3 == (x / 0x100) % 0x100,
                d4 == x % 0x100,
        ;
    } else {
        assert(b0 as int == 32 * (m as int) + 27);
        assert(b0 / 32 == m && b0 % 32 == 27) by (bit_vector)
            requires
                m < 8,
                b0 == 32 * m + 27,
        ;
        let d1: u64 = d[1] as u64;
        let d2: u64 = d[2] as u64;
        let d3: u64 = d[3] as u64;
        let d4: u64 = d[4] as u64;
        let d5: u64 = d[5] as u64;
        let d6: u64 = d[6] as u64;
        let d7: u64 = d[7] as u64;
        let d8: u64 = d[8] as u64;
        assert(x / 0x100000000000000 < 0x100) by (bit_vector);
        assert(d1 == x / 0x100000000000000 && d2 == (x / 0x1000000000000) % 0x100 && d3 == (x
            / 0x10000000000) % 0x100 && d4 == (x / 0x100000000) % 0x100 && d5 == (x / 0x1000000)
            % 0x100 && d6 == (x / 0x10000) % 0x100 && d7 == (x / 0x100) % 0x100 && d8 == x
            % 0x100);
        assert(d1 * 0x100000000000000 + d2 * 0x1000000000000 + d3 * 0x10000000000 + d4
            * 0x100000000 + d5 * 0x1000000 + d6 * 0x10000 + d7 * 0x100 + d8 == x) by (bit_vector)
            requires
                d1 == x / 0x100000000000000,
                d2 == (x / 0x1000000000000) % 0x100,
                d3 == (x / 0x10000000000) % 0x100,
                d4 == (x / 0x100000000) % 0x100,
                d5 == (x / 0x1000000) % 0x100,
                d6 == (x / 0x10000) % 0x100,
                d7 == (x / 0x100) % 0x100,
                d8 == x % 0x100,
        ;
    }
}

/// What remains of `data` after stepping over `count` whole items, or nothing
/// when the bytes are not `count` well-formed definite-length items.
pub open spec fn spec_skip_items(data: Seq<u8>, count: int) -> Option<Seq<u8>>
    decreases data.len(),
{
    if count <= 0 {
        Some(data)
    } else {
        match spec_parse_header(data) {
            None => None,
            Some((major, arg, c)) => {
                if c < 1 || c > data.len() {
                    None
                } else {
                    let rest = data.skip(c);
                    if major == 0 || major == 1 || major == 7 {
                        spec_skip_items(rest, count - 1)
                    } else if major == 2 || major == 3 {
                        if arg <= rest.len() {
                            spec_skip_items(rest.skip(arg as int), count - 1)
                        } else {
                            None
                        }
                    } else if major == 4 {
                        spec_skip_items(rest, count - 1 + arg)
                    } else if major == 5 {
                        spec_skip_items(rest, count - 1 + 2 * arg)
                    } else {
                        spec_skip_items(rest, count)
                    }
                }
            },
        }
    }
}

/// More items were asked for than there are bytes left: the skip must fail,
/// since every item takes at least one byte.
pub proof fn lemma_skip_insufficient(data: Seq<u8>, count: int)
    requires
        count > data.len(),
    ensures
        spec_skip_items(data, count) is None,
    decreases data.len(),
{
    match spec_parse_header(data) {
        None => {},
        Some((major, arg, c)) => {
            if 1 <= c <= data.len() {
                let rest = data.skip(c);
                if major == 0 || major == 1 || major == 7 {
                    lemma_skip_insufficient(rest, count - 1);
                } else if major == 2 || major == 3 {
                    if arg <= rest.len() {
                        lemma_skip_insufficient(rest.skip(arg as int), count - 1);
                    }
                } else if major == 4 {
                    lemma_skip_insufficient(rest, count - 1 + arg);
                } else if major == 5 {
                    lemma_skip_insufficient(rest, count - 1 + 2 * arg);
                } else {
                    lemma_skip_insufficient(rest, count);
                }
            }
        },
    }
}

/// Reads one definite-length item header starting at `pos`; returns the major
/// type, the argument, and the position just past the header.
pub(crate) fn parse_header(data: &[u8], pos: usize) -> (r: Option<(u8, u64, usize)>)
    requires
        pos <= data@.len(),
    ensures
        match r {
            Some(t) => {
                &&& spec_parse_header(data@.skip(pos as int)) == Some(
                    (t.0, t.1 as nat, t.2 - pos as int),
                )
                &&& pos < t.2 <= data@.len()
            },
            None => spec_parse_header(data@.skip(pos as int)) is None,
        },
{
    proof {
        reveal(spec_parse_header);
    }
    let ghost tail = data@.skip(pos as int);
    let n = data.len();
    if pos >= n {
        return None;
    }
    let ib = data[pos];
    let major = ib / 32;
    let add = ib % 32;
    assert(tail[0] == data@[pos as int]);
    if add < 24 {
        Some((major, add as u64, pos + 1))
    } else if add == 24 {
        if n - pos >= 2 {
            assert(tail[1] == data@[pos + 1]);
            Some((major, data[pos + 1] as u64, pos + 2))
        } else {
            None
        }
    } else if add == 25 {
        if n - pos >= 3 {
            assert(tail[1] == data@[pos + 1] && tail[2] == data@[pos + 2]);
            let a = (data[pos + 1] as u64) * 0x100 + (data[pos + 2] as u64);
            Some((major, a, pos + 3))
        } else {
            None
        }
    } else if add == 26 {
        if n - pos >= 5 {
            assert(tail[1] == data@[pos + 1] && tail[2] == data@[pos + 2] && tail[3] == data@[pos
                + 3] && tail[4] == data@[pos + 4]);
            let a = (data[pos + 1] as u64) * 0x1000000 + (data[pos + 2] as u64) * 0x10000 + (
            data[pos + 3] as u64) * 0x100 + (data[pos + 4] as u64);
            Some((major, a, pos + 5))
        } else {
            None
        }
    } else if add == 27 {
        if n - pos >= 9 {
            assert(tail[1] == data@[pos + 1] && tail[2] == data@[pos + 2] && tail[3] == data@[pos
                + 3] && tail[4] == data@[pos + 4] && tail[5] == data@[pos + 5] && tail[6] == data@[
            pos + 6] && tail[7] == data@[pos + 7] && tail[8] == data@[pos + 8]);
            let a = (data[pos + 1] as u64) * 0x100000000000000 + (data[pos + 2] as u64)
                * 0x1000000000000 + (data[pos + 3] as u64) * 0x10000000000 + (data[pos + 4] as u64)
                * 0x100000000 + (data[pos + 5] as u64) * 0x1000000 + (data[pos + 6] as u64)
                * 0x10000 + (data[pos + 7] as u64) * 0x100 + (data[pos + 8] as u64);
            Some((major, a, pos + 9))
        } else {
            None
        }
    } else {
        None
    }
}

/// Steps over `count` whole items starting at `pos`; returns the position
/// just past them, or nothing when the bytes are malformed or truncated.
pub(crate) fn skip_items(data: &[u8], start: usize, count: u64) -> (r: Option<usize>)
    requires
        start <= data@.len(),
    ensures
        match r {
            Some(p) => {
                &&& start <= p <= data@.len()
                &&& spec_skip_items(data@.skip(start as int), count as int) == Some(
                    data@.skip(p as int),
                )
            },
            None => spec_skip_items(data@.skip(start as int), count as int) is None,
        },
{
    let dlen = data.len();
    assert(dlen <= usize::MAX && usize::MAX <= u64::MAX);
    let mut pos: usize = start;
    let mut pending: u64 = count;
    while pending > 0
        invariant
            start <= pos <= data@.len(),
            data@.len() <= usize::MAX,
            usize::MAX <= u64::MAX,
            spec_skip_items(data@.skip(start as int), count as int) == spec_skip_items(
                data@.skip(pos as int),
                pending as int,
            ),
        decreases data@.len() - pos,
    {
        let ghost cur = data@.skip(pos as int);
        match parse_header(data, pos) {
            None => {
                return None;
            },
            Some((major, arg, np)) => {
                assert(cur.skip(np - pos as int) =~= data@.skip(np as int));
                if major <= 1 || major == 7 {
                    pos = np;
                    pending = pending - 1;
                } else if major <= 3 {
                    let rem = data.len() - np;
                    if arg <= rem as u64 {
                        assert(data@.skip(np as int).skip(arg as int) =~= data@.skip(
                            np + arg as int,
                        ));
                        pos = np + arg as usize;
                        pending = pending - 1;
                    } else {
                        return None;
                    }
                } else if major == 4 {
                    match (pending - 1).checked_add(arg) {
                        Some(p2) => {
                            pos = np;
                            pending = p2;
                        },
                        None => {
                            proof {
                                lemma_skip_insufficient(
                                    data@.skip(np as int),
                                    pending - 1 + arg as int,
                                );
                            }
                            return None;
                        },
                    }
                } else if major == 5 {
                    let doubled = arg.checked_mul(2);
                    let p2 = match doubled {
                        Some(d) => (pending - 1).checked_add(d),
                        None => None,
                    };
                    match p2 {
                        Some(p2v) => {
                            pos = np;
                            pending = p2v;
                        },
                        None => {
                            proof {
                                lemma_skip_insufficient(
                                    data@.skip(np as int),
                                    pending - 1 + 2 * (arg as int),
                                );
                            }
                            return None;
                        },
                    }
                } else {
                    pos = np;
                }
            },
        }
    }
    Some(pos)
}

/// Relies on `String::from_utf8`: returns the string whose UTF-8 encoding is
/// exactly the given bytes, and nothing when they are not valid UTF-8.
#[verifier::external_body]
pub(crate) fn bytes_to_string(v: Vec<u8>) -> (r: Option<String>)
    ensures
        match r {
            Some(s) => vstd::utf8::valid_utf8(v@) && s@ == vstd::utf8::decode_utf8(v@),
            None => !vstd::utf8::valid_utf8(v@),
        },
{
    String::from_utf8(v).ok()
}

/// Appends one definite-length item header to `out`.
pub(crate) fn write_header(out: &mut Vec<u8>, major: u8, n: u64)
    requires
        major < 8,
    ensures
        final(out)@ == old(out)@ + spec_header(major, n as nat),
{
    let mt: u8 = major * 32;
    if n < 24 {
        out.push(mt + n as u8);
    } else if n < 0x100 {
        out.push(mt + 24);
        out.push(n as u8);
    } else if n < 0x10000 {
        out.push(mt + 25);
        out.push((n / 0x100) as u8);
        out.push((n % 0x100) as u8);
    } else if n < 0x100000000 {
        out.push(mt + 26);
        out.push((n / 0x1000000) as u8);
        out.push(((n / 0x10000) % 0x100) as u8);
        out.push(((n / 0x100) % 0x100) as u8);
        out.push((n % 0x100) as u8);
    } else {
        out.push(mt + 27);
        out.push((n / 0x100000000000000) as u8);
        out.push(((n / 0x1000000000000) % 0x100) as u8);
        out.push(((n / 0x10000000000) % 0x100) as u8);
        out.push(((n / 0x100000000) % 0x100) as u8);
        out.push(((n / 0x1000000) % 0x100) as u8);
        out.push(((n / 0x10000) % 0x100) as u8);
        out.push(((n / 0x100) % 0x100) as u8);
        out.push((n % 0x100) as u8);
    }
    proof {
        assert(out@ =~= old(out)@ + spec_header(major, n as nat));
    }
}

} // verus!
