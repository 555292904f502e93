//! The byte-exact wire encoding of frames and typed payloads.
//!
//! Integers ride as little-endian base-128 varints (`u8` as one raw byte),
//! a byte sequence as its varint length followed by its bytes, a struct as
//! its fields in order, and an enum as its variant index (varint) followed
//! by the variant's fields. A frame body is the line header followed by
//! the payload bytes.
//!
//! Every encoder is pinned to a specification function over sequences, and
//! every decoder to a specification parser; parsing an encoding yields the
//! encoded value back (proved below), so a frame survives the wire intact.

use vstd::prelude::*;

use crate::icd::{BusDomPayload, BusSubPayload, DomTokenGrantPayload, LineHeader,
    SubTokenReleasePayload, VecAddr};

verus! {

/// Little-endian base-128 encoding of `x`: seven value bits per byte, the
/// high bit marking continuation.
pub open spec fn varint(x: nat) -> Seq<u8>
    decreases x,
{
    if x < 128 {
        seq![x as u8]
    } else {
        seq![((x % 128) + 128) as u8] + varint(x / 128)
    }
}

/// Parse a varint prefix: the value and the number of bytes consumed.
pub open spec fn parse_varint(s: Seq<u8>) -> Option<(nat, int)>
    decreases s.len(),
{
    if s.len() == 0 {
        None
    } else {
        let b = s[0];
        if b < 128 {
            Some((b as nat, 1))
        } else {
            match parse_varint(s.skip(1)) {
                Some((v, n)) => Some((((b - 128) as nat) + 128 * v, n + 1)),
                None => None,
            }
        }
    }
}

/// A varint consumes at least one byte and at most the whole input.
pub proof fn lemma_parse_varint_bounds(s: Seq<u8>)
    ensures
        parse_varint(s) matches Some((v, n)) ==> 1 <= n <= s.len(),
    decreases s.len(),
{
    if s.len() > 0 && s[0] >= 128 {
        lemma_parse_varint_bounds(s.skip(1));
    }
}

/// Parsing an encoded varint yields the value back and consumes exactly
/// the encoding, whatever follows it.
pub proof fn lemma_parse_varint(x: nat, rest: Seq<u8>)
    ensures
        parse_varint(varint(x) + rest) == Some((x, varint(x).len() as int)),
    decreases x,
{
    let s = varint(x) + rest;
    if x < 128 {
        assert(s[0] == x as u8);
    } else {
        let b = ((x % 128) + 128) as u8;
        assert(s[0] == b);
        assert(b >= 128);
        lemma_parse_varint(x / 128, rest);
        assert(s.skip(1) =~= varint(x / 128) + rest);
        assert(((b - 128) as nat) + 128 * (x / 128) == x) by {
            assert(x % 128 + 128 * (x / 128) == x) by (nonlinear_arith);
        }
    }
}

/// Decode a varint at `pos`, as a `u64`. Succeeds exactly when a varint
/// prefix is present and its value fits; returns the value and the
/// position just past it.
pub fn decode_varint(s: &Vec<u8>, pos: usize) -> (r: Result<(u64, usize), ()>)
    requires
        pos <= s@.len(),
    ensures
        match parse_varint(s@.skip(pos as int)) {
            None => r is Err,
            Some((v, n)) => {
                if v <= u64::MAX {
                    r matches Ok((w, p)) && w as nat == v && p == pos + n
                } else {
                    r is Err
                }
            },
        },
        r matches Ok((v, p)) ==> pos < p <= s@.len(),
    decreases s@.len() - pos,
{
    proof {
        lemma_parse_varint_bounds(s@.skip(pos as int));
    }
    if pos == s.len() {
        return Err(());
    }
    let b = s[pos];
    if b < 128 {
        Ok((b as u64, pos + 1))
    } else {
        proof {
            assert(s@.skip(pos as int).skip(1) =~= s@.skip(pos as int + 1));
        }
        match decode_varint(s, pos + 1) {
            Ok((v, p2)) => {
                let low = (b - 128) as u64;
                if v <= (u64::MAX - low) / 128 {
                    proof {
                        assert(low + 128 * v <= u64::MAX) by (nonlinear_arith)
                            requires
                                v <= (u64::MAX - low) / 128,
                                low < 128,
                        ;
                    }
                    Ok((low + 128 * v, p2))
                } else {
                    proof {
                        assert(low + 128 * v > u64::MAX) by (nonlinear_arith)
                            requires
                                v > (u64::MAX - low) / 128,
                                low < 128,
                        ;
                    }
                    Err(())
                }
            },
            Err(()) => Err(()),
        }
    }
}

/// Append the varint encoding of `x`.
pub fn encode_varint(out: &mut Vec<u8>, x: u64)
    ensures
        final(out)@ == old(out)@ + varint(x as nat),
    decreases x,
{
    if x < 128 {
        out.push(x as u8);
        proof {
            assert(out@ =~= old(out)@ + varint(x as nat));
        }
    } else {
        out.push(((x % 128) + 128) as u8);
        let ghost mid = out@;
        encode_varint(out, x / 128);
        proof {
            assert(out@ =~= old(out)@ + varint(x as nat));
        }
    }
}

/// Decode one raw byte at `pos`.
pub fn decode_u8(s: &Vec<u8>, pos: usize) -> (r: Result<(u8, usize), ()>)
    requires
        pos <= s@.len(),
    ensures
        r is Ok <==> pos < s@.len(),
        r matches Ok((v, p)) ==> p == pos + 1 && v == s@[pos as int],
{
    if pos < s.len() {
        Ok((s[pos], pos + 1))
    } else {
        Err(())
    }
}

/// Decode a varint at `pos` whose value must fit a `u32`.
pub fn decode_u32(s: &Vec<u8>, pos: usize) -> (r: Result<(u32, usize), ()>)
    requires
        pos <= s@.len(),
    ensures
        match parse_varint(s@.skip(pos as int)) {
            None => r is Err,
            Some((v, n)) => {
                if v <= u32::MAX {
                    r matches Ok((w, p)) && w as nat == v && p == pos + n
                } else {
                    r is Err
                }
            },
        },
        r matches Ok((v, p)) ==> pos < p <= s@.len(),
{
    match decode_varint(s, pos) {
        Ok((v, p)) => {
            if v <= u32::MAX as u64 {
                Ok((v as u32, p))
            } else {
                Err(())
            }
        },
        Err(()) => Err(()),
    }
}

/// Decode a varint at `pos` whose value must fit a `u16`.
pub fn decode_u16(s: &Vec<u8>, pos: usize) -> (r: Result<(u16, usize), ()>)
    requires
        pos <= s@.len(),
    ensures
        match parse_varint(s@.skip(pos as int)) {
            None => r is Err,
            Some((v, n)) => {
                if v <= u16::MAX {
                    r matches Ok((w, p)) && w as nat == v && p == pos + n
                } else {
                    r is Err
                }
            },
        },
        r matches Ok((v, p)) ==> pos < p <= s@.len(),
{
    match decode_varint(s, pos) {
        Ok((v, p)) => {
            if v <= u16::MAX as u64 {
                Ok((v as u16, p))
            } else {
                Err(())
            }
        },
        Err(()) => Err(()),
    }
}

/// A byte sequence rides as its varint length followed by its raw bytes.
pub open spec fn enc_bytes(b: Seq<u8>) -> Seq<u8> {
    varint(b.len()) + b
}

/// Parse a length-prefixed byte sequence of at most `limit` bytes: the
/// bytes and the number of input bytes consumed.
pub open spec fn parse_bytes(s: Seq<u8>, limit: nat) -> Option<(Seq<u8>, int)> {
    match parse_varint(s) {
        Some((l, n)) => {
            if l <= limit && n + l <= s.len() {
                Some((s.subrange(n, n + l), n + l))
            } else {
                None
            }
        },
        None => None,
    }
}

/// Parse a varint holding a `u32`.
pub open spec fn parse_u32_at(s: Seq<u8>) -> Option<(u32, int)> {
    match parse_varint(s) {
        Some((v, n)) => if v <= u32::MAX { Some((v as u32, n)) } else { None },
        None => None,
    }
}

/// Parse a varint holding a `u16`.
pub open spec fn parse_u16_at(s: Seq<u8>) -> Option<(u16, int)> {
    match parse_varint(s) {
        Some((v, n)) => if v <= u16::MAX { Some((v as u16, n)) } else { None },
        None => None,
    }
}

/// Parse one raw byte.
pub open spec fn parse_u8_at(s: Seq<u8>) -> Option<(u8, int)> {
    if s.len() >= 1 {
        Some((s[0], 1))
    } else {
        None
    }
}

/// Parsing an encoded byte sequence yields the bytes back and consumes
/// exactly the encoding.
pub proof fn lemma_parse_bytes(b: Seq<u8>, rest: Seq<u8>, limit: nat)
    requires
        b.len() <= limit,
    ensures
        parse_bytes(enc_bytes(b) + rest, limit) == Some((b, enc_bytes(b).len() as int)),
{
    let s = enc_bytes(b) + rest;
    assert(s =~= varint(b.len()) + (b + rest));
    lemma_parse_varint(b.len(), b + rest);
    let n = varint(b.len()).len() as int;
    assert(s.subrange(n, n + b.len()) =~= b);
}

/// Decode a length-prefixed byte sequence of at most `limit` bytes at
/// `pos`; returns the bytes and the position just past them.
pub fn decode_bytes(s: &Vec<u8>, pos: usize, limit: usize) -> (r: Result<(Vec<u8>, usize), ()>)
    requires
        pos <= s@.len(),
    ensures
        match parse_bytes(s@.skip(pos as int), limit as nat) {
            None => r is Err,
            Some((b, n)) => {
                r matches Ok((v, p)) && v@ == b && p == pos + n
            },
        },
        r matches Ok((v, p)) ==> pos <= p <= s@.len() && v@ == s@.subrange(
            p - v@.len(),
            p as int,
        ),
{
    let (l64, p1) = match decode_varint(s, pos) {
        Ok(x) => x,
        Err(()) => { return Err(()); },
    };
    if l64 > limit as u64 {
        return Err(());
    }
    let l = l64 as usize;
    if l > s.len() - p1 {
        return Err(());
    }
    let mut v: Vec<u8> = Vec::new();
    let mut k: usize = 0;
    while k < l
        invariant
            p1 + l <= s@.len() <= usize::MAX,
            k <= l,
            v@ =~= s@.subrange(p1 as int, p1 as int + k as int),
        decreases l - k,
    {
        let b = s[p1 + k];
        v.push(b);
        k += 1;
        proof {
            assert(v@ =~= s@.subrange(p1 as int, p1 as int + k as int));
        }
    }
    proof {
        let tail = s@.skip(pos as int);
        let n = p1 - pos;
        assert(tail.subrange(n as int, n as int + l as int) =~= s@.subrange(
            p1 as int,
            p1 as int + l as int,
        ));
        assert(v@ =~= s@.subrange(p1 as int + l as int - l as int, p1 as int + l as int));
    }
    Ok((v, p1 + l))
}

/// What one frame body carries, as mathematical values: the four header
/// fields and the payload bytes.
pub struct LineModel {
    pub src_addr: Seq<u8>,
    pub src_port: u16,
    pub dst_addr: Seq<u8>,
    pub dst_port: u16,
    pub payload: Seq<u8>,
}

/// The model a header and payload denote.
pub open spec fn line_model_of(h: LineHeader, payload: Seq<u8>) -> LineModel {
    LineModel {
        src_addr: h.src.addr@,
        src_port: h.src.port,
        dst_addr: h.dst.addr@,
        dst_port: h.dst.port,
        payload,
    }
}

/// The frame body: source address and port, destination address and port,
/// then the payload bytes.
pub open spec fn enc_line(m: LineModel) -> Seq<u8> {
    enc_bytes(m.src_addr) + varint(m.src_port as nat) + enc_bytes(m.dst_addr) + varint(
        m.dst_port as nat,
    ) + enc_bytes(m.payload)
}

/// Parse a frame body: the model, the payload's offset in the input, and
/// the number of bytes consumed. Addresses are capped at eight segments.
pub open spec fn parse_line(s: Seq<u8>) -> Option<(LineModel, int, int)> {
    match parse_bytes(s, crate::icd::MAX_ADDR_SEGMENTS as nat) {
        Some((src_addr, p1)) => match parse_u16_at(s.skip(p1)) {
            Some((src_port, n2)) => {
                let p2 = p1 + n2;
                match parse_bytes(s.skip(p2), crate::icd::MAX_ADDR_SEGMENTS as nat) {
                    Some((dst_addr, n3)) => {
                        let p3 = p2 + n3;
                        match parse_u16_at(s.skip(p3)) {
                            Some((dst_port, n4)) => {
                                let p4 = p3 + n4;
                                match parse_varint(s.skip(p4)) {
                                    Some((l, n5)) => {
                                        let off = p4 + n5;
                                        if off + l <= s.len() {
                                            Some(
                                                (
                                                    LineModel {
                                                        src_addr,
                                                        src_port,
                                                        dst_addr,
                                                        dst_port,
                                                        payload: s.subrange(off, off + l),
                                                    },
                                                    off,
                                                    off + l,
                                                ),
                                            )
                                        } else {
                                            None
                                        }
                                    },
                                    None => None,
                                }
                            },
                            None => None,
                        }
                    },
                    None => None,
                }
            },
            None => None,
        },
        None => None,
    }
}

/// Append a length-prefixed byte sequence.
fn encode_bytes(out: &mut Vec<u8>, b: &Vec<u8>)
    ensures
        final(out)@ == old(out)@ + enc_bytes(b@),
{
    encode_varint(out, b.len() as u64);
    let ghost mid = out@;
    let mut k: usize = 0;
    while k < b.len()
        invariant
            k <= b@.len(),
            out@ =~= mid + b@.subrange(0, k as int),
        decreases b@.len() - k,
    {
        let x = b[k];
        out.push(x);
        k += 1;
        proof {
            assert(out@ =~= mid + b@.subrange(0, k as int));
        }
    }
    proof {
        assert(out@ =~= old(out)@ + enc_bytes(b@));
    }
}

/// Encode a frame body from its header and payload bytes.
pub fn encode_line_message(hdr: &LineHeader, payload: &Vec<u8>) -> (r: Vec<u8>)
    ensures
        r@ == enc_line(line_model_of(*hdr, payload@)),
{
    let mut out: Vec<u8> = Vec::new();
    encode_bytes(&mut out, &hdr.src.addr.bytes);
    encode_varint(&mut out, hdr.src.port as u64);
    encode_bytes(&mut out, &hdr.dst.addr.bytes);
    encode_varint(&mut out, hdr.dst.port as u64);
    encode_bytes(&mut out, payload);
    proof {
        assert(out@ =~= enc_line(line_model_of(*hdr, payload@)));
    }
    out
}

/// Decode a frame body: the header, and the payload as its offset and
/// length in the input. Succeeds exactly when [`parse_line`] does; bytes
/// after the payload are ignored, as the in-place frame decoder ignores
/// them.
#[verifier::rlimit(60)]
pub fn decode_line_message(s: &Vec<u8>) -> (r: Result<(LineHeader, usize, usize), ()>)
    ensures
        r is Ok <==> parse_line(s@) is Some,
        match parse_line(s@) {
            None => r is Err,
            Some((m, off, con)) => {
                r matches Ok((h, po, pl)) && line_model_of(h, m.payload) == m && po == off && pl
                    == m.payload.len() && po + pl == con <= s@.len() && m.payload == s@.subrange(
                    off,
                    off + pl,
                )
            },
        },
{
    proof {
        assert(s@.skip(0) =~= s@);
    }
    let (src_bytes, p1) = match decode_bytes(s, 0, crate::icd::MAX_ADDR_SEGMENTS) {
        Ok(x) => x,
        Err(()) => { return Err(()); },
    };
    let (src_port, p2) = match decode_u16(s, p1) {
        Ok(x) => x,
        Err(()) => { return Err(()); },
    };
    let (dst_bytes, p3) = match decode_bytes(s, p2, crate::icd::MAX_ADDR_SEGMENTS) {
        Ok(x) => x,
        Err(()) => { return Err(()); },
    };
    let (dst_port, p4) = match decode_u16(s, p3) {
        Ok(x) => x,
        Err(()) => { return Err(()); },
    };
    let total = s.len();
    let (l64, p5) = match decode_varint(s, p4) {
        Ok(x) => x,
        Err(()) => {
            proof {
                assert(s@.len() == total as int);
                lemma_parse_varint_bounds(s@.skip(p4 as int));
                match parse_varint(s@.skip(p4 as int)) {
                    Some(pair) => {
                        assert(pair.0 > u64::MAX);
                        assert(p4 + pair.1 + pair.0 > s@.len());
                    },
                    None => {},
                }
            }
            return Err(());
        },
    };
    if l64 > total as u64 - p5 as u64 {
        proof {
            lemma_line_positions(s@, p1 as int, p2 as int, p3 as int, p4 as int);
        }
        return Err(());
    }
    let pl = l64 as usize;
    proof {
        lemma_line_positions(s@, p1 as int, p2 as int, p3 as int, p4 as int);
    }
    let h = LineHeader {
        src: crate::icd::AddrPort { addr: VecAddr { bytes: src_bytes }, port: src_port },
        dst: crate::icd::AddrPort { addr: VecAddr { bytes: dst_bytes }, port: dst_port },
    };
    proof {
        let (m, off, con) = parse_line(s@).unwrap();
        assert(m.payload =~= s@.subrange(p5 as int, p5 as int + pl as int));
        assert(line_model_of(h, m.payload) == m);
    }
    Ok((h, p5, pl))
}

/// The parsers in a frame body chain along the input: each one's suffix is
/// the previous suffix less what the previous parser consumed.
proof fn lemma_line_positions(s: Seq<u8>, p1: int, p2: int, p3: int, p4: int)
    requires
        0 <= p1 <= p2 <= p3 <= p4 <= s.len(),
    ensures
        s.skip(0) =~= s,
        s.skip(p1) =~= s.skip(0).skip(p1),
        s.skip(p2) =~= s.skip(p1).skip(p2 - p1),
        s.skip(p3) =~= s.skip(p2).skip(p3 - p2),
        s.skip(p4) =~= s.skip(p3).skip(p4 - p3),
{
}

/// Parsing an encoded frame body yields the model back, with the payload
/// placed right before the end of the encoding.
#[verifier::rlimit(60)]
pub proof fn lemma_parse_line(m: LineModel, rest: Seq<u8>)
    requires
        m.src_addr.len() <= crate::icd::MAX_ADDR_SEGMENTS,
        m.dst_addr.len() <= crate::icd::MAX_ADDR_SEGMENTS,
    ensures
        parse_line(enc_line(m) + rest) == Some(
            (m, enc_line(m).len() - m.payload.len(), enc_line(m).len() as int),
        ),
{
    let lim = crate::icd::MAX_ADDR_SEGMENTS as nat;
    let s = enc_line(m) + rest;
    let e1 = enc_bytes(m.src_addr);
    let e2 = varint(m.src_port as nat);
    let e3 = enc_bytes(m.dst_addr);
    let e4 = varint(m.dst_port as nat);
    let e5 = enc_bytes(m.payload);
    assert(s =~= e1 + (e2 + e3 + e4 + e5 + rest));
    lemma_parse_bytes(m.src_addr, e2 + e3 + e4 + e5 + rest, lim);
    let p1 = e1.len() as int;
    assert(parse_bytes(s, lim) == Some((m.src_addr, p1)));
    assert(s.skip(p1) =~= e2 + (e3 + e4 + e5 + rest));
    lemma_parse_varint(m.src_port as nat, e3 + e4 + e5 + rest);
    let p2 = p1 + e2.len() as int;
    assert(s.skip(p2) =~= e3 + (e4 + e5 + rest));
    lemma_parse_bytes(m.dst_addr, e4 + e5 + rest, lim);
    let p3 = p2 + e3.len() as int;
    assert(s.skip(p3) =~= e4 + (e5 + rest));
    lemma_parse_varint(m.dst_port as nat, e5 + rest);
    let p4 = p3 + e4.len() as int;
    assert(s.skip(p4) =~= varint(m.payload.len()) + (m.payload + rest));
    lemma_parse_varint(m.payload.len(), m.payload + rest);
    let p5 = p4 + varint(m.payload.len()).len() as int;
    lemma_parse_varint_bounds(s.skip(p4));
    assert(s.subrange(p5, p5 + m.payload.len()) =~= m.payload);
    assert(p5 + m.payload.len() == enc_line(m).len());
    assert(enc_line(m).len() <= s.len());
}

} // verus!
