//! Wire codecs for the typed protocol payloads.
//!
//! An enum rides as its variant index (varint) followed by the variant's
//! fields in declaration order; see the frame codec for the primitives.
//! Each decoder is pinned to a specification parser, and parsing an
//! encoding yields the value back.

use vstd::prelude::*;

use crate::icd::{BusDomPayload, BusSubPayload, DomTokenGrantPayload, SubTokenReleasePayload};
use crate::wire::{decode_bytes, decode_u32, decode_u8, decode_varint, enc_bytes, encode_varint,
    lemma_parse_bytes, lemma_parse_varint, lemma_parse_varint_bounds, parse_bytes, parse_u32_at,
    parse_u8_at, parse_varint, varint};

verus! {

/// A Dom payload with the offer list as a sequence: what the wire carries.
pub enum DomPayloadModel {
    Reset,
    DiscoverInitial { random: u32, min_wait_us: u32, max_wait_us: u32, offers: Seq<u8> },
    DiscoverAckAck { own_id: u8, own_random: u32, own_id_ownrand_checksum: u32 },
    PingReq { random: u32, min_wait_us: u32, max_wait_us: u32 },
    BusGrant { tx_bytes_ready: u32, rx_bytes_avail: u32, max_grant_us: u32 },
}

/// The model a Dom payload value denotes.
pub open spec fn dom_model(p: BusDomPayload) -> DomPayloadModel {
    match p {
        BusDomPayload::ResetConnection => DomPayloadModel::Reset,
        BusDomPayload::DiscoverInitial { random, min_wait_us, max_wait_us, offers } =>
            DomPayloadModel::DiscoverInitial {
            random,
            min_wait_us,
            max_wait_us,
            offers: offers@,
        },
        BusDomPayload::DiscoverAckAck { own_id, own_random, own_id_ownrand_checksum } =>
            DomPayloadModel::DiscoverAckAck { own_id, own_random, own_id_ownrand_checksum },
        BusDomPayload::PingReq { random, min_wait_us, max_wait_us } => DomPayloadModel::PingReq {
            random,
            min_wait_us,
            max_wait_us,
        },
        BusDomPayload::BusGrant { tx_bytes_ready, rx_bytes_avail, max_grant_us } =>
            DomPayloadModel::BusGrant { tx_bytes_ready, rx_bytes_avail, max_grant_us },
    }
}

/// A `u32` field rides as a varint.
pub open spec fn enc_u32(x: u32) -> Seq<u8> {
    varint(x as nat)
}

/// The encoding of a Dom payload.
pub open spec fn enc_dom(m: DomPayloadModel) -> Seq<u8> {
    match m {
        DomPayloadModel::Reset => varint(0),
        DomPayloadModel::DiscoverInitial { random, min_wait_us, max_wait_us, offers } => varint(1)
            + enc_u32(random) + enc_u32(min_wait_us) + enc_u32(max_wait_us) + enc_bytes(offers),
        DomPayloadModel::DiscoverAckAck { own_id, own_random, own_id_ownrand_checksum } => varint(2)
            + seq![own_id] + enc_u32(own_random) + enc_u32(own_id_ownrand_checksum),
        DomPayloadModel::PingReq { random, min_wait_us, max_wait_us } => varint(3) + enc_u32(random)
            + enc_u32(min_wait_us) + enc_u32(max_wait_us),
        DomPayloadModel::BusGrant { tx_bytes_ready, rx_bytes_avail, max_grant_us } => varint(4)
            + enc_u32(tx_bytes_ready) + enc_u32(rx_bytes_avail) + enc_u32(max_grant_us),
    }
}

/// Parse three `u32` fields in a row: the values and the bytes consumed.
pub open spec fn parse_u32x3(s: Seq<u8>) -> Option<((u32, u32, u32), int)> {
    match parse_u32_at(s) {
        Some((a, n1)) => match parse_u32_at(s.skip(n1)) {
            Some((b, n2)) => match parse_u32_at(s.skip(n1 + n2)) {
                Some((c, n3)) => Some(((a, b, c), n1 + n2 + n3)),
                None => None,
            },
            None => None,
        },
        None => None,
    }
}

/// Parse a Dom payload: the model and the bytes consumed.
pub open spec fn parse_dom(s: Seq<u8>) -> Option<(DomPayloadModel, int)> {
    match parse_varint(s) {
        Some((tag, n)) => {
            if tag == 0 {
                Some((DomPayloadModel::Reset, n))
            } else if tag == 1 {
                match parse_u32x3(s.skip(n)) {
                    Some(((random, min_wait_us, max_wait_us), n1)) => {
                        match parse_bytes(s.skip(n + n1), crate::icd::MAX_OFFERS as nat) {
                            Some((offers, n2)) => Some(
                                (
                                    DomPayloadModel::DiscoverInitial {
                                        random,
                                        min_wait_us,
                                        max_wait_us,
                                        offers,
                                    },
                                    n + n1 + n2,
                                ),
                            ),
                            None => None,
                        }
                    },
                    None => None,
                }
            } else if tag == 2 {
                match parse_u8_at(s.skip(n)) {
                    Some((own_id, n1)) => match parse_u32_at(s.skip(n + n1)) {
                        Some((own_random, n2)) => match parse_u32_at(s.skip(n + n1 + n2)) {
                            Some((own_id_ownrand_checksum, n3)) => Some(
                                (
                                    DomPayloadModel::DiscoverAckAck {
                                        own_id,
                                        own_random,
                                        own_id_ownrand_checksum,
                                    },
                                    n + n1 + n2 + n3,
                                ),
                            ),
                            None => None,
                        },
                        None => None,
                    },
                    None => None,
                }
            } else if tag == 3 {
                match parse_u32x3(s.skip(n)) {
                    Some(((random, min_wait_us, max_wait_us), n1)) => Some(
                        (DomPayloadModel::PingReq { random, min_wait_us, max_wait_us }, n + n1),
                    ),
                    None => None,
                }
            } else if tag == 4 {
                match parse_u32x3(s.skip(n)) {
                    Some(((tx_bytes_ready, rx_bytes_avail, max_grant_us), n1)) => Some(
                        (
                            DomPayloadModel::BusGrant {
                                tx_bytes_ready,
                                rx_bytes_avail,
                                max_grant_us,
                            },
                            n + n1,
                        ),
                    ),
                    None => None,
                }
            } else {
                None
            }
        },
        None => None,
    }
}

/// The encoding of a Sub payload.
pub open spec fn enc_sub(p: BusSubPayload) -> Seq<u8> {
    match p {
        BusSubPayload::DiscoverAck { own_id, own_id_rand_checksum, own_random } => varint(0)
            + seq![own_id] + enc_u32(own_id_rand_checksum) + enc_u32(own_random),
        BusSubPayload::BusGrantAccept { tx_bytes_ready, rx_bytes_avail } => varint(1) + enc_u32(
            tx_bytes_ready,
        ) + enc_u32(rx_bytes_avail),
        BusSubPayload::PingAck { own_id_checksum, own_random } => varint(2) + enc_u32(
            own_id_checksum,
        ) + enc_u32(own_random),
        BusSubPayload::BusGrantRelease => varint(3),
    }
}

/// Parse a Sub payload: the value and the bytes consumed.
pub open spec fn parse_sub(s: Seq<u8>) -> Option<(BusSubPayload, int)> {
    match parse_varint(s) {
        Some((tag, n)) => {
            if tag == 0 {
                match parse_u8_at(s.skip(n)) {
                    Some((own_id, n1)) => match parse_u32_at(s.skip(n + n1)) {
                        Some((own_id_rand_checksum, n2)) => match parse_u32_at(
                            s.skip(n + n1 + n2),
                        ) {
                            Some((own_random, n3)) => Some(
                                (
                                    BusSubPayload::DiscoverAck {
                                        own_id,
                                        own_id_rand_checksum,
                                        own_random,
                                    },
                                    n + n1 + n2 + n3,
                                ),
                            ),
                            None => None,
                        },
                        None => None,
                    },
                    None => None,
                }
            } else if tag == 1 {
                match parse_u32_at(s.skip(n)) {
                    Some((tx_bytes_ready, n1)) => match parse_u32_at(s.skip(n + n1)) {
                        Some((rx_bytes_avail, n2)) => Some(
                            (
                                BusSubPayload::BusGrantAccept { tx_bytes_ready, rx_bytes_avail },
                                n + n1 + n2,
                            ),
                        ),
                        None => None,
                    },
                    None => None,
                }
            } else if tag == 2 {
                match parse_u32_at(s.skip(n)) {
                    Some((own_id_checksum, n1)) => match parse_u32_at(s.skip(n + n1)) {
                        Some((own_random, n2)) => Some(
                            (
                                BusSubPayload::PingAck { own_id_checksum, own_random },
                                n + n1 + n2,
                            ),
                        ),
                        None => None,
                    },
                    None => None,
                }
            } else if tag == 3 {
                Some((BusSubPayload::BusGrantRelease, n))
            } else {
                None
            }
        },
        None => None,
    }
}

/// The encoding of a token grant.
pub open spec fn enc_grant(g: DomTokenGrantPayload) -> Seq<u8> {
    enc_u32(g.random) + enc_u32(g.max_time_us)
}

/// Parse a token grant.
pub open spec fn parse_grant(s: Seq<u8>) -> Option<(DomTokenGrantPayload, int)> {
    match parse_u32_at(s) {
        Some((random, n1)) => match parse_u32_at(s.skip(n1)) {
            Some((max_time_us, n2)) => Some(
                (DomTokenGrantPayload { random, max_time_us }, n1 + n2),
            ),
            None => None,
        },
        None => None,
    }
}

/// The encoding of a token release.
pub open spec fn enc_release(g: SubTokenReleasePayload) -> Seq<u8> {
    enc_u32(g.random)
}

/// Parse a token release.
pub open spec fn parse_release(s: Seq<u8>) -> Option<(SubTokenReleasePayload, int)> {
    match parse_u32_at(s) {
        Some((random, n1)) => Some((SubTokenReleasePayload { random }, n1)),
        None => None,
    }
}

/// Encode a Dom payload.
pub fn encode_dom_payload(p: &BusDomPayload) -> (r: Vec<u8>)
    ensures
        r@ == enc_dom(dom_model(*p)),
{
    let mut out: Vec<u8> = Vec::new();
    match p {
        BusDomPayload::ResetConnection => {
            encode_varint(&mut out, 0);
        },
        BusDomPayload::DiscoverInitial { random, min_wait_us, max_wait_us, offers } => {
            encode_varint(&mut out, 1);
            encode_varint(&mut out, *random as u64);
            encode_varint(&mut out, *min_wait_us as u64);
            encode_varint(&mut out, *max_wait_us as u64);
            encode_varint(&mut out, offers.len() as u64);
            let ghost mid = out@;
            let mut k: usize = 0;
            while k < offers.len()
                invariant
                    k <= offers@.len(),
                    out@ =~= mid + offers@.subrange(0, k as int),
                decreases offers@.len() - k,
            {
                let b = offers[k];
                out.push(b);
                k += 1;
                proof {
                    assert(out@ =~= mid + offers@.subrange(0, k as int));
                }
            }
            proof {
                assert(out@ =~= enc_dom(dom_model(*p)));
            }
        },
        BusDomPayload::DiscoverAckAck { own_id, own_random, own_id_ownrand_checksum } => {
            encode_varint(&mut out, 2);
            out.push(*own_id);
            encode_varint(&mut out, *own_random as u64);
            encode_varint(&mut out, *own_id_ownrand_checksum as u64);
            proof {
                assert(out@ =~= enc_dom(dom_model(*p)));
            }
        },
        BusDomPayload::PingReq { random, min_wait_us, max_wait_us } => {
            encode_varint(&mut out, 3);
            encode_varint(&mut out, *random as u64);
            encode_varint(&mut out, *min_wait_us as u64);
            encode_varint(&mut out, *max_wait_us as u64);
            proof {
                assert(out@ =~= enc_dom(dom_model(*p)));
            }
        },
        BusDomPayload::BusGrant { tx_bytes_ready, rx_bytes_avail, max_grant_us } => {
            encode_varint(&mut out, 4);
            encode_varint(&mut out, *tx_bytes_ready as u64);
            encode_varint(&mut out, *rx_bytes_avail as u64);
            encode_varint(&mut out, *max_grant_us as u64);
            proof {
                assert(out@ =~= enc_dom(dom_model(*p)));
            }
        },
    }
    proof {
        assert(out@ =~= enc_dom(dom_model(*p)));
    }
    out
}

/// Decode three `u32` fields starting at `pos`.
fn decode_u32x3(s: &Vec<u8>, pos: usize) -> (r: Result<((u32, u32, u32), usize), ()>)
    requires
        pos <= s@.len(),
    ensures
        match parse_u32x3(s@.skip(pos as int)) {
            None => r is Err,
            Some((vals, n)) => r matches Ok((w, p)) && w == vals && p == pos + n,
        },
        r matches Ok((w, p)) ==> pos < p <= s@.len(),
{
    let (a, p1) = match decode_u32(s, pos) {
        Ok(x) => x,
        Err(()) => { return Err(()); },
    };
    proof {
        assert(s@.skip(pos as int).skip(p1 - pos as int) =~= s@.skip(p1 as int));
    }
    let (b, p2) = match decode_u32(s, p1) {
        Ok(x) => x,
        Err(()) => { return Err(()); },
    };
    proof {
        assert(s@.skip(pos as int).skip(p2 - pos as int) =~= s@.skip(p2 as int));
    }
    let (c, p3) = match decode_u32(s, p2) {
        Ok(x) => x,
        Err(()) => { return Err(()); },
    };
    Ok(((a, b, c), p3))
}

/// Decode a Dom payload; bytes after the payload are ignored.
pub fn decode_dom_payload(s: &Vec<u8>) -> (r: Result<BusDomPayload, ()>)
    ensures
        r is Ok <==> parse_dom(s@) is Some,
        match r {
            Ok(p) => parse_dom(s@) matches Some((m, n)) && dom_model(p) == m,
            Err(()) => parse_dom(s@) is None,
        },
{
    proof {
        assert(s@.skip(0) =~= s@);
    }
    let (tag, p0) = match decode_varint(s, 0) {
        Ok(x) => x,
        Err(()) => {
            proof {
                lemma_parse_varint_bounds(s@);
            }
            return Err(());
        },
    };
    proof {
        assert(s@.skip(0).skip(p0 as int) =~= s@.skip(p0 as int));
    }
    if tag == 0 {
        Ok(BusDomPayload::ResetConnection)
    } else if tag == 1 {
        let ((random, min_wait_us, max_wait_us), p1) = match decode_u32x3(s, p0) {
            Ok(x) => x,
            Err(()) => { return Err(()); },
        };
        proof {
            assert(s@.skip(p0 as int).skip(p1 - p0 as int) =~= s@.skip(p1 as int));
        }
        let (offers, _p2) = match decode_bytes(s, p1, crate::icd::MAX_OFFERS) {
            Ok(x) => x,
            Err(()) => { return Err(()); },
        };
        Ok(BusDomPayload::DiscoverInitial { random, min_wait_us, max_wait_us, offers })
    } else if tag == 2 {
        let (own_id, p1) = match decode_u8(s, p0) {
            Ok(x) => x,
            Err(()) => { return Err(()); },
        };
        proof {
            assert(parse_u8_at(s@.skip(p0 as int)) == Some((own_id, 1int)));
            assert(s@.skip(p0 as int).skip(1) =~= s@.skip(p1 as int));
        }
        let (own_random, p2) = match decode_u32(s, p1) {
            Ok(x) => x,
            Err(()) => { return Err(()); },
        };
        proof {
            assert(s@.skip(p0 as int).skip(p2 - p0 as int) =~= s@.skip(p2 as int));
        }
        let (own_id_ownrand_checksum, _p3) = match decode_u32(s, p2) {
            Ok(x) => x,
            Err(()) => { return Err(()); },
        };
        Ok(BusDomPayload::DiscoverAckAck { own_id, own_random, own_id_ownrand_checksum })
    } else if tag == 3 {
        let ((random, min_wait_us, max_wait_us), _p1) = match decode_u32x3(s, p0) {
            Ok(x) => x,
            Err(()) => { return Err(()); },
        };
        Ok(BusDomPayload::PingReq { random, min_wait_us, max_wait_us })
    } else if tag == 4 {
        let ((tx_bytes_ready, rx_bytes_avail, max_grant_us), _p1) = match decode_u32x3(s, p0) {
            Ok(x) => x,
            Err(()) => { return Err(()); },
        };
        Ok(BusDomPayload::BusGrant { tx_bytes_ready, rx_bytes_avail, max_grant_us })
    } else {
        Err(())
    }
}

/// Encode a Sub payload.
pub fn encode_sub_payload(p: &BusSubPayload) -> (r: Vec<u8>)
    ensures
        r@ == enc_sub(*p),
{
    let mut out: Vec<u8> = Vec::new();
    match p {
        BusSubPayload::DiscoverAck { own_id, own_id_rand_checksum, own_random } => {
            encode_varint(&mut out, 0);
            out.push(*own_id);
            encode_varint(&mut out, *own_id_rand_checksum as u64);
            encode_varint(&mut out, *own_random as u64);
        },
        BusSubPayload::BusGrantAccept { tx_bytes_ready, rx_bytes_avail } => {
            encode_varint(&mut out, 1);
            encode_varint(&mut out, *tx_bytes_ready as u64);
            encode_varint(&mut out, *rx_bytes_avail as u64);
        },
        BusSubPayload::PingAck { own_id_checksum, own_random } => {
            encode_varint(&mut out, 2);
            encode_varint(&mut out, *own_id_checksum as u64);
            encode_varint(&mut out, *own_random as u64);
        },
        BusSubPayload::BusGrantRelease => {
            encode_varint(&mut out, 3);
        },
    }
    proof {
        assert(out@ =~= enc_sub(*p));
    }
    out
}

/// Decode a Sub payload; bytes after the payload are ignored.
pub fn decode_sub_payload(s: &Vec<u8>) -> (r: Result<BusSubPayload, ()>)
    ensures
        r is Ok <==> parse_sub(s@) is Some,
        match r {
            Ok(p) => parse_sub(s@) matches Some((v, n)) && p == v,
            Err(()) => parse_sub(s@) is None,
        },
{
    proof {
        assert(s@.skip(0) =~= s@);
    }
    let (tag, p0) = match decode_varint(s, 0) {
        Ok(x) => x,
        Err(()) => {
            proof {
                lemma_parse_varint_bounds(s@);
            }
            return Err(());
        },
    };
    if tag == 0 {
        let (own_id, p1) = match decode_u8(s, p0) {
            Ok(x) => x,
            Err(()) => { return Err(()); },
        };
        proof {
            assert(parse_u8_at(s@.skip(p0 as int)) == Some((own_id, 1int)));
            assert(s@.skip(p0 as int).skip(1) =~= s@.skip(p1 as int));
        }
        let (own_id_rand_checksum, p2) = match decode_u32(s, p1) {
            Ok(x) => x,
            Err(()) => { return Err(()); },
        };
        proof {
            assert(s@.skip(p0 as int).skip(p2 - p0 as int) =~= s@.skip(p2 as int));
        }
        let (own_random, _p3) = match decode_u32(s, p2) {
            Ok(x) => x,
            Err(()) => { return Err(()); },
        };
        Ok(BusSubPayload::DiscoverAck { own_id, own_id_rand_checksum, own_random })
    } else if tag == 1 {
        let (tx_bytes_ready, p1) = match decode_u32(s, p0) {
            Ok(x) => x,
            Err(()) => { return Err(()); },
        };
        proof {
            assert(s@.skip(p0 as int).skip(p1 - p0 as int) =~= s@.skip(p1 as int));
        }
        let (rx_bytes_avail, _p2) = match decode_u32(s, p1) {
            Ok(x) => x,
            Err(()) => { return Err(()); },
        };
        Ok(BusSubPayload::BusGrantAccept { tx_bytes_ready, rx_bytes_avail })
    } else if tag == 2 {
        let (own_id_checksum, p1) = match decode_u32(s, p0) {
            Ok(x) => x,
            Err(()) => { return Err(()); },
        };
        proof {
            assert(s@.skip(p0 as int).skip(p1 - p0 as int) =~= s@.skip(p1 as int));
        }
        let (own_random, _p2) = match decode_u32(s, p1) {
            Ok(x) => x,
            Err(()) => { return Err(()); },
        };
        Ok(BusSubPayload::PingAck { own_id_checksum, own_random })
    } else if tag == 3 {
        Ok(BusSubPayload::BusGrantRelease)
    } else {
        Err(())
    }
}

/// Encode a token grant.
pub fn encode_grant_payload(p: &DomTokenGrantPayload) -> (r: Vec<u8>)
    ensures
        r@ == enc_grant(*p),
{
    let mut out: Vec<u8> = Vec::new();
    encode_varint(&mut out, p.random as u64);
    encode_varint(&mut out, p.max_time_us as u64);
    proof {
        assert(out@ =~= enc_grant(*p));
    }
    out
}

/// Decode a token grant; bytes after the payload are ignored.
pub fn decode_grant_payload(s: &Vec<u8>) -> (r: Result<DomTokenGrantPayload, ()>)
    ensures
        r is Ok <==> parse_grant(s@) is Some,
        match r {
            Ok(p) => parse_grant(s@) matches Some((v, n)) && p == v,
            Err(()) => parse_grant(s@) is None,
        },
{
    proof {
        assert(s@.skip(0) =~= s@);
    }
    let (random, p1) = match decode_u32(s, 0) {
        Ok(x) => x,
        Err(()) => { return Err(()); },
    };
    proof {
        assert(s@.skip(0).skip(p1 as int) =~= s@.skip(p1 as int));
    }
    let (max_time_us, _p2) = match decode_u32(s, p1) {
        Ok(x) => x,
        Err(()) => { return Err(()); },
    };
    Ok(DomTokenGrantPayload { random, max_time_us })
}

/// Encode a token release.
pub fn encode_release_payload(p: &SubTokenReleasePayload) -> (r: Vec<u8>)
    ensures
        r@ == enc_release(*p),
{
    let mut out: Vec<u8> = Vec::new();
    encode_varint(&mut out, p.random as u64);
    proof {
        assert(out@ =~= enc_release(*p));
    }
    out
}

/// Decode a token release; bytes after the payload are ignored.
pub fn decode_release_payload(s: &Vec<u8>) -> (r: Result<SubTokenReleasePayload, ()>)
    ensures
        r is Ok <==> parse_release(s@) is Some,
        match r {
            Ok(p) => parse_release(s@) matches Some((v, n)) && p == v,
            Err(()) => parse_release(s@) is None,
        },
{
    proof {
        assert(s@.skip(0) =~= s@);
    }
    let (random, _p1) = match decode_u32(s, 0) {
        Ok(x) => x,
        Err(()) => { return Err(()); },
    };
    Ok(SubTokenReleasePayload { random })
}

/// Parsing an encoded `u32` field yields the value back.
proof fn lemma_parse_u32(x: u32, rest: Seq<u8>)
    ensures
        parse_u32_at(enc_u32(x) + rest) == Some((x, varint(x as nat).len() as int)),
{
    lemma_parse_varint(x as nat, rest);
}

/// Parsing three encoded `u32` fields yields the values back.
proof fn lemma_parse_u32x3(a: u32, b: u32, c: u32, rest: Seq<u8>)
    ensures
        parse_u32x3(enc_u32(a) + enc_u32(b) + enc_u32(c) + rest) == Some(
            (
                (a, b, c),
                enc_u32(a).len() + enc_u32(b).len() + enc_u32(c).len() as int,
            ),
        ),
{
    let s = enc_u32(a) + enc_u32(b) + enc_u32(c) + rest;
    assert(s =~= enc_u32(a) + (enc_u32(b) + enc_u32(c) + rest));
    lemma_parse_u32(a, enc_u32(b) + enc_u32(c) + rest);
    let n1 = enc_u32(a).len() as int;
    assert(s.skip(n1) =~= enc_u32(b) + (enc_u32(c) + rest));
    lemma_parse_u32(b, enc_u32(c) + rest);
    let n2 = enc_u32(b).len() as int;
    assert(s.skip(n1 + n2) =~= enc_u32(c) + rest);
    lemma_parse_u32(c, rest);
}

/// Parsing an encoded Dom payload yields its model back and consumes
/// exactly the encoding.
#[verifier::rlimit(80)]
pub proof fn lemma_parse_dom(p: BusDomPayload, rest: Seq<u8>)
    requires
        p matches BusDomPayload::DiscoverInitial { offers, .. } ==> offers@.len()
            <= crate::icd::MAX_OFFERS,
    ensures
        parse_dom(enc_dom(dom_model(p)) + rest) == Some(
            (dom_model(p), enc_dom(dom_model(p)).len() as int),
        ),
{
    let m = dom_model(p);
    let s = enc_dom(m) + rest;
    match m {
        DomPayloadModel::Reset => {
            assert(s =~= varint(0) + rest);
            lemma_parse_varint(0, rest);
        },
        DomPayloadModel::DiscoverInitial { random, min_wait_us, max_wait_us, offers } => {
            let body = enc_u32(random) + enc_u32(min_wait_us) + enc_u32(max_wait_us) + enc_bytes(
                offers,
            );
            assert(s =~= varint(1) + (body + rest));
            lemma_parse_varint(1, body + rest);
            assert(s.skip(1) =~= enc_u32(random) + enc_u32(min_wait_us) + enc_u32(max_wait_us) + (
            enc_bytes(offers) + rest));
            lemma_parse_u32x3(random, min_wait_us, max_wait_us, enc_bytes(offers) + rest);
            let n1 = enc_u32(random).len() + enc_u32(min_wait_us).len() + enc_u32(
                max_wait_us,
            ).len() as int;
            assert(s.skip(1 + n1) =~= enc_bytes(offers) + rest);
            lemma_parse_bytes(offers, rest, crate::icd::MAX_OFFERS as nat);
        },
        DomPayloadModel::DiscoverAckAck { own_id, own_random, own_id_ownrand_checksum } => {
            let tail1 = enc_u32(own_random) + enc_u32(own_id_ownrand_checksum) + rest;
            assert(s =~= varint(2) + (seq![own_id] + tail1));
            lemma_parse_varint(2, seq![own_id] + tail1);
            assert(s.skip(1)[0] == own_id);
            assert(s.skip(1).len() >= 1);
            assert(s.skip(1).skip(1) =~= enc_u32(own_random) + (enc_u32(own_id_ownrand_checksum)
                + rest));
            assert(s.skip(2) =~= s.skip(1).skip(1));
            lemma_parse_u32(own_random, enc_u32(own_id_ownrand_checksum) + rest);
            let n2 = enc_u32(own_random).len() as int;
            assert(s.skip(2 + n2) =~= enc_u32(own_id_ownrand_checksum) + rest);
            lemma_parse_u32(own_id_ownrand_checksum, rest);
        },
        DomPayloadModel::PingReq { random, min_wait_us, max_wait_us } => {
            let body = enc_u32(random) + enc_u32(min_wait_us) + enc_u32(max_wait_us);
            assert(s =~= varint(3) + (body + rest));
            lemma_parse_varint(3, body + rest);
            assert(s.skip(1) =~= enc_u32(random) + enc_u32(min_wait_us) + enc_u32(max_wait_us)
                + rest);
            lemma_parse_u32x3(random, min_wait_us, max_wait_us, rest);
        },
        DomPayloadModel::BusGrant { tx_bytes_ready, rx_bytes_avail, max_grant_us } => {
            let body = enc_u32(tx_bytes_ready) + enc_u32(rx_bytes_avail) + enc_u32(max_grant_us);
            assert(s =~= varint(4) + (body + rest));
            lemma_parse_varint(4, body + rest);
            assert(s.skip(1) =~= enc_u32(tx_bytes_ready) + enc_u32(rx_bytes_avail) + enc_u32(
                max_grant_us,
            ) + rest);
            lemma_parse_u32x3(tx_bytes_ready, rx_bytes_avail, max_grant_us, rest);
        },
    }
}

/// Parsing an encoded Sub payload yields the value back and consumes
/// exactly the encoding.
pub proof fn lemma_parse_sub(p: BusSubPayload, rest: Seq<u8>)
    ensures
        parse_sub(enc_sub(p) + rest) == Some((p, enc_sub(p).len() as int)),
{
    let s = enc_sub(p) + rest;
    match p {
        BusSubPayload::DiscoverAck { own_id, own_id_rand_checksum, own_random } => {
            let tail1 = enc_u32(own_id_rand_checksum) + enc_u32(own_random) + rest;
            assert(s =~= varint(0) + (seq![own_id] + tail1));
            lemma_parse_varint(0, seq![own_id] + tail1);
            assert(s.skip(1)[0] == own_id);
            assert(s.skip(1).len() >= 1);
            assert(s.skip(2) =~= enc_u32(own_id_rand_checksum) + (enc_u32(own_random) + rest));
            lemma_parse_u32(own_id_rand_checksum, enc_u32(own_random) + rest);
            let n2 = enc_u32(own_id_rand_checksum).len() as int;
            assert(s.skip(2 + n2) =~= enc_u32(own_random) + rest);
            lemma_parse_u32(own_random, rest);
        },
        BusSubPayload::BusGrantAccept { tx_bytes_ready, rx_bytes_avail } => {
            assert(s =~= varint(1) + (enc_u32(tx_bytes_ready) + (enc_u32(rx_bytes_avail) + rest)));
            lemma_parse_varint(1, enc_u32(tx_bytes_ready) + (enc_u32(rx_bytes_avail) + rest));
            assert(s.skip(1) =~= enc_u32(tx_bytes_ready) + (enc_u32(rx_bytes_avail) + rest));
            lemma_parse_u32(tx_bytes_ready, enc_u32(rx_bytes_avail) + rest);
            let n1 = enc_u32(tx_bytes_ready).len() as int;
            assert(s.skip(1 + n1) =~= enc_u32(rx_bytes_avail) + rest);
            lemma_parse_u32(rx_bytes_avail, rest);
        },
        BusSubPayload::PingAck { own_id_checksum, own_random } => {
            assert(s =~= varint(2) + (enc_u32(own_id_checksum) + (enc_u32(own_random) + rest)));
            lemma_parse_varint(2, enc_u32(own_id_checksum) + (enc_u32(own_random) + rest));
            assert(s.skip(1) =~= enc_u32(own_id_checksum) + (enc_u32(own_random) + rest));
            lemma_parse_u32(own_id_checksum, enc_u32(own_random) + rest);
            let n1 = enc_u32(own_id_checksum).len() as int;
            assert(s.skip(1 + n1) =~= enc_u32(own_random) + rest);
            lemma_parse_u32(own_random, rest);
        },
        BusSubPayload::BusGrantRelease => {
            assert(s =~= varint(3) + rest);
            lemma_parse_varint(3, rest);
        },
    }
}

/// Parsing an encoded token grant yields the value back.
pub proof fn lemma_parse_grant(p: DomTokenGrantPayload, rest: Seq<u8>)
    ensures
        parse_grant(enc_grant(p) + rest) == Some((p, enc_grant(p).len() as int)),
{
    let s = enc_grant(p) + rest;
    assert(s =~= enc_u32(p.random) + (enc_u32(p.max_time_us) + rest));
    lemma_parse_u32(p.random, enc_u32(p.max_time_us) + rest);
    let n1 = enc_u32(p.random).len() as int;
    assert(s.skip(n1) =~= enc_u32(p.max_time_us) + rest);
    lemma_parse_u32(p.max_time_us, rest);
}

/// Parsing an encoded token release yields the value back.
pub proof fn lemma_parse_release(p: SubTokenReleasePayload, rest: Seq<u8>)
    ensures
        parse_release(enc_release(p) + rest) == Some((p, enc_release(p).len() as int)),
{
    lemma_parse_u32(p.random, rest);
}

} // verus!
