//! Framing: byte stuffing so that `0x00` can terminate frames on the wire.
//!
//! The stuffing itself is done by the `cobs` crate; the two calls below are
//! the only outside calls the library's logic makes, and everything proved
//! about frames rests on their stated behaviour.

use vstd::prelude::*;

verus! {

/// What `cobs::encode_vec` returns for the given bytes.
pub uninterp spec fn cobs_enc(s: Seq<u8>) -> Seq<u8>;

/// What `cobs::decode_vec` returns for the given bytes.
pub uninterp spec fn cobs_dec(s: Seq<u8>) -> Option<Seq<u8>>;

/// Relies on cobs::encode_vec: stuffs the frame so that `0x00` does not
/// appear in it, and cobs::decode_vec recovers exactly the source bytes,
/// with or without the `0x00` terminator appended.
#[verifier::external_body]
fn cobs_encode(src: &Vec<u8>) -> (r: Vec<u8>)
    ensures
        r@ == cobs_enc(src@),
        r@.len() >= 1,
        forall|i: int| 0 <= i < r@.len() ==> r@[i] != 0u8,
        cobs_dec(r@) == Some(src@),
        cobs_dec(r@ + seq![0u8]) == Some(src@),
{
    cobs::encode_vec(src.as_slice())
}

/// Relies on cobs::decode_vec: recovers the stuffed frame; the decoded
/// message is never longer than its encoding.
#[verifier::external_body]
fn cobs_decode(src: &Vec<u8>) -> (r: Result<Vec<u8>, ()>)
    ensures
        match r {
            Ok(d) => cobs_dec(src@) == Some(d@) && d@.len() <= src@.len(),
            Err(()) => cobs_dec(src@) is None,
        },
{
    match cobs::decode_vec(src.as_slice()) {
        Ok(v) => Ok(v),
        Err(_) => Err(()),
    }
}

/// A complete wire frame: the stuffed body followed by one `0x00`.
pub open spec fn frame_of(body: Seq<u8>) -> Seq<u8> {
    cobs_enc(body) + seq![0u8]
}

/// Encode a frame: stuff the body and terminate it with `0x00`. The result
/// ends in exactly one `0x00`, holds no other `0x00`, and decodes back to
/// the body.
pub fn encode_frame(body: &Vec<u8>) -> (r: Vec<u8>)
    ensures
        r@ == frame_of(body@),
        r@.len() >= 2,
        r@[r@.len() - 1] == 0u8,
        forall|i: int| 0 <= i < r@.len() - 1 ==> r@[i] != 0u8,
        cobs_dec(r@) == Some(body@),
        cobs_dec(r@.subrange(0, r@.len() - 1)) == Some(body@),
{
    let mut out = cobs_encode(body);
    out.push(0u8);
    proof {
        assert(out@ =~= frame_of(body@));
        assert(out@.subrange(0, out@.len() - 1) =~= cobs_enc(body@));
    }
    out
}

/// Decode a frame body: un-stuff the bytes. Succeeds exactly when the
/// stuffing is well formed; the body is never longer than the frame.
pub fn decode_frame(frame: &Vec<u8>) -> (r: Result<Vec<u8>, ()>)
    ensures
        match r {
            Ok(d) => cobs_dec(frame@) == Some(d@) && d@.len() <= frame@.len(),
            Err(()) => cobs_dec(frame@) is None,
        },
{
    cobs_decode(frame)
}

} // verus!
