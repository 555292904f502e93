//! The Sub side of token arbitration: transmit while holding the token,
//! release it, and give up loudly if the bus goes silent.
//!
//! A Sub with an address waits for a `TokenGrant`. While holding it, the
//! Sub repeatedly authorizes sends until its outgoing work drains or half
//! the granted budget elapses, then answers with a `TokenRelease` echoing
//! the grant's nonce. Ten grant waits in a row that run out mean the bus
//! is dead; the caller is told so and is expected to stop.

use vstd::prelude::*;

use crate::dispatch::LocalPacket;
use crate::dom::TOKEN_PORT;
use crate::icd::{AddrPort, DomTokenGrantPayload, SubTokenReleasePayload, VecAddr};
use crate::payload::{enc_release, encode_release_payload};
use crate::slab::BSlab;
use crate::timing::micros_since_spec;

verus! {

/// How many missed grants in a row mean the bus is dead.
pub const MAX_MISSED_GRANTS: u8 = 10;

/// What to do after a grant wait ran out.
pub enum GrantTimeoutVerdict {
    /// Keep waiting: the next cycle retries.
    Retry,
    /// Ten waits in a row ran out: assume the bus is dead and stop.
    BusDead,
}

/// What to do while draining under a held token.
pub enum DrainStep {
    /// Authorize another send and sleep this many microseconds.
    Wait(u32),
    /// Done draining (or out of budget): release the token.
    Release,
}

/// The Sub's token task: how many grant waits ran out in a row.
pub struct Token {
    pub bad_ticks: u8,
}

impl Token {
    /// A fresh token task.
    pub fn new() -> (r: Self)
        ensures
            r.bad_ticks == 0,
    {
        Token { bad_ticks: 0 }
    }

    /// A grant wait ran out. The count of consecutive misses goes up;
    /// reaching [`MAX_MISSED_GRANTS`] is fatal.
    pub fn on_grant_timeout(&mut self) -> (r: GrantTimeoutVerdict)
        ensures
            final(self).bad_ticks == (if old(self).bad_ticks < 255 {
                old(self).bad_ticks + 1
            } else {
                old(self).bad_ticks as int
            }),
            r is BusDead <==> final(self).bad_ticks >= MAX_MISSED_GRANTS,
    {
        if self.bad_ticks < 255 {
            self.bad_ticks = self.bad_ticks + 1;
        }
        if self.bad_ticks >= MAX_MISSED_GRANTS {
            GrantTimeoutVerdict::BusDead
        } else {
            GrantTimeoutVerdict::Retry
        }
    }

    /// A grant arrived: the miss count resets, and the Sub may transmit
    /// for half the granted budget. The caller clears the empty mark and
    /// authorizes the first send.
    pub fn on_grant(&mut self, body: &DomTokenGrantPayload) -> (r: u32)
        ensures
            final(self).bad_ticks == 0,
            r == body.max_time_us / 2,
    {
        self.bad_ticks = 0;
        body.max_time_us / 2
    }

    /// One step of draining under the token: release once the line driver
    /// reported empty or half the budget elapsed; otherwise authorize
    /// another send and sleep a quarter of the remaining half.
    pub fn drain_step(now: u32, start: u32, duration: u32, line_empty: bool) -> (r: DrainStep)
        ensures
            r is Release <==> (micros_since_spec(now, start) > duration || line_empty),
            r matches DrainStep::Wait(w) ==> w == duration / 4,
    {
        if crate::timing::micros_since(now, start) > duration {
            DrainStep::Release
        } else if line_empty {
            DrainStep::Release
        } else {
            DrainStep::Wait(duration / 4)
        }
    }

    /// Build the `TokenRelease` from our address back to the Dom, echoing
    /// the grant's nonce. Fails exactly when no chunk is free.
    pub fn release_packet(addr: u8, grant_random: u32, slab: &mut BSlab) -> (r: Result<
        LocalPacket,
        (),
    >)
        requires
            old(slab).wf(),
        ensures
            final(slab).wf(),
            final(slab).n == old(slab).n,
            final(slab).sz == old(slab).sz,
            r is Ok <==> (old(slab).initialized() && old(slab).free@.len() > 0 && enc_release(
                SubTokenReleasePayload { random: grant_random },
            ).len() <= old(slab).sz),
            r matches Ok(p) ==> {
                &&& p.hdr.src.addr@ =~= seq![addr]
                &&& p.hdr.src.port == TOKEN_PORT
                &&& p.hdr.dst.addr@ =~= seq![crate::icd::LOCAL_DOM_ADDR]
                &&& p.hdr.dst.port == TOKEN_PORT
                &&& p.response_wait_ticks is None
                &&& final(slab).valid_managed(p.payload)
                &&& final(slab).managed_bytes(p.payload) == enc_release(
                    SubTokenReleasePayload { random: grant_random },
                )
            },
            r is Err ==> *final(slab) == *old(slab),
    {
        let payload = SubTokenReleasePayload { random: grant_random };
        let bytes = encode_release_payload(&payload);
        match LocalPacket::from_parts_with_alloc(
            &bytes,
            AddrPort::from_parts(VecAddr::from_local_addr(addr), TOKEN_PORT),
            AddrPort::from_parts(VecAddr::local_dom_addr(), TOKEN_PORT),
            None,
            slab,
        ) {
            Some(p) => Ok(p),
            None => Err(()),
        }
    }
}

} // verus!
