//! The Sub side of discovery: obtain a bus address from the Dom.
//!
//! A Sub waits for a `DiscoverInitial`, picks an offered address and a
//! reply slot at random, answers with a `DiscoverAck`, waits to be
//! accepted, then answers ping requests until the address is committed.
//! The waiting is the caller's; this machine turns received packets into
//! state changes and packets to send.

use vstd::prelude::*;

use crate::dispatch::LocalPacket;
use crate::icd::{ack_ack_check, BusDomPayload, LocalHeader};
use crate::payload::{enc_sub, encode_sub_payload};
use crate::slab::BSlab;

verus! {

/// Where the Sub's commissioning stands.
pub enum SubDiscoveryState {
    /// Not engaged; the next step restarts the cycle.
    Idle,
    /// Listening for a `DiscoverInitial` broadcast.
    WaitInitial,
    /// Claimed `addr` with `sub_random`, answer sent; waiting to be
    /// accepted.
    AckSent { addr: u8, sub_random: u32 },
    /// Accepted; answering pings, `success_ct` answered so far.
    Pinging { addr: u8, success_ct: u8 },
    /// Commissioning finished with this address.
    Done { addr: u8 },
}

/// The Sub's discovery task.
pub struct Discovery {
    pub state: SubDiscoveryState,
}

impl Discovery {
    /// A fresh, idle discovery task.
    pub fn new() -> (r: Self)
        ensures
            r.state is Idle,
    {
        Discovery { state: SubDiscoveryState::Idle }
    }

    /// Start a commissioning attempt: the caller flushes pending frames,
    /// settles the line, resets its own address to unassigned, and then
    /// listens for a broadcast.
    pub fn begin(&mut self)
        ensures
            final(self).state is WaitInitial,
    {
        self.state = SubDiscoveryState::WaitInitial;
    }

    /// Any wait that ran out restarts the cycle from the top.
    pub fn on_timeout(&mut self)
        ensures
            final(self).state is Idle,
    {
        self.state = SubDiscoveryState::Idle;
    }

    /// React to a packet while listening for a broadcast. On a valid
    /// `DiscoverInitial` the Sub claims an offered address (picked by
    /// `idx_random`), draws a reply delay from the offered window, and
    /// moves to `AckSent`; the caller sets its provisional address, sleeps
    /// the delay, and sends the returned answer with one authorized send.
    /// Returns `(addr, delay, extra_wait, reply)`, where `extra_wait` is
    /// the unused remainder of the reply window. On anything else the
    /// cycle restarts. Fails exactly when no chunk is free for the reply.
    pub fn on_initial(
        &mut self,
        body: &BusDomPayload,
        hdr: &LocalHeader,
        idx_random: u32,
        sub_random: u32,
        delay_random: u32,
        slab: &mut BSlab,
    ) -> (r: Result<Option<(u8, u32, u32, LocalPacket)>, ()>)
        requires
            old(self).state is WaitInitial,
            old(slab).wf(),
        ensures
            final(slab).wf(),
            final(slab).n == old(slab).n,
            final(slab).sz == old(slab).sz,
            match crate::icd::BusSubPayload::spec_discover_ack(
                idx_random,
                sub_random,
                delay_random,
                *body,
                *hdr,
            ) {
                None => {
                    &&& r == Ok::<Option<(u8, u32, u32, LocalPacket)>, ()>(None)
                    &&& final(self).state is Idle
                    &&& *final(slab) == *old(slab)
                },
                Some((addr, delay, max_delay, reply_body)) => {
                    &&& (r is Ok <==> (old(slab).initialized() && old(slab).free@.len() > 0
                        && enc_sub(reply_body).len() <= old(slab).sz))
                    &&& (r is Err ==> *final(self) == *old(self) && *final(slab) == *old(slab))
                    &&& (r matches Ok(o) ==> {
                        &&& o matches Some((a, d, extra, pkt))
                        &&& a == addr
                        &&& d == delay
                        &&& extra == max_delay - delay
                        &&& final(self).state == (SubDiscoveryState::AckSent { addr, sub_random })
                        &&& pkt.hdr.src.addr@ =~= seq![addr]
                        &&& pkt.hdr.src.port == crate::dom::DISCOVERY_PORT
                        &&& pkt.hdr.dst.addr@ =~= seq![crate::icd::LOCAL_DOM_ADDR]
                        &&& pkt.hdr.dst.port == crate::dom::DISCOVERY_PORT
                        &&& final(slab).valid_managed(pkt.payload)
                        &&& final(slab).managed_bytes(pkt.payload) == enc_sub(reply_body)
                    })
                },
            },
    {
        match crate::icd::BusSubPayload::generate_discover_ack(
            idx_random,
            sub_random,
            delay_random,
            body,
            hdr,
        ) {
            None => {
                self.state = SubDiscoveryState::Idle;
                Ok(None)
            },
            Some((addr, srand, delay, max_delay, reply)) => {
                let bytes = encode_sub_payload(&reply.body);
                match LocalPacket::from_parts_with_alloc(
                    &bytes,
                    reply.hdr.src,
                    reply.hdr.dst,
                    None,
                    slab,
                ) {
                    Some(pkt) => {
                        self.state = SubDiscoveryState::AckSent { addr, sub_random: srand };
                        Ok(Some((addr, delay, max_delay - delay, pkt)))
                    },
                    None => Err(()),
                }
            },
        }
    }

    /// React to a packet while waiting to be accepted. A `DiscoverAckAck`
    /// that validates for our claimed address advances to the ping phase;
    /// a valid acceptance for a different address, or a malformed packet,
    /// leaves the wait running.
    pub fn on_ack_ack(&mut self, body: &BusDomPayload, hdr: &LocalHeader) -> (r: bool)
        requires
            old(self).state matches SubDiscoveryState::AckSent { .. },
        ensures
            old(self).state matches SubDiscoveryState::AckSent { addr, sub_random } ==> {
                &&& r == (ack_ack_check(*body, *hdr, sub_random) == Some(addr))
                &&& (r ==> final(self).state == (SubDiscoveryState::Pinging {
                    addr,
                    success_ct: 0,
                }))
                &&& (!r ==> *final(self) == *old(self))
            },
    {
        let (addr, sub_random) = match self.state {
            SubDiscoveryState::AckSent { addr, sub_random } => (addr, sub_random),
            _ => { return false; },
        };
        match body.validate_discover_ack_ack(hdr, sub_random) {
            Ok(new_addr) => {
                if new_addr == addr {
                    self.state = SubDiscoveryState::Pinging { addr, success_ct: 0 };
                    true
                } else {
                    false
                }
            },
            Err(()) => false,
        }
    }

    /// React to a packet during the ping phase. A valid `PingReq` to our
    /// address yields a jittered `PingAck` to send; the second answered
    /// ping commits the address. Anything else restarts the cycle. Fails
    /// exactly when no chunk is free for the answer.
    pub fn on_ping(
        &mut self,
        body: &BusDomPayload,
        hdr: &LocalHeader,
        sub_random: u32,
        jitter_random: u32,
        slab: &mut BSlab,
    ) -> (r: Result<Option<(u32, LocalPacket)>, ()>)
        requires
            old(self).state matches SubDiscoveryState::Pinging { .. },
            old(slab).wf(),
        ensures
            final(slab).wf(),
            final(slab).n == old(slab).n,
            final(slab).sz == old(slab).sz,
            old(self).state matches SubDiscoveryState::Pinging { addr, success_ct } ==> match crate::icd::BusSubPayload::spec_ping_ack(
                addr,
                sub_random,
                jitter_random,
                *body,
                *hdr,
            ) {
                None => {
                    &&& r == Ok::<Option<(u32, LocalPacket)>, ()>(None)
                    &&& final(self).state is Idle
                    &&& *final(slab) == *old(slab)
                },
                Some((jitter, reply_body)) => {
                    &&& (r is Ok <==> (old(slab).initialized() && old(slab).free@.len() > 0
                        && enc_sub(reply_body).len() <= old(slab).sz))
                    &&& (r is Err ==> *final(self) == *old(self) && *final(slab) == *old(slab))
                    &&& (r matches Ok(o) ==> {
                        &&& o matches Some((j, pkt))
                        &&& j == jitter
                        &&& (success_ct >= 1 ==> final(self).state == (SubDiscoveryState::Done {
                            addr,
                        }))
                        &&& (success_ct == 0 ==> final(self).state
                            == (SubDiscoveryState::Pinging { addr, success_ct: 1 }))
                        &&& pkt.hdr.src.addr@ =~= seq![addr]
                        &&& pkt.hdr.dst.addr@ =~= seq![crate::icd::LOCAL_DOM_ADDR]
                        &&& final(slab).valid_managed(pkt.payload)
                        &&& final(slab).managed_bytes(pkt.payload) == enc_sub(reply_body)
                    })
                },
            },
    {
        let (addr, success_ct) = match self.state {
            SubDiscoveryState::Pinging { addr, success_ct } => (addr, success_ct),
            _ => { return Err(()); },
        };
        match crate::icd::BusSubPayload::generate_ping_ack(
            addr,
            sub_random,
            jitter_random,
            body,
            hdr,
        ) {
            None => {
                self.state = SubDiscoveryState::Idle;
                Ok(None)
            },
            Some((jitter, reply)) => {
                let bytes = encode_sub_payload(&reply.body);
                match LocalPacket::from_parts_with_alloc(
                    &bytes,
                    reply.hdr.src,
                    reply.hdr.dst,
                    None,
                    slab,
                ) {
                    Some(pkt) => {
                        if success_ct >= 1 {
                            self.state = SubDiscoveryState::Done { addr };
                        } else {
                            self.state = SubDiscoveryState::Pinging { addr, success_ct: 1 };
                        }
                        Ok(Some((jitter, pkt)))
                    },
                    None => Err(()),
                }
            },
        }
    }

    /// The committed address, once commissioning finished.
    pub fn committed(&self) -> (r: Option<u8>)
        ensures
            r == (match self.state {
                SubDiscoveryState::Done { addr } => Some(addr),
                _ => Option::<u8>::None,
            }),
    {
        match self.state {
            SubDiscoveryState::Done { addr } => Some(addr),
            _ => None,
        }
    }
}

} // verus!
