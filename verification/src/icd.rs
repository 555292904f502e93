//! Interface control: addresses, ports, headers, and the typed payloads that
//! Dom and Sub exchange during discovery and token arbitration.

use vstd::prelude::*;

use crate::dom::DISCOVERY_PORT;

verus! {

/// Greatest number of segments a bus address may carry.
pub const MAX_ADDR_SEGMENTS: usize = 8;

/// Reserved single-byte address of the coordinator.
pub const LOCAL_DOM_ADDR: u8 = 0;

/// Reserved single-byte address used for broadcast, and as the
/// "not yet assigned" marker.
pub const LOCAL_BROADCAST_ADDR: u8 = 255;

/// Length of a local (single-segment) address.
pub const LOCAL_ADDR_LEN: usize = 1;

/// Greatest number of address offers in one discovery broadcast.
pub const MAX_OFFERS: usize = 32;

/// A variable-length bus address of at most [`MAX_ADDR_SEGMENTS`] bytes.
/// A local address is a single byte.
pub struct VecAddr {
    pub bytes: Vec<u8>,
}

impl View for VecAddr {
    type V = Seq<u8>;

    open spec fn view(&self) -> Seq<u8> {
        self.bytes@
    }
}

/// The single byte of a local address, if the address is local.
pub open spec fn local_addr_of(a: Seq<u8>) -> Option<u8> {
    if a.len() == LOCAL_ADDR_LEN {
        Some(a[0])
    } else {
        None
    }
}

impl VecAddr {
    /// An address is well formed when it fits the segment limit.
    pub open spec fn wf(self) -> bool {
        self@.len() <= MAX_ADDR_SEGMENTS
    }

    /// Build an address from raw segments; fails exactly when there are
    /// more than [`MAX_ADDR_SEGMENTS`] of them.
    pub fn from_addrs(bytes: &Vec<u8>) -> (r: Result<Self, ()>)
        ensures
            r is Ok <==> bytes@.len() <= MAX_ADDR_SEGMENTS,
            r matches Ok(a) ==> a@ == bytes@ && a.wf(),
    {
        if bytes.len() <= MAX_ADDR_SEGMENTS {
            let mut v: Vec<u8> = Vec::new();
            let mut i: usize = 0;
            while i < bytes.len()
                invariant
                    i <= bytes@.len(),
                    v@ =~= bytes@.subrange(0, i as int),
                decreases bytes@.len() - i,
            {
                let b = bytes[i];
                v.push(b);
                i += 1;
            }
            proof {
                assert(v@ =~= bytes@);
            }
            Ok(VecAddr { bytes: v })
        } else {
            Err(())
        }
    }

    /// The one-byte address `addr`.
    pub fn from_local_addr(addr: u8) -> (r: Self)
        ensures
            r@ =~= seq![addr],
            r.wf(),
    {
        let mut v: Vec<u8> = Vec::new();
        v.push(addr);
        VecAddr { bytes: v }
    }

    /// The coordinator's address.
    pub fn local_dom_addr() -> (r: Self)
        ensures
            r@ =~= seq![LOCAL_DOM_ADDR],
            r.wf(),
    {
        Self::from_local_addr(LOCAL_DOM_ADDR)
    }

    /// The broadcast address.
    pub fn local_broadcast_addr() -> (r: Self)
        ensures
            r@ =~= seq![LOCAL_BROADCAST_ADDR],
            r.wf(),
    {
        Self::from_local_addr(LOCAL_BROADCAST_ADDR)
    }

    /// The single byte of this address, exactly when it is local.
    pub fn get_exact_local_addr(&self) -> (r: Option<u8>)
        ensures
            r == local_addr_of(self@),
    {
        if self.bytes.len() != LOCAL_ADDR_LEN {
            None
        } else {
            Some(self.bytes[0])
        }
    }

    /// A fresh address holding the same bytes.
    pub fn duplicate(&self) -> (r: Self)
        ensures
            r@ == self@,
    {
        let mut v: Vec<u8> = Vec::new();
        let mut i: usize = 0;
        while i < self.bytes.len()
            invariant
                i <= self.bytes@.len(),
                v@ =~= self.bytes@.subrange(0, i as int),
            decreases self.bytes@.len() - i,
        {
            let b = self.bytes[i];
            v.push(b);
            i += 1;
        }
        proof {
            assert(v@ =~= self@);
        }
        VecAddr { bytes: v }
    }
}

/// An address paired with a 16-bit port.
pub struct AddrPort {
    pub addr: VecAddr,
    pub port: u16,
}

impl AddrPort {
    /// Assemble an address and a port.
    pub fn from_parts(addr: VecAddr, port: u16) -> (r: Self)
        ensures
            r.addr@ == addr@,
            r.port == port,
    {
        AddrPort { addr, port }
    }

    /// A fresh copy of this address/port pair.
    pub fn duplicate(&self) -> (r: Self)
        ensures
            r.addr@ == self.addr@,
            r.port == self.port,
    {
        AddrPort { addr: self.addr.duplicate(), port: self.port }
    }
}

/// The on-wire header of a frame: source and destination.
pub struct LineHeader {
    pub src: AddrPort,
    pub dst: AddrPort,
}

/// The in-memory header of a routed packet: source, destination, and the
/// tick at which the frame was received (zero for locally built packets).
pub struct LocalHeader {
    pub src: AddrPort,
    pub dst: AddrPort,
    pub tick: u32,
}

/// A typed payload together with the header it travels under.
pub struct HeaderPacket<T> {
    pub hdr: LocalHeader,
    pub body: T,
}

/// Payloads the Dom sends on the discovery port.
pub enum BusDomPayload {
    ResetConnection,
    DiscoverInitial { random: u32, min_wait_us: u32, max_wait_us: u32, offers: Vec<u8> },
    DiscoverAckAck { own_id: u8, own_random: u32, own_id_ownrand_checksum: u32 },
    PingReq { random: u32, min_wait_us: u32, max_wait_us: u32 },
    BusGrant { tx_bytes_ready: u32, rx_bytes_avail: u32, max_grant_us: u32 },
}

/// Payloads a Sub sends on the discovery port.
pub enum BusSubPayload {
    DiscoverAck { own_id: u8, own_id_rand_checksum: u32, own_random: u32 },
    BusGrantAccept { tx_bytes_ready: u32, rx_bytes_avail: u32 },
    PingAck { own_id_checksum: u32, own_random: u32 },
    BusGrantRelease,
}

/// The token the Dom grants: a nonce and the grant's time budget.
pub struct DomTokenGrantPayload {
    pub random: u32,
    pub max_time_us: u32,
}

/// The release a Sub answers a grant with, echoing the grant's nonce.
pub struct SubTokenReleasePayload {
    pub random: u32,
}

/// The checksum both sides compute over an address and the two randoms,
/// as a mathematical function: all arithmetic is modulo 2^32, and the
/// address byte is first widened to a word with the byte repeated in
/// each of the four positions.
pub open spec fn checksum_spec(addr: u8, dom_random: u32, sub_random: u32) -> u32 {
    let id_word = (addr as nat) * 0x0101_0101;
    let m1 = (id_word * (dom_random as nat)) % 0x1_0000_0000;
    let a1 = (m1 + (dom_random as nat)) % 0x1_0000_0000;
    let m2 = (a1 * (sub_random as nat)) % 0x1_0000_0000;
    (((m2 + (sub_random as nat)) % 0x1_0000_0000) as u32)
}

/// The witness checksum exchanged during discovery:
/// `((addr_word * r_dom) + r_dom) * r_sub + r_sub`, wrapping at 2^32,
/// where `addr_word` is the address byte repeated four times.
pub fn checksum_addr_random(addr: u8, dom_random: u32, sub_random: u32) -> (r: u32)
    ensures
        r == checksum_spec(addr, dom_random, sub_random),
{
    let id_word: u32 = (addr as u32) * 0x0101_0101;
    proof {
        assert((addr as nat) * 0x0101_0101 < 0x1_0000_0000) by (nonlinear_arith)
            requires
                addr <= 255,
        ;
    }
    id_word
        .wrapping_mul(dom_random)
        .wrapping_add(dom_random)
        .wrapping_mul(sub_random)
        .wrapping_add(sub_random)
}

/// What the Sub's check of a `DiscoverAckAck` yields: the committed address,
/// if the packet is a `DiscoverAckAck` from the Dom to `own_id` itself and
/// the checksum binds `own_id` and the Dom's random to `sub_random`.
pub open spec fn ack_ack_check(p: BusDomPayload, hdr: LocalHeader, sub_random: u32) -> Option<u8> {
    match (local_addr_of(hdr.src.addr@), local_addr_of(hdr.dst.addr@)) {
        (Some(src), Some(dst)) => match p {
            BusDomPayload::DiscoverAckAck { own_id, own_random, own_id_ownrand_checksum } => {
                if dst == own_id && src == LOCAL_DOM_ADDR && own_id_ownrand_checksum
                    == checksum_spec(own_id, own_random, sub_random) {
                    Some(own_id)
                } else {
                    None
                }
            },
            _ => None,
        },
        _ => None,
    }
}

/// What the Dom's check of a `PingAck` yields: valid when the frame came
/// from a local address and the checksum binds that address and the Dom's
/// random to the Sub's random.
pub open spec fn ping_ack_check(p: BusSubPayload, hdr: LocalHeader, dom_random: u32) -> bool {
    match local_addr_of(hdr.src.addr@) {
        Some(addr) => match p {
            BusSubPayload::PingAck { own_id_checksum, own_random } => own_id_checksum
                == checksum_spec(addr, dom_random, own_random),
            _ => false,
        },
        None => false,
    }
}

/// What the Dom's check of a `DiscoverAck` yields: the claimed address and
/// the Sub's random, if the claim matches the frame's source address and
/// the checksum binds them to the Dom's random.
pub open spec fn discover_ack_check(p: BusSubPayload, hdr: LocalHeader, dom_random: u32) -> Option<
    (u8, u32),
> {
    match local_addr_of(hdr.src.addr@) {
        Some(addr) => match p {
            BusSubPayload::DiscoverAck { own_id, own_id_rand_checksum, own_random } => {
                if own_id == addr && own_id_rand_checksum == checksum_spec(
                    own_id,
                    dom_random,
                    own_random,
                ) {
                    Some((addr, own_random))
                } else {
                    None
                }
            },
            _ => None,
        },
        None => None,
    }
}

impl BusDomPayload {
    /// The acceptance the Dom sends a Sub whose `DiscoverAck` survived
    /// winnowing: addressed to that Sub, carrying the checksum over its
    /// address, a fresh Dom random, and the Sub's random.
    pub fn generate_discover_ack_ack(addr: u8, dom_random: u32, sub_random: u32) -> (r:
        HeaderPacket<BusDomPayload>)
        ensures
            r.hdr.src.addr@ =~= seq![LOCAL_DOM_ADDR],
            r.hdr.src.port == DISCOVERY_PORT,
            r.hdr.dst.addr@ =~= seq![addr],
            r.hdr.dst.port == DISCOVERY_PORT,
            r.hdr.tick == 0,
            r.body == (BusDomPayload::DiscoverAckAck {
                own_id: addr,
                own_random: dom_random,
                own_id_ownrand_checksum: checksum_spec(addr, dom_random, sub_random),
            }),
    {
        HeaderPacket {
            hdr: LocalHeader {
                src: AddrPort::from_parts(VecAddr::local_dom_addr(), DISCOVERY_PORT),
                dst: AddrPort::from_parts(VecAddr::from_local_addr(addr), DISCOVERY_PORT),
                tick: 0,
            },
            body: BusDomPayload::DiscoverAckAck {
                own_id: addr,
                own_random: dom_random,
                own_id_ownrand_checksum: checksum_addr_random(addr, dom_random, sub_random),
            },
        }
    }

    /// The Sub-side check of a `DiscoverAckAck`; returns the committed
    /// address exactly when [`ack_ack_check`] accepts the packet.
    pub fn validate_discover_ack_ack(&self, hdr: &LocalHeader, sub_random: u32) -> (r: Result<
        u8,
        (),
    >)
        ensures
            r is Ok <==> ack_ack_check(*self, *hdr, sub_random) is Some,
            r matches Ok(a) ==> ack_ack_check(*self, *hdr, sub_random) == Some(a),
    {
        let src_addr = match hdr.src.addr.get_exact_local_addr() {
            Some(a) => a,
            None => { return Err(()); },
        };
        let dst_addr = match hdr.dst.addr.get_exact_local_addr() {
            Some(a) => a,
            None => { return Err(()); },
        };
        match self {
            BusDomPayload::DiscoverAckAck { own_id, own_random, own_id_ownrand_checksum } => {
                if (dst_addr != *own_id) || (src_addr != LOCAL_DOM_ADDR) {
                    return Err(());
                }
                let value = checksum_addr_random(*own_id, *own_random, sub_random);
                if value != *own_id_ownrand_checksum {
                    return Err(());
                }
                Ok(*own_id)
            },
            _ => Err(()),
        }
    }
}

impl BusSubPayload {
    /// The Dom-side check of a `PingAck`; accepts exactly when
    /// [`ping_ack_check`] does.
    pub fn validate_ping_ack(&self, hdr: &LocalHeader, dom_random: u32) -> (r: Result<(), ()>)
        ensures
            r is Ok <==> ping_ack_check(*self, *hdr, dom_random),
    {
        let addr = match hdr.src.addr.get_exact_local_addr() {
            Some(a) => a,
            None => { return Err(()); },
        };
        match self {
            BusSubPayload::PingAck { own_id_checksum, own_random } => {
                let result = checksum_addr_random(addr, dom_random, *own_random);
                if *own_id_checksum == result {
                    Ok(())
                } else {
                    Err(())
                }
            },
            _ => Err(()),
        }
    }

    /// The Dom-side check of a `DiscoverAck`; returns the claimed address
    /// and the Sub's random exactly when [`discover_ack_check`] accepts.
    pub fn validate_discover_ack_addr(&self, hdr: &LocalHeader, dom_random: u32) -> (r: Result<
        (u8, u32),
        (),
    >)
        ensures
            r is Ok <==> discover_ack_check(*self, *hdr, dom_random) is Some,
            r matches Ok(p) ==> discover_ack_check(*self, *hdr, dom_random) == Some(p),
    {
        let addr = match hdr.src.addr.get_exact_local_addr() {
            Some(a) => a,
            None => { return Err(()); },
        };
        match self {
            BusSubPayload::DiscoverAck { own_id, own_id_rand_checksum, own_random } => {
                if *own_id != addr {
                    return Err(());
                }
                let result = checksum_addr_random(*own_id, dom_random, *own_random);
                if *own_id_rand_checksum == result {
                    Ok((addr, *own_random))
                } else {
                    Err(())
                }
            },
            _ => Err(()),
        }
    }

    /// Build a Sub's answer to a `DiscoverInitial`: pick an offered address
    /// and a reply delay from the given randoms, and assemble the
    /// `DiscoverAck`. Returns `(addr, sub_random, delay, max_delay, reply)`.
    /// Yields `None` exactly when the packet is not a broadcast
    /// `DiscoverInitial` from the Dom, offers nothing, or carries an empty
    /// delay window.
    pub fn generate_discover_ack(
        idx_random: u32,
        sub_random: u32,
        delay_random: u32,
        body: &BusDomPayload,
        hdr: &LocalHeader,
    ) -> (r: Option<(u8, u32, u32, u32, HeaderPacket<BusSubPayload>)>)
        ensures
            match Self::spec_discover_ack(idx_random, sub_random, delay_random, *body, *hdr) {
                None => r is None,
                Some((addr, delay, max_delay, reply_body)) => r matches Some(
                    (a, sr, d, md, reply),
                ) && a == addr && sr == sub_random && d == delay && md == max_delay && reply.body
                    == reply_body,
            },
            r is Some <==> (local_addr_of(hdr.src.addr@) == Some(LOCAL_DOM_ADDR) && local_addr_of(
                hdr.dst.addr@,
            ) == Some(LOCAL_BROADCAST_ADDR) && (*body matches BusDomPayload::DiscoverInitial {
                random,
                min_wait_us,
                max_wait_us,
                offers,
            } && offers@.len() > 0 && min_wait_us < max_wait_us)),
            r matches Some((addr, sr, delay, max_delay, reply)) ==> {
                &&& *body matches BusDomPayload::DiscoverInitial {
                    random,
                    min_wait_us,
                    max_wait_us,
                    offers,
                }
                &&& addr == offers@[(idx_random as int) % (offers@.len() as int)]
                &&& sr == sub_random
                &&& delay == min_wait_us + ((delay_random as int) % ((max_wait_us - min_wait_us) as int))
                &&& max_delay == max_wait_us
                &&& reply.hdr.src.addr@ =~= seq![addr]
                &&& reply.hdr.src.port == DISCOVERY_PORT
                &&& reply.hdr.dst.addr@ =~= seq![LOCAL_DOM_ADDR]
                &&& reply.hdr.dst.port == DISCOVERY_PORT
                &&& reply.body == (BusSubPayload::DiscoverAck {
                    own_id: addr,
                    own_id_rand_checksum: checksum_spec(addr, random, sub_random),
                    own_random: sub_random,
                })
            },
    {
        let src = match hdr.src.addr.get_exact_local_addr() {
            Some(a) => a,
            None => { return None; },
        };
        let dst = match hdr.dst.addr.get_exact_local_addr() {
            Some(a) => a,
            None => { return None; },
        };
        if src != LOCAL_DOM_ADDR || dst != LOCAL_BROADCAST_ADDR {
            return None;
        }
        match body {
            BusDomPayload::DiscoverInitial { random, min_wait_us, max_wait_us, offers } => {
                if offers.len() == 0 || *min_wait_us >= *max_wait_us {
                    return None;
                }
                let pick = (idx_random as usize) % offers.len();
                let addr = offers[pick];
                let delay = *min_wait_us + delay_random % (*max_wait_us - *min_wait_us);
                let reply = HeaderPacket {
                    hdr: LocalHeader {
                        src: AddrPort::from_parts(VecAddr::from_local_addr(addr), DISCOVERY_PORT),
                        dst: AddrPort::from_parts(VecAddr::local_dom_addr(), DISCOVERY_PORT),
                        tick: 0,
                    },
                    body: BusSubPayload::DiscoverAck {
                        own_id: addr,
                        own_id_rand_checksum: checksum_addr_random(addr, *random, sub_random),
                        own_random: sub_random,
                    },
                };
                Some((addr, sub_random, delay, *max_wait_us, reply))
            },
            _ => None,
        }
    }

    /// Build a Sub's answer to a `PingReq` addressed to it: a jitter drawn
    /// from the request's delay window, and the `PingAck` binding the Sub's
    /// address and random to the request's random. Yields `None` exactly
    /// when the packet is not a `PingReq` from the Dom to `own_addr`, or
    /// carries an empty delay window.
    pub fn generate_ping_ack(
        own_addr: u8,
        sub_random: u32,
        jitter_random: u32,
        body: &BusDomPayload,
        hdr: &LocalHeader,
    ) -> (r: Option<(u32, HeaderPacket<BusSubPayload>)>)
        ensures
            match Self::spec_ping_ack(own_addr, sub_random, jitter_random, *body, *hdr) {
                None => r is None,
                Some((jitter, reply_body)) => r matches Some((j, reply)) && j == jitter
                    && reply.body == reply_body,
            },
            r is Some <==> (local_addr_of(hdr.src.addr@) == Some(LOCAL_DOM_ADDR) && local_addr_of(
                hdr.dst.addr@,
            ) == Some(own_addr) && (*body matches BusDomPayload::PingReq {
                random,
                min_wait_us,
                max_wait_us,
            } && min_wait_us < max_wait_us)),
            r matches Some((jitter, reply)) ==> {
                &&& *body matches BusDomPayload::PingReq { random, min_wait_us, max_wait_us }
                &&& jitter == min_wait_us + ((jitter_random as int) % ((max_wait_us
                    - min_wait_us) as int))
                &&& reply.hdr.src.addr@ =~= seq![own_addr]
                &&& reply.hdr.src.port == DISCOVERY_PORT
                &&& reply.hdr.dst.addr@ =~= seq![LOCAL_DOM_ADDR]
                &&& reply.hdr.dst.port == DISCOVERY_PORT
                &&& reply.body == (BusSubPayload::PingAck {
                    own_id_checksum: checksum_spec(own_addr, random, sub_random),
                    own_random: sub_random,
                })
            },
    {
        let src = match hdr.src.addr.get_exact_local_addr() {
            Some(a) => a,
            None => { return None; },
        };
        let dst = match hdr.dst.addr.get_exact_local_addr() {
            Some(a) => a,
            None => { return None; },
        };
        if src != LOCAL_DOM_ADDR || dst != own_addr {
            return None;
        }
        match body {
            BusDomPayload::PingReq { random, min_wait_us, max_wait_us } => {
                if *min_wait_us >= *max_wait_us {
                    return None;
                }
                let jitter = *min_wait_us + jitter_random % (*max_wait_us - *min_wait_us);
                let reply = HeaderPacket {
                    hdr: LocalHeader {
                        src: AddrPort::from_parts(
                            VecAddr::from_local_addr(own_addr),
                            DISCOVERY_PORT,
                        ),
                        dst: AddrPort::from_parts(VecAddr::local_dom_addr(), DISCOVERY_PORT),
                        tick: 0,
                    },
                    body: BusSubPayload::PingAck {
                        own_id_checksum: checksum_addr_random(own_addr, *random, sub_random),
                        own_random: sub_random,
                    },
                };
                Some((jitter, reply))
            },
            _ => None,
        }
    }
}


impl BusSubPayload {
    /// What a Sub's answer to a `DiscoverInitial` is, as a mathematical
    /// function of the packet and the three random draws: the claimed
    /// address (picked from the offers by `idx_random`), the reply delay
    /// (drawn from the offered window by `delay_random`), the window's
    /// upper bound, and the `DiscoverAck` itself. `None` exactly when the
    /// packet is not a broadcast `DiscoverInitial` from the Dom, offers
    /// nothing, or carries an empty delay window.
    pub open spec fn spec_discover_ack(
        idx_random: u32,
        sub_random: u32,
        delay_random: u32,
        body: BusDomPayload,
        hdr: LocalHeader,
    ) -> Option<(u8, u32, u32, BusSubPayload)> {
        if local_addr_of(hdr.src.addr@) == Some(LOCAL_DOM_ADDR) && local_addr_of(hdr.dst.addr@)
            == Some(LOCAL_BROADCAST_ADDR) {
            match body {
                BusDomPayload::DiscoverInitial { random, min_wait_us, max_wait_us, offers } => {
                    if offers@.len() > 0 && min_wait_us < max_wait_us {
                        let addr = offers@[(idx_random as int) % (offers@.len() as int)];
                        let delay = (min_wait_us + ((delay_random as int) % ((max_wait_us
                            - min_wait_us) as int))) as u32;
                        Some(
                            (
                                addr,
                                delay,
                                max_wait_us,
                                BusSubPayload::DiscoverAck {
                                    own_id: addr,
                                    own_id_rand_checksum: checksum_spec(addr, random, sub_random),
                                    own_random: sub_random,
                                },
                            ),
                        )
                    } else {
                        None
                    }
                },
                _ => None,
            }
        } else {
            None
        }
    }

    /// What a Sub's answer to a `PingReq` is, as a mathematical function of
    /// the packet and the two random draws: the reply jitter and the
    /// `PingAck`. `None` exactly when the packet is not a `PingReq` from
    /// the Dom to `own_addr`, or carries an empty delay window.
    pub open spec fn spec_ping_ack(
        own_addr: u8,
        sub_random: u32,
        jitter_random: u32,
        body: BusDomPayload,
        hdr: LocalHeader,
    ) -> Option<(u32, BusSubPayload)> {
        if local_addr_of(hdr.src.addr@) == Some(LOCAL_DOM_ADDR) && local_addr_of(hdr.dst.addr@)
            == Some(own_addr) {
            match body {
                BusDomPayload::PingReq { random, min_wait_us, max_wait_us } => {
                    if min_wait_us < max_wait_us {
                        let jitter = (min_wait_us + ((jitter_random as int) % ((max_wait_us
                            - min_wait_us) as int))) as u32;
                        Some(
                            (
                                jitter,
                                BusSubPayload::PingAck {
                                    own_id_checksum: checksum_spec(own_addr, random, sub_random),
                                    own_random: sub_random,
                                },
                            ),
                        )
                    } else {
                        None
                    }
                },
                _ => None,
            }
        } else {
            None
        }
    }
}

/// Discovery round trip, Sub to Dom: a `DiscoverAck` a Sub assembles over
/// its claimed address, the Dom's random, and its own random validates
/// under the Dom's check, and yields back exactly that address and random.
pub proof fn lemma_discover_ack_round_trip(
    addr: u8,
    dom_random: u32,
    sub_random: u32,
    hdr: LocalHeader,
)
    requires
        local_addr_of(hdr.src.addr@) == Some(addr),
    ensures
        discover_ack_check(
            BusSubPayload::DiscoverAck {
                own_id: addr,
                own_id_rand_checksum: checksum_spec(addr, dom_random, sub_random),
                own_random: sub_random,
            },
            hdr,
            dom_random,
        ) == Some((addr, sub_random)),
{
}

/// Discovery round trip, Dom to Sub: a `DiscoverAckAck` the Dom assembles
/// over a Sub's address and random validates under that Sub's check, and
/// yields back exactly that address.
pub proof fn lemma_ack_ack_round_trip(addr: u8, dom_random: u32, sub_random: u32, hdr: LocalHeader)
    requires
        local_addr_of(hdr.src.addr@) == Some(LOCAL_DOM_ADDR),
        local_addr_of(hdr.dst.addr@) == Some(addr),
    ensures
        ack_ack_check(
            BusDomPayload::DiscoverAckAck {
                own_id: addr,
                own_random: dom_random,
                own_id_ownrand_checksum: checksum_spec(addr, dom_random, sub_random),
            },
            hdr,
            sub_random,
        ) == Some(addr),
{
}

/// Ping round trip: a `PingAck` a Sub assembles over its address, the
/// Dom's random, and its own random validates under the Dom's check.
pub proof fn lemma_ping_ack_round_trip(addr: u8, dom_random: u32, own_random: u32, hdr: LocalHeader)
    requires
        local_addr_of(hdr.src.addr@) == Some(addr),
    ensures
        ping_ack_check(
            BusSubPayload::PingAck {
                own_id_checksum: checksum_spec(addr, dom_random, own_random),
                own_random,
            },
            hdr,
            dom_random,
        ),
{
}

} // verus!
