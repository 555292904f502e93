//! The Dom side of discovery: the three-phase `Ready -> Steady -> Go`
//! assignment of addresses.
//!
//! Each cycle broadcasts an offer, winnows the answers (an address claimed
//! by more than one Sub is a collision and is discarded entirely), accepts
//! the survivors, then requires two valid ping answers per phase before an
//! address is committed to the table. The waiting itself is the caller's:
//! every function here turns received packets into decisions and packets
//! to send.

use vstd::prelude::*;

use crate::dispatch::{DispatchSocket, LocalPacket};
use crate::dom::{AddrTable32, addr_bit, DISCOVERY_PORT};
use crate::icd::{discover_ack_check, ping_ack_check, AddrPort, BusDomPayload, BusSubPayload,
    LocalHeader, VecAddr};
use crate::payload::{enc_dom, encode_dom_payload, DomPayloadModel};
use crate::slab::BSlab;
use crate::timing::{DOM_BROADCAST_MAX_WAIT_US, DOM_BROADCAST_MIN_WAIT_US, DOM_PING_MAX_WAIT_US,
    DOM_PING_MIN_WAIT_US};

verus! {

/// The checked claims among the broadcast answers, in arrival order: each
/// answer that validates under the Dom's check and claims an offered
/// address contributes its `(address, sub_random)` pair.
pub open spec fn valid_pairs(
    resps: Seq<(LocalHeader, BusSubPayload)>,
    offers: Seq<u8>,
    dom_random: u32,
) -> Seq<(u8, u32)>
    decreases resps.len(),
{
    if resps.len() == 0 {
        Seq::empty()
    } else {
        let prefix = valid_pairs(resps.drop_last(), offers, dom_random);
        match discover_ack_check(resps.last().1, resps.last().0, dom_random) {
            Some((a, r)) => {
                if offers.contains(a) {
                    prefix.push((a, r))
                } else {
                    prefix
                }
            },
            None => prefix,
        }
    }
}

/// How many checked claims name address `a`.
pub open spec fn count_addr(pairs: Seq<(u8, u32)>, a: u8) -> int
    decreases pairs.len(),
{
    if pairs.len() == 0 {
        0
    } else {
        count_addr(pairs.drop_last(), a) + if pairs.last().0 == a {
            1int
        } else {
            0int
        }
    }
}

/// The claims that survive collision winnowing: those whose address was
/// claimed exactly once among all checked claims.
pub open spec fn survivors(pairs: Seq<(u8, u32)>, all: Seq<(u8, u32)>) -> Seq<(u8, u32)>
    decreases pairs.len(),
{
    if pairs.len() == 0 {
        Seq::empty()
    } else {
        let prefix = survivors(pairs.drop_last(), all);
        if count_addr(all, pairs.last().0) == 1 {
            prefix.push(pairs.last())
        } else {
            prefix
        }
    }
}

/// Collision law: an address claimed by two or more Subs is discarded
/// entirely — it never appears among the winnowed survivors.
pub proof fn lemma_collision_discarded(pairs: Seq<(u8, u32)>, all: Seq<(u8, u32)>, a: u8)
    requires
        count_addr(all, a) >= 2,
    ensures
        forall|k: int|
            0 <= k < survivors(pairs, all).len() ==> (#[trigger] survivors(pairs, all)[k]).0 != a,
    decreases pairs.len(),
{
    if pairs.len() > 0 {
        lemma_collision_discarded(pairs.drop_last(), all, a);
        let s = survivors(pairs, all);
        let prefix = survivors(pairs.drop_last(), all);
        assert forall|k: int| 0 <= k < s.len() implies (#[trigger] s[k]).0 != a by {
            if count_addr(all, pairs.last().0) == 1 {
                if k < prefix.len() {
                    assert(s[k] == prefix[k]);
                } else {
                    assert(s[k] == pairs.last());
                }
            } else {
                assert(s[k] == prefix[k]);
            }
        }
    }
}

/// A lone checked claim survives winnowing untouched: with a single Sub
/// answering, its claim is accepted.
pub proof fn lemma_lone_claim_survives(p: (u8, u32))
    ensures
        survivors(seq![p], seq![p]) =~= seq![p],
{
    let s = seq![p];
    assert(s.drop_last() =~= Seq::<(u8, u32)>::empty());
    assert(count_addr(s.drop_last(), p.0) == 0);
    assert(s.last() == p);
    assert(count_addr(s, p.0) == 1);
    assert(survivors(s.drop_last(), s) =~= Seq::<(u8, u32)>::empty());
    assert(survivors(s, s) =~= s.drop_last().push(p));
    assert(s.drop_last().push(p) =~= s);
}

/// Uniqueness law: a surviving claim's address was claimed exactly once.
pub proof fn lemma_survivor_unique(pairs: Seq<(u8, u32)>, all: Seq<(u8, u32)>)
    ensures
        forall|k: int|
            0 <= k < survivors(pairs, all).len() ==> count_addr(
                all,
                (#[trigger] survivors(pairs, all)[k]).0,
            ) == 1,
    decreases pairs.len(),
{
    if pairs.len() > 0 {
        lemma_survivor_unique(pairs.drop_last(), all);
        let s = survivors(pairs, all);
        let prefix = survivors(pairs.drop_last(), all);
        assert forall|k: int| 0 <= k < s.len() implies count_addr(
            all,
            (#[trigger] s[k]).0,
        ) == 1 by {
            if count_addr(all, pairs.last().0) == 1 {
                if k < prefix.len() {
                    assert(s[k] == prefix[k]);
                } else {
                    assert(s[k] == pairs.last());
                }
            } else {
                assert(s[k] == prefix[k]);
            }
        }
    }
}

/// Count how many of the checked claims name address `a`.
fn count_addr_exec(pairs: &Vec<(u8, u32)>, a: u8) -> (r: usize)
    requires
        pairs@.len() <= 32,
    ensures
        r == count_addr(pairs@, a),
{
    let mut c: usize = 0;
    let mut i: usize = 0;
    while i < pairs.len()
        invariant
            i <= pairs@.len() <= 32,
            c == count_addr(pairs@.subrange(0, i as int), a),
            c <= i,
        decreases pairs@.len() - i,
    {
        let ghost pre = pairs@.subrange(0, i as int);
        if pairs[i].0 == a {
            c += 1;
        }
        i += 1;
        proof {
            assert(pairs@.subrange(0, i as int).drop_last() =~= pre);
        }
    }
    proof {
        assert(pairs@.subrange(0, pairs@.len() as int) =~= pairs@);
    }
    c
}

/// Winnow the broadcast answers: keep each checked, offered claim whose
/// address no other checked claim also named; an address claimed twice is
/// a collision and both claims are dropped.
pub fn winnow_responses(
    offers: &Vec<u8>,
    resps: &Vec<(LocalHeader, BusSubPayload)>,
    dom_random: u32,
) -> (r: Vec<(u8, u32)>)
    requires
        resps@.len() <= 32,
    ensures
        r@ == survivors(
            valid_pairs(resps@, offers@, dom_random),
            valid_pairs(resps@, offers@, dom_random),
        ),
{
    let mut vp: Vec<(u8, u32)> = Vec::new();
    let mut i: usize = 0;
    while i < resps.len()
        invariant
            i <= resps@.len() <= 32,
            vp@ == valid_pairs(resps@.subrange(0, i as int), offers@, dom_random),
            vp@.len() <= i,
        decreases resps@.len() - i,
    {
        let ghost pre = resps@.subrange(0, i as int);
        let (hdr, body) = &resps[i];
        let mut offered = false;
        match body.validate_discover_ack_addr(hdr, dom_random) {
            Ok((a, srand)) => {
                let mut k: usize = 0;
                while k < offers.len()
                    invariant
                        k <= offers@.len(),
                        offered == offers@.subrange(0, k as int).contains(a),
                    decreases offers@.len() - k,
                {
                    let ghost opre = offers@.subrange(0, k as int);
                    if offers[k] == a {
                        offered = true;
                    }
                    k += 1;
                    proof {
                        assert(offers@.subrange(0, k as int).drop_last() =~= opre);
                        if offered && !opre.contains(a) && offers@[k - 1] == a {
                            assert(offers@.subrange(0, k as int).last() == a);
                        }
                        assert(offers@.subrange(0, k as int).contains(a) <==> (opre.contains(a)
                            || offers@[k - 1] == a));
                    }
                }
                proof {
                    assert(offers@.subrange(0, offers@.len() as int) =~= offers@);
                }
                if offered {
                    vp.push((a, srand));
                }
            },
            Err(()) => {},
        }
        i += 1;
        proof {
            assert(resps@.subrange(0, i as int).drop_last() =~= pre);
            assert(resps@.subrange(0, i as int).last() == resps@[i - 1]);
        }
    }
    proof {
        assert(resps@.subrange(0, resps@.len() as int) =~= resps@);
    }
    let ghost all = vp@;
    let mut out: Vec<(u8, u32)> = Vec::new();
    let mut i2: usize = 0;
    while i2 < vp.len()
        invariant
            i2 <= vp@.len() <= 32,
            all == vp@,
            out@ == survivors(vp@.subrange(0, i2 as int), all),
            out@.len() <= i2,
        decreases vp@.len() - i2,
    {
        let ghost pre = vp@.subrange(0, i2 as int);
        let a = vp[i2].0;
        let c = count_addr_exec(&vp, a);
        if c == 1 {
            let pair = vp[i2];
            out.push(pair);
        }
        i2 += 1;
        proof {
            assert(vp@.subrange(0, i2 as int).drop_last() =~= pre);
            assert(vp@.subrange(0, i2 as int).last() == vp@[i2 - 1]);
        }
    }
    proof {
        assert(vp@.subrange(0, vp@.len() as int) =~= vp@);
    }
    out
}

/// The Dom's discovery task state: its socket, whether the cycle is in
/// boost pacing, and when a device was last newly discovered.
pub struct Discovery {
    pub socket: DispatchSocket,
    pub boost_mode: bool,
    pub last_disc: Option<u32>,
}

impl Discovery {
    /// A fresh discovery task on the given socket, not in boost pacing.
    pub fn new(socket: DispatchSocket) -> (r: Self)
        ensures
            r.socket == socket,
            !r.boost_mode,
            r.last_disc is None,
    {
        Discovery { socket, boost_mode: false, last_disc: None }
    }

    /// Leave boost pacing once nothing new was discovered for three
    /// seconds.
    pub fn update_boost(&mut self, now: u32)
        ensures
            final(self).socket == old(self).socket,
            (old(self).boost_mode && (old(self).last_disc matches Some(ld)
                && crate::timing::micros_since_spec(now, ld) / 1000 >= 3000)) ==> (!final(self).boost_mode && final(self).last_disc is None),
            !(old(self).boost_mode && (old(self).last_disc matches Some(ld)
                && crate::timing::micros_since_spec(now, ld) / 1000 >= 3000)) ==> *final(self)
                == *old(self),
    {
        match self.last_disc {
            Some(ld) => {
                if self.boost_mode && crate::timing::millis_since(now, ld) >= 3000 {
                    self.boost_mode = false;
                    self.last_disc = None;
                }
            },
            None => {},
        }
    }

    /// How long to sleep between cycle steps: short in boost pacing.
    pub fn cycle_delay_ms(&self) -> (r: u32)
        ensures
            r == (if self.boost_mode {
                100u32
            } else {
                1000u32
            }),
    {
        if self.boost_mode {
            100
        } else {
            1000
        }
    }

    /// Record that a cycle committed at least one new address.
    pub fn record_discovery(&mut self, now: u32)
        ensures
            *final(self) == (Discovery { last_disc: Some(now), ..*old(self) }),
    {
        self.last_disc = Some(now);
    }

    /// Build the broadcast that opens a cycle: `DiscoverInitial` with the
    /// available addresses on offer, from the Dom to everyone, listening
    /// for the whole reply window. Fails exactly when no chunk is free or
    /// the payload cannot fit one.
    pub fn broadcast_initial(avail: &Vec<u8>, dom_random: u32, slab: &mut BSlab) -> (r: Result<
        LocalPacket,
        (),
    >)
        requires
            old(slab).wf(),
        ensures
            final(slab).wf(),
            final(slab).n == old(slab).n,
            final(slab).sz == old(slab).sz,
            r is Ok <==> (old(slab).initialized() && old(slab).free@.len() > 0 && enc_dom(
                DomPayloadModel::DiscoverInitial {
                    random: dom_random,
                    min_wait_us: DOM_BROADCAST_MIN_WAIT_US,
                    max_wait_us: DOM_BROADCAST_MAX_WAIT_US,
                    offers: avail@,
                },
            ).len() <= old(slab).sz),
            r matches Ok(p) ==> {
                &&& p.hdr.src.addr@ =~= seq![crate::icd::LOCAL_DOM_ADDR]
                &&& p.hdr.src.port == DISCOVERY_PORT
                &&& p.hdr.dst.addr@ =~= seq![crate::icd::LOCAL_BROADCAST_ADDR]
                &&& p.hdr.dst.port == DISCOVERY_PORT
                &&& p.response_wait_ticks == Some(DOM_BROADCAST_MAX_WAIT_US)
                &&& final(slab).valid_managed(p.payload)
                &&& final(slab).managed_bytes(p.payload) == enc_dom(
                    DomPayloadModel::DiscoverInitial {
                        random: dom_random,
                        min_wait_us: DOM_BROADCAST_MIN_WAIT_US,
                        max_wait_us: DOM_BROADCAST_MAX_WAIT_US,
                        offers: avail@,
                    },
                )
            },
            r is Err ==> *final(slab) == *old(slab),
    {
        let mut offers: Vec<u8> = Vec::new();
        let mut i: usize = 0;
        while i < avail.len()
            invariant
                i <= avail@.len(),
                offers@ =~= avail@.subrange(0, i as int),
            decreases avail@.len() - i,
        {
            let b = avail[i];
            offers.push(b);
            i += 1;
        }
        proof {
            assert(offers@ =~= avail@);
        }
        let payload = BusDomPayload::DiscoverInitial {
            random: dom_random,
            min_wait_us: DOM_BROADCAST_MIN_WAIT_US,
            max_wait_us: DOM_BROADCAST_MAX_WAIT_US,
            offers,
        };
        let bytes = encode_dom_payload(&payload);
        match LocalPacket::from_parts_with_alloc(
            &bytes,
            AddrPort::from_parts(VecAddr::local_dom_addr(), DISCOVERY_PORT),
            AddrPort::from_parts(VecAddr::local_broadcast_addr(), DISCOVERY_PORT),
            Some(DOM_BROADCAST_MAX_WAIT_US),
            slab,
        ) {
            Some(p) => Ok(p),
            None => Err(()),
        }
    }

    /// Build the acceptance packets for the winnowed claims: one
    /// `DiscoverAckAck` per surviving `(address, sub_random)` pair, using
    /// one fresh Dom random per acceptance. Returns the packets and the
    /// accepted addresses; fails exactly when a chunk cannot be had.
    pub fn accept_readies(
        pairs: &Vec<(u8, u32)>,
        ack_randoms: &Vec<u32>,
        slab: &mut BSlab,
    ) -> (r: Result<(Vec<LocalPacket>, Vec<u8>), ()>)
        requires
            old(slab).wf(),
            ack_randoms@.len() >= pairs@.len(),
        ensures
            final(slab).wf(),
            final(slab).n == old(slab).n,
            final(slab).sz == old(slab).sz,
            (old(slab).initialized() && old(slab).free@.len() >= pairs@.len() && (forall|k: int|
                0 <= k < pairs@.len() ==> #[trigger] enc_dom(
                    DomPayloadModel::DiscoverAckAck {
                        own_id: pairs@[k].0,
                        own_random: ack_randoms@[k],
                        own_id_ownrand_checksum: crate::icd::checksum_spec(
                            pairs@[k].0,
                            ack_randoms@[k],
                            pairs@[k].1,
                        ),
                    },
                ).len() <= old(slab).sz)) ==> r is Ok,
            r matches Ok((pkts, accepted)) ==> {
                &&& pkts@.len() == pairs@.len()
                &&& accepted@.len() == pairs@.len()
                &&& forall|k: int|
                    0 <= k < pairs@.len() ==> (#[trigger] accepted@[k]) == pairs@[k].0
                &&& forall|k: int|
                    0 <= k < pairs@.len() ==> {
                        let p = #[trigger] pkts@[k];
                        &&& p.hdr.src.addr@ =~= seq![crate::icd::LOCAL_DOM_ADDR]
                        &&& p.hdr.src.port == DISCOVERY_PORT
                        &&& p.hdr.dst.addr@ =~= seq![pairs@[k].0]
                        &&& p.hdr.dst.port == DISCOVERY_PORT
                        &&& final(slab).valid_managed(p.payload)
                        &&& final(slab).managed_bytes(p.payload) == enc_dom(
                            DomPayloadModel::DiscoverAckAck {
                                own_id: pairs@[k].0,
                                own_random: ack_randoms@[k],
                                own_id_ownrand_checksum: crate::icd::checksum_spec(
                                    pairs@[k].0,
                                    ack_randoms@[k],
                                    pairs@[k].1,
                                ),
                            },
                        )
                    }
            },
    {
        let mut pkts: Vec<LocalPacket> = Vec::new();
        let mut accepted: Vec<u8> = Vec::new();
        let mut k: usize = 0;
        while k < pairs.len()
            invariant
                slab.wf(),
                slab.n == old(slab).n,
                slab.sz == old(slab).sz,
                slab.initialized() == old(slab).initialized(),
                slab.free@.len() + k >= old(slab).free@.len(),
                k <= pairs@.len(),
                ack_randoms@.len() >= pairs@.len(),
                pkts@.len() == k,
                accepted@.len() == k,
                forall|j: int| 0 <= j < k ==> (#[trigger] pkts@[j]).payload is Owned,
                forall|j: int| 0 <= j < k ==> (#[trigger] accepted@[j]) == pairs@[j].0,
                forall|j: int|
                    0 <= j < k ==> {
                        let p = #[trigger] pkts@[j];
                        &&& p.hdr.src.addr@ =~= seq![crate::icd::LOCAL_DOM_ADDR]
                        &&& p.hdr.src.port == DISCOVERY_PORT
                        &&& p.hdr.dst.addr@ =~= seq![pairs@[j].0]
                        &&& p.hdr.dst.port == DISCOVERY_PORT
                        &&& slab.valid_managed(p.payload)
                        &&& slab.managed_bytes(p.payload) == enc_dom(
                            DomPayloadModel::DiscoverAckAck {
                                own_id: pairs@[j].0,
                                own_random: ack_randoms@[j],
                                own_id_ownrand_checksum: crate::icd::checksum_spec(
                                    pairs@[j].0,
                                    ack_randoms@[j],
                                    pairs@[j].1,
                                ),
                            },
                        )
                    },
            decreases pairs@.len() - k,
        {
            let ghost pre_slab = *slab;
            let (addr, sub_random) = pairs[k];
            let dom_random = ack_randoms[k];
            let hp = BusDomPayload::generate_discover_ack_ack(addr, dom_random, sub_random);
            let bytes = encode_dom_payload(&hp.body);
            let pkt = match LocalPacket::from_parts_with_alloc(
                &bytes,
                hp.hdr.src,
                hp.hdr.dst,
                None,
                slab,
            ) {
                Some(p) => p,
                None => {
                    proof {
                        if old(slab).initialized() && old(slab).free@.len() >= pairs@.len() && (
                        forall|j: int|
                            0 <= j < pairs@.len() ==> #[trigger] enc_dom(
                                DomPayloadModel::DiscoverAckAck {
                                    own_id: pairs@[j].0,
                                    own_random: ack_randoms@[j],
                                    own_id_ownrand_checksum: crate::icd::checksum_spec(
                                        pairs@[j].0,
                                        ack_randoms@[j],
                                        pairs@[j].1,
                                    ),
                                },
                            ).len() <= old(slab).sz) {
                            assert(enc_dom(
                                DomPayloadModel::DiscoverAckAck {
                                    own_id: pairs@[k as int].0,
                                    own_random: ack_randoms@[k as int],
                                    own_id_ownrand_checksum: crate::icd::checksum_spec(
                                        pairs@[k as int].0,
                                        ack_randoms@[k as int],
                                        pairs@[k as int].1,
                                    ),
                                },
                            ).len() <= old(slab).sz);
                            assert(false);
                        }
                    }
                    return Err(());
                },
            };
            proof {
                let fresh = pre_slab.free@[0] as int;
                assert(pre_slab.free@.contains(pre_slab.free@[0]));
                assert(pre_slab.rc(fresh) == 0);
                assert forall|j: int| 0 <= j < k implies {
                    let p = #[trigger] pkts@[j];
                    slab.valid_managed(p.payload) && slab.managed_bytes(p.payload)
                        == pre_slab.managed_bytes(p.payload)
                } by {
                    let p = pkts@[j];
                    assert(pre_slab.valid_managed(p.payload));
                    assert(p.payload is Owned);
                    let cc = crate::dispatch::owned_chunk(p.payload).unwrap();
                    assert(pre_slab.rc(cc) >= 1);
                    assert(cc != fresh);
                    assert(slab.rc(cc) == pre_slab.rc(cc));
                    assert(slab.chunk_bytes(cc) == pre_slab.chunk_bytes(cc));
                }
            }
            pkts.push(pkt);
            accepted.push(addr);
            k += 1;
        }
        Ok((pkts, accepted))
    }

    /// Build one `PingReq` towards a candidate address.
    pub fn ping_request(ready: u8, dom_random: u32, slab: &mut BSlab) -> (r: Result<
        LocalPacket,
        (),
    >)
        requires
            old(slab).wf(),
        ensures
            final(slab).wf(),
            final(slab).n == old(slab).n,
            final(slab).sz == old(slab).sz,
            r is Ok <==> (old(slab).initialized() && old(slab).free@.len() > 0 && enc_dom(
                DomPayloadModel::PingReq {
                    random: dom_random,
                    min_wait_us: DOM_PING_MIN_WAIT_US,
                    max_wait_us: DOM_PING_MAX_WAIT_US,
                },
            ).len() <= old(slab).sz),
            r matches Ok(p) ==> {
                &&& p.hdr.src.addr@ =~= seq![crate::icd::LOCAL_DOM_ADDR]
                &&& p.hdr.src.port == DISCOVERY_PORT
                &&& p.hdr.dst.addr@ =~= seq![ready]
                &&& p.hdr.dst.port == DISCOVERY_PORT
                &&& p.response_wait_ticks == Some(DOM_PING_MAX_WAIT_US)
                &&& final(slab).valid_managed(p.payload)
                &&& final(slab).managed_bytes(p.payload) == enc_dom(
                    DomPayloadModel::PingReq {
                        random: dom_random,
                        min_wait_us: DOM_PING_MIN_WAIT_US,
                        max_wait_us: DOM_PING_MAX_WAIT_US,
                    },
                )
            },
            r is Err ==> *final(slab) == *old(slab),
    {
        let payload = BusDomPayload::PingReq {
            random: dom_random,
            min_wait_us: DOM_PING_MIN_WAIT_US,
            max_wait_us: DOM_PING_MAX_WAIT_US,
        };
        let bytes = encode_dom_payload(&payload);
        match LocalPacket::from_parts_with_alloc(
            &bytes,
            AddrPort::from_parts(VecAddr::local_dom_addr(), DISCOVERY_PORT),
            AddrPort::from_parts(VecAddr::from_local_addr(ready), DISCOVERY_PORT),
            Some(DOM_PING_MAX_WAIT_US),
            slab,
        ) {
            Some(p) => Ok(p),
            None => Err(()),
        }
    }

    /// How many valid ping answers from the pinged candidate itself are
    /// among the replies collected in one window.
    pub open spec fn valid_ack_count(
        acks: Seq<(LocalHeader, BusSubPayload)>,
        candidate: u8,
        dom_random: u32,
    ) -> int
        decreases acks.len(),
    {
        if acks.len() == 0 {
            0
        } else {
            Self::valid_ack_count(acks.drop_last(), candidate, dom_random) + if ping_ack_check(
                acks.last().1,
                acks.last().0,
                dom_random,
            ) && crate::icd::local_addr_of(acks.last().0.src.addr@) == Some(candidate) {
                1int
            } else {
                0int
            }
        }
    }

    /// Whether a candidate advances a phase: it advances exactly when at
    /// least two valid ping answers from that candidate's address arrived
    /// in its window.
    pub fn ping_advances(
        acks: &Vec<(LocalHeader, BusSubPayload)>,
        candidate: u8,
        dom_random: u32,
    ) -> (r: bool)
        requires
            acks@.len() <= 64,
        ensures
            r == (Self::valid_ack_count(acks@, candidate, dom_random) >= 2),
    {
        let mut c: usize = 0;
        let mut i: usize = 0;
        while i < acks.len()
            invariant
                i <= acks@.len() <= 64,
                c == Self::valid_ack_count(acks@.subrange(0, i as int), candidate, dom_random),
                c <= i,
            decreases acks@.len() - i,
        {
            let ghost pre = acks@.subrange(0, i as int);
            let (hdr, body) = &acks[i];
            let from_candidate = match hdr.src.addr.get_exact_local_addr() {
                Some(a) => a == candidate,
                None => false,
            };
            if body.validate_ping_ack(hdr, dom_random).is_ok() && from_candidate {
                c += 1;
            }
            i += 1;
            proof {
                assert(acks@.subrange(0, i as int).drop_last() =~= pre);
                assert(acks@.subrange(0, i as int).last() == acks@[i - 1]);
            }
        }
        proof {
            assert(acks@.subrange(0, acks@.len() as int) =~= acks@);
        }
        c >= 2
    }

    /// Commit the addresses that passed both ping phases into the table.
    /// Every committed address becomes active; nothing else changes.
    pub fn commit_gos(table: &mut AddrTable32, gos: &Vec<u8>)
        requires
            forall|k: int| 0 <= k < gos@.len() ==> 1 <= #[trigger] gos@[k] <= 32,
            forall|k: int|
                0 <= k < gos@.len() ==> !addr_bit(old(table).active, #[trigger] gos@[k]),
            forall|k1: int, k2: int| 0 <= k1 < k2 < gos@.len() ==> gos@[k1] != gos@[k2],
        ensures
            forall|a: u8|
                #[trigger] addr_bit(final(table).active, a) <==> (addr_bit(old(table).active, a)
                    || gos@.contains(a)),
    {
        let mut k: usize = 0;
        while k < gos.len()
            invariant
                k <= gos@.len(),
                forall|j: int| 0 <= j < gos@.len() ==> 1 <= #[trigger] gos@[j] <= 32,
                forall|j: int|
                    0 <= j < gos@.len() ==> !addr_bit(old(table).active, #[trigger] gos@[j]),
                forall|j1: int, j2: int| 0 <= j1 < j2 < gos@.len() ==> gos@[j1] != gos@[j2],
                forall|a: u8|
                    #[trigger] addr_bit(table.active, a) <==> (addr_bit(old(table).active, a)
                        || gos@.subrange(0, k as int).contains(a)),
            decreases gos@.len() - k,
        {
            let ghost pre = gos@.subrange(0, k as int);
            let a = gos[k];
            proof {
                if addr_bit(table.active, a) {
                    assert(pre.contains(a));
                    let j = choose|j: int| 0 <= j < pre.len() && pre[j] == a;
                    assert(gos@[j] == a);
                }
            }
            let res = table.commit_reserved_addr(a);
            proof {
                assert(res is Ok);
            }
            k += 1;
            proof {
                assert forall|b: u8| #[trigger]
                    addr_bit(table.active, b) <==> (addr_bit(old(table).active, b) || gos@.subrange(
                    0,
                    k as int,
                ).contains(b)) by {
                    let cur = gos@.subrange(0, k as int);
                    assert(cur.drop_last() =~= pre);
                    assert(cur.last() == a);
                    if cur.contains(b) {
                        let j = choose|j: int| 0 <= j < cur.len() && cur[j] == b;
                        if j < k - 1 {
                            assert(pre[j] == b);
                            assert(pre.contains(b));
                        }
                    }
                    if pre.contains(b) {
                        let j = choose|j: int| 0 <= j < pre.len() && pre[j] == b;
                        assert(cur[j] == b);
                    }
                    if b == a {
                        assert(cur[k - 1] == b);
                    }
                }
            }
        }
        proof {
            assert(gos@.subrange(0, gos@.len() as int) =~= gos@);
        }
    }
}

} // verus!
