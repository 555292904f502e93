//! The Dom side of token arbitration: grant the medium to each active
//! address in turn, and evict an address that stops answering.
//!
//! For every active address, the Dom sends a `TokenGrant` with a fresh
//! nonce, waits for the matching `TokenRelease`, and remembers when the
//! address last answered. An address silent for [`crate::timing::TOKEN_EVICT_MS`]
//! milliseconds is cleared from the table and forgotten.

use vstd::prelude::*;

use crate::dispatch::LocalPacket;
use crate::dom::{addr_bit, AddrTable32, TOKEN_PORT};
use crate::icd::{local_addr_of, AddrPort, DomTokenGrantPayload, LocalHeader,
    SubTokenReleasePayload, VecAddr};
use crate::payload::{enc_grant, encode_grant_payload};
use crate::slab::BSlab;
use crate::timing::{micros_since_spec, TOKEN_EVICT_MS, TOKEN_MAX_TIME_US};

verus! {

/// Whether a packet is the release the Dom is waiting for: a
/// `TokenRelease` from exactly the granted address on the token port,
/// echoing the grant's nonce.
pub open spec fn release_matches(
    hdr: LocalHeader,
    body: SubTokenReleasePayload,
    addr: u8,
    random: u32,
) -> bool {
    &&& local_addr_of(hdr.src.addr@) == Some(addr)
    &&& hdr.src.port == TOKEN_PORT
    &&& body.random == random
}

/// The Dom's token task: when each address was last seen answering, by
/// address (entry `a - 1` for address `a`).
pub struct Token {
    pub ping_table: Vec<Option<u32>>,
}

impl Token {
    /// The table always holds one entry per possible address.
    pub open spec fn wf(self) -> bool {
        self.ping_table@.len() == 32
    }

    /// A fresh token task that has seen nobody.
    pub fn new() -> (r: Self)
        ensures
            r.wf(),
            forall|k: int| 0 <= k < 32 ==> (#[trigger] r.ping_table@[k]) is None,
    {
        let mut t: Vec<Option<u32>> = Vec::new();
        let mut i: usize = 0;
        while i < 32
            invariant
                i <= 32,
                t@.len() == i,
                forall|k: int| 0 <= k < i ==> (#[trigger] t@[k]) is None,
            decreases 32 - i,
        {
            t.push(None);
            i += 1;
        }
        Token { ping_table: t }
    }

    /// Open a turn for `addr`: record a first sighting if none is on
    /// file, and build the `TokenGrant` carrying `random` and the token's
    /// time budget. Fails exactly when no chunk is free for the frame.
    pub fn turn_open(&mut self, addr: u8, random: u32, now: u32, slab: &mut BSlab) -> (r: Result<
        LocalPacket,
        (),
    >)
        requires
            old(self).wf(),
            1 <= addr <= 32,
            old(slab).wf(),
        ensures
            final(self).wf(),
            final(slab).wf(),
            final(slab).n == old(slab).n,
            final(slab).sz == old(slab).sz,
            final(self).ping_table@ == (if old(self).ping_table@[addr - 1] is None {
                old(self).ping_table@.update(addr - 1, Some(now))
            } else {
                old(self).ping_table@
            }),
            r is Ok <==> (old(slab).initialized() && old(slab).free@.len() > 0 && enc_grant(
                DomTokenGrantPayload { random, max_time_us: TOKEN_MAX_TIME_US },
            ).len() <= old(slab).sz),
            r matches Ok(p) ==> {
                &&& p.hdr.src.addr@ =~= seq![crate::icd::LOCAL_DOM_ADDR]
                &&& p.hdr.src.port == TOKEN_PORT
                &&& p.hdr.dst.addr@ =~= seq![addr]
                &&& p.hdr.dst.port == TOKEN_PORT
                &&& p.response_wait_ticks == Some(TOKEN_MAX_TIME_US)
                &&& final(slab).valid_managed(p.payload)
                &&& final(slab).managed_bytes(p.payload) == enc_grant(
                    DomTokenGrantPayload { random, max_time_us: TOKEN_MAX_TIME_US },
                )
            },
    {
        let slot = (addr - 1) as usize;
        if self.ping_table[slot].is_none() {
            self.ping_table[slot] = Some(now);
        }
        proof {
            if old(self).ping_table@[addr - 1] is None {
                assert(self.ping_table@ =~= old(self).ping_table@.update(addr - 1, Some(now)));
            } else {
                assert(self.ping_table@ =~= old(self).ping_table@);
            }
        }
        let payload = DomTokenGrantPayload { random, max_time_us: TOKEN_MAX_TIME_US };
        let bytes = encode_grant_payload(&payload);
        match LocalPacket::from_parts_with_alloc(
            &bytes,
            AddrPort::from_parts(VecAddr::local_dom_addr(), TOKEN_PORT),
            AddrPort::from_parts(VecAddr::from_local_addr(addr), TOKEN_PORT),
            Some(TOKEN_MAX_TIME_US),
            slab,
        ) {
            Some(p) => Ok(p),
            None => Err(()),
        }
    }

    /// Check a packet against the grant we are waiting on.
    pub fn validate_release(
        hdr: &LocalHeader,
        body: &SubTokenReleasePayload,
        addr: u8,
        random: u32,
    ) -> (r: bool)
        ensures
            r == release_matches(*hdr, *body, addr, random),
    {
        let src_ok = match hdr.src.addr.get_exact_local_addr() {
            Some(a) => a == addr,
            None => false,
        };
        src_ok && hdr.src.port == TOKEN_PORT && body.random == random
    }

    /// Close a turn: a valid release refreshes the address's sighting;
    /// then, if the address has not been seen for
    /// [`TOKEN_EVICT_MS`] milliseconds, it is forgotten and cleared from
    /// the active table. Returns whether the address was evicted; fails
    /// exactly when an eviction finds the address not active in the table.
    pub fn turn_close(
        &mut self,
        table: &mut AddrTable32,
        addr: u8,
        got_valid: bool,
        now: u32,
    ) -> (r: Result<bool, ()>)
        requires
            old(self).wf(),
            1 <= addr <= 32,
        ensures
            final(self).wf(),
            ({
                let seen = if got_valid {
                    Some(now)
                } else {
                    old(self).ping_table@[addr - 1]
                };
                let evict = seen matches Some(t) && micros_since_spec(now, t) / 1000
                    >= TOKEN_EVICT_MS;
                &&& (!evict ==> {
                    &&& r == Ok::<bool, ()>(false)
                    &&& final(self).ping_table@ == old(self).ping_table@.update(addr - 1, seen)
                    &&& *final(table) == *old(table)
                })
                &&& (evict && addr_bit(old(table).active, addr) ==> {
                    &&& r == Ok::<bool, ()>(true)
                    &&& final(self).ping_table@ == old(self).ping_table@.update(
                        addr - 1,
                        Option::<u32>::None,
                    )
                    &&& (forall|a: u8|
                        #[trigger] addr_bit(final(table).active, a) <==> (addr_bit(
                            old(table).active,
                            a,
                        ) && a != addr))
                })
                &&& (evict && !addr_bit(old(table).active, addr) ==> r is Err)
            }),
    {
        let slot = (addr - 1) as usize;
        if got_valid {
            self.ping_table[slot] = Some(now);
        }
        let seen = self.ping_table[slot];
        let evict = match seen {
            Some(t) => crate::timing::millis_since(now, t) >= TOKEN_EVICT_MS,
            None => false,
        };
        proof {
            if !got_valid {
                assert(self.ping_table@ =~= old(self).ping_table@.update(
                    addr - 1,
                    old(self).ping_table@[addr - 1],
                ));
            }
        }
        if evict {
            self.ping_table[slot] = None;
            match table.release_active_addr(addr) {
                Ok(()) => Ok(true),
                Err(()) => Err(()),
            }
        } else {
            Ok(false)
        }
    }
}

} // verus!
