//! Dom-side shared state: the bus port numbers and the address table.
//!
//! The table is a single 32-bit mask of *active* addresses: bit `i`
//! stands for address `i + 1`. The discovery cycle commits bits, and the
//! token loop clears the bit of an address that stopped answering.

use vstd::prelude::*;

verus! {

/// Number of dispatch port slots.
pub const NUM_PORTS: usize = 8;

/// The port discovery traffic travels on.
pub const DISCOVERY_PORT: u16 = 10;

/// The port token traffic travels on.
pub const TOKEN_PORT: u16 = 20;

/// Whether address `addr` is marked in `mask` (addresses 1 through 32;
/// bit `addr - 1` stands for address `addr`).
pub open spec fn addr_bit(mask: u32, addr: u8) -> bool {
    &&& 1 <= addr <= 32
    &&& (mask >> ((addr - 1) as u32)) & 1 == 1
}

/// The table of active bus addresses, as one mask.
pub struct AddrTable32 {
    pub active: u32,
}

impl AddrTable32 {
    /// An empty table: no address is active.
    pub fn new() -> (r: Self)
        ensures
            r.active == 0,
    {
        AddrTable32 { active: 0 }
    }

    /// List the active addresses, ascending.
    pub fn get_active_addrs(&self) -> (r: Vec<u8>)
        ensures
            forall|k: int|
                0 <= k < r@.len() ==> addr_bit(self.active, #[trigger] r@[k]),
            forall|a: u8| #[trigger] r@.contains(a) <==> addr_bit(self.active, a),
            forall|k1: int, k2: int| 0 <= k1 < k2 < r@.len() ==> r@[k1] < r@[k2],
            r@.len() <= 32,
    {
        mask_to_addrs(self.active)
    }

    /// List the addresses not active, ascending: the complement mask.
    pub fn get_available_addrs(&self) -> (r: Vec<u8>)
        ensures
            forall|k: int|
                0 <= k < r@.len() ==> addr_bit(!self.active, #[trigger] r@[k]),
            forall|a: u8| #[trigger] r@.contains(a) <==> addr_bit(!self.active, a),
            forall|k1: int, k2: int| 0 <= k1 < k2 < r@.len() ==> r@[k1] < r@[k2],
            r@.len() <= 32,
    {
        mask_to_addrs(!self.active)
    }

    /// Mark `addr` active. Fails exactly when `addr` is out of the
    /// 1..=32 range or already active; on success only that bit changes.
    pub fn commit_reserved_addr(&mut self, addr: u8) -> (r: Result<(), ()>)
        ensures
            r is Err <==> (addr == 0 || addr > 32 || addr_bit(old(self).active, addr)),
            r is Err ==> *final(self) == *old(self),
            r is Ok ==> final(self).active == old(self).active | (1u32 << ((addr - 1) as u32)),
            r is Ok ==> forall|a: u8|
                #[trigger] addr_bit(final(self).active, a) <==> (addr_bit(old(self).active, a) || a
                    == addr),
    {
        if addr > 32 || addr == 0 {
            return Err(());
        }
        let mask: u32 = 1u32 << ((addr - 1) as u32);
        let old_mask = self.active;
        if old_mask & mask != 0 {
            proof {
                lemma_single_bit(old(self).active, addr);
            }
            Err(())
        } else {
            self.active = old_mask | mask;
            proof {
                lemma_single_bit(old(self).active, addr);
                lemma_or_bit(old(self).active, addr);
            }
            Ok(())
        }
    }

    /// Clear `addr` from the active set. Fails exactly when `addr` is out
    /// of range or not active; on success only that bit changes.
    pub fn release_active_addr(&mut self, addr: u8) -> (r: Result<(), ()>)
        ensures
            r is Err <==> (addr == 0 || addr > 32 || !addr_bit(old(self).active, addr)),
            r is Err ==> *final(self) == *old(self),
            r is Ok ==> final(self).active == old(self).active & !(1u32 << ((addr - 1) as u32)),
            r is Ok ==> forall|a: u8|
                #[trigger] addr_bit(final(self).active, a) <==> (addr_bit(old(self).active, a) && a
                    != addr),
    {
        if addr > 32 || addr == 0 {
            return Err(());
        }
        let mask: u32 = 1u32 << ((addr - 1) as u32);
        let old_mask = self.active;
        if old_mask & mask == 0 {
            proof {
                lemma_single_bit(old(self).active, addr);
            }
            Err(())
        } else {
            self.active = old_mask & !mask;
            proof {
                lemma_single_bit(old(self).active, addr);
                lemma_and_not_bit(old(self).active, addr);
            }
            Ok(())
        }
    }
}

/// Testing one bit: masking with `1 << (addr - 1)` is nonzero exactly when
/// the shifted-down bit is one.
proof fn lemma_single_bit(mask: u32, addr: u8)
    requires
        1 <= addr <= 32,
    ensures
        (mask & (1u32 << ((addr - 1) as u32)) != 0) <==> ((mask >> ((addr - 1) as u32)) & 1 == 1),
{
    let sh = (addr - 1) as u32;
    assert((mask & (1u32 << sh) != 0) <==> ((mask >> sh) & 1 == 1)) by (bit_vector)
        requires
            sh < 32u32,
    ;
}

/// Setting one bit: every address keeps its bit, and the set address gains it.
proof fn lemma_or_bit(mask: u32, addr: u8)
    requires
        1 <= addr <= 32,
    ensures
        forall|a: u8|
            #[trigger] addr_bit(mask | (1u32 << ((addr - 1) as u32)), a) <==> (addr_bit(mask, a)
                || a == addr),
{
    let sh = (addr - 1) as u32;
    assert forall|a: u8| #[trigger] addr_bit(mask | (1u32 << sh), a) <==> (addr_bit(mask, a) || a
        == addr) by {
        if 1 <= a <= 32 {
            let sa = (a - 1) as u32;
            assert((((mask | (1u32 << sh)) >> sa) & 1 == 1) <==> (((mask >> sa) & 1 == 1) || sa
                == sh)) by (bit_vector)
                requires
                    sh < 32u32,
                    sa < 32u32,
            ;
            assert(sa == sh <==> a == addr);
        }
    }
}

/// Clearing one bit: every other address keeps its bit, and the cleared
/// address loses it.
proof fn lemma_and_not_bit(mask: u32, addr: u8)
    requires
        1 <= addr <= 32,
    ensures
        forall|a: u8|
            #[trigger] addr_bit(mask & !(1u32 << ((addr - 1) as u32)), a) <==> (addr_bit(mask, a)
                && a != addr),
{
    let sh = (addr - 1) as u32;
    assert forall|a: u8| #[trigger] addr_bit(mask & !(1u32 << sh), a) <==> (addr_bit(mask, a) && a
        != addr) by {
        if 1 <= a <= 32 {
            let sa = (a - 1) as u32;
            assert((((mask & !(1u32 << sh)) >> sa) & 1 == 1) <==> (((mask >> sa) & 1 == 1) && sa
                != sh)) by (bit_vector)
                requires
                    sh < 32u32,
                    sa < 32u32,
            ;
            assert(sa == sh <==> a == addr);
        }
    }
}

/// List the addresses whose bit is set in `mask`, ascending.
fn mask_to_addrs(mask: u32) -> (r: Vec<u8>)
    ensures
        forall|k: int| 0 <= k < r@.len() ==> addr_bit(mask, #[trigger] r@[k]),
        forall|a: u8| #[trigger] r@.contains(a) <==> addr_bit(mask, a),
        forall|k1: int, k2: int| 0 <= k1 < k2 < r@.len() ==> r@[k1] < r@[k2],
        r@.len() <= 32,
{
    let mut ret: Vec<u8> = Vec::new();
    let mut i: u8 = 1;
    while i <= 32
        invariant
            1 <= i <= 33,
            ret@.len() < i,
            forall|k: int| 0 <= k < ret@.len() ==> 1 <= #[trigger] ret@[k] < i,
            forall|k: int| 0 <= k < ret@.len() ==> addr_bit(mask, #[trigger] ret@[k]),
            forall|a: u8| 1 <= a < i ==> (addr_bit(mask, a) ==> ret@.contains(a)),
            forall|k1: int, k2: int| 0 <= k1 < k2 < ret@.len() ==> ret@[k1] < ret@[k2],
        decreases 33 - i,
    {
        if (mask >> ((i - 1) as u32)) & 1 == 1 {
            let ghost pre = ret@;
            ret.push(i);
            proof {
                assert forall|a: u8| 1 <= a < i + 1 && addr_bit(mask, a) implies ret@.contains(
                    a,
                ) by {
                    if a < i {
                        assert(pre.contains(a));
                        let k = choose|k: int| 0 <= k < pre.len() && pre[k] == a;
                        assert(ret@[k] == a);
                    } else {
                        assert(ret@[ret@.len() - 1] == i);
                    }
                }
            }
        }
        i += 1;
    }
    proof {
        assert forall|a: u8| #[trigger] ret@.contains(a) implies addr_bit(mask, a) by {
            let k = choose|k: int| 0 <= k < ret@.len() && ret@[k] == a;
        }
    }
    ret
}

/// What a Dom task needs of its bus access: push one frame onto the wire,
/// or take the next received frame. Bus drivers and test harnesses
/// implement this.
pub trait DomInterface {
    /// Send one packet; a full line hands it back.
    fn send_blocking(&mut self, msg: crate::icd::HeaderPacket<crate::icd::BusDomPayload>) -> Result<
        (),
        crate::icd::HeaderPacket<crate::icd::BusDomPayload>,
    >;

    /// The next received Sub frame, if any.
    fn pop(&mut self) -> Option<crate::icd::HeaderPacket<crate::icd::BusSubPayload>>;
}

/// The Dom tasks' shared access to the bus interface and the address
/// table. The tasks run cooperatively on one executor, so taking a lock
/// is plain borrowing here.
pub struct AsyncDomMutex<T: DomInterface> {
    pub bus: T,
    pub table: AddrTable32,
}

impl<T: DomInterface> AsyncDomMutex<T> {
    /// Wrap a bus interface together with an empty address table.
    pub fn new(intfc: T) -> (r: Self)
        ensures
            r.table.active == 0,
    {
        AsyncDomMutex { bus: intfc, table: AddrTable32::new() }
    }

    /// Borrow the bus exclusively.
    pub fn lock_bus(&mut self) -> (r: &mut T)
        ensures
            *r == old(self).bus,
            final(self).bus == *final(r),
            final(self).table == old(self).table,
    {
        &mut self.bus
    }

    /// Borrow the address table exclusively.
    pub fn lock_table(&mut self) -> (r: &mut AddrTable32)
        ensures
            *r == old(self).table,
            final(self).table == *final(r),
            final(self).bus == old(self).bus,
    {
        &mut self.table
    }
}

} // verus!
