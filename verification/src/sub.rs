//! Sub-side shared bus access.

use vstd::prelude::*;

use crate::icd::{BusDomPayload, BusSubPayload, HeaderPacket};

verus! {

/// What a Sub task needs of its bus access: push one frame onto the wire,
/// or take the next received Dom frame. Bus drivers and test harnesses
/// implement this.
pub trait SubInterface {
    /// Send one packet; a full line hands it back.
    fn send_blocking(&mut self, msg: HeaderPacket<BusSubPayload>) -> Result<
        (),
        HeaderPacket<BusSubPayload>,
    >;

    /// The next received Dom frame, if any.
    fn pop(&mut self) -> Option<HeaderPacket<BusDomPayload>>;
}

/// The Sub tasks' shared access to the bus interface. The tasks run
/// cooperatively on one executor, so taking the lock is plain borrowing.
pub struct AsyncSubMutex<T: SubInterface> {
    pub bus: T,
}

impl<T: SubInterface> AsyncSubMutex<T> {
    /// Wrap a bus interface.
    pub fn new(intfc: T) -> (r: Self)
        ensures
            r.bus == intfc,
    {
        AsyncSubMutex { bus: intfc }
    }

    /// Borrow the bus exclusively.
    pub fn lock_bus(&mut self) -> (r: &mut T)
        ensures
            *r == old(self).bus,
            final(self).bus == *final(r),
    {
        &mut self.bus
    }
}

} // verus!
