//! Message dispatch and routing: the port table, the bounded queues between
//! tasks, the dispatcher and the line driver, and the framing pipelines.
//!
//! Queues are bounded and fail closed: an enqueue into a full queue hands
//! the item back. The dispatcher owns its queues; the slab pool is passed
//! in to every operation that touches chunk bytes or reference counts.

use vstd::prelude::*;

use crate::framing::{cobs_dec, decode_frame, encode_frame, frame_of};
use crate::icd::{AddrPort, LineHeader, LocalHeader, VecAddr, LOCAL_BROADCAST_ADDR, LOCAL_DOM_ADDR};
use crate::icd::local_addr_of;
use crate::managed::ManagedArcSlab;
use crate::slab::{BSlab, SlabBox};
use crate::wire::{decode_line_message, encode_line_message, enc_line, line_model_of, parse_line};

verus! {

/// Depth of each port's inbox and outbox.
pub const TASK_QUEUE_DEPTH: usize = 4;

/// Depth of the three dispatcher/line-driver queues.
pub const IO_QUEUE_DEPTH: usize = 32;

/// Depth of the holding area for frames that found `to_io` full.
pub const SHAME_QUEUE_DEPTH: usize = 2;

/// The port number that marks a free slot.
pub const INVALID_PORT: u16 = 0;

/// The own-address value that means "not yet assigned" (the broadcast
/// address).
pub const INVALID_OWN_ADDR: u8 = LOCAL_BROADCAST_ADDR;

/// A raw frame received from the line, stamped with the receive tick.
pub struct TimeStampBox {
    /// The chunk holding the frame bytes.
    pub packet: SlabBox,
    /// How many bytes of the chunk the frame occupies.
    pub len: usize,
    /// The tick at which the line went idle.
    pub tick: u32,
}

/// An encoded frame queued towards the line driver.
pub struct OutgoingSlab {
    /// The frame bytes, as a slab view.
    pub packet: ManagedArcSlab,
    /// How long the sender intends to listen for a response, if at all.
    pub receive_ticks_min: Option<u32>,
}

/// A routed message: header, payload view, and optional response window.
pub struct LocalPacket {
    pub hdr: LocalHeader,
    pub payload: ManagedArcSlab,
    pub response_wait_ticks: Option<u32>,
}

impl LocalPacket {
    /// Assemble a packet from a header and payload view.
    pub fn from_hdr_payload(hdr: LocalHeader, payload: ManagedArcSlab) -> (r: Self)
        ensures
            r.hdr == hdr,
            r.payload == payload,
            r.response_wait_ticks is None,
    {
        LocalPacket { hdr, payload, response_wait_ticks: None }
    }

    /// The packet's header.
    pub fn header(&self) -> (r: &LocalHeader)
        ensures
            r == &self.hdr,
    {
        &self.hdr
    }

    /// The packet's payload view.
    pub fn payload_slab(&self) -> (r: &ManagedArcSlab)
        ensures
            r == &self.payload,
    {
        &self.payload
    }

    /// Allocate a chunk, write an already-encoded payload into it, and wrap
    /// it as a packet. Returns `None` exactly when no chunk is free or the
    /// payload does not fit a chunk.
    pub fn from_parts_with_alloc(
        payload_bytes: &Vec<u8>,
        src: AddrPort,
        dst: AddrPort,
        rx_ticks: Option<u32>,
        slab: &mut BSlab,
    ) -> (r: Option<Self>)
        requires
            old(slab).wf(),
        ensures
            final(slab).wf(),
            final(slab).n == old(slab).n,
            final(slab).sz == old(slab).sz,
            final(slab).initialized() == old(slab).initialized(),
            r is Some <==> (old(slab).initialized() && old(slab).free@.len() > 0
                && payload_bytes@.len() <= old(slab).sz),
            r is None ==> *final(slab) == *old(slab),
            r matches Some(p) ==> {
                &&& p.hdr.src == src
                &&& p.hdr.dst == dst
                &&& p.hdr.tick == 0
                &&& p.response_wait_ticks == rx_ticks
                &&& p.payload matches ManagedArcSlab::Owned(ssa)
                &&& ssa.arc.idx == old(slab).free@[0]
                &&& ssa.start == 0
                &&& ssa.len == payload_bytes@.len()
                &&& final(slab).valid_managed(p.payload)
                &&& final(slab).managed_bytes(p.payload) == payload_bytes@
                &&& final(slab).rc(ssa.arc.idx as int) == 1
                &&& final(slab).free@ == old(slab).free@.subrange(1, old(slab).free@.len() as int)
                &&& final(slab).rcs@ == old(slab).rcs@.update(ssa.arc.idx as int, 1usize)
                &&& forall|i: int|
                    0 <= i < old(slab).num_chunks() && i != ssa.arc.idx ==> final(slab).chunk_bytes(
                        i,
                    ) == old(slab).chunk_bytes(i)
            },
    {
        if payload_bytes.len() > slab.size_of_chunk() {
            return None;
        }
        let boxy = match slab.alloc_box() {
            Some(b) => b,
            None => { return None; },
        };
        slab.box_copy_from_slice(&boxy, 0, payload_bytes);
        let arc = boxy.into_arc(slab);
        let ssa = match arc.sub_slice_arc(slab, 0, payload_bytes.len()) {
            Ok(s) => s,
            Err(()) => { return None; },  // cannot happen: the window fits the chunk
        };
        // The fresh chunk's count went from one (the box) to two (box plus
        // view); the box handle itself was re-tagged, so settle it at one.
        let rc_fix = SlabArcFix { idx: ssa.arc.idx };
        rc_fix.settle(slab);
        proof {
            assert(slab.managed_bytes(ManagedArcSlab::Owned(ssa)) =~= payload_bytes@);
        }
        Some(
            LocalPacket {
                hdr: LocalHeader { src, dst, tick: 0 },
                payload: ManagedArcSlab::Owned(ssa),
                response_wait_ticks: rx_ticks,
            },
        )
    }
}

/// The one-past re-tagging step of building an owned payload in a fresh
/// chunk: the box's count and the view's clone briefly total two; the box
/// is consumed, so the chunk settles at one holder.
struct SlabArcFix {
    idx: usize,
}

impl SlabArcFix {
    fn settle(self, slab: &mut BSlab)
        requires
            old(slab).wf(),
            old(slab).initialized(),
            self.idx < old(slab).n,
            old(slab).rc(self.idx as int) == 2,
        ensures
            final(slab).wf(),
            final(slab).rcs@ == old(slab).rcs@.update(self.idx as int, 1usize),
            *final(slab) == (BSlab { rcs: final(slab).rcs, ..*old(slab) }),
    {
        let arc = crate::slab::SlabArc { idx: self.idx };
        slab.drop_arc(arc);
        proof {
            assert(slab.rcs@ =~= old(slab).rcs@.update(self.idx as int, 1usize));
        }
    }
}

/// The three process-wide authorization flags between protocol tasks and
/// the line driver.
pub struct IoAuth {
    /// May the line driver send one frame? Cleared after one send.
    pub io_send_auth: bool,
    /// Should the line driver drain pending frames before the next send?
    pub io_flush_auth: bool,
    /// Set by the line driver when no outgoing work is pending.
    pub io_empty_auth: bool,
}

impl IoAuth {
    /// Authorize one send.
    pub fn enable_one_send(&mut self)
        ensures
            *final(self) == (IoAuth { io_send_auth: true, ..*old(self) }),
    {
        self.io_send_auth = true;
    }

    /// Is a send currently authorized?
    pub fn is_send_authd(&self) -> (r: bool)
        ensures
            r == self.io_send_auth,
    {
        self.io_send_auth
    }

    /// Withdraw the send authorization.
    pub fn clear_send_auth(&mut self)
        ensures
            *final(self) == (IoAuth { io_send_auth: false, ..*old(self) }),
    {
        self.io_send_auth = false;
    }

    /// Consume the flush authorization: returns whether a flush was
    /// requested, and clears the request.
    pub fn is_flush_authd(&mut self) -> (r: bool)
        ensures
            r == old(self).io_flush_auth,
            *final(self) == (IoAuth { io_flush_auth: false, ..*old(self) }),
    {
        let r = self.io_flush_auth;
        self.io_flush_auth = false;
        r
    }

    /// Record that the outgoing queues are empty.
    pub fn mark_empty(&mut self)
        ensures
            *final(self) == (IoAuth { io_empty_auth: true, ..*old(self) }),
    {
        self.io_empty_auth = true;
    }
}

/// Whether the line driver should be woken after an operation.
pub enum AwakeIoHandler {
    No,
    Yes,
}

/// The queues between the dispatcher and the line driver, the flags, and
/// whether the driver's handle was already taken.
pub struct IoQueue {
    /// Outgoing frames, normal priority.
    pub to_io: Vec<OutgoingSlab>,
    /// Outgoing frames, discovery and token traffic.
    pub to_io_hi_prio: Vec<OutgoingSlab>,
    /// Incoming raw frames towards the dispatcher.
    pub to_dispatch: Vec<TimeStampBox>,
    /// Whether the line driver's handle was handed out.
    pub io_given: bool,
    /// The authorization flags.
    pub io_auth: IoAuth,
}

impl IoQueue {
    /// Fresh, empty queues; no handle given, no authorization set.
    pub fn new() -> (r: Self)
        ensures
            r.to_io@.len() == 0,
            r.to_io_hi_prio@.len() == 0,
            r.to_dispatch@.len() == 0,
            !r.io_given,
            !r.io_auth.io_send_auth,
            !r.io_auth.io_flush_auth,
            !r.io_auth.io_empty_auth,
    {
        IoQueue {
            to_io: Vec::new(),
            to_io_hi_prio: Vec::new(),
            to_dispatch: Vec::new(),
            io_given: false,
            io_auth: IoAuth { io_send_auth: false, io_flush_auth: false, io_empty_auth: false },
        }
    }
}

/// The line driver's token: at most one is ever handed out.
pub struct IoHandle {
    pub token: (),
}

/// One port slot: its number (zero while free) and its two queues.
pub struct PortQueue {
    pub port: u16,
    /// Packets delivered to the task on this port.
    pub to_task: Vec<LocalPacket>,
    /// Packets the task wants sent.
    pub to_dispatch: Vec<LocalPacket>,
}

/// A socket handle for one registered port.
pub struct DispatchSocket {
    /// Index of the slot in the port table.
    pub idx: usize,
    /// The registered port number; never zero.
    pub port: u16,
    /// Whether this port may authorize sends (discovery and token ports).
    pub has_auth: bool,
}

impl DispatchSocket {
    /// The socket's port number.
    pub fn port_number(&self) -> (r: u16)
        ensures
            r == self.port,
    {
        self.port
    }
}

/// Why an incoming or outgoing frame was not processed.
#[derive(Debug)]
pub enum ProcessMessageError {
    Cobs,
    Deser,
    ReRoot,
    Arc,
    SrcAddr,
    DestAddr,
    DestPort,
    TaskQueueFull,
    IoQueueFull,
    NoAlloc,
    Ser,
}

/// The dispatcher: the port table, the line-driver queues, the node's own
/// address, and the holding slot for stranded frames.
pub struct Dispatch {
    pub ports: Vec<PortQueue>,
    pub ioq: IoQueue,
    pub own_addr: u8,
    pub shame: Vec<OutgoingSlab>,
}

impl Dispatch {
    /// Bounds and uniqueness the dispatcher maintains: every queue within
    /// its depth, and no port number registered twice.
    pub open spec fn wf(self) -> bool {
        &&& self.ioq.to_io@.len() <= IO_QUEUE_DEPTH
        &&& self.ioq.to_io_hi_prio@.len() <= IO_QUEUE_DEPTH
        &&& self.ioq.to_dispatch@.len() <= IO_QUEUE_DEPTH
        &&& self.shame@.len() <= SHAME_QUEUE_DEPTH
        &&& forall|i: int|
            0 <= i < self.ports@.len() ==> (#[trigger] self.ports@[i]).to_task@.len()
                <= TASK_QUEUE_DEPTH
        &&& forall|i: int|
            0 <= i < self.ports@.len() ==> (#[trigger] self.ports@[i]).to_dispatch@.len()
                <= TASK_QUEUE_DEPTH
        &&& forall|i: int, j: int|
            0 <= i < j < self.ports@.len() && (#[trigger] self.ports@[i]).port != INVALID_PORT ==> (
            #[trigger] self.ports@[j]).port != self.ports@[i].port
    }

    /// A socket belongs to this dispatcher and names its slot truly.
    pub open spec fn valid_socket(self, s: DispatchSocket) -> bool {
        &&& s.idx < self.ports@.len()
        &&& self.ports@[s.idx as int].port == s.port
        &&& s.port != INVALID_PORT
    }

    /// A dispatcher with `ports` empty slots and empty queues, not yet
    /// assigned an address.
    pub fn new(ports: usize) -> (r: Self)
        ensures
            r.wf(),
            r.ports@.len() == ports,
            forall|i: int| 0 <= i < ports ==> (#[trigger] r.ports@[i]).port == INVALID_PORT,
            forall|i: int| 0 <= i < ports ==> (#[trigger] r.ports@[i]).to_task@.len() == 0,
            forall|i: int| 0 <= i < ports ==> (#[trigger] r.ports@[i]).to_dispatch@.len() == 0,
            r.own_addr == INVALID_OWN_ADDR,
            r.ioq.to_io@.len() == 0,
            r.ioq.to_io_hi_prio@.len() == 0,
            r.ioq.to_dispatch@.len() == 0,
            r.shame@.len() == 0,
            !r.ioq.io_given,
    {
        let mut table: Vec<PortQueue> = Vec::new();
        let mut i: usize = 0;
        while i < ports
            invariant
                i <= ports,
                table@.len() == i,
                forall|k: int| 0 <= k < i ==> (#[trigger] table@[k]).port == INVALID_PORT,
                forall|k: int| 0 <= k < i ==> (#[trigger] table@[k]).to_task@.len() == 0,
                forall|k: int| 0 <= k < i ==> (#[trigger] table@[k]).to_dispatch@.len() == 0,
            decreases ports - i,
        {
            table.push(
                PortQueue { port: INVALID_PORT, to_task: Vec::new(), to_dispatch: Vec::new() },
            );
            i += 1;
        }
        Dispatch { ports: table, ioq: IoQueue::new(), own_addr: INVALID_OWN_ADDR, shame: Vec::new() }
    }

    /// Record this node's bus address.
    pub fn set_addr(&mut self, addr: u8)
        ensures
            *final(self) == (Dispatch { own_addr: addr, ..*old(self) }),
    {
        self.own_addr = addr;
    }

    /// This node's bus address, if one is assigned.
    pub fn get_addr(&self) -> (r: Option<u8>)
        ensures
            r == (if self.own_addr == INVALID_OWN_ADDR {
                Option::<u8>::None
            } else {
                Some(self.own_addr)
            }),
    {
        if self.own_addr == INVALID_OWN_ADDR {
            None
        } else {
            Some(self.own_addr)
        }
    }

    /// Hand out the line driver's handle; succeeds only the first time.
    pub fn take_io_handle(&mut self) -> (r: Option<IoHandle>)
        ensures
            r is Some <==> !old(self).ioq.io_given,
            final(self).ioq.io_given,
            *final(self) == (Dispatch {
                ioq: IoQueue { io_given: true, ..old(self).ioq },
                ..*old(self)
            }),
    {
        if self.ioq.io_given {
            None
        } else {
            self.ioq.io_given = true;
            Some(IoHandle { token: () })
        }
    }

    /// The first free slot, if any.
    pub open spec fn first_free_slot(self) -> Option<int> {
        first_slot_with(self.ports@, INVALID_PORT, 0)
    }

    /// Register `port` and receive a socket for it. Returns `None` exactly
    /// when the port is zero, already registered, or no slot is free. On
    /// success the first free slot now carries `port`, and the socket
    /// names that slot; discovery and token sockets may authorize sends.
    pub fn register_port(&mut self, port: u16) -> (r: Option<DispatchSocket>)
        requires
            old(self).wf(),
        ensures
            final(self).wf(),
            r is None <==> (port == INVALID_PORT || (exists|i: int|
                0 <= i < old(self).ports@.len() && (#[trigger] old(self).ports@[i]).port == port)
                || old(self).first_free_slot() is None),
            r is None ==> *final(self) == *old(self),
            r matches Some(s) ==> {
                &&& old(self).first_free_slot() matches Some(j)
                &&& s.idx == j
                &&& s.port == port
                &&& s.has_auth == (port == crate::dom::DISCOVERY_PORT || port
                    == crate::dom::TOKEN_PORT)
                &&& final(self).ports@ == old(self).ports@.update(
                    j,
                    PortQueue { port, ..old(self).ports@[j] },
                )
                &&& *final(self) == (Dispatch { ports: final(self).ports, ..*old(self) })
                &&& final(self).valid_socket(s)
            },
    {
        if port == INVALID_PORT {
            return None;
        }
        let mut i: usize = 0;
        while i < self.ports.len()
            invariant
                *self == *old(self),
                old(self).wf(),
                i <= self.ports@.len(),
                forall|k: int| 0 <= k < i ==> (#[trigger] self.ports@[k]).port != port,
            decreases self.ports@.len() - i,
        {
            if self.ports[i].port == port {
                return None;
            }
            i += 1;
        }
        let has_auth = port == crate::dom::DISCOVERY_PORT || port == crate::dom::TOKEN_PORT;
        let mut j: usize = 0;
        while j < self.ports.len()
            invariant
                *self == *old(self),
                old(self).wf(),
                port != INVALID_PORT,
                has_auth == (port == crate::dom::DISCOVERY_PORT || port == crate::dom::TOKEN_PORT),
                forall|k: int|
                    0 <= k < self.ports@.len() ==> (#[trigger] self.ports@[k]).port != port,
                j <= self.ports@.len(),
                forall|k: int| 0 <= k < j ==> (#[trigger] self.ports@[k]).port != INVALID_PORT,
                first_slot_with(self.ports@, INVALID_PORT, 0) == first_slot_with(
                    self.ports@,
                    INVALID_PORT,
                    j as int,
                ),
            decreases self.ports@.len() - j,
        {
            if self.ports[j].port == INVALID_PORT {
                let slot = &mut self.ports[j];
                slot.port = port;
                proof {
                    assert(self.ports@ =~= old(self).ports@.update(
                        j as int,
                        PortQueue { port, ..old(self).ports@[j as int] },
                    ));
                }
                return Some(DispatchSocket { idx: j, port, has_auth });
            }
            j += 1;
        }
        None
    }
}

/// The least index `k >= from` whose slot carries `port`.
pub open spec fn first_slot_with(ports: Seq<PortQueue>, port: u16, from: int) -> Option<int>
    decreases ports.len() - from,
{
    if from < 0 || from >= ports.len() {
        None
    } else if ports[from].port == port {
        Some(from)
    } else {
        first_slot_with(ports, port, from + 1)
    }
}

/// Is this frame addressed to us: broadcast, or exactly our own address.
pub open spec fn dst_ok(dst_addr: Seq<u8>, own: u8) -> bool {
    match local_addr_of(dst_addr) {
        Some(d) => d == LOCAL_BROADCAST_ADDR || d == own,
        None => false,
    }
}

/// Is this frame's source acceptable for our role: the Dom accepts any
/// local source that is neither broadcast nor the Dom itself; a Sub accepts
/// only the Dom.
pub open spec fn src_ok(src_addr: Seq<u8>, own: u8) -> bool {
    match local_addr_of(src_addr) {
        Some(s) => {
            if own == LOCAL_DOM_ADDR {
                s != LOCAL_BROADCAST_ADDR && s != LOCAL_DOM_ADDR
            } else {
                s == LOCAL_DOM_ADDR
            }
        },
        None => false,
    }
}

/// What a received chunk holds once un-stuffed and parsed as a frame body.
pub open spec fn incoming_parsed(slab: BSlab, tsb: TimeStampBox) -> Option<
    (crate::wire::LineModel, int, int),
> {
    match cobs_dec(slab.chunk_bytes(tsb.packet.idx as int).subrange(0, tsb.len as int)) {
        Some(dec) => parse_line(dec),
        None => None,
    }
}

/// The incoming pipeline's exact verdict on a received frame: the port slot
/// it is delivered to, or the reason it is dropped.
pub open spec fn incoming_verdict(d: Dispatch, slab: BSlab, tsb: TimeStampBox) -> Result<
    int,
    ProcessMessageError,
> {
    match cobs_dec(slab.chunk_bytes(tsb.packet.idx as int).subrange(0, tsb.len as int)) {
        None => Err(ProcessMessageError::Cobs),
        Some(dec) => match parse_line(dec) {
            None => Err(ProcessMessageError::Deser),
            Some((m, off, con)) => {
                if !dst_ok(m.dst_addr, d.own_addr) {
                    Err(ProcessMessageError::DestAddr)
                } else if !src_ok(m.src_addr, d.own_addr) {
                    Err(ProcessMessageError::SrcAddr)
                } else {
                    match first_slot_with(d.ports@, m.dst_port, 0) {
                        None => Err(ProcessMessageError::DestPort),
                        Some(j) => {
                            if m.payload.len() == 0 {
                                Err(ProcessMessageError::ReRoot)
                            } else if d.ports@[j].to_task@.len() >= TASK_QUEUE_DEPTH {
                                Err(ProcessMessageError::TaskQueueFull)
                            } else {
                                Ok(j)
                            }
                        },
                    }
                }
            },
        },
    }
}

/// A found slot carries the searched port, and no earlier slot does.
pub proof fn lemma_first_slot_with(ports: Seq<PortQueue>, port: u16, from: int)
    ensures
        first_slot_with(ports, port, from) matches Some(j) ==> from <= j < ports.len()
            && ports[j].port == port && (forall|k: int|
            from <= k < j ==> (#[trigger] ports[k]).port != port),
        first_slot_with(ports, port, from) is None && 0 <= from ==> (forall|k: int|
            from <= k < ports.len() ==> (#[trigger] ports[k]).port != port),
    decreases ports.len() - from,
{
    if 0 <= from < ports.len() && ports[from].port != port {
        lemma_first_slot_with(ports, port, from + 1);
    }
}

/// No frame is ever delivered to a port slot whose registered number
/// differs from the frame's destination port: a delivered frame's slot
/// carries exactly the parsed destination port, and the frame passed both
/// address filters.
pub proof fn lemma_delivered_frame_matches_port(
    d: Dispatch,
    slab: BSlab,
    tsb: TimeStampBox,
    j: int,
)
    requires
        incoming_verdict(d, slab, tsb) == Ok::<int, ProcessMessageError>(j),
    ensures
        incoming_parsed(slab, tsb) matches Some((m, off, con)) && 0 <= j < d.ports@.len()
            && d.ports@[j].port == m.dst_port && dst_ok(m.dst_addr, d.own_addr) && src_ok(
            m.src_addr,
            d.own_addr,
        ),
{
    let (m, off, con) = incoming_parsed(slab, tsb).unwrap();
    lemma_first_slot_with(d.ports@, m.dst_port, 0);
}

/// A Sub never accepts a frame whose source address is not the Dom: if an
/// unassigned or Sub node delivered a frame, its source was exactly the
/// Dom's address.
pub proof fn lemma_sub_accepts_only_dom(d: Dispatch, slab: BSlab, tsb: TimeStampBox, j: int)
    requires
        d.own_addr != LOCAL_DOM_ADDR,
        incoming_verdict(d, slab, tsb) == Ok::<int, ProcessMessageError>(j),
    ensures
        incoming_parsed(slab, tsb) matches Some((m, off, con)) && local_addr_of(m.src_addr)
            == Some(LOCAL_DOM_ADDR),
{
}

/// A Dom never accepts a frame whose source address is broadcast or the
/// Dom itself: if the Dom delivered a frame, its source was a plain local
/// address other than those two.
pub proof fn lemma_dom_rejects_dom_and_broadcast(d: Dispatch, slab: BSlab, tsb: TimeStampBox, j: int)
    requires
        d.own_addr == LOCAL_DOM_ADDR,
        incoming_verdict(d, slab, tsb) == Ok::<int, ProcessMessageError>(j),
    ensures
        incoming_parsed(slab, tsb) matches Some((m, off, con)) && (local_addr_of(m.src_addr)
            matches Some(s) && s != LOCAL_BROADCAST_ADDR && s != LOCAL_DOM_ADDR),
{
}

impl Dispatch {
    /// The first slot registered as `port`, if any.
    pub fn find_port(&self, port: u16) -> (r: Option<usize>)
        ensures
            match first_slot_with(self.ports@, port, 0) {
                None => r is None,
                Some(j) => r matches Some(jj) && jj == j,
            },
    {
        let mut j: usize = 0;
        while j < self.ports.len()
            invariant
                j <= self.ports@.len(),
                first_slot_with(self.ports@, port, 0) == first_slot_with(
                    self.ports@,
                    port,
                    j as int,
                ),
            decreases self.ports@.len() - j,
        {
            if self.ports[j].port == port {
                return Some(j);
            }
            j += 1;
        }
        None
    }

    /// The incoming pipeline: un-stuff the frame in its chunk, parse it,
    /// apply the destination and source filters, find the destination
    /// port, re-root the payload to the chunk, and deliver it into that
    /// port's inbox. The outcome is exactly [`incoming_verdict`]; a dropped
    /// frame frees its chunk, a delivered one leaves the chunk owned by
    /// the queued packet.
    #[verifier::rlimit(100)]
    pub fn process_one_incoming(&mut self, slab: &mut BSlab, tsb: TimeStampBox) -> (r: Result<
        (),
        ProcessMessageError,
    >)
        requires
            old(self).wf(),
            old(slab).wf(),
            old(slab).valid_box(tsb.packet),
            tsb.len <= old(slab).sz,
        ensures
            final(self).wf(),
            final(slab).wf(),
            final(slab).n == old(slab).n,
            final(slab).sz == old(slab).sz,
            final(slab).initialized(),
            final(self).own_addr == old(self).own_addr,
            final(self).ioq == old(self).ioq,
            final(self).shame == old(self).shame,
            final(self).ports@.len() == old(self).ports@.len(),
            forall|q: int|
                0 <= q < old(self).ports@.len() ==> (#[trigger] final(self).ports@[q]).port == old(self).ports@[q].port,
            forall|q: int|
                0 <= q < old(self).ports@.len() ==> (#[trigger] final(self).ports@[q]).to_dispatch
                    == old(self).ports@[q].to_dispatch,
            forall|i: int|
                0 <= i < old(slab).num_chunks() && i != tsb.packet.idx ==> final(slab).rc(i) == old(
                    slab,
                ).rc(i),
            forall|i: int|
                0 <= i < old(slab).num_chunks() && i != tsb.packet.idx ==> final(slab).chunk_bytes(
                    i,
                ) == old(slab).chunk_bytes(i),
            match incoming_verdict(*old(self), *old(slab), tsb) {
                Err(e) => {
                    &&& r == Err::<(), ProcessMessageError>(e)
                    &&& *final(self) == *old(self)
                    &&& final(slab).rc(tsb.packet.idx as int) == 0
                    &&& final(slab).free@ == old(slab).free@.push(tsb.packet.idx)
                },
                Ok(j) => {
                    &&& r is Ok
                    &&& incoming_parsed(*old(slab), tsb) matches Some((m, off, con))
                    &&& final(self).ports@.len() == old(self).ports@.len()
                    &&& final(self).ports@ == old(self).ports@.update(
                        j,
                        final(self).ports@[j],
                    )
                    &&& final(self).ports@[j].port == old(self).ports@[j].port
                    &&& final(self).ports@[j].to_dispatch == old(self).ports@[j].to_dispatch
                    &&& final(self).ports@[j].to_task@.len() == old(self).ports@[j].to_task@.len()
                        + 1
                    &&& final(self).ports@[j].to_task@ == old(self).ports@[j].to_task@.push(
                        final(self).ports@[j].to_task@.last(),
                    )
                    &&& {
                        let pkt = final(self).ports@[j].to_task@.last();
                        &&& pkt.hdr.src.addr@ == m.src_addr
                        &&& pkt.hdr.src.port == m.src_port
                        &&& pkt.hdr.dst.addr@ == m.dst_addr
                        &&& pkt.hdr.dst.port == m.dst_port
                        &&& pkt.hdr.tick == tsb.tick
                        &&& pkt.response_wait_ticks is None
                        &&& pkt.payload matches ManagedArcSlab::Owned(ssa)
                        &&& ssa.arc.idx == tsb.packet.idx
                        &&& ssa.start == off
                        &&& ssa.len == m.payload.len()
                        &&& final(slab).valid_managed(pkt.payload)
                        &&& final(slab).managed_bytes(pkt.payload) == m.payload
                    }
                    &&& final(slab).rc(tsb.packet.idx as int) == 1
                    &&& final(slab).free@ == old(slab).free@
                },
            },
    {
        let ghost verdict = incoming_verdict(*old(self), *old(slab), tsb);
        let TimeStampBox { packet, len, tick } = tsb;
        let raw = slab.box_prefix_to_vec(&packet, len);
        let dec = match decode_frame(&raw) {
            Ok(d) => d,
            Err(()) => {
                slab.drop_box(packet);
                return Err(ProcessMessageError::Cobs);
            },
        };
        slab.box_copy_from_slice(&packet, 0, &dec);
        let arc = packet.into_arc(slab);
        let key = arc.rerooter_key(slab);
        let (h, off, pl) = match decode_line_message(&dec) {
            Ok(x) => x,
            Err(()) => {
                slab.drop_arc(arc);
                return Err(ProcessMessageError::Deser);
            },
        };
        let ghost gh = h;
        let own_addr = self.own_addr;
        let dst_good = match h.dst.addr.get_exact_local_addr() {
            Some(d) => d == LOCAL_BROADCAST_ADDR || d == own_addr,
            None => false,
        };
        if !dst_good {
            slab.drop_arc(arc);
            return Err(ProcessMessageError::DestAddr);
        }
        let src_good = match h.src.addr.get_exact_local_addr() {
            Some(s) => {
                if own_addr == LOCAL_DOM_ADDR {
                    s != LOCAL_BROADCAST_ADDR && s != LOCAL_DOM_ADDR
                } else {
                    s == LOCAL_DOM_ADDR
                }
            },
            None => false,
        };
        if !src_good {
            slab.drop_arc(arc);
            return Err(ProcessMessageError::SrcAddr);
        }
        let j = match self.find_port(h.dst.port) {
            Some(j) => j,
            None => {
                slab.drop_arc(arc);
                return Err(ProcessMessageError::DestPort);
            },
        };
        proof {
            lemma_first_slot_with(self.ports@, h.dst.port, 0);
        }
        let borrowed = ManagedArcSlab::Borrowed { addr: key.start + off, len: pl };
        proof {
            crate::managed::lemma_borrow_in_key(*slab, key, off as int, pl as int);
        }
        let payload = match borrowed.reroot_with_key(&key, slab) {
            Some(p) => p,
            None => {
                slab.drop_arc(arc);
                return Err(ProcessMessageError::ReRoot);
            },
        };
        if self.ports[j].to_task.len() >= TASK_QUEUE_DEPTH {
            match payload {
                ManagedArcSlab::Owned(ssa) => slab.drop_slice(ssa),
                ManagedArcSlab::Borrowed { .. } => {},
            }
            slab.drop_arc(arc);
            return Err(ProcessMessageError::TaskQueueFull);
        }
        let pkt = LocalPacket {
            hdr: LocalHeader { src: h.src, dst: h.dst, tick },
            payload,
            response_wait_ticks: None,
        };
        let slot = &mut self.ports[j];
        slot.to_task.push(pkt);
        slab.drop_arc(arc);
        proof {
            assert(self.ports@ =~= old(self).ports@.update(j as int, self.ports@[j as int]));
            assert(slab.free@ =~= old(slab).free@);
        }
        Ok(())
    }
}

impl Dispatch {
    /// Queue a packet on the socket's outbox. Fails, handing the packet
    /// back, exactly when the outbox is full.
    pub fn try_send(&mut self, sock: &DispatchSocket, pkt: LocalPacket) -> (r: Result<
        (),
        LocalPacket,
    >)
        requires
            old(self).wf(),
            old(self).valid_socket(*sock),
        ensures
            final(self).wf(),
            final(self).valid_socket(*sock),
            r is Ok <==> old(self).ports@[sock.idx as int].to_dispatch@.len() < TASK_QUEUE_DEPTH,
            r matches Err(p) ==> p == pkt && *final(self) == *old(self),
            r is Ok ==> final(self).ports@ == old(self).ports@.update(
                sock.idx as int,
                PortQueue {
                    to_dispatch: final(self).ports@[sock.idx as int].to_dispatch,
                    ..old(self).ports@[sock.idx as int]
                },
            ) && final(self).ports@[sock.idx as int].to_dispatch@ == old(self).ports@[
                sock.idx as int
            ].to_dispatch@.push(pkt) && *final(self) == (Dispatch {
                ports: final(self).ports,
                ..*old(self)
            }),
    {
        if self.ports[sock.idx].to_dispatch.len() < TASK_QUEUE_DEPTH {
            let slot = &mut self.ports[sock.idx];
            slot.to_dispatch.push(pkt);
            proof {
                assert(self.ports@ =~= old(self).ports@.update(
                    sock.idx as int,
                    self.ports@[sock.idx as int],
                ));
            }
            Ok(())
        } else {
            Err(pkt)
        }
    }

    /// Queue a packet and authorize one send. Fails, handing the packet
    /// back, exactly when the socket cannot authorize or the outbox is
    /// full.
    pub fn try_send_authd(&mut self, sock: &DispatchSocket, pkt: LocalPacket) -> (r: Result<
        (),
        LocalPacket,
    >)
        requires
            old(self).wf(),
            old(self).valid_socket(*sock),
        ensures
            final(self).wf(),
            final(self).valid_socket(*sock),
            r is Ok <==> (sock.has_auth && old(self).ports@[sock.idx as int].to_dispatch@.len()
                < TASK_QUEUE_DEPTH),
            r matches Err(p) ==> p == pkt && *final(self) == *old(self),
            r is Ok ==> final(self).ports@[sock.idx as int].to_dispatch@ == old(self).ports@[
                sock.idx as int
            ].to_dispatch@.push(pkt) && final(self).ioq.io_auth.io_send_auth && *final(self)
                == (Dispatch {
                ports: final(self).ports,
                ioq: IoQueue {
                    io_auth: IoAuth { io_send_auth: true, ..old(self).ioq.io_auth },
                    ..old(self).ioq
                },
                ..*old(self)
            }) && final(self).ports@ == old(self).ports@.update(
                sock.idx as int,
                PortQueue {
                    to_dispatch: final(self).ports@[sock.idx as int].to_dispatch,
                    ..old(self).ports@[sock.idx as int]
                },
            ),
    {
        if !sock.has_auth {
            return Err(pkt);
        }
        match self.try_send(sock, pkt) {
            Ok(()) => {
                self.ioq.io_auth.enable_one_send();
                Ok(())
            },
            Err(p) => Err(p),
        }
    }

    /// Pop the next delivered packet from the socket's inbox, if any.
    pub fn try_recv(&mut self, sock: &DispatchSocket) -> (r: Option<LocalPacket>)
        requires
            old(self).wf(),
            old(self).valid_socket(*sock),
        ensures
            final(self).wf(),
            final(self).valid_socket(*sock),
            r is None <==> old(self).ports@[sock.idx as int].to_task@.len() == 0,
            r is None ==> *final(self) == *old(self),
            r matches Some(p) ==> p == old(self).ports@[sock.idx as int].to_task@[0]
                && final(self).ports@[sock.idx as int].to_task@ == old(self).ports@[
                sock.idx as int
            ].to_task@.subrange(
                1,
                old(self).ports@[sock.idx as int].to_task@.len() as int,
            ) && final(self).ports@ == old(self).ports@.update(
                sock.idx as int,
                PortQueue {
                    to_task: final(self).ports@[sock.idx as int].to_task,
                    ..old(self).ports@[sock.idx as int]
                },
            ) && *final(self) == (Dispatch { ports: final(self).ports, ..*old(self) }),
    {
        if self.ports[sock.idx].to_task.len() == 0 {
            None
        } else {
            let slot = &mut self.ports[sock.idx];
            let p = slot.to_task.remove(0);
            proof {
                assert(self.ports@ =~= old(self).ports@.update(
                    sock.idx as int,
                    self.ports@[sock.idx as int],
                ));
            }
            Some(p)
        }
    }

    /// Request a drain of pending outgoing frames before the next send.
    /// Fails exactly when the socket cannot authorize.
    pub fn auth_flush(&mut self, sock: &DispatchSocket) -> (r: Result<(), ()>)
        ensures
            r is Ok <==> sock.has_auth,
            r is Err ==> *final(self) == *old(self),
            r is Ok ==> *final(self) == (Dispatch {
                ioq: IoQueue {
                    io_auth: IoAuth { io_flush_auth: true, ..old(self).ioq.io_auth },
                    ..old(self).ioq
                },
                ..*old(self)
            }),
    {
        if sock.has_auth {
            self.ioq.io_auth.io_flush_auth = true;
            Ok(())
        } else {
            Err(())
        }
    }

    /// Authorize one send. Fails exactly when the socket cannot authorize.
    pub fn auth_send(&mut self, sock: &DispatchSocket) -> (r: Result<(), ()>)
        ensures
            r is Ok <==> sock.has_auth,
            r is Err ==> *final(self) == *old(self),
            r is Ok ==> *final(self) == (Dispatch {
                ioq: IoQueue {
                    io_auth: IoAuth { io_send_auth: true, ..old(self).ioq.io_auth },
                    ..old(self).ioq
                },
                ..*old(self)
            }),
    {
        if sock.has_auth {
            self.ioq.io_auth.enable_one_send();
            Ok(())
        } else {
            Err(())
        }
    }

    /// Clear the empty mark before waiting for the line driver to drain.
    /// Fails exactly when the socket cannot authorize.
    pub fn clear_empty(&mut self, sock: &DispatchSocket) -> (r: Result<(), ()>)
        ensures
            r is Ok <==> sock.has_auth,
            r is Err ==> *final(self) == *old(self),
            r is Ok ==> *final(self) == (Dispatch {
                ioq: IoQueue {
                    io_auth: IoAuth { io_empty_auth: false, ..old(self).ioq.io_auth },
                    ..old(self).ioq
                },
                ..*old(self)
            }),
    {
        if sock.has_auth {
            self.ioq.io_auth.io_empty_auth = false;
            Ok(())
        } else {
            Err(())
        }
    }

    /// Consume the empty mark: whether the line driver reported its queues
    /// empty since the mark was last cleared. Fails exactly when the
    /// socket cannot authorize.
    pub fn is_empty(&mut self, sock: &DispatchSocket) -> (r: Result<bool, ()>)
        ensures
            r is Ok <==> sock.has_auth,
            r is Err ==> *final(self) == *old(self),
            r matches Ok(b) ==> b == old(self).ioq.io_auth.io_empty_auth && *final(self)
                == (Dispatch {
                ioq: IoQueue {
                    io_auth: IoAuth { io_empty_auth: false, ..old(self).ioq.io_auth },
                    ..old(self).ioq
                },
                ..*old(self)
            }),
    {
        if sock.has_auth {
            let b = self.ioq.io_auth.io_empty_auth;
            self.ioq.io_auth.io_empty_auth = false;
            Ok(b)
        } else {
            Err(())
        }
    }

    /// The line driver hands in a received frame. Fails, handing the frame
    /// back, exactly when the inbound queue is full.
    pub fn push_incoming(&mut self, tsb: TimeStampBox) -> (r: Result<(), TimeStampBox>)
        requires
            old(self).wf(),
        ensures
            final(self).wf(),
            r is Ok <==> old(self).ioq.to_dispatch@.len() < IO_QUEUE_DEPTH,
            r matches Err(t) ==> t == tsb && *final(self) == *old(self),
            r is Ok ==> *final(self) == (Dispatch {
                ioq: IoQueue { to_dispatch: final(self).ioq.to_dispatch, ..old(self).ioq },
                ..*old(self)
            }) && final(self).ioq.to_dispatch@ == old(self).ioq.to_dispatch@.push(tsb),
    {
        if self.ioq.to_dispatch.len() < IO_QUEUE_DEPTH {
            self.ioq.to_dispatch.push(tsb);
            Ok(())
        } else {
            Err(tsb)
        }
    }

    /// The line driver takes the next frame to transmit: discovery and
    /// token frames first, then normal traffic, each in order.
    pub fn pop_outgoing(&mut self) -> (r: Option<OutgoingSlab>)
        requires
            old(self).wf(),
        ensures
            final(self).wf(),
            old(self).ioq.to_io_hi_prio@.len() > 0 ==> r is Some && r == Some(
                old(self).ioq.to_io_hi_prio@[0],
            ) && final(self).ioq.to_io_hi_prio@ == old(self).ioq.to_io_hi_prio@.subrange(
                1,
                old(self).ioq.to_io_hi_prio@.len() as int,
            ) && *final(self) == (Dispatch {
                ioq: IoQueue { to_io_hi_prio: final(self).ioq.to_io_hi_prio, ..old(self).ioq },
                ..*old(self)
            }),
            old(self).ioq.to_io_hi_prio@.len() == 0 && old(self).ioq.to_io@.len() > 0 ==> r
                == Some(old(self).ioq.to_io@[0]) && final(self).ioq.to_io@
                == old(self).ioq.to_io@.subrange(1, old(self).ioq.to_io@.len() as int)
                && *final(self) == (Dispatch {
                ioq: IoQueue { to_io: final(self).ioq.to_io, ..old(self).ioq },
                ..*old(self)
            }),
            old(self).ioq.to_io_hi_prio@.len() == 0 && old(self).ioq.to_io@.len() == 0 ==> r
                is None && *final(self) == *old(self),
    {
        if self.ioq.to_io_hi_prio.len() > 0 {
            Some(self.ioq.to_io_hi_prio.remove(0))
        } else if self.ioq.to_io.len() > 0 {
            Some(self.ioq.to_io.remove(0))
        } else {
            None
        }
    }
}

/// The exact frame bytes an outgoing packet produces: the line header with
/// the source rewritten to our own address and the sending port, then the
/// payload, stuffed and terminated.
pub open spec fn outgoing_frame(slab: BSlab, own: u8, port: u16, lp: LocalPacket) -> Seq<u8> {
    frame_of(
        enc_line(
            crate::wire::LineModel {
                src_addr: seq![own],
                src_port: port,
                dst_addr: lp.hdr.dst.addr@,
                dst_port: lp.hdr.dst.port,
                payload: slab.managed_bytes(lp.payload),
            },
        ),
    )
}

/// The chunk index an owned payload holds, if it is owned.
pub open spec fn owned_chunk(m: ManagedArcSlab) -> Option<int> {
    match m {
        ManagedArcSlab::Owned(s) => Some(s.arc.idx as int),
        ManagedArcSlab::Borrowed { .. } => None,
    }
}

impl Dispatch {
    /// The outgoing pipeline: rewrite the source to our own address and
    /// the sending port, encode and stuff the frame into the fresh chunk
    /// `boxy`, and queue it: discovery and token frames to the priority
    /// queue (dropped silently if that queue is full: protocol traffic is
    /// retried by its own state machine), everything else to `to_io`,
    /// stashed in the holding slot
    /// when `to_io` is full. The consumed packet's own chunk is released.
    #[verifier::rlimit(100)]
    pub fn process_one_outgoing(
        &mut self,
        slab: &mut BSlab,
        lp: LocalPacket,
        port: u16,
        boxy: SlabBox,
    ) -> (r: Result<(), ProcessMessageError>)
        requires
            old(self).wf(),
            old(slab).wf(),
            old(slab).valid_box(boxy),
            old(slab).valid_managed(lp.payload),
            owned_chunk(lp.payload) matches Some(c) ==> c != boxy.idx,
        ensures
            final(self).wf(),
            final(slab).wf(),
            final(slab).n == old(slab).n,
            final(slab).sz == old(slab).sz,
            final(slab).initialized(),
            *final(self) == (Dispatch {
                ioq: IoQueue {
                    to_io: final(self).ioq.to_io,
                    to_io_hi_prio: final(self).ioq.to_io_hi_prio,
                    ..old(self).ioq
                },
                shame: final(self).shame,
                ..*old(self)
            }),
            forall|i: int|
                0 <= i < old(slab).num_chunks() && i != boxy.idx && Some(i) != owned_chunk(
                    lp.payload,
                ) ==> final(slab).rc(i) == old(slab).rc(i),
            forall|i: int|
                0 <= i < old(slab).num_chunks() && i != boxy.idx ==> final(slab).chunk_bytes(i)
                    == old(slab).chunk_bytes(i),
            owned_chunk(lp.payload) matches Some(c) ==> final(slab).rc(c) == old(slab).rc(c) - 1,
            ({
                let fr = outgoing_frame(*old(slab), old(self).own_addr, port, lp);
                let hi = port == crate::dom::DISCOVERY_PORT || port == crate::dom::TOKEN_PORT;
                &&& (r == Err::<(), ProcessMessageError>(ProcessMessageError::Ser) <==> fr.len()
                    > old(slab).sz)
                &&& (fr.len() > old(slab).sz ==> final(self).ioq.to_io
                    == old(self).ioq.to_io && final(self).ioq.to_io_hi_prio
                    == old(self).ioq.to_io_hi_prio && final(self).shame == old(self).shame
                    && final(slab).rc(boxy.idx as int) == 0)
                &&& (fr.len() <= old(slab).sz && hi ==> {
                    &&& r is Ok
                    &&& final(self).ioq.to_io == old(self).ioq.to_io
                    &&& final(self).shame == old(self).shame
                    &&& if old(self).ioq.to_io_hi_prio@.len() < IO_QUEUE_DEPTH {
                        &&& final(self).ioq.to_io_hi_prio@.len() == old(self).ioq.to_io_hi_prio@.len() + 1
                        &&& final(self).ioq.to_io_hi_prio@ == old(self).ioq.to_io_hi_prio@.push(final(self).ioq.to_io_hi_prio@.last())
                        &&& queued_frame_ok(
                            final(self).ioq.to_io_hi_prio@.last(),
                            *final(slab),
                            fr,
                            boxy.idx as int,
                            lp.response_wait_ticks,
                        )
                        &&& final(slab).rc(boxy.idx as int) == 1
                    } else {
                        final(self).ioq.to_io_hi_prio == old(self).ioq.to_io_hi_prio
                            && final(slab).rc(boxy.idx as int) == 0
                    }
                })
                &&& (fr.len() <= old(slab).sz && !hi ==> {
                    &&& final(self).ioq.to_io_hi_prio == old(self).ioq.to_io_hi_prio
                    &&& if old(self).ioq.to_io@.len() < IO_QUEUE_DEPTH {
                        &&& r is Ok
                        &&& final(self).shame == old(self).shame
                        &&& final(self).ioq.to_io@ == old(self).ioq.to_io@.push(
                            final(self).ioq.to_io@.last(),
                        )
                        &&& queued_frame_ok(
                            final(self).ioq.to_io@.last(),
                            *final(slab),
                            fr,
                            boxy.idx as int,
                            lp.response_wait_ticks,
                        )
                        &&& final(slab).rc(boxy.idx as int) == 1
                    } else {
                        &&& r == Err::<(), ProcessMessageError>(ProcessMessageError::IoQueueFull)
                        &&& final(self).ioq.to_io == old(self).ioq.to_io
                        &&& if old(self).shame@.len() < SHAME_QUEUE_DEPTH {
                            &&& final(self).shame@ == old(self).shame@.push(
                                final(self).shame@.last(),
                            )
                            &&& queued_frame_ok(
                                final(self).shame@.last(),
                                *final(slab),
                                fr,
                                boxy.idx as int,
                                lp.response_wait_ticks,
                            )
                            &&& final(slab).rc(boxy.idx as int) == 1
                        } else {
                            final(self).shame == old(self).shame && final(slab).rc(
                                boxy.idx as int,
                            ) == 0
                        }
                    }
                })
            }),
    {
        let own_addr = self.own_addr;
        let payload_bytes = slab.managed_to_vec(&lp.payload);
        let hdr = LineHeader {
            src: AddrPort::from_parts(VecAddr::from_local_addr(own_addr), port),
            dst: lp.hdr.dst,
        };
        let line = encode_line_message(&hdr, &payload_bytes);
        let frame = encode_frame(&line);
        let LocalPacket { hdr: _, payload, response_wait_ticks } = lp;
        if frame.len() > slab.size_of_chunk() {
            slab.drop_box(boxy);
            match payload {
                ManagedArcSlab::Owned(ssa) => slab.drop_slice(ssa),
                ManagedArcSlab::Borrowed { .. } => {},
            }
            return Err(ProcessMessageError::Ser);
        }
        let ghost cidx = boxy.idx;
        slab.box_copy_from_slice(&boxy, 0, &frame);
        let arc = boxy.into_arc(slab);
        let flen = frame.len();
        let ssa = match arc.sub_slice_arc(slab, 0, flen) {
            Ok(s) => s,
            Err(()) => {
                // cannot happen: the frame was checked to fit the chunk
                slab.drop_arc(arc);
                match payload {
                    ManagedArcSlab::Owned(p) => slab.drop_slice(p),
                    ManagedArcSlab::Borrowed { .. } => {},
                }
                return Err(ProcessMessageError::Arc);
            },
        };
        let rc_fix = SlabArcFix { idx: ssa.arc.idx };
        rc_fix.settle(slab);
        match payload {
            ManagedArcSlab::Owned(p) => slab.drop_slice(p),
            ManagedArcSlab::Borrowed { .. } => {},
        }
        proof {
            assert(slab.slice_bytes(ssa) =~= frame@);
        }
        let ogs = OutgoingSlab {
            packet: ManagedArcSlab::Owned(ssa),
            receive_ticks_min: response_wait_ticks,
        };
        if port == crate::dom::DISCOVERY_PORT || port == crate::dom::TOKEN_PORT {
            if self.ioq.to_io_hi_prio.len() < IO_QUEUE_DEPTH {
                self.ioq.to_io_hi_prio.push(ogs);
            } else {
                match ogs.packet {
                    ManagedArcSlab::Owned(p) => slab.drop_slice(p),
                    ManagedArcSlab::Borrowed { .. } => {},
                }
            }
            Ok(())
        } else {
            if self.ioq.to_io.len() < IO_QUEUE_DEPTH {
                self.ioq.to_io.push(ogs);
                Ok(())
            } else {
                if self.shame.len() < SHAME_QUEUE_DEPTH {
                    self.shame.push(ogs);
                } else {
                    match ogs.packet {
                        ManagedArcSlab::Owned(p) => slab.drop_slice(p),
                        ManagedArcSlab::Borrowed { .. } => {},
                    }
                }
                Err(ProcessMessageError::IoQueueFull)
            }
        }
    }
}

/// A queued outgoing entry holds exactly the frame bytes, owned in the
/// chunk the frame was written to, with the sender's response window.
pub open spec fn queued_frame_ok(
    o: OutgoingSlab,
    slab: BSlab,
    fr: Seq<u8>,
    chunk: int,
    rx: Option<u32>,
) -> bool {
    &&& o.packet matches ManagedArcSlab::Owned(ssa)
    &&& ssa.arc.idx == chunk
    &&& ssa.start == 0
    &&& ssa.len == fr.len()
    &&& slab.valid_managed(o.packet)
    &&& slab.managed_bytes(o.packet) == fr
    &&& o.receive_ticks_min == rx
}


/// What one dispatcher tick reports back as ghost evidence: the inbound
/// drain, step by step, and the outbound scan, step by step.
pub struct DispatchTrace {
    /// The states walked by the inbound drain; consecutive entries are
    /// related by [`routes_one_incoming`].
    pub routed: Seq<(Dispatch, BSlab)>,
    /// The states and port indices walked by the outbound scan;
    /// consecutive entries are related by [`sends_one_outgoing`].
    pub sent: Seq<(Dispatch, BSlab, int)>,
}

/// The holding-slot step between the drain and the port scan: with no
/// stranded frame nothing changes; with one, and room, the stranded frame
/// moves to the back of `to_io` and leaves the holding slot.
pub open spec fn shame_phase_ok(
    orig: Dispatch,
    mid: (Dispatch, BSlab),
    first: (Dispatch, BSlab, int),
) -> bool {
    &&& first.2 == 0
    &&& first.1 == mid.1
    &&& first.0.ports == mid.0.ports
    &&& first.0.own_addr == mid.0.own_addr
    &&& first.0.ioq.to_dispatch == mid.0.ioq.to_dispatch
    &&& first.0.ioq.to_io_hi_prio == mid.0.ioq.to_io_hi_prio
    &&& first.0.ioq.io_given == mid.0.ioq.io_given
    &&& first.0.ioq.io_auth == mid.0.ioq.io_auth
    &&& if orig.shame@.len() == 0 {
        first.0.ioq.to_io == mid.0.ioq.to_io && first.0.shame == mid.0.shame
    } else {
        &&& first.0.ioq.to_io@ == mid.0.ioq.to_io@.push(orig.shame@[0])
        &&& first.0.shame@ == orig.shame@.subrange(1, orig.shame@.len() as int)
    }
}

/// One step of the outbound scan: either the current port's outbox is
/// empty and the scan moves to the next slot, or its front packet is
/// encoded into the pool's next free chunk and queued exactly as
/// [`Dispatch::process_one_outgoing`] rules.
pub open spec fn sends_one_outgoing(pre: (Dispatch, BSlab, int), post: (Dispatch, BSlab, int)) -> bool {
    let pre_d = pre.0;
    let pre_s = pre.1;
    let pp = pre.2;
    let post_d = post.0;
    let post_s = post.1;
    &&& 0 <= pp < pre_d.ports@.len()
    &&& if pre_d.ports@[pp].to_dispatch@.len() == 0 {
        post == (pre.0, pre.1, pp + 1)
    } else {
        let msg = pre_d.ports@[pp].to_dispatch@[0];
        let port = pre_d.ports@[pp].port;
        let f = pre_s.free@[0] as int;
        let fr = outgoing_frame(pre_s, pre_d.own_addr, port, msg);
        let hi = port == crate::dom::DISCOVERY_PORT || port == crate::dom::TOKEN_PORT;
        &&& post.2 == pp
        &&& pre_s.initialized()
        &&& pre_s.free@.len() > 0
        &&& post_d.ports@.len() == pre_d.ports@.len()
        &&& post_d.ports@ == pre_d.ports@.update(pp, post_d.ports@[pp])
        &&& post_d.ports@[pp].port == port
        &&& post_d.ports@[pp].to_task == pre_d.ports@[pp].to_task
        &&& post_d.ports@[pp].to_dispatch@ == pre_d.ports@[pp].to_dispatch@.subrange(
            1,
            pre_d.ports@[pp].to_dispatch@.len() as int,
        )
        &&& post_d.own_addr == pre_d.own_addr
        &&& post_d.ioq.to_dispatch == pre_d.ioq.to_dispatch
        &&& post_d.ioq.io_given == pre_d.ioq.io_given
        &&& post_d.ioq.io_auth == pre_d.ioq.io_auth
        &&& post_s.n == pre_s.n
        &&& post_s.sz == pre_s.sz
        &&& post_s.initialized()
        &&& forall|i: int|
            0 <= i < pre_s.num_chunks() && i != f && Some(i) != owned_chunk(msg.payload)
                ==> post_s.rc(i) == pre_s.rc(i)
        &&& forall|i: int|
            0 <= i < pre_s.num_chunks() && i != f ==> post_s.chunk_bytes(i) == pre_s.chunk_bytes(i)
        &&& (owned_chunk(msg.payload) matches Some(c) ==> (c == f || post_s.rc(c) == pre_s.rc(c)
            - 1))
        &&& (fr.len() > pre_s.sz ==> (post_d.ioq.to_io == pre_d.ioq.to_io
            && post_d.ioq.to_io_hi_prio == pre_d.ioq.to_io_hi_prio && post_d.shame == pre_d.shame
            && post_s.rc(f) == 0))
        &&& (fr.len() <= pre_s.sz && hi ==> {
            &&& post_d.ioq.to_io == pre_d.ioq.to_io
            &&& post_d.shame == pre_d.shame
            &&& if pre_d.ioq.to_io_hi_prio@.len() < IO_QUEUE_DEPTH {
                &&& post_d.ioq.to_io_hi_prio@ == pre_d.ioq.to_io_hi_prio@.push(
                    post_d.ioq.to_io_hi_prio@.last(),
                )
                &&& queued_frame_ok(
                    post_d.ioq.to_io_hi_prio@.last(),
                    post_s,
                    fr,
                    f,
                    msg.response_wait_ticks,
                )
                &&& post_s.rc(f) == 1
            } else {
                post_d.ioq.to_io_hi_prio == pre_d.ioq.to_io_hi_prio && post_s.rc(f) == 0
            }
        })
        &&& (fr.len() <= pre_s.sz && !hi ==> {
            &&& post_d.ioq.to_io_hi_prio == pre_d.ioq.to_io_hi_prio
            &&& if pre_d.ioq.to_io@.len() < IO_QUEUE_DEPTH {
                &&& post_d.shame == pre_d.shame
                &&& post_d.ioq.to_io@ == pre_d.ioq.to_io@.push(post_d.ioq.to_io@.last())
                &&& queued_frame_ok(
                    post_d.ioq.to_io@.last(),
                    post_s,
                    fr,
                    f,
                    msg.response_wait_ticks,
                )
                &&& post_s.rc(f) == 1
            } else {
                &&& post_d.ioq.to_io == pre_d.ioq.to_io
                &&& if pre_d.shame@.len() < SHAME_QUEUE_DEPTH {
                    &&& post_d.shame@ == pre_d.shame@.push(post_d.shame@.last())
                    &&& queued_frame_ok(
                        post_d.shame@.last(),
                        post_s,
                        fr,
                        f,
                        msg.response_wait_ticks,
                    )
                    &&& post_s.rc(f) == 1
                } else {
                    post_d.shame == pre_d.shame && post_s.rc(f) == 0
                }
            }
        })
    }
}

/// The scan stops after this send step because the packet could not be
/// queued: the frame outgrew a chunk, or `to_io` was full for a
/// normal-priority frame.
pub open spec fn send_step_failed(pre: (Dispatch, BSlab, int)) -> bool {
    let pre_d = pre.0;
    let pre_s = pre.1;
    let pp = pre.2;
    &&& 0 <= pp < pre_d.ports@.len()
    &&& pre_d.ports@[pp].to_dispatch@.len() > 0
    &&& {
        let msg = pre_d.ports@[pp].to_dispatch@[0];
        let port = pre_d.ports@[pp].port;
        let fr = outgoing_frame(pre_s, pre_d.own_addr, port, msg);
        let hi = port == crate::dom::DISCOVERY_PORT || port == crate::dom::TOKEN_PORT;
        fr.len() > pre_s.sz || (!hi && fr.len() <= pre_s.sz && pre_d.ioq.to_io@.len()
            >= IO_QUEUE_DEPTH)
    }
}

/// One routing step of the dispatcher's inbound drain: `post` is `pre`
/// with the front received frame popped and handled exactly as
/// [`incoming_verdict`] rules — delivered into the matching port's inbox
/// in queue order, or dropped with its chunk freed. Everything else is
/// untouched.
pub open spec fn routes_one_incoming(
    pre_d: Dispatch,
    pre_s: BSlab,
    post_d: Dispatch,
    post_s: BSlab,
) -> bool {
    let tsb = pre_d.ioq.to_dispatch@[0];
    let c = tsb.packet.idx as int;
    &&& pre_d.ioq.to_dispatch@.len() > 0
    &&& post_d.ioq.to_dispatch@ == pre_d.ioq.to_dispatch@.subrange(
        1,
        pre_d.ioq.to_dispatch@.len() as int,
    )
    &&& post_d.ioq.to_io == pre_d.ioq.to_io
    &&& post_d.ioq.to_io_hi_prio == pre_d.ioq.to_io_hi_prio
    &&& post_d.ioq.io_given == pre_d.ioq.io_given
    &&& post_d.ioq.io_auth == pre_d.ioq.io_auth
    &&& post_d.shame == pre_d.shame
    &&& post_d.own_addr == pre_d.own_addr
    &&& post_s.n == pre_s.n
    &&& post_s.sz == pre_s.sz
    &&& post_s.initialized()
    &&& forall|i: int|
        0 <= i < pre_s.num_chunks() && i != c ==> post_s.rc(i) == pre_s.rc(i)
    &&& forall|i: int|
        0 <= i < pre_s.num_chunks() && i != c ==> post_s.chunk_bytes(i) == pre_s.chunk_bytes(i)
    &&& match incoming_verdict(pre_d, pre_s, tsb) {
        Err(e) => {
            &&& post_d.ports == pre_d.ports
            &&& post_s.rc(c) == 0
            &&& post_s.free@ == pre_s.free@.push(tsb.packet.idx)
        },
        Ok(j) => {
            &&& incoming_parsed(pre_s, tsb) matches Some((m, off, con))
            &&& post_d.ports@.len() == pre_d.ports@.len()
            &&& post_d.ports@ == pre_d.ports@.update(j, post_d.ports@[j])
            &&& post_d.ports@[j].port == pre_d.ports@[j].port
            &&& post_d.ports@[j].to_dispatch == pre_d.ports@[j].to_dispatch
            &&& post_d.ports@[j].to_task@.len() == pre_d.ports@[j].to_task@.len() + 1
            &&& post_d.ports@[j].to_task@ == pre_d.ports@[j].to_task@.push(
                post_d.ports@[j].to_task@.last(),
            )
            &&& {
                let pkt = post_d.ports@[j].to_task@.last();
                &&& pkt.hdr.src.addr@ == m.src_addr
                &&& pkt.hdr.src.port == m.src_port
                &&& pkt.hdr.dst.addr@ == m.dst_addr
                &&& pkt.hdr.dst.port == m.dst_port
                &&& pkt.hdr.tick == tsb.tick
                &&& pkt.response_wait_ticks is None
                &&& pkt.payload matches ManagedArcSlab::Owned(ssa)
                &&& ssa.arc.idx == tsb.packet.idx
                &&& ssa.start == off
                &&& ssa.len == m.payload.len()
                &&& post_s.valid_managed(pkt.payload)
                &&& post_s.managed_bytes(pkt.payload) == m.payload
            }
            &&& post_s.rc(c) == 1
            &&& post_s.free@ == pre_s.free@
        },
    }
}

impl Dispatch {
    /// Everything one dispatcher tick needs of the queued items: each
    /// received frame holds its own chunk exclusively, each queued
    /// outgoing payload is a usable view, and no two of them hold the
    /// same chunk.
    pub open spec fn queues_ready(self, slab: BSlab) -> bool {
        &&& forall|k: int|
            0 <= k < self.ioq.to_dispatch@.len() ==> (slab.valid_box(
                (#[trigger] self.ioq.to_dispatch@[k]).packet,
            ) && self.ioq.to_dispatch@[k].len <= slab.sz)
        &&& forall|p: int, k: int|
            0 <= p < self.ports@.len() && 0 <= k < self.ports@[p].to_dispatch@.len()
                ==> slab.valid_managed((#[trigger] self.ports@[p].to_dispatch@[k]).payload)
        &&& forall|k1: int, k2: int|
            0 <= k1 < k2 < self.ioq.to_dispatch@.len() ==> (#[trigger] self.ioq.to_dispatch@[
                k1
            ]).packet.idx != (#[trigger] self.ioq.to_dispatch@[k2]).packet.idx
        &&& forall|p1: int, k1: int, p2: int, k2: int|
            0 <= p1 < self.ports@.len() && 0 <= k1 < self.ports@[p1].to_dispatch@.len() && 0 <= p2
                < self.ports@.len() && 0 <= k2 < self.ports@[p2].to_dispatch@.len() && (p1 != p2
                || k1 != k2) ==> (match (
                owned_chunk((#[trigger] self.ports@[p1].to_dispatch@[k1]).payload),
                owned_chunk((#[trigger] self.ports@[p2].to_dispatch@[k2]).payload),
            ) {
                (Some(c1), Some(c2)) => c1 != c2,
                _ => true,
            })
        &&& forall|k: int, p: int, j: int|
            0 <= k < self.ioq.to_dispatch@.len() && 0 <= p < self.ports@.len() && 0 <= j
                < self.ports@[p].to_dispatch@.len() ==> Some(
                (#[trigger] self.ioq.to_dispatch@[k]).packet.idx as int,
            ) != owned_chunk((#[trigger] self.ports@[p].to_dispatch@[j]).payload)
    }

    /// One dispatcher tick: drain and route every received frame, then —
    /// unless this node still has no address — hand a stranded frame from
    /// the holding slot to `to_io` first, and then encode and queue the
    /// ports' outgoing packets in ascending slot order. Frames appended to
    /// `to_io` this tick come after everything already there, and the
    /// stranded frame comes first among them; if `to_io` is still full the
    /// stranded frame returns to the holding slot and no outbox is touched
    /// this tick. The returned ghost trace walks both phases step by step,
    /// so the exact fate of every frame is part of the contract.
    #[verifier::rlimit(100)]
    pub fn process_messages(&mut self, slab: &mut BSlab) -> (trace: Ghost<DispatchTrace>)
        requires
            old(self).wf(),
            old(slab).wf(),
            old(self).queues_ready(*old(slab)),
        ensures
            final(self).wf(),
            final(slab).wf(),
            final(slab).n == old(slab).n,
            final(slab).sz == old(slab).sz,
            final(self).ioq.to_dispatch@.len() == 0,
            final(self).own_addr == old(self).own_addr,
            final(self).ports@.len() == old(self).ports@.len(),
            forall|q: int|
                0 <= q < old(self).ports@.len() ==> (#[trigger] final(self).ports@[q]).port == old(self).ports@[q].port,
            // The inbound drain, frame by frame: a chain of routing steps
            // from the starting state, one step per queued frame, ending
            // with the queue empty.
            ({
                let tr = trace@.routed;
                &&& tr.len() == old(self).ioq.to_dispatch@.len() + 1
                &&& tr[0] == (*old(self), *old(slab))
                &&& forall|k: int|
                    0 <= k < tr.len() - 1 ==> routes_one_incoming(
                        (#[trigger] tr[k]).0,
                        tr[k].1,
                        tr[k + 1].0,
                        tr[k + 1].1,
                    )
                &&& tr.last().0.ioq.to_dispatch@.len() == 0
            }),
            // Without an address, the tick ends right after the drain.
            old(self).own_addr == INVALID_OWN_ADDR ==> (*final(self) == trace@.routed.last().0
                && *final(slab) == trace@.routed.last().1),
            // With `to_io` still full, the stranded frame goes back to the
            // holding slot (at its back), and nothing else moves this tick:
            // no port outbox is consumed, no queue towards the line grows.
            (old(self).own_addr != INVALID_OWN_ADDR && old(self).shame@.len() > 0 && old(self).ioq.to_io@.len() >= IO_QUEUE_DEPTH) ==> {
                &&& final(self).ioq.to_io == old(self).ioq.to_io
                &&& final(self).ioq.to_io_hi_prio == old(self).ioq.to_io_hi_prio
                &&& final(self).shame@ == old(self).shame@.subrange(
                    1,
                    old(self).shame@.len() as int,
                ).push(old(self).shame@[0])
                &&& forall|q: int|
                    0 <= q < old(self).ports@.len() ==> (#[trigger] final(self).ports@[q]).to_dispatch == old(self).ports@[q].to_dispatch
                &&& *final(slab) == trace@.routed.last().1
            },
            // Otherwise the outbound scan runs: a chain of scan steps from
            // the post-holding-slot state, each consuming one outbox packet
            // or advancing one slot, ending only when every slot was
            // walked, no chunk was free for an outbox packet, or a packet
            // could not be queued.
            (old(self).own_addr != INVALID_OWN_ADDR && !(old(self).shame@.len() > 0 && old(
                self,
            ).ioq.to_io@.len() >= IO_QUEUE_DEPTH)) ==> ({
                let snt = trace@.sent;
                &&& snt.len() >= 1
                &&& shame_phase_ok(*old(self), trace@.routed.last(), snt[0])
                &&& forall|k: int|
                    0 <= k < snt.len() - 1 ==> sends_one_outgoing(#[trigger] snt[k], snt[k + 1])
                &&& *final(self) == snt.last().0
                &&& *final(slab) == snt.last().1
                &&& (snt.last().2 == final(self).ports@.len()
                    || (snt.last().2 < final(self).ports@.len()
                        && snt.last().0.ports@[snt.last().2].to_dispatch@.len() > 0
                        && !(snt.last().1.initialized() && snt.last().1.free@.len() > 0))
                    || (snt.len() >= 2 && send_step_failed(snt[snt.len() - 2])))
            }),
            old(self).ioq.to_io@.is_prefix_of(final(self).ioq.to_io@),
            (old(self).own_addr != INVALID_OWN_ADDR && old(self).shame@.len() > 0 && final(self).ioq.to_io@.len() > old(self).ioq.to_io@.len()) ==> final(self).ioq.to_io@[old(self).ioq.to_io@.len() as int] == old(self).shame@[0],
    {
        let ghost mut tr: Seq<(Dispatch, BSlab)> = seq![(*self, *slab)];
        let ghost mut snt: Seq<(Dispatch, BSlab, int)> = seq![(*self, *slab, 0int)];
        while self.ioq.to_dispatch.len() > 0
            invariant
                self.wf(),
                slab.wf(),
                slab.n == old(slab).n,
                slab.sz == old(slab).sz,
                self.own_addr == old(self).own_addr,
                self.ioq.to_io == old(self).ioq.to_io,
                self.ioq.to_io_hi_prio == old(self).ioq.to_io_hi_prio,
                self.shame == old(self).shame,
                self.ports@.len() == old(self).ports@.len(),
                forall|q: int|
                    0 <= q < self.ports@.len() ==> (#[trigger] self.ports@[q]).port == old(self).ports@[q].port,
                forall|q: int|
                    0 <= q < self.ports@.len() ==> (#[trigger] self.ports@[q]).to_dispatch == old(self).ports@[q].to_dispatch,
                self.queues_ready(*slab),
                tr.len() >= 1,
                tr.len() + self.ioq.to_dispatch@.len() == old(self).ioq.to_dispatch@.len() + 1,
                tr[0] == (*old(self), *old(slab)),
                tr.last().0 == *self,
                tr.last().1 == *slab,
                forall|k: int|
                    0 <= k < tr.len() - 1 ==> routes_one_incoming(
                        (#[trigger] tr[k]).0,
                        tr[k].1,
                        tr[k + 1].0,
                        tr[k + 1].1,
                    ),
            decreases self.ioq.to_dispatch@.len(),
        {
            let ghost pre_self = *self;
            let ghost pre_slab = *slab;
            let tsb = self.ioq.to_dispatch.remove(0);
            let ghost cidx = tsb.packet.idx as int;
            let ghost mid = pre_self.ioq.to_dispatch@.subrange(
                1,
                pre_self.ioq.to_dispatch@.len() as int,
            );
            proof {
                assert(self.ioq.to_dispatch@ =~= mid);
                assert(tsb == pre_self.ioq.to_dispatch@[0]);
                assert(cidx == pre_self.ioq.to_dispatch@[0].packet.idx as int);
            }
            let _ = self.process_one_incoming(slab, tsb);
            proof {
                assert(self.ioq.to_dispatch@ == mid);
                assert forall|k: int|
                    0 <= k < self.ioq.to_dispatch@.len() implies (slab.valid_box(
                    (#[trigger] self.ioq.to_dispatch@[k]).packet,
                ) && self.ioq.to_dispatch@[k].len <= slab.sz) by {
                    assert(self.ioq.to_dispatch@[k] == pre_self.ioq.to_dispatch@[k + 1]);
                    assert(pre_self.ioq.to_dispatch@[0].packet.idx != pre_self.ioq.to_dispatch@[
                        k + 1
                    ].packet.idx);
                    assert(pre_slab.valid_box(pre_self.ioq.to_dispatch@[k + 1].packet));
                    let bidx = pre_self.ioq.to_dispatch@[k + 1].packet.idx as int;
                    assert(slab.rc(bidx) == pre_slab.rc(bidx));
                }
                assert forall|p: int, k: int|
                    0 <= p < self.ports@.len() && 0 <= k
                        < self.ports@[p].to_dispatch@.len() implies slab.valid_managed(
                    (#[trigger] self.ports@[p].to_dispatch@[k]).payload,
                ) by {
                    assert(self.ports@[p].to_dispatch == pre_self.ports@[p].to_dispatch);
                    assert(Some(cidx) != owned_chunk(pre_self.ports@[p].to_dispatch@[k].payload));
                    assert(pre_slab.valid_managed(pre_self.ports@[p].to_dispatch@[k].payload));
                    match pre_self.ports@[p].to_dispatch@[k].payload {
                        ManagedArcSlab::Owned(ss) => {
                            assert(slab.rc(ss.arc.idx as int) == pre_slab.rc(ss.arc.idx as int));
                        },
                        ManagedArcSlab::Borrowed { .. } => {},
                    }
                }
                assert forall|k1: int, k2: int|
                    0 <= k1 < k2 < self.ioq.to_dispatch@.len() implies (
                #[trigger] self.ioq.to_dispatch@[k1]).packet.idx != (
                #[trigger] self.ioq.to_dispatch@[k2]).packet.idx by {
                    assert(self.ioq.to_dispatch@[k1] == pre_self.ioq.to_dispatch@[k1 + 1]);
                    assert(self.ioq.to_dispatch@[k2] == pre_self.ioq.to_dispatch@[k2 + 1]);
                }
                assert forall|k: int, p: int, j: int|
                    0 <= k < self.ioq.to_dispatch@.len() && 0 <= p < self.ports@.len() && 0 <= j
                        < self.ports@[p].to_dispatch@.len() implies Some(
                    (#[trigger] self.ioq.to_dispatch@[k]).packet.idx as int,
                ) != owned_chunk((#[trigger] self.ports@[p].to_dispatch@[j]).payload) by {
                    assert(self.ioq.to_dispatch@[k] == pre_self.ioq.to_dispatch@[k + 1]);
                    assert(self.ports@[p].to_dispatch == pre_self.ports@[p].to_dispatch);
                }
                assert(self.queues_ready(*slab));
                assert(routes_one_incoming(pre_self, pre_slab, *self, *slab));
                let ghost prev = tr;
                tr = tr.push((*self, *slab));
                assert forall|k: int|
                    0 <= k < tr.len() - 1 implies routes_one_incoming(
                    (#[trigger] tr[k]).0,
                    tr[k].1,
                    tr[k + 1].0,
                    tr[k + 1].1,
                ) by {
                    if k < prev.len() - 1 {
                        assert(tr[k] == prev[k]);
                        assert(tr[k + 1] == prev[k + 1]);
                    } else {
                        assert(tr[k] == prev.last());
                        assert(tr[k + 1] == (*self, *slab));
                    }
                }
            }
        }
        if self.own_addr == INVALID_OWN_ADDR {
            return Ghost(DispatchTrace { routed: tr, sent: snt });
        }
        if self.shame.len() > 0 {
            let msg = self.shame.remove(0);
            if self.ioq.to_io.len() < IO_QUEUE_DEPTH {
                self.ioq.to_io.push(msg);
            } else {
                self.shame.push(msg);
                proof {
                    assert(self.shame@ =~= old(self).shame@.subrange(
                        1,
                        old(self).shame@.len() as int,
                    ).push(old(self).shame@[0]));
                }
                return Ghost(DispatchTrace { routed: tr, sent: snt });
            }
        }
        proof {
            snt = seq![(*self, *slab, 0int)];
            if old(self).shame@.len() > 0 {
                assert(snt[0].0.ioq.to_io@ =~= tr.last().0.ioq.to_io@.push(old(self).shame@[0]));
                assert(snt[0].0.shame@ =~= old(self).shame@.subrange(
                    1,
                    old(self).shame@.len() as int,
                ));
            }
            assert(shame_phase_ok(*old(self), tr.last(), snt[0]));
        }
        let mut p: usize = 0;
        while p < self.ports.len()
            invariant
                tr.len() == old(self).ioq.to_dispatch@.len() + 1,
                tr[0] == (*old(self), *old(slab)),
                tr.last().0.ioq.to_dispatch@.len() == 0,
                forall|k: int|
                    0 <= k < tr.len() - 1 ==> routes_one_incoming(
                        (#[trigger] tr[k]).0,
                        tr[k].1,
                        tr[k + 1].0,
                        tr[k + 1].1,
                    ),
                !(old(self).shame@.len() > 0 && old(self).ioq.to_io@.len() >= IO_QUEUE_DEPTH),
                snt.len() >= 1,
                shame_phase_ok(*old(self), tr.last(), snt[0]),
                forall|k: int|
                    0 <= k < snt.len() - 1 ==> sends_one_outgoing(#[trigger] snt[k], snt[k + 1]),
                snt.last().0 == *self,
                snt.last().1 == *slab,
                snt.last().2 == p as int,
                self.wf(),
                slab.wf(),
                slab.n == old(slab).n,
                slab.sz == old(slab).sz,
                self.own_addr == old(self).own_addr,
                self.own_addr != INVALID_OWN_ADDR,
                p <= self.ports@.len(),
                self.ports@.len() == old(self).ports@.len(),
                self.ioq.to_dispatch@.len() == 0,
                forall|q: int|
                    0 <= q < self.ports@.len() ==> (#[trigger] self.ports@[q]).port == old(self).ports@[q].port,
                forall|q: int, k: int|
                    p <= q < self.ports@.len() && 0 <= k < self.ports@[q].to_dispatch@.len()
                        ==> slab.valid_managed(
                        (#[trigger] self.ports@[q].to_dispatch@[k]).payload,
                    ),
                forall|p1: int, k1: int, p2: int, k2: int|
                    p <= p1 < self.ports@.len() && 0 <= k1 < self.ports@[p1].to_dispatch@.len() && p
                        <= p2 < self.ports@.len() && 0 <= k2 < self.ports@[p2].to_dispatch@.len()
                        && (p1 != p2 || k1 != k2) ==> (match (
                        owned_chunk((#[trigger] self.ports@[p1].to_dispatch@[k1]).payload),
                        owned_chunk((#[trigger] self.ports@[p2].to_dispatch@[k2]).payload),
                    ) {
                        (Some(c1), Some(c2)) => c1 != c2,
                        _ => true,
                    }),
                old(self).ioq.to_io@.is_prefix_of(self.ioq.to_io@),
                old(self).shame@.len() > 0 ==> (self.ioq.to_io@.len() > old(self).ioq.to_io@.len()
                    && self.ioq.to_io@[old(self).ioq.to_io@.len() as int] == old(self).shame@[0]),
            decreases self.ports@.len() - p,
        {
            loop
                invariant
                    tr.len() == old(self).ioq.to_dispatch@.len() + 1,
                    tr[0] == (*old(self), *old(slab)),
                    tr.last().0.ioq.to_dispatch@.len() == 0,
                    forall|k: int|
                        0 <= k < tr.len() - 1 ==> routes_one_incoming(
                            (#[trigger] tr[k]).0,
                            tr[k].1,
                            tr[k + 1].0,
                            tr[k + 1].1,
                        ),
                    !(old(self).shame@.len() > 0 && old(self).ioq.to_io@.len() >= IO_QUEUE_DEPTH),
                    snt.len() >= 1,
                    shame_phase_ok(*old(self), tr.last(), snt[0]),
                    forall|k: int|
                        0 <= k < snt.len() - 1 ==> sends_one_outgoing(#[trigger] snt[k], snt[k + 1]),
                    snt.last().0 == *self,
                    snt.last().1 == *slab,
                    snt.last().2 == p as int,
                    self.wf(),
                    slab.wf(),
                    slab.n == old(slab).n,
                    slab.sz == old(slab).sz,
                    self.own_addr == old(self).own_addr,
                    self.own_addr != INVALID_OWN_ADDR,
                    p < self.ports@.len(),
                    self.ports@.len() == old(self).ports@.len(),
                    self.ioq.to_dispatch@.len() == 0,
                    forall|q: int|
                        0 <= q < self.ports@.len() ==> (#[trigger] self.ports@[q]).port == old(self).ports@[q].port,
                    forall|q: int, k: int|
                        p <= q < self.ports@.len() && 0 <= k < self.ports@[q].to_dispatch@.len()
                            ==> slab.valid_managed(
                            (#[trigger] self.ports@[q].to_dispatch@[k]).payload,
                        ),
                    forall|p1: int, k1: int, p2: int, k2: int|
                        p <= p1 < self.ports@.len() && 0 <= k1 < self.ports@[p1].to_dispatch@.len()
                            && p <= p2 < self.ports@.len() && 0 <= k2
                            < self.ports@[p2].to_dispatch@.len() && (p1 != p2 || k1 != k2) ==> (
                        match (
                            owned_chunk((#[trigger] self.ports@[p1].to_dispatch@[k1]).payload),
                            owned_chunk((#[trigger] self.ports@[p2].to_dispatch@[k2]).payload),
                        ) {
                            (Some(c1), Some(c2)) => c1 != c2,
                            _ => true,
                        }),
                    old(self).ioq.to_io@.is_prefix_of(self.ioq.to_io@),
                    old(self).shame@.len() > 0 ==> (self.ioq.to_io@.len() > old(self).ioq.to_io@.len()
                        && self.ioq.to_io@[old(self).ioq.to_io@.len() as int] == old(self).shame@[
                        0
                    ]),
                ensures
                    tr.len() == old(self).ioq.to_dispatch@.len() + 1,
                    tr[0] == (*old(self), *old(slab)),
                    tr.last().0.ioq.to_dispatch@.len() == 0,
                    forall|k: int|
                        0 <= k < tr.len() - 1 ==> routes_one_incoming(
                            (#[trigger] tr[k]).0,
                            tr[k].1,
                            tr[k + 1].0,
                            tr[k + 1].1,
                        ),
                    !(old(self).shame@.len() > 0 && old(self).ioq.to_io@.len() >= IO_QUEUE_DEPTH),
                    snt.len() >= 1,
                    shame_phase_ok(*old(self), tr.last(), snt[0]),
                    forall|k: int|
                        0 <= k < snt.len() - 1 ==> sends_one_outgoing(#[trigger] snt[k], snt[k + 1]),
                    snt.last().0 == *self,
                    snt.last().1 == *slab,
                    snt.last().2 == p as int,
                    self.ports@[p as int].to_dispatch@.len() == 0,
                    self.wf(),
                    slab.wf(),
                    slab.n == old(slab).n,
                    slab.sz == old(slab).sz,
                    self.own_addr == old(self).own_addr,
                    p < self.ports@.len(),
                    self.ports@.len() == old(self).ports@.len(),
                    self.ioq.to_dispatch@.len() == 0,
                    forall|q: int|
                        0 <= q < self.ports@.len() ==> (#[trigger] self.ports@[q]).port == old(self).ports@[q].port,
                    forall|q: int, k: int|
                        p + 1 <= q < self.ports@.len() && 0 <= k
                            < self.ports@[q].to_dispatch@.len() ==> slab.valid_managed(
                            (#[trigger] self.ports@[q].to_dispatch@[k]).payload,
                        ),
                    forall|p1: int, k1: int, p2: int, k2: int|
                        p + 1 <= p1 < self.ports@.len() && 0 <= k1
                            < self.ports@[p1].to_dispatch@.len() && p + 1 <= p2
                            < self.ports@.len() && 0 <= k2 < self.ports@[p2].to_dispatch@.len() && (
                        p1 != p2 || k1 != k2) ==> (match (
                            owned_chunk((#[trigger] self.ports@[p1].to_dispatch@[k1]).payload),
                            owned_chunk((#[trigger] self.ports@[p2].to_dispatch@[k2]).payload),
                        ) {
                            (Some(c1), Some(c2)) => c1 != c2,
                            _ => true,
                        }),
                    old(self).ioq.to_io@.is_prefix_of(self.ioq.to_io@),
                    old(self).shame@.len() > 0 ==> (self.ioq.to_io@.len() > old(self).ioq.to_io@.len()
                        && self.ioq.to_io@[old(self).ioq.to_io@.len() as int] == old(self).shame@[
                        0
                    ]),
                decreases self.ports@[p as int].to_dispatch@.len(),
            {
                if self.ports[p].to_dispatch.len() == 0 {
                    break;
                }
                let ghost pre_self = *self;
                let ghost pre_slab = *slab;
                let boxy = match slab.alloc_box() {
                    Some(b) => b,
                    None => { return Ghost(DispatchTrace { routed: tr, sent: snt }); },
                };
                let ghost fresh = boxy.idx as int;
                proof {
                    assert(pre_slab.free@.contains(pre_slab.free@[0]));
                    assert(pre_slab.rc(fresh) == 0);
                }
                let slot = &mut self.ports[p];
                let msg = slot.to_dispatch.remove(0);
                proof {
                    assert(self.ports@ =~= pre_self.ports@.update(
                        p as int,
                        self.ports@[p as int],
                    ));
                    assert(msg == pre_self.ports@[p as int].to_dispatch@[0]);
                    assert(self.ports@[p as int].to_dispatch@ =~= pre_self.ports@[
                        p as int
                    ].to_dispatch@.subrange(
                        1,
                        pre_self.ports@[p as int].to_dispatch@.len() as int,
                    ));
                    assert(pre_slab.valid_managed(msg.payload));
                    if owned_chunk(msg.payload) is Some {
                        let cc = owned_chunk(msg.payload).unwrap();
                        assert(pre_slab.rc(cc) >= 1);
                        assert(cc != fresh);
                    }
                    assert(slab.valid_managed(msg.payload));
                }
                let port = self.ports[p].port;
                let ghost mchunk = owned_chunk(msg.payload);
                let ghost gmsg = msg;
                let ghost call_slab = *slab;
                let res = self.process_one_outgoing(slab, msg, port, boxy);
                proof {
                    assert(fresh == pre_slab.free@[0] as int);
                    assert(call_slab.bufs@ == pre_slab.bufs@);
                    assert(call_slab.managed_bytes(gmsg.payload) == pre_slab.managed_bytes(
                        gmsg.payload,
                    ));
                    assert(outgoing_frame(call_slab, pre_self.own_addr, port, gmsg)
                        == outgoing_frame(pre_slab, pre_self.own_addr, port, gmsg));
                    assert(sends_one_outgoing(
                        (pre_self, pre_slab, p as int),
                        (*self, *slab, p as int),
                    ));
                    let ghost prev = snt;
                    snt = snt.push((*self, *slab, p as int));
                    assert forall|k: int|
                        0 <= k < snt.len() - 1 implies sends_one_outgoing(
                        #[trigger] snt[k],
                        snt[k + 1],
                    ) by {
                        if k < prev.len() - 1 {
                            assert(snt[k] == prev[k]);
                            assert(snt[k + 1] == prev[k + 1]);
                        } else {
                            assert(snt[k] == prev.last());
                        }
                    }
                }
                if res.is_err() {
                    proof {
                        assert(send_step_failed(snt[snt.len() - 2]));
                    }
                    return Ghost(DispatchTrace { routed: tr, sent: snt });
                }
                proof {
                    assert forall|q: int, k: int|
                        p <= q < self.ports@.len() && 0 <= k
                            < self.ports@[q].to_dispatch@.len() implies slab.valid_managed(
                        (#[trigger] self.ports@[q].to_dispatch@[k]).payload,
                    ) by {
                        let it = if q == p {
                            pre_self.ports@[q].to_dispatch@[k + 1]
                        } else {
                            pre_self.ports@[q].to_dispatch@[k]
                        };
                        assert(self.ports@[q].to_dispatch@[k] == it);
                        assert(pre_slab.valid_managed(it.payload));
                        if owned_chunk(it.payload) is Some {
                            let cc = owned_chunk(it.payload).unwrap();
                            assert(cc != fresh);
                            assert(Some(cc) != mchunk);
                            assert(call_slab.rc(cc) == pre_slab.rc(cc));
                            assert(slab.rc(cc) == call_slab.rc(cc));
                        }
                    }
                    assert forall|p1: int, k1: int, p2: int, k2: int|
                        p <= p1 < self.ports@.len() && 0 <= k1 < self.ports@[p1].to_dispatch@.len()
                            && p <= p2 < self.ports@.len() && 0 <= k2
                            < self.ports@[p2].to_dispatch@.len() && (p1 != p2 || k1
                            != k2) implies (match (
                        owned_chunk((#[trigger] self.ports@[p1].to_dispatch@[k1]).payload),
                        owned_chunk((#[trigger] self.ports@[p2].to_dispatch@[k2]).payload),
                    ) {
                        (Some(c1), Some(c2)) => c1 != c2,
                        _ => true,
                    }) by {
                        let i1 = if p1 == p {
                            k1 + 1
                        } else {
                            k1
                        };
                        let i2 = if p2 == p {
                            k2 + 1
                        } else {
                            k2
                        };
                        assert(self.ports@[p1].to_dispatch@[k1] == pre_self.ports@[
                            p1
                        ].to_dispatch@[i1]);
                        assert(self.ports@[p2].to_dispatch@[k2] == pre_self.ports@[
                            p2
                        ].to_dispatch@[i2]);
                    }
                }
            }
            proof {
                assert(sends_one_outgoing(
                    (*self, *slab, p as int),
                    (*self, *slab, p as int + 1),
                ));
                let ghost prev = snt;
                snt = snt.push((*self, *slab, p as int + 1));
                assert forall|k: int|
                    0 <= k < snt.len() - 1 implies sends_one_outgoing(
                    #[trigger] snt[k],
                    snt[k + 1],
                ) by {
                    if k < prev.len() - 1 {
                        assert(snt[k] == prev[k]);
                        assert(snt[k + 1] == prev[k + 1]);
                    } else {
                        assert(snt[k] == prev.last());
                    }
                }
            }
            p += 1;
        }
        Ghost(DispatchTrace { routed: tr, sent: snt })
    }
}

} // verus!
