use anachro_485::dispatch::{Dispatch, LocalPacket, ProcessMessageError, TimeStampBox};
use anachro_485::framing::encode_frame;
use anachro_485::icd::{AddrPort, LineHeader, VecAddr};
use anachro_485::slab::BSlab;
use anachro_485::wire::encode_line_message;

fn make_frame(
    slab: &mut BSlab,
    src: u8,
    dst: u8,
    port: u16,
    payload: &[u8],
    tick: u32,
) -> TimeStampBox {
    let hdr = LineHeader {
        src: AddrPort::from_parts(VecAddr::from_local_addr(src), port),
        dst: AddrPort::from_parts(VecAddr::from_local_addr(dst), port),
    };
    let line = encode_line_message(&hdr, &payload.to_vec());
    let frame = encode_frame(&line);
    let b = slab.alloc_box().unwrap();
    slab.box_copy_from_slice(&b, 0, &frame);
    let len = frame.len();
    TimeStampBox { packet: b, len, tick }
}

#[test]
fn register_port_rules() {
    let mut d = Dispatch::new(3);
    assert!(d.register_port(0).is_none());
    let s10 = d.register_port(10).unwrap();
    assert_eq!(s10.port_number(), 10);
    assert!(s10.has_auth);
    assert!(d.register_port(10).is_none());
    let s30 = d.register_port(30).unwrap();
    assert!(!s30.has_auth);
    let _s20 = d.register_port(20).unwrap();
    // The table is full now.
    assert!(d.register_port(40).is_none());
}

// Routing: a frame reaches exactly the port it names; a frame naming an
// unregistered port is dropped.
#[test]
fn routes_only_to_matching_port() {
    let mut slab = BSlab::new(16, 256);
    slab.init().unwrap();
    let mut d = Dispatch::new(4);
    d.set_addr(5);
    let s10 = d.register_port(10).unwrap();
    let s30 = d.register_port(30).unwrap();

    let f = make_frame(&mut slab, 0, 5, 30, &[7, 7, 7], 99);
    d.process_one_incoming(&mut slab, f).unwrap();
    assert!(d.try_recv(&s10).is_none());
    let got = d.try_recv(&s30).unwrap();
    assert_eq!(got.hdr.tick, 99);
    assert_eq!(got.hdr.src.addr.get_exact_local_addr(), Some(0));
    assert_eq!(slab.managed_to_vec(&got.payload), vec![7, 7, 7]);

    // Unregistered port: dropped with DestPort, and its chunk is freed.
    let free_before = slab.free.len();
    let f = make_frame(&mut slab, 0, 5, 40, &[1], 0);
    assert!(matches!(
        d.process_one_incoming(&mut slab, f),
        Err(ProcessMessageError::DestPort)
    ));
    assert_eq!(slab.free.len(), free_before);
    assert!(d.try_recv(&s10).is_none());
    assert!(d.try_recv(&s30).is_none());
}

// A Sub accepts only frames whose source is the Dom.
#[test]
fn sub_accepts_only_dom_source() {
    let mut slab = BSlab::new(16, 256);
    slab.init().unwrap();
    let mut d = Dispatch::new(2);
    d.set_addr(5);
    let s10 = d.register_port(10).unwrap();

    let from_peer = make_frame(&mut slab, 3, 5, 10, &[1], 0);
    assert!(matches!(
        d.process_one_incoming(&mut slab, from_peer),
        Err(ProcessMessageError::SrcAddr)
    ));
    let from_bcast = make_frame(&mut slab, 255, 5, 10, &[1], 0);
    assert!(matches!(
        d.process_one_incoming(&mut slab, from_bcast),
        Err(ProcessMessageError::SrcAddr)
    ));
    let from_dom = make_frame(&mut slab, 0, 5, 10, &[1], 0);
    d.process_one_incoming(&mut slab, from_dom).unwrap();
    assert!(d.try_recv(&s10).is_some());
}

// A Dom accepts no frame whose source is broadcast or the Dom itself.
#[test]
fn dom_rejects_broadcast_and_dom_source() {
    let mut slab = BSlab::new(16, 256);
    slab.init().unwrap();
    let mut d = Dispatch::new(2);
    d.set_addr(0);
    let s10 = d.register_port(10).unwrap();

    let from_bcast = make_frame(&mut slab, 255, 0, 10, &[1], 0);
    assert!(matches!(
        d.process_one_incoming(&mut slab, from_bcast),
        Err(ProcessMessageError::SrcAddr)
    ));
    let from_dom = make_frame(&mut slab, 0, 0, 10, &[1], 0);
    assert!(matches!(
        d.process_one_incoming(&mut slab, from_dom),
        Err(ProcessMessageError::SrcAddr)
    ));
    let from_sub = make_frame(&mut slab, 5, 0, 10, &[1], 0);
    d.process_one_incoming(&mut slab, from_sub).unwrap();
    assert!(d.try_recv(&s10).is_some());
}

#[test]
fn incoming_error_classes() {
    let mut slab = BSlab::new(16, 256);
    slab.init().unwrap();
    let mut d = Dispatch::new(2);
    d.set_addr(5);
    let s10 = d.register_port(10).unwrap();

    // Broken stuffing: a length byte promising more than the frame holds.
    let b = slab.alloc_box().unwrap();
    slab.box_copy_from_slice(&b, 0, &vec![0x05, 0x01]);
    let garbage = TimeStampBox { packet: b, len: 2, tick: 0 };
    assert!(matches!(
        d.process_one_incoming(&mut slab, garbage),
        Err(ProcessMessageError::Cobs)
    ));

    // Valid stuffing around a frame body with a nine-segment address.
    let bad_line = vec![9u8, 1, 2, 3, 4, 5, 6, 7, 8, 9, 1, 1];
    let frame = encode_frame(&bad_line);
    let b = slab.alloc_box().unwrap();
    slab.box_copy_from_slice(&b, 0, &frame);
    let len = frame.len();
    let tsb = TimeStampBox { packet: b, len, tick: 0 };
    assert!(matches!(
        d.process_one_incoming(&mut slab, tsb),
        Err(ProcessMessageError::Deser)
    ));

    // Not addressed to us.
    let f = make_frame(&mut slab, 0, 9, 10, &[1], 0);
    assert!(matches!(
        d.process_one_incoming(&mut slab, f),
        Err(ProcessMessageError::DestAddr)
    ));
    // Addressed to the Dom, but we are not the Dom.
    let f = make_frame(&mut slab, 0, 0, 10, &[1], 0);
    assert!(matches!(
        d.process_one_incoming(&mut slab, f),
        Err(ProcessMessageError::DestAddr)
    ));

    // An empty payload cannot be re-rooted.
    let f = make_frame(&mut slab, 0, 5, 10, &[], 0);
    assert!(matches!(
        d.process_one_incoming(&mut slab, f),
        Err(ProcessMessageError::ReRoot)
    ));

    // A full inbox drops the fifth delivery.
    for _ in 0..4 {
        let f = make_frame(&mut slab, 0, 5, 10, &[1], 0);
        d.process_one_incoming(&mut slab, f).unwrap();
    }
    let f = make_frame(&mut slab, 0, 5, 10, &[1], 0);
    assert!(matches!(
        d.process_one_incoming(&mut slab, f),
        Err(ProcessMessageError::TaskQueueFull)
    ));
    while d.try_recv(&s10).is_some() {}
}

#[test]
fn outgoing_too_big_is_ser_error() {
    let mut slab = BSlab::new(8, 64);
    slab.init().unwrap();
    let mut d = Dispatch::new(2);
    d.set_addr(5);
    let payload = vec![0xABu8; 60];
    let lp = LocalPacket::from_parts_with_alloc(
        &payload,
        AddrPort::from_parts(VecAddr::from_local_addr(5), 30),
        AddrPort::from_parts(VecAddr::from_local_addr(0), 30),
        None,
        &mut slab,
    )
    .unwrap();
    let boxy = slab.alloc_box().unwrap();
    assert!(matches!(
        d.process_one_outgoing(&mut slab, lp, 30, boxy),
        Err(ProcessMessageError::Ser)
    ));
    // Both chunks went back to the pool.
    assert_eq!(slab.free.len(), 8);
}

fn queue_one(d: &mut Dispatch, slab: &mut BSlab, sock: &anachro_485::dispatch::DispatchSocket, marker: u8) {
    let lp = LocalPacket::from_parts_with_alloc(
        &vec![marker],
        AddrPort::from_parts(VecAddr::from_local_addr(5), sock.port),
        AddrPort::from_parts(VecAddr::from_local_addr(0), sock.port),
        None,
        slab,
    )
    .unwrap();
    d.try_send(sock, lp).map_err(|_| ()).unwrap();
}

fn to_io_markers(d: &Dispatch, slab: &BSlab) -> Vec<u8> {
    d.ioq
        .to_io
        .iter()
        .map(|o| {
            let bytes = slab.managed_to_vec(&o.packet);
            // The marker is the last payload byte of the frame body, right
            // before the terminator.
            bytes[bytes.len() - 2]
        })
        .collect()
}

// Back-pressure: with `to_io` full, a new outgoing frame lands in the
// holding slot; on the next tick it enters `to_io` first, ahead of
// port-scanned packets.
#[test]
fn shame_slot_back_pressure() {
    let mut slab = BSlab::new(64, 128);
    slab.init().unwrap();
    let mut d = Dispatch::new(2);
    d.set_addr(5);
    let s30 = d.register_port(30).unwrap();

    // Fill to_io to its depth of 32.
    for round in 0..8 {
        for k in 0..4 {
            queue_one(&mut d, &mut slab, &s30, (round * 4 + k) as u8);
        }
        d.process_messages(&mut slab);
    }
    assert_eq!(d.ioq.to_io.len(), 32);

    // One more frame strands in the holding slot.
    queue_one(&mut d, &mut slab, &s30, 0xAA);
    d.process_messages(&mut slab);
    assert_eq!(d.ioq.to_io.len(), 32);
    assert_eq!(d.shame.len(), 1);

    // The line driver takes one frame; a fresh port packet is queued.
    let _sent = d.pop_outgoing().unwrap();
    queue_one(&mut d, &mut slab, &s30, 0xBB);
    d.process_messages(&mut slab);

    // The stranded frame entered to_io ahead of the port-scanned one.
    let markers = to_io_markers(&d, &slab);
    assert_eq!(markers.len(), 32);
    assert_eq!(markers[31], 0xAA);
    // The port packet found to_io full again and is now the stranded one.
    assert_eq!(d.shame.len(), 1);
    let shame_bytes = slab.managed_to_vec(&d.shame[0].packet);
    assert_eq!(shame_bytes[shame_bytes.len() - 2], 0xBB);
}

// Discovery and token frames travel on the priority queue and are handed
// out before normal traffic.
#[test]
fn priority_queue_first() {
    let mut slab = BSlab::new(16, 128);
    slab.init().unwrap();
    let mut d = Dispatch::new(2);
    d.set_addr(5);
    let s30 = d.register_port(30).unwrap();
    let s10 = d.register_port(10).unwrap();

    queue_one(&mut d, &mut slab, &s30, 1);
    let lp = LocalPacket::from_parts_with_alloc(
        &vec![2],
        AddrPort::from_parts(VecAddr::from_local_addr(5), 10),
        AddrPort::from_parts(VecAddr::from_local_addr(0), 10),
        None,
        &mut slab,
    )
    .unwrap();
    d.try_send_authd(&s10, lp).map_err(|_| ()).unwrap();
    assert!(d.ioq.io_auth.io_send_auth);
    d.process_messages(&mut slab);

    assert_eq!(d.ioq.to_io_hi_prio.len(), 1);
    assert_eq!(d.ioq.to_io.len(), 1);
    let first = d.pop_outgoing().unwrap();
    let bytes = slab.managed_to_vec(&first.packet);
    assert_eq!(bytes[bytes.len() - 2], 2);
}

// Nothing is sent while this node has no address.
#[test]
fn no_outgoing_while_unaddressed() {
    let mut slab = BSlab::new(16, 128);
    slab.init().unwrap();
    let mut d = Dispatch::new(2);
    let s30 = d.register_port(30).unwrap();
    queue_one(&mut d, &mut slab, &s30, 9);
    d.process_messages(&mut slab);
    assert_eq!(d.ioq.to_io.len(), 0);
    assert_eq!(d.ioq.to_io_hi_prio.len(), 0);
    assert!(d.pop_outgoing().is_none());
}

// With `to_io` still full, the stranded frame stays stranded (it returns to
// the holding slot) and no port outbox is consumed that tick.
#[test]
fn stranded_frame_stays_when_to_io_still_full() {
    let mut slab = BSlab::new(64, 128);
    slab.init().unwrap();
    let mut d = Dispatch::new(2);
    d.set_addr(5);
    let s30 = d.register_port(30).unwrap();

    for round in 0..8 {
        for k in 0..4 {
            queue_one(&mut d, &mut slab, &s30, (round * 4 + k) as u8);
        }
        d.process_messages(&mut slab);
    }
    queue_one(&mut d, &mut slab, &s30, 0xAA);
    d.process_messages(&mut slab);
    assert_eq!(d.ioq.to_io.len(), 32);
    assert_eq!(d.shame.len(), 1);

    // Nothing is taken off the line; the next tick finds to_io still full.
    queue_one(&mut d, &mut slab, &s30, 0xBB);
    d.process_messages(&mut slab);
    assert_eq!(d.ioq.to_io.len(), 32);
    assert_eq!(d.shame.len(), 1);
    let shame_bytes = slab.managed_to_vec(&d.shame[0].packet);
    assert_eq!(shame_bytes[shame_bytes.len() - 2], 0xAA);
    // The port-scanned packet was not consumed.
    assert_eq!(d.ports[s30.idx].to_dispatch.len(), 1);
}
