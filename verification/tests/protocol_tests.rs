use anachro_485::dispatch::LocalPacket;
use anachro_485::dom::AddrTable32;
use anachro_485::dom_discover::{winnow_responses, Discovery as DomDiscovery};
use anachro_485::dom_token::Token as DomToken;
use anachro_485::icd::{BusDomPayload, BusSubPayload, LineHeader, LocalHeader};
use anachro_485::payload::{decode_dom_payload, decode_grant_payload, decode_release_payload,
    decode_sub_payload};
use anachro_485::slab::BSlab;
use anachro_485::sub_discover::Discovery as SubDiscovery;
use anachro_485::sub_token::{DrainStep, GrantTimeoutVerdict, Token as SubToken};
use anachro_485::wire::{decode_line_message, encode_line_message};
use anachro_485::framing::{decode_frame, encode_frame};
use anachro_485::icd::{AddrPort, VecAddr};
use anachro_485::managed::ManagedArcSlab;

fn open_dom_payload(slab: &mut BSlab, p: &LocalPacket) -> (LocalHeader, BusDomPayload) {
    let bytes = slab.managed_to_vec(&p.payload);
    let body = decode_dom_payload(&bytes).unwrap();
    let hdr = LocalHeader {
        src: p.hdr.src.duplicate(),
        dst: p.hdr.dst.duplicate(),
        tick: p.hdr.tick,
    };
    (hdr, body)
}

fn open_sub_payload(slab: &mut BSlab, p: &LocalPacket) -> (LocalHeader, BusSubPayload) {
    let bytes = slab.managed_to_vec(&p.payload);
    let body = decode_sub_payload(&bytes).unwrap();
    let hdr = LocalHeader {
        src: p.hdr.src.duplicate(),
        dst: p.hdr.dst.duplicate(),
        tick: p.hdr.tick,
    };
    (hdr, body)
}

// Single-sub discovery: starting from an empty table, one full cycle
// commits the sub's chosen address, and a token exchange round trips.
#[test]
fn single_sub_discovery_and_token() {
    let mut slab = BSlab::new(32, 256);
    slab.init().unwrap();
    let mut table = AddrTable32::new();
    let avail = table.get_available_addrs();
    assert_eq!(avail.len(), 32);

    // Ready phase: broadcast, one answer, winnow, accept.
    let dom_random = 0xD0D0_0001u32;
    let bcast = DomDiscovery::broadcast_initial(&avail, dom_random, &mut slab).unwrap();
    let (bhdr, bbody) = open_dom_payload(&mut slab, &bcast);

    let mut sub = SubDiscovery::new();
    sub.begin();
    let (addr, _delay, _extra, ack) = sub
        .on_initial(&bbody, &bhdr, 4, 0x5B5B_0001, 7, &mut slab)
        .unwrap()
        .unwrap();
    assert_eq!(addr, avail[4 % 32]);

    let (ahdr, abody) = open_sub_payload(&mut slab, &ack);
    let resps = vec![(ahdr, abody)];
    let pairs = winnow_responses(&avail, &resps, dom_random);
    assert_eq!(pairs, vec![(addr, 0x5B5B_0001)]);

    let (acks, accepted) =
        DomDiscovery::accept_readies(&pairs, &vec![0xA1A1_0001], &mut slab).unwrap();
    assert_eq!(accepted, vec![addr]);
    let (khdr, kbody) = open_dom_payload(&mut slab, &acks[0]);
    assert!(sub.on_ack_ack(&kbody, &khdr));

    // Steady and Go phases: two answered pings each.
    let ping_random = 0xD0D0_0002u32;
    let mut steady_acks = Vec::new();
    for jr in [3u32, 11] {
        let req = DomDiscovery::ping_request(addr, ping_random, &mut slab).unwrap();
        let (phdr, pbody) = open_dom_payload(&mut slab, &req);
        let (_jitter, pong) = sub
            .on_ping(&pbody, &phdr, 0x77, jr, &mut slab)
            .unwrap()
            .unwrap();
        steady_acks.push(open_sub_payload(&mut slab, &pong));
    }
    assert!(DomDiscovery::ping_advances(&steady_acks, addr, ping_random));
    assert!(DomDiscovery::ping_advances(&steady_acks, addr, ping_random));
    // An ack from the wrong address does not advance another candidate.
    assert!(!DomDiscovery::ping_advances(&steady_acks, addr.wrapping_add(1), ping_random));
    assert_eq!(sub.committed(), Some(addr));

    // Commit: the address is now active.
    DomDiscovery::commit_gos(&mut table, &vec![addr]);
    assert_eq!(table.get_active_addrs(), vec![addr]);

    // Token round trip on the committed address.
    let mut dom_token = DomToken::new();
    let mut sub_token = SubToken::new();
    let grant_random = 0x70C3_0001u32;
    let grant = dom_token.turn_open(addr, grant_random, 1_000, &mut slab).unwrap();
    let gbytes = slab.managed_to_vec(&grant.payload);
    let gbody = decode_grant_payload(&gbytes).unwrap();
    let half = sub_token.on_grant(&gbody);
    assert_eq!(half, 25_000);
    assert!(matches!(SubToken::drain_step(1_500, 1_000, half, true), DrainStep::Release));

    let release = SubToken::release_packet(addr, gbody.random, &mut slab).unwrap();
    let rbytes = slab.managed_to_vec(&release.payload);
    let rbody = decode_release_payload(&rbytes).unwrap();
    assert!(DomToken::validate_release(&release.hdr, &rbody, addr, grant_random));
    let evicted = dom_token
        .turn_close(&mut table, addr, true, 2_000)
        .unwrap();
    assert!(!evicted);
    assert_eq!(table.get_active_addrs(), vec![addr]);
}

// Two-sub collision: both pick the same address; the Dom records two
// distinct randoms for it and discards both; on the retry the distinct
// picks both survive.
#[test]
fn two_sub_collision_and_retry() {
    let mut slab = BSlab::new(32, 256);
    slab.init().unwrap();
    let table = AddrTable32::new();
    let avail = table.get_available_addrs();

    let dom_random = 0xD0D0_0010u32;
    let bcast = DomDiscovery::broadcast_initial(&avail, dom_random, &mut slab).unwrap();
    let (bhdr, bbody) = open_dom_payload(&mut slab, &bcast);

    let mut sub_a = SubDiscovery::new();
    let mut sub_b = SubDiscovery::new();
    sub_a.begin();
    sub_b.begin();

    // Both draw the same offer index: a collision.
    let (addr_a, _, _, ack_a) =
        sub_a.on_initial(&bbody, &bhdr, 4, 0xAAAA_0001, 3, &mut slab).unwrap().unwrap();
    let (addr_b, _, _, ack_b) =
        sub_b.on_initial(&bbody, &bhdr, 4, 0xBBBB_0001, 9, &mut slab).unwrap().unwrap();
    assert_eq!(addr_a, addr_b);

    let ra = open_sub_payload(&mut slab, &ack_a);
    let rb = open_sub_payload(&mut slab, &ack_b);
    let pairs = winnow_responses(&avail, &vec![ra, rb], dom_random);
    assert!(pairs.is_empty());

    // Both subs time out waiting to be accepted and restart.
    sub_a.on_timeout();
    sub_b.on_timeout();
    sub_a.begin();
    sub_b.begin();

    // Retry with distinct picks: both survive the winnow.
    let dom_random = 0xD0D0_0011u32;
    let bcast = DomDiscovery::broadcast_initial(&avail, dom_random, &mut slab).unwrap();
    let (bhdr, bbody) = open_dom_payload(&mut slab, &bcast);
    let (addr_a, _, _, ack_a) =
        sub_a.on_initial(&bbody, &bhdr, 4, 0xAAAA_0002, 3, &mut slab).unwrap().unwrap();
    let (addr_b, _, _, ack_b) =
        sub_b.on_initial(&bbody, &bhdr, 9, 0xBBBB_0002, 9, &mut slab).unwrap().unwrap();
    assert_ne!(addr_a, addr_b);
    let ra = open_sub_payload(&mut slab, &ack_a);
    let rb = open_sub_payload(&mut slab, &ack_b);
    let pairs = winnow_responses(&avail, &vec![ra, rb], dom_random);
    assert_eq!(pairs.len(), 2);
    assert_eq!(pairs[0], (addr_a, 0xAAAA_0002));
    assert_eq!(pairs[1], (addr_b, 0xBBBB_0002));
}

// Re-root across deserialization: a frame is encoded from an owned view,
// decoded out of a fresh chunk as a borrowed view, and re-rooted; the
// result holds the original bytes and a count on the fresh chunk.
#[test]
fn reroot_across_deserialization() {
    let mut slab = BSlab::new(8, 128);
    slab.init().unwrap();

    // Chunk X: the original payload, held as an owned view.
    let bx = slab.alloc_box().unwrap();
    let original = vec![9u8, 8, 7, 6];
    slab.box_copy_from_slice(&bx, 0, &original);
    let ax = bx.into_arc(&slab);
    let view_x = ax.sub_slice_arc(&mut slab, 0, 4).unwrap();
    let payload_bytes = slab.slice_to_vec(&view_x);

    let hdr = LineHeader {
        src: AddrPort::from_parts(VecAddr::from_local_addr(0), 10),
        dst: AddrPort::from_parts(VecAddr::from_local_addr(255), 10),
    };
    let line = encode_line_message(&hdr, &payload_bytes);
    let frame = encode_frame(&line);

    // Chunk Y: the frame as received; decode yields a borrowed view into Y.
    let by = slab.alloc_box().unwrap();
    let body = decode_frame(&frame).unwrap();
    slab.box_copy_from_slice(&by, 0, &body);
    let ay = by.into_arc(&slab);
    let y_idx = ay.idx;
    let key = ay.rerooter_key(&slab);
    let (_h, off, len) = decode_line_message(&body).unwrap();
    let borrowed = ManagedArcSlab::Borrowed { addr: key.start + off, len };

    assert_eq!(slab.rcs[y_idx], 1);
    let owned = borrowed.reroot_with_key(&key, &mut slab).unwrap();
    match owned {
        ManagedArcSlab::Owned(ssa) => {
            assert_eq!(ssa.arc.idx, y_idx);
            assert_eq!(slab.slice_to_vec(&ssa), original);
            // The re-rooted view holds a count on chunk Y.
            assert_eq!(slab.rcs[y_idx], 2);
            slab.drop_slice(ssa);
        }
        _ => panic!("Not owned!"),
    }
    slab.drop_arc(ay);
    slab.drop_slice(view_x);
    slab.drop_arc(ax);
}

// Token loss: an address that answers no grant for five seconds is
// cleared from the table, and later grant rounds skip it.
#[test]
fn token_loss_evicts_address() {
    let mut slab = BSlab::new(8, 128);
    slab.init().unwrap();
    let mut table = AddrTable32::new();
    table.commit_reserved_addr(7).unwrap();
    table.commit_reserved_addr(9).unwrap();
    assert_eq!(table.get_active_addrs(), vec![7, 9]);

    let mut tok = DomToken::new();
    let t0 = 1_000u32;
    let _grant = tok.turn_open(7, 0x1111, t0, &mut slab).unwrap();
    // No answer; five seconds later the address is evicted.
    let t1 = t0 + 5_000_000;
    let evicted = tok.turn_close(&mut table, 7, false, t1).unwrap();
    assert!(evicted);
    assert_eq!(table.get_active_addrs(), vec![9]);
    assert_eq!(tok.ping_table[6], None);

    // The answering address stays.
    let _grant = tok.turn_open(9, 0x2222, t1, &mut slab).unwrap();
    let evicted = tok.turn_close(&mut table, 9, true, t1 + 10_000).unwrap();
    assert!(!evicted);
    assert_eq!(table.get_active_addrs(), vec![9]);
}

// Ten missed grants in a row mean a dead bus.
#[test]
fn ten_missed_grants_is_fatal() {
    let mut tok = SubToken::new();
    for _ in 0..9 {
        assert!(matches!(tok.on_grant_timeout(), GrantTimeoutVerdict::Retry));
    }
    assert!(matches!(tok.on_grant_timeout(), GrantTimeoutVerdict::BusDead));
    // A grant in between resets the count.
    let mut tok = SubToken::new();
    for _ in 0..5 {
        tok.on_grant_timeout();
    }
    tok.on_grant(&anachro_485::icd::DomTokenGrantPayload { random: 1, max_time_us: 8 });
    assert_eq!(tok.bad_ticks, 0);
}

// The table refuses double commits and double releases.
#[test]
fn addr_table_edges() {
    let mut table = AddrTable32::new();
    assert!(table.commit_reserved_addr(0).is_err());
    assert!(table.commit_reserved_addr(33).is_err());
    table.commit_reserved_addr(1).unwrap();
    table.commit_reserved_addr(32).unwrap();
    assert!(table.commit_reserved_addr(1).is_err());
    assert_eq!(table.get_active_addrs(), vec![1, 32]);
    assert_eq!(table.get_available_addrs().len(), 30);
    table.release_active_addr(1).unwrap();
    assert!(table.release_active_addr(1).is_err());
    assert_eq!(table.get_active_addrs(), vec![32]);
}
