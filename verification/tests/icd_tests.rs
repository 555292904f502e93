use anachro_485::icd::{checksum_addr_random, AddrPort, BusDomPayload, BusSubPayload, LocalHeader,
    VecAddr};

fn hdr(src: u8, dst: u8, port: u16) -> LocalHeader {
    LocalHeader {
        src: AddrPort::from_parts(VecAddr::from_local_addr(src), port),
        dst: AddrPort::from_parts(VecAddr::from_local_addr(dst), port),
        tick: 0,
    }
}

// One exact checksum value, computed by hand:
// addr 1 -> word 0x01010101; (word * 2 + 2) = 0x02020204;
// (0x02020204 * 3 + 3) wrapping = 0x0606060F.
#[test]
fn checksum_exact_value() {
    assert_eq!(checksum_addr_random(1, 2, 3), 0x0606_060Fu32);
    // Wrapping happens rather than overflow.
    let _ = checksum_addr_random(255, u32::MAX, u32::MAX);
}

#[test]
fn vec_addr_shapes() {
    assert_eq!(VecAddr::local_dom_addr().get_exact_local_addr(), Some(0));
    assert_eq!(VecAddr::local_broadcast_addr().get_exact_local_addr(), Some(255));
    let long = VecAddr::from_addrs(&vec![1, 2, 3]).unwrap();
    assert_eq!(long.get_exact_local_addr(), None);
    assert!(VecAddr::from_addrs(&vec![0; 8]).is_ok());
    assert!(VecAddr::from_addrs(&vec![0; 9]).is_err());
}

// A DiscoverAck assembled by the Sub validates under the Dom's check, and
// hands back exactly the claimed address and the Sub's random.
#[test]
fn discover_ack_validates_under_dom_check() {
    for (addr, dr, sr) in [(5u8, 0x11u32, 0x22u32), (32, u32::MAX, 3), (1, 7, 9)] {
        let ack = BusSubPayload::DiscoverAck {
            own_id: addr,
            own_id_rand_checksum: checksum_addr_random(addr, dr, sr),
            own_random: sr,
        };
        let h = hdr(addr, 0, 10);
        assert_eq!(ack.validate_discover_ack_addr(&h, dr), Ok((addr, sr)));
        // A wrong Dom random is refused.
        assert!(ack.validate_discover_ack_addr(&h, dr.wrapping_add(1)).is_err());
        // A claim that differs from the frame's source is refused.
        let other = hdr(addr.wrapping_add(1), 0, 10);
        assert!(ack.validate_discover_ack_addr(&other, dr).is_err());
    }
}

// The Dom's DiscoverAckAck validates under the Sub's check.
#[test]
fn ack_ack_validates_under_sub_check() {
    for (addr, dr, sr) in [(5u8, 0x11u32, 0x22u32), (32, 1, u32::MAX)] {
        let hp = BusDomPayload::generate_discover_ack_ack(addr, dr, sr);
        assert_eq!(hp.body.validate_discover_ack_ack(&hp.hdr, sr), Ok(addr));
        // The wrong Sub random is refused.
        assert!(hp.body.validate_discover_ack_ack(&hp.hdr, sr.wrapping_add(1)).is_err());
    }
}

// A PingAck generated by the Sub validates under the Dom's check.
#[test]
fn ping_ack_validates_under_dom_check() {
    for (addr, dr, own_r) in [(9u8, 3u32, 4u32), (31, 6, 1), (2, u32::MAX, 5)] {
        let req = BusDomPayload::PingReq { random: dr, min_wait_us: 10, max_wait_us: 20 };
        let (jitter, reply) =
            BusSubPayload::generate_ping_ack(addr, own_r, 12345, &req, &hdr(0, addr, 10)).unwrap();
        assert!(jitter >= 10 && jitter < 20);
        // The reply travels from the Sub to the Dom.
        let reply_hdr = hdr(addr, 0, 10);
        assert!(reply.body.validate_ping_ack(&reply_hdr, dr).is_ok());
        // A stale Dom random is refused.
        assert!(reply.body.validate_ping_ack(&reply_hdr, dr.wrapping_add(1)).is_err());
    }
}

#[test]
fn generate_discover_ack_picks_offer_and_delay() {
    let initial = BusDomPayload::DiscoverInitial {
        random: 0xD0,
        min_wait_us: 10_000,
        max_wait_us: 50_000,
        offers: vec![4, 9, 17],
    };
    let broadcast = hdr(0, 255, 10);
    let (addr, sr, delay, max_delay, reply) =
        BusSubPayload::generate_discover_ack(7, 0x5B, 123, &initial, &broadcast).unwrap();
    assert_eq!(addr, vec![4u8, 9, 17][7 % 3]);
    assert_eq!(sr, 0x5B);
    assert_eq!(delay, 10_000 + 123 % 40_000);
    assert_eq!(max_delay, 50_000);
    assert_eq!(reply.hdr.src.addr.get_exact_local_addr(), Some(addr));
    assert_eq!(reply.hdr.dst.addr.get_exact_local_addr(), Some(0));

    // Not a broadcast: refused.
    assert!(BusSubPayload::generate_discover_ack(7, 0x5B, 123, &initial, &hdr(0, 3, 10)).is_none());
    // Nothing offered: refused.
    let empty = BusDomPayload::DiscoverInitial {
        random: 0xD0,
        min_wait_us: 10_000,
        max_wait_us: 50_000,
        offers: vec![],
    };
    assert!(BusSubPayload::generate_discover_ack(7, 0x5B, 123, &empty, &broadcast).is_none());
}
