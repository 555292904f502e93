use anachro_485::framing::{decode_frame, encode_frame};
use anachro_485::icd::{AddrPort, BusDomPayload, BusSubPayload, DomTokenGrantPayload, LineHeader,
    SubTokenReleasePayload, VecAddr};
use anachro_485::payload::{decode_dom_payload, decode_grant_payload, decode_release_payload,
    decode_sub_payload, encode_dom_payload, encode_grant_payload, encode_release_payload,
    encode_sub_payload};
use anachro_485::wire::{decode_line_message, decode_varint, encode_line_message, encode_varint};

fn varint_bytes(x: u64) -> Vec<u8> {
    let mut v = Vec::new();
    encode_varint(&mut v, x);
    v
}

// The hand-built varint agrees with postcard's wire format, which the bus
// frames follow, for each integer width.
#[test]
fn varint_matches_postcard() {
    for x in [0u32, 1, 127, 128, 300, 5000, 65_535, 1 << 20, u32::MAX] {
        assert_eq!(varint_bytes(x as u64), postcard::to_allocvec(&x).unwrap());
    }
    for x in [0u16, 9, 127, 128, 300, u16::MAX] {
        assert_eq!(varint_bytes(x as u64), postcard::to_allocvec(&x).unwrap());
    }
}

// Byte sequences ride as a varint length then raw bytes, as in postcard.
#[test]
fn byte_seq_matches_postcard() {
    let data: Vec<u8> = (0..200).map(|i| (i * 7) as u8).collect();
    let hdr = LineHeader {
        src: AddrPort::from_parts(VecAddr::from_local_addr(3), 77),
        dst: AddrPort::from_parts(VecAddr::from_local_addr(9), 88),
    };
    let line = encode_line_message(&hdr, &data);
    // postcard model of the same frame: two (bytes, u16) pairs, then bytes.
    let model = ((&[3u8][..], 77u16), (&[9u8][..], 88u16), &data[..]);
    assert_eq!(line, postcard::to_allocvec(&model).unwrap());
}

#[test]
fn varint_decode_round_trip() {
    for x in [0u64, 1, 127, 128, 16_383, 16_384, u32::MAX as u64, u64::MAX] {
        let v = varint_bytes(x);
        let (got, used) = decode_varint(&v, 0).unwrap();
        assert_eq!(got, x);
        assert_eq!(used, v.len());
    }
    // A truncated continuation fails.
    assert!(decode_varint(&vec![0x80u8], 0).is_err());
}

#[test]
fn line_message_round_trip() {
    let payload = vec![1u8, 0, 255, 42];
    let hdr = LineHeader {
        src: AddrPort::from_parts(VecAddr::from_local_addr(7), 10),
        dst: AddrPort::from_parts(VecAddr::from_local_addr(0), 10),
    };
    let line = encode_line_message(&hdr, &payload);
    let (h, off, len) = decode_line_message(&line).unwrap();
    assert_eq!(h.src.addr.get_exact_local_addr(), Some(7));
    assert_eq!(h.src.port, 10);
    assert_eq!(h.dst.addr.get_exact_local_addr(), Some(0));
    assert_eq!(h.dst.port, 10);
    assert_eq!(&line[off..off + len], &payload[..]);
}

// A frame with a nine-segment source address is refused by the decoder.
#[test]
fn line_message_rejects_long_address() {
    let bytes = vec![9u8, 1, 2, 3, 4, 5, 6, 7, 8, 9];
    assert!(decode_line_message(&bytes).is_err());
}

#[test]
fn dom_payload_round_trips() {
    let cases = vec![
        BusDomPayload::ResetConnection,
        BusDomPayload::DiscoverInitial {
            random: 0xDEAD_BEEF,
            min_wait_us: 10_000,
            max_wait_us: 50_000,
            offers: vec![1, 2, 3, 30, 31, 32],
        },
        BusDomPayload::DiscoverAckAck {
            own_id: 5,
            own_random: 77,
            own_id_ownrand_checksum: 0x1234_5678,
        },
        BusDomPayload::PingReq { random: 1, min_wait_us: 2, max_wait_us: 3 },
        BusDomPayload::BusGrant { tx_bytes_ready: 9, rx_bytes_avail: 8, max_grant_us: 7 },
    ];
    for p in cases {
        let bytes = encode_dom_payload(&p);
        let q = decode_dom_payload(&bytes).unwrap();
        assert_eq!(encode_dom_payload(&q), bytes);
    }
    // An unknown variant index is refused.
    assert!(decode_dom_payload(&vec![9u8]).is_err());
}

#[test]
fn sub_payload_round_trips() {
    let cases = vec![
        BusSubPayload::DiscoverAck { own_id: 4, own_id_rand_checksum: 99, own_random: 1000 },
        BusSubPayload::BusGrantAccept { tx_bytes_ready: 5, rx_bytes_avail: 6 },
        BusSubPayload::PingAck { own_id_checksum: 0xAABB_CCDD, own_random: 3 },
        BusSubPayload::BusGrantRelease,
    ];
    for p in cases {
        let bytes = encode_sub_payload(&p);
        let q = decode_sub_payload(&bytes).unwrap();
        assert_eq!(encode_sub_payload(&q), bytes);
    }
}

#[test]
fn token_payload_round_trips() {
    let g = DomTokenGrantPayload { random: 0xC0FF_EE00, max_time_us: 50_000 };
    let bytes = encode_grant_payload(&g);
    let g2 = decode_grant_payload(&bytes).unwrap();
    assert_eq!(g2.random, g.random);
    assert_eq!(g2.max_time_us, g.max_time_us);

    let r = SubTokenReleasePayload { random: 7 };
    let bytes = encode_release_payload(&r);
    assert_eq!(decode_release_payload(&bytes).unwrap().random, 7);
}

// Frame format: a frame from the Dom to broadcast on the discovery port
// with an empty payload encodes to a non-empty sequence terminated by
// exactly one 0x00, and decodes back to the same frame.
#[test]
fn frame_format_empty_payload() {
    let hdr = LineHeader {
        src: AddrPort::from_parts(VecAddr::from_local_addr(0x00), 10),
        dst: AddrPort::from_parts(VecAddr::from_local_addr(0xFF), 10),
    };
    let payload: Vec<u8> = vec![];
    let line = encode_line_message(&hdr, &payload);
    let frame = encode_frame(&line);

    assert!(!frame.is_empty());
    assert_eq!(frame.iter().filter(|b| **b == 0).count(), 1);
    assert_eq!(*frame.last().unwrap(), 0u8);

    let dec = decode_frame(&frame).unwrap();
    assert_eq!(dec, line);
    let (h, _off, len) = decode_line_message(&dec).unwrap();
    assert_eq!(h.src.addr.get_exact_local_addr(), Some(0x00));
    assert_eq!(h.src.port, 10);
    assert_eq!(h.dst.addr.get_exact_local_addr(), Some(0xFF));
    assert_eq!(h.dst.port, 10);
    assert_eq!(len, 0);
}

// The stuffing really transforms bytes: a payload full of zeros leaves no
// zero in the frame body, and un-stuffs back exactly.
#[test]
fn frame_stuffs_zero_bytes() {
    let body = vec![0u8, 0, 1, 0, 2, 0, 0];
    let frame = encode_frame(&body);
    assert!(frame[..frame.len() - 1].iter().all(|b| *b != 0));
    assert_eq!(decode_frame(&frame).unwrap(), body);
    // Garbage that is not a valid stuffing is refused.
    assert!(decode_frame(&vec![]).is_err());
}
