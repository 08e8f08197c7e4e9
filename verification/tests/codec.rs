//! Byte-level tests: integer fields, block codec, headers, masking, the
//! data-phase packet round trip, and the I2CP encoders.

use emissary::block::{parse_blocks, serialize_blocks, Block, RouterInfo, SocketAddress,
    TerminationReason};
use emissary::header::{
    build_long_header, build_short_header, extract_dst_id, mask1, mask2, read_header, HeaderKind,
    MessageType,
};
use emissary::i2cp::{BandwidthLimits, MessagePayload};
use emissary::message::{build_data, open_data_packet, padding_block};
use emissary::wire::{get_be16, get_be32, get_be64, put_be16, put_be32, put_be64};

fn key(b: u8) -> Vec<u8> {
    vec![b; 32]
}

#[test]
fn be_fields_round_trip() {
    let mut buf: Vec<u8> = Vec::new();
    put_be16(&mut buf, 0xBEEF);
    put_be32(&mut buf, 0xDEADBEEF);
    put_be64(&mut buf, 0x0123456789ABCDEF);
    assert_eq!(buf.len(), 14);
    assert_eq!(get_be16(&buf, 0), 0xBEEF);
    assert_eq!(get_be32(&buf, 2), 0xDEADBEEF);
    assert_eq!(get_be64(&buf, 6), 0x0123456789ABCDEF);
    assert_eq!(&buf[0..2], &[0xBE, 0xEF]);
}

fn sample_blocks() -> Vec<Block> {
    vec![
        Block::DateTime { timestamp: 1_700_000_000 },
        Block::Options { options: vec![1, 2, 3] },
        Block::RouterInfo {
            router_info: RouterInfo { router_id: vec![0xAA; 32], intro_key: vec![0xBB; 32] },
        },
        Block::I2NpMessage { msg_type: 19, message_id: 7, expiration: 99, body: vec![9, 8, 7] },
        Block::FirstFragment { msg_type: 20, message_id: 8, expiration: 100, fragment: vec![5] },
        Block::FollowOnFragment { last: true, message_id: 8, fragment_num: 1, fragment: vec![6] },
        Block::Termination { reason: TerminationReason::BannedLocally },
        Block::Padding { padding: vec![0; 8] },
        Block::Ack { ack_through: 7, num_acks: 2, ranges: vec![(1, 1)] },
        Block::Address { address: SocketAddress { ip: vec![127, 0, 0, 1], port: 8080 } },
    ]
}

#[test]
fn blocks_round_trip() {
    let blocks = sample_blocks();
    let bytes = serialize_blocks(&blocks);
    let parsed = parse_blocks(&bytes, true).expect("round trip");
    assert_eq!(parsed.len(), blocks.len());
    match &parsed[0] {
        Block::DateTime { timestamp } => assert_eq!(*timestamp, 1_700_000_000),
        _ => panic!("expected a date-time block"),
    }
    match &parsed[2] {
        Block::RouterInfo { router_info } => {
            assert_eq!(router_info.router_id, vec![0xAA; 32]);
            assert_eq!(router_info.intro_key, vec![0xBB; 32]);
        },
        _ => panic!("expected a router-info block"),
    }
    match &parsed[3] {
        Block::I2NpMessage { msg_type, message_id, expiration, body } => {
            assert_eq!((*msg_type, *message_id, *expiration), (19, 7, 99));
            assert_eq!(body, &vec![9, 8, 7]);
        },
        _ => panic!("expected a message block"),
    }
    match &parsed[5] {
        Block::FollowOnFragment { last, message_id, fragment_num, fragment } => {
            assert!(*last);
            assert_eq!((*message_id, *fragment_num), (8, 1));
            assert_eq!(fragment, &vec![6]);
        },
        _ => panic!("expected a follow-on fragment"),
    }
    match &parsed[6] {
        Block::Termination { reason } => assert_eq!(*reason, TerminationReason::BannedLocally),
        _ => panic!("expected a termination block"),
    }
    match &parsed[8] {
        Block::Ack { ack_through, num_acks, ranges } => {
            assert_eq!((*ack_through, *num_acks), (7, 2));
            assert_eq!(ranges, &vec![(1, 1)]);
        },
        _ => panic!("expected an ack block"),
    }
    match &parsed[9] {
        Block::Address { address } => {
            assert_eq!(address.ip, vec![127, 0, 0, 1]);
            assert_eq!(address.port, 8080);
        },
        _ => panic!("expected an address block"),
    }
}

#[test]
fn unknown_block_fatal_in_handshake_skipped_in_data_phase() {
    // One unknown block (tag 200), then a known date-time block.
    let mut bytes: Vec<u8> = vec![200, 0, 2, 0xEE, 0xFF];
    let date = serialize_blocks(&vec![Block::DateTime { timestamp: 5 }]);
    bytes.extend_from_slice(&date);
    assert!(parse_blocks(&bytes, true).is_none());
    let parsed = parse_blocks(&bytes, false).expect("skipped in data phase");
    assert_eq!(parsed.len(), 1);
    match &parsed[0] {
        Block::DateTime { timestamp } => assert_eq!(*timestamp, 5),
        _ => panic!("expected a date-time block"),
    }
}

#[test]
fn truncated_blocks_rejected() {
    let blocks = vec![Block::DateTime { timestamp: 5 }];
    let mut bytes = serialize_blocks(&blocks);
    bytes.pop();
    assert!(parse_blocks(&bytes, true).is_none());
    assert!(parse_blocks(&bytes, false).is_none());
    // A length that overruns the buffer is also fatal.
    assert!(parse_blocks(&vec![0, 0, 9, 1], true).is_none());
}

#[test]
fn long_header_fields_read_back() {
    let mut pkt = build_long_header(0x1111, 3, MessageType::TokenRequest, 2, 0x2222, 77);
    // Pad to a plausible packet length so the reader accepts it.
    pkt.extend_from_slice(&[0u8; 32]);
    match read_header(&pkt).expect("token request") {
        HeaderKind::TokenRequest { src_id, pkt_num, net_id } => {
            assert_eq!((src_id, pkt_num, net_id), (0x2222, 3, 2));
        },
        _ => panic!("expected a token-request header"),
    }
}

#[test]
fn short_header_fields_read_back() {
    let mut pkt = build_short_header(0x3333, 9, true);
    pkt.extend_from_slice(&[0u8; 32]);
    match read_header(&pkt).expect("data header") {
        HeaderKind::Data { pkt_num, immediate_ack } => {
            assert_eq!(pkt_num, 9);
            assert!(immediate_ack);
        },
        _ => panic!("expected a data header"),
    }
}

#[test]
fn wrong_version_rejected() {
    let mut pkt = build_long_header(0x1111, 3, MessageType::TokenRequest, 2, 0x2222, 77);
    pkt[13] = 9;
    pkt.extend_from_slice(&[0u8; 32]);
    assert!(matches!(read_header(&pkt), Err(emissary::Ssu2Error::InvalidVersion)));
}

#[test]
fn header_masking_round_trips() {
    let k1 = key(0x11);
    let k2 = key(0x22);
    let mut pkt: Vec<u8> = (0u8..64).collect();
    let clear = pkt.clone();
    mask1(&mut pkt, &k1);
    mask2(&mut pkt, &k2);
    assert_ne!(&pkt[0..16], &clear[0..16]);
    assert_eq!(&pkt[16..], &clear[16..]);
    mask1(&mut pkt, &k1);
    mask2(&mut pkt, &k2);
    assert_eq!(pkt, clear);
}

#[test]
fn dst_id_extracted_through_mask() {
    let ik = key(0x31);
    let mut pkt = build_short_header(0xCAFEBABE_u64, 1, false);
    pkt.extend_from_slice(&[7u8; 40]);
    mask1(&mut pkt, &ik);
    // The socket peeks the connection ID without consuming the packet.
    // Masking is an involution, so unmasking inside extract_dst_id works.
    let id = extract_dst_id(&pkt, &ik).expect("long enough");
    assert_eq!(id, 0xCAFEBABE_u64);
}

#[test]
fn data_packet_round_trips() {
    let k_data = key(0x41);
    let ik = key(0x42);
    let kh2 = key(0x43);
    let blocks = vec![
        Block::I2NpMessage { msg_type: 1, message_id: 2, expiration: 3, body: vec![1; 16] },
        padding_block(8),
    ];
    let mut pkt = build_data(0x7777, 12, false, &blocks, &k_data, &ik, &kh2);
    // The receiving socket strips the first-half mask.
    mask1(&mut pkt, &ik);
    let dp = open_data_packet(&pkt, &k_data, &kh2).expect("opens");
    assert_eq!(dp.pkt_num, 12);
    assert!(!dp.immediate_ack);
    assert_eq!(dp.blocks.len(), 2);
    match &dp.blocks[0] {
        Block::I2NpMessage { body, .. } => assert_eq!(body, &vec![1; 16]),
        _ => panic!("expected the message block"),
    }
}

#[test]
fn tampered_data_packet_rejected() {
    let k_data = key(0x41);
    let ik = key(0x42);
    let kh2 = key(0x43);
    let blocks = vec![
        Block::I2NpMessage { msg_type: 1, message_id: 2, expiration: 3, body: vec![1; 16] },
        padding_block(8),
    ];
    let mut pkt = build_data(0x7777, 12, false, &blocks, &k_data, &ik, &kh2);
    mask1(&mut pkt, &ik);
    let last = pkt.len() - 30;
    pkt[last] ^= 0x01;
    assert!(open_data_packet(&pkt, &k_data, &kh2).is_none());
}

#[test]
fn bandwidth_limits_exact_bytes() {
    let out = BandwidthLimits::new();
    let mut expected: Vec<u8> = Vec::new();
    expected.extend_from_slice(&64u32.to_be_bytes());
    expected.push(23);
    for v in [500u32, 500, 2000, 2000, 2000, 2000, 5, 0, 0, 0, 0, 0, 0, 0, 0, 0] {
        expected.extend_from_slice(&v.to_be_bytes());
    }
    assert_eq!(&out[..], &expected[..]);
    assert_eq!(out.len(), 69);
}

#[test]
fn message_payload_exact_bytes() {
    let out = MessagePayload::new(0x0102, 0x03040506, vec![0xAA, 0xBB, 0xCC]);
    let mut expected: Vec<u8> = Vec::new();
    expected.extend_from_slice(&13u32.to_be_bytes());
    expected.push(31);
    expected.extend_from_slice(&[0x01, 0x02]);
    expected.extend_from_slice(&[0x03, 0x04, 0x05, 0x06]);
    expected.extend_from_slice(&3u32.to_be_bytes());
    expected.extend_from_slice(&[0xAA, 0xBB, 0xCC]);
    assert_eq!(&out[..], &expected[..]);
}
