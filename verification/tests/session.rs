//! Session tests: the inbound handshake driven by a hand-rolled initiator,
//! token mismatch, and the data phase — replay suppression, out-of-order
//! acknowledgement, termination, and retransmission timeout.

use emissary::active::{ActiveSession, ReplayFilter, RtoQueue, SessionEvent};
use emissary::block::{parse_blocks, Block, RouterInfo, SocketAddress, TerminationReason};
use emissary::crypto::{basepoint, chacha_open, sha256, x25519_dh, EphemeralPrivateKey};
use emissary::header::{build_long_header, mask1, mask2, read_header, HeaderKind, MessageType};
use emissary::inbound::{InboundSsu2Context, InboundSsu2Session, InboundStep, Ssu2SessionContext};
use emissary::keys::{kdf_data_phase, kdf_label, kdf_step, label_confirmed, label_create};
use emissary::message::{
    build_data, build_handshake, build_session_confirmed, build_with_key, open_data_packet,
    padding_block, AeadState,
};

const B_ID: u64 = 0x1111;
const A_ID: u64 = 0x2222;
const NET_ID: u8 = 2;
const NOW: u32 = 1_700_000_000;

fn key(b: u8) -> Vec<u8> {
    vec![b; 32]
}

fn addr() -> SocketAddress {
    SocketAddress { ip: vec![127, 0, 0, 1], port: 8888 }
}

fn concat(a: &[u8], b: &[u8]) -> Vec<u8> {
    let mut v = a.to_vec();
    v.extend_from_slice(b);
    v
}

/// The initiator's side of the handshake, up to receiving `SessionCreated`;
/// returns the responder session, the echoed token, and everything the
/// initiator tracked.
struct Initiator {
    eph: Option<EphemeralPrivateKey>,
    a_static: Vec<u8>,
    ck1: Vec<u8>,
    transcript: Vec<u8>,
}

/// Drive a fresh inbound session out of a `TokenRequest`, returning the
/// session and the token the `Retry` carries.
fn open_session(ik_b: &Vec<u8>, b_static: &Vec<u8>) -> (InboundSsu2Session, u64) {
    let hdr = build_long_header(B_ID, 5, MessageType::TokenRequest, NET_ID, A_ID, 0);
    let blocks = vec![Block::DateTime { timestamp: NOW }, padding_block(8)];
    let mut pkt = build_with_key(hdr, &blocks, ik_b, 5);
    // The responder's socket unmasks both halves of a prelude message.
    mask1(&mut pkt, ik_b);
    mask2(&mut pkt, ik_b);
    let context = InboundSsu2Context {
        address: addr(),
        chaining_key: key(3),
        dst_id: B_ID,
        intro_key: ik_b.clone(),
        net_id: NET_ID,
        now_secs: NOW,
        pkt,
        pkt_num: 5,
        src_id: A_ID,
        state: key(4),
        static_key: b_static.clone(),
    };
    let (session, retry) = InboundSsu2Session::new(context).expect("token request accepted");

    // The initiator unmasks and opens the Retry.
    let mut un = retry.pkt.clone();
    mask1(&mut un, ik_b);
    mask2(&mut un, ik_b);
    let token = match read_header(&un).expect("retry header") {
        HeaderKind::Retry { token, .. } => token,
        _ => panic!("expected a retry header"),
    };
    let ad = un[0..32].to_vec();
    let ct = un[32..].to_vec();
    let payload = chacha_open(ik_b, 0, &ad, &ct).expect("retry authenticates");
    let blocks = parse_blocks(&payload, true).expect("retry blocks parse");
    let mut saw_address = false;
    for b in &blocks {
        if let Block::Address { address } = b {
            assert_eq!(address.ip, vec![127, 0, 0, 1]);
            assert_eq!(address.port, 8888);
            saw_address = true;
        }
    }
    assert!(saw_address);
    (session, token)
}

/// Build the initiator's `SessionRequest` for `token`.
fn session_request(ik_b: &Vec<u8>, b_static_pub: &Vec<u8>, token: u64) -> (Initiator, Vec<u8>) {
    let eph = EphemeralPrivateKey::random();
    let a_pub = eph.public();
    let mut shared = eph.dh(b_static_pub);
    let (ck1, k1) = kdf_step(&key(3), &mut shared);
    let hdr = build_long_header(B_ID, 1, MessageType::SessionRequest, NET_ID, A_ID, token);
    let blocks = vec![Block::DateTime { timestamp: NOW }, padding_block(8)];
    let mut aead = AeadState { cipher_key: k1, nonce: 0, state: key(4) };
    let mut pkt = build_handshake(hdr, &a_pub, &blocks, &mut aead, ik_b, ik_b);
    // The responder's socket strips the first-half mask.
    mask1(&mut pkt, ik_b);
    let initiator = Initiator {
        eph: Some(eph),
        a_static: key(9),
        ck1,
        transcript: aead.state,
    };
    (initiator, pkt)
}

/// The initiator consumes `SessionCreated` and answers `SessionConfirmed`.
fn session_confirmed(
    mut initiator: Initiator,
    ik_b: &Vec<u8>,
    scd: &Vec<u8>,
    a_router_id: &Vec<u8>,
    ik_a: &Vec<u8>,
) -> (Vec<u8>, Vec<u8>) {
    let mut un = scd.clone();
    mask1(&mut un, ik_b);
    let kh2_create = kdf_label(&initiator.ck1, &label_create());
    mask2(&mut un, &kh2_create);
    let b_pub = match read_header(&un).expect("session-created header") {
        HeaderKind::SessionCreated { ephemeral_key, .. } => ephemeral_key,
        _ => panic!("expected a session-created header"),
    };
    let ad1 = sha256(&concat(&initiator.transcript, &un[0..32]));
    let ad2 = sha256(&concat(&ad1, &un[32..64]));
    let mut eph = initiator.eph.take().expect("ephemeral key still live");
    let mut shared = eph.dh_and_wipe(&b_pub);
    let (ck2, k2) = kdf_step(&initiator.ck1, &mut shared);
    let ct = un[64..].to_vec();
    let payload = chacha_open(&k2, 0, &ad2, &ct).expect("session-created authenticates");
    parse_blocks(&payload, true).expect("session-created blocks parse");
    let transcript = sha256(&concat(&ad2, &ct));

    let a_static_pub = x25519_dh(&initiator.a_static, &basepoint());
    let mut shared3 = x25519_dh(&initiator.a_static, &b_pub);
    let (ck3, k3) = kdf_step(&ck2, &mut shared3);
    let kh2_conf = kdf_label(&ck2, &label_confirmed());
    let blocks = vec![
        Block::RouterInfo {
            router_info: RouterInfo { router_id: a_router_id.clone(), intro_key: ik_a.clone() },
        },
        padding_block(8),
    ];
    let mut pkt = build_session_confirmed(
        B_ID,
        &blocks,
        &transcript,
        &k2,
        &k3,
        &a_static_pub,
        ik_b,
        &kh2_conf,
    );
    mask1(&mut pkt, ik_b);
    (pkt, ck3)
}

/// Run the whole handshake; returns the responder's promoted context and
/// the initiator's final chaining key.
fn handshake() -> (Ssu2SessionContext, Vec<u8>, Vec<u8>, emissary::Packet) {
    let ik_b = key(1);
    let b_static = key(2);
    let b_static_pub = x25519_dh(&b_static, &basepoint());
    let ik_a = key(0xBB);
    let a_router_id = vec![0xAA; 32];

    let (mut session, token) = open_session(&ik_b, &b_static);
    let (initiator, sr_pkt) = session_request(&ik_b, &b_static_pub, token);
    let scd = match session.on_packet(sr_pkt, NOW).expect("session request accepted") {
        InboundStep::SessionCreatedSent { pkt } => pkt,
        _ => panic!("expected a session-created reply"),
    };
    let (conf_pkt, ck3) = session_confirmed(initiator, &ik_b, &scd.pkt, &a_router_id, &ik_a);
    match session.on_packet(conf_pkt, NOW).expect("session confirmed accepted") {
        InboundStep::NewInboundSession { context, pkt } => (context, ck3, ik_a, pkt),
        _ => panic!("expected promotion"),
    }
}

#[test]
fn vanilla_handshake() {
    let (context, ck3, ik_a, first_ack) = handshake();

    // The responder extracted the initiator's identity and intro key.
    assert_eq!(context.router_id, vec![0xAA; 32]);
    assert_eq!(context.intro_key, ik_a);
    assert_eq!(context.dst_id, A_ID);

    // Both sides observe matching data-phase keys.
    let keys_a = kdf_data_phase(&ck3);
    assert_eq!(context.recv_key_ctx.k_data, keys_a.k_data_ab);
    assert_eq!(context.recv_key_ctx.k_header_2, keys_a.k_header_2_ab);
    assert_eq!(context.send_key_ctx.k_data, keys_a.k_data_ba);
    assert_eq!(context.send_key_ctx.k_header_2, keys_a.k_header_2_ba);

    // The initiator opens the responder's first data packet: an empty ack.
    let mut pkt = first_ack.pkt.clone();
    mask1(&mut pkt, &ik_a);
    let dp = open_data_packet(&pkt, &keys_a.k_data_ba, &keys_a.k_header_2_ba)
        .expect("first ack opens");
    assert_eq!(dp.pkt_num, 0);
    let mut saw_ack = false;
    for b in &dp.blocks {
        if let Block::Ack { ack_through, num_acks, ranges } = b {
            assert_eq!((*ack_through, *num_acks), (0, 0));
            assert!(ranges.is_empty());
            saw_ack = true;
        }
    }
    assert!(saw_ack);
}

#[test]
fn token_mismatch_gets_no_reply() {
    let ik_b = key(1);
    let b_static = key(2);
    let b_static_pub = x25519_dh(&b_static, &basepoint());
    let (mut session, _token) = open_session(&ik_b, &b_static);
    // The initiator echoes a wrong token.
    let (_initiator, sr_pkt) = session_request(&ik_b, &b_static_pub, 0);
    assert!(session.on_packet(sr_pkt, NOW).is_err());
    // The aborted handshake is dead: any further packet terminates it.
    let again = session.on_packet(vec![0u8; 64], NOW);
    assert!(matches!(again, Ok(InboundStep::SessionTerminated)));
}

/// A data-phase packet from the initiator, as the responder's socket hands
/// it to the session (first header half unmasked).
fn data_packet_from_a(ck3: &Vec<u8>, ik_b: &Vec<u8>, pkt_num: u32, blocks: Vec<Block>) -> Vec<u8> {
    let keys_a = kdf_data_phase(ck3);
    let mut all = blocks;
    all.push(padding_block(8));
    let mut pkt = build_data(B_ID, pkt_num, false, &all, &keys_a.k_data_ab, ik_b,
        &keys_a.k_header_2_ab);
    mask1(&mut pkt, ik_b);
    pkt
}

#[test]
fn replay_is_dropped_without_side_effects() {
    let ik_b = key(1);
    let (context, ck3, _ik_a, _first_ack) = handshake();
    let mut session = ActiveSession::new(context);
    let pkt = data_packet_from_a(
        &ck3,
        &ik_b,
        7,
        vec![Block::I2NpMessage { msg_type: 1, message_id: 1, expiration: 0, body: vec![42; 8] }],
    );
    match session.on_datagram(&pkt) {
        SessionEvent::Received { pkt_num, .. } => assert_eq!(pkt_num, 7),
        _ => panic!("first delivery accepted"),
    }
    // An attacker duplicates the packet: dropped, and the window shows
    // packet 7 as seen.
    match session.on_datagram(&pkt) {
        SessionEvent::Duplicate { pkt_num } => assert_eq!(pkt_num, 7),
        _ => panic!("second delivery dropped"),
    }
    assert!(session.is_seen(7));
}

#[test]
fn out_of_order_data_acknowledged_contiguously() {
    let ik_b = key(1);
    let (context, ck3, _ik_a, _first_ack) = handshake();
    let mut session = ActiveSession::new(context);
    for pkt_num in [5u32, 7, 6] {
        let pkt = data_packet_from_a(
            &ck3,
            &ik_b,
            pkt_num,
            vec![Block::I2NpMessage {
                msg_type: 1,
                message_id: pkt_num,
                expiration: 0,
                body: vec![1; 8],
            }],
        );
        match session.on_datagram(&pkt) {
            SessionEvent::Received { pkt_num: got, .. } => assert_eq!(got, pkt_num),
            _ => panic!("in-window packets accepted"),
        }
    }
    match session.pending_ack().expect("something to acknowledge") {
        Block::Ack { ack_through, num_acks, ranges } => {
            assert_eq!((ack_through, num_acks), (7, 0));
            assert!(ranges.is_empty());
        },
        _ => panic!("expected an ack block"),
    }
}

#[test]
fn termination_is_delivered_and_session_closes() {
    let ik_b = key(1);
    let (context, ck3, _ik_a, _first_ack) = handshake();
    let mut session = ActiveSession::new(context);
    let term = data_packet_from_a(
        &ck3,
        &ik_b,
        1,
        vec![Block::Termination { reason: TerminationReason::BannedLocally }],
    );
    match session.on_datagram(&term) {
        SessionEvent::Terminated { reason } => {
            assert_eq!(reason, TerminationReason::BannedLocally)
        },
        _ => panic!("expected termination"),
    }
    // Packets after termination are treated as for a nonexistent session.
    let late = data_packet_from_a(&ck3, &ik_b, 2, vec![]);
    assert!(matches!(session.on_datagram(&late), SessionEvent::Dropped));
}

#[test]
fn local_termination_emits_final_packet() {
    let (context, ck3, ik_a, _first_ack) = handshake();
    let keys_a = kdf_data_phase(&ck3);
    let mut session = ActiveSession::new(context);
    let packet = session.terminate(TerminationReason::RouterShutdown);
    let mut pkt = packet.pkt.clone();
    mask1(&mut pkt, &ik_a);
    let dp = open_data_packet(&pkt, &keys_a.k_data_ba, &keys_a.k_header_2_ba)
        .expect("final packet opens");
    let mut saw = false;
    for b in &dp.blocks {
        if let Block::Termination { reason } = b {
            assert_eq!(*reason, TerminationReason::RouterShutdown);
            saw = true;
        }
    }
    assert!(saw);
}

#[test]
fn packet_numbers_strictly_increase() {
    let (context, ck3, ik_a, _first_ack) = handshake();
    let keys_a = kdf_data_phase(&ck3);
    let mut session = ActiveSession::new(context);
    let mut nums = Vec::new();
    for _ in 0..3 {
        let packet = session.send(vec![Block::I2NpMessage {
            msg_type: 1,
            message_id: 1,
            expiration: 0,
            body: vec![2; 8],
        }]);
        let mut pkt = packet.pkt.clone();
        mask1(&mut pkt, &ik_a);
        let dp = open_data_packet(&pkt, &keys_a.k_data_ba, &keys_a.k_header_2_ba)
            .expect("opens");
        nums.push(dp.pkt_num);
    }
    assert_eq!(nums, vec![1, 2, 3]);
}

#[test]
fn retransmission_limit_times_out() {
    let mut queue = RtoQueue::new();
    queue.insert(1);
    for _ in 0..3 {
        let due = queue.on_timer().expect("still retrying");
        assert_eq!(due, vec![1]);
    }
    match queue.on_timer() {
        Err(reason) => assert_eq!(reason, TerminationReason::Timeout),
        Ok(_) => panic!("the retry limit was reached"),
    }
}

#[test]
fn acknowledged_packet_stops_retrying() {
    let mut queue = RtoQueue::new();
    queue.insert(1);
    queue.insert(2);
    for _ in 0..3 {
        queue.on_timer().expect("still retrying");
    }
    queue.on_ack(1);
    queue.on_ack(2);
    assert_eq!(queue.len(), 0);
    assert!(queue.on_timer().is_ok());
}

#[test]
fn session_timeout_after_unacknowledged_sends() {
    let (context, _ck3, _ik_a, _first_ack) = handshake();
    let mut session = ActiveSession::new(context);
    let _ = session.send(vec![Block::I2NpMessage {
        msg_type: 1,
        message_id: 1,
        expiration: 0,
        body: vec![2; 8],
    }]);
    for _ in 0..3 {
        session.on_timer().expect("still retrying");
    }
    match session.on_timer() {
        Err(reason) => assert_eq!(reason, TerminationReason::Timeout),
        Ok(_) => panic!("the retry limit was reached"),
    }
}

#[test]
fn ack_window_advances_after_sending() {
    let (context, ck3, _ik_a, _first_ack) = handshake();
    let ik_b = key(1);
    let mut session = ActiveSession::new(context);
    for pkt_num in [5u32, 6, 7] {
        let pkt = data_packet_from_a(&ck3, &ik_b, pkt_num, vec![]);
        session.on_datagram(&pkt);
    }
    match session.pending_ack().expect("acks pending") {
        Block::Ack { ack_through, .. } => {
            assert_eq!(ack_through, 7);
            session.ack_sent(ack_through);
        },
        _ => panic!("expected an ack block"),
    }
    assert!(session.pending_ack().is_none());
    // Later packets start a fresh acknowledgement window.
    let pkt = data_packet_from_a(&ck3, &ik_b, 9, vec![]);
    session.on_datagram(&pkt);
    match session.pending_ack().expect("acks pending again") {
        Block::Ack { ack_through, num_acks, .. } => {
            assert_eq!((ack_through, num_acks), (9, 0));
        },
        _ => panic!("expected an ack block"),
    }
}

#[test]
fn handshake_reply_is_retransmitted_then_times_out() {
    let ik_b = key(1);
    let b_static = key(2);
    let (mut session, _token) = open_session(&ik_b, &b_static);
    let mut replies = Vec::new();
    for _ in 0..3 {
        let pkt = session.on_retransmit().expect("still retrying");
        replies.push(pkt.pkt);
    }
    // Every retransmission carries the same Retry bytes.
    assert_eq!(replies[0], replies[1]);
    assert_eq!(replies[1], replies[2]);
    // Past the limit the pending session is destroyed.
    assert!(session.on_retransmit().is_err());
    let after = session.on_packet(vec![0u8; 64], NOW);
    assert!(matches!(after, Ok(InboundStep::SessionTerminated)));
}

#[test]
fn acknowledged_send_leaves_retransmission_queue() {
    let ik_b = key(1);
    let (context, ck3, _ik_a, _first_ack) = handshake();
    let mut session = ActiveSession::new(context);
    let sent = session.send(vec![Block::I2NpMessage {
        msg_type: 1,
        message_id: 1,
        expiration: 0,
        body: vec![2; 8],
    }]);
    assert!(!sent.pkt.is_empty());
    // The peer acknowledges packet 1 inside a data packet of its own.
    let ack_pkt = data_packet_from_a(
        &ck3,
        &ik_b,
        3,
        vec![Block::Ack { ack_through: 1, num_acks: 0, ranges: Vec::new() }],
    );
    match session.on_datagram(&ack_pkt) {
        SessionEvent::Received { pkt_num, .. } => assert_eq!(pkt_num, 3),
        _ => panic!("ack packet accepted"),
    }
    // Nothing is left to retransmit.
    let due = session.on_timer().expect("nothing has timed out");
    assert!(due.is_empty());
}

#[test]
fn gapped_history_reports_ranges() {
    let ik_b = key(1);
    let (context, ck3, _ik_a, _first_ack) = handshake();
    let mut session = ActiveSession::new(context);
    for pkt_num in [5u32, 7] {
        let pkt = data_packet_from_a(&ck3, &ik_b, pkt_num, vec![]);
        session.on_datagram(&pkt);
    }
    match session.pending_ack().expect("acks pending") {
        Block::Ack { ack_through, num_acks, ranges } => {
            assert_eq!(ack_through, 7);
            assert!(num_acks >= 1);
            assert_eq!(ranges.len(), 1);
            // One gap (packet 6), one acknowledged packet (5).
            assert_eq!(ranges[0], (1, 1));
        },
        _ => panic!("expected an ack block"),
    }
}

#[test]
fn replay_filter_window_floor() {
    let mut filter = ReplayFilter::new();
    assert!(filter.accept(100));
    assert!(!filter.accept(100));
    // Within the window, order does not matter.
    assert!(filter.accept(80));
    assert!(!filter.accept(80));
    // Far below the floor: rejected out of hand.
    assert!(!filter.accept(5));
    assert!(filter.is_seen(100));
    assert!(filter.is_seen(80));
    assert!(!filter.is_seen(99));
}
