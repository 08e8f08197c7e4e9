//! The pending inbound SSU2 session: `TokenRequest` received → `Retry`
//! emitted → `SessionRequest` verified and answered with `SessionCreated` →
//! `SessionConfirmed` verified → promotion to an active session.
//!
//! The state advances monotonically and never returns to an earlier state;
//! a `Poisoned` sentinel guards re-entry during fallible transitions. All
//! I/O stays outside: packets come in as byte vectors, replies go out as
//! return values.

use vstd::prelude::*;

use crate::block::{
    find_router_info, parse_blocks, spec_blocks_wf, spec_find_router_info, spec_parse_blocks,
    views_of, Block, BlockView, SocketAddress, SocketAddressView,
};
use crate::crypto::{
    chacha_open, chacha_seal_of, rng_u64, sha256, sha256_of, spec_basepoint, wipe,
    x25519_dh, x25519_of, EphemeralPrivateKey,
};
use crate::header::{
    build_long_header, mask2, read_header, spec_long_header, spec_mask2, spec_read_header,
    HeaderKind, HeaderKindView, MessageType, MIN_PACKET_LEN,
};
use crate::keys::{
    kdf_data_phase, kdf_label, kdf_step, label_confirmed, label_create, spec_data_header_key,
    spec_data_key, spec_data_root_ab, spec_data_root_ba, spec_kdf_ck, spec_kdf_k, spec_kdf_label,
    spec_label_confirmed_seq, spec_label_create_seq,
};
use crate::message::{
    build_data, build_handshake, build_with_key, padding_block, spec_data_packet, spec_hs_packet,
    spec_hs_next_state, spec_padding_block, spec_prelude_packet, AeadState,
};
use crate::wire::{push_all, sub_vec};
use crate::{Packet, Ssu2Error};

verus! {

/// Everything the socket multiplexer hands a fresh inbound session: the
/// unmasked `TokenRequest` packet and the local identity material.
pub struct InboundSsu2Context {
    /// Socket address of the remote router.
    pub address: SocketAddress,
    /// Initial chaining key of the protocol.
    pub chaining_key: Vec<u8>,
    /// Destination connection ID the packet carried.
    pub dst_id: u64,
    /// Local intro key.
    pub intro_key: Vec<u8>,
    /// Local network ID.
    pub net_id: u8,
    /// Seconds since the epoch, for the `DateTime` block of the reply.
    pub now_secs: u32,
    /// The fully unmasked `TokenRequest` packet.
    pub pkt: Vec<u8>,
    /// Packet number of the `TokenRequest`.
    pub pkt_num: u32,
    /// Source connection ID the packet carried.
    pub src_id: u64,
    /// Initial transcript state of the protocol.
    pub state: Vec<u8>,
    /// Local static private key.
    pub static_key: Vec<u8>,
}

impl InboundSsu2Context {
    /// Key material has its sizes.
    pub open spec fn wf(&self) -> bool {
        self.chaining_key@.len() == 32 && self.intro_key@.len() == 32 && self.static_key@.len()
            == 32 && (self.address.ip@.len() == 4 || self.address.ip@.len() == 16)
    }
}

/// Pending inbound session state.
enum PendingSessionState {
    /// `Retry` sent; the peer must echo the token in `SessionRequest`.
    AwaitingSessionRequest { token: u64 },
    /// `SessionCreated` sent; awaiting `SessionConfirmed`.
    AwaitingSessionConfirmed {
        chaining_key: Vec<u8>,
        ephemeral_key: EphemeralPrivateKey,
        k_header_2: Vec<u8>,
        k_session_created: Vec<u8>,
        state: Vec<u8>,
    },
    /// A fallible transition was entered and not completed.
    Poisoned,
}

/// One direction's data-phase key pair.
pub struct KeyContext {
    /// AEAD key.
    pub k_data: Vec<u8>,
    /// Header key for the second header half.
    pub k_header_2: Vec<u8>,
}

impl KeyContext {
    /// Pack an AEAD key and a header key.
    pub fn new(k_data: Vec<u8>, k_header_2: Vec<u8>) -> (r: Self)
        ensures
            r.k_data == k_data,
            r.k_header_2 == k_header_2,
    {
        KeyContext { k_data, k_header_2 }
    }
}

/// What a promoted session needs to run the data phase.
pub struct Ssu2SessionContext {
    /// Socket address of the remote router.
    pub address: SocketAddress,
    /// Connection ID the peer expects on packets we send.
    pub dst_id: u64,
    /// The peer's intro key, from its router-info record.
    pub intro_key: Vec<u8>,
    /// Keys for packets the peer sends us.
    pub recv_key_ctx: KeyContext,
    /// Keys for packets we send the peer.
    pub send_key_ctx: KeyContext,
    /// The peer's router identity hash.
    pub router_id: Vec<u8>,
}

/// What one step of the inbound handshake yields.
pub enum InboundStep {
    /// `SessionCreated` was built; send it and keep waiting.
    SessionCreatedSent { pkt: Packet },
    /// The handshake completed: context for the active session and the
    /// first data-phase packet (an empty `Ack`) to send.
    NewInboundSession { context: Ssu2SessionContext, pkt: Packet },
    /// The state was observed poisoned; the session is dead.
    SessionTerminated,
}

/// The blocks of a `Retry` or `SessionCreated` reply: the sender's clock,
/// the peer's address as seen here, and minimum padding.
pub open spec fn spec_reply_blocks(now_secs: u32, address: SocketAddressView) -> Seq<BlockView> {
    seq![
        BlockView::DateTime { timestamp: now_secs },
        BlockView::Address { address },
        spec_padding_block(8),
    ]
}

/// Build the reply blocks.
fn reply_blocks(now_secs: u32, address: &SocketAddress) -> (r: Vec<Block>)
    requires
        address.ip@.len() == 4 || address.ip@.len() == 16,
    ensures
        views_of(r@) == spec_reply_blocks(now_secs, address@),
        spec_blocks_wf(views_of(r@)),
{
    let mut blocks: Vec<Block> = Vec::new();
    blocks.push(Block::DateTime { timestamp: now_secs });
    let ip = sub_vec(&address.ip, 0, address.ip.len());
    proof {
        assert(ip@ =~= address.ip@);
    }
    blocks.push(Block::Address { address: SocketAddress { ip, port: address.port } });
    blocks.push(padding_block(8));
    proof {
        assert(views_of(blocks@) =~= spec_reply_blocks(now_secs, address@));
    }
    blocks
}

/// The `Retry` packet a fresh inbound session answers a `TokenRequest`
/// with: a prelude message under the local intro key, echoing the
/// connection IDs swapped and carrying the freshly drawn token.
pub open spec fn spec_retry_packet(
    intro_key: Seq<u8>,
    dst_id: u64,
    src_id: u64,
    net_id: u8,
    token: u64,
    now_secs: u32,
    address: SocketAddressView,
) -> Seq<u8> {
    spec_prelude_packet(
        intro_key,
        0,
        spec_long_header(src_id, 0, 5u8, net_id, dst_id, token),
        spec_reply_blocks(now_secs, address),
    )
}

/// How many times a handshake reply is retransmitted before the pending
/// session is destroyed.
pub const MAX_HANDSHAKE_RETRIES: u8 = 3;

/// Pending inbound SSU2 session.
pub struct InboundSsu2Session {
    /// Socket address of the remote router.
    address: SocketAddress,
    /// Transcript state as of the `TokenRequest`.
    aead: Vec<u8>,
    /// Initial chaining key of the protocol.
    chaining_key: Vec<u8>,
    /// Destination connection ID (ours).
    dst_id: u64,
    /// Local intro key.
    intro_key: Vec<u8>,
    /// Local network ID.
    net_id: u8,
    /// The last reply sent, kept for retransmission by timer.
    reply_pkt: Vec<u8>,
    /// How many times the last reply was retransmitted.
    retries: u8,
    /// Source connection ID (the peer's).
    src_id: u64,
    /// Pending session state.
    state: PendingSessionState,
    /// Local static private key.
    static_key: Vec<u8>,
}

impl InboundSsu2Session {
    /// Key material has its sizes, whatever the state.
    pub closed spec fn wf(&self) -> bool {
        &&& self.chaining_key@.len() == 32
        &&& self.intro_key@.len() == 32
        &&& self.static_key@.len() == 32
        &&& (self.address.ip@.len() == 4 || self.address.ip@.len() == 16)
        &&& match self.state {
            PendingSessionState::AwaitingSessionRequest { .. } => true,
            PendingSessionState::AwaitingSessionConfirmed {
                ref chaining_key,
                ref ephemeral_key,
                ref k_header_2,
                ref k_session_created,
                ..
            } => chaining_key@.len() == 32 && ephemeral_key.is_live() && k_header_2@.len() == 32
                && k_session_created@.len() == 32,
            PendingSessionState::Poisoned => true,
        }
    }

    /// The session still waits for `SessionRequest`.
    pub closed spec fn is_awaiting_request(&self) -> bool {
        self.state is AwaitingSessionRequest
    }

    /// The session waits for `SessionConfirmed`.
    pub closed spec fn is_awaiting_confirmed(&self) -> bool {
        self.state is AwaitingSessionConfirmed
    }

    /// A fallible transition was entered and not completed.
    pub closed spec fn is_poisoned(&self) -> bool {
        self.state is Poisoned
    }

    /// The token the peer must echo.
    pub closed spec fn token(&self) -> u64
        recommends
            self.is_awaiting_request(),
    {
        self.state->AwaitingSessionRequest_token
    }

    /// The bytes of the last reply sent, retransmitted by timer.
    pub closed spec fn last_reply(&self) -> Seq<u8> {
        self.reply_pkt@
    }

    /// How many times the last reply was retransmitted.
    pub closed spec fn retries(&self) -> u8 {
        self.retries
    }

    /// Create a new inbound session from a `TokenRequest` packet: verify
    /// that it decrypts under the local intro key and parses into handshake
    /// blocks, draw a random token, and build the `Retry` reply.
    ///
    /// Succeeds exactly when the packet is long enough, its payload
    /// authenticates under the intro key with the long header as associated
    /// data, and the payload parses into handshake blocks.
    pub fn new(context: InboundSsu2Context) -> (r: Result<(Self, Packet), Ssu2Error>)
        requires
            context.wf(),
        ensures
            match r {
                Ok((session, packet)) => {
                    &&& session.wf()
                    &&& session.is_awaiting_request()
                    &&& session.transcript0() == context.state@
                    &&& session.ck0() == context.chaining_key@
                    &&& session.intro_key_bytes() == context.intro_key@
                    &&& session.static_key_bytes() == context.static_key@
                    &&& session.dst() == context.dst_id
                    &&& session.src() == context.src_id
                    &&& session.net() == context.net_id
                    &&& session.addr() == context.address@
                    &&& packet.pkt@ == spec_retry_packet(
                        context.intro_key@,
                        context.dst_id,
                        context.src_id,
                        context.net_id,
                        session.token(),
                        context.now_secs,
                        context.address@,
                    )
                    &&& packet.address@ == context.address@
                    &&& session.last_reply() == packet.pkt@
                    &&& session.retries() == 0
                    &&& context.pkt@.len() >= 48
                    &&& exists|p: Seq<u8>|
                        context.pkt@.skip(32) == chacha_seal_of(
                            context.intro_key@,
                            context.pkt_num as u64,
                            context.pkt@.subrange(0, 32),
                            p,
                        ) && spec_parse_blocks(p, true) is Some
                },
                Err(e) => {
                    &&& e == Ssu2Error::Malformed
                    &&& context.pkt@.len() < 48 || (forall|p: Seq<u8>|
                        context.pkt@.skip(32) == chacha_seal_of(
                            context.intro_key@,
                            context.pkt_num as u64,
                            context.pkt@.subrange(0, 32),
                            p,
                        ) ==> spec_parse_blocks(p, true) is None)
                },
            },
    {
        let InboundSsu2Context {
            address,
            chaining_key,
            dst_id,
            intro_key,
            net_id,
            now_secs,
            pkt,
            pkt_num,
            src_id,
            state,
            static_key,
        } = context;

        if pkt.len() < 48 {
            return Err(Ssu2Error::Malformed);
        }
        let ad = sub_vec(&pkt, 0, 32);
        let ct = sub_vec(&pkt, 32, pkt.len());
        proof {
            assert(ct@ =~= pkt@.skip(32));
        }
        let payload = match chacha_open(&intro_key, pkt_num as u64, &ad, &ct) {
            Some(p) => p,
            None => {
                return Err(Ssu2Error::Malformed);
            },
        };
        if parse_blocks(&payload, true).is_none() {
            return Err(Ssu2Error::Malformed);
        }

        let token = rng_u64();
        let header = build_long_header(src_id, 0, MessageType::Retry, net_id, dst_id, token);
        let blocks = reply_blocks(now_secs, &address);
        let retry = build_with_key(header, &blocks, &intro_key, 0);
        let reply_pkt = sub_vec(&retry, 0, retry.len());
        proof {
            assert(reply_pkt@ =~= retry@);
        }

        let session = InboundSsu2Session {
            address: SocketAddress { ip: address.ip, port: address.port },
            aead: state,
            chaining_key,
            dst_id,
            intro_key,
            net_id,
            reply_pkt,
            retries: 0,
            src_id,
            state: PendingSessionState::AwaitingSessionRequest { token },
            static_key,
        };
        let out_address = SocketAddress {
            ip: sub_vec(&session.address.ip, 0, session.address.ip.len()),
            port: session.address.port,
        };
        proof {
            assert(out_address.ip@ =~= session.address.ip@);
        }
        Ok((session, Packet { pkt: retry, address: out_address }))
    }
}

/// The transcript fold of a `SessionRequest`: the initial state folded with
/// the 32-byte header, then with the 32-byte ephemeral key.
pub open spec fn spec_sr_state2(tr0: Seq<u8>, un: Seq<u8>) -> Seq<u8> {
    sha256_of(sha256_of(tr0 + un.subrange(0, 32)) + un.subrange(32, 64))
}

/// The transcript state after a `SessionRequest`: the fold above folded
/// with the message's ciphertext.
pub open spec fn spec_sr_new_state(tr0: Seq<u8>, un: Seq<u8>) -> Seq<u8> {
    sha256_of(spec_sr_state2(tr0, un) + un.skip(64))
}

impl InboundSsu2Session {
    /// The transcript state this session started from.
    pub closed spec fn transcript0(&self) -> Seq<u8> {
        self.aead@
    }

    /// The initial chaining key.
    pub closed spec fn ck0(&self) -> Seq<u8> {
        self.chaining_key@
    }

    /// The local intro key.
    pub closed spec fn intro_key_bytes(&self) -> Seq<u8> {
        self.intro_key@
    }

    /// The local static private key.
    pub closed spec fn static_key_bytes(&self) -> Seq<u8> {
        self.static_key@
    }

    /// Our connection ID.
    pub closed spec fn dst(&self) -> u64 {
        self.dst_id
    }

    /// The peer's connection ID.
    pub closed spec fn src(&self) -> u64 {
        self.src_id
    }

    /// The local network ID.
    pub closed spec fn net(&self) -> u8 {
        self.net_id
    }

    /// The peer's socket address.
    pub closed spec fn addr(&self) -> SocketAddressView {
        self.address@
    }

    /// The chaining key after `SessionCreated` was sent.
    pub closed spec fn hs_chaining_key(&self) -> Seq<u8>
        recommends
            self.is_awaiting_confirmed(),
    {
        self.state->AwaitingSessionConfirmed_chaining_key@
    }

    /// Our ephemeral private scalar, live until `SessionConfirmed`.
    pub closed spec fn hs_ephemeral(&self) -> Seq<u8>
        recommends
            self.is_awaiting_confirmed(),
    {
        self.state->AwaitingSessionConfirmed_ephemeral_key@
    }

    /// The header key the peer's `SessionConfirmed` must be unmasked with.
    pub closed spec fn hs_k_header_2(&self) -> Seq<u8>
        recommends
            self.is_awaiting_confirmed(),
    {
        self.state->AwaitingSessionConfirmed_k_header_2@
    }

    /// The cipher key protecting the static-key section of
    /// `SessionConfirmed`.
    pub closed spec fn hs_k_session_created(&self) -> Seq<u8>
        recommends
            self.is_awaiting_confirmed(),
    {
        self.state->AwaitingSessionConfirmed_k_session_created@
    }

    /// The transcript state after `SessionCreated`.
    pub closed spec fn hs_state(&self) -> Seq<u8>
        recommends
            self.is_awaiting_confirmed(),
    {
        self.state->AwaitingSessionConfirmed_state@
    }

    /// The identity material never changes across steps.
    pub open spec fn same_identity(&self, other: &Self) -> bool {
        &&& self.transcript0() == other.transcript0()
        &&& self.ck0() == other.ck0()
        &&& self.intro_key_bytes() == other.intro_key_bytes()
        &&& self.static_key_bytes() == other.static_key_bytes()
        &&& self.dst() == other.dst()
        &&& self.src() == other.src()
        &&& self.net() == other.net()
        &&& self.addr() == other.addr()
    }

    /// Build the `SessionCreated` answer once the `SessionRequest` is
    /// verified: draw an ephemeral key, run the second key-agreement step,
    /// seal the reply, and store the pieces `SessionConfirmed` will need.
    #[verifier::rlimit(100)]
    #[verifier::spinoff_prover]
    fn answer_session_request(
        &mut self,
        ck1: Vec<u8>,
        peer_eph: Vec<u8>,
        new_state: Vec<u8>,
        now_secs: u32,
    ) -> (r: Packet)
        requires
            old(self).wf(),
            old(self).is_poisoned(),
            ck1@.len() == 32,
            peer_eph@.len() == 32,
        ensures
            final(self).wf(),
            final(self).same_identity(old(self)),
            final(self).is_awaiting_confirmed(),
            ({
                let eph = final(self).hs_ephemeral();
                let ck2 = spec_kdf_ck(ck1@, x25519_of(eph, peer_eph@));
                let k2 = spec_kdf_k(ck1@, x25519_of(eph, peer_eph@));
                &&& final(self).hs_chaining_key() == ck2
                &&& final(self).hs_k_session_created() == k2
                &&& final(self).hs_k_header_2() == spec_kdf_label(
                    ck2,
                    spec_label_confirmed_seq(),
                )
                &&& final(self).hs_state() == spec_hs_next_state(
                    k2,
                    0,
                    new_state@,
                    spec_long_header(
                        old(self).src(),
                        0,
                        1u8,
                        old(self).net(),
                        old(self).dst(),
                        0,
                    ),
                    x25519_of(eph, spec_basepoint()),
                    spec_reply_blocks(now_secs, old(self).addr()),
                )
                &&& r.pkt@ == spec_hs_packet(
                    k2,
                    0,
                    new_state@,
                    spec_long_header(
                        old(self).src(),
                        0,
                        1u8,
                        old(self).net(),
                        old(self).dst(),
                        0,
                    ),
                    x25519_of(eph, spec_basepoint()),
                    spec_reply_blocks(now_secs, old(self).addr()),
                    old(self).intro_key_bytes(),
                    spec_kdf_label(ck1@, spec_label_create_seq()),
                )
                &&& r.address@ == old(self).addr()
                &&& final(self).last_reply() == r.pkt@
                &&& final(self).retries() == 0
            }),
    {
        let sk = EphemeralPrivateKey::random();
        let pk = sk.public();
        let mut shared2 = sk.dh(&peer_eph);
        let (ck2, cipher_key2) = kdf_step(&ck1, &mut shared2);

        let create_label = label_create();
        let k_header_2_next = kdf_label(&ck1, &create_label);

        let mut aead_key: Vec<u8> = Vec::new();
        push_all(&mut aead_key, &cipher_key2);
        proof {
            assert(aead_key@ =~= cipher_key2@);
        }
        let mut aead_state = AeadState { cipher_key: aead_key, nonce: 0, state: new_state };
        let header = build_long_header(
            self.src_id,
            0,
            MessageType::SessionCreated,
            self.net_id,
            self.dst_id,
            0,
        );
        let blocks = reply_blocks(now_secs, &self.address);
        let scd = build_handshake(
            header,
            &pk,
            &blocks,
            &mut aead_state,
            &self.intro_key,
            &k_header_2_next,
        );

        let confirmed_label = label_confirmed();
        let k_header_2 = kdf_label(&ck2, &confirmed_label);
        self.state = PendingSessionState::AwaitingSessionConfirmed {
            chaining_key: ck2,
            ephemeral_key: sk,
            k_header_2,
            k_session_created: cipher_key2,
            state: aead_state.state,
        };
        let reply_copy = sub_vec(&scd, 0, scd.len());
        proof {
            assert(reply_copy@ =~= scd@);
        }
        self.reply_pkt = reply_copy;
        self.retries = 0;

        let out_address = SocketAddress {
            ip: sub_vec(&self.address.ip, 0, self.address.ip.len()),
            port: self.address.port,
        };
        proof {
            assert(out_address.ip@ =~= self.address.ip@);
        }
        Packet { pkt: scd, address: out_address }
    }

    /// Handle `SessionRequest`: unmask the second header half with the
    /// intro key, verify the echoed token and the network ID, run the two
    /// key-agreement steps, decrypt and parse the payload, and answer with
    /// `SessionCreated`.
    ///
    /// On entry the state has been taken (poisoned); on success it becomes
    /// `AwaitingSessionConfirmed`, on failure it stays poisoned and the
    /// handshake is aborted. Succeeds exactly on the packets
    /// `spec_sr_accepts` describes.
    #[verifier::rlimit(100)]
    #[verifier::spinoff_prover]
    fn on_session_request(&mut self, pkt: Vec<u8>, token: u64, now_secs: u32) -> (r: Result<
        Packet,
        Ssu2Error,
    >)
        requires
            old(self).wf(),
            old(self).is_poisoned(),
        ensures
            final(self).wf(),
            final(self).same_identity(old(self)),
            match r {
                Ok(packet) => {
                    &&& spec_sr_accepts(*old(self), token, pkt@)
                    &&& spec_sr_post(*old(self), *final(self), pkt@, now_secs)
                    &&& packet.pkt@ == spec_created_reply(*old(self), *final(self), pkt@, now_secs)
                    &&& packet.address@ == old(self).addr()
                    &&& final(self).last_reply() == packet.pkt@
                    &&& final(self).retries() == 0
                },
                Err(_) => final(self).is_poisoned() && !spec_sr_accepts(*old(self), token, pkt@),
            },
    {
        let ghost pkt0 = pkt@;
        let ghost pre = *old(self);
        if pkt.len() < MIN_PACKET_LEN {
            proof {
                reveal(spec_sr_accepts);
            }
            return Err(Ssu2Error::Malformed);
        }
        let mut un = pkt;
        mask2(&mut un, &self.intro_key);
        let ghost unv = spec_mask2(pkt0, pre.intro_key_bytes());
        let (ephemeral_key, recv_token, net_id) = match read_header(&un) {
            Ok(HeaderKind::SessionRequest { ephemeral_key, pkt_num: _, token, net_id }) => (
                ephemeral_key,
                token,
                net_id,
            ),
            Ok(_) => {
                proof {
                    reveal(spec_sr_accepts);
                }
                return Err(Ssu2Error::UnexpectedMessage);
            },
            Err(e) => {
                proof {
                    reveal(spec_sr_accepts);
                }
                return Err(e);
            },
        };
        if recv_token != token {
            proof {
                reveal(spec_sr_accepts);
            }
            return Err(Ssu2Error::Malformed);
        }
        if net_id != self.net_id {
            proof {
                reveal(spec_sr_accepts);
            }
            return Err(Ssu2Error::InvalidNetId);
        }

        let mut h1_input: Vec<u8> = Vec::new();
        push_all(&mut h1_input, &self.aead);
        let hdr = sub_vec(&un, 0, 32);
        push_all(&mut h1_input, &hdr);
        let h1 = sha256(&h1_input);
        let mut h2_input: Vec<u8> = Vec::new();
        push_all(&mut h2_input, &h1);
        let eph_bytes = sub_vec(&un, 32, 64);
        push_all(&mut h2_input, &eph_bytes);
        let state2 = sha256(&h2_input);
        proof {
            assert(h1_input@ =~= pre.transcript0() + unv.subrange(0, 32));
            assert(h2_input@ =~= sha256_of(pre.transcript0() + unv.subrange(0, 32))
                + unv.subrange(32, 64));
            assert(state2@ == spec_sr_state2(pre.transcript0(), unv));
            assert(ephemeral_key@ == unv.subrange(32, 64));
        }

        let mut shared = x25519_dh(&self.static_key, &ephemeral_key);
        let (ck1, mut cipher_key) = kdf_step(&self.chaining_key, &mut shared);

        let mut ns_input: Vec<u8> = Vec::new();
        push_all(&mut ns_input, &state2);
        let ct = sub_vec(&un, 64, un.len());
        push_all(&mut ns_input, &ct);
        let new_state = sha256(&ns_input);
        proof {
            assert(ct@ =~= unv.skip(64));
            assert(ns_input@ =~= spec_sr_state2(pre.transcript0(), unv) + unv.skip(64));
            assert(new_state@ == spec_sr_new_state(pre.transcript0(), unv));
        }

        let payload = match chacha_open(&cipher_key, 0, &state2, &ct) {
            Some(p) => p,
            None => {
                wipe(&mut cipher_key);
                proof {
                    reveal(spec_sr_accepts);
                }
                return Err(Ssu2Error::Malformed);
            },
        };
        wipe(&mut cipher_key);
        if parse_blocks(&payload, true).is_none() {
            proof {
                reveal(spec_sr_accepts);
            }
            return Err(Ssu2Error::Malformed);
        }
        proof {
            assert(spec_sr_accepts(pre, token, pkt0)) by {
                reveal(spec_sr_accepts);
                assert(pkt0.len() >= MIN_PACKET_LEN);
                assert(un@ == unv);
                assert(spec_read_header(unv) matches Ok(HeaderKindView::SessionRequest {
                    ephemeral_key: pe, token: tk, net_id: nid, .. }) && pe == unv.subrange(32, 64)
                    && tk == token && nid == pre.net());
                assert(unv.skip(64) == chacha_seal_of(
                    spec_kdf_k(pre.ck0(), x25519_of(pre.static_key_bytes(), unv.subrange(32, 64))),
                    0,
                    spec_sr_state2(pre.transcript0(), unv),
                    payload@,
                ) && spec_parse_blocks(payload@, true) is Some);
            }
        }

        let reply = self.answer_session_request(ck1, ephemeral_key, new_state, now_secs);
        proof {
            assert(spec_sr_post(pre, *self, pkt0, now_secs)) by {
                reveal(spec_sr_post);
            }
            assert(reply.pkt@ == spec_created_reply(pre, *self, pkt0, now_secs)) by {
                reveal(spec_created_reply);
            }
        }
        Ok(reply)
    }
}

/// A `SessionRequest` packet this session accepts: second header half
/// unmasks under the intro key to a `SessionRequest` header, the echoed
/// token and the network ID match, and the payload authenticates under the
/// first chain key and parses into handshake blocks.
#[verifier::opaque]
pub open spec fn spec_sr_accepts(pre: InboundSsu2Session, token: u64, pkt: Seq<u8>) -> bool {
    let un = spec_mask2(pkt, pre.intro_key_bytes());
    &&& pkt.len() >= MIN_PACKET_LEN
    &&& spec_read_header(un) matches Ok(
        HeaderKindView::SessionRequest { ephemeral_key: peer_eph, token: tok, net_id: nid, .. },
    ) && {
        &&& tok == token
        &&& nid == pre.net()
        &&& exists|p: Seq<u8>|
            un.skip(64) == chacha_seal_of(
                spec_kdf_k(pre.ck0(), x25519_of(pre.static_key_bytes(), peer_eph)),
                0,
                spec_sr_state2(pre.transcript0(), un),
                p,
            ) && spec_parse_blocks(p, true) is Some
    }
}

/// The state a session reaches after answering a `SessionRequest`: each
/// stored key is the exact key-schedule composition over the transcript.
#[verifier::opaque]
pub open spec fn spec_sr_post(
    pre: InboundSsu2Session,
    post: InboundSsu2Session,
    pkt: Seq<u8>,
    now_secs: u32,
) -> bool {
    let un = spec_mask2(pkt, pre.intro_key_bytes());
    let peer_eph = un.subrange(32, 64);
    let ck1 = spec_kdf_ck(pre.ck0(), x25519_of(pre.static_key_bytes(), peer_eph));
    let eph = post.hs_ephemeral();
    let ck2 = spec_kdf_ck(ck1, x25519_of(eph, peer_eph));
    let k2 = spec_kdf_k(ck1, x25519_of(eph, peer_eph));
    &&& post.is_awaiting_confirmed()
    &&& post.hs_chaining_key() == ck2
    &&& post.hs_k_session_created() == k2
    &&& post.hs_k_header_2() == spec_kdf_label(ck2, spec_label_confirmed_seq())
    &&& post.hs_state() == spec_hs_next_state(
        k2,
        0,
        spec_sr_new_state(pre.transcript0(), un),
        spec_long_header(pre.src(), 0, 1u8, pre.net(), pre.dst(), 0),
        x25519_of(eph, spec_basepoint()),
        spec_reply_blocks(now_secs, pre.addr()),
    )
}

/// The exact `SessionCreated` bytes a session answers a given
/// `SessionRequest` with.
#[verifier::opaque]
pub open spec fn spec_created_reply(
    pre: InboundSsu2Session,
    post: InboundSsu2Session,
    pkt: Seq<u8>,
    now_secs: u32,
) -> Seq<u8> {
    let un = spec_mask2(pkt, pre.intro_key_bytes());
    let peer_eph = un.subrange(32, 64);
    let ck1 = spec_kdf_ck(pre.ck0(), x25519_of(pre.static_key_bytes(), peer_eph));
    let eph = post.hs_ephemeral();
    let k2 = spec_kdf_k(ck1, x25519_of(eph, peer_eph));
    spec_hs_packet(
        k2,
        0,
        spec_sr_new_state(pre.transcript0(), un),
        spec_long_header(pre.src(), 0, 1u8, pre.net(), pre.dst(), 0),
        x25519_of(eph, spec_basepoint()),
        spec_reply_blocks(now_secs, pre.addr()),
        pre.intro_key_bytes(),
        spec_kdf_label(ck1, spec_label_create_seq()),
    )
}

/// The blocks of the first data-phase packet: an empty `Ack` and minimum
/// padding.
pub open spec fn spec_first_ack_blocks() -> Seq<BlockView> {
    seq![
        BlockView::Ack { ack_through: 0u32, num_acks: 0u8, ranges: Seq::empty() },
        spec_padding_block(8),
    ]
}

/// A `SessionConfirmed` packet the session accepts, given the stored
/// handshake pieces: the second header half unmasks under `kh2` to a
/// `SessionConfirmed` header with packet number zero; the static-key
/// section authenticates under `ksc`; the payload authenticates under the
/// final chain key and parses into handshake blocks holding a router-info
/// record.
#[verifier::opaque]
pub open spec fn spec_conf_accepts(
    ck: Seq<u8>,
    eph: Seq<u8>,
    ksc: Seq<u8>,
    st: Seq<u8>,
    kh2: Seq<u8>,
    pkt: Seq<u8>,
) -> bool {
    let un = spec_mask2(pkt, kh2);
    &&& pkt.len() >= 80
    &&& spec_read_header(un) matches Ok(HeaderKindView::SessionConfirmed { pkt_num }) && pkt_num
        == 0
    &&& exists|sp: Seq<u8>|
        ({
            &&& un.subrange(16, 64) == chacha_seal_of(
                ksc,
                1,
                sha256_of(st + un.subrange(0, 16)),
                sp,
            )
            &&& exists|p: Seq<u8>|
                ({
                    &&& un.skip(64) == chacha_seal_of(
                        spec_kdf_k(ck, x25519_of(eph, sp)),
                        0,
                        sha256_of(sha256_of(st + un.subrange(0, 16)) + un.subrange(16, 64)),
                        p,
                    )
                    &&& spec_parse_blocks(p, true) matches Some(bs)
                    &&& spec_find_router_info(bs) matches Some(ri)
                    &&& ri.router_id.len() == 32
                    &&& ri.intro_key.len() == 32
                })
        })
}

/// What promotion hands out, given the stored handshake pieces and the
/// `SessionConfirmed` packet: the four data-phase keys are the key-schedule
/// compositions over the final chaining key; the peer's identity and intro
/// key come from its router-info record; the first outgoing packet is an
/// empty `Ack` under the responder-to-initiator keys.
#[verifier::opaque]
pub open spec fn spec_promotion(
    ck: Seq<u8>,
    eph: Seq<u8>,
    ksc: Seq<u8>,
    st: Seq<u8>,
    kh2: Seq<u8>,
    src_id: u64,
    addr: SocketAddressView,
    pkt: Seq<u8>,
    context: Ssu2SessionContext,
    out: Packet,
) -> bool {
    let un = spec_mask2(pkt, kh2);
    &&& exists|sp: Seq<u8>|
        #![trigger x25519_of(eph, sp)]
        ({
            let ck3 = spec_kdf_ck(ck, x25519_of(eph, sp));
            &&& un.subrange(16, 64) == chacha_seal_of(
                ksc,
                1,
                sha256_of(st + un.subrange(0, 16)),
                sp,
            )
            &&& context.recv_key_ctx.k_data@ == spec_data_key(spec_data_root_ab(ck3))
            &&& context.recv_key_ctx.k_header_2@ == spec_data_header_key(spec_data_root_ab(ck3))
            &&& context.send_key_ctx.k_data@ == spec_data_key(spec_data_root_ba(ck3))
            &&& context.send_key_ctx.k_header_2@ == spec_data_header_key(spec_data_root_ba(ck3))
            &&& exists|p: Seq<u8>|
                ({
                    &&& un.skip(64) == chacha_seal_of(
                        spec_kdf_k(ck, x25519_of(eph, sp)),
                        0,
                        sha256_of(sha256_of(st + un.subrange(0, 16)) + un.subrange(16, 64)),
                        p,
                    )
                    &&& spec_parse_blocks(p, true) matches Some(bs)
                    &&& spec_find_router_info(bs) matches Some(ri)
                    &&& ri.router_id == context.router_id@
                    &&& ri.intro_key == context.intro_key@
                })
        })
    &&& context.dst_id == src_id
    &&& context.address@ == addr
    &&& out.pkt@ == spec_data_packet(
        src_id,
        0,
        false,
        context.send_key_ctx.k_data@,
        spec_first_ack_blocks(),
        context.intro_key@,
        context.send_key_ctx.k_header_2@,
    )
    &&& out.address@ == addr
}


/// Whether a `SessionRequest` is accepted depends only on the session's
/// identity material, not on its transition state.
proof fn lemma_sr_accepts_identity(
    a: InboundSsu2Session,
    b: InboundSsu2Session,
    token: u64,
    pkt: Seq<u8>,
)
    requires
        a.same_identity(&b),
    ensures
        spec_sr_accepts(a, token, pkt) == spec_sr_accepts(b, token, pkt),
{
    reveal(spec_sr_accepts);
}

/// See [`lemma_sr_accepts_identity`].
proof fn lemma_sr_post_identity(
    a: InboundSsu2Session,
    b: InboundSsu2Session,
    post: InboundSsu2Session,
    pkt: Seq<u8>,
    now_secs: u32,
)
    requires
        a.same_identity(&b),
    ensures
        spec_sr_post(a, post, pkt, now_secs) == spec_sr_post(b, post, pkt, now_secs),
{
    reveal(spec_sr_post);
}

/// See [`lemma_sr_accepts_identity`].
proof fn lemma_created_reply_identity(
    a: InboundSsu2Session,
    b: InboundSsu2Session,
    post: InboundSsu2Session,
    pkt: Seq<u8>,
    now_secs: u32,
)
    requires
        a.same_identity(&b),
    ensures
        spec_created_reply(a, post, pkt, now_secs) == spec_created_reply(b, post, pkt, now_secs),
{
    reveal(spec_created_reply);
}

impl InboundSsu2Session {
    /// Handle `SessionConfirmed`: unmask under the stored header key, check
    /// the packet number is zero, open the static-key section, run the
    /// final key agreement (wiping the ephemeral key), open and parse the
    /// payload, extract the mandatory router-info record, derive the
    /// data-phase keys and build the first data packet (an empty `Ack`).
    fn on_session_confirmed(
        &self,
        pkt: Vec<u8>,
        chaining_key: Vec<u8>,
        ephemeral_key: EphemeralPrivateKey,
        k_header_2: Vec<u8>,
        k_session_created: Vec<u8>,
        state: Vec<u8>,
    ) -> (r: Result<(Ssu2SessionContext, Packet), Ssu2Error>)
        requires
            self.wf(),
            chaining_key@.len() == 32,
            ephemeral_key.is_live(),
            k_header_2@.len() == 32,
            k_session_created@.len() == 32,
        ensures
            match r {
                Ok((context, packet)) => {
                    &&& spec_conf_accepts(
                        chaining_key@,
                        ephemeral_key@,
                        k_session_created@,
                        state@,
                        k_header_2@,
                        pkt@,
                    )
                    &&& spec_promotion(
                        chaining_key@,
                        ephemeral_key@,
                        k_session_created@,
                        state@,
                        k_header_2@,
                        self.src(),
                        self.addr(),
                        pkt@,
                        context,
                        packet,
                    )
                },
                Err(_) => !spec_conf_accepts(
                    chaining_key@,
                    ephemeral_key@,
                    k_session_created@,
                    state@,
                    k_header_2@,
                    pkt@,
                ),
            },
    {
        let ghost pkt0 = pkt@;
        let mut eph = ephemeral_key;
        if pkt.len() < 80 {
            eph.wipe_key();
            proof {
                reveal(spec_conf_accepts);
            }
            return Err(Ssu2Error::Malformed);
        }
        let mut un = pkt;
        mask2(&mut un, &k_header_2);
        let ghost unv = spec_mask2(pkt0, k_header_2@);
        match read_header(&un) {
            Ok(HeaderKind::SessionConfirmed { pkt_num }) => {
                if pkt_num != 0 {
                    eph.wipe_key();
                    proof {
                        reveal(spec_conf_accepts);
                    }
                    return Err(Ssu2Error::Malformed);
                }
            },
            Ok(_) => {
                eph.wipe_key();
                proof {
                    reveal(spec_conf_accepts);
                }
                return Err(Ssu2Error::UnexpectedMessage);
            },
            Err(e) => {
                eph.wipe_key();
                proof {
                    reveal(spec_conf_accepts);
                }
                return Err(e);
            },
        }

        let mut h1_input: Vec<u8> = Vec::new();
        push_all(&mut h1_input, &state);
        let hdr = sub_vec(&un, 0, 16);
        push_all(&mut h1_input, &hdr);
        let h1 = sha256(&h1_input);
        proof {
            assert(h1_input@ =~= state@ + un@.subrange(0, 16));
        }
        let sk_section = sub_vec(&un, 16, 64);
        let static_pub = match chacha_open(&k_session_created, 1, &h1, &sk_section) {
            Some(p) => p,
            None => {
                eph.wipe_key();
                proof {
                    reveal(spec_conf_accepts);
                }
                return Err(Ssu2Error::Malformed);
            },
        };
        proof {
            assert(static_pub@.len() == 32);
        }

        let mut ns_input: Vec<u8> = Vec::new();
        push_all(&mut ns_input, &h1);
        push_all(&mut ns_input, &sk_section);
        let new_state = sha256(&ns_input);
        proof {
            assert(ns_input@ =~= sha256_of(state@ + un@.subrange(0, 16)) + un@.subrange(16, 64));
        }

        let mut shared = eph.dh_and_wipe(&static_pub);
        let (ck3, mut cipher_key) = kdf_step(&chaining_key, &mut shared);

        let ct = sub_vec(&un, 64, un.len());
        proof {
            assert(ct@ =~= un@.skip(64));
        }
        let ghost sp0 = static_pub@;
        let ghost k3 = spec_kdf_k(chaining_key@, x25519_of(ephemeral_key@, sp0));
        let ghost ns = sha256_of(sha256_of(state@ + unv.subrange(0, 16)) + unv.subrange(16, 64));
        proof {
            assert(cipher_key@ == k3);
            assert(new_state@ == ns);
        }
        let payload = match chacha_open(&cipher_key, 0, &new_state, &ct) {
            Some(p) => p,
            None => {
                wipe(&mut cipher_key);
                proof {
                    reveal(spec_conf_accepts);
                }
                return Err(Ssu2Error::Malformed);
            },
        };
        wipe(&mut cipher_key);
        let ghost p0 = payload@;
        let blocks = match parse_blocks(&payload, true) {
            Some(bs) => bs,
            None => {
                proof {
                    reveal(spec_conf_accepts);
                }
                return Err(Ssu2Error::Malformed);
            },
        };
        let router_info = match find_router_info(&blocks) {
            Some(ri) => ri,
            None => {
                proof {
                    reveal(spec_conf_accepts);
                }
                return Err(Ssu2Error::Malformed);
            },
        };
        if router_info.router_id.len() != 32 || router_info.intro_key.len() != 32 {
            proof {
                reveal(spec_conf_accepts);
            }
            return Err(Ssu2Error::Malformed);
        }
        proof {
            assert(spec_conf_accepts(
                chaining_key@,
                ephemeral_key@,
                k_session_created@,
                state@,
                k_header_2@,
                pkt0,
            )) by {
                reveal(spec_conf_accepts);
                assert(unv.subrange(16, 64) == chacha_seal_of(
                    k_session_created@,
                    1,
                    sha256_of(state@ + unv.subrange(0, 16)),
                    sp0,
                ));
                assert(unv.skip(64) == chacha_seal_of(k3, 0, ns, p0));
                assert(spec_parse_blocks(p0, true) matches Some(bs2)
                    && spec_find_router_info(bs2) matches Some(ri2) && ri2.router_id.len() == 32
                    && ri2.intro_key.len() == 32);
            }
        }

        let keys = kdf_data_phase(&ck3);

        let mut ack_blocks: Vec<Block> = Vec::new();
        let ranges: Vec<(u8, u8)> = Vec::new();
        ack_blocks.push(Block::Ack { ack_through: 0, num_acks: 0, ranges });
        ack_blocks.push(padding_block(8));
        proof {
            let bvs = views_of(ack_blocks@);
            assert(bvs =~= spec_first_ack_blocks());
            assert(spec_blocks_wf(bvs));
            assert(crate::block::spec_ranges_bytes(Seq::<(u8, u8)>::empty())
                =~= Seq::<u8>::empty());
            assert(bvs.drop_first() =~= seq![spec_padding_block(8)]);
            assert(bvs.drop_first().drop_first() =~= Seq::<BlockView>::empty());
            assert(crate::block::spec_serialize_blocks(bvs).len() >= 8);
        }
        let first_ack = build_data(
            self.src_id,
            0,
            false,
            &ack_blocks,
            &keys.k_data_ba,
            &router_info.intro_key,
            &keys.k_header_2_ba,
        );

        let out_address = SocketAddress {
            ip: sub_vec(&self.address.ip, 0, self.address.ip.len()),
            port: self.address.port,
        };
        proof {
            assert(out_address.ip@ =~= self.address.ip@);
        }
        let ctx_address = SocketAddress {
            ip: sub_vec(&self.address.ip, 0, self.address.ip.len()),
            port: self.address.port,
        };
        proof {
            assert(ctx_address.ip@ =~= self.address.ip@);
        }
        let context = Ssu2SessionContext {
            address: ctx_address,
            dst_id: self.src_id,
            intro_key: router_info.intro_key,
            recv_key_ctx: KeyContext::new(keys.k_data_ab, keys.k_header_2_ab),
            send_key_ctx: KeyContext::new(keys.k_data_ba, keys.k_header_2_ba),
            router_id: router_info.router_id,
        };
        let out = Packet { pkt: first_ack, address: out_address };
        proof {
            assert(spec_promotion(
                chaining_key@,
                ephemeral_key@,
                k_session_created@,
                state@,
                k_header_2@,
                self.src(),
                self.addr(),
                pkt0,
                context,
                out,
            )) by {
                reveal(spec_promotion);
                assert(unv.subrange(16, 64) == chacha_seal_of(
                    k_session_created@,
                    1,
                    sha256_of(state@ + unv.subrange(0, 16)),
                    sp0,
                ));
                assert(unv.skip(64) == chacha_seal_of(k3, 0, ns, p0));
                assert(spec_parse_blocks(p0, true) matches Some(bs2)
                    && spec_find_router_info(bs2) matches Some(ri2)
                    && ri2.router_id == context.router_id@
                    && ri2.intro_key == context.intro_key@);
            }
        }
        Ok((context, out))
    }

    /// A handshake retransmission timer fired: hand back the last reply
    /// (`Retry` or `SessionCreated`) to send again, up to the attempt
    /// limit; past it the pending session is destroyed with a timeout, as
    /// an unanswered handshake must be.
    pub fn on_retransmit(&mut self) -> (r: Result<Packet, Ssu2Error>)
        requires
            old(self).wf(),
        ensures
            final(self).wf(),
            final(self).same_identity(old(self)),
            old(self).is_poisoned() ==> (r is Err && final(self).is_poisoned()),
            !old(self).is_poisoned() ==> match r {
                Ok(p) => {
                    &&& old(self).retries() < MAX_HANDSHAKE_RETRIES
                    &&& p.pkt@ == old(self).last_reply()
                    &&& p.address@ == old(self).addr()
                    &&& final(self).retries() == old(self).retries() + 1
                    &&& final(self).last_reply() == old(self).last_reply()
                    &&& final(self).is_awaiting_request() == old(self).is_awaiting_request()
                    &&& final(self).is_awaiting_confirmed() == old(self).is_awaiting_confirmed()
                    &&& (old(self).is_awaiting_request() ==> final(self).token() == old(
                        self,
                    ).token())
                    &&& (old(self).is_awaiting_confirmed() ==> final(self).hs_chaining_key()
                        == old(self).hs_chaining_key() && final(self).hs_ephemeral() == old(
                        self,
                    ).hs_ephemeral() && final(self).hs_k_header_2() == old(self).hs_k_header_2()
                        && final(self).hs_k_session_created() == old(self).hs_k_session_created()
                        && final(self).hs_state() == old(self).hs_state())
                },
                Err(e) => {
                    &&& e == Ssu2Error::Timeout
                    &&& old(self).retries() >= MAX_HANDSHAKE_RETRIES
                    &&& final(self).is_poisoned()
                },
            },
    {
        match &self.state {
            PendingSessionState::Poisoned => {
                return Err(Ssu2Error::Timeout);
            },
            _ => {},
        }
        if self.retries >= MAX_HANDSHAKE_RETRIES {
            self.state = PendingSessionState::Poisoned;
            return Err(Ssu2Error::Timeout);
        }
        self.retries = self.retries + 1;
        let pkt = sub_vec(&self.reply_pkt, 0, self.reply_pkt.len());
        proof {
            assert(pkt@ =~= self.reply_pkt@);
        }
        let address = SocketAddress {
            ip: sub_vec(&self.address.ip, 0, self.address.ip.len()),
            port: self.address.port,
        };
        proof {
            assert(address.ip@ =~= self.address.ip@);
        }
        Ok(Packet { pkt, address })
    }

    /// Handle one received packet: dispatch on the current state, poisoning
    /// it for the duration of the fallible transition. The state only moves
    /// forward: awaiting `SessionRequest` → awaiting `SessionConfirmed` →
    /// promoted (and gone); an error poisons the session; a poisoned
    /// session terminates.
    pub fn on_packet(&mut self, pkt: Vec<u8>, now_secs: u32) -> (r: Result<InboundStep, Ssu2Error>)
        requires
            old(self).wf(),
        ensures
            final(self).wf(),
            final(self).same_identity(old(self)),
            old(self).is_poisoned() ==> (r matches Ok(InboundStep::SessionTerminated)
                && final(self).is_poisoned()),
            old(self).is_awaiting_request() ==> match r {
                Ok(step) => {
                    &&& step matches InboundStep::SessionCreatedSent { pkt: reply } && {
                        &&& spec_sr_accepts(*old(self), old(self).token(), pkt@)
                        &&& spec_sr_post(*old(self), *final(self), pkt@, now_secs)
                        &&& reply.pkt@ == spec_created_reply(
                            *old(self),
                            *final(self),
                            pkt@,
                            now_secs,
                        )
                        &&& reply.address@ == old(self).addr()
                        &&& final(self).last_reply() == reply.pkt@
                        &&& final(self).retries() == 0
                    }
                },
                Err(_) => final(self).is_poisoned(),
            },
            old(self).is_awaiting_confirmed() ==> {
                &&& final(self).is_poisoned()
                &&& match r {
                    Ok(step) => {
                        &&& step matches InboundStep::NewInboundSession { context, pkt: out } && {
                            &&& spec_conf_accepts(
                                old(self).hs_chaining_key(),
                                old(self).hs_ephemeral(),
                                old(self).hs_k_session_created(),
                                old(self).hs_state(),
                                old(self).hs_k_header_2(),
                                pkt@,
                            )
                            &&& spec_promotion(
                                old(self).hs_chaining_key(),
                                old(self).hs_ephemeral(),
                                old(self).hs_k_session_created(),
                                old(self).hs_state(),
                                old(self).hs_k_header_2(),
                                old(self).src(),
                                old(self).addr(),
                                pkt@,
                                context,
                                out,
                            )
                        }
                    },
                    Err(_) => !spec_conf_accepts(
                        old(self).hs_chaining_key(),
                        old(self).hs_ephemeral(),
                        old(self).hs_k_session_created(),
                        old(self).hs_state(),
                        old(self).hs_k_header_2(),
                        pkt@,
                    ),
                }
            },
    {
        let ghost pre0 = *old(self);
        let ghost pkt0 = pkt@;
        let mut prev = PendingSessionState::Poisoned;
        core::mem::swap(&mut prev, &mut self.state);
        let ghost mid = *self;
        match prev {
            PendingSessionState::AwaitingSessionRequest { token } => {
                let reply = self.on_session_request(pkt, token, now_secs)?;
                proof {
                    lemma_sr_accepts_identity(mid, pre0, token, pkt0);
                    lemma_sr_post_identity(mid, pre0, *self, pkt0, now_secs);
                    lemma_created_reply_identity(mid, pre0, *self, pkt0, now_secs);
                }
                Ok(InboundStep::SessionCreatedSent { pkt: reply })
            },
            PendingSessionState::AwaitingSessionConfirmed {
                chaining_key,
                ephemeral_key,
                k_header_2,
                k_session_created,
                state,
            } => {
                let (context, out) = self.on_session_confirmed(
                    pkt,
                    chaining_key,
                    ephemeral_key,
                    k_header_2,
                    k_session_created,
                    state,
                )?;
                Ok(InboundStep::NewInboundSession { context, pkt: out })
            },
            PendingSessionState::Poisoned => Ok(InboundStep::SessionTerminated),
        }
    }
}

} // verus!
