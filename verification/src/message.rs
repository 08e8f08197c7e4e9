//! The message builder: assembles one complete outgoing packet — header,
//! optional ephemeral key, AEAD-encrypted payload, authentication tag,
//! header obfuscation — parametrized by a key-schedule state, and the
//! matching data-phase opener.
//!
//! The builder never retries or buffers; retransmission is the session's
//! responsibility.

use vstd::prelude::*;

use crate::block::{
    parse_blocks, serialize_blocks, spec_block_wf, spec_blocks_wf, spec_parse_blocks,
    spec_serialize_blocks, views_of, Block, BlockView,
};
use crate::crypto::{chacha_open, chacha_seal, chacha_seal_of, sha256, sha256_of};
use crate::header::{
    build_short_header, mask1, mask2, read_header, spec_mask1, spec_mask2, spec_read_header,
    spec_short_header, HeaderKind, HeaderKindView, MIN_PACKET_LEN,
};
use crate::wire::{push_all, put_be32, put_be64, spec_be32, spec_be64, sub_vec};

verus! {

/// The evolving AEAD state a handshake message is built against: the cipher
/// key of the step, the nonce, and the transcript hash folded so far.
pub struct AeadState {
    /// Cipher key of the current step.
    pub cipher_key: Vec<u8>,
    /// AEAD nonce of the current step.
    pub nonce: u64,
    /// Transcript hash folded over everything sent so far.
    pub state: Vec<u8>,
}

impl AeadState {
    /// A usable state: a full-size cipher key.
    pub open spec fn wf(&self) -> bool {
        self.cipher_key@.len() == 32
    }
}

/// A padding block of `n` zero bytes.
pub open spec fn spec_padding_block(n: nat) -> BlockView {
    BlockView::Padding { padding: Seq::new(n, |i: int| 0u8) }
}

/// Build a padding block of `n` zero bytes; emitted to round packets up to
/// a minimum size and to obscure content lengths.
pub fn padding_block(n: usize) -> (r: Block)
    requires
        n <= 0xFFFF,
    ensures
        r@ == spec_padding_block(n as nat),
        spec_block_wf(r@),
{
    let mut padding: Vec<u8> = Vec::new();
    let mut i: usize = 0;
    while i < n
        invariant
            i <= n,
            padding@ =~= Seq::new(i as nat, |j: int| 0u8),
        decreases n - i,
    {
        padding.push(0u8);
        assert(padding@ =~= Seq::new((i + 1) as nat, |j: int| 0u8));
        i = i + 1;
    }
    Block::Padding { padding }
}

/// The ciphertext of a prelude message (`TokenRequest`, `Retry`): sealed
/// under the receiver's intro key, nonce = packet number, associated data =
/// the 32-byte long header.
pub open spec fn spec_prelude_ct(
    key: Seq<u8>,
    pkt_num: u32,
    header: Seq<u8>,
    blocks: Seq<BlockView>,
) -> Seq<u8> {
    chacha_seal_of(key, pkt_num as u64, header, spec_serialize_blocks(blocks))
}

/// A complete prelude packet: long header and sealed payload, both header
/// halves masked under the receiver's intro key.
pub open spec fn spec_prelude_packet(
    key: Seq<u8>,
    pkt_num: u32,
    header: Seq<u8>,
    blocks: Seq<BlockView>,
) -> Seq<u8> {
    spec_mask2(spec_mask1(header + spec_prelude_ct(key, pkt_num, header, blocks), key), key)
}

/// Build a prelude message (`TokenRequest` or `Retry`): the intro key seals
/// the payload and masks both header halves.
pub fn build_with_key(header: Vec<u8>, blocks: &Vec<Block>, key: &Vec<u8>, pkt_num: u32) -> (r: Vec<
    u8,
>)
    requires
        header@.len() == 32,
        key@.len() == 32,
        spec_blocks_wf(views_of(blocks@)),
    ensures
        r@ == spec_prelude_packet(key@, pkt_num, header@, views_of(blocks@)),
        r@.len() >= 48,
{
    let payload = serialize_blocks(blocks);
    let ct = chacha_seal(key, pkt_num as u64, &header, &payload);
    let mut pkt = header;
    push_all(&mut pkt, &ct);
    mask1(&mut pkt, key);
    mask2(&mut pkt, key);
    pkt
}

/// The associated data of a handshake message: the transcript state folded
/// with the header and the ephemeral key.
pub open spec fn spec_hs_ad(state: Seq<u8>, header: Seq<u8>, eph: Seq<u8>) -> Seq<u8> {
    sha256_of(sha256_of(state + header) + eph)
}

/// The sealed payload of a handshake message.
pub open spec fn spec_hs_ct(
    cipher_key: Seq<u8>,
    nonce: u64,
    state: Seq<u8>,
    header: Seq<u8>,
    eph: Seq<u8>,
    blocks: Seq<BlockView>,
) -> Seq<u8> {
    chacha_seal_of(cipher_key, nonce, spec_hs_ad(state, header, eph), spec_serialize_blocks(blocks))
}

/// A complete handshake packet (`SessionRequest`, `SessionCreated`): long
/// header, ephemeral key, sealed payload; first header half masked under
/// `k1`, second under `k2`.
pub open spec fn spec_hs_packet(
    cipher_key: Seq<u8>,
    nonce: u64,
    state: Seq<u8>,
    header: Seq<u8>,
    eph: Seq<u8>,
    blocks: Seq<BlockView>,
    k1: Seq<u8>,
    k2: Seq<u8>,
) -> Seq<u8> {
    spec_mask2(
        spec_mask1(header + eph + spec_hs_ct(cipher_key, nonce, state, header, eph, blocks), k1),
        k2,
    )
}

/// The transcript state after a handshake message: the associated data
/// folded with the fresh ciphertext.
pub open spec fn spec_hs_next_state(
    cipher_key: Seq<u8>,
    nonce: u64,
    state: Seq<u8>,
    header: Seq<u8>,
    eph: Seq<u8>,
    blocks: Seq<BlockView>,
) -> Seq<u8> {
    sha256_of(
        spec_hs_ad(state, header, eph) + spec_hs_ct(cipher_key, nonce, state, header, eph, blocks),
    )
}

/// Build a handshake message carrying an ephemeral key, and fold its
/// ciphertext into the caller's transcript state.
pub fn build_handshake(
    header: Vec<u8>,
    eph: &Vec<u8>,
    blocks: &Vec<Block>,
    aead: &mut AeadState,
    k1: &Vec<u8>,
    k2: &Vec<u8>,
) -> (r: Vec<u8>)
    requires
        header@.len() == 32,
        eph@.len() == 32,
        old(aead).wf(),
        k1@.len() == 32,
        k2@.len() == 32,
        spec_blocks_wf(views_of(blocks@)),
    ensures
        r@ == spec_hs_packet(
            old(aead).cipher_key@,
            old(aead).nonce,
            old(aead).state@,
            header@,
            eph@,
            views_of(blocks@),
            k1@,
            k2@,
        ),
        final(aead).state@ == spec_hs_next_state(
            old(aead).cipher_key@,
            old(aead).nonce,
            old(aead).state@,
            header@,
            eph@,
            views_of(blocks@),
        ),
        final(aead).cipher_key == old(aead).cipher_key,
        final(aead).nonce == old(aead).nonce,
        r@.len() >= 80,
{
    let payload = serialize_blocks(blocks);
    let mut h1_input: Vec<u8> = Vec::new();
    push_all(&mut h1_input, &aead.state);
    push_all(&mut h1_input, &header);
    let h1 = sha256(&h1_input);
    let mut h2_input: Vec<u8> = Vec::new();
    push_all(&mut h2_input, &h1);
    push_all(&mut h2_input, eph);
    let h2 = sha256(&h2_input);
    let ct = chacha_seal(&aead.cipher_key, aead.nonce, &h2, &payload);
    let mut state_input: Vec<u8> = Vec::new();
    push_all(&mut state_input, &h2);
    push_all(&mut state_input, &ct);
    aead.state = sha256(&state_input);
    let mut pkt = header;
    push_all(&mut pkt, eph);
    push_all(&mut pkt, &ct);
    mask1(&mut pkt, k1);
    mask2(&mut pkt, k2);
    pkt
}

/// The 16-byte header of a `SessionConfirmed` message: type 2, the
/// protocol version, and a zero flag byte pair.
pub open spec fn spec_confirmed_header(dst_id: u64, pkt_num: u32) -> Seq<u8> {
    spec_be64(dst_id) + spec_be32(pkt_num) + seq![2u8, crate::header::PROTOCOL_VERSION, 0u8, 0u8]
}

/// Build the 16-byte `SessionConfirmed` header, unmasked.
pub fn build_confirmed_header(dst_id: u64, pkt_num: u32) -> (r: Vec<u8>)
    ensures
        r@ == spec_confirmed_header(dst_id, pkt_num),
        r@.len() == 16,
{
    let mut v: Vec<u8> = Vec::new();
    put_be64(&mut v, dst_id);
    put_be32(&mut v, pkt_num);
    v.push(2u8);
    v.push(crate::header::PROTOCOL_VERSION);
    v.push(0u8);
    v.push(0u8);
    assert(v@ =~= spec_confirmed_header(dst_id, pkt_num));
    v
}

/// The sealed static-key section of `SessionConfirmed`: the initiator's
/// 32-byte static public key under `k_session_created`, nonce 1, associated
/// data = transcript state folded with the 16-byte header.
pub open spec fn spec_conf_sk_section(
    k_session_created: Seq<u8>,
    state: Seq<u8>,
    header: Seq<u8>,
    static_pub: Seq<u8>,
) -> Seq<u8> {
    chacha_seal_of(k_session_created, 1u64, sha256_of(state + header), static_pub)
}

/// The sealed payload of `SessionConfirmed`: under the final handshake
/// cipher key, nonce 0, associated data = state folded with header then with
/// the static-key section.
pub open spec fn spec_conf_ct(
    cipher_key: Seq<u8>,
    k_session_created: Seq<u8>,
    state: Seq<u8>,
    header: Seq<u8>,
    static_pub: Seq<u8>,
    blocks: Seq<BlockView>,
) -> Seq<u8> {
    chacha_seal_of(
        cipher_key,
        0u64,
        sha256_of(
            sha256_of(state + header) + spec_conf_sk_section(
                k_session_created,
                state,
                header,
                static_pub,
            ),
        ),
        spec_serialize_blocks(blocks),
    )
}

/// A complete `SessionConfirmed` packet, masked.
pub open spec fn spec_conf_packet(
    cipher_key: Seq<u8>,
    k_session_created: Seq<u8>,
    state: Seq<u8>,
    header: Seq<u8>,
    static_pub: Seq<u8>,
    blocks: Seq<BlockView>,
    k1: Seq<u8>,
    k2: Seq<u8>,
) -> Seq<u8> {
    spec_mask2(
        spec_mask1(
            header + spec_conf_sk_section(k_session_created, state, header, static_pub)
                + spec_conf_ct(cipher_key, k_session_created, state, header, static_pub, blocks),
            k1,
        ),
        k2,
    )
}

/// Build the `SessionConfirmed` message: 16-byte header, sealed static key,
/// sealed payload.
pub fn build_session_confirmed(
    dst_id: u64,
    blocks: &Vec<Block>,
    state: &Vec<u8>,
    k_session_created: &Vec<u8>,
    cipher_key: &Vec<u8>,
    static_pub: &Vec<u8>,
    k1: &Vec<u8>,
    k2: &Vec<u8>,
) -> (r: Vec<u8>)
    requires
        k_session_created@.len() == 32,
        cipher_key@.len() == 32,
        static_pub@.len() == 32,
        k1@.len() == 32,
        k2@.len() == 32,
        spec_blocks_wf(views_of(blocks@)),
    ensures
        r@ == spec_conf_packet(
            cipher_key@,
            k_session_created@,
            state@,
            spec_confirmed_header(dst_id, 0),
            static_pub@,
            views_of(blocks@),
            k1@,
            k2@,
        ),
        r@.len() >= 80,
{
    let header = build_confirmed_header(dst_id, 0);
    let payload = serialize_blocks(blocks);
    let mut h1_input: Vec<u8> = Vec::new();
    push_all(&mut h1_input, state);
    push_all(&mut h1_input, &header);
    let h1 = sha256(&h1_input);
    let sk_section = chacha_seal(k_session_created, 1u64, &h1, static_pub);
    let mut h2_input: Vec<u8> = Vec::new();
    push_all(&mut h2_input, &h1);
    push_all(&mut h2_input, &sk_section);
    let h2 = sha256(&h2_input);
    let ct = chacha_seal(cipher_key, 0u64, &h2, &payload);
    let mut pkt = header;
    push_all(&mut pkt, &sk_section);
    push_all(&mut pkt, &ct);
    mask1(&mut pkt, k1);
    mask2(&mut pkt, k2);
    pkt
}

/// The sealed payload of a data-phase packet: under the direction's data
/// key, nonce = packet number, associated data = hash of the 16-byte header.
pub open spec fn spec_data_ct(
    k_data: Seq<u8>,
    pkt_num: u32,
    header: Seq<u8>,
    blocks: Seq<BlockView>,
) -> Seq<u8> {
    chacha_seal_of(k_data, pkt_num as u64, sha256_of(header), spec_serialize_blocks(blocks))
}

/// A complete data-phase packet: short header and sealed payload, first
/// header half masked under the remote intro key, second under the
/// direction's header key.
pub open spec fn spec_data_packet(
    dst_id: u64,
    pkt_num: u32,
    immediate_ack: bool,
    k_data: Seq<u8>,
    blocks: Seq<BlockView>,
    k1: Seq<u8>,
    k2: Seq<u8>,
) -> Seq<u8> {
    spec_mask2(
        spec_mask1(
            spec_short_header(dst_id, pkt_num, immediate_ack) + spec_data_ct(
                k_data,
                pkt_num,
                spec_short_header(dst_id, pkt_num, immediate_ack),
                blocks,
            ),
            k1,
        ),
        k2,
    )
}

/// Build a data-phase packet. The serialized blocks must hold at least 8
/// bytes (the minimum padding guarantees it) so the masking samples lie
/// beyond the header.
pub fn build_data(
    dst_id: u64,
    pkt_num: u32,
    immediate_ack: bool,
    blocks: &Vec<Block>,
    k_data: &Vec<u8>,
    k1: &Vec<u8>,
    k2: &Vec<u8>,
) -> (r: Vec<u8>)
    requires
        k_data@.len() == 32,
        k1@.len() == 32,
        k2@.len() == 32,
        spec_blocks_wf(views_of(blocks@)),
        spec_serialize_blocks(views_of(blocks@)).len() >= 8,
    ensures
        r@ == spec_data_packet(dst_id, pkt_num, immediate_ack, k_data@, views_of(blocks@), k1@, k2@),
        r@.len() >= MIN_PACKET_LEN,
{
    let header = build_short_header(dst_id, pkt_num, immediate_ack);
    let payload = serialize_blocks(blocks);
    let ad = sha256(&header);
    let ct = chacha_seal(k_data, pkt_num as u64, &ad, &payload);
    let mut pkt = header;
    push_all(&mut pkt, &ct);
    mask1(&mut pkt, k1);
    mask2(&mut pkt, k2);
    pkt
}

/// What opening a data packet yields: packet number, immediate-ack flag,
/// blocks.
pub struct DataPacket {
    pub pkt_num: u32,
    pub immediate_ack: bool,
    pub blocks: Vec<Block>,
}

/// Open a received data-phase packet whose first header half the socket
/// already unmasked: unmask the second half, check the type, open the AEAD
/// payload, parse the blocks.
///
/// On success, every payload that seals to the received ciphertext parses to
/// exactly the returned blocks; together with the builder's contract this
/// makes the parser recover the blocks a data packet was built from.
pub fn open_data_packet(pkt: &Vec<u8>, k_data: &Vec<u8>, k2: &Vec<u8>) -> (r: Option<DataPacket>)
    requires
        k_data@.len() == 32,
        k2@.len() == 32,
    ensures
        match r {
            Some(dp) => {
                let un = spec_mask2(pkt@, k2@);
                &&& pkt@.len() >= MIN_PACKET_LEN
                &&& spec_read_header(un) == Ok::<HeaderKindView, crate::Ssu2Error>(
                    HeaderKindView::Data { pkt_num: dp.pkt_num, immediate_ack: dp.immediate_ack },
                )
                &&& forall|q: Seq<u8>|
                    un.skip(16) == chacha_seal_of(
                        k_data@,
                        dp.pkt_num as u64,
                        sha256_of(un.subrange(0, 16)),
                        q,
                    ) ==> spec_parse_blocks(q, false) == Some(views_of(dp.blocks@))
            },
            None => pkt@.len() < MIN_PACKET_LEN || {
                let un = spec_mask2(pkt@, k2@);
                match spec_read_header(un) {
                    Ok(kind) => match kind {
                        HeaderKindView::Data { pkt_num, .. } => forall|q: Seq<u8>|
                            un.skip(16) == chacha_seal_of(
                                k_data@,
                                pkt_num as u64,
                                sha256_of(un.subrange(0, 16)),
                                q,
                            ) ==> spec_parse_blocks(q, false) is None,
                        _ => true,
                    },
                    Err(_) => true,
                }
            },
        },
{
    if pkt.len() < MIN_PACKET_LEN {
        return None;
    }
    let mut un = sub_vec(pkt, 0, pkt.len());
    proof {
        assert(un@ =~= pkt@);
    }
    mask2(&mut un, k2);
    let (pkt_num, immediate_ack) = match read_header(&un) {
        Ok(HeaderKind::Data { pkt_num, immediate_ack }) => (pkt_num, immediate_ack),
        _ => {
            return None;
        },
    };
    let header = sub_vec(&un, 0, 16);
    let ct = sub_vec(&un, 16, un.len());
    proof {
        assert(header@ =~= un@.subrange(0, 16));
        assert(ct@ =~= un@.skip(16));
    }
    let ad = sha256(&header);
    let payload = match chacha_open(k_data, pkt_num as u64, &ad, &ct) {
        Some(p) => p,
        None => {
            return None;
        },
    };
    match parse_blocks(&payload, false) {
        Some(blocks) => Some(DataPacket { pkt_num, immediate_ack, blocks }),
        None => None,
    }
}

} // verus!
