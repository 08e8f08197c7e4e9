//! The two-part obfuscated packet header used by every SSU2 packet.
//!
//! The long header (handshake) is 32 bytes:
//! `dst_id (8) | pkt_num (4) | type (1) | version (1) | net_id (1) | flags (1)
//! | src_id (8) | token (8)`. The short header (data phase) is 16 bytes:
//! `dst_id (8) | pkt_num (4) | type (1) | flags (3)`.
//!
//! Bytes 0..8 and 8..16 are each XORed with a keystream mask derived from a
//! header key and a 12-byte sample of ciphertext at the packet's tail: the
//! first half under the receiver's intro key, the second under the
//! `k_header_2` of the expected message.

use vstd::prelude::*;

use crate::crypto::{hdr_mask, hdr_mask_of};
use crate::wire::{
    get_be32, get_be64, put_be32, put_be64, spec_be32, spec_be64, spec_u32_from_be,
    spec_u64_from_be, sub_vec, xor_in_place,
};
use crate::Ssu2Error;

verus! {

/// Bytes 0..8 and 8..16 are masked; the two keystream samples sit in the
/// last 24 bytes; a packet shorter than this cannot be unmasked.
pub const MIN_PACKET_LEN: usize = 40;

/// The protocol version every packet must carry.
pub const PROTOCOL_VERSION: u8 = 2;

/// SSU2 message types, one byte on the wire.
#[derive(Clone, Copy, Debug, PartialEq, Eq, Structural)]
pub enum MessageType {
    SessionRequest,
    SessionCreated,
    SessionConfirmed,
    Data,
    PeerTest,
    Retry,
    TokenRequest,
    HolePunch,
    Termination,
}

/// The wire code of a message type.
pub open spec fn spec_message_type_code(t: MessageType) -> u8 {
    match t {
        MessageType::SessionRequest => 0,
        MessageType::SessionCreated => 1,
        MessageType::SessionConfirmed => 2,
        MessageType::Data => 3,
        MessageType::PeerTest => 4,
        MessageType::Retry => 5,
        MessageType::TokenRequest => 6,
        MessageType::HolePunch => 7,
        MessageType::Termination => 8,
    }
}

impl MessageType {
    /// The one-byte wire code.
    pub fn as_u8(&self) -> (r: u8)
        ensures
            r == spec_message_type_code(*self),
    {
        match self {
            MessageType::SessionRequest => 0,
            MessageType::SessionCreated => 1,
            MessageType::SessionConfirmed => 2,
            MessageType::Data => 3,
            MessageType::PeerTest => 4,
            MessageType::Retry => 5,
            MessageType::TokenRequest => 6,
            MessageType::HolePunch => 7,
            MessageType::Termination => 8,
        }
    }
}

/// The 32 plaintext bytes of a long (handshake) header.
pub open spec fn spec_long_header(
    dst_id: u64,
    pkt_num: u32,
    msg_type: u8,
    net_id: u8,
    src_id: u64,
    token: u64,
) -> Seq<u8> {
    spec_be64(dst_id) + spec_be32(pkt_num) + seq![msg_type, PROTOCOL_VERSION, net_id, 0u8]
        + spec_be64(src_id) + spec_be64(token)
}

/// The 16 plaintext bytes of a short (data-phase) header.
pub open spec fn spec_short_header(dst_id: u64, pkt_num: u32, immediate_ack: bool) -> Seq<u8> {
    spec_be64(dst_id) + spec_be32(pkt_num) + seq![
        3u8,
        if immediate_ack {
            1u8
        } else {
            0u8
        },
        0u8,
        0u8,
    ]
}

/// Build the 32-byte long header, unmasked.
pub fn build_long_header(
    dst_id: u64,
    pkt_num: u32,
    msg_type: MessageType,
    net_id: u8,
    src_id: u64,
    token: u64,
) -> (r: Vec<u8>)
    ensures
        r@ == spec_long_header(
            dst_id,
            pkt_num,
            spec_message_type_code(msg_type),
            net_id,
            src_id,
            token,
        ),
        r@.len() == 32,
{
    let mut v: Vec<u8> = Vec::new();
    put_be64(&mut v, dst_id);
    put_be32(&mut v, pkt_num);
    v.push(msg_type.as_u8());
    v.push(PROTOCOL_VERSION);
    v.push(net_id);
    v.push(0u8);
    put_be64(&mut v, src_id);
    put_be64(&mut v, token);
    assert(v@ =~= spec_long_header(
        dst_id,
        pkt_num,
        spec_message_type_code(msg_type),
        net_id,
        src_id,
        token,
    ));
    v
}

/// Build the 16-byte short header, unmasked.
pub fn build_short_header(dst_id: u64, pkt_num: u32, immediate_ack: bool) -> (r: Vec<u8>)
    ensures
        r@ == spec_short_header(dst_id, pkt_num, immediate_ack),
        r@.len() == 16,
{
    let mut v: Vec<u8> = Vec::new();
    put_be64(&mut v, dst_id);
    put_be32(&mut v, pkt_num);
    v.push(3u8);
    if immediate_ack {
        v.push(1u8);
    } else {
        v.push(0u8);
    }
    v.push(0u8);
    v.push(0u8);
    assert(v@ =~= spec_short_header(dst_id, pkt_num, immediate_ack));
    v
}

/// The 12-byte keystream sample for the first header half: bytes
/// `len-24 .. len-12`.
pub open spec fn spec_sample1(p: Seq<u8>) -> Seq<u8> {
    p.subrange(p.len() - 24, p.len() - 12)
}

/// The 12-byte keystream sample for the second header half: the last 12
/// bytes.
pub open spec fn spec_sample2(p: Seq<u8>) -> Seq<u8> {
    p.subrange(p.len() - 12, p.len() as int)
}

/// `p` with bytes 0..8 XORed against the first-half mask under `k`.
pub open spec fn spec_mask1(p: Seq<u8>, k: Seq<u8>) -> Seq<u8> {
    Seq::new(
        p.len(),
        |i: int|
            if 0 <= i < 8 {
                p[i] ^ hdr_mask_of(k, spec_sample1(p))[i]
            } else {
                p[i]
            },
    )
}

/// `p` with bytes 8..16 XORed against the second-half mask under `k`.
pub open spec fn spec_mask2(p: Seq<u8>, k: Seq<u8>) -> Seq<u8> {
    Seq::new(
        p.len(),
        |i: int|
            if 8 <= i < 16 {
                p[i] ^ hdr_mask_of(k, spec_sample2(p))[i - 8]
            } else {
                p[i]
            },
    )
}

/// Masking a header half twice with the same key gives the packet back, and
/// the two halves' maskings do not disturb one another: undoing both halves
/// of a masked packet, first half first, restores it exactly.
pub proof fn lemma_mask_round_trip(p: Seq<u8>, k1: Seq<u8>, k2: Seq<u8>)
    requires
        p.len() >= MIN_PACKET_LEN,
        hdr_mask_of(k1, spec_sample1(p)).len() == 8,
        hdr_mask_of(k2, spec_sample2(p)).len() == 8,
    ensures
        spec_mask2(spec_mask1(spec_mask2(spec_mask1(p, k1), k2), k1), k2) == p,
{
    let a = spec_mask1(p, k1);
    let b = spec_mask2(a, k2);
    assert(spec_sample1(a) =~= spec_sample1(p));
    assert(spec_sample2(a) =~= spec_sample2(p));
    assert(spec_sample1(b) =~= spec_sample1(p));
    assert(spec_sample2(b) =~= spec_sample2(p));
    let c = spec_mask1(b, k1);
    assert(spec_sample1(c) =~= spec_sample1(p));
    assert(spec_sample2(c) =~= spec_sample2(p));
    let d = spec_mask2(c, k2);
    assert forall|i: int| 0 <= i < p.len() implies d[i] == p[i] by {
        if i < 8 {
            crate::wire::lemma_xor_involution(p[i], hdr_mask_of(k1, spec_sample1(p))[i]);
        } else if i < 16 {
            crate::wire::lemma_xor_involution(p[i], hdr_mask_of(k2, spec_sample2(p))[i - 8]);
        }
    }
    assert(d =~= p);
}

/// XOR bytes 0..8 of `pkt` with the first-half mask under `key`: applied to
/// a plaintext header this obfuscates it, applied to a masked one it undoes
/// the obfuscation.
pub fn mask1(pkt: &mut Vec<u8>, key: &Vec<u8>)
    requires
        old(pkt)@.len() >= MIN_PACKET_LEN,
        key@.len() == 32,
    ensures
        final(pkt)@ == spec_mask1(old(pkt)@, key@),
{
    let n: usize = pkt.len();
    let sample = sub_vec(pkt, n - 24, n - 12);
    let mask = hdr_mask(key, &sample);
    xor_in_place(pkt, 0, &mask, 8);
    assert(pkt@ =~= spec_mask1(old(pkt)@, key@));
}

/// XOR bytes 8..16 of `pkt` with the second-half mask under `key`.
pub fn mask2(pkt: &mut Vec<u8>, key: &Vec<u8>)
    requires
        old(pkt)@.len() >= MIN_PACKET_LEN,
        key@.len() == 32,
    ensures
        final(pkt)@ == spec_mask2(old(pkt)@, key@),
{
    let n: usize = pkt.len();
    let sample = sub_vec(pkt, n - 12, n);
    let mask = hdr_mask(key, &sample);
    xor_in_place(pkt, 8, &mask, 8);
    assert(pkt@ =~= spec_mask2(old(pkt)@, key@));
}

/// The destination connection ID of a masked packet, without touching it:
/// what the socket multiplexer reads to route a datagram.
pub fn extract_dst_id(pkt: &Vec<u8>, intro_key: &Vec<u8>) -> (r: Result<u64, Ssu2Error>)
    requires
        intro_key@.len() == 32,
    ensures
        match r {
            Ok(id) => pkt@.len() >= MIN_PACKET_LEN && id == spec_u64_from_be(
                spec_mask1(pkt@, intro_key@).subrange(0, 8),
            ),
            Err(e) => pkt@.len() < MIN_PACKET_LEN && e == Ssu2Error::Malformed,
        },
{
    if pkt.len() < MIN_PACKET_LEN {
        return Err(Ssu2Error::Malformed);
    }
    let mut copy = sub_vec(pkt, 0, pkt.len());
    proof {
        assert(copy@ =~= pkt@);
    }
    mask1(&mut copy, intro_key);
    let id = get_be64(&copy, 0);
    Ok(id)
}

/// A parsed packet header, by expected message kind.
pub enum HeaderKind {
    TokenRequest { src_id: u64, pkt_num: u32, net_id: u8 },
    Retry { pkt_num: u32, token: u64 },
    SessionRequest { ephemeral_key: Vec<u8>, pkt_num: u32, token: u64, net_id: u8 },
    SessionCreated { ephemeral_key: Vec<u8>, pkt_num: u32 },
    SessionConfirmed { pkt_num: u32 },
    Data { pkt_num: u32, immediate_ack: bool },
}

/// Mathematical image of [`HeaderKind`].
pub enum HeaderKindView {
    TokenRequest { src_id: u64, pkt_num: u32, net_id: u8 },
    Retry { pkt_num: u32, token: u64 },
    SessionRequest { ephemeral_key: Seq<u8>, pkt_num: u32, token: u64, net_id: u8 },
    SessionCreated { ephemeral_key: Seq<u8>, pkt_num: u32 },
    SessionConfirmed { pkt_num: u32 },
    Data { pkt_num: u32, immediate_ack: bool },
}

impl View for HeaderKind {
    type V = HeaderKindView;

    open spec fn view(&self) -> HeaderKindView {
        match self {
            HeaderKind::TokenRequest { src_id, pkt_num, net_id } => HeaderKindView::TokenRequest {
                src_id: *src_id,
                pkt_num: *pkt_num,
                net_id: *net_id,
            },
            HeaderKind::Retry { pkt_num, token } => HeaderKindView::Retry {
                pkt_num: *pkt_num,
                token: *token,
            },
            HeaderKind::SessionRequest { ephemeral_key, pkt_num, token, net_id } => HeaderKindView::SessionRequest {
                ephemeral_key: ephemeral_key@,
                pkt_num: *pkt_num,
                token: *token,
                net_id: *net_id,
            },
            HeaderKind::SessionCreated { ephemeral_key, pkt_num } => HeaderKindView::SessionCreated {
                ephemeral_key: ephemeral_key@,
                pkt_num: *pkt_num,
            },
            HeaderKind::SessionConfirmed { pkt_num } => HeaderKindView::SessionConfirmed {
                pkt_num: *pkt_num,
            },
            HeaderKind::Data { pkt_num, immediate_ack } => HeaderKindView::Data {
                pkt_num: *pkt_num,
                immediate_ack: *immediate_ack,
            },
        }
    }
}

/// What an unmasked packet's header denotes. `Err(InvalidVersion)` for a
/// handshake header whose version is not 2, `Err(UnexpectedMessage)` for a
/// type this library does not handle, `Err(Malformed)` for a packet too
/// short for its type.
pub open spec fn spec_read_header(p: Seq<u8>) -> Result<HeaderKindView, Ssu2Error> {
    if p.len() < MIN_PACKET_LEN {
        Err(Ssu2Error::Malformed)
    } else {
        let t = p[12];
        let pkt_num = spec_u32_from_be(p.subrange(8, 12));
        if t == 3 {
            Ok(HeaderKindView::Data { pkt_num, immediate_ack: p[13] == 1 })
        } else if t == 0 || t == 1 || t == 2 || t == 5 || t == 6 {
            if p.len() < 56 {
                Err(Ssu2Error::Malformed)
            } else if p[13] != PROTOCOL_VERSION {
                Err(Ssu2Error::InvalidVersion)
            } else {
                let net_id = p[14];
                let src_id = spec_u64_from_be(p.subrange(16, 24));
                let token = spec_u64_from_be(p.subrange(24, 32));
                if t == 6 {
                    Ok(HeaderKindView::TokenRequest { src_id, pkt_num, net_id })
                } else if t == 5 {
                    Ok(HeaderKindView::Retry { pkt_num, token })
                } else if t == 2 {
                    Ok(HeaderKindView::SessionConfirmed { pkt_num })
                } else {
                    if p.len() < 80 {
                        Err(Ssu2Error::Malformed)
                    } else {
                        let ephemeral_key = p.subrange(32, 64);
                        if t == 0 {
                            Ok(
                                HeaderKindView::SessionRequest {
                                    ephemeral_key,
                                    pkt_num,
                                    token,
                                    net_id,
                                },
                            )
                        } else {
                            Ok(HeaderKindView::SessionCreated { ephemeral_key, pkt_num })
                        }
                    }
                }
            }
        } else {
            Err(Ssu2Error::UnexpectedMessage)
        }
    }
}

/// Read the header of a fully unmasked packet.
pub fn read_header(pkt: &Vec<u8>) -> (r: Result<HeaderKind, Ssu2Error>)
    ensures
        match r {
            Ok(kind) => spec_read_header(pkt@) == Ok::<HeaderKindView, Ssu2Error>(kind@),
            Err(e) => spec_read_header(pkt@) == Err::<HeaderKindView, Ssu2Error>(e),
        },
{
    let n: usize = pkt.len();
    if n < MIN_PACKET_LEN {
        return Err(Ssu2Error::Malformed);
    }
    let t = pkt[12];
    let pkt_num = get_be32(pkt, 8);
    if t == 3 {
        Ok(HeaderKind::Data { pkt_num, immediate_ack: pkt[13] == 1 })
    } else if t == 0 || t == 1 || t == 2 || t == 5 || t == 6 {
        if n < 56 {
            Err(Ssu2Error::Malformed)
        } else if pkt[13] != PROTOCOL_VERSION {
            Err(Ssu2Error::InvalidVersion)
        } else {
            let net_id = pkt[14];
            let src_id = get_be64(pkt, 16);
            let token = get_be64(pkt, 24);
            if t == 6 {
                Ok(HeaderKind::TokenRequest { src_id, pkt_num, net_id })
            } else if t == 5 {
                Ok(HeaderKind::Retry { pkt_num, token })
            } else if t == 2 {
                Ok(HeaderKind::SessionConfirmed { pkt_num })
            } else {
                if n < 80 {
                    Err(Ssu2Error::Malformed)
                } else {
                    let ephemeral_key = sub_vec(pkt, 32, 64);
                    if t == 0 {
                        Ok(HeaderKind::SessionRequest { ephemeral_key, pkt_num, token, net_id })
                    } else {
                        Ok(HeaderKind::SessionCreated { ephemeral_key, pkt_num })
                    }
                }
            }
        }
    } else {
        Err(Ssu2Error::UnexpectedMessage)
    }
}

} // verus!
