//! The typed sub-records carried inside an AEAD-protected payload, and their
//! byte codec: each block is `type (1) | length (2, big-endian) | body`.
//!
//! Parsing is total: a buffer either parses into an ordered list of blocks
//! that consumes it exactly, or the whole payload is rejected. Unknown block
//! types are fatal in handshake messages and skipped in the data phase.

use vstd::prelude::*;

use crate::wire::{
    get_be16, get_be32, push_all, put_be16, put_be32, spec_be16, spec_be32, spec_u16_from_be,
    spec_u32_from_be, sub_vec,
};

verus! {

/// Why a session ended; carried in a `Termination` block as a one-byte code.
#[derive(Clone, Copy, Debug, PartialEq, Eq, Structural)]
pub enum TerminationReason {
    Unspecified,
    TerminationReceived,
    IdleTimeout,
    RouterShutdown,
    AeadFailure,
    BannedLocally,
    Timeout,
}

/// The wire code of a termination reason.
pub open spec fn spec_reason_code(r: TerminationReason) -> u8 {
    match r {
        TerminationReason::Unspecified => 0,
        TerminationReason::TerminationReceived => 1,
        TerminationReason::IdleTimeout => 2,
        TerminationReason::RouterShutdown => 3,
        TerminationReason::AeadFailure => 4,
        TerminationReason::BannedLocally => 5,
        TerminationReason::Timeout => 6,
    }
}

/// The reason denoted by a wire code; codes this library does not emit read
/// as `Unspecified`.
pub open spec fn spec_reason_of_code(c: u8) -> TerminationReason {
    if c == 1 {
        TerminationReason::TerminationReceived
    } else if c == 2 {
        TerminationReason::IdleTimeout
    } else if c == 3 {
        TerminationReason::RouterShutdown
    } else if c == 4 {
        TerminationReason::AeadFailure
    } else if c == 5 {
        TerminationReason::BannedLocally
    } else if c == 6 {
        TerminationReason::Timeout
    } else {
        TerminationReason::Unspecified
    }
}

impl TerminationReason {
    /// The one-byte wire code.
    pub fn as_u8(&self) -> (r: u8)
        ensures
            r == spec_reason_code(*self),
    {
        match self {
            TerminationReason::Unspecified => 0,
            TerminationReason::TerminationReceived => 1,
            TerminationReason::IdleTimeout => 2,
            TerminationReason::RouterShutdown => 3,
            TerminationReason::AeadFailure => 4,
            TerminationReason::BannedLocally => 5,
            TerminationReason::Timeout => 6,
        }
    }

    /// The reason a wire code denotes.
    pub fn from_u8(c: u8) -> (r: Self)
        ensures
            r == spec_reason_of_code(c),
    {
        if c == 1 {
            TerminationReason::TerminationReceived
        } else if c == 2 {
            TerminationReason::IdleTimeout
        } else if c == 3 {
            TerminationReason::RouterShutdown
        } else if c == 4 {
            TerminationReason::AeadFailure
        } else if c == 5 {
            TerminationReason::BannedLocally
        } else if c == 6 {
            TerminationReason::Timeout
        } else {
            TerminationReason::Unspecified
        }
    }
}

/// What the transport reads of a peer's router-info record: the router
/// identity hash and the published SSU2 intro key. The full record format
/// belongs to the router-info parser, an outside collaborator; callers hand
/// this model in and out, and the router-info *block body* carries the
/// model's 64 bytes (identity hash, then intro key), not the full record.
#[derive(Clone, Debug)]
pub struct RouterInfo {
    /// 32-byte router identity hash.
    pub router_id: Vec<u8>,
    /// 32-byte intro key from the SSU2 address record's `i` option.
    pub intro_key: Vec<u8>,
}

/// Mathematical image of [`RouterInfo`].
pub struct RouterInfoView {
    pub router_id: Seq<u8>,
    pub intro_key: Seq<u8>,
}

impl View for RouterInfo {
    type V = RouterInfoView;

    open spec fn view(&self) -> RouterInfoView {
        RouterInfoView { router_id: self.router_id@, intro_key: self.intro_key@ }
    }
}

/// A socket address as plain values: 4 or 16 address bytes and a port.
#[derive(Clone, Debug)]
pub struct SocketAddress {
    pub ip: Vec<u8>,
    pub port: u16,
}

/// Mathematical image of [`SocketAddress`].
pub struct SocketAddressView {
    pub ip: Seq<u8>,
    pub port: u16,
}

impl View for SocketAddress {
    type V = SocketAddressView;

    open spec fn view(&self) -> SocketAddressView {
        SocketAddressView { ip: self.ip@, port: self.port }
    }
}

/// A typed sub-record of an SSU2 payload.
#[derive(Clone, Debug)]
pub enum Block {
    /// Sender's clock, seconds since the epoch.
    DateTime { timestamp: u32 },
    /// Uninterpreted option bytes.
    Options { options: Vec<u8> },
    /// The mandatory router-info record of `SessionConfirmed`.
    RouterInfo { router_info: RouterInfo },
    /// A complete upper-layer message.
    I2NpMessage { msg_type: u8, message_id: u32, expiration: u32, body: Vec<u8> },
    /// First piece of a fragmented upper-layer message.
    FirstFragment { msg_type: u8, message_id: u32, expiration: u32, fragment: Vec<u8> },
    /// Later piece of a fragmented upper-layer message.
    FollowOnFragment { last: bool, message_id: u32, fragment_num: u8, fragment: Vec<u8> },
    /// The session is over, with a reason.
    Termination { reason: TerminationReason },
    /// Length-obscuring filler.
    Padding { padding: Vec<u8> },
    /// Acknowledgement: highest contiguous packet number, the count of
    /// additional acknowledged packets below it, and (nack, ack) run lengths.
    Ack { ack_through: u32, num_acks: u8, ranges: Vec<(u8, u8)> },
    /// The sender's view of the peer's address.
    Address { address: SocketAddress },
}

/// Mathematical image of [`Block`].
pub enum BlockView {
    DateTime { timestamp: u32 },
    Options { options: Seq<u8> },
    RouterInfo { router_info: RouterInfoView },
    I2NpMessage { msg_type: u8, message_id: u32, expiration: u32, body: Seq<u8> },
    FirstFragment { msg_type: u8, message_id: u32, expiration: u32, fragment: Seq<u8> },
    FollowOnFragment { last: bool, message_id: u32, fragment_num: u8, fragment: Seq<u8> },
    Termination { reason: TerminationReason },
    Padding { padding: Seq<u8> },
    Ack { ack_through: u32, num_acks: u8, ranges: Seq<(u8, u8)> },
    Address { address: SocketAddressView },
}

impl View for Block {
    type V = BlockView;

    open spec fn view(&self) -> BlockView {
        match self {
            Block::DateTime { timestamp } => BlockView::DateTime { timestamp: *timestamp },
            Block::Options { options } => BlockView::Options { options: options@ },
            Block::RouterInfo { router_info } => BlockView::RouterInfo {
                router_info: router_info@,
            },
            Block::I2NpMessage { msg_type, message_id, expiration, body } => BlockView::I2NpMessage {
                msg_type: *msg_type,
                message_id: *message_id,
                expiration: *expiration,
                body: body@,
            },
            Block::FirstFragment { msg_type, message_id, expiration, fragment } => BlockView::FirstFragment {
                msg_type: *msg_type,
                message_id: *message_id,
                expiration: *expiration,
                fragment: fragment@,
            },
            Block::FollowOnFragment { last, message_id, fragment_num, fragment } => BlockView::FollowOnFragment {
                last: *last,
                message_id: *message_id,
                fragment_num: *fragment_num,
                fragment: fragment@,
            },
            Block::Termination { reason } => BlockView::Termination { reason: *reason },
            Block::Padding { padding } => BlockView::Padding { padding: padding@ },
            Block::Ack { ack_through, num_acks, ranges } => BlockView::Ack {
                ack_through: *ack_through,
                num_acks: *num_acks,
                ranges: ranges@,
            },
            Block::Address { address } => BlockView::Address { address: address@ },
        }
    }
}

/// The views of a list of blocks.
pub open spec fn views_of(s: Seq<Block>) -> Seq<BlockView> {
    s.map_values(|b: Block| b@)
}

/// All blocks in the list are well formed.
pub open spec fn spec_blocks_wf(bs: Seq<BlockView>) -> bool {
    forall|i: int| 0 <= i < bs.len() ==> spec_block_wf(#[trigger] bs[i])
}

/// The wire tag of a block.
pub open spec fn spec_block_tag(b: BlockView) -> u8 {
    match b {
        BlockView::DateTime { .. } => 0,
        BlockView::Options { .. } => 1,
        BlockView::RouterInfo { .. } => 2,
        BlockView::I2NpMessage { .. } => 3,
        BlockView::FirstFragment { .. } => 4,
        BlockView::FollowOnFragment { .. } => 5,
        BlockView::Termination { .. } => 6,
        BlockView::Padding { .. } => 18,
        BlockView::Ack { .. } => 254,
        BlockView::Address { .. } => 255,
    }
}

/// Whether a tag names a block type this library understands.
pub open spec fn spec_is_known_tag(tag: u8) -> bool {
    tag == 0 || tag == 1 || tag == 2 || tag == 3 || tag == 4 || tag == 5 || tag == 6 || tag == 18
        || tag == 254 || tag == 255
}

/// The byte encoding of the (nack, ack) run-length pairs of an `Ack` block.
pub open spec fn spec_ranges_bytes(rs: Seq<(u8, u8)>) -> Seq<u8>
    decreases rs.len(),
{
    if rs.len() == 0 {
        Seq::empty()
    } else {
        seq![rs[0].0, rs[0].1] + spec_ranges_bytes(rs.drop_first())
    }
}

/// The run-length pairs denoted by a byte string (a trailing odd byte is
/// never produced by the encoder and is ignored).
pub open spec fn spec_parse_ranges(s: Seq<u8>) -> Seq<(u8, u8)>
    decreases s.len(),
{
    if s.len() < 2 {
        Seq::empty()
    } else {
        seq![(s[0], s[1])] + spec_parse_ranges(s.skip(2))
    }
}

/// The body bytes of a block.
pub open spec fn spec_block_body(b: BlockView) -> Seq<u8> {
    match b {
        BlockView::DateTime { timestamp } => spec_be32(timestamp),
        BlockView::Options { options } => options,
        BlockView::RouterInfo { router_info } => router_info.router_id + router_info.intro_key,
        BlockView::I2NpMessage { msg_type, message_id, expiration, body } => seq![msg_type]
            + spec_be32(message_id) + spec_be32(expiration) + body,
        BlockView::FirstFragment { msg_type, message_id, expiration, fragment } => seq![msg_type]
            + spec_be32(message_id) + spec_be32(expiration) + fragment,
        BlockView::FollowOnFragment { last, message_id, fragment_num, fragment } => seq![
            if last {
                1u8
            } else {
                0u8
            },
            fragment_num,
        ] + spec_be32(message_id) + fragment,
        BlockView::Termination { reason } => seq![spec_reason_code(reason)],
        BlockView::Padding { padding } => padding,
        BlockView::Ack { ack_through, num_acks, ranges } => spec_be32(ack_through) + seq![num_acks]
            + spec_ranges_bytes(ranges),
        BlockView::Address { address } => address.ip + spec_be16(address.port),
    }
}

/// A block whose encoding is well formed: the body fits a 16-bit length and
/// fixed-size fields have their sizes.
pub open spec fn spec_block_wf(b: BlockView) -> bool {
    spec_block_body(b).len() <= 0xFFFF && match b {
        BlockView::RouterInfo { router_info } => router_info.router_id.len() == 32
            && router_info.intro_key.len() == 32,
        BlockView::Address { address } => address.ip.len() == 4 || address.ip.len() == 16,
        _ => true,
    }
}

/// The full encoding of one block: tag, big-endian body length, body.
pub open spec fn spec_serialize_block(b: BlockView) -> Seq<u8> {
    seq![spec_block_tag(b)] + spec_be16(spec_block_body(b).len() as u16) + spec_block_body(b)
}

/// The concatenated encoding of a list of blocks.
pub open spec fn spec_serialize_blocks(bs: Seq<BlockView>) -> Seq<u8>
    decreases bs.len(),
{
    if bs.len() == 0 {
        Seq::empty()
    } else {
        spec_serialize_block(bs[0]) + spec_serialize_blocks(bs.drop_first())
    }
}

/// The block denoted by a known tag and body, or `None` if the tag is
/// unknown or the body malformed.
pub open spec fn spec_parse_body(tag: u8, body: Seq<u8>) -> Option<BlockView> {
    if tag == 0 {
        if body.len() == 4 {
            Some(BlockView::DateTime { timestamp: spec_u32_from_be(body) })
        } else {
            None
        }
    } else if tag == 1 {
        Some(BlockView::Options { options: body })
    } else if tag == 2 {
        if body.len() == 64 {
            Some(
                BlockView::RouterInfo {
                    router_info: RouterInfoView {
                        router_id: body.subrange(0, 32),
                        intro_key: body.subrange(32, 64),
                    },
                },
            )
        } else {
            None
        }
    } else if tag == 3 {
        if body.len() >= 9 {
            Some(
                BlockView::I2NpMessage {
                    msg_type: body[0],
                    message_id: spec_u32_from_be(body.subrange(1, 5)),
                    expiration: spec_u32_from_be(body.subrange(5, 9)),
                    body: body.skip(9),
                },
            )
        } else {
            None
        }
    } else if tag == 4 {
        if body.len() >= 9 {
            Some(
                BlockView::FirstFragment {
                    msg_type: body[0],
                    message_id: spec_u32_from_be(body.subrange(1, 5)),
                    expiration: spec_u32_from_be(body.subrange(5, 9)),
                    fragment: body.skip(9),
                },
            )
        } else {
            None
        }
    } else if tag == 5 {
        if body.len() >= 6 && (body[0] == 0 || body[0] == 1) {
            Some(
                BlockView::FollowOnFragment {
                    last: body[0] == 1,
                    fragment_num: body[1],
                    message_id: spec_u32_from_be(body.subrange(2, 6)),
                    fragment: body.skip(6),
                },
            )
        } else {
            None
        }
    } else if tag == 6 {
        if body.len() == 1 {
            Some(BlockView::Termination { reason: spec_reason_of_code(body[0]) })
        } else {
            None
        }
    } else if tag == 18 {
        Some(BlockView::Padding { padding: body })
    } else if tag == 254 {
        if body.len() >= 5 && (body.len() - 5) % 2 == 0 {
            Some(
                BlockView::Ack {
                    ack_through: spec_u32_from_be(body.subrange(0, 4)),
                    num_acks: body[4],
                    ranges: spec_parse_ranges(body.skip(5)),
                },
            )
        } else {
            None
        }
    } else if tag == 255 {
        if body.len() == 6 || body.len() == 18 {
            Some(
                BlockView::Address {
                    address: SocketAddressView {
                        ip: body.subrange(0, body.len() - 2),
                        port: spec_u16_from_be(body.skip(body.len() - 2)),
                    },
                },
            )
        } else {
            None
        }
    } else {
        None
    }
}

/// The ordered list of blocks a buffer denotes, consuming it exactly.
/// In handshake messages (`handshake`) an unknown block type rejects the
/// buffer; in the data phase it is skipped. A malformed known block always
/// rejects the buffer.
pub open spec fn spec_parse_blocks(buf: Seq<u8>, handshake: bool) -> Option<Seq<BlockView>>
    decreases buf.len(),
{
    if buf.len() == 0 {
        Some(Seq::empty())
    } else if buf.len() < 3 {
        None
    } else {
        let blen = spec_u16_from_be(buf.subrange(1, 3)) as int;
        if buf.len() < 3 + blen {
            None
        } else {
            let tag = buf[0];
            let body = buf.subrange(3, 3 + blen);
            match spec_parse_blocks(buf.skip(3 + blen), handshake) {
                Option::None => None,
                Option::Some(rest) => match spec_parse_body(tag, body) {
                    Option::Some(b) => Some(seq![b] + rest),
                    Option::None => if spec_is_known_tag(tag) || handshake {
                        None
                    } else {
                        Some(rest)
                    },
                },
            }
        }
    }
}

/// The length of the run-length encoding: two bytes per pair.
pub proof fn lemma_ranges_bytes_len(rs: Seq<(u8, u8)>)
    ensures
        spec_ranges_bytes(rs).len() == 2 * rs.len(),
    decreases rs.len(),
{
    if rs.len() > 0 {
        lemma_ranges_bytes_len(rs.drop_first());
    }
}

/// Decoding the run-length encoding yields the pairs again.
pub proof fn lemma_ranges_round_trip(rs: Seq<(u8, u8)>)
    ensures
        spec_parse_ranges(spec_ranges_bytes(rs)) == rs,
    decreases rs.len(),
{
    if rs.len() == 0 {
        assert(spec_parse_ranges(spec_ranges_bytes(rs)) =~= rs);
    } else {
        lemma_ranges_round_trip(rs.drop_first());
        lemma_ranges_bytes_len(rs.drop_first());
        let s = spec_ranges_bytes(rs);
        assert(s.skip(2) =~= spec_ranges_bytes(rs.drop_first()));
        assert(spec_parse_ranges(s) =~= rs);
    }
}

/// Decoding a well-formed block's tag and body yields the block again.
pub proof fn lemma_parse_body_round_trip(b: BlockView)
    requires
        spec_block_wf(b),
    ensures
        spec_parse_body(spec_block_tag(b), spec_block_body(b)) == Some(b),
{
    let body = spec_block_body(b);
    match b {
        BlockView::DateTime { timestamp } => {
            crate::wire::lemma_be32_round_trip(timestamp);
        },
        BlockView::Options { .. } => {},
        BlockView::RouterInfo { router_info } => {
            assert(body.subrange(0, 32) =~= router_info.router_id);
            assert(body.subrange(32, 64) =~= router_info.intro_key);
        },
        BlockView::I2NpMessage { msg_type, message_id, expiration, body: inner } => {
            assert(body.subrange(1, 5) =~= spec_be32(message_id));
            assert(body.subrange(5, 9) =~= spec_be32(expiration));
            assert(body.skip(9) =~= inner);
            crate::wire::lemma_be32_round_trip(message_id);
            crate::wire::lemma_be32_round_trip(expiration);
        },
        BlockView::FirstFragment { msg_type, message_id, expiration, fragment } => {
            assert(body.subrange(1, 5) =~= spec_be32(message_id));
            assert(body.subrange(5, 9) =~= spec_be32(expiration));
            assert(body.skip(9) =~= fragment);
            crate::wire::lemma_be32_round_trip(message_id);
            crate::wire::lemma_be32_round_trip(expiration);
        },
        BlockView::FollowOnFragment { last, message_id, fragment_num, fragment } => {
            assert(body.subrange(2, 6) =~= spec_be32(message_id));
            assert(body.skip(6) =~= fragment);
            crate::wire::lemma_be32_round_trip(message_id);
        },
        BlockView::Termination { .. } => {},
        BlockView::Padding { .. } => {},
        BlockView::Ack { ack_through, num_acks, ranges } => {
            lemma_ranges_bytes_len(ranges);
            assert(body.subrange(0, 4) =~= spec_be32(ack_through));
            assert(body.skip(5) =~= spec_ranges_bytes(ranges));
            crate::wire::lemma_be32_round_trip(ack_through);
            lemma_ranges_round_trip(ranges);
        },
        BlockView::Address { address } => {
            let n = body.len() as int;
            assert(body.subrange(0, n - 2) =~= address.ip);
            assert(body.skip(n - 2) =~= spec_be16(address.port));
            crate::wire::lemma_be16_round_trip(address.port);
        },
    }
}

/// Round-trip: parsing the serialization of any list of well-formed blocks
/// yields exactly that list, in both handshake and data-phase modes.
pub proof fn lemma_blocks_round_trip(bs: Seq<BlockView>, handshake: bool)
    requires
        forall|i: int| 0 <= i < bs.len() ==> spec_block_wf(#[trigger] bs[i]),
    ensures
        spec_parse_blocks(spec_serialize_blocks(bs), handshake) == Some(bs),
    decreases bs.len(),
{
    if bs.len() == 0 {
    } else {
        let b = bs[0];
        let body = spec_block_body(b);
        let sb = spec_serialize_block(b);
        let rest = spec_serialize_blocks(bs.drop_first());
        let buf = spec_serialize_blocks(bs);
        assert(buf =~= sb + rest);
        assert(buf.len() >= 3);
        assert(buf[0] == spec_block_tag(b));
        assert(buf.subrange(1, 3) =~= spec_be16(body.len() as u16));
        crate::wire::lemma_be16_round_trip(body.len() as u16);
        let blen = spec_u16_from_be(buf.subrange(1, 3)) as int;
        assert(blen == body.len());
        assert(buf.subrange(3, 3 + blen) =~= body);
        assert(buf.skip(3 + blen) =~= rest);
        lemma_blocks_round_trip(bs.drop_first(), handshake);
        lemma_parse_body_round_trip(b);
        assert(seq![b] + bs.drop_first() =~= bs);
    }
}

impl Block {
    /// The wire tag of this block.
    pub fn tag(&self) -> (r: u8)
        ensures
            r == spec_block_tag(self@),
    {
        match self {
            Block::DateTime { .. } => 0,
            Block::Options { .. } => 1,
            Block::RouterInfo { .. } => 2,
            Block::I2NpMessage { .. } => 3,
            Block::FirstFragment { .. } => 4,
            Block::FollowOnFragment { .. } => 5,
            Block::Termination { .. } => 6,
            Block::Padding { .. } => 18,
            Block::Ack { .. } => 254,
            Block::Address { .. } => 255,
        }
    }
}

/// The encoded (nack, ack) pairs of `ranges` from index `at` on.
fn serialize_ranges_from(ranges: &Vec<(u8, u8)>, at: usize) -> (r: Vec<u8>)
    requires
        at <= ranges@.len(),
    ensures
        r@ == spec_ranges_bytes(ranges@.skip(at as int)),
    decreases ranges@.len() - at,
{
    let n: usize = ranges.len();
    if at == n {
        let r: Vec<u8> = Vec::new();
        assert(r@ =~= spec_ranges_bytes(ranges@.skip(at as int)));
        r
    } else {
        let mut r: Vec<u8> = Vec::new();
        let (a, c) = ranges[at];
        r.push(a);
        r.push(c);
        let mut tail = serialize_ranges_from(ranges, at + 1);
        r.append(&mut tail);
        proof {
            let s = ranges@.skip(at as int);
            assert(s[0] == ranges@[at as int]);
            assert(s.drop_first() =~= ranges@.skip(at + 1));
            assert(r@ =~= spec_ranges_bytes(s));
        }
        r
    }
}

/// The body bytes of one block.
fn serialize_body(b: &Block) -> (r: Vec<u8>)
    ensures
        r@ == spec_block_body(b@),
{
    match b {
        Block::DateTime { timestamp } => {
            let mut v: Vec<u8> = Vec::new();
            put_be32(&mut v, *timestamp);
            assert(v@ =~= spec_block_body(b@));
            v
        },
        Block::Options { options } => {
            let mut v: Vec<u8> = Vec::new();
            push_all(&mut v, options);
            assert(v@ =~= spec_block_body(b@));
            v
        },
        Block::RouterInfo { router_info } => {
            let mut v: Vec<u8> = Vec::new();
            push_all(&mut v, &router_info.router_id);
            push_all(&mut v, &router_info.intro_key);
            assert(v@ =~= spec_block_body(b@));
            v
        },
        Block::I2NpMessage { msg_type, message_id, expiration, body } => {
            let mut v: Vec<u8> = Vec::new();
            v.push(*msg_type);
            put_be32(&mut v, *message_id);
            put_be32(&mut v, *expiration);
            push_all(&mut v, body);
            assert(v@ =~= spec_block_body(b@));
            v
        },
        Block::FirstFragment { msg_type, message_id, expiration, fragment } => {
            let mut v: Vec<u8> = Vec::new();
            v.push(*msg_type);
            put_be32(&mut v, *message_id);
            put_be32(&mut v, *expiration);
            push_all(&mut v, fragment);
            assert(v@ =~= spec_block_body(b@));
            v
        },
        Block::FollowOnFragment { last, message_id, fragment_num, fragment } => {
            let mut v: Vec<u8> = Vec::new();
            if *last {
                v.push(1u8);
            } else {
                v.push(0u8);
            }
            v.push(*fragment_num);
            put_be32(&mut v, *message_id);
            push_all(&mut v, fragment);
            assert(v@ =~= spec_block_body(b@));
            v
        },
        Block::Termination { reason } => {
            let mut v: Vec<u8> = Vec::new();
            v.push(reason.as_u8());
            assert(v@ =~= spec_block_body(b@));
            v
        },
        Block::Padding { padding } => {
            let mut v: Vec<u8> = Vec::new();
            push_all(&mut v, padding);
            assert(v@ =~= spec_block_body(b@));
            v
        },
        Block::Ack { ack_through, num_acks, ranges } => {
            let mut v: Vec<u8> = Vec::new();
            put_be32(&mut v, *ack_through);
            v.push(*num_acks);
            let mut tail = serialize_ranges_from(ranges, 0);
            proof {
                assert(ranges@.skip(0) =~= ranges@);
            }
            v.append(&mut tail);
            assert(v@ =~= spec_block_body(b@));
            v
        },
        Block::Address { address } => {
            let mut v: Vec<u8> = Vec::new();
            push_all(&mut v, &address.ip);
            put_be16(&mut v, address.port);
            assert(v@ =~= spec_block_body(b@));
            v
        },
    }
}

/// Append the full encoding of one block to `out`.
pub fn serialize_block_into(out: &mut Vec<u8>, b: &Block)
    requires
        spec_block_wf(b@),
    ensures
        final(out)@ == old(out)@ + spec_serialize_block(b@),
{
    let mut body = serialize_body(b);
    out.push(b.tag());
    put_be16(out, body.len() as u16);
    out.append(&mut body);
    assert(out@ =~= old(out)@ + spec_serialize_block(b@));
}

/// The concatenated encoding of `blocks` from index `at` on.
fn serialize_blocks_from(blocks: &Vec<Block>, at: usize) -> (r: Vec<u8>)
    requires
        at <= blocks@.len(),
        spec_blocks_wf(views_of(blocks@)),
    ensures
        r@ == spec_serialize_blocks(views_of(blocks@).skip(at as int)),
    decreases blocks@.len() - at,
{
    let n: usize = blocks.len();
    if at == n {
        let r: Vec<u8> = Vec::new();
        assert(r@ =~= spec_serialize_blocks(views_of(blocks@).skip(at as int)));
        r
    } else {
        let mut r: Vec<u8> = Vec::new();
        proof {
            assert(views_of(blocks@)[at as int] == blocks@[at as int]@);
        }
        serialize_block_into(&mut r, &blocks[at]);
        let mut tail = serialize_blocks_from(blocks, at + 1);
        r.append(&mut tail);
        proof {
            let s = views_of(blocks@).skip(at as int);
            assert(s[0] == blocks@[at as int]@);
            assert(s.drop_first() =~= views_of(blocks@).skip(at + 1));
            assert(r@ =~= spec_serialize_blocks(s));
        }
        r
    }
}

/// The byte encoding of an ordered list of blocks.
pub fn serialize_blocks(blocks: &Vec<Block>) -> (r: Vec<u8>)
    requires
        spec_blocks_wf(views_of(blocks@)),
    ensures
        r@ == spec_serialize_blocks(views_of(blocks@)),
{
    let r = serialize_blocks_from(blocks, 0);
    proof {
        assert(views_of(blocks@).skip(0) =~= views_of(blocks@));
    }
    r
}

/// Whether this library understands the tag.
fn is_known_tag(tag: u8) -> (r: bool)
    ensures
        r == spec_is_known_tag(tag),
{
    tag == 0 || tag == 1 || tag == 2 || tag == 3 || tag == 4 || tag == 5 || tag == 6 || tag == 18
        || tag == 254 || tag == 255
}

/// The decoded (nack, ack) pairs of `body` from index `at` on.
fn parse_ranges_from(body: &Vec<u8>, at: usize) -> (r: Vec<(u8, u8)>)
    requires
        at <= body@.len(),
    ensures
        r@ == spec_parse_ranges(body@.skip(at as int)),
    decreases body@.len() - at,
{
    let n: usize = body.len();
    if n - at < 2 {
        let r: Vec<(u8, u8)> = Vec::new();
        assert(r@ =~= spec_parse_ranges(body@.skip(at as int)));
        r
    } else {
        let mut r = parse_ranges_from(body, at + 2);
        r.insert(0, (body[at], body[at + 1]));
        proof {
            let s = body@.skip(at as int);
            assert(s[0] == body@[at as int] && s[1] == body@[at + 1]);
            assert(s.skip(2) =~= body@.skip(at + 2));
            assert(r@ =~= spec_parse_ranges(s));
        }
        r
    }
}

/// Decode one block from a known tag and its body bytes.
fn parse_body(tag: u8, body: Vec<u8>) -> (r: Option<Block>)
    ensures
        match r {
            Some(b) => spec_parse_body(tag, body@) == Some(b@),
            None => spec_parse_body(tag, body@) is None,
        },
{
    let n: usize = body.len();
    if tag == 0 {
        if n == 4 {
            let ts = get_be32(&body, 0);
            proof {
                assert(body@.subrange(0, 4) =~= body@);
            }
            Some(Block::DateTime { timestamp: ts })
        } else {
            None
        }
    } else if tag == 1 {
        Some(Block::Options { options: body })
    } else if tag == 2 {
        if n == 64 {
            let router_id = sub_vec(&body, 0, 32);
            let intro_key = sub_vec(&body, 32, 64);
            Some(Block::RouterInfo { router_info: RouterInfo { router_id, intro_key } })
        } else {
            None
        }
    } else if tag == 3 {
        if n >= 9 {
            let msg_type = body[0];
            let message_id = get_be32(&body, 1);
            let expiration = get_be32(&body, 5);
            let inner = sub_vec(&body, 9, n);
            proof {
                assert(body@.subrange(9, n as int) =~= body@.skip(9));
            }
            Some(Block::I2NpMessage { msg_type, message_id, expiration, body: inner })
        } else {
            None
        }
    } else if tag == 4 {
        if n >= 9 {
            let msg_type = body[0];
            let message_id = get_be32(&body, 1);
            let expiration = get_be32(&body, 5);
            let fragment = sub_vec(&body, 9, n);
            proof {
                assert(body@.subrange(9, n as int) =~= body@.skip(9));
            }
            Some(Block::FirstFragment { msg_type, message_id, expiration, fragment })
        } else {
            None
        }
    } else if tag == 5 {
        if n >= 6 && (body[0] == 0 || body[0] == 1) {
            let last = body[0] == 1;
            let fragment_num = body[1];
            let message_id = get_be32(&body, 2);
            let fragment = sub_vec(&body, 6, n);
            proof {
                assert(body@.subrange(6, n as int) =~= body@.skip(6));
            }
            Some(Block::FollowOnFragment { last, message_id, fragment_num, fragment })
        } else {
            None
        }
    } else if tag == 6 {
        if n == 1 {
            Some(Block::Termination { reason: TerminationReason::from_u8(body[0]) })
        } else {
            None
        }
    } else if tag == 18 {
        Some(Block::Padding { padding: body })
    } else if tag == 254 {
        if n >= 5 && (n - 5) % 2 == 0 {
            let ack_through = get_be32(&body, 0);
            let num_acks = body[4];
            let ranges = parse_ranges_from(&body, 5);
            proof {
                assert(body@.skip(5) =~= body@.skip(5));
            }
            Some(Block::Ack { ack_through, num_acks, ranges })
        } else {
            None
        }
    } else if tag == 255 {
        if n == 6 || n == 18 {
            let ip = sub_vec(&body, 0, n - 2);
            let port = get_be16(&body, n - 2);
            proof {
                assert(body@.subrange(n - 2, n as int) =~= body@.skip(n - 2));
            }
            Some(Block::Address { address: SocketAddress { ip, port } })
        } else {
            None
        }
    } else {
        None
    }
}

/// Decode the blocks of `buf` from offset `at` on.
fn parse_blocks_at(buf: &Vec<u8>, at: usize, handshake: bool) -> (r: Option<Vec<Block>>)
    requires
        at <= buf@.len(),
    ensures
        match r {
            Some(bs) => spec_parse_blocks(buf@.skip(at as int), handshake) == Some(views_of(bs@)),
            None => spec_parse_blocks(buf@.skip(at as int), handshake) is None,
        },
    decreases buf@.len() - at,
{
    let n: usize = buf.len();
    let ghost s = buf@.skip(at as int);
    if at == n {
        let r: Vec<Block> = Vec::new();
        proof {
            assert(views_of(r@) =~= Seq::<BlockView>::empty());
        }
        Some(r)
    } else if n - at < 3 {
        None
    } else {
        let tag = buf[at];
        let blen = get_be16(buf, at + 1) as usize;
        proof {
            assert(s.subrange(1, 3) =~= buf@.subrange(at + 1, at + 3));
            assert(s[0] == buf@[at as int]);
        }
        if blen > n - (at + 3) {
            None
        } else {
            let body = sub_vec(buf, at + 3, at + 3 + blen);
            proof {
                assert(s.subrange(3, 3 + blen) =~= buf@.subrange(at + 3, at + 3 + blen as int));
                assert(s.skip(3 + blen) =~= buf@.skip(at + 3 + blen as int));
            }
            match parse_blocks_at(buf, at + 3 + blen, handshake) {
                None => None,
                Some(rest) => {
                    match parse_body(tag, body) {
                        Some(b) => {
                            let ghost rest_view = rest@;
                            let mut bs = rest;
                            bs.insert(0, b);
                            proof {
                                assert(bs@.drop_first() =~= rest_view);
                                assert(views_of(bs@) =~= seq![b@] + views_of(rest_view));
                            }
                            Some(bs)
                        },
                        None => {
                            if handshake || is_known_tag(tag) {
                                None
                            } else {
                                Some(rest)
                            }
                        },
                    }
                },
            }
        }
    }
}

/// The first router-info block of a list, if any: the record that is
/// mandatory in `SessionConfirmed`.
pub open spec fn spec_find_router_info(bs: Seq<BlockView>) -> Option<RouterInfoView>
    decreases bs.len(),
{
    if bs.len() == 0 {
        None
    } else if bs[0] is RouterInfo {
        Some(bs[0]->RouterInfo_router_info)
    } else {
        spec_find_router_info(bs.drop_first())
    }
}

/// Find the first router-info block from index `at` on.
fn find_router_info_from(blocks: &Vec<Block>, at: usize) -> (r: Option<RouterInfo>)
    requires
        at <= blocks@.len(),
    ensures
        match r {
            Some(ri) => spec_find_router_info(views_of(blocks@).skip(at as int)) == Some(ri@),
            None => spec_find_router_info(views_of(blocks@).skip(at as int)) is None,
        },
    decreases blocks@.len() - at,
{
    let n: usize = blocks.len();
    let ghost s = views_of(blocks@).skip(at as int);
    if at == n {
        None
    } else {
        proof {
            assert(s[0] == blocks@[at as int]@);
            assert(s.drop_first() =~= views_of(blocks@).skip(at + 1));
        }
        match &blocks[at] {
            Block::RouterInfo { router_info } => {
                let router_id = sub_vec(&router_info.router_id, 0, router_info.router_id.len());
                let intro_key = sub_vec(&router_info.intro_key, 0, router_info.intro_key.len());
                proof {
                    assert(router_id@ =~= router_info.router_id@);
                    assert(intro_key@ =~= router_info.intro_key@);
                }
                Some(RouterInfo { router_id, intro_key })
            },
            _ => find_router_info_from(blocks, at + 1),
        }
    }
}

/// The first router-info block of a parsed payload, if any.
pub fn find_router_info(blocks: &Vec<Block>) -> (r: Option<RouterInfo>)
    ensures
        match r {
            Some(ri) => spec_find_router_info(views_of(blocks@)) == Some(ri@),
            None => spec_find_router_info(views_of(blocks@)) is None,
        },
{
    let r = find_router_info_from(blocks, 0);
    proof {
        assert(views_of(blocks@).skip(0) =~= views_of(blocks@));
    }
    r
}

/// The reason of the first termination block of a list, if any.
pub open spec fn spec_find_termination(bs: Seq<BlockView>) -> Option<TerminationReason>
    decreases bs.len(),
{
    if bs.len() == 0 {
        None
    } else if bs[0] is Termination {
        Some(bs[0]->Termination_reason)
    } else {
        spec_find_termination(bs.drop_first())
    }
}

/// Find the first termination block from index `at` on.
fn find_termination_from(blocks: &Vec<Block>, at: usize) -> (r: Option<TerminationReason>)
    requires
        at <= blocks@.len(),
    ensures
        match r {
            Some(reason) => spec_find_termination(views_of(blocks@).skip(at as int)) == Some(
                reason,
            ),
            None => spec_find_termination(views_of(blocks@).skip(at as int)) is None,
        },
    decreases blocks@.len() - at,
{
    let n: usize = blocks.len();
    let ghost s = views_of(blocks@).skip(at as int);
    if at == n {
        None
    } else {
        proof {
            assert(s[0] == blocks@[at as int]@);
            assert(s.drop_first() =~= views_of(blocks@).skip(at + 1));
        }
        match &blocks[at] {
            Block::Termination { reason } => Some(*reason),
            _ => find_termination_from(blocks, at + 1),
        }
    }
}

/// The reason of the first termination block of a parsed payload, if any.
pub fn find_termination(blocks: &Vec<Block>) -> (r: Option<TerminationReason>)
    ensures
        match r {
            Some(reason) => spec_find_termination(views_of(blocks@)) == Some(reason),
            None => spec_find_termination(views_of(blocks@)) is None,
        },
{
    let r = find_termination_from(blocks, 0);
    proof {
        assert(views_of(blocks@).skip(0) =~= views_of(blocks@));
    }
    r
}

/// Serializing one more block appends its encoding.
pub proof fn lemma_serialize_blocks_push(bs: Seq<BlockView>, b: BlockView)
    ensures
        spec_serialize_blocks(bs.push(b)) == spec_serialize_blocks(bs) + spec_serialize_block(b),
    decreases bs.len(),
{
    if bs.len() == 0 {
        assert(bs.push(b).drop_first() =~= Seq::<BlockView>::empty());
        assert(bs.push(b)[0] == b);
        assert(spec_serialize_blocks(Seq::<BlockView>::empty()) == Seq::<u8>::empty());
        assert(bs =~= Seq::<BlockView>::empty());
        assert(spec_serialize_blocks(bs.push(b)) =~= spec_serialize_blocks(bs)
            + spec_serialize_block(b));
    } else {
        lemma_serialize_blocks_push(bs.drop_first(), b);
        assert(bs.push(b).drop_first() =~= bs.drop_first().push(b));
        assert(bs.push(b)[0] == bs[0]);
        assert(spec_serialize_blocks(bs.push(b)) =~= spec_serialize_blocks(bs)
            + spec_serialize_block(b));
    }
}

/// Decode a payload into its ordered list of blocks, consuming it exactly;
/// `None` rejects the whole payload.
pub fn parse_blocks(buf: &Vec<u8>, handshake: bool) -> (r: Option<Vec<Block>>)
    ensures
        match r {
            Some(bs) => spec_parse_blocks(buf@, handshake) == Some(views_of(bs@)),
            None => spec_parse_blocks(buf@, handshake) is None,
        },
{
    let r = parse_blocks_at(buf, 0, handshake);
    proof {
        assert(buf@.skip(0) =~= buf@);
    }
    r
}

} // verus!
