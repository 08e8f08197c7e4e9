//! I2CP client-protocol message encoders: each message is a length-prefixed,
//! type-tagged frame. The frames are assembled in a `bytes::BytesMut`, whose
//! contents the contracts track byte for byte.

use vstd::prelude::*;

use bytes::BufMut;

use crate::wire::{spec_be16, spec_be32};

verus! {

#[verifier::external_type_specification]
#[verifier::external_body]
pub struct ExBytesMut(bytes::BytesMut);

/// The bytes a `BytesMut` holds, in order.
pub uninterp spec fn bytes_view(b: bytes::BytesMut) -> Seq<u8>;

/// Relies on bytes' `BytesMut::with_capacity`: the new buffer is empty.
#[verifier::external_body]
fn bytes_mut_with_capacity(capacity: usize) -> (r: bytes::BytesMut)
    ensures
        bytes_view(r) == Seq::<u8>::empty(),
{
    bytes::BytesMut::with_capacity(capacity)
}

/// Relies on bytes' `BufMut::put_u8`: appends the byte.
#[verifier::external_body]
fn bm_put_u8(b: &mut bytes::BytesMut, x: u8)
    ensures
        bytes_view(*final(b)) == bytes_view(*old(b)).push(x),
{
    b.put_u8(x);
}

/// Relies on bytes' `BufMut::put_u16`: appends the value big-endian.
#[verifier::external_body]
fn bm_put_u16(b: &mut bytes::BytesMut, x: u16)
    ensures
        bytes_view(*final(b)) == bytes_view(*old(b)) + spec_be16(x),
{
    b.put_u16(x);
}

/// Relies on bytes' `BufMut::put_u32`: appends the value big-endian.
#[verifier::external_body]
fn bm_put_u32(b: &mut bytes::BytesMut, x: u32)
    ensures
        bytes_view(*final(b)) == bytes_view(*old(b)) + spec_be32(x),
{
    b.put_u32(x);
}

/// Relies on bytes' `BufMut::put_slice`: appends the bytes.
#[verifier::external_body]
fn bm_put_slice(b: &mut bytes::BytesMut, src: &Vec<u8>)
    ensures
        bytes_view(*final(b)) == bytes_view(*old(b)) + src@,
{
    b.put_slice(src.as_slice());
}

/// Length of the I2CP frame header: a four-byte payload length and a
/// one-byte message type.
pub const I2CP_HEADER_SIZE: usize = 5;

/// The wire code of the `BandwidthLimits` message.
pub const BANDWIDTH_LIMITS_TYPE: u8 = 23;

/// The wire code of the `MessagePayload` message.
pub const MESSAGE_PAYLOAD_TYPE: u8 = 31;

/// The fixed body of a `BandwidthLimits` message: seven defined 32-bit
/// values and nine undefined zeros.
pub open spec fn spec_bandwidth_limits_body() -> Seq<u8> {
    spec_be32(500) + spec_be32(500) + spec_be32(2000) + spec_be32(2000) + spec_be32(2000)
        + spec_be32(2000) + spec_be32(5) + spec_be32(0) + spec_be32(0) + spec_be32(0) + spec_be32(0)
        + spec_be32(0) + spec_be32(0) + spec_be32(0) + spec_be32(0) + spec_be32(0)
}

/// The complete `BandwidthLimits` frame.
pub open spec fn spec_bandwidth_limits() -> Seq<u8> {
    spec_be32(64) + seq![BANDWIDTH_LIMITS_TYPE] + spec_bandwidth_limits_body()
}

/// `BandwidthLimits` message.
pub struct BandwidthLimits(());

impl BandwidthLimits {
    /// Create a new `BandwidthLimits` message: the router's advertised
    /// client and router rate limits, with the nine undefined fields zero.
    pub fn new() -> (r: bytes::BytesMut)
        ensures
            bytes_view(r) == spec_bandwidth_limits(),
    {
        let mut out = bytes_mut_with_capacity(I2CP_HEADER_SIZE + 16 * 4);

        bm_put_u32(&mut out, 16 * 4);
        bm_put_u8(&mut out, BANDWIDTH_LIMITS_TYPE);

        bm_put_u32(&mut out, 500);  // client inbound limit (KBps)
        bm_put_u32(&mut out, 500);  // client outbound limit (KBps)
        bm_put_u32(&mut out, 2000);  // router inbound limit (KBps)
        bm_put_u32(&mut out, 2000);  // router inbound burst limit (KBps)
        bm_put_u32(&mut out, 2000);  // router outbound limit (KBps)
        bm_put_u32(&mut out, 2000);  // router outbound burst limit (KBps)
        bm_put_u32(&mut out, 5);  // router burst time (seconds)

        // nine 4-byte integers, undefined
        let mut i: usize = 0;
        while i < 9
            invariant
                i <= 9,
                bytes_view(out) =~= spec_be32(64) + seq![BANDWIDTH_LIMITS_TYPE] + spec_be32(500)
                    + spec_be32(500) + spec_be32(2000) + spec_be32(2000) + spec_be32(2000)
                    + spec_be32(2000) + spec_be32(5) + zeros32(i as nat),
            decreases 9 - i,
        {
            bm_put_u32(&mut out, 0);
            proof {
                assert(zeros32((i + 1) as nat) =~= zeros32(i as nat) + spec_be32(0));
            }
            i = i + 1;
        }
        proof {
            reveal_with_fuel(zeros32, 10);
            assert(zeros32(9) =~= spec_be32(0) + spec_be32(0) + spec_be32(0) + spec_be32(0)
                + spec_be32(0) + spec_be32(0) + spec_be32(0) + spec_be32(0) + spec_be32(0));
            assert(bytes_view(out) =~= spec_bandwidth_limits());
        }
        out
    }
}

/// `n` repetitions of a zero 32-bit field.
pub open spec fn zeros32(n: nat) -> Seq<u8>
    decreases n,
{
    if n == 0 {
        Seq::empty()
    } else {
        zeros32((n - 1) as nat) + spec_be32(0)
    }
}

/// The complete `MessagePayload` frame for a message body.
pub open spec fn spec_message_payload(session_id: u16, message_id: u32, message: Seq<u8>) -> Seq<
    u8,
> {
    spec_be32((10 + message.len()) as u32) + seq![MESSAGE_PAYLOAD_TYPE] + spec_be16(session_id)
        + spec_be32(message_id) + spec_be32(message.len() as u32) + message
}

/// `MessagePayload` message.
pub struct MessagePayload(());

impl MessagePayload {
    /// Create a new `MessagePayload` message carrying `message` for the
    /// session and message IDs given.
    pub fn new(session_id: u16, message_id: u32, message: Vec<u8>) -> (r: bytes::BytesMut)
        requires
            message@.len() + 10 <= u32::MAX,
        ensures
            bytes_view(r) == spec_message_payload(session_id, message_id, message@),
    {
        let payload_len = 2usize  // session id
         + 4usize  // message id
         + 4usize  // payload size
         + message.len();

        let mut out = bytes_mut_with_capacity(payload_len);

        bm_put_u32(&mut out, payload_len as u32);
        bm_put_u8(&mut out, MESSAGE_PAYLOAD_TYPE);
        bm_put_u16(&mut out, session_id);
        bm_put_u32(&mut out, message_id);
        bm_put_u32(&mut out, message.len() as u32);
        bm_put_slice(&mut out, &message);

        proof {
            assert(bytes_view(out) =~= spec_message_payload(session_id, message_id, message@));
        }
        out
    }
}

} // verus!
