//! Core of an SSU2 secure transport: packet framing, AEAD key schedule,
//! pending-session handshake state machines, the data-phase bookkeeping
//! (packet numbering, replay suppression, acknowledgement, retransmission),
//! an I2CP message encoder, and an address-book hosts-file parser.
//!
//! All network and file I/O lives outside this crate; the functions here
//! compute packets and state transitions from plain values.

use vstd::prelude::*;

pub mod active;
pub mod addrbook;
pub mod block;
pub mod header;
pub mod i2cp;
pub mod inbound;
pub mod keys;
pub mod message;
pub mod crypto;
pub mod wire;

verus! {

/// Errors a transport session can report.
///
/// `Malformed` covers every structural or AEAD failure in a received packet;
/// `UnexpectedMessage` is a well-formed packet arriving in the wrong state.
#[derive(Clone, Copy, Debug, PartialEq, Eq, Structural)]
pub enum Ssu2Error {
    Malformed,
    UnexpectedMessage,
    InvalidVersion,
    InvalidNetId,
    Timeout,
    SocketClosed,
}

/// An outgoing datagram: destination address and buffer.
#[derive(Clone, Debug)]
pub struct Packet {
    /// The packet bytes, ready for the socket.
    pub pkt: Vec<u8>,
    /// Where to send them.
    pub address: crate::block::SocketAddress,
}

impl Default for Packet {
    /// An empty packet: the value bounded queues recycle their slots with.
    fn default() -> (r: Self)
        ensures
            r.pkt@.len() == 0,
            r.address.ip@.len() == 0,
            r.address.port == 0,
    {
        Packet {
            pkt: Vec::new(),
            address: crate::block::SocketAddress { ip: Vec::new(), port: 0 },
        }
    }
}

} // verus!
