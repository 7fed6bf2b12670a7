//! OSC packets on the wire.
use vstd::prelude::*;

use crate::error::Error;
use crate::message;

verus! {

/// [`rosc::OscPacket`]: an OSC packet. It is only carried through.
#[verifier::external_type_specification]
#[verifier::external_body]
pub struct ExOscPacket(rosc::OscPacket);

/// Size of the largest datagram in which a packet is received.
pub const PACKET_BUFFER_SIZE: usize = 1536;

/// What [`rosc::encoder::encode`] writes for a packet.
pub uninterp spec fn packet_bytes(packet: rosc::OscPacket) -> Seq<u8>;

/// What [`rosc::decoder::decode_udp`] reads from the bytes of a datagram.
pub uninterp spec fn packet_of(bytes: Seq<u8>) -> Option<rosc::OscPacket>;

/// The packet in `r`, if there is one.
pub open spec fn packet_in<E>(r: Result<rosc::OscPacket, E>) -> Option<rosc::OscPacket> {
    match r {
        Ok(packet) => Some(packet),
        Err(_) => None,
    }
}

/// [`rosc::encoder::encode`]: the packet in the wire format. Claimed: every packet is written, as
/// writing into memory does not fail, and the bytes depend on the packet alone. Which bytes these
/// are is not said.
#[verifier::external_body]
fn encode(packet: &rosc::OscPacket) -> (r: Result<Vec<u8>, rosc::OscError>)
    ensures
        message::bytes_in(r) == Some(packet_bytes(*packet)),
{
    rosc::encoder::encode(packet)
}

/// [`rosc::decoder::decode_udp`]: the packet that a datagram holds. Claimed: it depends on the bytes
/// alone. Which packet it is is not said; a packet with a zero character in a text is not read back
/// as it was written. Bundles in bundles are read by recursion, which the size of a datagram bounds.
#[verifier::external_body]
fn decode(bytes: &[u8]) -> (r: Result<rosc::OscPacket, rosc::OscError>)
    requires
        bytes@.len() <= PACKET_BUFFER_SIZE,
    ensures
        packet_in(r) == packet_of(bytes@),
{
    rosc::decoder::decode_udp(bytes).map(|(_, packet)| packet)
}

/// The packet in the wire format.
pub fn encode_packet(packet: &rosc::OscPacket) -> (r: Result<Vec<u8>, Error>)
    ensures
        message::bytes_in(r) == Some(packet_bytes(*packet)),
{
    match encode(packet) {
        Ok(bytes) => Ok(bytes),
        Err(e) => Err(Error::OscError(e)),
    }
}

/// The packet that a datagram holds; datagrams that hold none are passed over.
pub fn decode_packet(bytes: &[u8]) -> (r: Option<rosc::OscPacket>)
    requires
        bytes@.len() <= PACKET_BUFFER_SIZE,
    ensures
        r == packet_of(bytes@),
{
    match decode(bytes) {
        Ok(packet) => Some(packet),
        Err(_) => None,
    }
}

} // verus!
