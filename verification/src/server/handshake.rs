use vstd::prelude::*;

use crate::codec::dec::{noted, Decode, DecodeErrorContext};
use crate::data::model::{Handshake, HandshakeView};
use crate::data::packet::{parse_frame, Packet, PacketView};
use crate::server::error::{Error, Fault};

verus! {

/// The handshake in the payload of a packet. What follows it in the payload
/// is not looked at.
pub open spec fn intention(packet: PacketView) -> Result<HandshakeView, Fault> {
    match noted(Handshake::parse(packet.data), "Failed to decode handshake"@) {
        Ok((handshake, _)) => Ok(handshake),
        Err(fault) => Err(Fault::Decode(fault)),
    }
}

/// The handshake in the first frame of a stream, with the number of bytes
/// that the frame occupies.
pub open spec fn processed(bytes: Seq<u8>) -> Result<(HandshakeView, nat), Fault> {
    match parse_frame(bytes) {
        Ok((packet, taken)) => match intention(packet) {
            Ok(handshake) => Ok((handshake, taken)),
            Err(fault) => Err(fault),
        },
        Err(fault) => Err(Fault::Decode(fault)),
    }
}

/// Reads the handshake that opens a connection. On failure the stream is
/// where it was.
pub fn process(stream: &mut &[u8]) -> (r: Result<Handshake, Error>)
    ensures
        match processed(old(stream)@) {
            Ok((handshake, taken)) => {
                &&& r matches Ok(found)
                &&& found@ == handshake
                &&& taken <= old(stream)@.len()
                &&& final(stream)@ == old(stream)@.skip(taken as int)
            },
            Err(fault) => r matches Err(e) && e@ == fault && final(stream)@ == old(stream)@,
        },
{
    let start: &[u8] = *stream;
    let packet = match Packet::read_packet_uncompressed(stream) {
        Ok(packet) => packet,
        Err(err) => {
            return Err(Error::Decode(err));
        },
    };
    match handle_intention(&packet) {
        Ok(handshake) => Ok(handshake),
        Err(err) => {
            *stream = start;
            Err(err)
        },
    }
}

/// Reads the handshake out of its packet.
pub fn handle_intention(packet: &Packet) -> (r: Result<Handshake, Error>)
    ensures
        match intention(packet@) {
            Ok(handshake) => r matches Ok(found) && found@ == handshake,
            Err(fault) => r matches Err(e) && e@ == fault,
        },
{
    let mut data: &[u8] = packet.data.as_slice();
    match Handshake::decode(&mut data).err_context("Failed to decode handshake") {
        Ok(handshake) => Ok(handshake),
        Err(err) => Err(Error::Decode(err)),
    }
}

} // verus!
