use vstd::prelude::*;
use vstd::string::StringExecFns;

use crate::codec::dec::{noted, Decode, DecodeError, DecodeErrorContext};
use crate::codec::enc::{noted_wire, Encode, EncodeError, EncodeErrorContext, EncodeFault};
use crate::codec::{PrefixedOption, Uuid};
use crate::data::packet::{parse_frame, Packet, PacketView};
use crate::server::error::{Error, Fault};

verus! {

/// A property of a player's profile.
#[derive(Debug)]
pub struct Property {
    pub name: String,
    pub value: String,
    /// Sent as a prefixed option.
    pub signature: Option<String>,
}

impl Encode for Property {
    /// The name, the value, and the signature behind a boolean.
    open spec fn wire(&self) -> Result<Seq<u8>, EncodeFault> {
        match noted_wire(self.name.wire(), "Failed to encode name"@) {
            Ok(name) => match noted_wire(self.value.wire(), "Failed to encode value"@) {
                Ok(value) => match noted_wire(
                    match self.signature {
                        Some(signature) => PrefixedOption::Present(signature).wire(),
                        None => PrefixedOption::<String>::Absent.wire(),
                    },
                    "Failed to encode signature"@,
                ) {
                    Ok(signature) => Ok(name + value + signature),
                    Err(fault) => Err(fault),
                },
                Err(fault) => Err(fault),
            },
            Err(fault) => Err(fault),
        }
    }

    fn encode(&self, writer: &mut Vec<u8>) -> (r: Result<usize, EncodeError>) {
        let start: usize = writer.len();
        self.name.encode(writer).err_context("Failed to encode name")?;
        if let Err(err) = self.value.encode(writer).err_context("Failed to encode value") {
            writer.truncate(start);
            assert(writer@ == old(writer)@);
            return Err(err);
        }
        let signature = PrefixedOption::from(self.signature.as_ref());
        if let Err(err) = signature.encode(writer).err_context("Failed to encode signature") {
            writer.truncate(start);
            assert(writer@ == old(writer)@);
            return Err(err);
        }
        proof {
            let name = self.name.wire()->Ok_0;
            let value = self.value.wire()->Ok_0;
            let sig = signature.wire()->Ok_0;
            assert(writer@ == old(writer)@ + (name + value + sig));
        }
        Ok(writer.len() - start)
    }
}

/// What the server answers a hello with: a packet with the id 2 that holds
/// the player's identifier, the player's name and an empty list of
/// properties.
pub open spec fn hello_answer(packet: PacketView) -> Result<PacketView, Fault> {
    match noted(String::parse(packet.data), "Failed to decode player name"@) {
        Ok((name, taken)) => match noted(
            Uuid::parse(packet.data.skip(taken as int)),
            "Failed to decode player Uuid"@,
        ) {
            Ok((uuid, _)) => match noted_wire(
                crate::codec::enc::text_wire(name),
                "Failed to encode player name"@,
            ) {
                Ok(name_bytes) => Ok(
                    PacketView {
                        id: 0x02,
                        data: Uuid(uuid).wire()->Ok_0 + name_bytes + seq![0u8],
                    },
                ),
                Err(fault) => Err(Fault::Encode(fault)),
            },
            Err(fault) => Err(Fault::Decode(fault)),
        },
        Err(fault) => Err(Fault::Decode(fault)),
    }
}

/// Answers the hello that opens a login.
pub fn handle_hello(packet: &Packet) -> (r: Result<Packet, Error>)
    ensures
        match hello_answer(packet@) {
            Ok(answer) => r matches Ok(found) && found@ == answer,
            Err(fault) => r matches Err(e) && e@ == fault,
        },
{
    let mut data: &[u8] = packet.data.as_slice();

    let player_name = match String::decode(&mut data).err_context("Failed to decode player name") {
        Ok(name) => name,
        Err(err) => {
            return Err(Error::Decode(err));
        },
    };
    let player_uuid = match Uuid::decode(&mut data).err_context("Failed to decode player Uuid") {
        Ok(uuid) => uuid,
        Err(err) => {
            return Err(Error::Decode(err));
        },
    };

    let properties: Vec<Property> = Vec::new();

    let mut data: Vec<u8> = Vec::new();
    match player_uuid.encode(&mut data).err_context("Failed to encode player Uuid") {
        Ok(_) => {},
        Err(err) => {
            return Err(Error::Encode(err));
        },
    }
    match player_name.encode(&mut data).err_context("Failed to encode player name") {
        Ok(_) => {},
        Err(err) => {
            return Err(Error::Encode(err));
        },
    }
    match properties.encode(&mut data).err_context("Failed to encode properties") {
        Ok(_) => {},
        Err(err) => {
            return Err(Error::Encode(err));
        },
    }
    proof {
        reveal_with_fuel(crate::codec::base128::groups_of, 2);
        assert(crate::codec::var_int_bytes(0) == seq![0u8]);
    }

    Ok(Packet::new(0x02, data.as_slice()))
}

/// The fault of an acknowledgement that holds data.
pub open spec fn acknowledged(packet: PacketView) -> Result<(), Fault> {
    if packet.data.len() != 0 {
        Err(
            Fault::InvalidPacketData {
                context: "login_acknowledged packet data should be empty"@,
            },
        )
    } else {
        Ok(())
    }
}

/// Takes the client's acknowledgement that login is finished, which holds
/// nothing.
pub fn handle_login_acknowledged(packet: &Packet) -> (r: Result<(), Error>)
    ensures
        match acknowledged(packet@) {
            Ok(_) => r is Ok,
            Err(fault) => r matches Err(e) && e@ == fault,
        },
{
    if packet.data.len() != 0 {
        return Err(
            Error::InvalidPacketData {
                context: String::from_str("login_acknowledged packet data should be empty"),
            },
        );
    }
    Ok(())
}

/// How a hello that could not be read is reported: as the failure of the
/// read under an empty note.
pub fn hello_unread(error: DecodeError) -> (r: Error)
    ensures
        r@ == Fault::Decode(error@.context(""@)),
{
    Error::Decode(error.context(""))
}

/// What a login comes to on a stream that holds the client's two packets:
/// the bytes that the server sends, and the number of bytes that it reads.
pub open spec fn processed(bytes: Seq<u8>) -> Result<(Seq<u8>, nat), Fault> {
    match noted(parse_frame(bytes), ""@) {
        Ok((hello, n1)) => match hello_answer(hello) {
            Ok(answer) => match answer.framed() {
                Ok(sent) => match parse_frame(bytes.skip(n1 as int)) {
                    Ok((acknowledgement, n2)) => match acknowledged(acknowledgement) {
                        Ok(_) => Ok((sent, n1 + n2)),
                        Err(fault) => Err(fault),
                    },
                    Err(fault) => Err(Fault::Decode(fault)),
                },
                Err(fault) => Err(Fault::Encode(fault)),
            },
            Err(fault) => Err(fault),
        },
        Err(fault) => Err(Fault::Decode(fault)),
    }
}

/// Takes a client through login: answers its hello on `out`, and takes its
/// acknowledgement. On failure `stream` and `out` are as they were.
pub fn process(stream: &mut &[u8], out: &mut Vec<u8>) -> (r: Result<(), Error>)
    ensures
        match processed(old(stream)@) {
            Ok((sent, taken)) => {
                &&& r is Ok
                &&& final(out)@ == old(out)@ + sent
                &&& taken <= old(stream)@.len()
                &&& final(stream)@ == old(stream)@.skip(taken as int)
            },
            Err(fault) => {
                &&& r matches Err(e)
                &&& e@ == fault
                &&& final(out)@ == old(out)@
                &&& final(stream)@ == old(stream)@
            },
        },
{
    let start: &[u8] = *stream;
    let written: usize = out.len();
    let packet = match Packet::read_packet_uncompressed(stream) {
        Ok(packet) => packet,
        Err(err) => {
            return Err(hello_unread(err));
        },
    };
    let ghost n1 = parse_frame(start@)->Ok_0.1;
    let answer = match handle_hello(&packet) {
        Ok(answer) => answer,
        Err(err) => {
            *stream = start;
            return Err(err);
        },
    };
    match answer.write_packet_uncompressed(out) {
        Ok(_) => {},
        Err(err) => {
            *stream = start;
            return Err(Error::Encode(err));
        },
    }
    let packet = match Packet::read_packet_uncompressed(stream) {
        Ok(packet) => packet,
        Err(err) => {
            *stream = start;
            out.truncate(written);
            assert(out@ == old(out)@);
            return Err(Error::Decode(err));
        },
    };
    let ghost n2 = parse_frame(start@.skip(n1 as int))->Ok_0.1;
    assert(start@.skip(n1 as int).skip(n2 as int) == start@.skip((n1 + n2) as int));
    match handle_login_acknowledged(&packet) {
        Ok(_) => Ok(()),
        Err(err) => {
            *stream = start;
            out.truncate(written);
            assert(out@ == old(out)@);
            Err(err)
        },
    }
}

} // verus!
