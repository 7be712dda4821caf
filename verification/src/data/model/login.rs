use vstd::prelude::*;

use crate::codec::dec::{noted, Decode, DecodeError, DecodeErrorContext, DecodeFault};
use crate::codec::enc::{noted_wire, Encode, EncodeError, EncodeErrorContext, EncodeFault};
use crate::codec::laws::{lemma_string_round_trip, lemma_uuid_round_trip};
use crate::codec::{
    lemma_var_int_round_trip, parse_var_int, var_int_bytes, var_int_value, Uuid, VarInt,
};

verus! {

/// The message that opens a login: who wants to play.
#[derive(Debug)]
pub struct Hello {
    pub name: String,
    pub uuid: Uuid,
}

/// The message by which the server turns compression on or off.
#[derive(Debug)]
pub struct LoginCompression {
    /// Sent as a VarInt. From zero up, the least number of bytes of id and
    /// payload at which a frame is compressed; below zero, no compression.
    pub size: i32,
}

/// The mathematical content of a [`Hello`].
pub struct HelloView {
    pub name: Seq<char>,
    pub uuid: u128,
}

impl View for Hello {
    type V = HelloView;

    open spec fn view(&self) -> HelloView {
        HelloView { name: self.name@, uuid: self.uuid@ }
    }
}

impl Decode for Hello {
    type V = HelloView;

    open spec fn model(&self) -> HelloView {
        self@
    }

    /// The name as a string, then the identifier.
    open spec fn parse(bytes: Seq<u8>) -> Result<(HelloView, nat), DecodeFault> {
        match noted(String::parse(bytes), "Failed to decode name"@) {
            Ok((name, n1)) => match noted(
                Uuid::parse(bytes.skip(n1 as int)),
                "Failed to decode uuid"@,
            ) {
                Ok((uuid, n2)) => Ok((HelloView { name, uuid }, n1 + n2)),
                Err(fault) => Err(fault),
            },
            Err(fault) => Err(fault),
        }
    }

    fn decode(reader: &mut &[u8]) -> (r: Result<Self, DecodeError>) {
        let start: &[u8] = *reader;
        let name = String::decode(reader).err_context("Failed to decode name")?;
        let ghost n1 = String::parse(start@)->Ok_0.1;
        let uuid = match Uuid::decode(reader).err_context("Failed to decode uuid") {
            Ok(value) => value,
            Err(err) => {
                *reader = start;
                return Err(err);
            },
        };
        let ghost n2 = Uuid::parse(start@.skip(n1 as int))->Ok_0.1;
        assert(start@.skip(n1 as int).skip(n2 as int) == start@.skip((n1 + n2) as int));
        Ok(Self { name, uuid })
    }
}

impl Encode for Hello {
    /// The name as a string, then the identifier.
    open spec fn wire(&self) -> Result<Seq<u8>, EncodeFault> {
        match noted_wire(self.name.wire(), "Failed to encode name"@) {
            Ok(name) => match noted_wire(self.uuid.wire(), "Failed to encode uuid"@) {
                Ok(uuid) => Ok(name + uuid),
                Err(fault) => Err(fault),
            },
            Err(fault) => Err(fault),
        }
    }

    fn encode(&self, writer: &mut Vec<u8>) -> (r: Result<usize, EncodeError>) {
        let start: usize = writer.len();
        self.name.encode(writer).err_context("Failed to encode name")?;
        self.uuid.encode(writer).err_context("Failed to encode uuid")?;
        proof {
            let name = self.name.wire()->Ok_0;
            let uuid = self.uuid.wire()->Ok_0;
            assert(writer@ == old(writer)@ + (name + uuid));
        }
        Ok(writer.len() - start)
    }
}

impl Decode for LoginCompression {
    type V = LoginCompression;

    open spec fn model(&self) -> LoginCompression {
        *self
    }

    /// The size as a VarInt.
    open spec fn parse(bytes: Seq<u8>) -> Result<(LoginCompression, nat), DecodeFault> {
        match noted(parse_var_int(bytes), "Failed to decode size"@) {
            Ok((size, taken)) => Ok((LoginCompression { size: var_int_value(size) as i32 }, taken)),
            Err(fault) => Err(fault),
        }
    }

    fn decode(reader: &mut &[u8]) -> (r: Result<Self, DecodeError>) {
        let size: i32 = VarInt::decode(reader).err_context("Failed to decode size")?.value();
        Ok(Self { size })
    }
}

impl Encode for LoginCompression {
    /// The size as a VarInt.
    open spec fn wire(&self) -> Result<Seq<u8>, EncodeFault> {
        Ok(var_int_bytes(self.size as int))
    }

    fn encode(&self, writer: &mut Vec<u8>) -> (r: Result<usize, EncodeError>) {
        VarInt::new(self.size).encode(writer).err_context("Failed to encode size")
    }
}

/// A hello that has an encoding reads back from it, whatever follows.
pub proof fn lemma_hello_round_trip(hello: Hello, rest: Seq<u8>)
    requires
        hello.wire() is Ok,
    ensures
        Hello::parse(hello.wire()->Ok_0 + rest) == Ok::<(HelloView, nat), DecodeFault>(
            (hello@, hello.wire()->Ok_0.len()),
        ),
{
    let name = hello.name.wire()->Ok_0;
    let uuid = hello.uuid.wire()->Ok_0;
    lemma_string_round_trip(hello.name, uuid + rest);
    lemma_uuid_round_trip(hello.uuid, rest);
    assert(name + uuid + rest == name + (uuid + rest));
    assert((name + (uuid + rest)).skip(name.len() as int) == uuid + rest);
}

/// A compression message reads back from its encoding, whatever follows.
pub proof fn lemma_login_compression_round_trip(message: LoginCompression, rest: Seq<u8>)
    ensures
        message.wire() is Ok,
        LoginCompression::parse(message.wire()->Ok_0 + rest) == Ok::<
            (LoginCompression, nat),
            DecodeFault,
        >((message, message.wire()->Ok_0.len())),
{
    lemma_var_int_round_trip(message.size as int, rest);
}

} // verus!
