use vstd::prelude::*;

use crate::codec::dec::{noted, Decode, DecodeError, DecodeErrorContext, DecodeFault};
use crate::codec::text::{discriminant_message, discriminant_text};
use crate::codec::{bits_of, parse_var_int, unsigned32, var_int_value, VarInt};

verus! {

/// The first message of a connection: what the client speaks, whom it asked
/// for, and what it wants next.
#[derive(Debug)]
pub struct Handshake {
    /// Sent as a VarInt.
    pub protocol_version: u32,
    pub server_address: String,
    pub server_port: u16,
    pub intent: Intent,
}

/// What the client wants after the handshake. On the wire a VarInt: 1 for
/// `Status`, 2 for `Login`, 3 for `Transfer`.
#[derive(Debug, Clone, Copy, PartialEq, Eq, Structural)]
pub enum Intent {
    Status,
    Login,
    Transfer,
}

/// The mathematical content of a [`Handshake`].
pub struct HandshakeView {
    pub protocol_version: u32,
    pub server_address: Seq<char>,
    pub server_port: u16,
    pub intent: Intent,
}

impl View for Handshake {
    type V = HandshakeView;

    open spec fn view(&self) -> HandshakeView {
        HandshakeView {
            protocol_version: self.protocol_version,
            server_address: self.server_address@,
            server_port: self.server_port,
            intent: self.intent,
        }
    }
}

impl Intent {
    /// The number that stands for the intent on the wire.
    pub open spec fn discriminant(self) -> int {
        match self {
            Intent::Status => 1,
            Intent::Login => 2,
            Intent::Transfer => 3,
        }
    }

    /// The intent that a number stands for, if it stands for one.
    pub open spec fn of_discriminant(raw: int) -> Option<Intent> {
        if raw == 1 {
            Some(Intent::Status)
        } else if raw == 2 {
            Some(Intent::Login)
        } else if raw == 3 {
            Some(Intent::Transfer)
        } else {
            None
        }
    }
}

impl Decode for Intent {
    type V = Intent;

    open spec fn model(&self) -> Intent {
        *self
    }

    /// A VarInt that is 1, 2 or 3. Any other number is rejected with a
    /// message that names this type and the number.
    open spec fn parse(bytes: Seq<u8>) -> Result<(Intent, nat), DecodeFault> {
        match noted(parse_var_int(bytes), "Failed to decode Intent"@) {
            Ok((number, taken)) => match Intent::of_discriminant(var_int_value(number)) {
                Some(intent) => Ok((intent, taken)),
                None => Err(
                    DecodeFault::Custom {
                        message: discriminant_text("Intent"@, var_int_value(number)),
                    },
                ),
            },
            Err(fault) => Err(fault),
        }
    }

    fn decode(reader: &mut &[u8]) -> (r: Result<Self, DecodeError>) {
        let start: &[u8] = *reader;
        let raw: i32 = VarInt::decode(reader).err_context("Failed to decode Intent")?.value();
        match raw {
            1 => Ok(Intent::Status),
            2 => Ok(Intent::Login),
            3 => Ok(Intent::Transfer),
            _ => {
                *reader = start;
                Err(DecodeError::Custom { message: discriminant_message("Intent", raw as i64) })
            },
        }
    }
}

impl Decode for Handshake {
    type V = HandshakeView;

    open spec fn model(&self) -> HandshakeView {
        self@
    }

    /// The fields in their order: the protocol version as a VarInt, the
    /// address as a string, the port as two bytes, the intent.
    open spec fn parse(bytes: Seq<u8>) -> Result<(HandshakeView, nat), DecodeFault> {
        match noted(parse_var_int(bytes), "Failed to decode protocol_version"@) {
            Ok((version, n1)) => match noted(
                String::parse(bytes.skip(n1 as int)),
                "Failed to decode server_address"@,
            ) {
                Ok((server_address, n2)) => match noted(
                    u16::parse(bytes.skip((n1 + n2) as int)),
                    "Failed to decode server_port"@,
                ) {
                    Ok((server_port, n3)) => match noted(
                        Intent::parse(bytes.skip((n1 + n2 + n3) as int)),
                        "Failed to decode intent"@,
                    ) {
                        Ok((intent, n4)) => Ok(
                            (
                                HandshakeView {
                                    protocol_version: unsigned32(var_int_value(version)) as u32,
                                    server_address,
                                    server_port,
                                    intent,
                                },
                                n1 + n2 + n3 + n4,
                            ),
                        ),
                        Err(fault) => Err(fault),
                    },
                    Err(fault) => Err(fault),
                },
                Err(fault) => Err(fault),
            },
            Err(fault) => Err(fault),
        }
    }

    fn decode(reader: &mut &[u8]) -> (r: Result<Self, DecodeError>) {
        let start: &[u8] = *reader;
        let protocol_version: u32 = bits_of(
            VarInt::decode(reader).err_context("Failed to decode protocol_version")?.value(),
        );
        let ghost n1 = parse_var_int(start@)->Ok_0.1;
        let server_address = match String::decode(reader).err_context(
            "Failed to decode server_address",
        ) {
            Ok(value) => value,
            Err(err) => {
                *reader = start;
                return Err(err);
            },
        };
        let ghost n2 = String::parse(start@.skip(n1 as int))->Ok_0.1;
        assert(start@.skip(n1 as int).skip(n2 as int) == start@.skip((n1 + n2) as int));
        let server_port = match u16::decode(reader).err_context("Failed to decode server_port") {
            Ok(value) => value,
            Err(err) => {
                *reader = start;
                return Err(err);
            },
        };
        let ghost n3 = u16::parse(start@.skip((n1 + n2) as int))->Ok_0.1;
        assert(start@.skip((n1 + n2) as int).skip(n3 as int) == start@.skip(
            (n1 + n2 + n3) as int,
        ));
        let intent = match Intent::decode(reader).err_context("Failed to decode intent") {
            Ok(value) => value,
            Err(err) => {
                *reader = start;
                return Err(err);
            },
        };
        let ghost n4 = Intent::parse(start@.skip((n1 + n2 + n3) as int))->Ok_0.1;
        assert(start@.skip((n1 + n2 + n3) as int).skip(n4 as int) == start@.skip(
            (n1 + n2 + n3 + n4) as int,
        ));
        Ok(Self { protocol_version, server_address, server_port, intent })
    }
}

} // verus!
