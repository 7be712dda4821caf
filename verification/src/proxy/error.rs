use vstd::prelude::*;
use vstd::string::StringExecFns;

use crate::codec::dec::{decode_error_text, io_error_text, DecodeError, DecodeFault};
use crate::codec::enc::{encode_error_reads, EncodeError, EncodeFault};
use crate::codec::text::{decimal_text, push_decimal};

verus! {

/// `std::sync::mpsc::RecvError`, carried through as an opaque value.
#[verifier::external_type_specification]
#[verifier::external_body]
pub struct ExRecvError(std::sync::mpsc::RecvError);

/// Why the proxy gave up on a connection.
#[derive(Debug)]
pub enum Error {
    /// A relay ended without reporting how.
    MpscRecv(std::sync::mpsc::RecvError),
    /// A socket could not be duplicated for the relay.
    TcpStreamClone(std::io::Error),
    Decode(DecodeError),
    Encode(EncodeError),
    /// The server sent a login packet that the proxy does not know.
    UnknownPacketId(i32),
}

/// The mathematical content of an [`Error`].
pub enum Fault {
    MpscRecv,
    TcpStreamClone(std::io::Error),
    Decode(DecodeFault),
    Encode(EncodeFault),
    UnknownPacketId(i32),
}

impl View for Error {
    type V = Fault;

    open spec fn view(&self) -> Fault {
        match self {
            Error::MpscRecv(_) => Fault::MpscRecv,
            Error::TcpStreamClone(err) => Fault::TcpStreamClone(*err),
            Error::Decode(err) => Fault::Decode(err@),
            Error::Encode(err) => Fault::Encode(err@),
            Error::UnknownPacketId(id) => Fault::UnknownPacketId(*id),
        }
    }
}

impl vstd::std_specs::convert::FromSpecImpl<std::sync::mpsc::RecvError> for Error {
    open spec fn obeys_from_spec() -> bool {
        true
    }

    open spec fn from_spec(err: std::sync::mpsc::RecvError) -> Error {
        Error::MpscRecv(err)
    }
}

impl From<std::sync::mpsc::RecvError> for Error {
    fn from(err: std::sync::mpsc::RecvError) -> (r: Self) {
        Self::MpscRecv(err)
    }
}

impl vstd::std_specs::convert::FromSpecImpl<DecodeError> for Error {
    open spec fn obeys_from_spec() -> bool {
        true
    }

    open spec fn from_spec(err: DecodeError) -> Error {
        Error::Decode(err)
    }
}

impl From<DecodeError> for Error {
    fn from(err: DecodeError) -> (r: Self) {
        Self::Decode(err)
    }
}

impl vstd::std_specs::convert::FromSpecImpl<EncodeError> for Error {
    open spec fn obeys_from_spec() -> bool {
        true
    }

    open spec fn from_spec(err: EncodeError) -> Error {
        Error::Encode(err)
    }
}

impl From<EncodeError> for Error {
    fn from(err: EncodeError) -> (r: Self) {
        Self::Encode(err)
    }
}

/// The text that a `std::sync::mpsc::RecvError` displays. The error holds
/// nothing, so there is one such text.
pub open spec fn recv_error_message() -> Seq<char> {
    "receiving on a closed channel"@
}

/// The `Display` text of a `std::sync::mpsc::RecvError`: the one fixed line
/// that std writes for it.
#[verifier::external_body]
fn recv_error_text(err: &std::sync::mpsc::RecvError) -> (r: String)
    ensures
        r@ == recv_error_message(),
{
    format!("{err}")
}

/// Whether `text` is a line that reports the error. What an I/O error
/// displays is left open: of such an error the line is fixed up to there.
pub open spec fn error_reads(error: Error, text: Seq<char>) -> bool {
    match error {
        Error::MpscRecv(err) => text == "MPSC receive error: "@ + recv_error_message(),
        Error::TcpStreamClone(err) => "TCP stream clone error: "@.is_prefix_of(text),
        Error::Decode(err) => text == "Decode error: "@ + decode_error_text(err),
        Error::Encode(err) => {
            &&& "Encode error: "@.is_prefix_of(text)
            &&& encode_error_reads(err, text.skip("Encode error: "@.len() as int))
        },
        Error::UnknownPacketId(id) => text == "Unknown packet ID: "@ + decimal_text(id as int),
    }
}

impl Error {
    /// The line that reports the error.
    #[must_use]
    pub fn to_string(&self) -> (r: String)
        ensures
            error_reads(*self, r@),
    {
        match self {
            Self::MpscRecv(err) => String::from_str("MPSC receive error: ").concat(
                recv_error_text(err).as_str(),
            ),
            Self::TcpStreamClone(err) => String::from_str("TCP stream clone error: ").concat(
                io_error_text(err).as_str(),
            ),
            Self::Decode(err) => String::from_str("Decode error: ").concat(
                err.to_string().as_str(),
            ),
            Self::Encode(err) => {
                let inner = err.to_string();
                let text = String::from_str("Encode error: ").concat(inner.as_str());
                assert(text@.skip("Encode error: "@.len() as int) =~= inner@);
                text
            },
            Self::UnknownPacketId(id) => {
                let mut text = String::from_str("Unknown packet ID: ");
                push_decimal(&mut text, *id as i64);
                text
            },
        }
    }
}

} // verus!
