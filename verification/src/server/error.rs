use vstd::prelude::*;
use vstd::string::StringExecFns;

use crate::codec::dec::{decode_error_text, DecodeError, DecodeFault};
use crate::codec::enc::{encode_error_reads, EncodeError, EncodeFault};

verus! {

/// Why the server gave up on a connection.
#[derive(Debug)]
pub enum Error {
    Decode(DecodeError),
    Encode(EncodeError),
    /// A packet held what it may not hold.
    InvalidPacketData { context: String },
}

/// The mathematical content of an [`Error`].
pub enum Fault {
    Decode(DecodeFault),
    Encode(EncodeFault),
    InvalidPacketData { context: Seq<char> },
}

impl View for Error {
    type V = Fault;

    open spec fn view(&self) -> Fault {
        match self {
            Error::Decode(err) => Fault::Decode(err@),
            Error::Encode(err) => Fault::Encode(err@),
            Error::InvalidPacketData { context } => Fault::InvalidPacketData { context: context@ },
        }
    }
}

/// Whether `text` is a line that reports the error. What an I/O error
/// displays is left open: of a failed write the line is fixed up to there.
pub open spec fn error_reads(error: Error, text: Seq<char>) -> bool {
    match error {
        Error::Decode(err) => text == "Decode error: "@ + decode_error_text(err),
        Error::Encode(err) => {
            &&& "Encode error: "@.is_prefix_of(text)
            &&& encode_error_reads(err, text.skip("Encode error: "@.len() as int))
        },
        Error::InvalidPacketData { context } => text == "Invalid packet data: "@ + context@,
    }
}

impl Error {
    /// The line that reports the error.
    #[must_use]
    pub fn to_string(&self) -> (r: String)
        ensures
            error_reads(*self, r@),
    {
        match self {
            Self::Decode(err) => String::from_str("Decode error: ").concat(
                err.to_string().as_str(),
            ),
            Self::Encode(err) => {
                let inner = err.to_string();
                let text = String::from_str("Encode error: ").concat(inner.as_str());
                assert(text@.skip("Encode error: "@.len() as int) =~= inner@);
                text
            },
            Self::InvalidPacketData { context } => String::from_str(
                "Invalid packet data: ",
            ).concat(context.as_str()),
        }
    }
}

impl vstd::std_specs::convert::FromSpecImpl<DecodeError> for Error {
    open spec fn obeys_from_spec() -> bool {
        true
    }

    open spec fn from_spec(err: DecodeError) -> Error {
        Error::Decode(err)
    }
}

impl From<DecodeError> for Error {
    fn from(err: DecodeError) -> (r: Self) {
        Self::Decode(err)
    }
}

impl vstd::std_specs::convert::FromSpecImpl<EncodeError> for Error {
    open spec fn obeys_from_spec() -> bool {
        true
    }

    open spec fn from_spec(err: EncodeError) -> Error {
        Error::Encode(err)
    }
}

impl From<EncodeError> for Error {
    fn from(err: EncodeError) -> (r: Self) {
        Self::Encode(err)
    }
}

} // verus!
