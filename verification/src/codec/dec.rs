//! Decoding values from bytes.

mod decode;
mod error;
mod tuples;

pub use decode::{
    after_items, decode_count, decode_text, models, noted, parse_be, parse_count, parse_items,
    parse_text, Decode,
};
pub(crate) use error::{io_error_kind, io_error_text};
pub use error::{
    decode_error_text, decode_fault, io_kind, utf8_error_message, DecodeError,
    DecodeErrorContext, DecodeFault, IoKind,
};
