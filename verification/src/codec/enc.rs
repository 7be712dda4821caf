//! Encoding values to bytes.

mod encode;
mod error;
mod tuples;

pub use encode::{
    after_wire, encodes_as, length_error, length_fault, noted_wire, text_wire, wire_items,
    with_length, Encode,
};
pub use error::{
    encode_error_reads, encode_error_text, encode_fault, io_error_of, lemma_encode_error_text,
    lemma_peer_gone, EncodeError, EncodeErrorContext, EncodeFault,
};
