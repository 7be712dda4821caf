//! Encoding and decoding of the protocol's primitive values.

pub mod base128;
pub mod bytes;
pub mod dec;
pub mod enc;
pub mod json_value;
pub mod laws;
pub mod text;
mod prefixed_option;
mod uuid;
mod var_int;
mod var_long;

pub use prefixed_option::PrefixedOption;
pub use uuid::{digits_before, hex_digit, is_hyphen, pow16, uuid_text, Uuid};
pub use var_int::{
    bits_of, is_var_int, lemma_var_int_round_trip, lemma_var_int_shortest, parse_var_int, signed32,
    unsigned32, var_int_bytes, var_int_value, VarInt,
};
pub use var_long::{
    is_var_long, lemma_var_long_round_trip, lemma_var_long_shortest, parse_var_long, signed64,
    unsigned64, var_long_bytes, var_long_value, VarLong,
};
