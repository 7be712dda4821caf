//! What encoding and decoding owe each other.
//!
//! Each type has two statements. Decoding the encoding of a value gives the
//! value back, whatever bytes follow it. And where bytes decode, encoding what
//! they decode to gives those bytes again. The first fails for the optional
//! value `Some(0)`, whose one byte is the byte of `None`. The second fails
//! where the wire has more than one spelling: a boolean byte above one, and a
//! length with idle groups at its end.

use vstd::prelude::*;
use vstd::utf8::{
    decode_utf8_encode_utf8,
    encode_utf8,
    encode_utf8_decode_utf8,
    encode_utf8_valid_utf8,
};

use crate::codec::base128::is_shortest;
use crate::codec::bytes::{
    be_bytes,
    lemma_be_bytes_len,
    lemma_be_bytes_of_value,
    lemma_be_value_bound,
    lemma_be_value_of_bytes,
    lemma_pow256_values,
    pow256,
};
use crate::codec::dec::{parse_be, parse_count, parse_items, parse_text, Decode, DecodeFault};
use crate::codec::enc::{text_wire, wire_items, Encode, EncodeFault};
use crate::codec::{
    lemma_var_int_round_trip, lemma_var_int_shortest, parse_var_int, var_int_bytes, PrefixedOption,
    Uuid,
};

verus! {

/// A big-endian integer of `width` bytes reads back from its bytes.
pub proof fn lemma_be_round_trip(value: nat, width: nat, rest: Seq<u8>)
    requires
        value < pow256(width),
    ensures
        parse_be(be_bytes(value, width) + rest, width) == Ok::<(nat, nat), DecodeFault>(
            (value, width),
        ),
{
    let bytes = be_bytes(value, width);
    lemma_be_bytes_len(value, width);
    lemma_be_value_of_bytes(value, width);
    assert((bytes + rest).take(width as int) == bytes);
}

/// The bytes that a big-endian integer was read from are its bytes.
pub proof fn lemma_be_bytes(bytes: Seq<u8>, width: nat)
    requires
        parse_be(bytes, width) is Ok,
    ensures
        be_bytes(parse_be(bytes, width)->Ok_0.0, width) == bytes.take(width as int),
        parse_be(bytes, width)->Ok_0.0 < pow256(width),
{
    lemma_be_bytes_of_value(bytes.take(width as int));
    lemma_be_value_bound(bytes.take(width as int));
}

pub proof fn lemma_u8_round_trip(value: u8, rest: Seq<u8>)
    ensures
        value.wire() is Ok,
        u8::parse(value.wire()->Ok_0 + rest) == Ok::<(u8, nat), DecodeFault>((value, 1)),
{
}

pub proof fn lemma_u8_bytes(bytes: Seq<u8>)
    requires
        u8::parse(bytes) is Ok,
    ensures
        u8::parse(bytes)->Ok_0.0.wire() == Ok::<Seq<u8>, EncodeFault>(
            bytes.take(u8::parse(bytes)->Ok_0.1 as int),
        ),
{
    assert(seq![bytes[0]] == bytes.take(1));
}

pub proof fn lemma_bool_round_trip(value: bool, rest: Seq<u8>)
    ensures
        value.wire() is Ok,
        bool::parse(value.wire()->Ok_0 + rest) == Ok::<(bool, nat), DecodeFault>((value, 1)),
{
}

/// A boolean byte of zero or one is the byte that its value is written as.
/// Any other byte reads as `true`, which is written as one.
pub proof fn lemma_bool_bytes(bytes: Seq<u8>)
    requires
        bool::parse(bytes) is Ok,
        bytes[0] <= 1,
    ensures
        bool::parse(bytes)->Ok_0.0.wire() == Ok::<Seq<u8>, EncodeFault>(
            bytes.take(bool::parse(bytes)->Ok_0.1 as int),
        ),
{
    let value = bool::parse(bytes)->Ok_0.0;
    assert(value.wire()->Ok_0 == bytes.take(1));
}

pub proof fn lemma_u16_round_trip(value: u16, rest: Seq<u8>)
    ensures
        value.wire() is Ok,
        value.wire()->Ok_0.len() == 2,
        u16::parse(value.wire()->Ok_0 + rest) == Ok::<(u16, nat), DecodeFault>((value, 2)),
{
    lemma_pow256_values();
    lemma_be_bytes_len(value as nat, 2);
    lemma_be_round_trip(value as nat, 2, rest);
}

pub proof fn lemma_u16_bytes(bytes: Seq<u8>)
    requires
        u16::parse(bytes) is Ok,
    ensures
        u16::parse(bytes)->Ok_0.0.wire() == Ok::<Seq<u8>, EncodeFault>(
            bytes.take(u16::parse(bytes)->Ok_0.1 as int),
        ),
{
    lemma_pow256_values();
    lemma_be_bytes(bytes, 2);
}

pub proof fn lemma_u32_round_trip(value: u32, rest: Seq<u8>)
    ensures
        value.wire() is Ok,
        value.wire()->Ok_0.len() == 4,
        u32::parse(value.wire()->Ok_0 + rest) == Ok::<(u32, nat), DecodeFault>((value, 4)),
{
    lemma_pow256_values();
    lemma_be_bytes_len(value as nat, 4);
    lemma_be_round_trip(value as nat, 4, rest);
}

pub proof fn lemma_u32_bytes(bytes: Seq<u8>)
    requires
        u32::parse(bytes) is Ok,
    ensures
        u32::parse(bytes)->Ok_0.0.wire() == Ok::<Seq<u8>, EncodeFault>(
            bytes.take(u32::parse(bytes)->Ok_0.1 as int),
        ),
{
    lemma_pow256_values();
    lemma_be_bytes(bytes, 4);
}

pub proof fn lemma_u64_round_trip(value: u64, rest: Seq<u8>)
    ensures
        value.wire() is Ok,
        value.wire()->Ok_0.len() == 8,
        u64::parse(value.wire()->Ok_0 + rest) == Ok::<(u64, nat), DecodeFault>((value, 8)),
{
    lemma_pow256_values();
    lemma_be_bytes_len(value as nat, 8);
    lemma_be_round_trip(value as nat, 8, rest);
}

pub proof fn lemma_u64_bytes(bytes: Seq<u8>)
    requires
        u64::parse(bytes) is Ok,
    ensures
        u64::parse(bytes)->Ok_0.0.wire() == Ok::<Seq<u8>, EncodeFault>(
            bytes.take(u64::parse(bytes)->Ok_0.1 as int),
        ),
{
    lemma_pow256_values();
    lemma_be_bytes(bytes, 8);
}

pub proof fn lemma_uuid_round_trip(value: Uuid, rest: Seq<u8>)
    ensures
        value.wire() is Ok,
        value.wire()->Ok_0.len() == 16,
        Uuid::parse(value.wire()->Ok_0 + rest) == Ok::<(u128, nat), DecodeFault>((value@, 16)),
{
    lemma_pow256_values();
    lemma_be_bytes_len(value.0 as nat, 16);
    lemma_be_round_trip(value.0 as nat, 16, rest);
}

pub proof fn lemma_uuid_bytes(bytes: Seq<u8>)
    requires
        Uuid::parse(bytes) is Ok,
    ensures
        Uuid(Uuid::parse(bytes)->Ok_0.0).wire() == Ok::<Seq<u8>, EncodeFault>(
            bytes.take(Uuid::parse(bytes)->Ok_0.1 as int),
        ),
{
    lemma_pow256_values();
    lemma_be_bytes(bytes, 16);
}

/// A count that a VarInt can carry reads back from the front of whatever
/// follows it.
pub proof fn lemma_count_round_trip(count: nat, what: Seq<char>, rest: Seq<u8>)
    requires
        count <= i32::MAX,
    ensures
        parse_count(var_int_bytes(count as int) + rest, what) == Ok::<(nat, nat), DecodeFault>(
            (count, var_int_bytes(count as int).len()),
        ),
        (var_int_bytes(count as int) + rest).skip(var_int_bytes(count as int).len() as int)
            == rest,
{
    lemma_var_int_round_trip(count as int, rest);
}

/// A count that was written in its shortest form is the VarInt of its value.
pub proof fn lemma_count_bytes(bytes: Seq<u8>, what: Seq<char>)
    requires
        parse_count(bytes, what) is Ok,
        is_shortest(parse_var_int(bytes)->Ok_0.0),
    ensures
        var_int_bytes(parse_count(bytes, what)->Ok_0.0 as int) == bytes.take(
            parse_count(bytes, what)->Ok_0.1 as int,
        ),
        parse_count(bytes, what)->Ok_0.0 <= i32::MAX,
        parse_count(bytes, what)->Ok_0.1 <= bytes.len(),
{
    crate::codec::base128::lemma_scan_is_var(bytes, 0, 5, 16);
    lemma_var_int_shortest(parse_var_int(bytes)->Ok_0.0);
}

/// A text that is read takes no more bytes than there are.
pub proof fn lemma_count_taken(bytes: Seq<u8>, what: Seq<char>)
    ensures
        parse_count(bytes, what) matches Ok((_, taken)) ==> taken <= bytes.len(),
        parse_text(bytes, what) matches Ok((_, taken)) ==> taken <= bytes.len(),
{
    if parse_var_int(bytes) is Ok {
        crate::codec::base128::lemma_scan_is_var(bytes, 0, 5, 16);
    }
}

/// A text that has an encoding reads back from it.
pub proof fn lemma_text_round_trip(chars: Seq<char>, what: Seq<char>, rest: Seq<u8>)
    requires
        text_wire(chars) is Ok,
    ensures
        parse_text(text_wire(chars)->Ok_0 + rest, what) == Ok::<(Seq<char>, nat), DecodeFault>(
            (chars, text_wire(chars)->Ok_0.len()),
        ),
{
    let text = encode_utf8(chars);
    let prefix = var_int_bytes(text.len() as int);
    let all = prefix + text + rest;
    assert(all == prefix + (text + rest));
    lemma_count_round_trip(text.len(), what, text + rest);
    assert(all.subrange(prefix.len() as int, (prefix.len() + text.len()) as int) == text);
    encode_utf8_valid_utf8(chars);
    encode_utf8_decode_utf8(chars);
}

/// A string that has an encoding reads back from it.
pub proof fn lemma_string_round_trip(value: String, rest: Seq<u8>)
    requires
        value.wire() is Ok,
    ensures
        String::parse(value.wire()->Ok_0 + rest) == Ok::<(Seq<char>, nat), DecodeFault>(
            (value@, value.wire()->Ok_0.len()),
        ),
{
    lemma_text_round_trip(value@, "Failed to decode string length"@, rest);
}

/// The bytes that a string was read from are its encoding, where its length
/// was written in its shortest form.
pub proof fn lemma_string_bytes(bytes: Seq<u8>, value: String)
    requires
        String::parse(bytes) is Ok,
        value@ == String::parse(bytes)->Ok_0.0,
        is_shortest(parse_var_int(bytes)->Ok_0.0),
    ensures
        value.wire() == Ok::<Seq<u8>, EncodeFault>(
            bytes.take(String::parse(bytes)->Ok_0.1 as int),
        ),
{
    let what = "Failed to decode string length"@;
    let (len, taken) = parse_count(bytes, what)->Ok_0;
    let text = bytes.subrange(taken as int, (taken + len) as int);
    lemma_count_bytes(bytes, what);
    decode_utf8_encode_utf8(text);
    assert(bytes.take((taken + len) as int) == bytes.take(taken as int) + text);
}

/// The encodings of bytes one after the other are the bytes.
pub proof fn lemma_wire_bytes(items: Seq<u8>)
    ensures
        wire_items(items) == Ok::<Seq<u8>, EncodeFault>(items),
    decreases items.len(),
{
    if items.len() > 0 {
        lemma_wire_bytes(items.drop_first());
        assert(items[0].wire() == Ok::<Seq<u8>, EncodeFault>(seq![items[0]]));
        assert(seq![items[0]] + items.drop_first() == items);
    } else {
        assert(items == Seq::<u8>::empty());
    }
}

/// `count` bytes read one by one are the first `count` bytes.
pub proof fn lemma_parse_bytes(bytes: Seq<u8>, count: nat)
    requires
        count <= bytes.len(),
    ensures
        parse_items::<u8>(bytes, count) == Ok::<(Seq<u8>, nat), DecodeFault>(
            (bytes.take(count as int), count),
        ),
    decreases count,
{
    if count > 0 {
        lemma_parse_bytes(bytes.skip(1), (count - 1) as nat);
        assert(seq![bytes[0]] + bytes.skip(1).take(count - 1) == bytes.take(count as int));
    } else {
        assert(bytes.take(0) == Seq::<u8>::empty());
    }
}

/// Bytes read one by one come to an end only where the input does.
pub proof fn lemma_parse_bytes_short(bytes: Seq<u8>, count: nat)
    requires
        count > bytes.len(),
    ensures
        parse_items::<u8>(bytes, count) is Err,
    decreases count,
{
    if bytes.len() > 0 {
        lemma_parse_bytes_short(bytes.skip(1), (count - 1) as nat);
    }
}

/// A vector of bytes that has an encoding reads back from it.
pub proof fn lemma_byte_vec_round_trip(value: Vec<u8>, rest: Seq<u8>)
    requires
        value.wire() is Ok,
    ensures
        Vec::<u8>::parse(value.wire()->Ok_0 + rest) == Ok::<(Seq<u8>, nat), DecodeFault>(
            (value.model(), value.wire()->Ok_0.len()),
        ),
{
    let items = value@;
    let prefix = var_int_bytes(items.len() as int);
    let all = prefix + items + rest;
    lemma_wire_bytes(items);
    assert(all == prefix + (items + rest));
    lemma_count_round_trip(items.len(), "Failed to decode vec length"@, items + rest);
    lemma_parse_bytes(items + rest, items.len());
    assert((items + rest).take(items.len() as int) == items);
    assert(value.model() == items);
}

/// The bytes that a vector of bytes was read from are its encoding, where
/// its length was written in its shortest form.
pub proof fn lemma_byte_vec_bytes(bytes: Seq<u8>, value: Vec<u8>)
    requires
        Vec::<u8>::parse(bytes) is Ok,
        value.model() == Vec::<u8>::parse(bytes)->Ok_0.0,
        is_shortest(parse_var_int(bytes)->Ok_0.0),
    ensures
        value.wire() == Ok::<Seq<u8>, EncodeFault>(
            bytes.take(Vec::<u8>::parse(bytes)->Ok_0.1 as int),
        ),
{
    let what = "Failed to decode vec length"@;
    let (len, taken) = parse_count(bytes, what)->Ok_0;
    let rest = bytes.skip(taken as int);
    lemma_count_bytes(bytes, what);
    if len > rest.len() {
        lemma_parse_bytes_short(rest, len);
    }
    lemma_parse_bytes(rest, len);
    assert(value@ == value.model());
    lemma_wire_bytes(value@);
    assert(bytes.take((taken + len) as int) == bytes.take(taken as int) + rest.take(len as int));
}

/// An optional byte reads back from its encoding, unless it is `Some(0)`:
/// that is written as the one byte that stands for `None`.
pub proof fn lemma_option_round_trip(value: Option<u8>, rest: Seq<u8>)
    requires
        value != Some(0u8),
    ensures
        value.wire() is Ok,
        Option::<u8>::parse(value.wire()->Ok_0 + rest) == Ok::<(Option<u8>, nat), DecodeFault>(
            (value, 1),
        ),
{
}

pub proof fn lemma_option_bytes(bytes: Seq<u8>)
    requires
        Option::<u8>::parse(bytes) is Ok,
    ensures
        Option::<u8>::parse(bytes)->Ok_0.0.wire() == Ok::<Seq<u8>, EncodeFault>(
            bytes.take(Option::<u8>::parse(bytes)->Ok_0.1 as int),
        ),
{
    assert(seq![bytes[0]] == bytes.take(1));
}

/// The optional byte with this content.
pub open spec fn prefixed(value: Option<u8>) -> PrefixedOption<u8> {
    match value {
        Some(byte) => PrefixedOption::Present(byte),
        None => PrefixedOption::Absent,
    }
}

pub proof fn lemma_prefixed_option_round_trip(value: PrefixedOption<u8>, rest: Seq<u8>)
    ensures
        value.wire() is Ok,
        PrefixedOption::<u8>::parse(value.wire()->Ok_0 + rest) == Ok::<
            (Option<u8>, nat),
            DecodeFault,
        >((value.model(), value.wire()->Ok_0.len())),
{
    match value {
        PrefixedOption::Present(byte) => {
            assert((seq![1u8] + seq![byte] + rest).skip(1) == seq![byte] + rest);
            assert(seq![1u8] + seq![byte] + rest == (seq![1u8] + seq![byte]) + rest);
        },
        PrefixedOption::Absent => {},
    }
}

/// The bytes that a prefixed optional byte was read from are its encoding,
/// where the boolean was written as zero or one.
pub proof fn lemma_prefixed_option_bytes(bytes: Seq<u8>)
    requires
        PrefixedOption::<u8>::parse(bytes) is Ok,
        bytes[0] <= 1,
    ensures
        prefixed(PrefixedOption::<u8>::parse(bytes)->Ok_0.0).wire() == Ok::<Seq<u8>, EncodeFault>(
            bytes.take(PrefixedOption::<u8>::parse(bytes)->Ok_0.1 as int),
        ),
{
    if bytes[0] == 1 {
        assert(seq![1u8] + seq![bytes[1]] == bytes.take(2));
    } else {
        assert(seq![0u8] == bytes.take(1));
    }
}

} // verus!
