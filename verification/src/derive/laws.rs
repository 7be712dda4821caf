//! A codec made from a declaration reads back what it writes.

use vstd::prelude::*;

use crate::codec::dec::{after_items, noted, Decode, DecodeFault};
use crate::codec::enc::Encode;
use crate::codec::laws::{
    lemma_bool_round_trip, lemma_text_round_trip, lemma_u16_round_trip, lemma_u32_round_trip,
    lemma_u64_round_trip, lemma_u8_round_trip, lemma_uuid_round_trip,
};
use crate::codec::{
    lemma_var_int_round_trip, lemma_var_long_round_trip, parse_var_int, unsigned32, var_int_value,
    Uuid,
};
use crate::data::model::{Handshake, HandshakeView, Intent};
use crate::derive::dec::{
    decode_note, parse_choice, parse_field, parse_record, parse_scalar,
};
use crate::derive::enc::{choice_wire, field_wire, fields_wire, record_wire, scalar_wire};
use crate::derive::{
    lemma_number_at, number_at, Choice, EnumKind, Field, FieldKind, FieldType, ScalarView,
    ValueView,
};

verus! {

/// Whether a variant can be told by its number: no variant before it has
/// the same.
pub open spec fn told_apart(choice: Choice, place: nat) -> bool {
    number_at(choice.discriminants@, choice.discriminants@[place as int] as int, place as int)
}

/// Whether every variant in a value of the declared type `ty` can be told by
/// its number.
pub open spec fn scalar_told_apart(ty: FieldType, value: ScalarView) -> bool {
    match (ty, value) {
        (FieldType::Enum(choice), ScalarView::Variant(place)) => told_apart(choice, place),
        _ => true,
    }
}

/// Whether every variant in the value of a field can be told by its number.
pub open spec fn value_told_apart(field: Field, value: ValueView) -> bool {
    match value {
        ValueView::Plain(scalar) => scalar_told_apart(field.ty, scalar),
        ValueView::Optional(Some(scalar)) => scalar_told_apart(field.ty, scalar),
        _ => true,
    }
}

/// A variant that can be told by its number reads back from its encoding.
pub proof fn lemma_choice_round_trip(choice: Choice, place: nat, rest: Seq<u8>)
    requires
        choice_wire(choice, place) is Ok,
        told_apart(choice, place),
    ensures
        parse_choice(choice, choice_wire(choice, place)->Ok_0 + rest) == Ok::<
            (nat, nat),
            DecodeFault,
        >((place, choice_wire(choice, place)->Ok_0.len())),
{
    let number = choice.discriminants@[place as int];
    lemma_number_at(choice.discriminants@, number as int, place as int);
    match choice.kind {
        EnumKind::VarInt => lemma_var_int_round_trip(number as int, rest),
        EnumKind::VarLong => lemma_var_long_round_trip(number as int, rest),
    }
}

/// A value of a declared type reads back from its encoding.
pub proof fn lemma_scalar_round_trip(ty: FieldType, value: ScalarView, rest: Seq<u8>)
    requires
        scalar_wire(ty, value) is Ok,
        scalar_told_apart(ty, value),
    ensures
        parse_scalar(ty, scalar_wire(ty, value)->Ok_0 + rest) == Ok::<
            (ScalarView, nat),
            DecodeFault,
        >((value, scalar_wire(ty, value)->Ok_0.len())),
{
    match (ty, value) {
        (FieldType::Bool, ScalarView::Bool(v)) => lemma_bool_round_trip(v, rest),
        (FieldType::U8, ScalarView::U8(v)) => lemma_u8_round_trip(v, rest),
        (FieldType::U16, ScalarView::U16(v)) => lemma_u16_round_trip(v, rest),
        (FieldType::U32, ScalarView::U32(v)) => lemma_u32_round_trip(v, rest),
        (FieldType::U64, ScalarView::U64(v)) => lemma_u64_round_trip(v, rest),
        (FieldType::String, ScalarView::String(v)) => lemma_text_round_trip(
            v,
            "Failed to decode string length"@,
            rest,
        ),
        (FieldType::Uuid, ScalarView::Uuid(v)) => lemma_uuid_round_trip(Uuid(v), rest),
        (FieldType::Enum(choice), ScalarView::Variant(v)) => lemma_choice_round_trip(
            choice,
            v,
            rest,
        ),
        _ => {},
    }
}

/// The value of a field reads back from its encoding.
pub proof fn lemma_field_round_trip(field: Field, value: ValueView, rest: Seq<u8>)
    requires
        field_wire(field, value) is Ok,
        value_told_apart(field, value),
    ensures
        parse_field(field, field_wire(field, value)->Ok_0 + rest) == Ok::<
            (ValueView, nat),
            DecodeFault,
        >((value, field_wire(field, value)->Ok_0.len())),
{
    reveal(parse_field);
    reveal(field_wire);
    match (field.kind, value) {
        (FieldKind::Normal, ValueView::Plain(scalar)) => lemma_scalar_round_trip(
            field.ty,
            scalar,
            rest,
        ),
        (FieldKind::VarInt, ValueView::Int(number)) => lemma_var_int_round_trip(
            number as int,
            rest,
        ),
        (FieldKind::VarLong, ValueView::Long(number)) => lemma_var_long_round_trip(
            number as int,
            rest,
        ),
        (FieldKind::PrefixedOption, ValueView::Optional(Some(scalar))) => {
            let bytes = scalar_wire(field.ty, scalar)->Ok_0;
            lemma_scalar_round_trip(field.ty, scalar, rest);
            assert(seq![1u8] + bytes + rest == seq![1u8] + (bytes + rest));
            assert((seq![1u8] + (bytes + rest)).skip(1) == bytes + rest);
        },
        (FieldKind::PrefixedOption, ValueView::Optional(None)) => {},
        _ => {},
    }
}

/// The values of a record read back from the record's encoding: a codec
/// takes the fields in one order and by one tag each, whichever way it
/// runs.
pub proof fn lemma_record_round_trip(fields: Seq<Field>, list: Seq<ValueView>, rest: Seq<u8>)
    requires
        record_wire(fields, list) is Ok,
        forall|i: int| 0 <= i < fields.len() ==> value_told_apart(fields[i], #[trigger] list[i]),
    ensures
        parse_record(fields, record_wire(fields, list)->Ok_0 + rest) == Ok::<
            (Seq<ValueView>, nat),
            DecodeFault,
        >((list, record_wire(fields, list)->Ok_0.len())),
    decreases fields.len(),
{
    if fields.len() == 0 {
        assert(list == Seq::<ValueView>::empty());
    } else {
        let first = field_wire(fields[0], list[0])->Ok_0;
        let more = fields_wire(fields.drop_first(), list.drop_first())->Ok_0;
        assert(value_told_apart(fields[0], list[0]));
        lemma_field_round_trip(fields[0], list[0], more + rest);
        assert(first + more + rest == first + (more + rest));
        assert((first + (more + rest)).skip(first.len() as int) == more + rest);
        assert forall|i: int| 0 <= i < fields.drop_first().len() implies value_told_apart(
            fields.drop_first()[i],
            #[trigger] list.drop_first()[i],
        ) by {
            assert(value_told_apart(fields[i + 1], list[i + 1]));
        }
        lemma_record_round_trip(fields.drop_first(), list.drop_first(), rest);
        assert(seq![list[0]] + list.drop_first() == list);
    }
}

/// Whether `fields` is the codec that the declaration of the handshake
/// gives: the protocol version as a VarInt, the address, the port, and the
/// intent as an enumeration of the numbers 1, 2 and 3.
pub open spec fn is_handshake_codec(fields: Seq<Field>) -> bool {
    &&& fields.len() == 4
    &&& fields[0].name@ == "protocol_version"@
    &&& fields[0].kind == FieldKind::VarInt
    &&& fields[1].name@ == "server_address"@
    &&& fields[1].kind == FieldKind::Normal
    &&& fields[1].ty is String
    &&& fields[2].name@ == "server_port"@
    &&& fields[2].kind == FieldKind::Normal
    &&& fields[2].ty is U16
    &&& fields[3].name@ == "intent"@
    &&& fields[3].kind == FieldKind::Normal
    &&& fields[3].ty matches FieldType::Enum(choice)
    &&& choice.name@ == "Intent"@
    &&& choice.kind == EnumKind::VarInt
    &&& choice.discriminants@ == seq![1i64, 2i64, 3i64]
}

/// The intent that stands at `place` in its declaration.
pub open spec fn intent_at(place: nat) -> Intent {
    if place == 0 {
        Intent::Status
    } else if place == 1 {
        Intent::Login
    } else {
        Intent::Transfer
    }
}

/// The handshake with these values of its fields.
pub open spec fn handshake_of(list: Seq<ValueView>) -> HandshakeView {
    HandshakeView {
        protocol_version: unsigned32(list[0]->Int_0 as int) as u32,
        server_address: list[1]->Plain_0->String_0,
        server_port: list[2]->Plain_0->U16_0,
        intent: intent_at(list[3]->Plain_0->Variant_0),
    }
}

/// The notes of the handshake's codec are the notes that its decoder
/// writes.
proof fn lemma_handshake_notes()
    ensures
        decode_note("protocol_version"@) == "Failed to decode protocol_version"@,
        decode_note("server_address"@) == "Failed to decode server_address"@,
        decode_note("server_port"@) == "Failed to decode server_port"@,
        decode_note("intent"@) == "Failed to decode intent"@,
        decode_note("Intent"@) == "Failed to decode Intent"@,
{
    reveal_strlit("Failed to decode ");
    reveal_strlit("protocol_version");
    reveal_strlit("server_address");
    reveal_strlit("server_port");
    reveal_strlit("intent");
    reveal_strlit("Intent");
    reveal_strlit("Failed to decode protocol_version");
    reveal_strlit("Failed to decode server_address");
    reveal_strlit("Failed to decode server_port");
    reveal_strlit("Failed to decode intent");
    reveal_strlit("Failed to decode Intent");
    assert(decode_note("protocol_version"@) =~= "Failed to decode protocol_version"@);
    assert(decode_note("server_address"@) =~= "Failed to decode server_address"@);
    assert(decode_note("server_port"@) =~= "Failed to decode server_port"@);
    assert(decode_note("intent"@) =~= "Failed to decode intent"@);
    assert(decode_note("Intent"@) =~= "Failed to decode Intent"@);
}

/// What the handshake's codec reads for the protocol version.
proof fn lemma_handshake_version(field: Field, bytes: Seq<u8>)
    requires
        field.name@ == "protocol_version"@,
        field.kind == FieldKind::VarInt,
    ensures
        parse_field(field, bytes) == match noted(
            parse_var_int(bytes),
            "Failed to decode protocol_version"@,
        ) {
            Ok((number, taken)) => Ok::<(ValueView, nat), DecodeFault>(
                (ValueView::Int(var_int_value(number) as i32), taken),
            ),
            Err(fault) => Err(fault),
        },
{
    lemma_handshake_notes();
    reveal(parse_field);
}

/// What the handshake's codec reads for the address.
proof fn lemma_handshake_address(field: Field, bytes: Seq<u8>)
    requires
        field.name@ == "server_address"@,
        field.kind == FieldKind::Normal,
        field.ty is String,
    ensures
        parse_field(field, bytes) == match noted(
            String::parse(bytes),
            "Failed to decode server_address"@,
        ) {
            Ok((text, taken)) => Ok::<(ValueView, nat), DecodeFault>(
                (ValueView::Plain(ScalarView::String(text)), taken),
            ),
            Err(fault) => Err(fault),
        },
{
    lemma_handshake_notes();
    reveal(parse_field);
}

/// What the handshake's codec reads for the port.
proof fn lemma_handshake_port(field: Field, bytes: Seq<u8>)
    requires
        field.name@ == "server_port"@,
        field.kind == FieldKind::Normal,
        field.ty is U16,
    ensures
        parse_field(field, bytes) == match noted(
            u16::parse(bytes),
            "Failed to decode server_port"@,
        ) {
            Ok((port, taken)) => Ok::<(ValueView, nat), DecodeFault>(
                (ValueView::Plain(ScalarView::U16(port)), taken),
            ),
            Err(fault) => Err(fault),
        },
{
    lemma_handshake_notes();
    reveal(parse_field);
}

/// The place of an intent in its declaration.
pub open spec fn place_of(intent: Intent) -> nat {
    match intent {
        Intent::Status => 0,
        Intent::Login => 1,
        Intent::Transfer => 2,
    }
}

/// What the handshake's codec reads for the intent.
proof fn lemma_handshake_intent(field: Field, bytes: Seq<u8>)
    requires
        field.name@ == "intent"@,
        field.kind == FieldKind::Normal,
        field.ty matches FieldType::Enum(choice) && choice.name@ == "Intent"@ && choice.kind
            == EnumKind::VarInt && choice.discriminants@ == seq![1i64, 2i64, 3i64],
    ensures
        parse_field(field, bytes) == match noted(Intent::parse(bytes), "Failed to decode intent"@) {
            Ok((intent, taken)) => Ok::<(ValueView, nat), DecodeFault>(
                (ValueView::Plain(ScalarView::Variant(place_of(intent))), taken),
            ),
            Err(fault) => Err(fault),
        },
{
    lemma_handshake_notes();
    reveal(parse_field);
    let choice = field.ty->Enum_0;
    if parse_var_int(bytes) is Ok {
        let raw = var_int_value(parse_var_int(bytes)->Ok_0.0);
        let numbers = choice.discriminants@;
        if raw == 1 {
            lemma_number_at(numbers, raw, 0);
        } else if raw == 2 {
            lemma_number_at(numbers, raw, 1);
        } else if raw == 3 {
            lemma_number_at(numbers, raw, 2);
        } else {
            assert forall|at: int| !number_at(numbers, raw, at) by {}
        }
    }
}

/// The decoder that is written out for the handshake and the codec that its
/// declaration gives read the same: the same handshake from the same bytes,
/// and the same fault where there is none.
pub proof fn lemma_handshake_codec(fields: Seq<Field>, bytes: Seq<u8>)
    requires
        is_handshake_codec(fields),
    ensures
        match parse_record(fields, bytes) {
            Ok((list, taken)) => Handshake::parse(bytes) == Ok::<(HandshakeView, nat), DecodeFault>(
                (handshake_of(list), taken),
            ),
            Err(fault) => Handshake::parse(bytes) == Err::<(HandshakeView, nat), DecodeFault>(
                fault,
            ),
        },
{
    // field by field, each from where the one before it ended
    let f1 = fields.drop_first();
    let f2 = f1.drop_first();
    let f3 = f2.drop_first();
    let f4 = f3.drop_first();
    assert(f1[0] == fields[1] && f2[0] == fields[2] && f3[0] == fields[3]);
    lemma_handshake_version(fields[0], bytes);
    let p0 = parse_field(fields[0], bytes);
    if p0 is Ok {
        let n1 = p0->Ok_0.1;
        let b1 = bytes.skip(n1 as int);
        crate::codec::base128::lemma_scan_is_var(bytes, 0, 5, 16);
        crate::codec::base128::lemma_pow128_values();
        crate::codec::base128::lemma_payload_bound(parse_var_int(bytes)->Ok_0.0, 5, 16);
        lemma_handshake_address(fields[1], b1);
        let p1 = parse_field(fields[1], b1);
        assert(parse_record(f1, b1) == match p1 {
            Ok((value, taken)) => after_items(
                seq![value],
                taken,
                parse_record(f2, b1.skip(taken as int)),
            ),
            Err(fault) => Err(fault),
        });
        if p1 is Ok {
            let n2 = p1->Ok_0.1;
            let b2 = b1.skip(n2 as int);
            crate::codec::laws::lemma_count_taken(b1, "Failed to decode string length"@);
            assert(b2 == bytes.skip((n1 + n2) as int));
            lemma_handshake_port(fields[2], b2);
            let p2 = parse_field(fields[2], b2);
            assert(parse_record(f2, b2) == match p2 {
                Ok((value, taken)) => after_items(
                    seq![value],
                    taken,
                    parse_record(f3, b2.skip(taken as int)),
                ),
                Err(fault) => Err(fault),
            });
            if p2 is Ok {
                let n3 = p2->Ok_0.1;
                let b3 = b2.skip(n3 as int);
                assert(b3 == bytes.skip((n1 + n2 + n3) as int));
                lemma_handshake_intent(fields[3], b3);
                let p3 = parse_field(fields[3], b3);
                assert(parse_record(f3, b3) == match p3 {
                    Ok((value, taken)) => after_items(
                        seq![value],
                        taken,
                        parse_record(f4, b3.skip(taken as int)),
                    ),
                    Err(fault) => Err(fault),
                });
            }
        }
    }
}

} // verus!
