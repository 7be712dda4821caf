use vstd::prelude::*;
use vstd::string::StringExecFns;

use crate::codec::dec::{
    after_items, noted, Decode, DecodeError, DecodeErrorContext, DecodeFault,
};
use crate::codec::text::{discriminant_message, discriminant_text};
use crate::codec::{
    parse_var_int, parse_var_long, var_int_value, var_long_value, Uuid, VarInt, VarLong,
};
use crate::derive::{
    find_variant, values, variant_of, Choice, Codec, EnumKind, Field, FieldKind, FieldType, Item,
    Scalar, ScalarView, Value, ValueView,
};

verus! {

/// The note that goes with a failure to decode the thing named `name`.
pub open spec fn decode_note(name: Seq<char>) -> Seq<char> {
    "Failed to decode "@ + name
}

/// The note that goes with a failure to decode the thing named `name`.
fn note(name: &String) -> (r: String)
    ensures
        r@ == decode_note(name@),
{
    String::from_str("Failed to decode ").concat(name.as_str())
}

/// The variant at the front of a byte string: its place among the variants
/// and the number of bytes it occupies. The number on the wire is read as
/// the enumeration's kind says, and a number that belongs to no variant is
/// rejected with a message that names the enumeration and the number.
pub open spec fn parse_choice(choice: Choice, bytes: Seq<u8>) -> Result<(nat, nat), DecodeFault> {
    let read = match choice.kind {
        EnumKind::VarInt => match parse_var_int(bytes) {
            Ok((number, taken)) => Ok((var_int_value(number), taken)),
            Err(fault) => Err(fault),
        },
        EnumKind::VarLong => match parse_var_long(bytes) {
            Ok((number, taken)) => Ok((var_long_value(number), taken)),
            Err(fault) => Err(fault),
        },
    };
    match noted(read, decode_note(choice.name@)) {
        Ok((raw, taken)) => match variant_of(choice.discriminants@, raw) {
            Some(place) => Ok((place, taken)),
            None => Err(DecodeFault::Custom { message: discriminant_text(choice.name@, raw) }),
        },
        Err(fault) => Err(fault),
    }
}

/// Decodes a variant of an enumeration.
pub fn decode_choice(choice: &Choice, reader: &mut &[u8]) -> (r: Result<usize, DecodeError>)
    ensures
        match parse_choice(*choice, old(reader)@) {
            Ok((place, taken)) => {
                &&& r matches Ok(found)
                &&& found == place
                &&& place < choice.discriminants@.len()
                &&& taken <= old(reader)@.len()
                &&& final(reader)@ == old(reader)@.skip(taken as int)
            },
            Err(fault) => r matches Err(e) && e@ == fault && final(reader)@ == old(reader)@,
        },
{
    let start: &[u8] = *reader;
    let what = note(&choice.name);
    let raw: i64 = match choice.kind {
        EnumKind::VarInt => VarInt::decode(reader).err_context(what.as_str())?.value() as i64,
        EnumKind::VarLong => VarLong::decode(reader).err_context(what.as_str())?.value(),
    };
    match find_variant(&choice.discriminants, raw) {
        Some(place) => Ok(place),
        None => {
            *reader = start;
            Err(DecodeError::Custom { message: discriminant_message(choice.name.as_str(), raw) })
        },
    }
}

/// The value of the declared type `ty` at the front of a byte string.
pub open spec fn parse_scalar(ty: FieldType, bytes: Seq<u8>) -> Result<
    (ScalarView, nat),
    DecodeFault,
> {
    match ty {
        FieldType::Bool => match bool::parse(bytes) {
            Ok((value, taken)) => Ok((ScalarView::Bool(value), taken)),
            Err(fault) => Err(fault),
        },
        FieldType::U8 => match u8::parse(bytes) {
            Ok((value, taken)) => Ok((ScalarView::U8(value), taken)),
            Err(fault) => Err(fault),
        },
        FieldType::U16 => match u16::parse(bytes) {
            Ok((value, taken)) => Ok((ScalarView::U16(value), taken)),
            Err(fault) => Err(fault),
        },
        FieldType::U32 => match u32::parse(bytes) {
            Ok((value, taken)) => Ok((ScalarView::U32(value), taken)),
            Err(fault) => Err(fault),
        },
        FieldType::U64 => match u64::parse(bytes) {
            Ok((value, taken)) => Ok((ScalarView::U64(value), taken)),
            Err(fault) => Err(fault),
        },
        FieldType::String => match String::parse(bytes) {
            Ok((value, taken)) => Ok((ScalarView::String(value), taken)),
            Err(fault) => Err(fault),
        },
        FieldType::Uuid => match Uuid::parse(bytes) {
            Ok((value, taken)) => Ok((ScalarView::Uuid(value), taken)),
            Err(fault) => Err(fault),
        },
        FieldType::Enum(choice) => match parse_choice(choice, bytes) {
            Ok((value, taken)) => Ok((ScalarView::Variant(value), taken)),
            Err(fault) => Err(fault),
        },
    }
}

/// Decodes a value of a declared type.
pub fn decode_scalar(ty: &FieldType, reader: &mut &[u8]) -> (r: Result<Scalar, DecodeError>)
    ensures
        match parse_scalar(*ty, old(reader)@) {
            Ok((value, taken)) => {
                &&& r matches Ok(found)
                &&& found@ == value
                &&& taken <= old(reader)@.len()
                &&& final(reader)@ == old(reader)@.skip(taken as int)
            },
            Err(fault) => r matches Err(e) && e@ == fault && final(reader)@ == old(reader)@,
        },
{
    match ty {
        FieldType::Bool => Ok(Scalar::Bool(bool::decode(reader)?)),
        FieldType::U8 => Ok(Scalar::U8(u8::decode(reader)?)),
        FieldType::U16 => Ok(Scalar::U16(u16::decode(reader)?)),
        FieldType::U32 => Ok(Scalar::U32(u32::decode(reader)?)),
        FieldType::U64 => Ok(Scalar::U64(u64::decode(reader)?)),
        FieldType::String => Ok(Scalar::String(String::decode(reader)?)),
        FieldType::Uuid => Ok(Scalar::Uuid(Uuid::decode(reader)?)),
        FieldType::Enum(choice) => Ok(Scalar::Variant(decode_choice(choice, reader)?)),
    }
}

/// The optional value of the declared type `ty` at the front of a byte
/// string: a boolean, and the value after it where the boolean is true.
pub open spec fn parse_optional(ty: FieldType, bytes: Seq<u8>) -> Result<
    (Option<ScalarView>, nat),
    DecodeFault,
> {
    match noted(bool::parse(bytes), "Failed to decode prefixed option's boolean"@) {
        Ok((is_some, taken)) => if is_some {
            match noted(
                parse_scalar(ty, bytes.skip(taken as int)),
                "Failed to decode prefixed option's value"@,
            ) {
                Ok((value, more)) => Ok((Some(value), taken + more)),
                Err(fault) => Err(fault),
            }
        } else {
            Ok((None, taken))
        },
        Err(fault) => Err(fault),
    }
}

/// The value of a field at the front of a byte string, read as the field's
/// tag says. A failure carries a note that names the field.
#[verifier::opaque]
pub open spec fn parse_field(field: Field, bytes: Seq<u8>) -> Result<
    (ValueView, nat),
    DecodeFault,
> {
    let read = match field.kind {
        FieldKind::Normal => match parse_scalar(field.ty, bytes) {
            Ok((value, taken)) => Ok((ValueView::Plain(value), taken)),
            Err(fault) => Err(fault),
        },
        FieldKind::VarInt => match parse_var_int(bytes) {
            Ok((number, taken)) => Ok((ValueView::Int(var_int_value(number) as i32), taken)),
            Err(fault) => Err(fault),
        },
        FieldKind::VarLong => match parse_var_long(bytes) {
            Ok((number, taken)) => Ok((ValueView::Long(var_long_value(number) as i64), taken)),
            Err(fault) => Err(fault),
        },
        FieldKind::PrefixedOption => match parse_optional(field.ty, bytes) {
            Ok((value, taken)) => Ok((ValueView::Optional(value), taken)),
            Err(fault) => Err(fault),
        },
    };
    noted(read, decode_note(field.name@))
}

/// Decodes an optional value of a declared type.
fn decode_optional(ty: &FieldType, reader: &mut &[u8]) -> (r: Result<Option<Scalar>, DecodeError>)
    ensures
        match parse_optional(*ty, old(reader)@) {
            Ok((value, taken)) => {
                &&& r matches Ok(found)
                &&& (Value::Optional(found))@ == ValueView::Optional(value)
                &&& taken <= old(reader)@.len()
                &&& final(reader)@ == old(reader)@.skip(taken as int)
            },
            Err(fault) => r matches Err(e) && e@ == fault && final(reader)@ == old(reader)@,
        },
{
    let start: &[u8] = *reader;
    let is_some = bool::decode(reader).err_context("Failed to decode prefixed option's boolean")?;
    if is_some {
        match decode_scalar(ty, reader).err_context("Failed to decode prefixed option's value") {
            Ok(value) => {
                proof {
                    let more = parse_scalar(*ty, start@.skip(1))->Ok_0.1;
                    assert(start@.skip(1).skip(more as int) == start@.skip((1 + more) as int));
                }
                Ok(Some(value))
            },
            Err(err) => {
                *reader = start;
                Err(err)
            },
        }
    } else {
        Ok(None)
    }
}

/// Decodes the value of a field.
pub fn decode_field(field: &Field, reader: &mut &[u8]) -> (r: Result<Value, DecodeError>)
    ensures
        match parse_field(*field, old(reader)@) {
            Ok((value, taken)) => {
                &&& r matches Ok(found)
                &&& found@ == value
                &&& taken <= old(reader)@.len()
                &&& final(reader)@ == old(reader)@.skip(taken as int)
            },
            Err(fault) => r matches Err(e) && e@ == fault && final(reader)@ == old(reader)@,
        },
{
    proof {
        reveal(parse_field);
    }
    let what = note(&field.name);
    match field.kind {
        FieldKind::Normal => {
            let value = decode_scalar(&field.ty, reader).err_context(what.as_str())?;
            Ok(Value::Plain(value))
        },
        FieldKind::VarInt => {
            let value = VarInt::decode(reader).err_context(what.as_str())?.value();
            Ok(Value::Int(value))
        },
        FieldKind::VarLong => {
            let value = VarLong::decode(reader).err_context(what.as_str())?.value();
            Ok(Value::Long(value))
        },
        FieldKind::PrefixedOption => {
            let value = decode_optional(&field.ty, reader).err_context(what.as_str())?;
            Ok(Value::Optional(value))
        },
    }
}

/// The values of a record's fields at the front of a byte string, one after
/// the other in the order of the fields.
pub open spec fn parse_record(fields: Seq<Field>, bytes: Seq<u8>) -> Result<
    (Seq<ValueView>, nat),
    DecodeFault,
>
    decreases fields.len(),
{
    if fields.len() == 0 {
        Ok((Seq::empty(), 0))
    } else {
        match parse_field(fields[0], bytes) {
            Ok((value, taken)) => after_items(
                seq![value],
                taken,
                parse_record(fields.drop_first(), bytes.skip(taken as int)),
            ),
            Err(fault) => Err(fault),
        }
    }
}

/// Decodes the values of a record's fields.
pub fn decode_record(fields: &[Field], reader: &mut &[u8]) -> (r: Result<Vec<Value>, DecodeError>)
    ensures
        match parse_record(fields@, old(reader)@) {
            Ok((found, taken)) => {
                &&& r matches Ok(list)
                &&& values(list@) == found
                &&& taken <= old(reader)@.len()
                &&& final(reader)@ == old(reader)@.skip(taken as int)
            },
            Err(fault) => r matches Err(e) && e@ == fault && final(reader)@ == old(reader)@,
        },
{
    let start: &[u8] = *reader;
    let ghost mut taken: nat = 0;
    let mut list: Vec<Value> = Vec::new();
    let mut i: usize = 0;
    proof {
        assert(fields@.skip(0) == fields@);
        assert(start@.skip(0) == start@);
        let all = parse_record(fields@, start@);
        if all is Ok {
            assert(values(list@) + all->Ok_0.0 == all->Ok_0.0);
        }
    }
    while i < fields.len()
        invariant
            i <= fields@.len(),
            start@ == old(reader)@,
            taken <= start@.len(),
            reader@ == start@.skip(taken as int),
            parse_record(fields@, start@) == after_items(
                values(list@),
                taken,
                parse_record(fields@.skip(i as int), reader@),
            ),
        decreases fields@.len() - i,
    {
        let ghost here = reader@;
        let ghost before = values(list@);
        proof {
            assert(fields@.skip(i as int).drop_first() == fields@.skip(i + 1));
        }
        match decode_field(&fields[i], reader) {
            Ok(value) => {
                list.push(value);
                proof {
                    let used = parse_field(fields@[i as int], here)->Ok_0.1;
                    assert(values(list@) == before + seq![value@]);
                    assert(start@.skip(taken as int).skip(used as int) == start@.skip(
                        (taken + used) as int,
                    ));
                    let rest = parse_record(fields@.skip(i + 1), reader@);
                    if rest is Ok {
                        assert(before + (seq![value@] + rest->Ok_0.0) == values(list@)
                            + rest->Ok_0.0);
                    }
                    taken = taken + used;
                }
            },
            Err(err) => {
                *reader = start;
                return Err(err);
            },
        }
        i += 1;
    }
    proof {
        assert(fields@.skip(i as int) == Seq::<Field>::empty());
        assert(values(list@) + Seq::<ValueView>::empty() == values(list@));
    }
    Ok(list)
}

impl Codec {
    /// Decodes what the codec was made for.
    pub fn decode(&self, reader: &mut &[u8]) -> (r: Result<Item, DecodeError>)
        ensures
            match self {
                Codec::Record(fields) => match parse_record(fields@, old(reader)@) {
                    Ok((found, taken)) => {
                        &&& r matches Ok(Item::Record(list))
                        &&& values(list@) == found
                        &&& taken <= old(reader)@.len()
                        &&& final(reader)@ == old(reader)@.skip(taken as int)
                    },
                    Err(fault) => r matches Err(e) && e@ == fault && final(reader)@ == old(
                        reader,
                    )@,
                },
                Codec::Enum(choice) => match parse_choice(*choice, old(reader)@) {
                    Ok((place, taken)) => {
                        &&& r matches Ok(Item::Variant(found))
                        &&& found == place
                        &&& taken <= old(reader)@.len()
                        &&& final(reader)@ == old(reader)@.skip(taken as int)
                    },
                    Err(fault) => r matches Err(e) && e@ == fault && final(reader)@ == old(
                        reader,
                    )@,
                },
            },
    {
        match self {
            Codec::Record(fields) => match decode_record(fields.as_slice(), reader) {
                Ok(list) => Ok(Item::Record(list)),
                Err(err) => Err(err),
            },
            Codec::Enum(choice) => match decode_choice(choice, reader) {
                Ok(place) => Ok(Item::Variant(place)),
                Err(err) => Err(err),
            },
        }
    }
}

} // verus!
