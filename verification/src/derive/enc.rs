use vstd::prelude::*;
use vstd::string::StringExecFns;

use crate::codec::enc::{
    after_wire, noted_wire, text_wire, Encode, EncodeError, EncodeErrorContext, EncodeFault,
};
use crate::codec::{var_int_bytes, var_long_bytes, Uuid, VarInt, VarLong};
use crate::derive::{
    values, Choice, Codec, EnumKind, Field, FieldKind, FieldType, Item, Scalar, ScalarView, Value,
    ValueView,
};

verus! {

/// The note that goes with a failure to encode the thing named `name`.
pub open spec fn encode_note(name: Seq<char>) -> Seq<char> {
    "Failed to encode "@ + name
}

/// The note that goes with a failure to encode the thing named `name`.
fn note(name: &String) -> (r: String)
    ensures
        r@ == encode_note(name@),
{
    String::from_str("Failed to encode ").concat(name.as_str())
}

/// The fault of a value that is not of the kind its field asks for, and of
/// a list of values that is not as long as the list of fields.
pub open spec fn mismatch_fault() -> EncodeFault {
    EncodeFault::Custom { message: "Value does not fit the field"@ }
}

/// The fault of a variant that the enumeration does not have.
pub open spec fn variant_fault() -> EncodeFault {
    EncodeFault::Custom { message: "No such variant"@ }
}

/// The fault of a variant whose number no VarInt can carry.
pub open spec fn number_fault() -> EncodeFault {
    EncodeFault::Custom { message: "Discriminant does not fit in a VarInt"@ }
}

fn mismatch_error() -> (r: EncodeError)
    ensures
        r@ == mismatch_fault(),
{
    EncodeError::Custom { message: String::from_str("Value does not fit the field") }
}

/// The wire form of the variant that stands at `place`: its number, written
/// as the enumeration's kind says. A failure carries a note that names the
/// enumeration.
pub open spec fn choice_wire(choice: Choice, place: nat) -> Result<Seq<u8>, EncodeFault> {
    let written = if place >= choice.discriminants@.len() {
        Err(variant_fault())
    } else {
        let number = choice.discriminants@[place as int];
        match choice.kind {
            EnumKind::VarInt => if i32::MIN <= number <= i32::MAX {
                Ok(var_int_bytes(number as int))
            } else {
                Err(number_fault())
            },
            EnumKind::VarLong => Ok(var_long_bytes(number as int)),
        }
    };
    noted_wire(written, encode_note(choice.name@))
}

/// Encodes a variant of an enumeration.
pub fn encode_choice(choice: &Choice, place: usize, writer: &mut Vec<u8>) -> (r: Result<
    usize,
    EncodeError,
>)
    ensures
        crate::codec::enc::encodes_as(
            choice_wire(*choice, place as nat),
            old(writer)@,
            final(writer)@,
            r,
        ),
{
    let what = note(&choice.name);
    if place >= choice.discriminants.len() {
        return Err(
            EncodeError::Custom { message: String::from_str("No such variant") }.context(
                what.as_str(),
            ),
        );
    }
    let number: i64 = choice.discriminants[place];
    match choice.kind {
        EnumKind::VarInt => {
            if number < -0x8000_0000 || number > 0x7fff_ffff {
                return Err(
                    EncodeError::Custom {
                        message: String::from_str("Discriminant does not fit in a VarInt"),
                    }.context(what.as_str()),
                );
            }
            VarInt::new(number as i32).encode(writer).err_context(what.as_str())
        },
        EnumKind::VarLong => VarLong::new(number).encode(writer).err_context(what.as_str()),
    }
}

/// The wire form of a value of the declared type `ty`.
pub open spec fn scalar_wire(ty: FieldType, value: ScalarView) -> Result<Seq<u8>, EncodeFault> {
    match (ty, value) {
        (FieldType::Bool, ScalarView::Bool(v)) => v.wire(),
        (FieldType::U8, ScalarView::U8(v)) => v.wire(),
        (FieldType::U16, ScalarView::U16(v)) => v.wire(),
        (FieldType::U32, ScalarView::U32(v)) => v.wire(),
        (FieldType::U64, ScalarView::U64(v)) => v.wire(),
        (FieldType::String, ScalarView::String(v)) => text_wire(v),
        (FieldType::Uuid, ScalarView::Uuid(v)) => Uuid(v).wire(),
        (FieldType::Enum(choice), ScalarView::Variant(v)) => choice_wire(choice, v),
        _ => Err(mismatch_fault()),
    }
}

/// Encodes a value of a declared type.
pub fn encode_scalar(ty: &FieldType, value: &Scalar, writer: &mut Vec<u8>) -> (r: Result<
    usize,
    EncodeError,
>)
    ensures
        crate::codec::enc::encodes_as(scalar_wire(*ty, value@), old(writer)@, final(writer)@, r),
{
    match (ty, value) {
        (FieldType::Bool, Scalar::Bool(v)) => v.encode(writer),
        (FieldType::U8, Scalar::U8(v)) => v.encode(writer),
        (FieldType::U16, Scalar::U16(v)) => v.encode(writer),
        (FieldType::U32, Scalar::U32(v)) => v.encode(writer),
        (FieldType::U64, Scalar::U64(v)) => v.encode(writer),
        (FieldType::String, Scalar::String(v)) => v.encode(writer),
        (FieldType::Uuid, Scalar::Uuid(v)) => v.encode(writer),
        (FieldType::Enum(choice), Scalar::Variant(v)) => encode_choice(choice, *v, writer),
        _ => Err(mismatch_error()),
    }
}

/// The wire form of an optional value of the declared type `ty`: a one and
/// the value, or a zero.
pub open spec fn optional_wire(ty: FieldType, value: Option<ScalarView>) -> Result<
    Seq<u8>,
    EncodeFault,
> {
    match value {
        Some(scalar) => after_wire(
            seq![1u8],
            noted_wire(scalar_wire(ty, scalar), "Failed to encode prefixed option's value"@),
        ),
        None => Ok(seq![0u8]),
    }
}

/// The wire form of the value of a field, written as the field's tag says. A
/// failure carries a note that names the field.
#[verifier::opaque]
pub open spec fn field_wire(field: Field, value: ValueView) -> Result<Seq<u8>, EncodeFault> {
    let written = match (field.kind, value) {
        (FieldKind::Normal, ValueView::Plain(scalar)) => scalar_wire(field.ty, scalar),
        (FieldKind::VarInt, ValueView::Int(number)) => Ok(var_int_bytes(number as int)),
        (FieldKind::VarLong, ValueView::Long(number)) => Ok(var_long_bytes(number as int)),
        (FieldKind::PrefixedOption, ValueView::Optional(scalar)) => optional_wire(
            field.ty,
            scalar,
        ),
        _ => Err(mismatch_fault()),
    };
    noted_wire(written, encode_note(field.name@))
}

/// Encodes an optional value of a declared type.
fn encode_optional(ty: &FieldType, value: &Option<Scalar>, writer: &mut Vec<u8>) -> (r: Result<
    usize,
    EncodeError,
>)
    ensures
        crate::codec::enc::encodes_as(
            optional_wire(
                *ty,
                match value {
                    Some(scalar) => Some(scalar@),
                    None => None,
                },
            ),
            old(writer)@,
            final(writer)@,
            r,
        ),
{
    let start: usize = writer.len();
    match value {
        Some(scalar) => {
            true.encode(writer)?;
            match encode_scalar(ty, scalar, writer).err_context(
                "Failed to encode prefixed option's value",
            ) {
                Ok(_) => {
                    proof {
                        let bytes = scalar_wire(*ty, scalar@)->Ok_0;
                        assert(writer@ == old(writer)@ + (seq![1u8] + bytes));
                    }
                    Ok(writer.len() - start)
                },
                Err(err) => {
                    writer.truncate(start);
                    assert(writer@ == old(writer)@);
                    Err(err)
                },
            }
        },
        None => false.encode(writer),
    }
}

/// Encodes the value of a field.
pub fn encode_field(field: &Field, value: &Value, writer: &mut Vec<u8>) -> (r: Result<
    usize,
    EncodeError,
>)
    ensures
        crate::codec::enc::encodes_as(field_wire(*field, value@), old(writer)@, final(writer)@, r),
{
    proof {
        reveal(field_wire);
    }
    let what = note(&field.name);
    match (field.kind, value) {
        (FieldKind::Normal, Value::Plain(scalar)) => encode_scalar(
            &field.ty,
            scalar,
            writer,
        ).err_context(what.as_str()),
        (FieldKind::VarInt, Value::Int(number)) => VarInt::new(*number).encode(writer).err_context(
            what.as_str(),
        ),
        (FieldKind::VarLong, Value::Long(number)) => VarLong::new(*number).encode(
            writer,
        ).err_context(what.as_str()),
        (FieldKind::PrefixedOption, Value::Optional(scalar)) => encode_optional(
            &field.ty,
            scalar,
            writer,
        ).err_context(what.as_str()),
        _ => Err(mismatch_error().context(what.as_str())),
    }
}

/// The wire forms of the values of a record's fields one after the other,
/// field by field.
pub open spec fn fields_wire(fields: Seq<Field>, list: Seq<ValueView>) -> Result<
    Seq<u8>,
    EncodeFault,
>
    decreases fields.len(),
{
    if fields.len() == 0 || list.len() == 0 {
        Ok(Seq::empty())
    } else {
        match field_wire(fields[0], list[0]) {
            Ok(first) => after_wire(first, fields_wire(fields.drop_first(), list.drop_first())),
            Err(fault) => Err(fault),
        }
    }
}

/// The wire form of a record: the values of its fields in the order of the
/// fields. There must be a value to each field and no more.
pub open spec fn record_wire(fields: Seq<Field>, list: Seq<ValueView>) -> Result<
    Seq<u8>,
    EncodeFault,
> {
    if fields.len() != list.len() {
        Err(mismatch_fault())
    } else {
        fields_wire(fields, list)
    }
}

/// Encodes the values of a record's fields.
pub fn encode_record(fields: &[Field], list: &[Value], writer: &mut Vec<u8>) -> (r: Result<
    usize,
    EncodeError,
>)
    ensures
        crate::codec::enc::encodes_as(
            record_wire(fields@, values(list@)),
            old(writer)@,
            final(writer)@,
            r,
        ),
{
    let start: usize = writer.len();
    if fields.len() != list.len() {
        return Err(mismatch_error());
    }
    let ghost all = values(list@);
    let ghost mut written: Seq<u8> = Seq::empty();
    let mut i: usize = 0;
    proof {
        assert(fields@.skip(0) == fields@);
        assert(all.skip(0) == all);
        let whole = fields_wire(fields@, all);
        if whole is Ok {
            assert(written + whole->Ok_0 == whole->Ok_0);
        }
    }
    while i < fields.len()
        invariant
            i <= fields@.len(),
            fields@.len() == list@.len(),
            all == values(list@),
            start == old(writer)@.len(),
            writer@ == old(writer)@ + written,
            fields_wire(fields@, all) == after_wire(
                written,
                fields_wire(fields@.skip(i as int), all.skip(i as int)),
            ),
        decreases fields@.len() - i,
    {
        proof {
            assert(fields@.skip(i as int).drop_first() == fields@.skip(i + 1));
            assert(all.skip(i as int).drop_first() == all.skip(i + 1));
            assert(all.skip(i as int)[0] == list@[i as int]@);
        }
        match encode_field(&fields[i], &list[i], writer) {
            Ok(_) => {
                proof {
                    let bytes = field_wire(fields@[i as int], list@[i as int]@)->Ok_0;
                    let rest = fields_wire(fields@.skip(i + 1), all.skip(i + 1));
                    if rest is Ok {
                        assert(written + (bytes + rest->Ok_0) == (written + bytes) + rest->Ok_0);
                    }
                    assert(old(writer)@ + written + bytes == old(writer)@ + (written + bytes));
                    written = written + bytes;
                }
            },
            Err(err) => {
                writer.truncate(start);
                assert(writer@ == old(writer)@);
                return Err(err);
            },
        }
        i += 1;
    }
    proof {
        assert(fields@.skip(i as int) == Seq::<Field>::empty());
        assert(written + Seq::<u8>::empty() == written);
    }
    Ok(writer.len() - start)
}

/// The wire form of what a codec encodes, or the fault of an item that is
/// not of the codec's kind.
pub open spec fn item_wire(codec: Codec, item: Item) -> Result<Seq<u8>, EncodeFault> {
    match (codec, item) {
        (Codec::Record(fields), Item::Record(list)) => record_wire(fields@, values(list@)),
        (Codec::Enum(choice), Item::Variant(place)) => choice_wire(choice, place as nat),
        _ => Err(mismatch_fault()),
    }
}

impl Codec {
    /// Encodes what the codec was made for.
    pub fn encode(&self, item: &Item, writer: &mut Vec<u8>) -> (r: Result<usize, EncodeError>)
        ensures
            crate::codec::enc::encodes_as(
                item_wire(*self, *item),
                old(writer)@,
                final(writer)@,
                r,
            ),
    {
        match (self, item) {
            (Codec::Record(fields), Item::Record(list)) => encode_record(
                fields.as_slice(),
                list.as_slice(),
                writer,
            ),
            (Codec::Enum(choice), Item::Variant(place)) => encode_choice(choice, *place, writer),
            _ => Err(mismatch_error()),
        }
    }
}

} // verus!
