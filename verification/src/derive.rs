//! Codecs made from declarations.
//!
//! A record with named fields gets an encoder and a decoder that take the
//! fields in the order of their declaration, each by its tag. An enumeration
//! of plain variants gets the two from the numbers of its variants. What is
//! read of a declaration is held here as plain data, and the codec that comes
//! out is a table: the same table serves encoding and decoding, so the two
//! cannot disagree on the order of the fields or on their tags.

pub mod dec;
pub mod enc;
pub mod laws;

use vstd::prelude::*;

use crate::codec::Uuid;

verus! {

/// How a field goes on the wire.
#[derive(Debug, Clone, Copy, PartialEq, Eq, Structural)]
pub enum FieldKind {
    /// As its declared type does.
    Normal,
    /// As a VarInt, whatever integer type it is declared with.
    VarInt,
    /// As a VarLong, whatever integer type it is declared with.
    VarLong,
    /// As a boolean and then, where that is true, as its declared type does.
    PrefixedOption,
}

/// How the number of an enumeration's variant goes on the wire.
#[derive(Debug, Clone, Copy, PartialEq, Eq, Structural)]
pub enum EnumKind {
    VarInt,
    VarLong,
}

/// Why a declaration has no codec.
#[derive(Debug, Clone, Copy, PartialEq, Eq, Structural)]
pub enum DeriveError {
    /// A field's `codec` attribute holds an argument other than `varint`,
    /// `varlong` and `prefixed_option`.
    UnsupportedFieldArgument,
    /// An enumeration's `codec` attribute holds an argument other than
    /// `varint` and `varlong`.
    UnsupportedEnumArgument,
    /// An enumeration says neither `varint` nor `varlong`.
    MissingEnumKind,
    /// A record's fields have no names.
    UnnamedFields,
    /// A variant holds fields.
    VariantWithFields,
    /// A variant has no number of its own.
    MissingDiscriminant,
    /// A variant's number is not written as an integer.
    DiscriminantNotLiteral,
    /// The declaration is a union.
    Union,
}

/// One attribute of a declaration, as far as derivation reads it: its name
/// and the words between its brackets.
#[derive(Debug)]
pub struct Attribute {
    pub path: String,
    pub args: Vec<String>,
}

/// The mathematical content of an [`Attribute`].
pub struct AttributeView {
    pub path: Seq<char>,
    pub args: Seq<Seq<char>>,
}

/// The content of a list of strings.
pub open spec fn texts(strings: Seq<String>) -> Seq<Seq<char>> {
    Seq::new(strings.len(), |i: int| strings[i]@)
}

impl View for Attribute {
    type V = AttributeView;

    open spec fn view(&self) -> AttributeView {
        AttributeView { path: self.path@, args: texts(self.args@) }
    }
}

/// The content of a list of attributes.
pub open spec fn attributes(attrs: Seq<Attribute>) -> Seq<AttributeView> {
    Seq::new(attrs.len(), |i: int| attrs[i]@)
}

/// The arguments of the `codec` attributes among `attrs`, in their order.
pub open spec fn codec_args(attrs: Seq<AttributeView>) -> Seq<Seq<char>>
    decreases attrs.len(),
{
    if attrs.len() == 0 {
        Seq::empty()
    } else if attrs.last().path == "codec"@ {
        codec_args(attrs.drop_last()) + attrs.last().args
    } else {
        codec_args(attrs.drop_last())
    }
}

/// The way of a field that an argument names.
pub open spec fn field_kind_named(arg: Seq<char>) -> Option<FieldKind> {
    if arg == "varint"@ {
        Some(FieldKind::VarInt)
    } else if arg == "varlong"@ {
        Some(FieldKind::VarLong)
    } else if arg == "prefixed_option"@ {
        Some(FieldKind::PrefixedOption)
    } else {
        None
    }
}

/// The way of an enumeration that an argument names.
pub open spec fn enum_kind_named(arg: Seq<char>) -> Option<EnumKind> {
    if arg == "varint"@ {
        Some(EnumKind::VarInt)
    } else if arg == "varlong"@ {
        Some(EnumKind::VarLong)
    } else {
        None
    }
}

/// How a field with these attributes goes on the wire: as its last `codec`
/// argument says, and as its type does where there is none. One argument
/// that names no way spoils them all.
pub open spec fn field_kind_of(attrs: Seq<AttributeView>) -> Result<FieldKind, DeriveError> {
    let args = codec_args(attrs);
    if exists|i: int| 0 <= i < args.len() && field_kind_named(#[trigger] args[i]) is None {
        Err(DeriveError::UnsupportedFieldArgument)
    } else if args.len() == 0 {
        Ok(FieldKind::Normal)
    } else {
        Ok(field_kind_named(args.last())->Some_0)
    }
}

/// How the variants of an enumeration with these attributes go on the wire:
/// as its last `codec` argument says. One argument that names no way spoils
/// them all, and so does having none.
pub open spec fn enum_kind_of(attrs: Seq<AttributeView>) -> Result<EnumKind, DeriveError> {
    let args = codec_args(attrs);
    if exists|i: int| 0 <= i < args.len() && enum_kind_named(#[trigger] args[i]) is None {
        Err(DeriveError::UnsupportedEnumArgument)
    } else if args.len() == 0 {
        Err(DeriveError::MissingEnumKind)
    } else {
        Ok(enum_kind_named(args.last())->Some_0)
    }
}

/// Whether a string is this text.
pub fn is_text(string: &String, text: &str) -> (r: bool)
    ensures
        r == (string@ == text@),
{
    *string == text.to_owned()
}

/// The way of a field that an argument names.
fn field_kind_for(arg: &String) -> (r: Option<FieldKind>)
    ensures
        r == field_kind_named(arg@),
{
    if is_text(arg, "varint") {
        Some(FieldKind::VarInt)
    } else if is_text(arg, "varlong") {
        Some(FieldKind::VarLong)
    } else if is_text(arg, "prefixed_option") {
        Some(FieldKind::PrefixedOption)
    } else {
        None
    }
}

/// The way of an enumeration that an argument names.
fn enum_kind_for(arg: &String) -> (r: Option<EnumKind>)
    ensures
        r == enum_kind_named(arg@),
{
    if is_text(arg, "varint") {
        Some(EnumKind::VarInt)
    } else if is_text(arg, "varlong") {
        Some(EnumKind::VarLong)
    } else {
        None
    }
}

/// Reads off a field's attributes how the field goes on the wire.
pub fn field_kind(attrs: &[Attribute]) -> (r: Result<FieldKind, DeriveError>)
    ensures
        r == field_kind_of(attributes(attrs@)),
{
    let mut kind = FieldKind::Normal;
    let ghost all = attributes(attrs@);
    let ghost mut seen: Seq<Seq<char>> = Seq::empty();

    let mut i: usize = 0;
    while i < attrs.len()
        invariant
            i <= attrs@.len(),
            all == attributes(attrs@),
            seen == codec_args(all.take(i as int)),
            forall|k: int| 0 <= k < seen.len() ==> field_kind_named(#[trigger] seen[k]) is Some,
            seen.len() == 0 ==> kind == FieldKind::Normal,
            seen.len() > 0 ==> Some(kind) == field_kind_named(seen.last()),
        decreases attrs@.len() - i,
    {
        let a = &attrs[i];
        proof {
            assert(all.take(i + 1).drop_last() == all.take(i as int));
            assert(all.take(i + 1).last() == a@);
        }
        if is_text(&a.path, "codec") {
            let mut j: usize = 0;
            let ghost before = seen;
            while j < a.args.len()
                invariant
                    j <= a.args@.len(),
                    seen == before + texts(a.args@).take(j as int),
                    forall|k: int|
                        0 <= k < seen.len() ==> field_kind_named(#[trigger] seen[k]) is Some,
                    seen.len() == 0 ==> kind == FieldKind::Normal,
                    seen.len() > 0 ==> Some(kind) == field_kind_named(seen.last()),
                    all == attributes(attrs@),
                    i < attrs@.len(),
                    a@ == all[i as int],
                    a.path@ == "codec"@,
                    before == codec_args(all.take(i as int)),
                decreases a.args@.len() - j,
            {
                proof {
                    assert(texts(a.args@).take(j + 1) == texts(a.args@).take(j as int).push(
                        a.args@[j as int]@,
                    ));
                }
                match field_kind_for(&a.args[j]) {
                    Some(named) => {
                        kind = named;
                    },
                    None => {
                        proof {
                            lemma_codec_args_prefix(all, i + 1);
                            let bad = before.len() + j;
                            let args = codec_args(all);
                            let upto = all.take(i + 1);
                            assert(upto.drop_last() == all.take(i as int));
                            assert(upto.last() == a@);
                            assert(codec_args(upto) == before + texts(a.args@));
                            assert(codec_args(upto)[bad] == texts(a.args@)[j as int]);
                            assert(args[bad] == a.args@[j as int]@);
                        }
                        return Err(DeriveError::UnsupportedFieldArgument);
                    },
                }
                proof {
                    seen = seen.push(a.args@[j as int]@);
                }
                j += 1;
            }
            proof {
                assert(texts(a.args@).take(j as int) == texts(a.args@));
            }
        }
        i += 1;
    }
    proof {
        assert(all.take(i as int) == all);
    }
    Ok(kind)
}

/// Reads off an enumeration's attributes how its variants go on the wire.
pub fn enum_kind(attrs: &[Attribute]) -> (r: Result<EnumKind, DeriveError>)
    ensures
        r == enum_kind_of(attributes(attrs@)),
{
    let mut kind: Option<EnumKind> = None;
    let ghost all = attributes(attrs@);
    let ghost mut seen: Seq<Seq<char>> = Seq::empty();

    let mut i: usize = 0;
    while i < attrs.len()
        invariant
            i <= attrs@.len(),
            all == attributes(attrs@),
            seen == codec_args(all.take(i as int)),
            forall|k: int| 0 <= k < seen.len() ==> enum_kind_named(#[trigger] seen[k]) is Some,
            seen.len() == 0 ==> kind is None,
            seen.len() > 0 ==> kind is Some && kind == enum_kind_named(seen.last()),
        decreases attrs@.len() - i,
    {
        let a = &attrs[i];
        proof {
            assert(all.take(i + 1).drop_last() == all.take(i as int));
            assert(all.take(i + 1).last() == a@);
        }
        if is_text(&a.path, "codec") {
            let mut j: usize = 0;
            let ghost before = seen;
            while j < a.args.len()
                invariant
                    j <= a.args@.len(),
                    seen == before + texts(a.args@).take(j as int),
                    forall|k: int|
                        0 <= k < seen.len() ==> enum_kind_named(#[trigger] seen[k]) is Some,
                    seen.len() == 0 ==> kind is None,
                    seen.len() > 0 ==> kind is Some && kind == enum_kind_named(seen.last()),
                    all == attributes(attrs@),
                    i < attrs@.len(),
                    a@ == all[i as int],
                    a.path@ == "codec"@,
                    before == codec_args(all.take(i as int)),
                decreases a.args@.len() - j,
            {
                proof {
                    assert(texts(a.args@).take(j + 1) == texts(a.args@).take(j as int).push(
                        a.args@[j as int]@,
                    ));
                }
                match enum_kind_for(&a.args[j]) {
                    Some(named) => {
                        kind = Some(named);
                    },
                    None => {
                        proof {
                            lemma_codec_args_prefix(all, i + 1);
                            let bad = before.len() + j;
                            let args = codec_args(all);
                            let upto = all.take(i + 1);
                            assert(upto.drop_last() == all.take(i as int));
                            assert(upto.last() == a@);
                            assert(codec_args(upto) == before + texts(a.args@));
                            assert(codec_args(upto)[bad] == texts(a.args@)[j as int]);
                            assert(args[bad] == a.args@[j as int]@);
                        }
                        return Err(DeriveError::UnsupportedEnumArgument);
                    },
                }
                proof {
                    seen = seen.push(a.args@[j as int]@);
                }
                j += 1;
            }
            proof {
                assert(texts(a.args@).take(j as int) == texts(a.args@));
            }
        }
        i += 1;
    }
    proof {
        assert(all.take(i as int) == all);
    }
    match kind {
        Some(k) => Ok(k),
        None => Err(DeriveError::MissingEnumKind),
    }
}

/// The numbers of an enumeration's variants, and how they go on the wire.
#[derive(Debug)]
pub struct Choice {
    /// The name of the enumeration, for messages.
    pub name: String,
    pub kind: EnumKind,
    /// The number of each variant, in the order of the variants.
    pub discriminants: Vec<i64>,
}

/// The declared type of a field.
#[derive(Debug)]
pub enum FieldType {
    Bool,
    U8,
    U16,
    U32,
    U64,
    String,
    Uuid,
    /// An enumeration with a codec of its own.
    Enum(Choice),
}

/// A field as it is declared.
#[derive(Debug)]
pub struct FieldDef {
    pub name: String,
    pub ty: FieldType,
    pub attrs: Vec<Attribute>,
}

/// The fields of a record as they are declared.
#[derive(Debug)]
pub enum Fields {
    Named(Vec<FieldDef>),
    Unnamed,
    Unit,
}

/// The number of a variant as it is declared.
#[derive(Debug, Clone, Copy, PartialEq, Eq, Structural)]
pub enum Discriminant {
    /// None is written.
    Implicit,
    /// An integer is written.
    Literal(i64),
    /// Something else is written.
    Expression,
}

/// A variant as it is declared.
#[derive(Debug)]
pub struct VariantDef {
    pub name: String,
    pub has_fields: bool,
    pub discriminant: Discriminant,
}

/// The body of a declaration.
#[derive(Debug)]
pub enum Data {
    Struct(Fields),
    Enum(Vec<VariantDef>),
    Union,
}

/// A declaration that asks for a codec.
#[derive(Debug)]
pub struct DeriveInput {
    pub name: String,
    pub attrs: Vec<Attribute>,
    pub data: Data,
}

/// A field of a record's codec: its name, its declared type, and how it
/// goes on the wire.
#[derive(Debug)]
pub struct Field {
    pub name: String,
    pub ty: FieldType,
    pub kind: FieldKind,
}

/// A codec made from a declaration.
#[derive(Debug)]
pub enum Codec {
    /// The fields of a record, in the order of their declaration.
    Record(Vec<Field>),
    /// The variants of an enumeration.
    Enum(Choice),
}

/// A value of a field's declared type.
#[derive(Debug)]
pub enum Scalar {
    Bool(bool),
    U8(u8),
    U16(u16),
    U32(u32),
    U64(u64),
    String(String),
    Uuid(Uuid),
    /// A variant of an enumeration, by its place among the variants.
    Variant(usize),
}

/// The value of a field.
#[derive(Debug)]
pub enum Value {
    /// Of a field without a tag: a value of its declared type.
    Plain(Scalar),
    /// Of a `varint` field: the integer.
    Int(i32),
    /// Of a `varlong` field: the integer.
    Long(i64),
    /// Of a `prefixed_option` field: a value of its declared type, or none.
    Optional(Option<Scalar>),
}

/// What a codec encodes and decodes.
#[derive(Debug)]
pub enum Item {
    /// The values of a record's fields, in the order of the fields.
    Record(Vec<Value>),
    /// A variant of an enumeration, by its place among the variants.
    Variant(usize),
}

/// The mathematical content of a [`Scalar`].
pub enum ScalarView {
    Bool(bool),
    U8(u8),
    U16(u16),
    U32(u32),
    U64(u64),
    String(Seq<char>),
    Uuid(u128),
    Variant(nat),
}

/// The mathematical content of a [`Value`].
pub enum ValueView {
    Plain(ScalarView),
    Int(i32),
    Long(i64),
    Optional(Option<ScalarView>),
}

impl View for Scalar {
    type V = ScalarView;

    open spec fn view(&self) -> ScalarView {
        match self {
            Scalar::Bool(b) => ScalarView::Bool(*b),
            Scalar::U8(n) => ScalarView::U8(*n),
            Scalar::U16(n) => ScalarView::U16(*n),
            Scalar::U32(n) => ScalarView::U32(*n),
            Scalar::U64(n) => ScalarView::U64(*n),
            Scalar::String(text) => ScalarView::String(text@),
            Scalar::Uuid(id) => ScalarView::Uuid(id@),
            Scalar::Variant(place) => ScalarView::Variant(*place as nat),
        }
    }
}

impl View for Value {
    type V = ValueView;

    open spec fn view(&self) -> ValueView {
        match self {
            Value::Plain(scalar) => ValueView::Plain(scalar@),
            Value::Int(n) => ValueView::Int(*n),
            Value::Long(n) => ValueView::Long(*n),
            Value::Optional(Some(scalar)) => ValueView::Optional(Some(scalar@)),
            Value::Optional(None) => ValueView::Optional(None),
        }
    }
}

/// The content of a list of values.
pub open spec fn values(list: Seq<Value>) -> Seq<ValueView> {
    Seq::new(list.len(), |i: int| list[i]@)
}

/// Whether `at` is the place of the first variant with the number `raw`.
pub open spec fn number_at(discriminants: Seq<i64>, raw: int, at: int) -> bool {
    &&& 0 <= at < discriminants.len()
    &&& discriminants[at] == raw
    &&& forall|before: int| 0 <= before < at ==> discriminants[before] != raw
}

/// The place of the first variant with the number `raw`, if there is one.
pub open spec fn variant_of(discriminants: Seq<i64>, raw: int) -> Option<nat> {
    if exists|at: int| number_at(discriminants, raw, at) {
        Some((choose|at: int| number_at(discriminants, raw, at)) as nat)
    } else {
        None
    }
}

/// There is one first variant of a number at most.
pub proof fn lemma_number_at(discriminants: Seq<i64>, raw: int, at: int)
    requires
        number_at(discriminants, raw, at),
    ensures
        variant_of(discriminants, raw) == Some(at as nat),
{
    let found = choose|i: int| number_at(discriminants, raw, i);
    assert(number_at(discriminants, raw, found));
    if found < at {
        assert(discriminants[found] != raw);
    } else if at < found {
        assert(discriminants[at] != raw);
    }
}

/// The place of the first variant with the number `raw`.
pub fn find_variant(discriminants: &Vec<i64>, raw: i64) -> (r: Option<usize>)
    ensures
        match r {
            Some(at) => variant_of(discriminants@, raw as int) == Some(at as nat)
                && at < discriminants@.len(),
            None => variant_of(discriminants@, raw as int) is None,
        },
{
    let mut at: usize = 0;
    while at < discriminants.len()
        invariant
            at <= discriminants@.len(),
            forall|before: int| 0 <= before < at ==> discriminants@[before] != raw,
        decreases discriminants@.len() - at,
    {
        if discriminants[at] == raw {
            proof {
                lemma_number_at(discriminants@, raw as int, at as int);
            }
            return Some(at);
        }
        at += 1;
    }
    assert forall|i: int| !number_at(discriminants@, raw as int, i) by {}
    None
}

/// The fields of a record's codec: each declared field with the way that
/// its attributes name, or the error of the first field whose attributes
/// name none.
pub open spec fn fields_of(defs: Seq<FieldDef>) -> Result<Seq<Field>, DeriveError>
    decreases defs.len(),
{
    if defs.len() == 0 {
        Ok(Seq::empty())
    } else {
        match field_kind_of(attributes(defs[0].attrs@)) {
            Ok(kind) => after_fields(
                seq![Field { name: defs[0].name, ty: defs[0].ty, kind }],
                fields_of(defs.drop_first()),
            ),
            Err(error) => Err(error),
        }
    }
}

/// What `rest` comes to after `fields`.
pub open spec fn after_fields(fields: Seq<Field>, rest: Result<Seq<Field>, DeriveError>) -> Result<
    Seq<Field>,
    DeriveError,
> {
    match rest {
        Ok(more) => Ok(fields + more),
        Err(error) => Err(error),
    }
}

/// The number of a variant, or why the variant has no place in a codec.
pub open spec fn discriminant_of(variant: VariantDef) -> Result<i64, DeriveError> {
    if variant.has_fields {
        Err(DeriveError::VariantWithFields)
    } else {
        match variant.discriminant {
            Discriminant::Implicit => Err(DeriveError::MissingDiscriminant),
            Discriminant::Literal(number) => Ok(number),
            Discriminant::Expression => Err(DeriveError::DiscriminantNotLiteral),
        }
    }
}

/// The numbers of an enumeration's variants in their order, or the error of
/// the first variant that has no place in a codec.
pub open spec fn discriminants_of(variants: Seq<VariantDef>) -> Result<Seq<i64>, DeriveError>
    decreases variants.len(),
{
    if variants.len() == 0 {
        Ok(Seq::empty())
    } else {
        match discriminant_of(variants[0]) {
            Ok(number) => after_numbers(seq![number], discriminants_of(variants.drop_first())),
            Err(error) => Err(error),
        }
    }
}

/// What `rest` comes to after `numbers`.
pub open spec fn after_numbers(numbers: Seq<i64>, rest: Result<Seq<i64>, DeriveError>) -> Result<
    Seq<i64>,
    DeriveError,
> {
    match rest {
        Ok(more) => Ok(numbers + more),
        Err(error) => Err(error),
    }
}

/// The number of a variant, or why the variant has no place in a codec.
fn discriminant(variant: &VariantDef) -> (r: Result<i64, DeriveError>)
    ensures
        r == discriminant_of(*variant),
{
    if variant.has_fields {
        return Err(DeriveError::VariantWithFields);
    }
    match variant.discriminant {
        Discriminant::Implicit => Err(DeriveError::MissingDiscriminant),
        Discriminant::Literal(number) => Ok(number),
        Discriminant::Expression => Err(DeriveError::DiscriminantNotLiteral),
    }
}

/// Makes the codec of a record: its fields must have names, and each goes
/// on the wire as its attributes say.
pub fn derive_struct(fields: Fields) -> (r: Result<Codec, DeriveError>)
    ensures
        match fields {
            Fields::Named(defs) => match fields_of(defs@) {
                Ok(made) => r matches Ok(Codec::Record(found)) && found@ == made,
                Err(error) => r == Err::<Codec, DeriveError>(error),
            },
            _ => r == Err::<Codec, DeriveError>(DeriveError::UnnamedFields),
        },
{
    let mut defs = match fields {
        Fields::Named(defs) => defs,
        _ => {
            return Err(DeriveError::UnnamedFields);
        },
    };
    let ghost all = defs@;
    let mut made: Vec<Field> = Vec::new();
    proof {
        let whole = fields_of(all);
        if whole is Ok {
            assert(made@ + whole->Ok_0 == whole->Ok_0);
        }
    }
    while defs.len() > 0
        invariant
            fields matches Fields::Named(declared) && declared@ == all,
            fields_of(all) == after_fields(made@, fields_of(defs@)),
        decreases defs@.len(),
    {
        let ghost before = defs@;
        let def = defs.remove(0);
        assert(defs@ == before.drop_first());
        assert(def == before[0]);
        let kind = match field_kind(def.attrs.as_slice()) {
            Ok(kind) => kind,
            Err(error) => {
                assert(fields_of(before) == Err::<Seq<Field>, DeriveError>(error));
                return Err(error);
            },
        };
        proof {
            let rest = fields_of(defs@);
            let one = seq![Field { name: def.name, ty: def.ty, kind }];
            assert(fields_of(before) == after_fields(one, rest));
            if rest is Ok {
                assert(made@ + (one + rest->Ok_0) == made@ + one + rest->Ok_0);
                assert(made@.push(one[0]) == made@ + one);
            }
        }
        made.push(Field { name: def.name, ty: def.ty, kind });
    }
    proof {
        assert(made@ + Seq::<Field>::empty() == made@);
    }
    Ok(Codec::Record(made))
}

/// What is declared of the fields of a record apart from their names and
/// types: the attributes of each named field in the order of the
/// declaration, or that the fields have no names.
#[derive(Debug)]
pub enum FieldAttrs {
    Named(Vec<Vec<Attribute>>),
    Unnamed,
}

/// The ways in which fields with these attributes go on the wire, field by
/// field, or the error of the first field whose attributes name none.
pub open spec fn kinds_of(fields: Seq<Vec<Attribute>>) -> Result<Seq<FieldKind>, DeriveError>
    decreases fields.len(),
{
    if fields.len() == 0 {
        Ok(Seq::empty())
    } else {
        match field_kind_of(attributes(fields[0]@)) {
            Ok(kind) => after_kinds(seq![kind], kinds_of(fields.drop_first())),
            Err(error) => Err(error),
        }
    }
}

/// What `rest` comes to after `kinds`.
pub open spec fn after_kinds(kinds: Seq<FieldKind>, rest: Result<Seq<FieldKind>, DeriveError>) -> Result<
    Seq<FieldKind>,
    DeriveError,
> {
    match rest {
        Ok(more) => Ok(kinds + more),
        Err(error) => Err(error),
    }
}

/// Decides how the fields of a record go on the wire, for a caller that
/// keeps their names and types to itself: the fields must have names, and
/// each goes as its attributes say. The first field that cannot gives the
/// error.
pub fn field_kinds(fields: &FieldAttrs) -> (r: Result<Vec<FieldKind>, DeriveError>)
    ensures
        match fields {
            FieldAttrs::Named(attrs) => match kinds_of(attrs@) {
                Ok(kinds) => r matches Ok(found) && found@ == kinds,
                Err(error) => r == Err::<Vec<FieldKind>, DeriveError>(error),
            },
            FieldAttrs::Unnamed => r == Err::<Vec<FieldKind>, DeriveError>(
                DeriveError::UnnamedFields,
            ),
        },
{
    let attrs = match fields {
        FieldAttrs::Named(attrs) => attrs,
        FieldAttrs::Unnamed => {
            return Err(DeriveError::UnnamedFields);
        },
    };
    let mut kinds: Vec<FieldKind> = Vec::new();
    let mut i: usize = 0;
    proof {
        assert(attrs@.skip(0) == attrs@);
        let whole = kinds_of(attrs@);
        if whole is Ok {
            assert(kinds@ + whole->Ok_0 == whole->Ok_0);
        }
    }
    while i < attrs.len()
        invariant
            i <= attrs@.len(),
            fields matches FieldAttrs::Named(declared) && declared@ == attrs@,
            kinds_of(attrs@) == after_kinds(kinds@, kinds_of(attrs@.skip(i as int))),
        decreases attrs@.len() - i,
    {
        let ghost here = attrs@.skip(i as int);
        assert(here[0] == attrs@[i as int]);
        assert(here.drop_first() == attrs@.skip(i + 1));
        let kind = match field_kind(attrs[i].as_slice()) {
            Ok(kind) => kind,
            Err(error) => {
                assert(kinds_of(here) == Err::<Seq<FieldKind>, DeriveError>(error));
                return Err(error);
            },
        };
        proof {
            let rest = kinds_of(attrs@.skip(i + 1));
            assert(kinds_of(here) == after_kinds(seq![kind], rest));
            if rest is Ok {
                assert(kinds@ + (seq![kind] + rest->Ok_0) == kinds@.push(kind) + rest->Ok_0);
            }
        }
        kinds.push(kind);
        i += 1;
    }
    proof {
        assert(attrs@.skip(i as int) == Seq::<Vec<Attribute>>::empty());
        assert(kinds@ + Seq::<FieldKind>::empty() == kinds@);
    }
    Ok(kinds)
}

/// The ways that [`field_kinds`] finds for the attributes of declared
/// fields are the ways of the fields in the record's codec, and it fails as
/// the making of the codec does.
pub proof fn lemma_field_kinds(defs: Seq<FieldDef>)
    ensures
        match fields_of(defs) {
            Ok(made) => kinds_of(Seq::new(defs.len(), |i: int| defs[i].attrs)) == Ok::<
                Seq<FieldKind>,
                DeriveError,
            >(Seq::new(made.len(), |i: int| made[i].kind)) && made.len() == defs.len(),
            Err(error) => kinds_of(Seq::new(defs.len(), |i: int| defs[i].attrs)) == Err::<
                Seq<FieldKind>,
                DeriveError,
            >(error),
        },
    decreases defs.len(),
{
    let attrs = Seq::new(defs.len(), |i: int| defs[i].attrs);
    if defs.len() > 0 {
        let rest = defs.drop_first();
        lemma_field_kinds(rest);
        assert(attrs.drop_first() == Seq::new(rest.len(), |i: int| rest[i].attrs));
        assert(attrs[0] == defs[0].attrs);
        match field_kind_of(attributes(defs[0].attrs@)) {
            Ok(kind) => {
                if fields_of(rest) is Ok {
                    let more = fields_of(rest)->Ok_0;
                    let made = fields_of(defs)->Ok_0;
                    assert(made == seq![
                        Field { name: defs[0].name, ty: defs[0].ty, kind },
                    ] + more);
                    assert(Seq::new(made.len(), |i: int| made[i].kind) == seq![kind] + Seq::new(
                        more.len(),
                        |i: int| more[i].kind,
                    ));
                }
            },
            Err(error) => {},
        }
    } else {
        assert(Seq::new(0, |i: int| fields_of(defs)->Ok_0[i].kind) == Seq::<FieldKind>::empty());
    }
}

/// Makes the codec of an enumeration: each variant must be plain and have a
/// number written as an integer, and the attributes must say how the number
/// goes on the wire.
pub fn derive_enum(name: String, attrs: &[Attribute], variants: &[VariantDef]) -> (r: Result<
    Codec,
    DeriveError,
>)
    ensures
        match discriminants_of(variants@) {
            Ok(numbers) => match enum_kind_of(attributes(attrs@)) {
                Ok(kind) => r matches Ok(Codec::Enum(choice)) && choice.name == name
                    && choice.kind == kind && choice.discriminants@ == numbers,
                Err(error) => r == Err::<Codec, DeriveError>(error),
            },
            Err(error) => r == Err::<Codec, DeriveError>(error),
        },
{
    let mut discriminants: Vec<i64> = Vec::new();
    let mut i: usize = 0;
    proof {
        assert(variants@.skip(0) == variants@);
        let all = discriminants_of(variants@);
        if all is Ok {
            assert(discriminants@ + all->Ok_0 == all->Ok_0);
        }
    }
    while i < variants.len()
        invariant
            i <= variants@.len(),
            discriminants_of(variants@) == after_numbers(
                discriminants@,
                discriminants_of(variants@.skip(i as int)),
            ),
        decreases variants@.len() - i,
    {
        proof {
            assert(variants@.skip(i as int).drop_first() == variants@.skip(i + 1));
        }
        let number = discriminant(&variants[i])?;
        proof {
            let rest = discriminants_of(variants@.skip(i + 1));
            if rest is Ok {
                assert(discriminants@ + (seq![number] + rest->Ok_0) == discriminants@.push(number)
                    + rest->Ok_0);
            }
        }
        discriminants.push(number);
        i += 1;
    }
    proof {
        assert(variants@.skip(i as int) == Seq::<VariantDef>::empty());
        assert(discriminants@ + Seq::<i64>::empty() == discriminants@);
    }
    let kind = enum_kind(attrs)?;
    Ok(Codec::Enum(Choice { name, kind, discriminants }))
}

/// Makes the codec of a declaration: of a record by its fields, of an
/// enumeration by its variants. A union has none.
pub fn derive_codec(input: DeriveInput) -> (r: Result<Codec, DeriveError>)
    ensures
        match input.data {
            Data::Struct(Fields::Named(defs)) => match fields_of(defs@) {
                Ok(made) => r matches Ok(Codec::Record(found)) && found@ == made,
                Err(error) => r == Err::<Codec, DeriveError>(error),
            },
            Data::Struct(_) => r == Err::<Codec, DeriveError>(DeriveError::UnnamedFields),
            Data::Enum(variants) => match discriminants_of(variants@) {
                Ok(numbers) => match enum_kind_of(attributes(input.attrs@)) {
                    Ok(kind) => r matches Ok(Codec::Enum(choice)) && choice.name == input.name
                        && choice.kind == kind && choice.discriminants@ == numbers,
                    Err(error) => r == Err::<Codec, DeriveError>(error),
                },
                Err(error) => r == Err::<Codec, DeriveError>(error),
            },
            Data::Union => r == Err::<Codec, DeriveError>(DeriveError::Union),
        },
{
    match input.data {
        Data::Struct(fields) => derive_struct(fields),
        Data::Enum(variants) => derive_enum(
            input.name,
            input.attrs.as_slice(),
            variants.as_slice(),
        ),
        Data::Union => Err(DeriveError::Union),
    }
}

/// The `codec` arguments of the first attributes are the first of the
/// `codec` arguments of all.
pub proof fn lemma_codec_args_prefix(attrs: Seq<AttributeView>, upto: int)
    requires
        0 <= upto <= attrs.len(),
    ensures
        codec_args(attrs.take(upto)).is_prefix_of(codec_args(attrs)),
    decreases attrs.len() - upto,
{
    if upto < attrs.len() {
        lemma_codec_args_prefix(attrs, upto + 1);
        assert(attrs.take(upto + 1).drop_last() == attrs.take(upto));
    } else {
        assert(attrs.take(upto) == attrs);
    }
}

} // verus!
