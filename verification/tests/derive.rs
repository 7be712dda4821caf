use minecraft_proxy::codec::dec::{Decode, DecodeError};
use minecraft_proxy::codec::enc::EncodeError;
use minecraft_proxy::codec::Uuid;
use minecraft_proxy::data::model::Handshake;
use minecraft_proxy::derive::dec::{decode_choice, decode_field, decode_record, decode_scalar};
use minecraft_proxy::derive::enc::{encode_choice, encode_field, encode_record, encode_scalar};
use minecraft_proxy::derive::{
    derive_codec, derive_enum, derive_struct, enum_kind, field_kind, field_kinds, find_variant,
    is_text, Attribute, Choice, Codec, Data, DeriveError, DeriveInput, Discriminant, EnumKind,
    Field, FieldAttrs, FieldDef, FieldKind, FieldType, Fields, Item, Scalar, Value, VariantDef,
};

fn attr(path: &str, args: &[&str]) -> Attribute {
    Attribute {
        path: path.to_owned(),
        args: args.iter().map(|arg| (*arg).to_owned()).collect(),
    }
}

fn codec(args: &[&str]) -> Attribute {
    attr("codec", args)
}

fn field(name: &str, ty: FieldType, attrs: Vec<Attribute>) -> FieldDef {
    FieldDef { name: name.to_owned(), ty, attrs }
}

fn variant(name: &str, number: i64) -> VariantDef {
    VariantDef {
        name: name.to_owned(),
        has_fields: false,
        discriminant: Discriminant::Literal(number),
    }
}

fn intent() -> Choice {
    Choice { name: "Intent".to_owned(), kind: EnumKind::VarInt, discriminants: vec![1, 2, 3] }
}

fn handshake_input() -> DeriveInput {
    DeriveInput {
        name: "Handshake".to_owned(),
        attrs: vec![attr("derive", &["Debug", "Decode"])],
        data: Data::Struct(Fields::Named(vec![
            field("protocol_version", FieldType::U32, vec![codec(&["varint"])]),
            field("server_address", FieldType::String, vec![]),
            field("server_port", FieldType::U16, vec![]),
            field("intent", FieldType::Enum(intent()), vec![]),
        ])),
    }
}

fn chain(error: &DecodeError) -> Vec<String> {
    match error {
        DecodeError::Context { context, error } => {
            let mut notes = vec![context.clone()];
            notes.extend(chain(error));
            notes
        }
        other => vec![format!("{other:?}")],
    }
}

fn encode_chain(error: &EncodeError) -> Vec<String> {
    match error {
        EncodeError::Context { context, error } => {
            let mut notes = vec![context.clone()];
            notes.extend(encode_chain(error));
            notes
        }
        other => vec![format!("{other:?}")],
    }
}

#[test]
fn is_text_compares_strings() {
    assert!(is_text(&"codec".to_owned(), "codec"));
    assert!(!is_text(&"codec".to_owned(), "code"));
}

#[test]
fn a_field_without_a_tag_is_normal() {
    assert_eq!(field_kind(&[]), Ok(FieldKind::Normal));
    assert_eq!(field_kind(&[attr("doc", &["varint"])]), Ok(FieldKind::Normal));
    assert_eq!(field_kind(&[codec(&[])]), Ok(FieldKind::Normal));
}

#[test]
fn a_field_goes_by_its_tag() {
    assert_eq!(field_kind(&[codec(&["varint"])]), Ok(FieldKind::VarInt));
    assert_eq!(field_kind(&[codec(&["varlong"])]), Ok(FieldKind::VarLong));
    assert_eq!(field_kind(&[codec(&["prefixed_option"])]), Ok(FieldKind::PrefixedOption));
}

#[test]
fn the_last_tag_of_a_field_counts() {
    assert_eq!(field_kind(&[codec(&["varint", "varlong"])]), Ok(FieldKind::VarLong));
    assert_eq!(
        field_kind(&[codec(&["varlong"]), attr("serde", &["skip"]), codec(&["varint"])]),
        Ok(FieldKind::VarInt)
    );
}

#[test]
fn an_unknown_tag_of_a_field_is_an_error() {
    assert_eq!(field_kind(&[codec(&["varshort"])]), Err(DeriveError::UnsupportedFieldArgument));
    assert_eq!(
        field_kind(&[codec(&["varint"]), codec(&["varint", "", "varlong"])]),
        Err(DeriveError::UnsupportedFieldArgument)
    );
}

#[test]
fn an_enumeration_goes_by_its_tag() {
    assert_eq!(enum_kind(&[codec(&["varint"])]), Ok(EnumKind::VarInt));
    assert_eq!(enum_kind(&[codec(&["varlong"])]), Ok(EnumKind::VarLong));
    assert_eq!(enum_kind(&[codec(&["varint"]), codec(&["varlong"])]), Ok(EnumKind::VarLong));
    assert_eq!(
        enum_kind(&[attr("derive", &["Debug"]), codec(&["varint"])]),
        Ok(EnumKind::VarInt)
    );
}

#[test]
fn an_enumeration_needs_a_tag() {
    assert_eq!(enum_kind(&[]), Err(DeriveError::MissingEnumKind));
    assert_eq!(enum_kind(&[attr("derive", &["Debug"])]), Err(DeriveError::MissingEnumKind));
    assert_eq!(enum_kind(&[codec(&[])]), Err(DeriveError::MissingEnumKind));
    assert_eq!(
        enum_kind(&[codec(&["prefixed_option"])]),
        Err(DeriveError::UnsupportedEnumArgument)
    );
    assert_eq!(
        enum_kind(&[codec(&["varint", "other"])]),
        Err(DeriveError::UnsupportedEnumArgument)
    );
}

#[test]
fn a_record_gets_its_fields_in_their_order() {
    match derive_codec(handshake_input()).unwrap() {
        Codec::Record(fields) => {
            let seen: Vec<(&str, FieldKind)> =
                fields.iter().map(|field| (field.name.as_str(), field.kind)).collect();
            assert_eq!(
                seen,
                vec![
                    ("protocol_version", FieldKind::VarInt),
                    ("server_address", FieldKind::Normal),
                    ("server_port", FieldKind::Normal),
                    ("intent", FieldKind::Normal),
                ]
            );
            assert!(matches!(fields[0].ty, FieldType::U32));
            assert!(matches!(fields[3].ty, FieldType::Enum(_)));
        }
        other => panic!("{other:?}"),
    }
}

#[test]
fn a_record_needs_named_fields() {
    assert!(matches!(derive_struct(Fields::Unnamed), Err(DeriveError::UnnamedFields)));
    assert!(matches!(derive_struct(Fields::Unit), Err(DeriveError::UnnamedFields)));
    assert!(matches!(
        derive_struct(Fields::Named(vec![])),
        Ok(Codec::Record(fields)) if fields.is_empty()
    ));
}

#[test]
fn the_first_bad_field_of_a_record_is_reported() {
    let fields = Fields::Named(vec![
        field("a", FieldType::U8, vec![]),
        field("b", FieldType::U8, vec![codec(&["nope"])]),
        field("c", FieldType::U8, vec![codec(&["varint"])]),
    ]);
    assert!(matches!(derive_struct(fields), Err(DeriveError::UnsupportedFieldArgument)));
}

#[test]
fn an_enumeration_gets_the_numbers_of_its_variants() {
    let input = DeriveInput {
        name: "Intent".to_owned(),
        attrs: vec![attr("derive", &["Debug"]), codec(&["varint"])],
        data: Data::Enum(vec![variant("Status", 1), variant("Login", 2), variant("Transfer", 3)]),
    };
    match derive_codec(input).unwrap() {
        Codec::Enum(choice) => {
            assert_eq!(choice.name, "Intent");
            assert_eq!(choice.kind, EnumKind::VarInt);
            assert_eq!(choice.discriminants, vec![1, 2, 3]);
        }
        other => panic!("{other:?}"),
    }
}

#[test]
fn an_enumeration_needs_plain_numbered_variants() {
    let attrs = [codec(&["varint"])];
    let with_fields = VariantDef {
        name: "A".to_owned(),
        has_fields: true,
        discriminant: Discriminant::Literal(1),
    };
    let implicit = VariantDef {
        name: "B".to_owned(),
        has_fields: false,
        discriminant: Discriminant::Implicit,
    };
    let computed = VariantDef {
        name: "C".to_owned(),
        has_fields: false,
        discriminant: Discriminant::Expression,
    };
    assert!(matches!(
        derive_enum("E".to_owned(), &attrs, &[variant("Z", 0), with_fields]),
        Err(DeriveError::VariantWithFields)
    ));
    assert!(matches!(
        derive_enum("E".to_owned(), &attrs, &[implicit, variant("Z", 0)]),
        Err(DeriveError::MissingDiscriminant)
    ));
    assert!(matches!(
        derive_enum("E".to_owned(), &attrs, &[computed]),
        Err(DeriveError::DiscriminantNotLiteral)
    ));
    // the variants are looked at before the attributes
    let implicit = VariantDef {
        name: "B".to_owned(),
        has_fields: false,
        discriminant: Discriminant::Implicit,
    };
    assert!(matches!(
        derive_enum("E".to_owned(), &[], &[implicit]),
        Err(DeriveError::MissingDiscriminant)
    ));
    assert!(matches!(
        derive_enum("E".to_owned(), &[], &[variant("Z", 0)]),
        Err(DeriveError::MissingEnumKind)
    ));
}

#[test]
fn a_union_has_no_codec() {
    let input = DeriveInput { name: "U".to_owned(), attrs: vec![], data: Data::Union };
    assert!(matches!(derive_codec(input), Err(DeriveError::Union)));
}

#[test]
fn the_derived_codec_reads_what_the_written_one_reads() {
    let bytes = [
        0x84, 0x06, 0x09, b'l', b'o', b'c', b'a', b'l', b'h', b'o', b's', b't', 0x63, 0xDD, 0x02,
        0x77,
    ];
    let codec = derive_codec(handshake_input()).unwrap();
    let mut reader = bytes.as_slice();
    let item = codec.decode(&mut reader).unwrap();
    assert_eq!(reader, [0x77].as_slice());
    let mut written_reader = bytes.as_slice();
    let written = Handshake::decode(&mut written_reader).unwrap();
    assert_eq!(written_reader, [0x77].as_slice());
    match &item {
        Item::Record(values) => {
            assert_eq!(values.len(), 4);
            assert!(matches!(values[0], Value::Int(772)));
            match &values[1] {
                Value::Plain(Scalar::String(text)) => assert_eq!(*text, written.server_address),
                other => panic!("{other:?}"),
            }
            assert!(matches!(values[2], Value::Plain(Scalar::U16(25565))));
            // Login is the second variant
            assert!(matches!(values[3], Value::Plain(Scalar::Variant(1))));
        }
        other => panic!("{other:?}"),
    }
    let mut again = Vec::new();
    assert_eq!(codec.encode(&item, &mut again).unwrap(), 15);
    assert_eq!(again, &bytes[..15]);
}

#[test]
fn the_derived_codec_fails_as_the_written_one_fails() {
    let codec = derive_codec(handshake_input()).unwrap();
    let whole = [
        0x84, 0x06, 0x09, b'l', b'o', b'c', b'a', b'l', b'h', b'o', b's', b't', 0x63, 0xDD, 0x07,
    ];
    for cut in 0..=whole.len() {
        let bytes = &whole[..cut];
        let mut reader = bytes;
        let derived = codec.decode(&mut reader).unwrap_err();
        assert_eq!(reader, bytes);
        let written = Handshake::decode(&mut &bytes[..]).unwrap_err();
        assert_eq!(chain(&derived), chain(&written));
    }
    assert_eq!(
        chain(&codec.decode(&mut whole.as_slice()).unwrap_err()),
        vec![
            "Failed to decode intent",
            "Custom { message: \"Invalid Intent discriminant: 7\" }"
        ]
    );
}

#[test]
fn every_kind_of_field_round_trips() {
    let color = Choice {
        name: "Color".to_owned(),
        kind: EnumKind::VarLong,
        discriminants: vec![-5, 0, 1 << 40],
    };
    let fields = vec![
        Field { name: "a".to_owned(), ty: FieldType::Bool, kind: FieldKind::Normal },
        Field { name: "b".to_owned(), ty: FieldType::U8, kind: FieldKind::Normal },
        Field { name: "c".to_owned(), ty: FieldType::U32, kind: FieldKind::VarInt },
        Field { name: "d".to_owned(), ty: FieldType::U64, kind: FieldKind::VarLong },
        Field { name: "e".to_owned(), ty: FieldType::String, kind: FieldKind::PrefixedOption },
        Field { name: "f".to_owned(), ty: FieldType::String, kind: FieldKind::PrefixedOption },
        Field { name: "g".to_owned(), ty: FieldType::Uuid, kind: FieldKind::Normal },
        Field { name: "h".to_owned(), ty: FieldType::Enum(color), kind: FieldKind::Normal },
        Field { name: "i".to_owned(), ty: FieldType::U64, kind: FieldKind::Normal },
        Field { name: "j".to_owned(), ty: FieldType::U32, kind: FieldKind::Normal },
    ];
    let values = vec![
        Value::Plain(Scalar::Bool(true)),
        Value::Plain(Scalar::U8(9)),
        Value::Int(-2),
        Value::Long(i64::MIN),
        Value::Optional(Some(Scalar::String("sig".to_owned()))),
        Value::Optional(None),
        Value::Plain(Scalar::Uuid(Uuid(5))),
        Value::Plain(Scalar::Variant(2)),
        Value::Plain(Scalar::U64(1 << 40)),
        Value::Plain(Scalar::U32(7)),
    ];
    let mut bytes = Vec::new();
    let written = encode_record(&fields, &values, &mut bytes).unwrap();
    assert_eq!(written, bytes.len());
    let mut expected = vec![1, 9, 0xFE, 0xFF, 0xFF, 0xFF, 0x0F];
    expected.extend_from_slice(&[0x80, 0x80, 0x80, 0x80, 0x80, 0x80, 0x80, 0x80, 0x80, 0x01]);
    expected.extend_from_slice(&[1, 3, b's', b'i', b'g', 0]);
    expected.extend_from_slice(&5u128.to_be_bytes());
    expected.extend_from_slice(&[0x80, 0x80, 0x80, 0x80, 0x80, 0x20]);
    expected.extend_from_slice(&(1u64 << 40).to_be_bytes());
    expected.extend_from_slice(&7u32.to_be_bytes());
    assert_eq!(bytes, expected);

    let mut reader = bytes.as_slice();
    let read = decode_record(&fields, &mut reader).unwrap();
    assert!(reader.is_empty());
    assert_eq!(format!("{read:?}"), format!("{values:?}"));
}

#[test]
fn field_failures_name_the_field() {
    let optional =
        Field { name: "signature".to_owned(), ty: FieldType::U16, kind: FieldKind::PrefixedOption };
    assert_eq!(
        chain(&decode_field(&optional, &mut [].as_slice()).unwrap_err()),
        vec![
            "Failed to decode signature",
            "Failed to decode prefixed option's boolean",
            "UnexpectedEnd"
        ]
    );
    assert_eq!(
        chain(&decode_field(&optional, &mut [1, 0].as_slice()).unwrap_err()),
        vec![
            "Failed to decode signature",
            "Failed to decode prefixed option's value",
            "UnexpectedEnd"
        ]
    );
    let long = Field { name: "seed".to_owned(), ty: FieldType::U64, kind: FieldKind::VarLong };
    let overlong = [0x80, 0x80, 0x80, 0x80, 0x80, 0x80, 0x80, 0x80, 0x80, 0x02];
    assert_eq!(
        chain(&decode_field(&long, &mut overlong.as_slice()).unwrap_err()),
        vec!["Failed to decode seed", "InvalidVarLong"]
    );
    assert!(matches!(
        decode_scalar(&FieldType::U16, &mut [1].as_slice()),
        Err(DecodeError::UnexpectedEnd)
    ));
}

#[test]
fn a_value_must_fit_its_field() {
    let number = Field { name: "n".to_owned(), ty: FieldType::U8, kind: FieldKind::VarInt };
    let mut bytes = vec![0xAA];
    assert_eq!(
        encode_chain(&encode_field(&number, &Value::Long(1), &mut bytes).unwrap_err()),
        vec!["Failed to encode n", "Custom { message: \"Value does not fit the field\" }"]
    );
    assert_eq!(bytes, vec![0xAA]);
    assert!(matches!(
        encode_scalar(&FieldType::U8, &Scalar::U16(1), &mut bytes),
        Err(EncodeError::Custom { .. })
    ));
    let plain = Field { name: "p".to_owned(), ty: FieldType::U8, kind: FieldKind::Normal };
    let fields = vec![plain, number];
    let three = [Value::Plain(Scalar::U8(1)), Value::Int(2), Value::Int(3)];
    let err = encode_record(&fields, &three, &mut bytes).unwrap_err();
    assert!(matches!(err, EncodeError::Custom { .. }));
    let err = encode_record(&fields, &[Value::Plain(Scalar::U8(1)), Value::Long(2)], &mut bytes)
        .unwrap_err();
    assert_eq!(encode_chain(&err)[0], "Failed to encode n");
    assert_eq!(bytes, vec![0xAA]);
    assert_eq!(
        encode_record(&fields, &[Value::Plain(Scalar::U8(1)), Value::Int(2)], &mut bytes).unwrap(),
        2
    );
    assert_eq!(bytes, vec![0xAA, 1, 2]);
}

#[test]
fn variants_go_by_their_numbers() {
    let choice = Choice {
        name: "Hand".to_owned(),
        kind: EnumKind::VarInt,
        discriminants: vec![10, 300, -1],
    };
    for (place, bytes) in
        [(0usize, vec![10u8]), (1, vec![0xAC, 0x02]), (2, vec![0xFF, 0xFF, 0xFF, 0xFF, 0x0F])]
    {
        let mut written = Vec::new();
        assert_eq!(encode_choice(&choice, place, &mut written).unwrap(), bytes.len());
        assert_eq!(written, bytes);
        assert_eq!(decode_choice(&choice, &mut bytes.as_slice()).unwrap(), place);
    }
    assert_eq!(
        chain(&decode_choice(&choice, &mut [11].as_slice()).unwrap_err()),
        vec!["Custom { message: \"Invalid Hand discriminant: 11\" }"]
    );
    assert_eq!(
        chain(&decode_choice(&choice, &mut [].as_slice()).unwrap_err()),
        vec!["Failed to decode Hand", "UnexpectedEnd"]
    );
    let mut written = Vec::new();
    assert_eq!(
        encode_chain(&encode_choice(&choice, 3, &mut written).unwrap_err()),
        vec!["Failed to encode Hand", "Custom { message: \"No such variant\" }"]
    );
    let wide = Choice {
        name: "Wide".to_owned(),
        kind: EnumKind::VarInt,
        discriminants: vec![1 << 40],
    };
    assert_eq!(
        encode_chain(&encode_choice(&wide, 0, &mut written).unwrap_err()),
        vec![
            "Failed to encode Wide",
            "Custom { message: \"Discriminant does not fit in a VarInt\" }"
        ]
    );
    assert!(written.is_empty());
}

#[test]
fn find_variant_finds_the_first_of_a_number() {
    assert_eq!(find_variant(&vec![3, 5, 3], 3), Some(0));
    assert_eq!(find_variant(&vec![3, 5, 3], 5), Some(1));
    assert_eq!(find_variant(&vec![3, 5, 3], 4), None);
}

#[test]
fn a_codec_takes_only_items_of_its_kind() {
    let record = Codec::Record(vec![]);
    let choice = Codec::Enum(intent());
    let mut bytes = Vec::new();
    assert!(matches!(
        record.encode(&Item::Variant(0), &mut bytes),
        Err(EncodeError::Custom { .. })
    ));
    assert!(matches!(
        choice.encode(&Item::Record(vec![]), &mut bytes),
        Err(EncodeError::Custom { .. })
    ));
    assert_eq!(choice.encode(&Item::Variant(2), &mut bytes).unwrap(), 1);
    assert_eq!(bytes, vec![3]);
    assert!(matches!(choice.decode(&mut [2].as_slice()), Ok(Item::Variant(1))));
    assert_eq!(record.encode(&Item::Record(vec![]), &mut bytes).unwrap(), 0);
}

#[test]
fn the_ways_of_fields_are_read_off_their_attributes_in_order() {
    let declared = FieldAttrs::Named(vec![
        vec![codec(&["varint"])],
        vec![],
        vec![attr("doc", &[]), codec(&["prefixed_option"])],
        vec![codec(&["varlong"])],
    ]);
    assert_eq!(
        field_kinds(&declared),
        Ok(vec![
            FieldKind::VarInt,
            FieldKind::Normal,
            FieldKind::PrefixedOption,
            FieldKind::VarLong,
        ])
    );
    assert_eq!(field_kinds(&FieldAttrs::Named(Vec::new())), Ok(Vec::new()));
}

#[test]
fn fields_without_names_have_no_ways() {
    assert_eq!(field_kinds(&FieldAttrs::Unnamed), Err(DeriveError::UnnamedFields));
}

#[test]
fn the_first_field_with_a_bad_tag_gives_the_error_of_the_ways() {
    let declared = FieldAttrs::Named(vec![
        vec![codec(&["varint"])],
        vec![codec(&["varshort"])],
        vec![codec(&["prefixed_option"])],
    ]);
    assert_eq!(field_kinds(&declared), Err(DeriveError::UnsupportedFieldArgument));
}

#[test]
fn the_ways_agree_with_the_codec_of_the_record() {
    let attrs = vec![vec![codec(&["varint"])], vec![], vec![codec(&["varlong"])]];
    let fields = Fields::Named(vec![
        field("protocol_version", FieldType::U32, vec![codec(&["varint"])]),
        field("server_port", FieldType::U16, vec![]),
        field("time", FieldType::U64, vec![codec(&["varlong"])]),
    ]);
    let kinds = field_kinds(&FieldAttrs::Named(attrs)).unwrap();
    match derive_struct(fields) {
        Ok(Codec::Record(made)) => {
            let found: Vec<FieldKind> = made.iter().map(|f| f.kind).collect();
            assert_eq!(found, kinds);
        }
        other => panic!("{other:?}"),
    }
}
