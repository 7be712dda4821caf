use minecraft_proxy::codec::dec::{Decode, DecodeError};
use minecraft_proxy::codec::enc::Encode;
use minecraft_proxy::codec::{PrefixedOption, Uuid};

fn encoded<T: Encode>(value: &T) -> Vec<u8> {
    let mut bytes = Vec::new();
    let written = value.encode(&mut bytes).unwrap();
    assert_eq!(written, bytes.len());
    bytes
}

fn decoded<T: Decode>(bytes: &[u8]) -> T {
    let mut reader = bytes;
    let value = T::decode(&mut reader).unwrap();
    assert!(reader.is_empty());
    value
}

#[test]
fn round_trip_bool() {
    for value in [false, true] {
        assert_eq!(decoded::<bool>(&encoded(&value)), value);
    }
    assert_eq!(encoded(&true), vec![1]);
    assert_eq!(encoded(&false), vec![0]);
    for bytes in [[0u8], [1u8]] {
        assert_eq!(encoded(&decoded::<bool>(&bytes)), bytes);
    }
}

#[test]
fn bool_decode_takes_any_byte_but_zero_for_true() {
    assert!(decoded::<bool>(&[2]));
    assert!(decoded::<bool>(&[0xFF]));
    assert_eq!(encoded(&decoded::<bool>(&[2])), vec![1]);
}

#[test]
fn round_trip_u8() {
    for value in [0u8, 1, 0x7F, 0x80, 0xFF] {
        assert_eq!(decoded::<u8>(&encoded(&value)), value);
        assert_eq!(encoded(&decoded::<u8>(&[value])), vec![value]);
    }
}

#[test]
fn round_trip_u16() {
    for value in [0u16, 1, 258, 0x7FFF, 0x8000, 25565, u16::MAX] {
        assert_eq!(decoded::<u16>(&encoded(&value)), value);
    }
    assert_eq!(encoded(&25565u16), vec![0x63, 0xDD]);
    assert_eq!(encoded(&decoded::<u16>(&[0xAB, 0xCD])), vec![0xAB, 0xCD]);
}

#[test]
fn round_trip_u32() {
    for value in [0u32, 1, 16_909_060, 0x8000_0000, u32::MAX] {
        assert_eq!(decoded::<u32>(&encoded(&value)), value);
    }
    assert_eq!(encoded(&0xDEAD_BEEFu32), vec![0xDE, 0xAD, 0xBE, 0xEF]);
    assert_eq!(encoded(&decoded::<u32>(&[9, 8, 7, 6])), vec![9, 8, 7, 6]);
}

#[test]
fn round_trip_u64() {
    for value in [0u64, 1, 72_623_859_790_382_856, 1 << 63, u64::MAX] {
        assert_eq!(decoded::<u64>(&encoded(&value)), value);
    }
    let bytes = [0xFF, 0, 1, 2, 3, 4, 5, 0x80];
    assert_eq!(encoded(&decoded::<u64>(&bytes)), bytes);
}

#[test]
fn round_trip_f32_as_bits() {
    for value in [0.0f32, -0.0, 1.5, -2.25, f32::MAX, f32::MIN_POSITIVE, f32::INFINITY] {
        let bytes = encoded(&value.to_bits());
        assert_eq!(bytes, value.to_be_bytes());
        assert_eq!(f32::from_bits(decoded::<u32>(&bytes)), value);
    }
    assert_eq!(encoded(&1.0f32.to_bits()), vec![0x3F, 0x80, 0x00, 0x00]);
}

#[test]
fn round_trip_f64_as_bits() {
    for value in [0.0f64, -0.0, 1.5, -2.25, f64::MAX, f64::MIN_POSITIVE, f64::NEG_INFINITY] {
        let bytes = encoded(&value.to_bits());
        assert_eq!(bytes, value.to_be_bytes());
        assert_eq!(f64::from_bits(decoded::<u64>(&bytes)), value);
    }
    assert_eq!(encoded(&1.0f64.to_bits()), vec![0x3F, 0xF0, 0, 0, 0, 0, 0, 0]);
}

#[test]
fn round_trip_string() {
    for value in ["", "Hello", "localhost", "minecraft-rs 🦀", "ä\n\"quoted\""] {
        let value = value.to_owned();
        let bytes = encoded(&value);
        assert_eq!(decoded::<String>(&bytes), value);
        assert_eq!(encoded(&decoded::<String>(&bytes)), bytes);
        assert_eq!(encoded(&value.as_str()), bytes);
    }
    assert_eq!(encoded(&"🦀".to_owned()), vec![4, 0xF0, 0x9F, 0xA6, 0x80]);
}

#[test]
fn string_of_two_hundred_bytes_has_a_two_byte_length() {
    let value = "x".repeat(200);
    let bytes = encoded(&value);
    assert_eq!(&bytes[..2], [0xC8, 0x01].as_slice());
    assert_eq!(bytes.len(), 202);
    assert_eq!(decoded::<String>(&bytes), value);
}

#[test]
fn string_with_an_idle_length_reads_but_is_written_shorter() {
    let bytes = [0x82, 0x00, b'h', b'i'];
    let value = decoded::<String>(&bytes);
    assert_eq!(value, "hi");
    assert_eq!(encoded(&value), vec![0x02, b'h', b'i']);
}

#[test]
fn string_decode_failures() {
    assert!(matches!(
        String::decode(&mut [0x02, 0xC3, 0x28].as_slice()),
        Err(DecodeError::InvalidUtf8(_))
    ));
    assert!(matches!(
        String::decode(&mut [0x05, b'H', b'e'].as_slice()),
        Err(DecodeError::UnexpectedEnd)
    ));
    assert!(matches!(
        String::decode(&mut [0xFF, 0xFF, 0xFF, 0xFF, 0x0F].as_slice()),
        Err(DecodeError::InvalidVarInt)
    ));
    match String::decode(&mut [].as_slice()) {
        Err(DecodeError::Context { context, error }) => {
            assert_eq!(context, "Failed to decode string length");
            assert!(matches!(*error, DecodeError::UnexpectedEnd));
        }
        other => panic!("{other:?}"),
    }
}

#[test]
fn round_trip_vec_u8() {
    for value in [vec![], vec![0u8], vec![1, 2, 3, 4, 5], vec![0xFF; 300]] {
        let bytes = encoded(&value);
        assert_eq!(decoded::<Vec<u8>>(&bytes), value);
        assert_eq!(encoded(&decoded::<Vec<u8>>(&bytes)), bytes);
        assert_eq!(encoded(&value.as_slice()), bytes);
    }
}

#[test]
fn vec_of_strings() {
    let value = vec!["a".to_owned(), "bc".to_owned()];
    let bytes = encoded(&value);
    assert_eq!(bytes, vec![2, 1, b'a', 2, b'b', b'c']);
    assert_eq!(decoded::<Vec<String>>(&bytes), value);
}

#[test]
fn vec_decode_failures() {
    assert!(matches!(
        Vec::<u8>::decode(&mut [0xFF, 0xFF, 0xFF, 0xFF, 0x0F].as_slice()),
        Err(DecodeError::InvalidVarInt)
    ));
    match Vec::<u8>::decode(&mut [0x03, 1, 2].as_slice()) {
        Err(DecodeError::Context { context, error }) => {
            assert_eq!(context, "Failed to decode vec element");
            assert!(matches!(*error, DecodeError::UnexpectedEnd));
        }
        other => panic!("{other:?}"),
    }
    match Vec::<u8>::decode(&mut [0x80].as_slice()) {
        Err(DecodeError::Context { context, error }) => {
            assert_eq!(context, "Failed to decode vec length");
            assert!(matches!(*error, DecodeError::UnexpectedEnd));
        }
        other => panic!("{other:?}"),
    }
    let bytes = [0x03, 1, 2];
    let mut reader = bytes.as_slice();
    assert!(Vec::<u8>::decode(&mut reader).is_err());
    assert_eq!(reader, bytes.as_slice());
}

#[test]
fn round_trip_uuid() {
    for value in [0u128, 1, 0x1234_5678_9ABC_DEF0_1234_5678_9ABC_DEF0, u128::MAX] {
        let bytes = encoded(&Uuid(value));
        assert_eq!(bytes.len(), 16);
        assert_eq!(decoded::<Uuid>(&bytes), Uuid(value));
        assert_eq!(encoded(&decoded::<Uuid>(&bytes)), bytes);
    }
    assert!(matches!(
        Uuid::decode(&mut [0u8; 15].as_slice()),
        Err(DecodeError::UnexpectedEnd)
    ));
}

#[test]
fn round_trip_option_u8() {
    for value in [None, Some(1u8), Some(0x7F), Some(0xFF)] {
        assert_eq!(decoded::<Option<u8>>(&encoded(&value)), value);
    }
    for byte in [0u8, 1, 2, 0xFF] {
        assert_eq!(encoded(&decoded::<Option<u8>>(&[byte])), vec![byte]);
    }
}

#[test]
fn option_of_zero_reads_back_as_none() {
    assert_eq!(encoded(&Some(0u8)), vec![0]);
    assert_eq!(decoded::<Option<u8>>(&encoded(&Some(0u8))), None);
}

#[test]
fn option_decode_failures() {
    assert!(matches!(
        Option::<u8>::decode(&mut [].as_slice()),
        Err(DecodeError::UnexpectedEnd)
    ));
    match Option::<u16>::decode(&mut [0x01].as_slice()) {
        Err(DecodeError::Context { context, error }) => {
            assert_eq!(context, "Failed to decode optional value");
            assert!(matches!(*error, DecodeError::UnexpectedEnd));
        }
        other => panic!("{other:?}"),
    }
}

#[test]
fn option_of_u16_keeps_its_first_byte() {
    assert_eq!(decoded::<Option<u16>>(&[0x01, 0x02]), Some(258));
    assert_eq!(encoded(&Some(258u16)), vec![0x01, 0x02]);
}

#[test]
fn round_trip_prefixed_option_u8() {
    for value in [
        PrefixedOption::Absent,
        PrefixedOption::Present(0u8),
        PrefixedOption::Present(1),
        PrefixedOption::Present(0xFF),
    ] {
        let bytes = encoded(&value);
        assert_eq!(decoded::<PrefixedOption<u8>>(&bytes), value);
        assert_eq!(encoded(&decoded::<PrefixedOption<u8>>(&bytes)), bytes);
    }
    assert_eq!(decoded::<PrefixedOption<u8>>(&[2, 9]), PrefixedOption::Present(9));
    assert_eq!(encoded(&decoded::<PrefixedOption<u8>>(&[2, 9])), vec![1, 9]);
}

#[test]
fn prefixed_option_decode_failures() {
    match PrefixedOption::<u8>::decode(&mut [].as_slice()) {
        Err(DecodeError::Context { context, error }) => {
            assert_eq!(context, "Failed to decode prefixed option's boolean");
            assert!(matches!(*error, DecodeError::UnexpectedEnd));
        }
        other => panic!("{other:?}"),
    }
    let bytes = [0x01];
    let mut reader = bytes.as_slice();
    match PrefixedOption::<u8>::decode(&mut reader) {
        Err(DecodeError::Context { context, error }) => {
            assert_eq!(context, "Failed to decode prefixed option's value");
            assert!(matches!(*error, DecodeError::UnexpectedEnd));
        }
        other => panic!("{other:?}"),
    }
    assert_eq!(reader, bytes.as_slice());
}

#[test]
fn prefixed_option_accessors() {
    let mut some = PrefixedOption::Present(5u8);
    let none: PrefixedOption<u8> = PrefixedOption::Absent;
    assert!(some.is_some());
    assert!(!some.is_none());
    assert!(none.is_none());
    assert!(!none.is_some());
    assert_eq!(some.as_ref(), PrefixedOption::Present(&5));
    assert_eq!(none.as_ref(), PrefixedOption::Absent);
    if let PrefixedOption::Present(value) = some.as_mut() {
        *value = 6;
    }
    assert_eq!(some, PrefixedOption::Present(6));
    assert_eq!(PrefixedOption::from(Some(3u8)), PrefixedOption::Present(3));
    assert_eq!(PrefixedOption::<u8>::from(None), PrefixedOption::Absent);
    assert_eq!(Option::from(PrefixedOption::Present(3u8)), Some(3));
    assert_eq!(Option::<u8>::from(PrefixedOption::Absent), None);
}

#[test]
fn references_encode_as_what_they_refer_to() {
    let value = 258u16;
    assert_eq!(encoded(&&value), vec![1, 2]);
    let mut other = 7u8;
    assert_eq!(encoded(&&mut other), vec![7]);
}

#[test]
fn tuples_are_their_elements_in_a_row() {
    let value = (1u8, 258u16, "hi".to_owned(), true);
    let bytes = encoded(&value);
    assert_eq!(bytes, vec![1, 1, 2, 2, b'h', b'i', 1]);
    assert_eq!(decoded::<(u8, u16, String, bool)>(&bytes), value);
    assert_eq!(encoded(&(5u8,)), vec![5]);
    assert_eq!(decoded::<(u8,)>(&[5]), (5,));
    let twelve = (1u8, 2u8, 3u8, 4u8, 5u8, 6u8, 7u8, 8u8, 9u8, 10u8, 11u8, 258u16);
    assert_eq!(encoded(&twelve), vec![1, 2, 3, 4, 5, 6, 7, 8, 9, 10, 11, 1, 2]);
    let read: (u8, u8, u8, u8, u8, u8, u8, u8, u8, u8, u8, u16) =
        decoded(&[1, 2, 3, 4, 5, 6, 7, 8, 9, 10, 11, 1, 2]);
    assert_eq!(read, twelve);
}

#[test]
fn tuple_decode_leaves_the_reader_on_failure() {
    let bytes = [1, 2];
    let mut reader = bytes.as_slice();
    assert!(matches!(
        <(u8, u16)>::decode(&mut reader),
        Err(DecodeError::UnexpectedEnd)
    ));
    assert_eq!(reader, bytes.as_slice());
}

#[test]
fn decode_takes_only_its_own_bytes() {
    let mut reader = [0x01, 0x02, 0x03].as_slice();
    assert_eq!(u16::decode(&mut reader).unwrap(), 258);
    assert_eq!(reader, [0x03].as_slice());
    assert_eq!(u8::decode(&mut reader).unwrap(), 3);
    assert!(matches!(u8::decode(&mut reader), Err(DecodeError::UnexpectedEnd)));
    assert!(matches!(
        u32::decode(&mut [1, 2, 3].as_slice()),
        Err(DecodeError::UnexpectedEnd)
    ));
    assert!(matches!(
        u64::decode(&mut [1, 2, 3, 4, 5, 6, 7].as_slice()),
        Err(DecodeError::UnexpectedEnd)
    ));
}

#[test]
fn encode_appends_to_the_writer() {
    let mut writer = vec![0xEE];
    assert_eq!(258u16.encode(&mut writer).unwrap(), 2);
    assert_eq!("ab".encode(&mut writer).unwrap(), 3);
    assert_eq!(writer, vec![0xEE, 1, 2, 2, b'a', b'b']);
}
