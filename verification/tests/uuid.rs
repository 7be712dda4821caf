use minecraft_proxy::codec::dec::Decode;
use minecraft_proxy::codec::enc::Encode;
use minecraft_proxy::codec::Uuid;

#[test]
fn uuid_null() {
    assert_eq!(
        "00000000-0000-0000-0000-000000000000".to_owned(),
        Uuid::null().to_string()
    );
}

#[test]
fn uuid_random() {
    assert_eq!(
        "12345678-9abc-def0-1234-56789abcdef0".to_owned(),
        Uuid(0x1234_5678_9ABC_DEF0_1234_5678_9ABC_DEF0).to_string()
    );
}

#[test]
fn decode_uuid() {
    let mut buffer = [
        0x01, 0x02, 0x03, 0x04, 0x05, 0x06, 0x07, 0x08, 0x09, 0x0A, 0x0B, 0x0C, 0x0D, 0x0E, 0x0F,
        0x10,
    ]
    .as_slice();
    let value = Uuid::decode(&mut buffer).unwrap();
    assert_eq!(value, Uuid(0x10203040_5060_7080_90A0_B0C0D0E0F10_u128));
}

#[test]
fn encode_uuid() {
    let mut buffer = Vec::new();
    let value = Uuid(0x10203040_5060_7080_90A0_B0C0D0E0F10_u128);
    value.encode(&mut buffer).unwrap();
    assert_eq!(
        buffer,
        vec![
            0x01, 0x02, 0x03, 0x04, 0x05, 0x06, 0x07, 0x08, 0x09, 0x0A, 0x0B, 0x0C, 0x0D, 0x0E,
            0x0F, 0x10,
        ]
    );
}
