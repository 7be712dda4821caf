use minecraft_proxy::codec::enc::Encode;

#[test]
fn encode_u8() {
    let mut buffer = Vec::new();
    let value = 1_u8;
    value.encode(&mut buffer).unwrap();
    assert_eq!(buffer, vec![0x01]);
}

#[test]
fn encode_u16() {
    let mut buffer = Vec::new();
    let value = 258_u16;
    value.encode(&mut buffer).unwrap();
    assert_eq!(buffer, vec![0x01, 0x02]);
}

#[test]
fn encode_u32() {
    let mut buffer = Vec::new();
    let value = 16_909_060_u32;
    value.encode(&mut buffer).unwrap();
    assert_eq!(buffer, vec![0x01, 0x02, 0x03, 0x04]);
}

#[test]
fn encode_u64() {
    let mut buffer = Vec::new();
    let value = 72_623_859_790_382_856_u64;
    value.encode(&mut buffer).unwrap();
    assert_eq!(buffer, vec![0x01, 0x02, 0x03, 0x04, 0x05, 0x06, 0x07, 0x08]);
}

#[test]
fn encode_option() {
    let mut buffer = Vec::new();
    let value: Option<u8> = None;
    value.encode(&mut buffer).unwrap();
    assert_eq!(buffer, vec![0x00]);

    let mut buffer = Vec::new();
    let value: Option<u8> = Some(1_u8);
    value.encode(&mut buffer).unwrap();
    assert_eq!(buffer, vec![0x01]);
}

#[test]
fn encode_vec() {
    let mut buffer = Vec::new();
    let value: Vec<u8> = vec![0x01, 0x02, 0x03, 0x04, 0x05];
    value.encode(&mut buffer).unwrap();
    assert_eq!(buffer, vec![0x05, 0x01, 0x02, 0x03, 0x04, 0x05]);
}

#[test]
fn encode_string() {
    let mut buffer = Vec::new();
    let value = "Hello".to_owned();
    value.encode(&mut buffer).unwrap();
    assert_eq!(buffer, vec![0x05, b'H', b'e', b'l', b'l', b'o']);
}
