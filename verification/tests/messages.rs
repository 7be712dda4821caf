use minecraft_proxy::codec::dec::{Decode, DecodeError};
use minecraft_proxy::codec::enc::Encode;
use minecraft_proxy::codec::{Uuid, VarInt};
use minecraft_proxy::data::model::{Handshake, Hello, Intent, LoginCompression};

fn handshake_bytes(version: i32, address: &str, port: u16, intent: i32) -> Vec<u8> {
    let mut bytes = Vec::new();
    VarInt::new(version).encode(&mut bytes).unwrap();
    address.encode(&mut bytes).unwrap();
    port.encode(&mut bytes).unwrap();
    VarInt::new(intent).encode(&mut bytes).unwrap();
    bytes
}

fn chain(error: &DecodeError) -> Vec<String> {
    match error {
        DecodeError::Context { context, error } => {
            let mut notes = vec![context.clone()];
            notes.extend(chain(error));
            notes
        }
        other => vec![format!("{other:?}")],
    }
}

#[test]
fn handshake_decodes() {
    let bytes = handshake_bytes(772, "localhost", 25565, 2);
    assert_eq!(
        bytes,
        vec![
            0x84, 0x06, 0x09, b'l', b'o', b'c', b'a', b'l', b'h', b'o', b's', b't', 0x63, 0xDD,
            0x02
        ]
    );
    let mut reader = bytes.as_slice();
    let handshake = Handshake::decode(&mut reader).unwrap();
    assert_eq!(handshake.protocol_version, 772);
    assert_eq!(handshake.server_address, "localhost");
    assert_eq!(handshake.server_port, 25565);
    assert_eq!(handshake.intent, Intent::Login);
    assert!(reader.is_empty());
}

#[test]
fn handshake_intents() {
    for (number, intent) in [(1, Intent::Status), (2, Intent::Login), (3, Intent::Transfer)] {
        let bytes = handshake_bytes(772, "mc.example.org", 1, number);
        assert_eq!(Handshake::decode(&mut bytes.as_slice()).unwrap().intent, intent);
        assert_eq!(Intent::decode(&mut [number as u8].as_slice()).unwrap(), intent);
    }
}

#[test]
fn handshake_with_an_unknown_intent_names_the_type() {
    let bytes = handshake_bytes(772, "localhost", 25565, 7);
    let mut reader = bytes.as_slice();
    match Handshake::decode(&mut reader) {
        Err(DecodeError::Context { context, error }) => {
            assert_eq!(context, "Failed to decode intent");
            match *error {
                DecodeError::Custom { message } => {
                    assert_eq!(message, "Invalid Intent discriminant: 7");
                }
                other => panic!("{other:?}"),
            }
        }
        other => panic!("{other:?}"),
    }
    assert_eq!(reader, bytes.as_slice());
}

#[test]
fn intent_messages_show_the_number() {
    let cases = [(0, "0"), (4, "4"), (-1, "-1"), (12345, "12345"), (i32::MIN, "-2147483648")];
    for (number, text) in cases {
        let bytes = VarInt::new(number).as_slice().to_vec();
        match Intent::decode(&mut bytes.as_slice()) {
            Err(DecodeError::Custom { message }) => {
                assert_eq!(message, format!("Invalid Intent discriminant: {text}"));
            }
            other => panic!("{other:?}"),
        }
    }
}

#[test]
fn handshake_failures_name_the_field() {
    let whole = handshake_bytes(772, "localhost", 25565, 2);
    assert_eq!(
        chain(&Handshake::decode(&mut [].as_slice()).unwrap_err()),
        vec!["Failed to decode protocol_version", "UnexpectedEnd"]
    );
    assert_eq!(
        chain(&Handshake::decode(&mut &whole[..2]).unwrap_err()),
        vec!["Failed to decode server_address", "Failed to decode string length", "UnexpectedEnd"]
    );
    assert_eq!(
        chain(&Handshake::decode(&mut &whole[..5]).unwrap_err()),
        vec!["Failed to decode server_address", "UnexpectedEnd"]
    );
    assert_eq!(
        chain(&Handshake::decode(&mut &whole[..13]).unwrap_err()),
        vec!["Failed to decode server_port", "UnexpectedEnd"]
    );
    assert_eq!(
        chain(&Handshake::decode(&mut &whole[..14]).unwrap_err()),
        vec!["Failed to decode intent", "Failed to decode Intent", "UnexpectedEnd"]
    );
    assert_eq!(
        chain(&Handshake::decode(&mut [0x80, 0x80, 0x80, 0x80, 0x10].as_slice()).unwrap_err()),
        vec!["Failed to decode protocol_version", "InvalidVarInt"]
    );
}

#[test]
fn handshake_version_is_the_bit_pattern_of_the_var_int() {
    let bytes = handshake_bytes(-1, "", 0, 1);
    let handshake = Handshake::decode(&mut bytes.as_slice()).unwrap();
    assert_eq!(handshake.protocol_version, u32::MAX);
}

#[test]
fn hello_round_trip() {
    let hello = Hello {
        name: "Notch".to_owned(),
        uuid: Uuid(0x069A79F4_44E9_4726_A5BE_FCA90E38AAF5),
    };
    let mut bytes = Vec::new();
    assert_eq!(hello.encode(&mut bytes).unwrap(), 22);
    assert_eq!(&bytes[..6], [5, b'N', b'o', b't', b'c', b'h'].as_slice());
    assert_eq!(&bytes[6..], 0x069A79F4_44E9_4726_A5BE_FCA90E38AAF5u128.to_be_bytes().as_slice());
    let mut reader = bytes.as_slice();
    let read = Hello::decode(&mut reader).unwrap();
    assert_eq!(read.name, "Notch");
    assert_eq!(read.uuid, hello.uuid);
    assert!(reader.is_empty());
}

#[test]
fn hello_failures_name_the_field() {
    assert_eq!(
        chain(&Hello::decode(&mut [].as_slice()).unwrap_err()),
        vec!["Failed to decode name", "Failed to decode string length", "UnexpectedEnd"]
    );
    let bytes = [1, b'x', 0, 0];
    let mut reader = bytes.as_slice();
    assert_eq!(
        chain(&Hello::decode(&mut reader).unwrap_err()),
        vec!["Failed to decode uuid", "UnexpectedEnd"]
    );
    assert_eq!(reader, bytes.as_slice());
}

#[test]
fn login_compression_round_trip() {
    for size in [0, 1, 256, i32::MAX, -1, i32::MIN] {
        let mut bytes = Vec::new();
        LoginCompression { size }.encode(&mut bytes).unwrap();
        assert_eq!(bytes, VarInt::new(size).as_slice());
        assert_eq!(LoginCompression::decode(&mut bytes.as_slice()).unwrap().size, size);
    }
    assert_eq!(
        chain(&LoginCompression::decode(&mut [0x80].as_slice()).unwrap_err()),
        vec!["Failed to decode size", "UnexpectedEnd"]
    );
}
