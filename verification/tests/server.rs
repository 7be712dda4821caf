use minecraft_proxy::codec::dec::{Decode, DecodeError};
use minecraft_proxy::codec::enc::Encode;
use minecraft_proxy::codec::json_value::Json;
use minecraft_proxy::codec::{Uuid, VarInt};
use minecraft_proxy::data::model::Intent;
use minecraft_proxy::data::packet::{Packet, ReadPacket, WritePacket};
use minecraft_proxy::server::error::Error;
use minecraft_proxy::server::login::Property;
use minecraft_proxy::server::{handshake, login, status};

fn frame(packet: &Packet) -> Vec<u8> {
    let mut bytes = Vec::new();
    bytes.write_packet(packet, None).unwrap();
    bytes
}

fn handshake_packet(intent: i32) -> Packet {
    let mut data = Vec::new();
    VarInt::new(772).encode(&mut data).unwrap();
    "localhost".encode(&mut data).unwrap();
    25565u16.encode(&mut data).unwrap();
    VarInt::new(intent).encode(&mut data).unwrap();
    Packet::new(0x00, &data)
}

fn hello_packet(name: &str, uuid: u128) -> Packet {
    let mut data = Vec::new();
    name.encode(&mut data).unwrap();
    Uuid(uuid).encode(&mut data).unwrap();
    Packet::new(0x00, &data)
}

#[test]
fn the_server_reads_the_handshake() {
    let mut bytes = frame(&handshake_packet(1));
    bytes.push(0x55);
    let mut stream = bytes.as_slice();
    let read = handshake::process(&mut stream).unwrap();
    assert_eq!(read.protocol_version, 772);
    assert_eq!(read.server_address, "localhost");
    assert_eq!(read.server_port, 25565);
    assert_eq!(read.intent, Intent::Status);
    assert_eq!(stream, [0x55].as_slice());
}

#[test]
fn a_bad_handshake_is_reported_with_a_note() {
    let bytes = frame(&Packet::new(0, &[1, 2]));
    let mut stream = bytes.as_slice();
    match handshake::process(&mut stream) {
        Err(Error::Decode(DecodeError::Context { context, .. })) => {
            assert_eq!(context, "Failed to decode handshake");
        }
        other => panic!("{other:?}"),
    }
    assert_eq!(stream, bytes.as_slice());
    assert!(matches!(
        handshake::process(&mut [].as_slice()),
        Err(Error::Decode(DecodeError::UnexpectedEnd))
    ));
    assert!(handshake::handle_intention(&handshake_packet(2)).is_ok());
}

#[test]
fn the_server_answers_a_hello_with_the_profile() {
    let answer = login::handle_hello(&hello_packet("Steve", 0xABCD)).unwrap();
    assert_eq!(answer.id, 0x02);
    let mut expected = 0xABCDu128.to_be_bytes().to_vec();
    expected.extend_from_slice(&[5, b'S', b't', b'e', b'v', b'e', 0]);
    assert_eq!(answer.data, expected);

    let mut reader = answer.data.as_slice();
    assert_eq!(Uuid::decode(&mut reader).unwrap(), Uuid(0xABCD));
    assert_eq!(String::decode(&mut reader).unwrap(), "Steve");
    assert_eq!(Vec::<u8>::decode(&mut reader).unwrap(), Vec::<u8>::new());
}

#[test]
fn a_bad_hello_is_reported_with_a_note() {
    match login::handle_hello(&Packet::new(0, &[])) {
        Err(Error::Decode(DecodeError::Context { context, .. })) => {
            assert_eq!(context, "Failed to decode player name");
        }
        other => panic!("{other:?}"),
    }
    match login::handle_hello(&Packet::new(0, &[1, b'x', 0])) {
        Err(Error::Decode(DecodeError::Context { context, .. })) => {
            assert_eq!(context, "Failed to decode player Uuid");
        }
        other => panic!("{other:?}"),
    }
}

#[test]
fn an_acknowledgement_holds_nothing() {
    assert!(login::handle_login_acknowledged(&Packet::new(0x03, &[])).is_ok());
    match login::handle_login_acknowledged(&Packet::new(0x03, &[0])) {
        Err(Error::InvalidPacketData { context }) => {
            assert_eq!(context, "login_acknowledged packet data should be empty");
        }
        other => panic!("{other:?}"),
    }
}

#[test]
fn a_whole_login() {
    let mut bytes = frame(&hello_packet("Alex", 1));
    bytes.extend(frame(&Packet::new(0x03, &[])));
    let mut stream = bytes.as_slice();
    let mut out = vec![0x99];
    login::process(&mut stream, &mut out).unwrap();
    assert!(stream.is_empty());
    let mut sent = &out[1..];
    let answer = sent.read_packet(false).unwrap();
    assert_eq!(answer.id, 0x02);
    assert_eq!(answer.data.len(), 16 + 5 + 1);
    assert!(sent.is_empty());
}

#[test]
fn a_login_that_fails_leaves_no_trace() {
    let mut bytes = frame(&hello_packet("Alex", 1));
    bytes.extend(frame(&Packet::new(0x03, &[1])));
    let mut stream = bytes.as_slice();
    let mut out = vec![0x99];
    assert!(matches!(
        login::process(&mut stream, &mut out),
        Err(Error::InvalidPacketData { .. })
    ));
    assert_eq!(stream, bytes.as_slice());
    assert_eq!(out, vec![0x99]);

    match login::process(&mut [].as_slice(), &mut out) {
        Err(Error::Decode(DecodeError::Context { context, error })) => {
            assert_eq!(context, "");
            assert!(matches!(*error, DecodeError::UnexpectedEnd));
        }
        other => panic!("{other:?}"),
    }
}

#[test]
fn a_property_is_its_name_its_value_and_its_signature() {
    let signed = Property {
        name: "textures".to_owned(),
        value: "abc".to_owned(),
        signature: Some("sig".to_owned()),
    };
    let mut bytes = Vec::new();
    assert_eq!(signed.encode(&mut bytes).unwrap(), 18);
    assert_eq!(
        bytes,
        [&[8u8][..], b"textures", &[3], b"abc", &[1, 3], b"sig"].concat()
    );
    let unsigned = Property { name: "n".to_owned(), value: "v".to_owned(), signature: None };
    let mut bytes = Vec::new();
    unsigned.encode(&mut bytes).unwrap();
    assert_eq!(bytes, vec![1, b'n', 1, b'v', 0]);
    let mut list = Vec::new();
    vec![unsigned].encode(&mut list).unwrap();
    assert_eq!(list, vec![1, 1, b'n', 1, b'v', 0]);
}

const STATUS: &str = r##"{"version":{"name":"1.21.8","protocol":772},"players":{"max":69,"online":42,"sample":[{"id":"00000000-0000-0000-0000-000000000000","name":"Player 0"},{"id":"00000000-0000-0000-0000-000000000000","name":"Player 1"},{"id":"00000000-0000-0000-0000-000000000000","name":"Player 2"}]},"description":{"text":"minecraft-rs server 🦀","color":"#d34516"}}"##;

#[test]
fn the_server_reports_its_status() {
    assert_eq!(status::status().dump(), STATUS);
    let answer = status::handle_status_request(&Packet::new(0x00, &[])).unwrap();
    assert_eq!(answer.id, 0x00);
    let mut reader = answer.data.as_slice();
    assert_eq!(String::decode(&mut reader).unwrap(), STATUS);
    assert!(reader.is_empty());
    let mut reader = answer.data.as_slice();
    assert_eq!(Json::decode(&mut reader).unwrap().dump(), STATUS);
}

#[test]
fn a_status_request_holds_nothing() {
    match status::handle_status_request(&Packet::new(0x00, &[1])) {
        Err(Error::InvalidPacketData { context }) => {
            assert_eq!(context, "status_request packet data should be empty");
        }
        other => panic!("{other:?}"),
    }
}

#[test]
fn a_pong_is_the_ping() {
    let pong = status::handle_ping_request(&Packet::new(0x01, &[1, 2, 3, 4, 5, 6, 7, 8]));
    assert_eq!(pong.id, 0x01);
    assert_eq!(pong.data, vec![1, 2, 3, 4, 5, 6, 7, 8]);
}

#[test]
fn a_whole_status_exchange() {
    let ping = Packet::new(0x01, &[0, 0, 0, 0, 0, 0, 0, 42]);
    let mut bytes = frame(&Packet::new(0x00, &[]));
    bytes.extend(frame(&ping));
    let mut stream = bytes.as_slice();
    let mut out = Vec::new();
    status::process(&mut stream, &mut out).unwrap();
    assert!(stream.is_empty());
    let mut sent = out.as_slice();
    let answer = sent.read_packet(false).unwrap();
    assert_eq!(String::decode(&mut answer.data.as_slice()).unwrap(), STATUS);
    assert_eq!(sent, frame(&ping).as_slice());

    let bytes = frame(&Packet::new(0x00, &[]));
    let mut stream = bytes.as_slice();
    let mut out = vec![7];
    assert!(matches!(
        status::process(&mut stream, &mut out),
        Err(Error::Decode(DecodeError::UnexpectedEnd))
    ));
    assert_eq!(stream, bytes.as_slice());
    assert_eq!(out, vec![7]);
}

#[test]
fn server_errors_as_text() {
    assert_eq!(
        Error::InvalidPacketData { context: "x".to_owned() }.to_string(),
        "Invalid packet data: x"
    );
    assert_eq!(
        Error::from(DecodeError::UnexpectedEnd).to_string(),
        "Decode error: Unexpected end of file"
    );
    let encode = minecraft_proxy::codec::enc::EncodeError::Custom { message: "m".to_owned() };
    assert_eq!(Error::from(encode).to_string(), "Encode error: Custom error: m");
}

#[test]
fn a_hello_that_cannot_be_read_is_reported_under_an_empty_note() {
    match login::hello_unread(DecodeError::UnexpectedEnd) {
        Error::Decode(DecodeError::Context { context, error }) => {
            assert_eq!(context, "");
            assert!(matches!(*error, DecodeError::UnexpectedEnd));
        }
        other => panic!("{other:?}"),
    }
    assert_eq!(
        login::hello_unread(DecodeError::InvalidVarInt).to_string(),
        "Decode error: : Invalid VarInt"
    );
}
