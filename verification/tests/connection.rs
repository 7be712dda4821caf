use std::collections::VecDeque;

use minecraft_proxy::codec::dec::DecodeError;
use minecraft_proxy::codec::enc::{Encode, EncodeError};
use minecraft_proxy::codec::{Uuid, VarInt};
use minecraft_proxy::data::model::{Hello, LoginCompression};
use minecraft_proxy::data::packet::{Packet, ReadPacket, WritePacket};
use minecraft_proxy::proxy::connection::{
    handle_packet, handle_handshake, handle_login, handle_status, ConnectionStage,
    ConnectionState, LoginStep, Peer, StatusStep,
};
use minecraft_proxy::proxy::error::Error;
use minecraft_proxy::proxy::relay::{end_on_write_failure, pump, relay, Relay};
use minecraft_proxy::proxy::session::{handle_connection, interpret, relay_both};

fn handshake(intent: i32) -> Packet {
    let mut data = Vec::new();
    VarInt::new(772).encode(&mut data).unwrap();
    "localhost".encode(&mut data).unwrap();
    25565u16.encode(&mut data).unwrap();
    VarInt::new(intent).encode(&mut data).unwrap();
    Packet::new(0x00, &data)
}

fn hello() -> Packet {
    let mut data = Vec::new();
    Hello { name: "Steve".to_owned(), uuid: Uuid(7) }.encode(&mut data).unwrap();
    Packet::new(0x00, &data)
}

fn login_compression(size: i32) -> Packet {
    let mut data = Vec::new();
    LoginCompression { size }.encode(&mut data).unwrap();
    Packet::new(0x03, &data)
}

fn status_response(text: &str) -> Packet {
    let mut data = Vec::new();
    text.encode(&mut data).unwrap();
    Packet::new(0x00, &data)
}

fn copy(packet: &Packet) -> Packet {
    Packet::new(packet.id, &packet.data)
}

/// What went to one end: each packet with the framing it was sent in.
type Sent = Vec<(i32, Vec<u8>, Option<usize>)>;

/// Runs the packets of a scripted client and a scripted server through the
/// state machine, as a proxy does that reads whichever end is due.
fn run(
    state: &mut ConnectionState,
    client: Vec<Packet>,
    server: Vec<Packet>,
) -> (Sent, Sent, Result<(), Error>) {
    let mut client: VecDeque<Packet> = client.into();
    let mut server: VecDeque<Packet> = server.into();
    let mut to_client = Vec::new();
    let mut to_server = Vec::new();
    while let Some(peer) = state.source() {
        let packet = match peer {
            Peer::Client => client.pop_front(),
            Peer::Server => server.pop_front(),
        };
        let Some(packet) = packet else {
            break;
        };
        let reaction = handle_packet(state, packet);
        if let Some(forward) = reaction.forward {
            let sent = (forward.packet.id, forward.packet.data, forward.min_compression);
            match forward.to {
                Peer::Client => to_client.push(sent),
                Peer::Server => to_server.push(sent),
            }
        }
        if let Err(err) = reaction.result {
            return (to_client, to_server, Err(err));
        }
    }
    (to_client, to_server, Ok(()))
}

#[test]
fn a_connection_starts_with_the_handshake_and_no_compression() {
    let state = ConnectionState::new();
    assert_eq!(state.stage, ConnectionStage::Handshake);
    assert_eq!(state.packet_min_compression, None);
    assert_eq!(state.source(), Some(Peer::Client));
}

#[test]
fn the_intent_of_the_handshake_decides_the_stage() {
    for (intent, stage) in [
        (1, ConnectionStage::Status(StatusStep::Request)),
        (2, ConnectionStage::Login(LoginStep::Hello)),
        (3, ConnectionStage::Login(LoginStep::Hello)),
    ] {
        let mut state = ConnectionState::new();
        let packet = handshake(intent);
        let reaction = handle_handshake(&mut state, copy(&packet));
        assert!(reaction.result.is_ok());
        let forward = reaction.forward.unwrap();
        assert_eq!(forward.to, Peer::Server);
        assert_eq!(forward.packet.id, packet.id);
        assert_eq!(forward.packet.data, packet.data);
        assert_eq!(forward.min_compression, None);
        assert_eq!(state.stage, stage);
        assert_eq!(state.source(), Some(Peer::Client));
    }
}

#[test]
fn a_handshake_that_cannot_be_read_is_passed_on_and_ends_the_connection() {
    let mut state = ConnectionState::new();
    let reaction = handle_packet(&mut state, Packet::new(0, &[0x01]));
    assert!(matches!(reaction.result, Err(Error::Decode(_))));
    let forward = reaction.forward.unwrap();
    assert_eq!(forward.to, Peer::Server);
    assert_eq!(forward.packet.data, vec![0x01]);
    assert_eq!(state, ConnectionState::new());

    let mut state = ConnectionState::new();
    let reaction = handle_packet(&mut state, handshake(9));
    match reaction.result {
        Err(Error::Decode(DecodeError::Context { context, .. })) => {
            assert_eq!(context, "Failed to decode intent");
        }
        other => panic!("{other:?}"),
    }
}

#[test]
fn a_status_exchange_forwards_four_packets_and_marks_one() {
    let mut state = ConnectionState::new();
    let request = Packet::new(0x00, &[]);
    let ping = Packet::new(0x01, &[0, 0, 0, 0, 0, 0, 0x30, 0x39]);
    let response = status_response(r#"{"version":{"name":"1.21.8"},"players":{"max":20}}"#);
    let pong = copy(&ping);
    let (to_client, to_server, result) = run(
        &mut state,
        vec![handshake(1), copy(&request), copy(&ping)],
        vec![copy(&response), copy(&pong)],
    );
    assert!(result.is_ok());
    assert_eq!(state.stage, ConnectionStage::End);
    assert_eq!(state.source(), None);
    assert_eq!(state.packet_min_compression, None);

    // the handshake, and then four packets of the exchange
    assert_eq!(to_server.len(), 3);
    assert_eq!(to_client.len(), 2);
    assert_eq!(to_server[0].1, handshake(1).data);
    assert_eq!(to_server[1], (request.id, request.data, None));
    assert_eq!(to_server[2], (ping.id, ping.data, None));
    assert_eq!(to_client[1], (pong.id, pong.data, None));

    assert_eq!(to_client[0].0, 0x00);
    assert_ne!(to_client[0].1, response.data);
    let mut marked = Vec::new();
    r##"{"version":{"name":"1.21.8"},"players":{"max":20},"description":{"text":"proxied by minecraft-rs 🦀","color":"#d34516"}}"##
        .encode(&mut marked)
        .unwrap();
    assert_eq!(to_client[0].1, marked);
}

#[test]
fn the_status_stage_reads_client_and_server_in_turn() {
    let mut state = ConnectionState::new();
    handle_packet(&mut state, handshake(1));
    let mut sources = Vec::new();
    let packets = [
        Packet::new(0, &[]),
        status_response("{}"),
        Packet::new(1, &[1]),
        Packet::new(1, &[1]),
    ];
    for packet in packets {
        sources.push(state.source());
        assert!(handle_packet(&mut state, packet).result.is_ok());
    }
    assert_eq!(
        sources,
        vec![Some(Peer::Client), Some(Peer::Server), Some(Peer::Client), Some(Peer::Server)]
    );
    assert_eq!(state.stage, ConnectionStage::End);
}

#[test]
fn a_status_response_that_is_no_json_goes_nowhere() {
    let mut state = ConnectionState {
        stage: ConnectionStage::Status(StatusStep::Response),
        packet_min_compression: None,
    };
    let before = state;
    let reaction = handle_status(&mut state, StatusStep::Response, status_response("nope"));
    assert!(reaction.forward.is_none());
    assert!(matches!(reaction.result, Err(Error::Decode(DecodeError::Custom { .. }))));
    assert_eq!(state, before);
}

#[test]
fn login_compression_switches_the_framing_of_what_follows() {
    let mut state = ConnectionState::new();
    let (to_client, to_server, result) = run(
        &mut state,
        vec![handshake(2), hello(), Packet::new(0x03, &[])],
        vec![login_compression(256), Packet::new(0x02, &[1, 2, 3])],
    );
    assert!(result.is_ok());
    assert_eq!(state.stage, ConnectionStage::Configuration);
    assert_eq!(state.packet_min_compression, Some(256));
    assert_eq!(state.source(), None);

    // the handshake and the hello go out before compression is on
    assert_eq!(to_server[0].2, None);
    assert_eq!(to_server[1].2, None);
    // the message that turns compression on is itself framed without
    assert_eq!(to_client[0], (0x03, login_compression(256).data, None));
    // every frame after it is compressed, in both directions
    assert_eq!(to_client[1], (0x02, vec![1, 2, 3], Some(256)));
    assert_eq!(to_server[2], (0x03, vec![], Some(256)));
}

#[test]
fn login_compression_below_zero_turns_compression_off() {
    let mut state = ConnectionState {
        stage: ConnectionStage::Login(LoginStep::Server),
        packet_min_compression: Some(64),
    };
    let reaction = handle_login(&mut state, LoginStep::Server, login_compression(-1));
    assert!(reaction.result.is_ok());
    assert_eq!(reaction.forward.unwrap().min_compression, Some(64));
    assert_eq!(state.packet_min_compression, None);
    assert_eq!(state.stage, ConnectionStage::Login(LoginStep::Server));

    let reaction = handle_login(&mut state, LoginStep::Server, login_compression(0));
    assert!(reaction.result.is_ok());
    assert_eq!(reaction.forward.unwrap().min_compression, None);
    assert_eq!(state.packet_min_compression, Some(0));
}

#[test]
fn the_login_packets_of_the_server_decide_what_comes_next() {
    for (id, stage, source) in [
        (0x00, ConnectionStage::End, None),
        (0x01, ConnectionStage::Login(LoginStep::Answer), Some(Peer::Client)),
        (0x02, ConnectionStage::Login(LoginStep::Acknowledged), Some(Peer::Client)),
        (0x04, ConnectionStage::Login(LoginStep::Answer), Some(Peer::Client)),
        (0x05, ConnectionStage::Login(LoginStep::Answer), Some(Peer::Client)),
    ] {
        let mut state = ConnectionState {
            stage: ConnectionStage::Login(LoginStep::Server),
            packet_min_compression: Some(10),
        };
        assert_eq!(state.source(), Some(Peer::Server));
        let reaction = handle_packet(&mut state, Packet::new(id, &[4, 5]));
        assert!(reaction.result.is_ok());
        let forward = reaction.forward.unwrap();
        assert_eq!(forward.to, Peer::Client);
        assert_eq!(forward.packet.data, vec![4, 5]);
        assert_eq!(forward.min_compression, Some(10));
        assert_eq!(state.stage, stage);
        assert_eq!(state.source(), source);
        assert_eq!(state.packet_min_compression, Some(10));
    }
}

#[test]
fn an_answer_of_the_client_leads_back_to_the_server() {
    let mut state = ConnectionState {
        stage: ConnectionStage::Login(LoginStep::Answer),
        packet_min_compression: None,
    };
    let reaction = handle_packet(&mut state, Packet::new(0x01, &[1]));
    assert_eq!(reaction.forward.unwrap().to, Peer::Server);
    assert_eq!(state.stage, ConnectionStage::Login(LoginStep::Server));
}

#[test]
fn an_unknown_login_packet_is_passed_on_and_ends_the_connection() {
    for id in [0x06, 0x7F, -1, i32::MAX] {
        let mut state = ConnectionState {
            stage: ConnectionStage::Login(LoginStep::Server),
            packet_min_compression: None,
        };
        let reaction = handle_packet(&mut state, Packet::new(id, &[1]));
        assert!(matches!(reaction.result, Err(Error::UnknownPacketId(found)) if found == id));
        assert_eq!(reaction.forward.unwrap().to, Peer::Client);
        assert_eq!(state.stage, ConnectionStage::Login(LoginStep::Server));
    }
}

#[test]
fn a_hello_that_cannot_be_read_is_passed_on_and_ends_the_connection() {
    let mut state = ConnectionState {
        stage: ConnectionStage::Login(LoginStep::Hello),
        packet_min_compression: None,
    };
    let reaction = handle_packet(&mut state, Packet::new(0, &[5, b'S']));
    assert!(matches!(reaction.result, Err(Error::Decode(_))));
    assert_eq!(reaction.forward.unwrap().to, Peer::Server);
    assert_eq!(state.stage, ConnectionStage::Login(LoginStep::Hello));
}

#[test]
fn a_compression_message_that_cannot_be_read_ends_the_connection() {
    let mut state = ConnectionState {
        stage: ConnectionStage::Login(LoginStep::Server),
        packet_min_compression: None,
    };
    let reaction = handle_packet(&mut state, Packet::new(0x03, &[0x80]));
    assert!(matches!(reaction.result, Err(Error::Decode(_))));
    assert!(reaction.forward.is_some());
    assert_eq!(state.packet_min_compression, None);
}

#[test]
fn a_login_with_encryption_and_queries() {
    let mut state = ConnectionState::new();
    let (to_client, to_server, result) = run(
        &mut state,
        vec![
            handshake(3),
            hello(),
            Packet::new(0x01, &[9; 128]),
            Packet::new(0x02, &[1]),
            Packet::new(0x04, &[]),
            Packet::new(0x03, &[]),
        ],
        vec![
            Packet::new(0x01, &[8; 64]),
            Packet::new(0x04, &[7]),
            Packet::new(0x05, &[6]),
            login_compression(1),
            Packet::new(0x02, &[5]),
        ],
    );
    assert!(result.is_ok());
    assert_eq!(state.stage, ConnectionStage::Configuration);
    assert_eq!(to_server.len(), 6);
    assert_eq!(to_client.len(), 5);
    let ids: Vec<i32> = to_client.iter().map(|sent| sent.0).collect();
    assert_eq!(ids, vec![0x01, 0x04, 0x05, 0x03, 0x02]);
    let modes: Vec<Option<usize>> = to_client.iter().map(|sent| sent.2).collect();
    assert_eq!(modes, vec![None, None, None, None, Some(1)]);
    assert_eq!(to_server[5], (0x03, vec![], Some(1)));
}

#[test]
fn a_login_disconnect_ends_the_connection() {
    let mut state = ConnectionState::new();
    let (to_client, _, result) = run(
        &mut state,
        vec![handshake(2), hello()],
        vec![Packet::new(0x00, b"\"bye\"")],
    );
    assert!(result.is_ok());
    assert_eq!(state.stage, ConnectionStage::End);
    assert_eq!(to_client.len(), 1);
}

#[test]
fn the_stages_of_the_relay_take_no_packets() {
    for stage in [ConnectionStage::Configuration, ConnectionStage::Play, ConnectionStage::End] {
        let mut state = ConnectionState { stage, packet_min_compression: Some(3) };
        assert_eq!(state.source(), None);
        let reaction = handle_packet(&mut state, Packet::new(1, &[1]));
        assert!(reaction.forward.is_none());
        assert!(reaction.result.is_ok());
        assert_eq!(state, ConnectionState { stage, packet_min_compression: Some(3) });
    }
}

fn frames(packets: &[Packet], mode: Option<usize>) -> Vec<u8> {
    let mut bytes = Vec::new();
    for packet in packets {
        bytes.write_packet(packet, mode).unwrap();
    }
    bytes
}

#[test]
fn the_relay_passes_frames_on_in_their_order() {
    let packets = [
        Packet::new(0x10, &[1, 2, 3]),
        Packet::new(0x11, &[]),
        Packet::new(0x12, &[0xAA; 1000]),
    ];
    for mode in [None, Some(0), Some(256), Some(100_000)] {
        let input = frames(&packets, mode);
        let mut client_in = input.as_slice();
        let mut server_in = [0xEEu8].as_slice();
        let mut client_out = vec![1];
        let mut server_out = vec![2];
        let result = relay(
            Relay::ClientToServer,
            &mut client_in,
            &mut server_in,
            &mut client_out,
            &mut server_out,
            mode,
        );
        assert!(result.is_ok());
        assert!(client_in.is_empty());
        assert_eq!(server_in, [0xEE].as_slice());
        assert_eq!(client_out, vec![1]);

        let mut sent = &server_out[1..];
        for packet in &packets {
            let read = sent.read_packet(mode.is_some()).unwrap();
            assert_eq!((read.id, &read.data), (packet.id, &packet.data));
        }
        assert!(sent.is_empty());
        // byte for byte, with compression too
        assert_eq!(&server_out[1..], input.as_slice());
    }
}

#[test]
fn the_relay_of_the_other_direction() {
    let input = frames(&[Packet::new(1, &[1])], None);
    let mut client_in = [].as_slice();
    let mut server_in = input.as_slice();
    let mut client_out = Vec::new();
    let mut server_out = Vec::new();
    relay(
        Relay::ServerToClient,
        &mut client_in,
        &mut server_in,
        &mut client_out,
        &mut server_out,
        None,
    )
    .unwrap();
    assert_eq!(client_out, vec![0x02, 0x01, 0x01]);
    assert!(server_out.is_empty());
    assert!(server_in.is_empty());
}

#[test]
fn the_relay_ends_at_once_on_no_input() {
    let mut from = [].as_slice();
    let mut to = vec![5];
    assert!(pump(&mut from, &mut to, Some(1)).is_ok());
    assert_eq!(to, vec![5]);
}

#[test]
fn the_relay_stops_at_a_frame_that_cannot_be_read() {
    let mut input = frames(&[Packet::new(1, &[1]), Packet::new(2, &[2])], None);
    input.extend_from_slice(&[0x05, 0x00]);
    let mut from = input.as_slice();
    let mut to = Vec::new();
    let result = pump(&mut from, &mut to, None);
    assert!(matches!(result, Err(Error::Decode(DecodeError::UnexpectedEnd))));
    assert_eq!(to, vec![0x02, 0x01, 0x01, 0x02, 0x02, 0x02]);
    assert_eq!(from, [0x05, 0x00].as_slice());
}

#[test]
fn a_proxied_status_connection_end_to_end() {
    // what the client writes to the proxy, and what the server writes
    let long_ping: Vec<u8> = 0x0123_4567_89AB_CDEFu64.to_be_bytes().to_vec();
    let client_packets = [handshake(1), Packet::new(0x00, &[]), Packet::new(0x01, &long_ping)];
    let server_packets = [
        status_response(r#"{"version":{"name":"1.21.8","protocol":772},"players":{"max":69,"online":42}}"#),
        Packet::new(0x01, &long_ping),
    ];
    let client_bytes = frames(&client_packets, None);
    let server_bytes = frames(&server_packets, None);

    let mut client_in = client_bytes.as_slice();
    let mut server_in = server_bytes.as_slice();
    let mut client_out: Vec<u8> = Vec::new();
    let mut server_out: Vec<u8> = Vec::new();

    let mut state = ConnectionState::new();
    while let Some(peer) = state.source() {
        let compressed = state.packet_min_compression.is_some();
        let packet = match peer {
            Peer::Client => client_in.read_packet(compressed).unwrap(),
            Peer::Server => server_in.read_packet(compressed).unwrap(),
        };
        let reaction = handle_packet(&mut state, packet);
        if let Some(forward) = reaction.forward {
            match forward.to {
                Peer::Client => client_out.write_packet(&forward.packet, forward.min_compression),
                Peer::Server => server_out.write_packet(&forward.packet, forward.min_compression),
            }
            .unwrap();
        }
        reaction.result.unwrap();
    }
    assert_eq!(state.stage, ConnectionStage::End);
    assert!(client_in.is_empty());
    assert!(server_in.is_empty());

    // both relays have nothing left to do, and say so
    for direction in [Relay::ClientToServer, Relay::ServerToClient] {
        assert!(relay(
            direction,
            &mut client_in,
            &mut server_in,
            &mut client_out,
            &mut server_out,
            state.packet_min_compression,
        )
        .is_ok());
    }

    // the server saw what the client sent
    assert_eq!(server_out, client_bytes);

    // the client sees the status with the marker, then the pong as it was
    let mut marked = Vec::new();
    r##"{"version":{"name":"1.21.8","protocol":772},"players":{"max":69,"online":42},"description":{"text":"proxied by minecraft-rs 🦀","color":"#d34516"}}"##
        .encode(&mut marked)
        .unwrap();
    let mut expected = frames(&[Packet::new(0x00, &marked)], None);
    let pong = frames(&[Packet::new(0x01, &long_ping)], None);
    expected.extend_from_slice(&pong);
    assert_eq!(client_out, expected);
    assert_eq!(
        &client_out[client_out.len() - pong.len()..],
        &server_bytes[server_bytes.len() - pong.len()..]
    );
}

#[test]
fn a_proxied_login_goes_on_in_the_relay_with_compression() {
    let client_packets_plain = [handshake(2), hello()];
    let client_packets_compressed = [
        Packet::new(0x03, &[]),
        Packet::new(0x07, &[1; 700]),
        Packet::new(0x08, &[2]),
    ];
    let server_plain = [login_compression(256)];
    let server_compressed = [Packet::new(0x02, &[3; 300]), Packet::new(0x20, &[4; 900])];

    let mut client_bytes = frames(&client_packets_plain, None);
    client_bytes.extend(frames(&client_packets_compressed, Some(256)));
    let mut server_bytes = frames(&server_plain, None);
    server_bytes.extend(frames(&server_compressed, Some(256)));

    let mut client_in = client_bytes.as_slice();
    let mut server_in = server_bytes.as_slice();
    let mut client_out: Vec<u8> = Vec::new();
    let mut server_out: Vec<u8> = Vec::new();

    let mut state = ConnectionState::new();
    while let Some(peer) = state.source() {
        let compressed = state.packet_min_compression.is_some();
        let packet = match peer {
            Peer::Client => client_in.read_packet(compressed).unwrap(),
            Peer::Server => server_in.read_packet(compressed).unwrap(),
        };
        let reaction = handle_packet(&mut state, packet);
        let forward = reaction.forward.unwrap();
        match forward.to {
            Peer::Client => client_out.write_packet(&forward.packet, forward.min_compression),
            Peer::Server => server_out.write_packet(&forward.packet, forward.min_compression),
        }
        .unwrap();
        reaction.result.unwrap();
    }
    assert_eq!(state.stage, ConnectionStage::Configuration);
    assert_eq!(state.packet_min_compression, Some(256));
    for direction in [Relay::ClientToServer, Relay::ServerToClient] {
        relay(
            direction,
            &mut client_in,
            &mut server_in,
            &mut client_out,
            &mut server_out,
            state.packet_min_compression,
        )
        .unwrap();
    }
    assert!(client_in.is_empty());
    assert!(server_in.is_empty());

    let mut seen = Vec::new();
    let mut sent = server_out.as_slice();
    for compressed in [false, false, true, true, true] {
        let packet = sent.read_packet(compressed).unwrap();
        seen.push((packet.id, packet.data.len()));
    }
    assert!(sent.is_empty());
    assert_eq!(seen, vec![(0, 15), (0, 22), (0x03, 0), (0x07, 700), (0x08, 1)]);

    let mut seen = Vec::new();
    let mut sent = client_out.as_slice();
    for compressed in [false, true, true] {
        let packet = sent.read_packet(compressed).unwrap();
        seen.push((packet.id, packet.data.len()));
    }
    assert!(sent.is_empty());
    assert_eq!(seen, vec![(0x03, 2), (0x02, 300), (0x20, 900)]);
}

#[test]
fn handle_connection_takes_a_status_exchange_from_end_to_end() {
    let long_ping: Vec<u8> = 0x0123_4567_89AB_CDEFu64.to_be_bytes().to_vec();
    let client_bytes = frames(
        &[handshake(1), Packet::new(0x00, &[]), Packet::new(0x01, &long_ping)],
        None,
    );
    let server_bytes = frames(
        &[
            status_response(r#"{"version":{"name":"1.21.8","protocol":772},"players":{"max":69,"online":42}}"#),
            Packet::new(0x01, &long_ping),
        ],
        None,
    );
    let mut client_in = client_bytes.as_slice();
    let mut server_in = server_bytes.as_slice();
    let mut client_out = Vec::new();
    let mut server_out = Vec::new();
    handle_connection(&mut client_in, &mut server_in, &mut client_out, &mut server_out).unwrap();
    assert!(client_in.is_empty());
    assert!(server_in.is_empty());
    assert_eq!(server_out, client_bytes);

    let mut marked = Vec::new();
    r##"{"version":{"name":"1.21.8","protocol":772},"players":{"max":69,"online":42},"description":{"text":"proxied by minecraft-rs 🦀","color":"#d34516"}}"##
        .encode(&mut marked)
        .unwrap();
    let mut expected = frames(&[Packet::new(0x00, &marked)], None);
    expected.extend(frames(&[Packet::new(0x01, &long_ping)], None));
    assert_eq!(client_out, expected);
}

#[test]
fn handle_connection_stops_after_the_status_exchange() {
    let mut client_bytes = frames(
        &[handshake(1), Packet::new(0x00, &[]), Packet::new(0x01, &[1])],
        None,
    );
    client_bytes.extend_from_slice(&[0x01, 0x09]);
    let server_bytes = frames(&[status_response("{}"), Packet::new(0x01, &[1])], None);
    let mut client_in = client_bytes.as_slice();
    let mut server_in = server_bytes.as_slice();
    let mut client_out = Vec::new();
    let mut server_out = Vec::new();
    handle_connection(&mut client_in, &mut server_in, &mut client_out, &mut server_out).unwrap();
    // what follows the exchange is not read
    assert_eq!(client_in, [0x01, 0x09].as_slice());
    assert_eq!(server_out, &client_bytes[..client_bytes.len() - 2]);
}

#[test]
fn handle_connection_relays_after_login() {
    let mut client_bytes = frames(&[handshake(2), hello()], None);
    client_bytes.extend(frames(
        &[Packet::new(0x03, &[]), Packet::new(0x07, &[1; 700]), Packet::new(0x08, &[2])],
        Some(256),
    ));
    let mut server_bytes = frames(&[login_compression(256)], None);
    server_bytes.extend(frames(
        &[Packet::new(0x02, &[3; 300]), Packet::new(0x20, &[4; 900])],
        Some(256),
    ));
    let mut client_in = client_bytes.as_slice();
    let mut server_in = server_bytes.as_slice();
    let mut client_out = Vec::new();
    let mut server_out = Vec::new();
    handle_connection(&mut client_in, &mut server_in, &mut client_out, &mut server_out).unwrap();
    assert!(client_in.is_empty());
    assert!(server_in.is_empty());
    // every frame arrives as it was sent, the compressed ones too
    assert_eq!(server_out, client_bytes);
    assert_eq!(client_out, server_bytes);
}

#[test]
fn handle_connection_reports_what_ends_it() {
    let client_bytes = frames(&[handshake(2), hello()], None);
    let server_bytes = frames(&[Packet::new(0x17, &[1])], None);
    let mut client_in = client_bytes.as_slice();
    let mut server_in = server_bytes.as_slice();
    let mut client_out = Vec::new();
    let mut server_out = Vec::new();
    let result =
        handle_connection(&mut client_in, &mut server_in, &mut client_out, &mut server_out);
    assert!(matches!(result, Err(Error::UnknownPacketId(0x17))));
    // the packet was passed on before the proxy gave up
    assert_eq!(client_out, server_bytes);
    assert_eq!(server_out, client_bytes);

    let mut client_in = [0x05, 0x00].as_slice();
    let mut server_in = [].as_slice();
    let result =
        handle_connection(&mut client_in, &mut server_in, &mut client_out, &mut server_out);
    assert!(matches!(result, Err(Error::Decode(DecodeError::UnexpectedEnd))));
    assert_eq!(client_in, [0x05, 0x00].as_slice());
}

#[test]
fn interpret_goes_on_from_a_state() {
    let mut state = ConnectionState {
        stage: ConnectionStage::Login(LoginStep::Server),
        packet_min_compression: None,
    };
    let client_bytes = frames(&[Packet::new(0x03, &[])], Some(0));
    let mut server_bytes = frames(&[login_compression(0)], None);
    server_bytes.extend(frames(&[Packet::new(0x02, &[9])], Some(0)));
    let mut client_in = client_bytes.as_slice();
    let mut server_in = server_bytes.as_slice();
    let mut client_out = Vec::new();
    let mut server_out = Vec::new();
    interpret(&mut state, &mut client_in, &mut server_in, &mut client_out, &mut server_out)
        .unwrap();
    assert_eq!(state.stage, ConnectionStage::Configuration);
    assert_eq!(state.packet_min_compression, Some(0));
    assert_eq!(client_out, server_bytes);
    assert_eq!(server_out, client_bytes);
}

#[test]
fn relay_both_runs_both_directions_whatever_one_does() {
    let state = ConnectionState { stage: ConnectionStage::Play, packet_min_compression: None };
    let client_bytes = [0x05, 0x00];
    let server_bytes = frames(&[Packet::new(1, &[1])], None);
    let mut client_in = client_bytes.as_slice();
    let mut server_in = server_bytes.as_slice();
    let mut client_out = Vec::new();
    let mut server_out = Vec::new();
    let result =
        relay_both(&state, &mut client_in, &mut server_in, &mut client_out, &mut server_out);
    assert!(matches!(result, Err(Error::Decode(DecodeError::UnexpectedEnd))));
    assert_eq!(client_in, client_bytes.as_slice());
    assert!(server_out.is_empty());
    assert!(server_in.is_empty());
    assert_eq!(client_out, server_bytes);
}

#[test]
fn a_write_to_a_peer_that_has_gone_ends_the_relay_without_error() {
    let gone = std::io::Error::new(std::io::ErrorKind::BrokenPipe, "pipe");
    assert!(end_on_write_failure(EncodeError::Io(gone)).is_ok());

    let gone = std::io::Error::new(std::io::ErrorKind::BrokenPipe, "pipe");
    let noted = EncodeError::Io(gone).context("Failed to write packet");
    assert!(end_on_write_failure(noted).is_ok());
}

#[test]
fn any_other_failed_write_fails_the_relay() {
    let reset = std::io::Error::new(std::io::ErrorKind::ConnectionReset, "reset");
    match end_on_write_failure(EncodeError::Io(reset)) {
        Err(Error::Encode(EncodeError::Io(err))) => {
            assert_eq!(err.kind(), std::io::ErrorKind::ConnectionReset);
        }
        other => panic!("{other:?}"),
    }
    let eof = std::io::Error::new(std::io::ErrorKind::UnexpectedEof, "eof");
    assert!(end_on_write_failure(EncodeError::Io(eof)).is_err());
    let custom = EncodeError::Custom {
        message: "Length exceeds maximum VarInt value".to_owned(),
    };
    match end_on_write_failure(custom) {
        Err(Error::Encode(EncodeError::Custom { message })) => {
            assert_eq!(message, "Length exceeds maximum VarInt value");
        }
        other => panic!("{other:?}"),
    }
}
