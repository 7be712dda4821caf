use vstd::prelude::*;
use vstd::string::StringExecFns;

use crate::codec::enc::{noted_wire, Encode, EncodeErrorContext};
use crate::codec::json_value::{
    items_view, json_wire, members_view, Json, JsonNumber, JsonView,
};
use crate::codec::{uuid_text, Uuid};
use crate::data::packet::{parse_frame, Packet, PacketView};
use crate::server::error::{Error, Fault};

verus! {

/// A whole number as JSON.
pub open spec fn whole(value: u64) -> JsonView {
    JsonView::Number(JsonNumber { positive: true, mantissa: value, exponent: 0 })
}

/// A player of the sample, who has no identity.
pub open spec fn sample_player(name: Seq<char>) -> JsonView {
    JsonView::Object(
        seq![("id"@, JsonView::String(uuid_text(0))), ("name"@, JsonView::String(name))],
    )
}

/// The status that the server reports.
pub open spec fn status_payload() -> JsonView {
    JsonView::Object(
        seq![
            (
                "version"@,
                JsonView::Object(
                    seq![("name"@, JsonView::String("1.21.8"@)), ("protocol"@, whole(772))],
                ),
            ),
            (
                "players"@,
                JsonView::Object(
                    seq![
                        ("max"@, whole(69)),
                        ("online"@, whole(42)),
                        (
                            "sample"@,
                            JsonView::Array(
                                seq![
                                    sample_player("Player 0"@),
                                    sample_player("Player 1"@),
                                    sample_player("Player 2"@),
                                ],
                            ),
                        ),
                    ],
                ),
            ),
            (
                "description"@,
                JsonView::Object(
                    seq![
                        ("text"@, JsonView::String("minecraft-rs server 🦀"@)),
                        ("color"@, JsonView::String("#d34516"@)),
                    ],
                ),
            ),
        ],
    )
}

/// A player of the sample.
fn player(name: &str) -> (r: Json)
    ensures
        r@ == sample_player(name@),
{
    let mut members: Vec<(String, Json)> = Vec::new();
    members.push(Json::member("id", Json::String(Uuid::null().to_string())));
    members.push(Json::member("name", Json::string(name)));
    proof {
        assert(members_view(members@) == sample_player(name@)->Object_0);
    }
    Json::object(members)
}

/// The status that the server reports.
pub fn status() -> (r: Json)
    ensures
        r@ == status_payload(),
{
    let mut members: Vec<(String, Json)> = Vec::new();
    members.push(Json::member("name", Json::string("1.21.8")));
    members.push(Json::member("protocol", Json::number(772)));
    proof {
        assert(members_view(members@) == seq![
            ("name"@, JsonView::String("1.21.8"@)),
            ("protocol"@, whole(772)),
        ]);
    }
    let version = Json::object(members);

    let mut items: Vec<Json> = Vec::new();
    items.push(player("Player 0"));
    items.push(player("Player 1"));
    items.push(player("Player 2"));
    proof {
        assert(items_view(items@) == seq![
            sample_player("Player 0"@),
            sample_player("Player 1"@),
            sample_player("Player 2"@),
        ]);
    }
    let sample = Json::array(items);

    let mut members: Vec<(String, Json)> = Vec::new();
    members.push(Json::member("max", Json::number(69)));
    members.push(Json::member("online", Json::number(42)));
    members.push(Json::member("sample", sample));
    proof {
        assert(members_view(members@) == seq![
            ("max"@, whole(69)),
            ("online"@, whole(42)),
            ("sample"@, sample@),
        ]);
    }
    let players = Json::object(members);

    let mut members: Vec<(String, Json)> = Vec::new();
    members.push(Json::member("text", Json::string("minecraft-rs server 🦀")));
    members.push(Json::member("color", Json::string("#d34516")));
    proof {
        assert(members_view(members@) == seq![
            ("text"@, JsonView::String("minecraft-rs server 🦀"@)),
            ("color"@, JsonView::String("#d34516"@)),
        ]);
    }
    let description = Json::object(members);

    let mut members: Vec<(String, Json)> = Vec::new();
    members.push(Json::member("version", version));
    members.push(Json::member("players", players));
    members.push(Json::member("description", description));
    proof {
        assert(members_view(members@) == seq![
            ("version"@, version@),
            ("players"@, players@),
            ("description"@, description@),
        ]);
    }
    Json::object(members)
}

/// What the server answers a status request with: a packet with the id 0
/// that holds its status. A request that holds data is rejected.
pub open spec fn status_answer(packet: PacketView) -> Result<PacketView, Fault> {
    if packet.data.len() != 0 {
        Err(Fault::InvalidPacketData { context: "status_request packet data should be empty"@ })
    } else {
        match noted_wire(json_wire(status_payload()), "Failed to encode status response"@) {
            Ok(data) => Ok(PacketView { id: 0x00, data }),
            Err(fault) => Err(Fault::Encode(fault)),
        }
    }
}

/// Answers a status request.
pub fn handle_status_request(packet: &Packet) -> (r: Result<Packet, Error>)
    ensures
        match status_answer(packet@) {
            Ok(answer) => r matches Ok(found) && found@ == answer,
            Err(fault) => r matches Err(e) && e@ == fault,
        },
{
    if packet.data.len() != 0 {
        return Err(
            Error::InvalidPacketData {
                context: String::from_str("status_request packet data should be empty"),
            },
        );
    }
    let payload = status();

    let mut data: Vec<u8> = Vec::new();
    match payload.encode(&mut data).err_context("Failed to encode status response") {
        Ok(_) => {
            assert(data@ == json_wire(payload@)->Ok_0);
            Ok(Packet::new(0x00, data.as_slice()))
        },
        Err(err) => Err(Error::Encode(err)),
    }
}

/// Answers a ping: the pong has the id and the payload of the ping.
pub fn handle_ping_request(packet: &Packet) -> (r: Packet)
    ensures
        r@ == packet@,
{
    Packet::new(packet.id, packet.data.as_slice())
}

/// What a status exchange comes to on a stream that holds the client's two
/// packets: the bytes that the server sends, and the number of bytes that it
/// reads.
pub open spec fn processed(bytes: Seq<u8>) -> Result<(Seq<u8>, nat), Fault> {
    match parse_frame(bytes) {
        Ok((request, n1)) => match status_answer(request) {
            Ok(answer) => match answer.framed() {
                Ok(status) => match parse_frame(bytes.skip(n1 as int)) {
                    Ok((ping, n2)) => match ping.framed() {
                        Ok(pong) => Ok((status + pong, n1 + n2)),
                        Err(fault) => Err(Fault::Encode(fault)),
                    },
                    Err(fault) => Err(Fault::Decode(fault)),
                },
                Err(fault) => Err(Fault::Encode(fault)),
            },
            Err(fault) => Err(fault),
        },
        Err(fault) => Err(Fault::Decode(fault)),
    }
}

/// Takes a client through the status exchange: answers its request and its
/// ping on `out`. On failure `stream` and `out` are as they were.
pub fn process(stream: &mut &[u8], out: &mut Vec<u8>) -> (r: Result<(), Error>)
    ensures
        match processed(old(stream)@) {
            Ok((sent, taken)) => {
                &&& r is Ok
                &&& final(out)@ == old(out)@ + sent
                &&& taken <= old(stream)@.len()
                &&& final(stream)@ == old(stream)@.skip(taken as int)
            },
            Err(fault) => {
                &&& r matches Err(e)
                &&& e@ == fault
                &&& final(out)@ == old(out)@
                &&& final(stream)@ == old(stream)@
            },
        },
{
    let start: &[u8] = *stream;
    let written: usize = out.len();
    let packet = match Packet::read_packet_uncompressed(stream) {
        Ok(packet) => packet,
        Err(err) => {
            return Err(Error::Decode(err));
        },
    };
    let ghost n1 = parse_frame(start@)->Ok_0.1;
    let answer = match handle_status_request(&packet) {
        Ok(answer) => answer,
        Err(err) => {
            *stream = start;
            return Err(err);
        },
    };
    match answer.write_packet_uncompressed(out) {
        Ok(_) => {},
        Err(err) => {
            *stream = start;
            return Err(Error::Encode(err));
        },
    }
    let ghost status = answer@.framed()->Ok_0;
    let packet = match Packet::read_packet_uncompressed(stream) {
        Ok(packet) => packet,
        Err(err) => {
            *stream = start;
            out.truncate(written);
            assert(out@ == old(out)@);
            return Err(Error::Decode(err));
        },
    };
    let ghost n2 = parse_frame(start@.skip(n1 as int))->Ok_0.1;
    assert(start@.skip(n1 as int).skip(n2 as int) == start@.skip((n1 + n2) as int));
    // the pong has the id and the payload of the ping
    let pong = handle_ping_request(&packet);
    match pong.write_packet_uncompressed(out) {
        Ok(_) => {
            proof {
                let echoed = pong@.framed()->Ok_0;
                assert(old(out)@ + status + echoed == old(out)@ + (status + echoed));
            }
            Ok(())
        },
        Err(err) => {
            *stream = start;
            out.truncate(written);
            assert(out@ == old(out)@);
            Err(Error::Encode(err))
        },
    }
}

} // verus!
