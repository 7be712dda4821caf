use vstd::prelude::*;
use vstd::string::StringExecFns;

use crate::codec::dec::Decode;
use crate::codec::enc::{Encode, EncodeErrorContext};
use crate::codec::json_value::{
    find_member, has_key, items_view, json_wire, key_at, lemma_array_view, lemma_key_at,
    lemma_object_view, members_view, Json, JsonView,
};
use crate::data::packet::{Packet, PacketView};
use crate::proxy::error::{Error, Fault};

verus! {

/// The text object that marks a status as proxied, on a line of its own
/// where `fresh_line` says so.
pub open spec fn marker(fresh_line: bool) -> JsonView {
    JsonView::Object(
        seq![
            (
                "text"@,
                JsonView::String(
                    if fresh_line {
                        "\nproxied by minecraft-rs 🦀"@
                    } else {
                        "proxied by minecraft-rs 🦀"@
                    },
                ),
            ),
            ("color"@, JsonView::String("#d34516"@)),
        ],
    )
}

/// The `extra` of a description with the marker added: a list of the marker
/// alone where there was none, the list with the marker at its end where
/// there was one, and anything else as it was.
pub open spec fn extra_marked(extra: JsonView) -> JsonView {
    match extra {
        JsonView::Null => JsonView::Array(seq![marker(true)]),
        JsonView::Array(items) => JsonView::Array(items.push(marker(true))),
        other => other,
    }
}

/// A description with the marker added.
///
/// None: the marker is the description. A string: a text object of that
/// string with the marker as its `extra`. An object: the same object with
/// its `extra` marked. Anything else stays as it was.
pub open spec fn description_marked(description: JsonView) -> JsonView {
    match description {
        JsonView::Null => marker(false),
        JsonView::String(text) => JsonView::Object(
            seq![
                ("text"@, JsonView::String(text)),
                ("extra"@, JsonView::Array(seq![marker(true)])),
            ],
        ),
        JsonView::Object(_) => description.with_member(
            "extra"@,
            extra_marked(description.member("extra"@)),
        ),
        other => other,
    }
}

/// A status response with the marker added to its `description`.
///
/// A response that is no object has no description, and gives way to an
/// object whose one member is the marker as description.
pub open spec fn status_marked(root: JsonView) -> JsonView {
    root.with_member("description"@, description_marked(root.member("description"@)))
}

/// The marker as a value.
fn marker_value(fresh_line: bool) -> (r: Json)
    ensures
        r@ == marker(fresh_line),
{
    let text = if fresh_line {
        String::from_str("\nproxied by minecraft-rs 🦀")
    } else {
        String::from_str("proxied by minecraft-rs 🦀")
    };
    let mut members: Vec<(String, Json)> = Vec::new();
    members.push((String::from_str("text"), Json::String(text)));
    members.push((String::from_str("color"), Json::String(String::from_str("#d34516"))));
    proof {
        lemma_object_view(members);
        assert(members_view(members@) == marker(fresh_line)->Object_0);
    }
    Json::Object(members)
}

/// A list of the marker alone.
fn marker_list() -> (r: Json)
    ensures
        r@ == JsonView::Array(seq![marker(true)]),
{
    let mut items: Vec<Json> = Vec::new();
    items.push(marker_value(true));
    proof {
        lemma_array_view(items);
        assert(items_view(items@) == seq![marker(true)]);
    }
    Json::Array(items)
}

/// Adds the marker to the `extra` of a description.
fn mark_extra(extra: Json) -> (r: Json)
    ensures
        r@ == extra_marked(extra@),
{
    match extra {
        Json::Null => marker_list(),
        Json::Array(mut items) => {
            let ghost before = items;
            items.push(marker_value(true));
            proof {
                lemma_array_view(before);
                lemma_array_view(items);
                assert(items_view(items@) == items_view(before@).push(marker(true)));
            }
            Json::Array(items)
        },
        other => other,
    }
}

/// Takes the first member named `key` out of an object's members, and says
/// where it stood. Where there is none, the members stay and `Null` is
/// returned.
fn take_member(members: &mut Vec<(String, Json)>, key: &str) -> (r: (Option<usize>, String, Json))
    ensures
        r.1@ == key@,
        r.2@ == JsonView::Object(members_view(old(members)@)).member(key@),
        match r.0 {
            Some(at) => {
                &&& key_at(members_view(old(members)@), key@, at as int)
                &&& final(members)@.len() == old(members)@.len() - 1
                &&& members_view(final(members)@) == members_view(old(members)@).remove(at as int)
            },
            None => {
                &&& !has_key(members_view(old(members)@), key@)
                &&& final(members)@ == old(members)@
            },
        },
{
    let ghost before = members_view(members@);
    match find_member(members, key) {
        Some(at) => {
            proof {
                lemma_key_at(before, key@, at as int);
            }
            let (name, value) = members.remove(at);
            proof {
                assert(members_view(members@) =~= before.remove(at as int));
            }
            (Some(at), name, value)
        },
        None => (None, key.to_owned(), Json::Null),
    }
}

/// Puts a member into an object's members: at the place `at`, or at the end
/// where there is no place.
fn put_member(members: &mut Vec<(String, Json)>, at: Option<usize>, name: String, value: Json)
    requires
        at matches Some(place) ==> place <= old(members)@.len(),
    ensures
        members_view(final(members)@) == match at {
            Some(place) => members_view(old(members)@).insert(place as int, (name@, value@)),
            None => members_view(old(members)@).push((name@, value@)),
        },
{
    let ghost before = members_view(members@);
    match at {
        Some(place) => {
            members.insert(place, (name, value));
            proof {
                assert(members_view(members@) =~= before.insert(place as int, (name@, value@)));
            }
        },
        None => {
            members.push((name, value));
            proof {
                assert(members_view(members@) =~= before.push((name@, value@)));
            }
        },
    }
}

/// Taking a member out and putting another in its place sets the member.
proof fn lemma_put_back(
    members: Seq<(Seq<char>, JsonView)>,
    key: Seq<char>,
    at: Option<usize>,
    value: JsonView,
)
    requires
        match at {
            Some(place) => key_at(members, key, place as int),
            None => !has_key(members, key),
        },
    ensures
        JsonView::Object(members).with_member(key, value) == JsonView::Object(
            match at {
                Some(place) => members.remove(place as int).insert(place as int, (key, value)),
                None => members.push((key, value)),
            },
        ),
{
    if let Some(place) = at {
        lemma_key_at(members, key, place as int);
        assert(members.remove(place as int).insert(place as int, (key, value)) =~= members.update(
            place as int,
            (key, value),
        ));
    }
}

/// Adds the marker to a description.
fn mark_description(description: Json) -> (r: Json)
    ensures
        r@ == description_marked(description@),
{
    match description {
        Json::Null => marker_value(false),
        Json::String(text) => {
            let mut members: Vec<(String, Json)> = Vec::new();
            members.push((String::from_str("text"), Json::String(text)));
            members.push((String::from_str("extra"), marker_list()));
            proof {
                lemma_object_view(members);
                assert(members_view(members@) == description_marked(
                    description@,
                )->Object_0);
            }
            Json::Object(members)
        },
        Json::Object(mut members) => {
            let ghost before = members_view(members@);
            proof {
                lemma_object_view(members);
            }
            let (at, name, extra) = take_member(&mut members, "extra");
            let marked = mark_extra(extra);
            put_member(&mut members, at, name, marked);
            proof {
                lemma_put_back(before, "extra"@, at, marked@);
                lemma_object_view(members);
            }
            Json::Object(members)
        },
        other => other,
    }
}

/// Adds the marker to the `description` of a status response.
///
/// A response that is no object has no description, and gives way to an
/// object whose one member is the marker as description.
pub fn mark_status(root: Json) -> (r: Json)
    ensures
        r@ == status_marked(root@),
{
    match root {
        Json::Object(mut members) => {
            let ghost before = members_view(members@);
            proof {
                lemma_object_view(members);
            }
            let (at, name, description) = take_member(&mut members, "description");
            let marked = mark_description(description);
            put_member(&mut members, at, name, marked);
            proof {
                lemma_put_back(before, "description"@, at, marked@);
                lemma_object_view(members);
            }
            Json::Object(members)
        },
        _ => {
            let mut members: Vec<(String, Json)> = Vec::new();
            members.push((String::from_str("description"), marker_value(false)));
            proof {
                lemma_object_view(members);
                assert(members_view(members@) == seq![("description"@, marker(false))]);
            }
            Json::Object(members)
        },
    }
}

/// What the proxy makes of a status response: the packet with the marker
/// added to the description in its payload, or the fault of a payload that
/// is no JSON or of a result that is too long to send.
pub open spec fn status_injected(packet: PacketView) -> Result<PacketView, Fault> {
    match <Json as Decode>::parse(packet.data) {
        Ok((root, _)) => match json_wire(status_marked(root)) {
            Ok(data) => Ok(PacketView { id: packet.id, data }),
            Err(fault) => Err(Fault::Encode(fault.context("Failed to encode status response"@))),
        },
        Err(fault) => Err(Fault::Decode(fault)),
    }
}

/// Adds the marker to the description of a status response packet.
pub fn inject_status_description_message(packet: &Packet) -> (r: Result<Packet, Error>)
    ensures
        match status_injected(packet@) {
            Ok(marked) => r matches Ok(p) && p@ == marked,
            Err(fault) => r matches Err(e) && e@ == fault,
        },
{
    let mut payload: &[u8] = packet.data.as_slice();
    let json_response = match Json::decode(&mut payload) {
        Ok(json) => json,
        Err(err) => {
            return Err(Error::Decode(err));
        },
    };
    let json_response = mark_status(json_response);

    let mut data: Vec<u8> = Vec::new();
    match json_response.encode(&mut data).err_context("Failed to encode status response") {
        Ok(_) => {
            assert(data@ == json_wire(json_response@)->Ok_0);
            Ok(Packet::new(packet.id, data.as_slice()))
        },
        Err(err) => Err(Error::Encode(err)),
    }
}

} // verus!
