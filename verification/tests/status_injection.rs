use minecraft_proxy::codec::dec::{Decode, DecodeError};
use minecraft_proxy::codec::enc::Encode;
use minecraft_proxy::codec::json_value::{
    find_member, has_bounded_digits, Json, JsonNumber, DIGIT_RUN_LIMIT,
};
use minecraft_proxy::data::packet::Packet;
use minecraft_proxy::proxy::error::Error;
use minecraft_proxy::proxy::utils::{inject_status_description_message, mark_status};

const MARKER: &str = "proxied by minecraft-rs 🦀";
const MARKER_LINE: &str = "\nproxied by minecraft-rs 🦀";
const COLOR: &str = "#d34516";

fn status_packet(text: &str) -> Packet {
    let mut data = Vec::new();
    text.encode(&mut data).unwrap();
    Packet::new(0x00, &data)
}

fn injected(text: &str) -> Json {
    let packet = inject_status_description_message(&status_packet(text)).unwrap();
    assert_eq!(packet.id, 0x00);
    let mut reader = packet.data.as_slice();
    let json = Json::decode(&mut reader).unwrap();
    assert!(reader.is_empty());
    json
}

fn injected_text(text: &str) -> String {
    let packet = inject_status_description_message(&status_packet(text)).unwrap();
    let mut reader = packet.data.as_slice();
    String::decode(&mut reader).unwrap()
}

fn get<'a>(json: &'a Json, key: &str) -> &'a Json {
    match json {
        Json::Object(members) => match find_member(members, key) {
            Some(at) => &members[at].1,
            None => &Json::Null,
        },
        _ => &Json::Null,
    }
}

fn text(json: &Json) -> &str {
    match json {
        Json::String(text) => text,
        other => panic!("{other:?}"),
    }
}

fn items(json: &Json) -> &[Json] {
    match json {
        Json::Array(items) => items,
        other => panic!("{other:?}"),
    }
}

fn keys(json: &Json) -> Vec<&str> {
    match json {
        Json::Object(members) => members.iter().map(|(key, _)| key.as_str()).collect(),
        other => panic!("{other:?}"),
    }
}

#[test]
fn a_status_without_description_gets_the_marker() {
    let json = injected(
        r#"{"version":{"name":"1.21.8","protocol":772},"players":{"max":69,"online":42}}"#,
    );
    let description = get(&json, "description");
    assert_eq!(text(get(description, "text")), MARKER);
    assert_eq!(text(get(description, "color")), COLOR);
    assert_eq!(keys(&json), vec!["version", "players", "description"]);
    assert_eq!(keys(description), vec!["text", "color"]);
    assert_eq!(text(get(get(&json, "version"), "name")), "1.21.8");
}

#[test]
fn a_status_with_a_null_description_gets_the_marker_in_its_place() {
    let json = injected(r#"{"description":null,"players":{}}"#);
    assert_eq!(keys(&json), vec!["description", "players"]);
    assert_eq!(text(get(get(&json, "description"), "text")), MARKER);
}

#[test]
fn a_string_description_becomes_a_text_with_the_marker_as_extra() {
    let json = injected(r#"{"description":"Hello"}"#);
    let description = get(&json, "description");
    assert_eq!(keys(description), vec!["text", "extra"]);
    assert_eq!(text(get(description, "text")), "Hello");
    let extra = items(get(description, "extra"));
    assert_eq!(extra.len(), 1);
    assert_eq!(text(get(&extra[0], "text")), MARKER_LINE);
    assert_eq!(text(get(&extra[0], "color")), COLOR);
}

#[test]
fn an_object_description_without_extra_gets_one() {
    let json = injected(r#"{"description":{"text":"x"}}"#);
    let description = get(&json, "description");
    assert_eq!(keys(description), vec!["text", "extra"]);
    assert_eq!(text(get(description, "text")), "x");
    let extra = items(get(description, "extra"));
    assert_eq!(extra.len(), 1);
    assert_eq!(text(get(&extra[0], "text")), MARKER_LINE);
    assert_eq!(text(get(&extra[0], "color")), COLOR);
}

#[test]
fn an_object_description_with_extra_gets_the_marker_at_its_end() {
    let json = injected(r#"{"description":{"text":"x","extra":[{"text":"y"}]}}"#);
    let extra = items(get(get(&json, "description"), "extra"));
    assert_eq!(extra.len(), 2);
    assert_eq!(text(get(&extra[0], "text")), "y");
    assert_eq!(text(get(&extra[1], "text")), MARKER_LINE);
    assert_eq!(text(get(&extra[1], "color")), COLOR);
}

#[test]
fn an_extra_that_is_null_is_replaced_in_its_place() {
    let json = injected(r#"{"description":{"extra":null,"text":"x"}}"#);
    let description = get(&json, "description");
    assert_eq!(keys(description), vec!["extra", "text"]);
    assert_eq!(items(get(description, "extra")).len(), 1);
}

#[test]
fn an_extra_that_is_no_list_stays() {
    for status in [
        r#"{"description":{"text":"x","extra":"y"}}"#,
        r#"{"description":{"text":"x","extra":5}}"#,
        r#"{"description":{"text":"x","extra":{"a":1}}}"#,
        r#"{"description":{"text":"x","extra":true}}"#,
    ] {
        assert_eq!(injected_text(status), status);
    }
}

#[test]
fn a_description_of_another_shape_stays() {
    for status in [
        r#"{"description":5}"#,
        r#"{"description":true}"#,
        r#"{"description":["a","b"]}"#,
        r#"{"a":1,"description":false,"b":2}"#,
    ] {
        assert_eq!(injected_text(status), status);
    }
}

#[test]
fn a_status_that_is_no_object_gives_way_to_the_marker() {
    for status in ["[1,2]", "\"text\"", "5", "null", "true"] {
        assert_eq!(
            injected_text(status),
            r##"{"description":{"text":"proxied by minecraft-rs 🦀","color":"#d34516"}}"##
        );
    }
}

#[test]
fn the_payload_is_written_again_as_the_json_crate_writes_it() {
    assert_eq!(
        injected_text(" { \"description\" : \"Hi\" ,\n \"n\" : [ 1 , 2.5 , -3 , 1e3 ] } "),
        r##"{"description":{"text":"Hi","extra":[{"text":"\nproxied by minecraft-rs 🦀","color":"#d34516"}]},"n":[1,2.5,-3,1000]}"##
    );
}

#[test]
fn the_packet_keeps_its_id() {
    let mut data = Vec::new();
    "{}".encode(&mut data).unwrap();
    let packet = inject_status_description_message(&Packet::new(0x51, &data)).unwrap();
    assert_eq!(packet.id, 0x51);
}

#[test]
fn a_payload_that_is_no_json_is_a_decode_error() {
    match inject_status_description_message(&status_packet("{\"description\":")) {
        Err(Error::Decode(DecodeError::Custom { message })) => {
            assert_eq!(message, "Unexpected end of JSON");
        }
        other => panic!("{other:?}"),
    }
    match inject_status_description_message(&status_packet("{x}")) {
        Err(Error::Decode(DecodeError::Custom { message })) => {
            assert_eq!(message, "Unexpected character: x at (1:2)");
        }
        other => panic!("{other:?}"),
    }
    match inject_status_description_message(&Packet::new(0, &[])) {
        Err(Error::Decode(DecodeError::Context { context, error })) => {
            assert_eq!(context, "Failed to decode json length");
            assert!(matches!(*error, DecodeError::UnexpectedEnd));
        }
        other => panic!("{other:?}"),
    }
    assert!(matches!(
        inject_status_description_message(&Packet::new(0, &[2, 0xC3, 0x28])),
        Err(Error::Decode(DecodeError::InvalidUtf8(_)))
    ));
    assert!(matches!(
        inject_status_description_message(&Packet::new(0, &[5, b'{', b'}'])),
        Err(Error::Decode(DecodeError::UnexpectedEnd))
    ));
}

#[test]
fn mark_status_works_on_values() {
    let marked = mark_status(Json::object(vec![
        Json::member("description", Json::string("Hi")),
    ]));
    assert_eq!(
        marked.dump(),
        r##"{"description":{"text":"Hi","extra":[{"text":"\nproxied by minecraft-rs 🦀","color":"#d34516"}]}}"##
    );
    let marked = mark_status(Json::Null);
    assert_eq!(text(get(get(&marked, "description"), "text")), MARKER);
}

#[test]
fn json_values_are_read_and_written_by_the_json_crate() {
    let json = Json::from_text(r#"{"a":[null,true,"s",12,-1.50],"b":{}}"#).unwrap();
    match get(&json, "a") {
        Json::Array(items) => {
            assert!(matches!(items[0], Json::Null));
            assert!(matches!(items[1], Json::Boolean(true)));
            assert_eq!(text(&items[2]), "s");
            assert!(matches!(
                items[3],
                Json::Number(JsonNumber { positive: true, mantissa: 12, exponent: 0 })
            ));
            assert!(matches!(
                items[4],
                Json::Number(JsonNumber { positive: false, mantissa: 150, exponent: -2 })
            ));
        }
        other => panic!("{other:?}"),
    }
    assert_eq!(json.dump(), r#"{"a":[null,true,"s",12,-1.5],"b":{}}"#);
    assert_eq!(Json::from_text("nul").unwrap_err(), "Unexpected end of JSON");
    assert_eq!(Json::number(772).dump(), "772");
    assert_eq!(Json::string("a\"b").dump(), r#""a\"b""#);
    assert_eq!(
        Json::array(vec![Json::Boolean(false), Json::Null]).dump(),
        "[false,null]"
    );
    assert_eq!(
        JsonNumber::of_parts((false, 5, 1)),
        JsonNumber { positive: false, mantissa: 5, exponent: 1 }
    );
}

#[test]
fn json_wire_form_is_a_length_and_the_text() {
    let mut bytes = Vec::new();
    let json = Json::object(vec![Json::member("a", Json::number(1))]);
    assert_eq!(json.encode(&mut bytes).unwrap(), 8);
    assert_eq!(bytes, [&[7u8][..], br#"{"a":1}"#].concat());
    let mut reader = bytes.as_slice();
    let read = Json::decode(&mut reader).unwrap();
    assert_eq!(read.dump(), r#"{"a":1}"#);
    assert!(reader.is_empty());
}

#[test]
fn find_member_finds_the_first_of_a_name() {
    let members = vec![
        Json::member("a", Json::Null),
        Json::member("b", Json::number(1)),
        Json::member("b", Json::number(2)),
    ];
    assert_eq!(find_member(&members, "a"), Some(0));
    assert_eq!(find_member(&members, "b"), Some(1));
    assert_eq!(find_member(&members, "c"), None);
}

fn fraction_of_zeros(digits: usize) -> String {
    let mut text = String::from("0.");
    for _ in 0..digits {
        text.push('0');
    }
    text
}

#[test]
fn a_run_of_digits_at_the_limit_is_read() {
    assert_eq!(DIGIT_RUN_LIMIT, 32767);
    let text = fraction_of_zeros(DIGIT_RUN_LIMIT);
    assert!(has_bounded_digits(&text));
    match Json::from_text(&text) {
        Ok(Json::Number(number)) => assert_eq!(number.mantissa, 0),
        other => panic!("{other:?}"),
    }
    assert!(has_bounded_digits(""));
    assert!(has_bounded_digits("{\"online\":12345,\"max\":67890}"));
}

#[test]
fn a_longer_run_of_digits_is_rejected_before_it_is_parsed() {
    for digits in [DIGIT_RUN_LIMIT + 1, DIGIT_RUN_LIMIT + 2, 40000] {
        let text = fraction_of_zeros(digits);
        assert!(!has_bounded_digits(&text));
        assert_eq!(Json::from_text(&text).unwrap_err(), "Too many digits in a row");
    }
    // the run may stand anywhere in the text
    let mut text = String::from("{\"n\":1");
    for _ in 0..DIGIT_RUN_LIMIT {
        text.push('7');
    }
    text.push('}');
    assert!(!has_bounded_digits(&text));
    assert_eq!(Json::from_text(&text).unwrap_err(), "Too many digits in a row");
}

#[test]
fn runs_of_digits_are_counted_apart() {
    // two runs of the limit each, a point between them
    let mut text = String::from("1");
    for _ in 1..DIGIT_RUN_LIMIT {
        text.push('0');
    }
    text.push('.');
    for _ in 0..DIGIT_RUN_LIMIT {
        text.push('0');
    }
    assert!(has_bounded_digits(&text));
    assert!(matches!(Json::from_text(&text), Ok(Json::Number(_))));
}

#[test]
fn a_status_with_too_many_digits_is_a_decode_error() {
    let text = format!("{{\"players\":{}}}", fraction_of_zeros(32769));
    match inject_status_description_message(&status_packet(&text)) {
        Err(Error::Decode(DecodeError::Custom { message })) => {
            assert_eq!(message, "Too many digits in a row");
        }
        other => panic!("{other:?}"),
    }
    let mut data = Vec::new();
    text.as_str().encode(&mut data).unwrap();
    let mut reader = data.as_slice();
    assert!(matches!(Json::decode(&mut reader), Err(DecodeError::Custom { .. })));
    assert_eq!(reader.len(), data.len());
}
