use json::number::Number;
use json::JsonValue;
use vstd::prelude::*;
use vstd::utf8::encode_utf8;

use crate::codec::dec::{decode_text, parse_text, Decode, DecodeError, DecodeFault};
use crate::codec::enc::{text_wire, Encode, EncodeError, EncodeFault};

verus! {

/// `json::JsonValue`, carried through as an opaque value.
#[verifier::external_type_specification]
#[verifier::external_body]
pub struct ExJsonValue(json::JsonValue);

/// A JSON number by its parts: a sign, the digits as one integer, and a
/// power of ten.
#[derive(Debug, Clone, Copy, PartialEq, Eq, Structural)]
pub struct JsonNumber {
    pub positive: bool,
    pub mantissa: u64,
    pub exponent: i16,
}

/// A JSON value.
///
/// An object keeps its members in the order in which they were added.
#[derive(Debug)]
pub enum Json {
    Null,
    String(String),
    Number(JsonNumber),
    Boolean(bool),
    Object(Vec<(String, Json)>),
    Array(Vec<Json>),
}

/// The mathematical content of a [`Json`] value.
pub enum JsonView {
    Null,
    String(Seq<char>),
    Number(JsonNumber),
    Boolean(bool),
    Object(Seq<(Seq<char>, JsonView)>),
    Array(Seq<JsonView>),
}

/// The content of a value, level by level.
pub open spec fn json_view(value: Json) -> JsonView
    decreases value,
{
    match value {
        Json::Null => JsonView::Null,
        Json::String(text) => JsonView::String(text@),
        Json::Number(number) => JsonView::Number(number),
        Json::Boolean(b) => JsonView::Boolean(b),
        Json::Object(members) => JsonView::Object(
            Seq::new(
                members@.len(),
                |i: int|
                    if 0 <= i < members@.len() {
                        (members@[i].0@, json_view(members@[i].1))
                    } else {
                        (Seq::<char>::empty(), JsonView::Null)
                    },
            ),
        ),
        Json::Array(items) => JsonView::Array(
            Seq::new(
                items@.len(),
                |i: int|
                    if 0 <= i < items@.len() {
                        json_view(items@[i])
                    } else {
                        JsonView::Null
                    },
            ),
        ),
    }
}

impl View for Json {
    type V = JsonView;

    open spec fn view(&self) -> JsonView {
        json_view(*self)
    }
}

/// The content of the members of an object, in their order.
pub open spec fn members_view(members: Seq<(String, Json)>) -> Seq<(Seq<char>, JsonView)> {
    Seq::new(members.len(), |i: int| (members[i].0@, json_view(members[i].1)))
}

/// The content of the items of an array, in their order.
pub open spec fn items_view(items: Seq<Json>) -> Seq<JsonView> {
    Seq::new(items.len(), |i: int| json_view(items[i]))
}

/// An object's content is that of its members.
pub proof fn lemma_object_view(members: Vec<(String, Json)>)
    ensures
        json_view(Json::Object(members)) == JsonView::Object(members_view(members@)),
{
    let seen = json_view(Json::Object(members))->Object_0;
    assert(seen =~= members_view(members@));
}

/// An array's content is that of its items.
pub proof fn lemma_array_view(items: Vec<Json>)
    ensures
        json_view(Json::Array(items)) == JsonView::Array(items_view(items@)),
{
    let seen = json_view(Json::Array(items))->Array_0;
    assert(seen =~= items_view(items@));
}

/// Whether `at` is the place of the first member named `key`.
pub open spec fn key_at(members: Seq<(Seq<char>, JsonView)>, key: Seq<char>, at: int) -> bool {
    &&& 0 <= at < members.len()
    &&& members[at].0 == key
    &&& forall|before: int| 0 <= before < at ==> members[before].0 != key
}

/// Whether a member is named `key`.
pub open spec fn has_key(members: Seq<(Seq<char>, JsonView)>, key: Seq<char>) -> bool {
    exists|at: int| key_at(members, key, at)
}

/// The place of the first member named `key`, where there is one.
pub open spec fn index_of(members: Seq<(Seq<char>, JsonView)>, key: Seq<char>) -> int {
    choose|at: int| key_at(members, key, at)
}

/// There is one first member of a name at most.
pub proof fn lemma_key_at(members: Seq<(Seq<char>, JsonView)>, key: Seq<char>, at: int)
    requires
        key_at(members, key, at),
    ensures
        has_key(members, key),
        index_of(members, key) == at,
{
    let found = index_of(members, key);
    assert(key_at(members, key, found));
    if found < at {
        assert(members[found].0 != key);
    } else if at < found {
        assert(members[at].0 != key);
    }
}

impl JsonView {
    /// The member named `key` of an object. Where the value is no object or
    /// has no such member, this is `Null`.
    pub open spec fn member(self, key: Seq<char>) -> JsonView {
        match self {
            JsonView::Object(members) => if has_key(members, key) {
                members[index_of(members, key)].1
            } else {
                JsonView::Null
            },
            _ => JsonView::Null,
        }
    }

    /// The value with its member `key` set to `value`: replaced in its place
    /// where there is one, added at the end where there is none. A value that
    /// is no object gives way to an object with this one member.
    pub open spec fn with_member(self, key: Seq<char>, value: JsonView) -> JsonView {
        match self {
            JsonView::Object(members) => if has_key(members, key) {
                JsonView::Object(members.update(index_of(members, key), (key, value)))
            } else {
                JsonView::Object(members.push((key, value)))
            },
            _ => JsonView::Object(seq![(key, value)]),
        }
    }
}

/// The place of the first member named `key`.
pub fn find_member(members: &Vec<(String, Json)>, key: &str) -> (r: Option<usize>)
    ensures
        match r {
            Some(at) => key_at(members_view(members@), key@, at as int),
            None => !has_key(members_view(members@), key@),
        },
{
    let wanted = key.to_owned();
    let mut at: usize = 0;
    while at < members.len()
        invariant
            at <= members@.len(),
            wanted@ == key@,
            forall|before: int| 0 <= before < at ==> members_view(members@)[before].0 != key@,
        decreases members@.len() - at,
    {
        if members[at].0 == wanted {
            return Some(at);
        }
        at += 1;
    }
    assert forall|i: int| !key_at(members_view(members@), key@, i) by {}
    None
}

impl Json {
    /// The string with this text.
    #[must_use]
    pub fn string(text: &str) -> (r: Json)
        ensures
            r@ == JsonView::String(text@),
    {
        Json::String(text.to_owned())
    }

    /// The whole number `value`.
    #[must_use]
    pub fn number(value: u64) -> (r: Json)
        ensures
            r@ == JsonView::Number(JsonNumber { positive: true, mantissa: value, exponent: 0 }),
    {
        Json::Number(JsonNumber { positive: true, mantissa: value, exponent: 0 })
    }

    /// The object with these members, in this order.
    #[must_use]
    pub fn object(members: Vec<(String, Json)>) -> (r: Json)
        ensures
            r@ == JsonView::Object(members_view(members@)),
    {
        proof {
            lemma_object_view(members);
        }
        Json::Object(members)
    }

    /// The array of these items.
    #[must_use]
    pub fn array(items: Vec<Json>) -> (r: Json)
        ensures
            r@ == JsonView::Array(items_view(items@)),
    {
        proof {
            lemma_array_view(items);
        }
        Json::Array(items)
    }

    /// The member of an object that `key` names.
    #[must_use]
    pub fn member(key: &str, value: Json) -> (r: (String, Json))
        ensures
            r.0@ == key@,
            r.1 == value,
    {
        (key.to_owned(), value)
    }
}

impl JsonNumber {
    /// The number with these parts.
    pub fn of_parts(parts: (bool, u64, i16)) -> (r: Self)
        ensures
            r == (JsonNumber { positive: parts.0, mantissa: parts.1, exponent: parts.2 }),
    {
        JsonNumber { positive: parts.0, mantissa: parts.1, exponent: parts.2 }
    }
}

/// What parsing a text as JSON came to.
pub enum Parsed {
    /// The value that the text spells.
    Value(JsonView),
    /// The text is not JSON; the parser's message.
    Failed(Seq<char>),
}

/// What a `json::JsonValue` holds.
pub uninterp spec fn json_contents(value: json::JsonValue) -> JsonView;

/// What `json::parse` makes of a text.
pub uninterp spec fn json_parsed(text: Seq<char>) -> Parsed;

/// The text that `json::JsonValue::dump` gives a value.
pub uninterp spec fn json_dumped(value: json::JsonValue) -> Seq<char>;

/// The text of a value of this content: what `json::JsonValue::dump` gives
/// the `json::JsonValue` that is built from it.
pub uninterp spec fn json_text(value: JsonView) -> Seq<char>;

/// The longest run of digits that a text handed to the parser may hold.
pub const DIGIT_RUN_LIMIT: usize = 32767;

/// Whether a byte is an ASCII digit.
pub open spec fn is_digit_byte(byte: u8) -> bool {
    0x30 <= byte <= 0x39
}

/// The number of ASCII digits that stand in a row just before `end`.
pub open spec fn digit_run(bytes: Seq<u8>, end: int) -> nat
    decreases end,
{
    if 0 < end <= bytes.len() && is_digit_byte(bytes[end - 1]) {
        1 + digit_run(bytes, end - 1)
    } else {
        0
    }
}

/// Whether no run of ASCII digits in the text is longer than
/// [`DIGIT_RUN_LIMIT`]. The parser counts the digits of a fraction in
/// sixteen bits; a text within this bound cannot take that count past its
/// range.
pub open spec fn digits_bounded(text: Seq<char>) -> bool {
    forall|end: int|
        0 <= end <= encode_utf8(text).len() ==> #[trigger] digit_run(encode_utf8(text), end)
            <= DIGIT_RUN_LIMIT
}

/// The message for a text with a longer run of digits.
pub open spec fn digits_message() -> Seq<char> {
    "Too many digits in a row"@
}

/// What reading a text as JSON comes to: what the parser makes of it, and
/// for a text with too long a run of digits a failure of its own.
pub open spec fn json_read(text: Seq<char>) -> Parsed {
    if digits_bounded(text) {
        json_parsed(text)
    } else {
        Parsed::Failed(digits_message())
    }
}

/// Tells whether no run of ASCII digits in the text is longer than
/// [`DIGIT_RUN_LIMIT`].
pub fn has_bounded_digits(text: &str) -> (r: bool)
    ensures
        r == digits_bounded(text@),
{
    let bytes = text.as_bytes();
    let mut run: usize = 0;
    let mut at: usize = 0;
    while at < bytes.len()
        invariant
            at <= bytes.len(),
            bytes@ == encode_utf8(text@),
            run == digit_run(bytes@, at as int),
            forall|end: int| 0 <= end <= at ==> #[trigger] digit_run(bytes@, end) <= DIGIT_RUN_LIMIT,
        decreases bytes.len() - at,
    {
        if 0x30 <= bytes[at] && bytes[at] <= 0x39 {
            if run >= DIGIT_RUN_LIMIT {
                assert(digit_run(bytes@, at + 1) > DIGIT_RUN_LIMIT);
                return false;
            }
            run = run + 1;
        } else {
            run = 0;
        }
        at = at + 1;
    }
    true
}

/// `json::parse`, with the error turned into the text that it displays. The
/// result is named, not described. Left out are the texts with a run of
/// more than [`DIGIT_RUN_LIMIT`] digits: on a fraction of more digits than
/// sixteen bits count, the parser's arithmetic leaves its range.
#[verifier::external_body]
fn json_parse(text: &str) -> (r: Result<json::JsonValue, String>)
    requires
        digits_bounded(text@),
    ensures
        r matches Ok(value) ==> json_parsed(text@) == Parsed::Value(json_contents(value)),
        r matches Err(message) ==> json_parsed(text@) == Parsed::Failed(message@),
{
    match json::parse(text) {
        Ok(value) => Ok(value),
        Err(error) => Err(error.to_string()),
    }
}

/// Copies a `json::JsonValue` into a [`Json`], variant by variant: a short
/// string and a string both as a string, a number by `Number::as_parts`, an
/// object by its entries in the order of `Object::iter`. The content of the
/// outside value is named, and is what this returns.
#[verifier::external_body]
fn json_to_model(value: &json::JsonValue) -> (r: Json)
    ensures
        r@ == json_contents(*value),
{
    match value {
        JsonValue::Null => Json::Null,
        JsonValue::Short(text) => Json::String(text.as_str().to_owned()),
        JsonValue::String(text) => Json::String(text.clone()),
        JsonValue::Number(number) => {
            let (positive, mantissa, exponent) = number.as_parts();
            Json::Number(JsonNumber { positive, mantissa, exponent })
        },
        JsonValue::Boolean(b) => Json::Boolean(*b),
        JsonValue::Object(object) => Json::Object(
            object.iter().map(|(key, member)| (key.to_owned(), json_to_model(member))).collect(),
        ),
        JsonValue::Array(items) => Json::Array(items.iter().map(json_to_model).collect()),
    }
}

/// Builds a `json::JsonValue` from a [`Json`], variant by variant: a number
/// by `Number::from_parts`, an object by `Object::insert` of its members in
/// their order. What the result holds is not described: the text that
/// `dump` gives it is named, as a function of what the [`Json`] holds.
#[verifier::external_body]
fn json_from_model(value: &Json) -> (r: json::JsonValue)
    ensures
        json_dumped(r) == json_text(value@),
{
    match value {
        Json::Null => JsonValue::Null,
        Json::String(text) => JsonValue::String(text.clone()),
        Json::Number(n) => JsonValue::Number(
            Number::from_parts(n.positive, n.mantissa, n.exponent),
        ),
        Json::Boolean(b) => JsonValue::Boolean(*b),
        Json::Object(members) => JsonValue::Object(
            members.iter().map(|(key, member)| (key, json_from_model(member))).collect(),
        ),
        Json::Array(items) => JsonValue::Array(items.iter().map(json_from_model).collect()),
    }
}

/// `json::JsonValue::dump`. The result is named, not described, as a
/// function of the value itself.
#[verifier::external_body]
fn json_dump(value: &json::JsonValue) -> (r: String)
    ensures
        r@ == json_dumped(*value),
{
    value.dump()
}

/// The wire form of a value of this content: the number of bytes of its text
/// in UTF-8, then those bytes.
pub open spec fn json_wire(value: JsonView) -> Result<Seq<u8>, EncodeFault> {
    text_wire(json_text(value))
}

impl Json {
    /// The text of the value as the `json` crate writes it.
    pub open spec fn text(self) -> Seq<char> {
        json_text(self@)
    }

    /// The value as JSON text.
    #[must_use]
    pub fn dump(&self) -> (r: String)
        ensures
            r@ == self.text(),
    {
        json_dump(&json_from_model(self))
    }

    /// The value that a JSON text spells, or the parser's message. A text
    /// with a run of more than [`DIGIT_RUN_LIMIT`] digits is not handed to
    /// the parser, and is rejected with a message of its own.
    pub fn from_text(text: &str) -> (r: Result<Json, String>)
        ensures
            match json_read(text@) {
                Parsed::Value(value) => r matches Ok(json) && json@ == value,
                Parsed::Failed(message) => r matches Err(m) && m@ == message,
            },
    {
        if !has_bounded_digits(text) {
            return Err("Too many digits in a row".to_owned());
        }
        match json_parse(text) {
            Ok(value) => Ok(json_to_model(&value)),
            Err(message) => Err(message),
        }
    }
}

impl Decode for Json {
    type V = JsonView;

    open spec fn model(&self) -> JsonView {
        self@
    }

    /// A length in bytes, then that many bytes of UTF-8 that spell a JSON
    /// value. Text that is not JSON is rejected with the parser's message,
    /// and text with too long a run of digits with a message of its own.
    open spec fn parse(bytes: Seq<u8>) -> Result<(JsonView, nat), DecodeFault> {
        match parse_text(bytes, "Failed to decode json length"@) {
            Ok((text, taken)) => match json_read(text) {
                Parsed::Value(value) => Ok((value, taken)),
                Parsed::Failed(message) => Err(DecodeFault::Custom { message }),
            },
            Err(fault) => Err(fault),
        }
    }

    fn decode(reader: &mut &[u8]) -> (r: Result<Self, DecodeError>) {
        let start: &[u8] = *reader;
        let raw_json = decode_text(reader, "Failed to decode json length")?;
        match Json::from_text(raw_json) {
            Ok(json) => Ok(json),
            Err(message) => {
                *reader = start;
                Err(DecodeError::Custom { message })
            },
        }
    }
}

impl Encode for Json {
    /// The number of bytes of the JSON text in UTF-8, then those bytes.
    open spec fn wire(&self) -> Result<Seq<u8>, EncodeFault> {
        json_wire(self@)
    }

    fn encode(&self, writer: &mut Vec<u8>) -> (r: Result<usize, EncodeError>) {
        let r = self.dump().encode(writer);
        assert(self.wire() == json_wire(self@));
        r
    }
}

} // verus!
