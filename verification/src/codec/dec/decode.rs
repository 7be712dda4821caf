use vstd::prelude::*;

use vstd::utf8::{decode_utf8, encode_utf8, encode_utf8_decode_utf8, valid_utf8};

use super::error::{DecodeError, DecodeErrorContext, DecodeFault};
use crate::codec::bytes::{be_value, get_be, lemma_be_value_bound, lemma_pow256_values, read_exact};
use crate::codec::{parse_var_int, var_int_value, VarInt};

verus! {

/// Decode a single value from a reader.
///
/// The reader is a byte slice that shrinks from the front as values are
/// taken off it.
pub trait Decode: Sized {
    /// What a value is, mathematically: what the contracts speak of.
    type V;

    /// The mathematical content of the value.
    spec fn model(&self) -> Self::V;

    /// What the front of a byte string decodes to: the value with the number
    /// of bytes it occupies, or the reason why there is no value there.
    spec fn parse(bytes: Seq<u8>) -> Result<(Self::V, nat), DecodeFault>;

    /// Decode a value from a reader.
    ///
    /// On success the reader has moved past the value's bytes. On failure it
    /// is where it was.
    fn decode(reader: &mut &[u8]) -> (r: Result<Self, DecodeError>)
        ensures
            match Self::parse(old(reader)@) {
                Ok((value, taken)) => {
                    &&& r matches Ok(v)
                    &&& v.model() == value
                    &&& taken <= old(reader)@.len()
                    &&& final(reader)@ == old(reader)@.skip(taken as int)
                },
                Err(fault) => {
                    &&& r matches Err(e)
                    &&& e@ == fault
                    &&& final(reader)@ == old(reader)@
                },
            },
    ;
}

/// What was parsed, with the note `what` on its fault where it is one.
pub open spec fn noted<V>(parsed: Result<(V, nat), DecodeFault>, what: Seq<char>) -> Result<
    (V, nat),
    DecodeFault,
> {
    match parsed {
        Ok(found) => Ok(found),
        Err(fault) => Err(fault.context(what)),
    }
}

/// The unsigned big-endian integer in the first `width` bytes.
pub open spec fn parse_be(bytes: Seq<u8>, width: nat) -> Result<(nat, nat), DecodeFault> {
    if bytes.len() < width {
        Err(DecodeFault::UnexpectedEnd)
    } else {
        Ok((be_value(bytes.take(width as int)), width))
    }
}

impl Decode for bool {
    type V = bool;

    open spec fn model(&self) -> bool {
        *self
    }

    /// One byte: zero is `false`, anything else `true`.
    open spec fn parse(bytes: Seq<u8>) -> Result<(bool, nat), DecodeFault> {
        match u8::parse(bytes) {
            Ok((byte, taken)) => Ok((byte != 0, taken)),
            Err(fault) => Err(fault),
        }
    }

    fn decode(reader: &mut &[u8]) -> (r: Result<Self, DecodeError>) {
        match u8::decode(reader) {
            Ok(byte) => Ok(byte != 0),
            Err(err) => Err(err),
        }
    }
}

impl Decode for u8 {
    type V = u8;

    open spec fn model(&self) -> u8 {
        *self
    }

    open spec fn parse(bytes: Seq<u8>) -> Result<(u8, nat), DecodeFault> {
        if bytes.len() < 1 {
            Err(DecodeFault::UnexpectedEnd)
        } else {
            Ok((bytes[0], 1))
        }
    }

    fn decode(reader: &mut &[u8]) -> (r: Result<Self, DecodeError>) {
        let bytes = read_exact(reader, 1)?;
        Ok(bytes[0])
    }
}

impl Decode for u16 {
    type V = u16;

    open spec fn model(&self) -> u16 {
        *self
    }

    open spec fn parse(bytes: Seq<u8>) -> Result<(u16, nat), DecodeFault> {
        match parse_be(bytes, 2) {
            Ok((value, taken)) => Ok((value as u16, taken)),
            Err(fault) => Err(fault),
        }
    }

    fn decode(reader: &mut &[u8]) -> (r: Result<Self, DecodeError>) {
        let bytes = read_exact(reader, 2)?;
        proof {
            lemma_be_value_bound(bytes@);
            lemma_pow256_values();
        }
        Ok(get_be(bytes) as u16)
    }
}

impl Decode for u32 {
    type V = u32;

    open spec fn model(&self) -> u32 {
        *self
    }

    open spec fn parse(bytes: Seq<u8>) -> Result<(u32, nat), DecodeFault> {
        match parse_be(bytes, 4) {
            Ok((value, taken)) => Ok((value as u32, taken)),
            Err(fault) => Err(fault),
        }
    }

    fn decode(reader: &mut &[u8]) -> (r: Result<Self, DecodeError>) {
        let bytes = read_exact(reader, 4)?;
        proof {
            lemma_be_value_bound(bytes@);
            lemma_pow256_values();
        }
        Ok(get_be(bytes) as u32)
    }
}

impl Decode for u64 {
    type V = u64;

    open spec fn model(&self) -> u64 {
        *self
    }

    open spec fn parse(bytes: Seq<u8>) -> Result<(u64, nat), DecodeFault> {
        match parse_be(bytes, 8) {
            Ok((value, taken)) => Ok((value as u64, taken)),
            Err(fault) => Err(fault),
        }
    }

    fn decode(reader: &mut &[u8]) -> (r: Result<Self, DecodeError>) {
        let bytes = read_exact(reader, 8)?;
        proof {
            lemma_be_value_bound(bytes@);
            lemma_pow256_values();
        }
        Ok(get_be(bytes) as u64)
    }
}

impl<T> Decode for Option<T> where T: Decode {
    type V = Option<T::V>;

    open spec fn model(&self) -> Option<T::V> {
        match self {
            Some(value) => Some(value.model()),
            None => None,
        }
    }

    /// A first byte of zero stands for `None` and is all that is taken. Any
    /// other first byte is the first byte of the value itself.
    open spec fn parse(bytes: Seq<u8>) -> Result<(Option<T::V>, nat), DecodeFault> {
        if bytes.len() < 1 {
            Err(DecodeFault::UnexpectedEnd)
        } else if bytes[0] == 0 {
            Ok((None, 1))
        } else {
            match T::parse(bytes) {
                Ok((value, taken)) => Ok((Some(value), taken)),
                Err(fault) => Err(fault.context("Failed to decode optional value"@)),
            }
        }
    }

    fn decode(reader: &mut &[u8]) -> (r: Result<Self, DecodeError>) {
        let all: &[u8] = *reader;
        if all.len() < 1 {
            return Err(DecodeError::UnexpectedEnd);
        }
        if all[0] == 0 {
            let _ = read_exact(reader, 1);
            Ok(None)
        } else {
            let value = T::decode(reader).err_context("Failed to decode optional value")?;
            Ok(Some(value))
        }
    }
}

/// The count at the front of a byte string: a VarInt that is not negative,
/// with the number of bytes it occupies. `what` is the note that goes with a
/// VarInt that cannot be read.
pub open spec fn parse_count(bytes: Seq<u8>, what: Seq<char>) -> Result<(nat, nat), DecodeFault> {
    match parse_var_int(bytes) {
        Ok((number, taken)) => if var_int_value(number) < 0 {
            Err(DecodeFault::InvalidVarInt)
        } else {
            Ok((var_int_value(number) as nat, taken))
        },
        Err(fault) => Err(fault.context(what)),
    }
}

/// Takes a count off the reader.
pub fn decode_count(reader: &mut &[u8], what: &str) -> (r: Result<usize, DecodeError>)
    ensures
        match parse_count(old(reader)@, what@) {
            Ok((count, taken)) => {
                &&& r == Ok::<usize, DecodeError>(count as usize)
                &&& count <= i32::MAX
                &&& taken <= old(reader)@.len()
                &&& final(reader)@ == old(reader)@.skip(taken as int)
            },
            Err(fault) => {
                &&& r matches Err(e)
                &&& e@ == fault
                &&& final(reader)@ == old(reader)@
            },
        },
{
    let start: &[u8] = *reader;
    let len: i32 = VarInt::decode(reader).err_context(what)?.value();
    if len < 0 {
        *reader = start;
        return Err(DecodeError::InvalidVarInt);
    }
    Ok(len as usize)
}

/// `count` values one after the other at the front of a byte string, with
/// the number of bytes they occupy together.
pub open spec fn parse_items<T: Decode>(bytes: Seq<u8>, count: nat) -> Result<
    (Seq<T::V>, nat),
    DecodeFault,
>
    decreases count,
{
    if count == 0 {
        Ok((Seq::empty(), 0))
    } else {
        match T::parse(bytes) {
            Ok((item, taken)) => after_items(
                seq![item],
                taken,
                parse_items::<T>(bytes.skip(taken as int), (count - 1) as nat),
            ),
            Err(fault) => Err(fault.context("Failed to decode vec element"@)),
        }
    }
}

/// What `rest` comes to after `items`, which took `taken` bytes.
pub open spec fn after_items<V>(
    items: Seq<V>,
    taken: nat,
    rest: Result<(Seq<V>, nat), DecodeFault>,
) -> Result<(Seq<V>, nat), DecodeFault> {
    match rest {
        Ok((more, further)) => Ok((items + more, taken + further)),
        Err(fault) => Err(fault),
    }
}

/// The contents of a list of values.
pub open spec fn models<T: Decode>(items: Seq<T>) -> Seq<T::V> {
    Seq::new(items.len(), |i: int| items[i].model())
}

impl<T> Decode for Vec<T> where T: Decode {
    type V = Seq<T::V>;

    open spec fn model(&self) -> Seq<T::V> {
        models(self@)
    }

    /// A count, then that many values.
    open spec fn parse(bytes: Seq<u8>) -> Result<(Seq<T::V>, nat), DecodeFault> {
        match parse_count(bytes, "Failed to decode vec length"@) {
            Ok((count, taken)) => match parse_items::<T>(bytes.skip(taken as int), count) {
                Ok((items, more)) => Ok((items, taken + more)),
                Err(fault) => Err(fault),
            },
            Err(fault) => Err(fault),
        }
    }

    fn decode(reader: &mut &[u8]) -> (r: Result<Self, DecodeError>) {
        let start: &[u8] = *reader;
        let len: usize = decode_count(reader, "Failed to decode vec length")?;
        let ghost first = reader@;
        let ghost count_taken = parse_count(start@, "Failed to decode vec length"@)->Ok_0.1;
        let ghost mut taken: nat = 0;

        let mut vec: Vec<T> = Vec::new();
        let mut i: usize = 0;
        while i < len
            invariant
                i <= len,
                vec@.len() == i,
                start@ == old(reader)@,
                parse_count(start@, "Failed to decode vec length"@) == Ok::<
                    (nat, nat),
                    DecodeFault,
                >((len as nat, count_taken)),
                first == start@.skip(count_taken as int),
                taken <= first.len(),
                reader@ == first.skip(taken as int),
                parse_items::<T>(first, len as nat) == after_items(
                    models(vec@),
                    taken,
                    parse_items::<T>(reader@, (len - i) as nat),
                ),
            decreases len - i,
        {
            let ghost before = models(vec@);
            let ghost here = reader@;
            match T::decode(reader).err_context("Failed to decode vec element") {
                Ok(elem) => {
                    vec.push(elem);
                    proof {
                        let used = T::parse(here)->Ok_0.1;
                        assert(models(vec@) == before + seq![elem.model()]);
                        assert(first.skip(taken as int).skip(used as int) == first.skip(
                            (taken + used) as int,
                        ));
                        let rest = parse_items::<T>(reader@, (len - i - 1) as nat);
                        if rest is Ok {
                            assert(before + (seq![elem.model()] + rest->Ok_0.0)
                                == models(vec@) + rest->Ok_0.0);
                        }
                        taken = taken + used;
                    }
                },
                Err(err) => {
                    *reader = start;
                    return Err(err);
                },
            }
            i += 1;
        }
        proof {
            assert(models(vec@) + Seq::<T::V>::empty() == models(vec@));
            assert(start@.skip(count_taken as int).skip(taken as int) == start@.skip(
                (count_taken + taken) as int,
            ));
        }
        Ok(vec)
    }
}

/// `core::str::from_utf8`: succeeds on the byte strings that are UTF-8, and
/// then gives the text that those bytes encode.
#[verifier::external_body]
fn str_from_utf8(bytes: &[u8]) -> (r: Result<&str, core::str::Utf8Error>)
    ensures
        r is Ok <==> valid_utf8(bytes@),
        r matches Ok(text) ==> encode_utf8(text@) == bytes@,
{
    core::str::from_utf8(bytes)
}

/// The UTF-8 text at the front of a byte string: a length in bytes, then
/// that many bytes. `what` is the note that goes with a length that cannot
/// be read.
pub open spec fn parse_text(bytes: Seq<u8>, what: Seq<char>) -> Result<
    (Seq<char>, nat),
    DecodeFault,
> {
    match parse_count(bytes, what) {
        Ok((len, taken)) => if bytes.len() - taken < len {
            Err(DecodeFault::UnexpectedEnd)
        } else {
            let text = bytes.subrange(taken as int, (taken + len) as int);
            if valid_utf8(text) {
                Ok((decode_utf8(text), taken + len))
            } else {
                Err(DecodeFault::InvalidUtf8)
            }
        },
        Err(fault) => Err(fault),
    }
}

/// Takes a length-prefixed UTF-8 text off the reader.
pub fn decode_text<'a>(reader: &mut &'a [u8], what: &str) -> (r: Result<&'a str, DecodeError>)
    ensures
        match parse_text(old(reader)@, what@) {
            Ok((text, taken)) => {
                &&& r matches Ok(s)
                &&& s@ == text
                &&& taken <= old(reader)@.len()
                &&& final(reader)@ == old(reader)@.skip(taken as int)
            },
            Err(fault) => {
                &&& r matches Err(e)
                &&& e@ == fault
                &&& final(reader)@ == old(reader)@
            },
        },
{
    let start: &'a [u8] = *reader;
    let len: usize = decode_count(reader, what)?;
    let bytes: &'a [u8] = match read_exact(reader, len) {
        Ok(bytes) => bytes,
        Err(err) => {
            *reader = start;
            return Err(err);
        },
    };
    proof {
        let taken = parse_count(start@, what@)->Ok_0.1;
        assert(start@.skip(taken as int).take(len as int) == start@.subrange(
            taken as int,
            (taken + len) as int,
        ));
        assert(start@.skip(taken as int).skip(len as int) == start@.skip((taken + len) as int));
    }
    match str_from_utf8(bytes) {
        Ok(text) => {
            proof {
                encode_utf8_decode_utf8(text@);
            }
            Ok(text)
        },
        Err(err) => {
            *reader = start;
            Err(DecodeError::from(err))
        },
    }
}

impl Decode for String {
    type V = Seq<char>;

    open spec fn model(&self) -> Seq<char> {
        self@
    }

    /// A length in bytes, then that many bytes of UTF-8.
    open spec fn parse(bytes: Seq<u8>) -> Result<(Seq<char>, nat), DecodeFault> {
        parse_text(bytes, "Failed to decode string length"@)
    }

    fn decode(reader: &mut &[u8]) -> (r: Result<Self, DecodeError>) {
        let text = decode_text(reader, "Failed to decode string length")?;
        Ok(text.to_owned())
    }
}

} // verus!
