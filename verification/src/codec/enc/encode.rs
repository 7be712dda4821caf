use vstd::prelude::*;

use vstd::utf8::encode_utf8;

use super::error::{EncodeError, EncodeErrorContext, EncodeFault};
use crate::codec::bytes::{be_bytes, lemma_be_bytes_len, put_be, put_bytes};
use crate::codec::{var_int_bytes, VarInt};

verus! {

/// Encode a single value to a writer.
///
/// The writer is a byte vector that grows at the end.
pub trait Encode: Sized {
    /// The bytes that encode the value, or the reason why it has no encoding.
    spec fn wire(&self) -> Result<Seq<u8>, EncodeFault>;

    /// Encode a value to a writer.
    ///
    /// Returns the number of bytes written. On failure the writer holds what
    /// it held before.
    fn encode(&self, writer: &mut Vec<u8>) -> (r: Result<usize, EncodeError>)
        ensures
            encodes_as(self.wire(), old(writer)@, final(writer)@, r),
    ;
}

/// An encoding step did what `wire` says: it appended those bytes and
/// returned their number, or returned that fault and appended nothing.
pub open spec fn encodes_as(
    wire: Result<Seq<u8>, EncodeFault>,
    before: Seq<u8>,
    after: Seq<u8>,
    r: Result<usize, EncodeError>,
) -> bool {
    match wire {
        Ok(bytes) => {
            &&& r matches Ok(written)
            &&& written == bytes.len()
            &&& after == before + bytes
        },
        Err(fault) => {
            &&& r matches Err(e)
            &&& e@ == fault
            &&& after == before
        },
    }
}

/// What was encoded, with the note `what` on its fault where it is one.
pub open spec fn noted_wire(wire: Result<Seq<u8>, EncodeFault>, what: Seq<char>) -> Result<
    Seq<u8>,
    EncodeFault,
> {
    match wire {
        Ok(bytes) => Ok(bytes),
        Err(fault) => Err(fault.context(what)),
    }
}

/// The wire form of a text: the number of its bytes in UTF-8, then those
/// bytes.
pub open spec fn text_wire(text: Seq<char>) -> Result<Seq<u8>, EncodeFault> {
    with_length(encode_utf8(text).len(), Ok(encode_utf8(text)))
}

/// The fault of a length that no VarInt can carry: one above `i32::MAX`.
pub open spec fn length_fault() -> EncodeFault {
    EncodeFault::Custom { message: "Length does not fit in a VarInt"@ }
}

/// The error of a length that no VarInt can carry.
pub fn length_error() -> (r: EncodeError)
    ensures
        r@ == length_fault(),
{
    EncodeError::Custom { message: "Length does not fit in a VarInt".to_owned() }
}

impl<T> Encode for &T where T: Encode {
    open spec fn wire(&self) -> Result<Seq<u8>, EncodeFault> {
        (**self).wire()
    }

    fn encode(&self, writer: &mut Vec<u8>) -> (r: Result<usize, EncodeError>) {
        (**self).encode(writer)
    }
}

impl<T> Encode for &mut T where T: Encode {
    open spec fn wire(&self) -> Result<Seq<u8>, EncodeFault> {
        (**self).wire()
    }

    fn encode(&self, writer: &mut Vec<u8>) -> (r: Result<usize, EncodeError>) {
        (**self).encode(writer)
    }
}

impl Encode for bool {
    /// One byte: 1 for `true`, 0 for `false`.
    open spec fn wire(&self) -> Result<Seq<u8>, EncodeFault> {
        Ok(seq![if *self { 1u8 } else { 0u8 }])
    }

    fn encode(&self, writer: &mut Vec<u8>) -> (r: Result<usize, EncodeError>) {
        let byte: u8 = if *self { 1 } else { 0 };
        byte.encode(writer)
    }
}

impl Encode for u8 {
    open spec fn wire(&self) -> Result<Seq<u8>, EncodeFault> {
        Ok(seq![*self])
    }

    fn encode(&self, writer: &mut Vec<u8>) -> (r: Result<usize, EncodeError>) {
        writer.push(*self);
        assert(writer@ == old(writer)@ + seq![*self]);
        Ok(1)
    }
}

impl Encode for u16 {
    open spec fn wire(&self) -> Result<Seq<u8>, EncodeFault> {
        Ok(be_bytes(*self as nat, 2))
    }

    fn encode(&self, writer: &mut Vec<u8>) -> (r: Result<usize, EncodeError>) {
        proof {
            lemma_be_bytes_len(*self as nat, 2);
        }
        put_be(writer, *self as u128, 2);
        Ok(2)
    }
}

impl Encode for u32 {
    open spec fn wire(&self) -> Result<Seq<u8>, EncodeFault> {
        Ok(be_bytes(*self as nat, 4))
    }

    fn encode(&self, writer: &mut Vec<u8>) -> (r: Result<usize, EncodeError>) {
        proof {
            lemma_be_bytes_len(*self as nat, 4);
        }
        put_be(writer, *self as u128, 4);
        Ok(4)
    }
}

impl Encode for u64 {
    open spec fn wire(&self) -> Result<Seq<u8>, EncodeFault> {
        Ok(be_bytes(*self as nat, 8))
    }

    fn encode(&self, writer: &mut Vec<u8>) -> (r: Result<usize, EncodeError>) {
        proof {
            lemma_be_bytes_len(*self as nat, 8);
        }
        put_be(writer, *self as u128, 8);
        Ok(8)
    }
}

impl<T> Encode for Option<T> where T: Encode {
    /// `None` is a single zero byte. `Some` is the value itself, with nothing
    /// before it.
    open spec fn wire(&self) -> Result<Seq<u8>, EncodeFault> {
        match self {
            Some(value) => match value.wire() {
                Ok(bytes) => Ok(bytes),
                Err(fault) => Err(fault.context("Failed to encode Option::Some(T)"@)),
            },
            None => Ok(seq![0u8]),
        }
    }

    fn encode(&self, writer: &mut Vec<u8>) -> (r: Result<usize, EncodeError>) {
        if let Some(value) = self {
            let written_bytes = value.encode(writer).err_context(
                "Failed to encode Option::Some(T)",
            )?;
            Ok(written_bytes)
        } else {
            let written_bytes = 0_u8.encode(writer).err_context("Failed to encode Option::None")?;
            Ok(written_bytes)
        }
    }
}

/// The encodings of `items` one after the other, or the fault of the first
/// that has none.
pub open spec fn wire_items<T: Encode>(items: Seq<T>) -> Result<Seq<u8>, EncodeFault>
    decreases items.len(),
{
    if items.len() == 0 {
        Ok(Seq::empty())
    } else {
        match items[0].wire() {
            Ok(first) => after_wire(first, wire_items(items.drop_first())),
            Err(fault) => Err(fault),
        }
    }
}

/// What `rest` comes to after the bytes `first`.
pub open spec fn after_wire(first: Seq<u8>, rest: Result<Seq<u8>, EncodeFault>) -> Result<
    Seq<u8>,
    EncodeFault,
> {
    match rest {
        Ok(more) => Ok(first + more),
        Err(fault) => Err(fault),
    }
}

/// A length as a VarInt and then `content`, or the fault of a length that no
/// VarInt can carry.
pub open spec fn with_length(len: nat, content: Result<Seq<u8>, EncodeFault>) -> Result<
    Seq<u8>,
    EncodeFault,
> {
    if len > i32::MAX {
        Err(length_fault())
    } else {
        after_wire(var_int_bytes(len as int), content)
    }
}

impl<T> Encode for &[T] where T: Encode {
    /// The number of items, then the items.
    open spec fn wire(&self) -> Result<Seq<u8>, EncodeFault> {
        with_length(self@.len(), wire_items(self@))
    }

    fn encode(&self, writer: &mut Vec<u8>) -> (r: Result<usize, EncodeError>) {
        let start: usize = writer.len();
        if self.len() > 0x7fff_ffff {
            return Err(length_error());
        }
        let prefix = VarInt::new(self.len() as i32);
        prefix.encode(writer)?;

        let ghost mut written: Seq<u8> = Seq::empty();
        let mut i: usize = 0;
        proof {
            assert(self@.skip(0) == self@);
            let all = wire_items(self@);
            if all is Ok {
                assert(written + all->Ok_0 == all->Ok_0);
            }
        }
        while i < self.len()
            invariant
                i <= self@.len() <= i32::MAX,
                prefix@ == var_int_bytes(self@.len() as int),
                start == old(writer)@.len(),
                writer@ == old(writer)@ + prefix@ + written,
                wire_items(self@) == after_wire(written, wire_items(self@.skip(i as int))),
            decreases self@.len() - i,
        {
            proof {
                assert(self@.skip(i as int).drop_first() == self@.skip(i + 1));
            }
            match self[i].encode(writer) {
                Ok(_) => {
                    proof {
                        let bytes = self@[i as int].wire()->Ok_0;
                        let rest = wire_items(self@.skip(i + 1));
                        if rest is Ok {
                            assert(written + (bytes + rest->Ok_0) == (written + bytes)
                                + rest->Ok_0);
                        }
                        assert(old(writer)@ + prefix@ + written + bytes == old(writer)@ + prefix@
                            + (written + bytes));
                        written = written + bytes;
                    }
                },
                Err(err) => {
                    writer.truncate(start);
                    assert(writer@ == old(writer)@);
                    return Err(err);
                },
            }
            i += 1;
        }
        proof {
            assert(self@.skip(i as int) == Seq::<T>::empty());
            assert(written + Seq::<u8>::empty() == written);
            assert(writer@ == old(writer)@ + (prefix@ + written));
        }
        Ok(writer.len() - start)
    }
}

impl<T> Encode for Vec<T> where T: Encode {
    open spec fn wire(&self) -> Result<Seq<u8>, EncodeFault> {
        with_length(self@.len(), wire_items(self@))
    }

    fn encode(&self, writer: &mut Vec<u8>) -> (r: Result<usize, EncodeError>) {
        self.as_slice().encode(writer)
    }
}

impl Encode for &str {
    /// The number of bytes of the text in UTF-8, then those bytes.
    open spec fn wire(&self) -> Result<Seq<u8>, EncodeFault> {
        text_wire(self@)
    }

    fn encode(&self, writer: &mut Vec<u8>) -> (r: Result<usize, EncodeError>) {
        let bytes = self.as_bytes();
        if bytes.len() > 0x7fff_ffff {
            return Err(length_error());
        }
        let prefix = VarInt::new(bytes.len() as i32);
        let written_bytes = prefix.encode(writer)?;

        put_bytes(writer, bytes);
        proof {
            assert(writer@ == old(writer)@ + (prefix@ + bytes@));
        }
        Ok(written_bytes + bytes.len())
    }
}

impl Encode for String {
    open spec fn wire(&self) -> Result<Seq<u8>, EncodeFault> {
        text_wire(self@)
    }

    fn encode(&self, writer: &mut Vec<u8>) -> (r: Result<usize, EncodeError>) {
        self.as_str().encode(writer)
    }
}

} // verus!
