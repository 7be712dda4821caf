use vstd::prelude::*;
use vstd::slice::slice_to_vec;

use crate::codec::base128::{
    groups, groups_of, is_shortest, is_var, lemma_groups, lemma_groups_of_payload,
    lemma_payload_bound, lemma_pow128_values, lemma_scan_whole, payload, payload_of, scan,
    take_var, Scan,
};
use crate::codec::bytes::put_bytes;
use crate::codec::dec::{Decode, DecodeError, DecodeFault};
use crate::codec::enc::{Encode, EncodeError, EncodeFault};

verus! {

/// Whether `bytes` is one whole VarInt: at most five bytes that carry at most
/// 32 bits between them.
pub open spec fn is_var_int(bytes: Seq<u8>) -> bool {
    is_var(bytes, 5, 16)
}

/// The signed number with the two's-complement bit pattern `bits`.
pub open spec fn signed32(bits: nat) -> int {
    if bits < 0x8000_0000 {
        bits as int
    } else {
        bits - 0x1_0000_0000
    }
}

/// The two's-complement bit pattern of a signed 32-bit number.
pub open spec fn unsigned32(value: int) -> nat {
    if value >= 0 {
        value as nat
    } else {
        (value + 0x1_0000_0000) as nat
    }
}

/// The number that a VarInt's bytes stand for.
pub open spec fn var_int_value(bytes: Seq<u8>) -> int {
    signed32(payload_of(bytes))
}

/// The bytes that `VarInt::new` gives a number: the shortest spelling of its
/// bit pattern, so one to five bytes for a number from zero up and five for a
/// negative one.
pub open spec fn var_int_bytes(value: int) -> Seq<u8> {
    groups_of(unsigned32(value))
}

/// The VarInt at the front of a byte string: its bytes and their number.
pub open spec fn parse_var_int(bytes: Seq<u8>) -> Result<(Seq<u8>, nat), DecodeFault> {
    match scan(bytes, 0, 5, 16) {
        Scan::Whole(len) => Ok((bytes.take(len as int), len)),
        Scan::Short => Err(DecodeFault::UnexpectedEnd),
        Scan::Overlong => Err(DecodeFault::InvalidVarInt),
    }
}

/// The two's-complement bit pattern of `value`.
pub fn bits_of(value: i32) -> (bits: u32)
    ensures
        bits == unsigned32(value as int),
{
    if value >= 0 {
        value as u32
    } else {
        (value as i64 + 0x1_0000_0000) as u32
    }
}

/// A signed 32-bit number in its variable-length wire form.
///
/// The value keeps the bytes it was made from or read from, continuation bits
/// included, so writing it back gives those bytes again.
#[derive(Debug)]
pub struct VarInt(Vec<u8>);

impl Clone for VarInt {
    fn clone(&self) -> (r: Self)
        ensures
            r@ == self@,
    {
        proof {
            use_type_invariant(self);
        }
        VarInt(slice_to_vec(self.0.as_slice()))
    }
}

impl View for VarInt {
    type V = Seq<u8>;

    closed spec fn view(&self) -> Seq<u8> {
        self.0@
    }
}

impl VarInt {
    #[verifier::type_invariant]
    spec fn well_formed(self) -> bool {
        is_var_int(self.0@)
    }

    /// The wire form of `value`.
    #[must_use]
    pub fn new(value: i32) -> (r: Self)
        ensures
            r@ == var_int_bytes(value as int),
            is_var_int(r@),
    {
        let bits: u64 = if value >= 0 {
            value as u64
        } else {
            (value as i64 + 0x1_0000_0000) as u64
        };
        proof {
            lemma_pow128_values();
            lemma_groups(bits as nat, 5, 16);
        }
        VarInt(groups(bits))
    }

    /// The number that the bytes stand for.
    #[must_use]
    pub fn value(&self) -> (r: i32)
        ensures
            r == var_int_value(self@),
            is_var_int(self@),
    {
        proof {
            use_type_invariant(self);
            lemma_pow128_values();
            lemma_payload_bound(self.0@, 5, 16);
        }
        let bits: u64 = payload(self.0.as_slice());
        if bits < 0x8000_0000 {
            bits as i32
        } else {
            (bits as i64 - 0x1_0000_0000) as i32
        }
    }

    /// The bytes of the wire form.
    #[must_use]
    pub fn as_slice(&self) -> (r: &[u8])
        ensures
            r@ == self@,
            is_var_int(self@),
    {
        proof {
            use_type_invariant(self);
        }
        self.0.as_slice()
    }
}

impl vstd::std_specs::convert::FromSpecImpl<VarInt> for i32 {
    open spec fn obeys_from_spec() -> bool {
        true
    }

    open spec fn from_spec(var_int: VarInt) -> i32 {
        var_int_value(var_int@) as i32
    }
}

impl From<VarInt> for i32 {
    fn from(var_int: VarInt) -> (r: Self) {
        var_int.value()
    }
}

impl Decode for VarInt {
    type V = Seq<u8>;

    open spec fn model(&self) -> Seq<u8> {
        self@
    }

    open spec fn parse(bytes: Seq<u8>) -> Result<(Seq<u8>, nat), DecodeFault> {
        parse_var_int(bytes)
    }

    fn decode(reader: &mut &[u8]) -> (r: Result<Self, DecodeError>) {
        let r = match take_var(reader, 5, 16, DecodeError::InvalidVarInt) {
            Ok(number) => Ok(VarInt(slice_to_vec(number))),
            Err(err) => Err(err),
        };
        assert(Self::parse(old(reader)@) == parse_var_int(old(reader)@));
        assert(r is Ok ==> r->Ok_0.model() == r->Ok_0.0@);
        r
    }
}

impl Encode for VarInt {
    open spec fn wire(&self) -> Result<Seq<u8>, EncodeFault> {
        Ok(self@)
    }

    fn encode(&self, writer: &mut Vec<u8>) -> (r: Result<usize, EncodeError>) {
        let bytes = self.0.as_slice();
        put_bytes(writer, bytes);
        assert(self.wire() == Ok::<Seq<u8>, EncodeFault>(self.0@));
        Ok(bytes.len())
    }
}

/// Every 32-bit number has a VarInt, which stands for that number again and
/// is found whole at the front of whatever follows it.
pub proof fn lemma_var_int_round_trip(value: int, rest: Seq<u8>)
    requires
        i32::MIN <= value <= i32::MAX,
    ensures
        is_var_int(var_int_bytes(value)),
        is_shortest(var_int_bytes(value)),
        var_int_value(var_int_bytes(value)) == value,
        parse_var_int(var_int_bytes(value) + rest) == Ok::<(Seq<u8>, nat), DecodeFault>(
            (var_int_bytes(value), var_int_bytes(value).len()),
        ),
{
    let bytes = var_int_bytes(value);
    lemma_pow128_values();
    lemma_groups(unsigned32(value), 5, 16);
    assert((bytes + rest).take(bytes.len() as int) == bytes);
    lemma_scan_whole(bytes + rest, 0, bytes.len(), 5, 16);
}

/// A VarInt in its shortest form is the one that `VarInt::new` makes of its
/// value. One with idle trailing groups, such as `80 00` for zero, is not.
pub proof fn lemma_var_int_shortest(bytes: Seq<u8>)
    requires
        is_var_int(bytes),
        is_shortest(bytes),
    ensures
        i32::MIN <= var_int_value(bytes) <= i32::MAX,
        var_int_bytes(var_int_value(bytes)) == bytes,
{
    lemma_pow128_values();
    lemma_payload_bound(bytes, 5, 16);
    lemma_groups_of_payload(bytes, 5, 16);
}

} // verus!
