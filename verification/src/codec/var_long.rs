use vstd::prelude::*;
use vstd::slice::slice_to_vec;

use crate::codec::base128::{
    groups, groups_of, is_shortest, is_var, lemma_groups, lemma_groups_of_payload,
    lemma_payload_bound, lemma_pow128_values, lemma_scan_whole, payload, payload_of, scan,
    take_var, Scan,
};
use crate::codec::bytes::put_bytes;
use crate::codec::dec::{Decode, DecodeError, DecodeFault};
use crate::codec::enc::{Encode, EncodeError, EncodeFault};

verus! {

/// Whether `bytes` is one whole VarLong: at most ten bytes that carry at
/// most 64 bits between them.
pub open spec fn is_var_long(bytes: Seq<u8>) -> bool {
    is_var(bytes, 10, 2)
}

/// The signed number with the two's-complement bit pattern `bits`.
pub open spec fn signed64(bits: nat) -> int {
    if bits < 0x8000_0000_0000_0000 {
        bits as int
    } else {
        bits - 0x1_0000_0000_0000_0000
    }
}

/// The two's-complement bit pattern of a signed 64-bit number.
pub open spec fn unsigned64(value: int) -> nat {
    if value >= 0 {
        value as nat
    } else {
        (value + 0x1_0000_0000_0000_0000) as nat
    }
}

/// The number that a VarLong's bytes stand for.
pub open spec fn var_long_value(bytes: Seq<u8>) -> int {
    signed64(payload_of(bytes))
}

/// The bytes that `VarLong::new` gives a number: the shortest spelling of
/// its bit pattern, so one to nine bytes for a number from zero up and ten
/// for a negative one.
pub open spec fn var_long_bytes(value: int) -> Seq<u8> {
    groups_of(unsigned64(value))
}

/// The VarLong at the front of a byte string: its bytes and their number.
pub open spec fn parse_var_long(bytes: Seq<u8>) -> Result<(Seq<u8>, nat), DecodeFault> {
    match scan(bytes, 0, 10, 2) {
        Scan::Whole(len) => Ok((bytes.take(len as int), len)),
        Scan::Short => Err(DecodeFault::UnexpectedEnd),
        Scan::Overlong => Err(DecodeFault::InvalidVarLong),
    }
}

/// A signed 64-bit number in its variable-length wire form.
///
/// The value keeps the bytes it was made from or read from, continuation bits
/// included, so writing it back gives those bytes again.
#[derive(Debug)]
pub struct VarLong(Vec<u8>);

impl Clone for VarLong {
    fn clone(&self) -> (r: Self)
        ensures
            r@ == self@,
    {
        proof {
            use_type_invariant(self);
        }
        VarLong(slice_to_vec(self.0.as_slice()))
    }
}

impl View for VarLong {
    type V = Seq<u8>;

    closed spec fn view(&self) -> Seq<u8> {
        self.0@
    }
}

impl VarLong {
    #[verifier::type_invariant]
    spec fn well_formed(self) -> bool {
        is_var_long(self.0@)
    }

    /// The wire form of `value`.
    #[must_use]
    pub fn new(value: i64) -> (r: Self)
        ensures
            r@ == var_long_bytes(value as int),
            is_var_long(r@),
    {
        let bits: u64 = if value >= 0 {
            value as u64
        } else {
            (value as i128 + 0x1_0000_0000_0000_0000) as u64
        };
        proof {
            lemma_pow128_values();
            lemma_groups(bits as nat, 10, 2);
        }
        VarLong(groups(bits))
    }

    /// The number that the bytes stand for.
    #[must_use]
    pub fn value(&self) -> (r: i64)
        ensures
            r == var_long_value(self@),
            is_var_long(self@),
    {
        proof {
            use_type_invariant(self);
            lemma_pow128_values();
            lemma_payload_bound(self.0@, 10, 2);
        }
        let bits: u64 = payload(self.0.as_slice());
        if bits < 0x8000_0000_0000_0000 {
            bits as i64
        } else {
            (bits as i128 - 0x1_0000_0000_0000_0000) as i64
        }
    }

    /// The bytes of the wire form.
    #[must_use]
    pub fn as_slice(&self) -> (r: &[u8])
        ensures
            r@ == self@,
            is_var_long(self@),
    {
        proof {
            use_type_invariant(self);
        }
        self.0.as_slice()
    }
}

impl Decode for VarLong {
    type V = Seq<u8>;

    open spec fn model(&self) -> Seq<u8> {
        self@
    }

    open spec fn parse(bytes: Seq<u8>) -> Result<(Seq<u8>, nat), DecodeFault> {
        parse_var_long(bytes)
    }

    fn decode(reader: &mut &[u8]) -> (r: Result<Self, DecodeError>) {
        let r = match take_var(reader, 10, 2, DecodeError::InvalidVarLong) {
            Ok(number) => Ok(VarLong(slice_to_vec(number))),
            Err(err) => Err(err),
        };
        assert(Self::parse(old(reader)@) == parse_var_long(old(reader)@));
        assert(r is Ok ==> r->Ok_0.model() == r->Ok_0.0@);
        r
    }
}

impl Encode for VarLong {
    open spec fn wire(&self) -> Result<Seq<u8>, EncodeFault> {
        Ok(self@)
    }

    fn encode(&self, writer: &mut Vec<u8>) -> (r: Result<usize, EncodeError>) {
        let bytes = self.0.as_slice();
        put_bytes(writer, bytes);
        assert(self.wire() == Ok::<Seq<u8>, EncodeFault>(self.0@));
        Ok(bytes.len())
    }
}

/// Every 64-bit number has a VarLong, which stands for that number again and
/// is found whole at the front of whatever follows it.
pub proof fn lemma_var_long_round_trip(value: int, rest: Seq<u8>)
    requires
        i64::MIN <= value <= i64::MAX,
    ensures
        is_var_long(var_long_bytes(value)),
        is_shortest(var_long_bytes(value)),
        var_long_value(var_long_bytes(value)) == value,
        parse_var_long(var_long_bytes(value) + rest) == Ok::<(Seq<u8>, nat), DecodeFault>(
            (var_long_bytes(value), var_long_bytes(value).len()),
        ),
{
    let bytes = var_long_bytes(value);
    lemma_pow128_values();
    lemma_groups(unsigned64(value), 10, 2);
    assert((bytes + rest).take(bytes.len() as int) == bytes);
    lemma_scan_whole(bytes + rest, 0, bytes.len(), 10, 2);
}

/// A VarLong in its shortest form is the one that `VarLong::new` makes of
/// its value.
pub proof fn lemma_var_long_shortest(bytes: Seq<u8>)
    requires
        is_var_long(bytes),
        is_shortest(bytes),
    ensures
        i64::MIN <= var_long_value(bytes) <= i64::MAX,
        var_long_bytes(var_long_value(bytes)) == bytes,
{
    lemma_pow128_values();
    lemma_payload_bound(bytes, 10, 2);
    lemma_groups_of_payload(bytes, 10, 2);
}

} // verus!
