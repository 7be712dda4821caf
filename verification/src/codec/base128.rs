//! Little-endian base-128 numbers: seven payload bits to a byte, the high bit
//! set on every byte but the last. VarInt and VarLong are this format with a
//! cap on the number of bytes and on the payload of the last one.

use vstd::prelude::*;
use vstd::slice::slice_subrange;

use crate::codec::dec::{DecodeError, DecodeFault};

verus! {

/// The payload bits of a byte.
pub const SEGMENT_MASK: u8 = 0b0111_1111;

/// The bit that says another byte follows.
pub const CONTINUE_MASK: u8 = 0b1000_0000;

/// 128 to the power `n`.
pub open spec fn pow128(n: nat) -> nat
    decreases n,
{
    if n == 0 {
        1
    } else {
        128 * pow128((n - 1) as nat)
    }
}

/// The shortest byte string that spells `bits`.
pub open spec fn groups_of(bits: nat) -> Seq<u8>
    decreases bits,
{
    if bits < 128 {
        seq![bits as u8]
    } else {
        seq![(bits % 128 + 128) as u8] + groups_of(bits / 128)
    }
}

/// The number that the payload bits of a byte string spell, least
/// significant group first.
pub open spec fn payload_of(bytes: Seq<u8>) -> nat
    decreases bytes.len(),
{
    if bytes.len() == 0 {
        0
    } else {
        (bytes[0] % 128) as nat + 128 * payload_of(bytes.drop_first())
    }
}

/// Whether `bytes` is exactly one number of at most `max` bytes: every byte
/// but the last continues, the last does not, and a last byte in place `max`
/// stays below `top`.
pub open spec fn is_var(bytes: Seq<u8>, max: nat, top: nat) -> bool {
    &&& 1 <= bytes.len() <= max
    &&& forall|i: int| 0 <= i < bytes.len() - 1 ==> bytes[i] >= 128
    &&& bytes.last() < 128
    &&& bytes.len() == max ==> bytes[max - 1] < top
}

/// Whether `bytes` is the shortest spelling of its payload.
pub open spec fn is_shortest(bytes: Seq<u8>) -> bool {
    bytes.len() > 1 ==> bytes.last() != 0
}

/// What stands at the front of a byte string.
pub enum Scan {
    /// A whole number, of this many bytes.
    Whole(nat),
    /// The input ends inside the number.
    Short,
    /// The number claims more bits than `max` bytes capped by `top` can hold.
    Overlong,
}

/// Looks for the end of the number that starts at the front of `bytes`,
/// having seen `at` continuing bytes.
pub open spec fn scan(bytes: Seq<u8>, at: nat, max: nat, top: nat) -> Scan
    decreases max - at,
{
    if at >= max {
        Scan::Overlong
    } else if at >= bytes.len() {
        Scan::Short
    } else if at + 1 == max && bytes[at as int] >= top {
        Scan::Overlong
    } else if bytes[at as int] < 128 {
        Scan::Whole(at + 1)
    } else {
        scan(bytes, at + 1, max, top)
    }
}

/// A number below `top * 128^(max-1)` has a spelling within the caps, and the
/// spelling reads back as the number.
pub proof fn lemma_groups(bits: nat, max: nat, top: nat)
    requires
        1 <= max,
        1 <= top <= 128,
        bits < top * pow128((max - 1) as nat),
    ensures
        is_var(groups_of(bits), max, top),
        is_shortest(groups_of(bits)),
        payload_of(groups_of(bits)) == bits,
    decreases bits,
{
    let groups = groups_of(bits);
    if bits < 128 {
        assert(groups.drop_first() == Seq::<u8>::empty());
        assert(payload_of(groups.drop_first()) == 0);
    } else {
        let smaller = pow128((max - 2) as nat);
        if max == 1 {
            assert(pow128(0) == 1);
            assert(top * 1 == top) by (nonlinear_arith);
        }
        assert(top * (128 * smaller) == 128 * (top * smaller)) by (nonlinear_arith);
        lemma_groups(bits / 128, (max - 1) as nat, top);
        let rest = groups_of(bits / 128);
        assert(groups.drop_first() == rest);
        assert(groups.last() == rest.last());
        assert forall|i: int| 0 <= i < groups.len() - 1 implies groups[i] >= 128 by {
            if i > 0 {
                assert(groups[i] == rest[i - 1]);
            }
        }
        if groups.len() == max {
            assert(groups[max - 1] == rest[max - 2]);
        }
    }
}

/// The payload of a number within the caps is below `top * 128^(max-1)`.
pub proof fn lemma_payload_bound(bytes: Seq<u8>, max: nat, top: nat)
    requires
        is_var(bytes, max, top),
        1 <= top <= 128,
    ensures
        payload_of(bytes) < top * pow128((max - 1) as nat),
    decreases bytes.len(),
{
    let rest = bytes.drop_first();
    if bytes.len() == 1 {
        assert(payload_of(rest) == 0);
        if max == 1 {
            assert(top * 1 == top) by (nonlinear_arith);
        } else {
            let smaller = pow128((max - 2) as nat);
            lemma_pow128_positive((max - 2) as nat);
            assert(top * (128 * smaller) >= 128) by (nonlinear_arith)
                requires
                    top >= 1,
                    smaller >= 1,
            ;
        }
    } else {
        assert(rest.last() == bytes.last());
        assert forall|i: int| 0 <= i < rest.len() - 1 implies rest[i] >= 128 by {
            assert(rest[i] == bytes[i + 1]);
        }
        if rest.len() == max - 1 {
            assert(rest[max - 2] == bytes[max - 1]);
        }
        lemma_payload_bound(rest, (max - 1) as nat, top);
        let smaller = pow128((max - 2) as nat);
        assert(top * (128 * smaller) == 128 * (top * smaller)) by (nonlinear_arith);
    }
}

pub proof fn lemma_pow128_positive(n: nat)
    ensures
        pow128(n) >= 1,
    decreases n,
{
    if n > 0 {
        lemma_pow128_positive((n - 1) as nat);
    }
}

/// The caps of the two formats, as numbers.
pub proof fn lemma_pow128_values()
    ensures
        16 * pow128(4) == 0x1_0000_0000,
        2 * pow128(9) == 0x1_0000_0000_0000_0000,
{
    reveal_with_fuel(pow128, 10);
}

/// A number within the caps at the front of a byte string is found whole.
pub proof fn lemma_scan_whole(bytes: Seq<u8>, at: nat, len: nat, max: nat, top: nat)
    requires
        at < len <= bytes.len(),
        is_var(bytes.take(len as int), max, top),
        top <= 128,
    ensures
        scan(bytes, at, max, top) == Scan::Whole(len),
    decreases len - at,
{
    let number = bytes.take(len as int);
    assert(number[at as int] == bytes[at as int]);
    if at + 1 < len {
        lemma_scan_whole(bytes, at + 1, len, max, top);
    }
}

/// Where a whole number is found, the bytes up to there are within the caps.
pub proof fn lemma_scan_is_var(bytes: Seq<u8>, at: nat, max: nat, top: nat)
    requires
        scan(bytes, at, max, top) is Whole,
        forall|i: int| 0 <= i < at ==> bytes[i] >= 128,
    ensures
        at < scan(bytes, at, max, top)->Whole_0 <= bytes.len(),
        is_var(bytes.take(scan(bytes, at, max, top)->Whole_0 as int), max, top),
    decreases max - at,
{
    if !(at + 1 == max && bytes[at as int] >= top) && bytes[at as int] >= 128 {
        lemma_scan_is_var(bytes, at + 1, max, top);
    }
}

/// The payload of the tail of a byte string is no more than that of the whole.
pub proof fn lemma_payload_tail(bytes: Seq<u8>, from: nat)
    requires
        from <= bytes.len(),
    ensures
        payload_of(bytes.skip(from as int)) <= payload_of(bytes),
    decreases from,
{
    if from == 0 {
        assert(bytes.skip(0) == bytes);
    } else {
        lemma_payload_tail(bytes.drop_first(), (from - 1) as nat);
        assert(bytes.drop_first().skip(from - 1) == bytes.skip(from as int));
    }
}

/// The shortest spelling of a payload is the bytes it was read from, where
/// those were the shortest.
pub proof fn lemma_groups_of_payload(bytes: Seq<u8>, max: nat, top: nat)
    requires
        is_var(bytes, max, top),
        is_shortest(bytes),
    ensures
        groups_of(payload_of(bytes)) == bytes,
    decreases bytes.len(),
{
    let rest = bytes.drop_first();
    if bytes.len() == 1 {
        assert(payload_of(rest) == 0);
        assert(bytes == seq![bytes[0]]);
    } else {
        assert(rest.last() == bytes.last());
        assert forall|i: int| 0 <= i < rest.len() - 1 implies rest[i] >= 128 by {
            assert(rest[i] == bytes[i + 1]);
        }
        if rest.len() == max - 1 {
            assert(rest[max - 2] == bytes[max - 1]);
        }
        lemma_groups_of_payload(rest, (max - 1) as nat, top);
        lemma_payload_positive(rest, (max - 1) as nat, top);
        assert(bytes == seq![bytes[0]] + rest);
    }
}

/// A number whose last byte is not zero has a payload that is not zero.
pub proof fn lemma_payload_positive(bytes: Seq<u8>, max: nat, top: nat)
    requires
        is_var(bytes, max, top),
        bytes.last() != 0,
    ensures
        payload_of(bytes) > 0,
    decreases bytes.len(),
{
    let rest = bytes.drop_first();
    if bytes.len() == 1 {
        assert(payload_of(rest) == 0);
    } else {
        assert(rest.last() == bytes.last());
        assert forall|i: int| 0 <= i < rest.len() - 1 implies rest[i] >= 128 by {
            assert(rest[i] == bytes[i + 1]);
        }
        if rest.len() == max - 1 {
            assert(rest[max - 2] == bytes[max - 1]);
        }
        lemma_payload_positive(rest, (max - 1) as nat, top);
    }
}

/// The shortest spelling of `bits`.
pub fn groups(bits: u64) -> (bytes: Vec<u8>)
    ensures
        bytes@ == groups_of(bits as nat),
{
    let mut bytes: Vec<u8> = Vec::new();
    let mut rest: u64 = bits;
    loop
        invariant_except_break
            groups_of(bits as nat) == bytes@ + groups_of(rest as nat),
        ensures
            bytes@ == groups_of(bits as nat),
        decreases rest,
    {
        let low: u8 = #[verifier::truncate] ((rest & 0x7f) as u8);
        let next: u64 = rest >> 7;
        assert(low == rest % 128 && next == rest / 128) by (bit_vector)
            requires
                low == (rest & 0x7f) as u8,
                next == rest >> 7,
        ;
        if next == 0 {
            bytes.push(low & SEGMENT_MASK);
            assert(low & SEGMENT_MASK == low) by (bit_vector)
                requires
                    low < 128,
            ;
            break ;
        }
        bytes.push(low & SEGMENT_MASK | CONTINUE_MASK);
        assert(low & SEGMENT_MASK | CONTINUE_MASK == low + 128) by (bit_vector)
            requires
                low < 128,
        ;
        assert(groups_of(rest as nat) == seq![(rest % 128 + 128) as u8] + groups_of(
            next as nat,
        ));
        rest = next;
    }
    bytes
}

/// Takes the number at the front of the reader off it: up to `max` bytes,
/// the last of them below `top` where it stands in place `max`. Fails with
/// `invalid` where the number claims more, and with the reader untouched.
pub fn take_var<'a>(reader: &mut &'a [u8], max: usize, top: u8, invalid: DecodeError) -> (r: Result<
    &'a [u8],
    DecodeError,
>)
    ensures
        match scan(old(reader)@, 0, max as nat, top as nat) {
            Scan::Whole(len) => {
                &&& r matches Ok(number)
                &&& len <= old(reader)@.len()
                &&& number@ == old(reader)@.take(len as int)
                &&& is_var(number@, max as nat, top as nat)
                &&& final(reader)@ == old(reader)@.skip(len as int)
            },
            Scan::Short => {
                &&& r matches Err(e)
                &&& e@ == DecodeFault::UnexpectedEnd
                &&& final(reader)@ == old(reader)@
            },
            Scan::Overlong => {
                &&& r matches Err(e)
                &&& e == invalid
                &&& final(reader)@ == old(reader)@
            },
        },
{
    let all: &'a [u8] = *reader;
    let mut at: usize = 0;
    loop
        invariant
            at <= max,
            at <= all@.len(),
            *reader == all,
            all@ == old(reader)@,
            forall|i: int| 0 <= i < at ==> all@[i] >= 128,
            scan(all@, 0, max as nat, top as nat) == scan(all@, at as nat, max as nat, top as nat),
        decreases max - at,
    {
        if at >= max {
            return Err(invalid);
        }
        if at >= all.len() {
            return Err(DecodeError::UnexpectedEnd);
        }
        let byte = all[at];
        if at + 1 == max && byte >= top {
            return Err(invalid);
        }
        assert((byte & CONTINUE_MASK == 0) == (byte < 128)) by (bit_vector);
        if byte & CONTINUE_MASK == 0 {
            proof {
                lemma_scan_is_var(all@, at as nat, max as nat, top as nat);
            }
            *reader = slice_subrange(all, at + 1, all.len());
            return Ok(slice_subrange(all, 0, at + 1));
        }
        at += 1;
    }
}

/// The number that the payload bits of `bytes` spell.
pub(crate) fn payload(bytes: &[u8]) -> (bits: u64)
    requires
        payload_of(bytes@) <= u64::MAX,
    ensures
        bits == payload_of(bytes@),
{
    let mut bits: u64 = 0;
    let mut at: usize = bytes.len();
    proof {
        assert(bytes@.skip(at as int).len() == 0);
    }
    while at > 0
        invariant
            at <= bytes@.len(),
            bits == payload_of(bytes@.skip(at as int)),
            payload_of(bytes@) <= u64::MAX,
        decreases at,
    {
        at -= 1;
        let low: u8 = bytes[at] & SEGMENT_MASK;
        proof {
            let byte = bytes[at as int];
            assert(byte & SEGMENT_MASK == byte % 128) by (bit_vector);
            assert(bytes@.skip(at as int).drop_first() == bytes@.skip(at + 1));
            lemma_payload_tail(bytes@, at as nat);
        }
        bits = bits * 128 + low as u64;
    }
    proof {
        assert(bytes@.skip(0) == bytes@);
    }
    bits
}

} // verus!
