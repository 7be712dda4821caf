//! Big-endian integers as byte sequences.

use vstd::prelude::*;
use vstd::slice::slice_subrange;

use crate::codec::dec::DecodeError;

verus! {

/// 256 to the power `n`: one more than the largest value that `n` bytes hold.
pub open spec fn pow256(n: nat) -> nat
    decreases n,
{
    if n == 0 {
        1
    } else {
        256 * pow256((n - 1) as nat)
    }
}

/// The number that a byte sequence spells, most significant byte first.
pub open spec fn be_value(bytes: Seq<u8>) -> nat
    decreases bytes.len(),
{
    if bytes.len() == 0 {
        0
    } else {
        256 * be_value(bytes.drop_last()) + bytes.last() as nat
    }
}

/// The `width` low-order bytes of `value`, most significant byte first.
pub open spec fn be_bytes(value: nat, width: nat) -> Seq<u8>
    decreases width,
{
    if width == 0 {
        Seq::empty()
    } else {
        be_bytes(value / 256, (width - 1) as nat).push((value % 256) as u8)
    }
}

pub proof fn lemma_pow256_grows(m: nat, n: nat)
    requires
        m <= n,
    ensures
        0 < pow256(m) <= pow256(n),
    decreases n,
{
    if m < n {
        lemma_pow256_grows(m, (n - 1) as nat);
    } else if n > 0 {
        lemma_pow256_grows((m - 1) as nat, (n - 1) as nat);
    }
}

/// The widths that the protocol's integers use, as numbers.
pub proof fn lemma_pow256_values()
    ensures
        pow256(1) == 0x100,
        pow256(2) == 0x1_0000,
        pow256(4) == 0x1_0000_0000,
        pow256(8) == 0x1_0000_0000_0000_0000,
        pow256(16) == 0x1_0000_0000_0000_0000_0000_0000_0000_0000,
{
    reveal_with_fuel(pow256, 17);
}

/// `n` bytes spell a number below 256 to the `n`.
pub proof fn lemma_be_value_bound(bytes: Seq<u8>)
    ensures
        be_value(bytes) < pow256(bytes.len()),
    decreases bytes.len(),
{
    if bytes.len() > 0 {
        lemma_be_value_bound(bytes.drop_last());
    }
}

pub proof fn lemma_be_bytes_len(value: nat, width: nat)
    ensures
        be_bytes(value, width).len() == width,
    decreases width,
{
    if width > 0 {
        lemma_be_bytes_len(value / 256, (width - 1) as nat);
    }
}

/// Reading back the bytes of a number that fits gives the number.
pub proof fn lemma_be_value_of_bytes(value: nat, width: nat)
    requires
        value < pow256(width),
    ensures
        be_value(be_bytes(value, width)) == value,
    decreases width,
{
    if width > 0 {
        let rest = be_bytes(value / 256, (width - 1) as nat);
        lemma_be_value_of_bytes(value / 256, (width - 1) as nat);
        assert(be_bytes(value, width).drop_last() == rest);
    }
}

/// Writing the number that bytes spell gives the bytes back.
pub proof fn lemma_be_bytes_of_value(bytes: Seq<u8>)
    ensures
        be_bytes(be_value(bytes), bytes.len()) == bytes,
    decreases bytes.len(),
{
    if bytes.len() > 0 {
        lemma_be_bytes_of_value(bytes.drop_last());
        assert(be_value(bytes) / 256 == be_value(bytes.drop_last()));
        assert(bytes.drop_last().push(bytes.last()) == bytes);
    }
}

/// Takes the next `n` bytes off the reader, or fails with the reader untouched.
pub fn read_exact<'a>(reader: &mut &'a [u8], n: usize) -> (r: Result<&'a [u8], DecodeError>)
    ensures
        match r {
            Ok(taken) => n <= old(reader)@.len() && taken@ == old(reader)@.take(n as int)
                && final(reader)@ == old(reader)@.skip(n as int),
            Err(e) => n > old(reader)@.len() && e@ == crate::codec::dec::DecodeFault::UnexpectedEnd
                && final(reader)@ == old(reader)@,
        },
{
    let all: &'a [u8] = *reader;
    if n <= all.len() {
        *reader = slice_subrange(all, n, all.len());
        Ok(slice_subrange(all, 0, n))
    } else {
        Err(DecodeError::UnexpectedEnd)
    }
}

/// Appends `bytes` to the writer.
pub fn put_bytes(writer: &mut Vec<u8>, bytes: &[u8])
    ensures
        final(writer)@ == old(writer)@ + bytes@,
{
    writer.extend_from_slice(bytes);
    assert(writer@ =~= old(writer)@ + bytes@);
}

/// The number that up to sixteen bytes spell, most significant byte first.
pub(crate) fn get_be(bytes: &[u8]) -> (value: u128)
    requires
        bytes@.len() <= 16,
    ensures
        value == be_value(bytes@),
{
    let mut value: u128 = 0;
    let mut i: usize = 0;
    while i < bytes.len()
        invariant
            i <= bytes@.len() <= 16,
            value == be_value(bytes@.take(i as int)),
        decreases bytes@.len() - i,
    {
        proof {
            let next = bytes@.take(i + 1);
            assert(next.drop_last() == bytes@.take(i as int));
            lemma_be_value_bound(bytes@.take(i as int));
            lemma_be_value_bound(next);
            lemma_pow256_grows(next.len(), 16);
            lemma_pow256_values();
        }
        value = value * 256 + bytes[i] as u128;
        i += 1;
    }
    proof {
        assert(bytes@.take(i as int) == bytes@);
    }
    value
}

/// Appends the `width` low-order bytes of `value`, most significant byte first.
pub fn put_be(writer: &mut Vec<u8>, value: u128, width: usize)
    ensures
        final(writer)@ == old(writer)@ + be_bytes(value as nat, width as nat),
    decreases width,
{
    if width > 0 {
        put_be(writer, value / 256, width - 1);
        writer.push((value % 256) as u8);
    }
}

} // verus!
