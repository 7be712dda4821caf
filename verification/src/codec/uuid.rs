use vstd::prelude::*;

use crate::codec::bytes::{be_bytes, get_be, lemma_be_bytes_len, put_be, read_exact};
use crate::codec::dec::{parse_be, Decode, DecodeError, DecodeFault};
use crate::codec::enc::{Encode, EncodeError, EncodeFault};
use crate::codec::text::{digit, digit_char, string_push};

verus! {

/// A 128-bit identifier.
#[derive(Debug, Clone, Copy, PartialEq, Eq, Structural)]
pub struct Uuid(pub u128);

impl View for Uuid {
    type V = u128;

    open spec fn view(&self) -> u128 {
        self.0
    }
}

/// 16 to the power `n`.
pub open spec fn pow16(n: nat) -> nat
    decreases n,
{
    if n == 0 {
        1
    } else {
        16 * pow16((n - 1) as nat)
    }
}

/// The hexadecimal digit of `value` that stands `place` places from the
/// right.
pub open spec fn hex_digit(value: u128, place: nat) -> nat {
    (value as nat / pow16(place)) % 16
}

/// Where the hyphens of the canonical form stand.
pub open spec fn is_hyphen(at: int) -> bool {
    at == 8 || at == 13 || at == 18 || at == 23
}

/// How many hexadecimal digits stand before place `at` of the canonical
/// form.
pub open spec fn digits_before(at: int) -> int {
    if at <= 8 {
        at
    } else if at <= 13 {
        at - 1
    } else if at <= 18 {
        at - 2
    } else if at <= 23 {
        at - 3
    } else {
        at - 4
    }
}

/// The canonical text of an identifier: its 32 hexadecimal digits in lower
/// case, most significant first, in groups of 8, 4, 4, 4 and 12 with a hyphen
/// between groups.
pub open spec fn uuid_text(value: u128) -> Seq<char> {
    Seq::new(
        36,
        |at: int|
            if is_hyphen(at) {
                '-'
            } else {
                digit_char(hex_digit(value, (31 - digits_before(at)) as nat))
            },
    )
}

proof fn lemma_pow16_positive(n: nat)
    ensures
        pow16(n) > 0,
    decreases n,
{
    if n > 0 {
        lemma_pow16_positive((n - 1) as nat);
    }
}

impl Uuid {
    #[must_use]
    pub fn null() -> (r: Self)
        ensures
            r@ == 0,
    {
        Self(0)
    }

    /// The canonical text, such as `12345678-9abc-def0-1234-56789abcdef0`.
    #[must_use]
    pub fn to_string(&self) -> (r: String)
        ensures
            r@ == uuid_text(self@),
    {
        // The characters are found from the right, where the digits are cheap.
        let mut chars: Vec<char> = Vec::new();
        while chars.len() < 36
            invariant
                chars@.len() <= 36,
            decreases 36 - chars@.len(),
        {
            chars.push('-');
        }
        let mut rest: u128 = self.0;
        let ghost mut place: nat = 0;
        let mut at: usize = 36;
        assert(pow16(0) == 1);
        while at > 0
            invariant
                at <= 36,
                chars@.len() == 36,
                place == 32 - digits_before(at as int),
                rest == self.0 as nat / pow16(place),
                forall|i: int| at <= i < 36 ==> chars@[i] == uuid_text(self@)[i],
            decreases at,
        {
            at -= 1;
            if at == 8 || at == 13 || at == 18 || at == 23 {
                chars.set(at, '-');
            } else {
                chars.set(at, digit((rest % 16) as u8));
                proof {
                    lemma_pow16_positive(place);
                    vstd::arithmetic::div_mod::lemma_div_denominator(
                        self.0 as int,
                        pow16(place) as int,
                        16,
                    );
                    assert(pow16(place + 1) == pow16(place) * 16) by (nonlinear_arith)
                        requires
                            pow16(place + 1) == 16 * pow16(place),
                    ;
                    place = place + 1;
                }
                rest = rest / 16;
            }
        }
        let mut text = String::new();
        let mut i: usize = 0;
        while i < 36
            invariant
                i <= 36,
                chars@ == uuid_text(self@),
                text@ == chars@.take(i as int),
            decreases 36 - i,
        {
            string_push(&mut text, chars[i]);
            proof {
                assert(chars@.take(i + 1) == chars@.take(i as int).push(chars@[i as int]));
            }
            i += 1;
        }
        proof {
            assert(chars@.take(36) == chars@);
        }
        text
    }
}

impl Decode for Uuid {
    type V = u128;

    open spec fn model(&self) -> u128 {
        self.0
    }

    /// Sixteen bytes, most significant first.
    open spec fn parse(bytes: Seq<u8>) -> Result<(u128, nat), DecodeFault> {
        match parse_be(bytes, 16) {
            Ok((value, taken)) => Ok((value as u128, taken)),
            Err(fault) => Err(fault),
        }
    }

    fn decode(reader: &mut &[u8]) -> (r: Result<Self, DecodeError>) {
        let bytes = read_exact(reader, 16)?;
        Ok(Self(get_be(bytes)))
    }
}

impl Encode for Uuid {
    open spec fn wire(&self) -> Result<Seq<u8>, EncodeFault> {
        Ok(be_bytes(self.0 as nat, 16))
    }

    fn encode(&self, writer: &mut Vec<u8>) -> (r: Result<usize, EncodeError>) {
        proof {
            lemma_be_bytes_len(self.0 as nat, 16);
        }
        put_be(writer, self.0, 16);
        Ok(16)
    }
}

} // verus!
