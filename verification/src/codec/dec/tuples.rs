//! Tuples decode as their elements do, one after the other: a tuple is
//! the tuple of all its elements but the last, and then the last.

use vstd::prelude::*;

use super::decode::Decode;
use super::error::{DecodeError, DecodeFault};

verus! {

impl<T1> Decode for (T1,) where T1: Decode {
    type V = (T1::V,);

    open spec fn model(&self) -> (T1::V,) {
        (self.0.model(),)
    }

    open spec fn parse(bytes: Seq<u8>) -> Result<(Self::V, nat), DecodeFault> {
        match T1::parse(bytes) {
            Ok((value, taken)) => Ok(((value,), taken)),
            Err(fault) => Err(fault),
        }
    }

    fn decode(reader: &mut &[u8]) -> (r: Result<Self, DecodeError>) {
        Ok((T1::decode(reader)?,))
    }
}

impl<T1, T2> Decode for (T1, T2) where T1: Decode, T2: Decode {
    type V = (T1::V, T2::V);

    open spec fn model(&self) -> (T1::V, T2::V) {
        (self.0.model(), self.1.model())
    }

    open spec fn parse(bytes: Seq<u8>) -> Result<(Self::V, nat), DecodeFault> {
        match <(T1,)>::parse(bytes) {
            Ok((front, at)) => match T2::parse(bytes.skip(at as int)) {
                Ok((last, taken)) => Ok(((front.0, last), at + taken)),
                Err(fault) => Err(fault),
            },
            Err(fault) => Err(fault),
        }
    }

    fn decode(reader: &mut &[u8]) -> (r: Result<Self, DecodeError>) {
        let start: &[u8] = *reader;
        let front = <(T1,)>::decode(reader)?;
        let ghost at = <(T1,)>::parse(start@)->Ok_0.1;
        let last = match T2::decode(reader) {
            Ok(value) => value,
            Err(err) => {
                *reader = start;
                return Err(err);
            },
        };
        let ghost taken = T2::parse(start@.skip(at as int))->Ok_0.1;
        assert(start@.skip(at as int).skip(taken as int) == start@.skip((at + taken) as int));
        Ok((front.0, last))
    }
}

impl<T1, T2, T3> Decode for (T1, T2, T3) where T1: Decode, T2: Decode, T3: Decode {
    type V = (T1::V, T2::V, T3::V);

    open spec fn model(&self) -> (T1::V, T2::V, T3::V) {
        (self.0.model(), self.1.model(), self.2.model())
    }

    open spec fn parse(bytes: Seq<u8>) -> Result<(Self::V, nat), DecodeFault> {
        match <(T1, T2)>::parse(bytes) {
            Ok((front, at)) => match T3::parse(bytes.skip(at as int)) {
                Ok((last, taken)) => Ok(((front.0, front.1, last), at + taken)),
                Err(fault) => Err(fault),
            },
            Err(fault) => Err(fault),
        }
    }

    fn decode(reader: &mut &[u8]) -> (r: Result<Self, DecodeError>) {
        let start: &[u8] = *reader;
        let front = <(T1, T2)>::decode(reader)?;
        let ghost at = <(T1, T2)>::parse(start@)->Ok_0.1;
        let last = match T3::decode(reader) {
            Ok(value) => value,
            Err(err) => {
                *reader = start;
                return Err(err);
            },
        };
        let ghost taken = T3::parse(start@.skip(at as int))->Ok_0.1;
        assert(start@.skip(at as int).skip(taken as int) == start@.skip((at + taken) as int));
        Ok((front.0, front.1, last))
    }
}

impl<T1, T2, T3, T4> Decode for (T1, T2, T3, T4) where
    T1: Decode,
    T2: Decode,
    T3: Decode,
    T4: Decode,
{
    type V = (T1::V, T2::V, T3::V, T4::V);

    open spec fn model(&self) -> (T1::V, T2::V, T3::V, T4::V) {
        (self.0.model(), self.1.model(), self.2.model(), self.3.model())
    }

    open spec fn parse(bytes: Seq<u8>) -> Result<(Self::V, nat), DecodeFault> {
        match <(T1, T2, T3)>::parse(bytes) {
            Ok((front, at)) => match T4::parse(bytes.skip(at as int)) {
                Ok((last, taken)) => Ok(((front.0, front.1, front.2, last), at + taken)),
                Err(fault) => Err(fault),
            },
            Err(fault) => Err(fault),
        }
    }

    fn decode(reader: &mut &[u8]) -> (r: Result<Self, DecodeError>) {
        let start: &[u8] = *reader;
        let front = <(T1, T2, T3)>::decode(reader)?;
        let ghost at = <(T1, T2, T3)>::parse(start@)->Ok_0.1;
        let last = match T4::decode(reader) {
            Ok(value) => value,
            Err(err) => {
                *reader = start;
                return Err(err);
            },
        };
        let ghost taken = T4::parse(start@.skip(at as int))->Ok_0.1;
        assert(start@.skip(at as int).skip(taken as int) == start@.skip((at + taken) as int));
        Ok((front.0, front.1, front.2, last))
    }
}

impl<T1, T2, T3, T4, T5> Decode for (T1, T2, T3, T4, T5) where
    T1: Decode,
    T2: Decode,
    T3: Decode,
    T4: Decode,
    T5: Decode,
{
    type V = (T1::V, T2::V, T3::V, T4::V, T5::V);

    open spec fn model(&self) -> (T1::V, T2::V, T3::V, T4::V, T5::V) {
        (self.0.model(), self.1.model(), self.2.model(), self.3.model(), self.4.model())
    }

    open spec fn parse(bytes: Seq<u8>) -> Result<(Self::V, nat), DecodeFault> {
        match <(T1, T2, T3, T4)>::parse(bytes) {
            Ok((front, at)) => match T5::parse(bytes.skip(at as int)) {
                Ok((last, taken)) => Ok(((front.0, front.1, front.2, front.3, last), at + taken)),
                Err(fault) => Err(fault),
            },
            Err(fault) => Err(fault),
        }
    }

    fn decode(reader: &mut &[u8]) -> (r: Result<Self, DecodeError>) {
        let start: &[u8] = *reader;
        let front = <(T1, T2, T3, T4)>::decode(reader)?;
        let ghost at = <(T1, T2, T3, T4)>::parse(start@)->Ok_0.1;
        let last = match T5::decode(reader) {
            Ok(value) => value,
            Err(err) => {
                *reader = start;
                return Err(err);
            },
        };
        let ghost taken = T5::parse(start@.skip(at as int))->Ok_0.1;
        assert(start@.skip(at as int).skip(taken as int) == start@.skip((at + taken) as int));
        Ok((front.0, front.1, front.2, front.3, last))
    }
}

impl<T1, T2, T3, T4, T5, T6> Decode for (T1, T2, T3, T4, T5, T6) where
    T1: Decode,
    T2: Decode,
    T3: Decode,
    T4: Decode,
    T5: Decode,
    T6: Decode,
{
    type V = (T1::V, T2::V, T3::V, T4::V, T5::V, T6::V);

    open spec fn model(&self) -> (T1::V, T2::V, T3::V, T4::V, T5::V, T6::V) {
        (
            self.0.model(),
            self.1.model(),
            self.2.model(),
            self.3.model(),
            self.4.model(),
            self.5.model(),
        )
    }

    open spec fn parse(bytes: Seq<u8>) -> Result<(Self::V, nat), DecodeFault> {
        match <(T1, T2, T3, T4, T5)>::parse(bytes) {
            Ok((front, at)) => match T6::parse(bytes.skip(at as int)) {
                Ok((last, taken)) => Ok(
                    (
                        (front.0, front.1, front.2, front.3, front.4, last),
                        at + taken,
                    ),
                ),
                Err(fault) => Err(fault),
            },
            Err(fault) => Err(fault),
        }
    }

    fn decode(reader: &mut &[u8]) -> (r: Result<Self, DecodeError>) {
        let start: &[u8] = *reader;
        let front = <(T1, T2, T3, T4, T5)>::decode(reader)?;
        let ghost at = <(T1, T2, T3, T4, T5)>::parse(start@)->Ok_0.1;
        let last = match T6::decode(reader) {
            Ok(value) => value,
            Err(err) => {
                *reader = start;
                return Err(err);
            },
        };
        let ghost taken = T6::parse(start@.skip(at as int))->Ok_0.1;
        assert(start@.skip(at as int).skip(taken as int) == start@.skip((at + taken) as int));
        Ok((front.0, front.1, front.2, front.3, front.4, last))
    }
}

impl<T1, T2, T3, T4, T5, T6, T7> Decode for (T1, T2, T3, T4, T5, T6, T7) where
    T1: Decode,
    T2: Decode,
    T3: Decode,
    T4: Decode,
    T5: Decode,
    T6: Decode,
    T7: Decode,
{
    type V = (T1::V, T2::V, T3::V, T4::V, T5::V, T6::V, T7::V);

    open spec fn model(&self) -> (T1::V, T2::V, T3::V, T4::V, T5::V, T6::V, T7::V) {
        (
            self.0.model(),
            self.1.model(),
            self.2.model(),
            self.3.model(),
            self.4.model(),
            self.5.model(),
            self.6.model(),
        )
    }

    open spec fn parse(bytes: Seq<u8>) -> Result<(Self::V, nat), DecodeFault> {
        match <(T1, T2, T3, T4, T5, T6)>::parse(bytes) {
            Ok((front, at)) => match T7::parse(bytes.skip(at as int)) {
                Ok((last, taken)) => Ok(
                    (
                        (front.0, front.1, front.2, front.3, front.4, front.5, last),
                        at + taken,
                    ),
                ),
                Err(fault) => Err(fault),
            },
            Err(fault) => Err(fault),
        }
    }

    fn decode(reader: &mut &[u8]) -> (r: Result<Self, DecodeError>) {
        let start: &[u8] = *reader;
        let front = <(T1, T2, T3, T4, T5, T6)>::decode(reader)?;
        let ghost at = <(T1, T2, T3, T4, T5, T6)>::parse(start@)->Ok_0.1;
        let last = match T7::decode(reader) {
            Ok(value) => value,
            Err(err) => {
                *reader = start;
                return Err(err);
            },
        };
        let ghost taken = T7::parse(start@.skip(at as int))->Ok_0.1;
        assert(start@.skip(at as int).skip(taken as int) == start@.skip((at + taken) as int));
        Ok((front.0, front.1, front.2, front.3, front.4, front.5, last))
    }
}

impl<T1, T2, T3, T4, T5, T6, T7, T8> Decode for (T1, T2, T3, T4, T5, T6, T7, T8) where
    T1: Decode,
    T2: Decode,
    T3: Decode,
    T4: Decode,
    T5: Decode,
    T6: Decode,
    T7: Decode,
    T8: Decode,
{
    type V = (T1::V, T2::V, T3::V, T4::V, T5::V, T6::V, T7::V, T8::V);

    open spec fn model(&self) -> (T1::V, T2::V, T3::V, T4::V, T5::V, T6::V, T7::V, T8::V) {
        (
            self.0.model(),
            self.1.model(),
            self.2.model(),
            self.3.model(),
            self.4.model(),
            self.5.model(),
            self.6.model(),
            self.7.model(),
        )
    }

    open spec fn parse(bytes: Seq<u8>) -> Result<(Self::V, nat), DecodeFault> {
        match <(T1, T2, T3, T4, T5, T6, T7)>::parse(bytes) {
            Ok((front, at)) => match T8::parse(bytes.skip(at as int)) {
                Ok((last, taken)) => Ok(
                    (
                        (front.0, front.1, front.2, front.3, front.4, front.5, front.6, last),
                        at + taken,
                    ),
                ),
                Err(fault) => Err(fault),
            },
            Err(fault) => Err(fault),
        }
    }

    fn decode(reader: &mut &[u8]) -> (r: Result<Self, DecodeError>) {
        let start: &[u8] = *reader;
        let front = <(T1, T2, T3, T4, T5, T6, T7)>::decode(reader)?;
        let ghost at = <(T1, T2, T3, T4, T5, T6, T7)>::parse(start@)->Ok_0.1;
        let last = match T8::decode(reader) {
            Ok(value) => value,
            Err(err) => {
                *reader = start;
                return Err(err);
            },
        };
        let ghost taken = T8::parse(start@.skip(at as int))->Ok_0.1;
        assert(start@.skip(at as int).skip(taken as int) == start@.skip((at + taken) as int));
        Ok((front.0, front.1, front.2, front.3, front.4, front.5, front.6, last))
    }
}

impl<T1, T2, T3, T4, T5, T6, T7, T8, T9> Decode for (T1, T2, T3, T4, T5, T6, T7, T8, T9) where
    T1: Decode,
    T2: Decode,
    T3: Decode,
    T4: Decode,
    T5: Decode,
    T6: Decode,
    T7: Decode,
    T8: Decode,
    T9: Decode,
{
    type V = (T1::V, T2::V, T3::V, T4::V, T5::V, T6::V, T7::V, T8::V, T9::V);

    open spec fn model(&self) -> (T1::V, T2::V, T3::V, T4::V, T5::V, T6::V, T7::V, T8::V, T9::V) {
        (
            self.0.model(),
            self.1.model(),
            self.2.model(),
            self.3.model(),
            self.4.model(),
            self.5.model(),
            self.6.model(),
            self.7.model(),
            self.8.model(),
        )
    }

    open spec fn parse(bytes: Seq<u8>) -> Result<(Self::V, nat), DecodeFault> {
        match <(T1, T2, T3, T4, T5, T6, T7, T8)>::parse(bytes) {
            Ok((front, at)) => match T9::parse(bytes.skip(at as int)) {
                Ok((last, taken)) => Ok(
                    (
                        (
                            front.0,
                            front.1,
                            front.2,
                            front.3,
                            front.4,
                            front.5,
                            front.6,
                            front.7,
                            last,
                        ),
                        at + taken,
                    ),
                ),
                Err(fault) => Err(fault),
            },
            Err(fault) => Err(fault),
        }
    }

    fn decode(reader: &mut &[u8]) -> (r: Result<Self, DecodeError>) {
        let start: &[u8] = *reader;
        let front = <(T1, T2, T3, T4, T5, T6, T7, T8)>::decode(reader)?;
        let ghost at = <(T1, T2, T3, T4, T5, T6, T7, T8)>::parse(start@)->Ok_0.1;
        let last = match T9::decode(reader) {
            Ok(value) => value,
            Err(err) => {
                *reader = start;
                return Err(err);
            },
        };
        let ghost taken = T9::parse(start@.skip(at as int))->Ok_0.1;
        assert(start@.skip(at as int).skip(taken as int) == start@.skip((at + taken) as int));
        Ok((front.0, front.1, front.2, front.3, front.4, front.5, front.6, front.7, last))
    }
}

impl<T1, T2, T3, T4, T5, T6, T7, T8, T9, T10> Decode for (
    T1,
    T2,
    T3,
    T4,
    T5,
    T6,
    T7,
    T8,
    T9,
    T10,
) where
    T1: Decode,
    T2: Decode,
    T3: Decode,
    T4: Decode,
    T5: Decode,
    T6: Decode,
    T7: Decode,
    T8: Decode,
    T9: Decode,
    T10: Decode,
{
    type V = (T1::V, T2::V, T3::V, T4::V, T5::V, T6::V, T7::V, T8::V, T9::V, T10::V);

    open spec fn model(&self) -> Self::V {
        (
            self.0.model(),
            self.1.model(),
            self.2.model(),
            self.3.model(),
            self.4.model(),
            self.5.model(),
            self.6.model(),
            self.7.model(),
            self.8.model(),
            self.9.model(),
        )
    }

    open spec fn parse(bytes: Seq<u8>) -> Result<(Self::V, nat), DecodeFault> {
        match <(T1, T2, T3, T4, T5, T6, T7, T8, T9)>::parse(bytes) {
            Ok((front, at)) => match T10::parse(bytes.skip(at as int)) {
                Ok((last, taken)) => Ok(
                    (
                        (
                            front.0,
                            front.1,
                            front.2,
                            front.3,
                            front.4,
                            front.5,
                            front.6,
                            front.7,
                            front.8,
                            last,
                        ),
                        at + taken,
                    ),
                ),
                Err(fault) => Err(fault),
            },
            Err(fault) => Err(fault),
        }
    }

    fn decode(reader: &mut &[u8]) -> (r: Result<Self, DecodeError>) {
        let start: &[u8] = *reader;
        let front = <(T1, T2, T3, T4, T5, T6, T7, T8, T9)>::decode(reader)?;
        let ghost at = <(T1, T2, T3, T4, T5, T6, T7, T8, T9)>::parse(start@)->Ok_0.1;
        let last = match T10::decode(reader) {
            Ok(value) => value,
            Err(err) => {
                *reader = start;
                return Err(err);
            },
        };
        let ghost taken = T10::parse(start@.skip(at as int))->Ok_0.1;
        assert(start@.skip(at as int).skip(taken as int) == start@.skip((at + taken) as int));
        Ok((front.0, front.1, front.2, front.3, front.4, front.5, front.6, front.7, front.8, last))
    }
}

impl<T1, T2, T3, T4, T5, T6, T7, T8, T9, T10, T11> Decode for (
    T1,
    T2,
    T3,
    T4,
    T5,
    T6,
    T7,
    T8,
    T9,
    T10,
    T11,
) where
    T1: Decode,
    T2: Decode,
    T3: Decode,
    T4: Decode,
    T5: Decode,
    T6: Decode,
    T7: Decode,
    T8: Decode,
    T9: Decode,
    T10: Decode,
    T11: Decode,
{
    type V = (T1::V, T2::V, T3::V, T4::V, T5::V, T6::V, T7::V, T8::V, T9::V, T10::V, T11::V);

    open spec fn model(&self) -> Self::V {
        (
            self.0.model(),
            self.1.model(),
            self.2.model(),
            self.3.model(),
            self.4.model(),
            self.5.model(),
            self.6.model(),
            self.7.model(),
            self.8.model(),
            self.9.model(),
            self.10.model(),
        )
    }

    open spec fn parse(bytes: Seq<u8>) -> Result<(Self::V, nat), DecodeFault> {
        match <(T1, T2, T3, T4, T5, T6, T7, T8, T9, T10)>::parse(bytes) {
            Ok((front, at)) => match T11::parse(bytes.skip(at as int)) {
                Ok((last, taken)) => Ok(
                    (
                        (
                            front.0,
                            front.1,
                            front.2,
                            front.3,
                            front.4,
                            front.5,
                            front.6,
                            front.7,
                            front.8,
                            front.9,
                            last,
                        ),
                        at + taken,
                    ),
                ),
                Err(fault) => Err(fault),
            },
            Err(fault) => Err(fault),
        }
    }

    fn decode(reader: &mut &[u8]) -> (r: Result<Self, DecodeError>) {
        let start: &[u8] = *reader;
        let front = <(T1, T2, T3, T4, T5, T6, T7, T8, T9, T10)>::decode(reader)?;
        let ghost at = <(T1, T2, T3, T4, T5, T6, T7, T8, T9, T10)>::parse(start@)->Ok_0.1;
        let last = match T11::decode(reader) {
            Ok(value) => value,
            Err(err) => {
                *reader = start;
                return Err(err);
            },
        };
        let ghost taken = T11::parse(start@.skip(at as int))->Ok_0.1;
        assert(start@.skip(at as int).skip(taken as int) == start@.skip((at + taken) as int));
        Ok((
            front.0,
            front.1,
            front.2,
            front.3,
            front.4,
            front.5,
            front.6,
            front.7,
            front.8,
            front.9,
            last,
        ))
    }
}

impl<T1, T2, T3, T4, T5, T6, T7, T8, T9, T10, T11, T12> Decode for (
    T1,
    T2,
    T3,
    T4,
    T5,
    T6,
    T7,
    T8,
    T9,
    T10,
    T11,
    T12,
) where
    T1: Decode,
    T2: Decode,
    T3: Decode,
    T4: Decode,
    T5: Decode,
    T6: Decode,
    T7: Decode,
    T8: Decode,
    T9: Decode,
    T10: Decode,
    T11: Decode,
    T12: Decode,
{
    type V = (
        T1::V,
        T2::V,
        T3::V,
        T4::V,
        T5::V,
        T6::V,
        T7::V,
        T8::V,
        T9::V,
        T10::V,
        T11::V,
        T12::V,
    );

    open spec fn model(&self) -> Self::V {
        (
            self.0.model(),
            self.1.model(),
            self.2.model(),
            self.3.model(),
            self.4.model(),
            self.5.model(),
            self.6.model(),
            self.7.model(),
            self.8.model(),
            self.9.model(),
            self.10.model(),
            self.11.model(),
        )
    }

    open spec fn parse(bytes: Seq<u8>) -> Result<(Self::V, nat), DecodeFault> {
        match <(T1, T2, T3, T4, T5, T6, T7, T8, T9, T10, T11)>::parse(bytes) {
            Ok((front, at)) => match T12::parse(bytes.skip(at as int)) {
                Ok((last, taken)) => Ok(
                    (
                        (
                            front.0,
                            front.1,
                            front.2,
                            front.3,
                            front.4,
                            front.5,
                            front.6,
                            front.7,
                            front.8,
                            front.9,
                            front.10,
                            last,
                        ),
                        at + taken,
                    ),
                ),
                Err(fault) => Err(fault),
            },
            Err(fault) => Err(fault),
        }
    }

    fn decode(reader: &mut &[u8]) -> (r: Result<Self, DecodeError>) {
        let start: &[u8] = *reader;
        let front = <(T1, T2, T3, T4, T5, T6, T7, T8, T9, T10, T11)>::decode(reader)?;
        let ghost at = <(T1, T2, T3, T4, T5, T6, T7, T8, T9, T10, T11)>::parse(start@)->Ok_0.1;
        let last = match T12::decode(reader) {
            Ok(value) => value,
            Err(err) => {
                *reader = start;
                return Err(err);
            },
        };
        let ghost taken = T12::parse(start@.skip(at as int))->Ok_0.1;
        assert(start@.skip(at as int).skip(taken as int) == start@.skip((at + taken) as int));
        Ok((
            front.0,
            front.1,
            front.2,
            front.3,
            front.4,
            front.5,
            front.6,
            front.7,
            front.8,
            front.9,
            front.10,
            last,
        ))
    }
}

} // verus!
