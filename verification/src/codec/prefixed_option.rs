use vstd::prelude::*;

use crate::codec::dec::{Decode, DecodeError, DecodeErrorContext, DecodeFault};
use crate::codec::enc::{Encode, EncodeError, EncodeErrorContext, EncodeFault};

verus! {

/// An optional value whose wire form is a boolean and then, where that is
/// true, the value.
#[derive(Debug, Clone, PartialEq, Eq)]
pub enum PrefixedOption<T> {
    Absent,
    Present(T),
}

impl<T> PrefixedOption<T> {
    #[must_use]
    pub fn is_some(&self) -> (r: bool)
        ensures
            r == (self is Present),
    {
        matches!(*self, Self::Present(_))
    }

    #[must_use]
    pub fn is_none(&self) -> (r: bool)
        ensures
            r == (self is Absent),
    {
        !self.is_some()
    }

    pub fn as_ref(&self) -> (r: PrefixedOption<&T>)
        ensures
            r is Present <==> self is Present,
            r is Present ==> r->Present_0 == self->Present_0,
    {
        match *self {
            Self::Present(ref value) => PrefixedOption::Present(value),
            Self::Absent => PrefixedOption::Absent,
        }
    }

    pub fn as_mut(&mut self) -> (r: PrefixedOption<&mut T>)
        ensures
            match *old(self) {
                PrefixedOption::Absent => *final(self) is Absent && r is Absent,
                PrefixedOption::Present(value) => *final(self) is Present && r is Present
                    && *r->Present_0 == value
                    && *final(r->Present_0) == (*final(self))->Present_0,
            },
    {
        match *self {
            Self::Present(ref mut value) => PrefixedOption::Present(value),
            Self::Absent => PrefixedOption::Absent,
        }
    }
}

impl<T> vstd::std_specs::convert::FromSpecImpl<Option<T>> for PrefixedOption<T> {
    open spec fn obeys_from_spec() -> bool {
        true
    }

    open spec fn from_spec(option: Option<T>) -> PrefixedOption<T> {
        match option {
            Some(value) => PrefixedOption::Present(value),
            None => PrefixedOption::Absent,
        }
    }
}

impl<T> From<Option<T>> for PrefixedOption<T> {
    fn from(option: Option<T>) -> (r: Self) {
        match option {
            Some(value) => Self::Present(value),
            None => Self::Absent,
        }
    }
}

impl<T> vstd::std_specs::convert::FromSpecImpl<PrefixedOption<T>> for Option<T> {
    open spec fn obeys_from_spec() -> bool {
        true
    }

    open spec fn from_spec(option: PrefixedOption<T>) -> Option<T> {
        match option {
            PrefixedOption::Present(value) => Some(value),
            PrefixedOption::Absent => None,
        }
    }
}

impl<T> From<PrefixedOption<T>> for Option<T> {
    fn from(option: PrefixedOption<T>) -> (r: Self) {
        match option {
            PrefixedOption::Present(value) => Some(value),
            PrefixedOption::Absent => None,
        }
    }
}

impl<T> Decode for PrefixedOption<T> where T: Decode {
    type V = Option<T::V>;

    open spec fn model(&self) -> Option<T::V> {
        match self {
            PrefixedOption::Present(value) => Some(value.model()),
            PrefixedOption::Absent => None,
        }
    }

    /// A boolean, and the value after it where the boolean is true.
    open spec fn parse(bytes: Seq<u8>) -> Result<(Option<T::V>, nat), DecodeFault> {
        match bool::parse(bytes) {
            Ok((is_some, taken)) => if is_some {
                match T::parse(bytes.skip(taken as int)) {
                    Ok((value, more)) => Ok((Some(value), taken + more)),
                    Err(fault) => Err(fault.context("Failed to decode prefixed option's value"@)),
                }
            } else {
                Ok((None, taken))
            },
            Err(fault) => Err(fault.context("Failed to decode prefixed option's boolean"@)),
        }
    }

    fn decode(reader: &mut &[u8]) -> (r: Result<Self, DecodeError>) {
        let start: &[u8] = *reader;
        let is_some = bool::decode(reader).err_context(
            "Failed to decode prefixed option's boolean",
        )?;

        if is_some {
            match T::decode(reader).err_context("Failed to decode prefixed option's value") {
                Ok(value) => {
                    proof {
                        let more = T::parse(start@.skip(1))->Ok_0.1;
                        assert(start@.skip(1).skip(more as int) == start@.skip((1 + more) as int));
                    }
                    Ok(Self::Present(value))
                },
                Err(err) => {
                    *reader = start;
                    Err(err)
                },
            }
        } else {
            Ok(Self::Absent)
        }
    }
}

impl<T> Encode for PrefixedOption<T> where T: Encode {
    /// A present value is a one and the value; an absent one is a zero.
    open spec fn wire(&self) -> Result<Seq<u8>, EncodeFault> {
        match self {
            PrefixedOption::Present(value) => match value.wire() {
                Ok(bytes) => Ok(seq![1u8] + bytes),
                Err(fault) => Err(fault.context("Failed to encode prefixed option's value"@)),
            },
            PrefixedOption::Absent => Ok(seq![0u8]),
        }
    }

    fn encode(&self, writer: &mut Vec<u8>) -> (r: Result<usize, EncodeError>) {
        let start: usize = writer.len();
        match self {
            Self::Present(value) => {
                true.encode(writer).err_context("Failed to encode prefixed option's boolean")?;
                match value.encode(writer).err_context("Failed to encode prefixed option's value") {
                    Ok(_) => {
                        proof {
                            let bytes = value.wire()->Ok_0;
                            assert(writer@ == old(writer)@ + (seq![1u8] + bytes));
                        }
                        Ok(writer.len() - start)
                    },
                    Err(err) => {
                        writer.truncate(start);
                        assert(writer@ == old(writer)@);
                        Err(err)
                    },
                }
            },
            Self::Absent => {
                let written_bytes = false.encode(writer).err_context(
                    "Failed to encode prefixed option's boolean",
                )?;
                Ok(written_bytes)
            },
        }
    }
}

} // verus!
