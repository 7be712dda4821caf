//! Tuples encode as their elements do, one after the other: a tuple is
//! the tuple of all its elements but the last, and then the last.

use vstd::prelude::*;

use super::encode::Encode;
use super::error::{EncodeError, EncodeFault};

verus! {

impl<T1> Encode for (T1,) where T1: Encode {
    open spec fn wire(&self) -> Result<Seq<u8>, EncodeFault> {
        self.0.wire()
    }

    fn encode(&self, writer: &mut Vec<u8>) -> (r: Result<usize, EncodeError>) {
        self.0.encode(writer)
    }
}

impl<T1, T2> Encode for (T1, T2) where T1: Encode, T2: Encode {
    open spec fn wire(&self) -> Result<Seq<u8>, EncodeFault> {
        match (self.0,).wire() {
            Ok(front) => match self.1.wire() {
                Ok(last) => Ok(front + last),
                Err(fault) => Err(fault),
            },
            Err(fault) => Err(fault),
        }
    }

    fn encode(&self, writer: &mut Vec<u8>) -> (r: Result<usize, EncodeError>) {
        let start: usize = writer.len();
        let front = (&self.0,);
        front.encode(writer)?;
        if let Err(err) = self.1.encode(writer) {
            writer.truncate(start);
            assert(writer@ == old(writer)@);
            return Err(err);
        }
        proof {
            let bytes = front.wire()->Ok_0 + self.1.wire()->Ok_0;
            assert(writer@ == old(writer)@ + bytes);
        }
        Ok(writer.len() - start)
    }
}

impl<T1, T2, T3> Encode for (T1, T2, T3) where T1: Encode, T2: Encode, T3: Encode {
    open spec fn wire(&self) -> Result<Seq<u8>, EncodeFault> {
        match (self.0, self.1).wire() {
            Ok(front) => match self.2.wire() {
                Ok(last) => Ok(front + last),
                Err(fault) => Err(fault),
            },
            Err(fault) => Err(fault),
        }
    }

    fn encode(&self, writer: &mut Vec<u8>) -> (r: Result<usize, EncodeError>) {
        let start: usize = writer.len();
        let front = (&self.0, &self.1);
        front.encode(writer)?;
        if let Err(err) = self.2.encode(writer) {
            writer.truncate(start);
            assert(writer@ == old(writer)@);
            return Err(err);
        }
        proof {
            let bytes = front.wire()->Ok_0 + self.2.wire()->Ok_0;
            assert(writer@ == old(writer)@ + bytes);
        }
        Ok(writer.len() - start)
    }
}

impl<T1, T2, T3, T4> Encode for (T1, T2, T3, T4) where
    T1: Encode,
    T2: Encode,
    T3: Encode,
    T4: Encode,
{
    open spec fn wire(&self) -> Result<Seq<u8>, EncodeFault> {
        match (self.0, self.1, self.2).wire() {
            Ok(front) => match self.3.wire() {
                Ok(last) => Ok(front + last),
                Err(fault) => Err(fault),
            },
            Err(fault) => Err(fault),
        }
    }

    fn encode(&self, writer: &mut Vec<u8>) -> (r: Result<usize, EncodeError>) {
        let start: usize = writer.len();
        let front = (&self.0, &self.1, &self.2);
        front.encode(writer)?;
        if let Err(err) = self.3.encode(writer) {
            writer.truncate(start);
            assert(writer@ == old(writer)@);
            return Err(err);
        }
        proof {
            let bytes = front.wire()->Ok_0 + self.3.wire()->Ok_0;
            assert(writer@ == old(writer)@ + bytes);
        }
        Ok(writer.len() - start)
    }
}

impl<T1, T2, T3, T4, T5> Encode for (T1, T2, T3, T4, T5) where
    T1: Encode,
    T2: Encode,
    T3: Encode,
    T4: Encode,
    T5: Encode,
{
    open spec fn wire(&self) -> Result<Seq<u8>, EncodeFault> {
        match (self.0, self.1, self.2, self.3).wire() {
            Ok(front) => match self.4.wire() {
                Ok(last) => Ok(front + last),
                Err(fault) => Err(fault),
            },
            Err(fault) => Err(fault),
        }
    }

    fn encode(&self, writer: &mut Vec<u8>) -> (r: Result<usize, EncodeError>) {
        let start: usize = writer.len();
        let front = (&self.0, &self.1, &self.2, &self.3);
        front.encode(writer)?;
        if let Err(err) = self.4.encode(writer) {
            writer.truncate(start);
            assert(writer@ == old(writer)@);
            return Err(err);
        }
        proof {
            let bytes = front.wire()->Ok_0 + self.4.wire()->Ok_0;
            assert(writer@ == old(writer)@ + bytes);
        }
        Ok(writer.len() - start)
    }
}

impl<T1, T2, T3, T4, T5, T6> Encode for (T1, T2, T3, T4, T5, T6) where
    T1: Encode,
    T2: Encode,
    T3: Encode,
    T4: Encode,
    T5: Encode,
    T6: Encode,
{
    open spec fn wire(&self) -> Result<Seq<u8>, EncodeFault> {
        match (self.0, self.1, self.2, self.3, self.4).wire() {
            Ok(front) => match self.5.wire() {
                Ok(last) => Ok(front + last),
                Err(fault) => Err(fault),
            },
            Err(fault) => Err(fault),
        }
    }

    fn encode(&self, writer: &mut Vec<u8>) -> (r: Result<usize, EncodeError>) {
        let start: usize = writer.len();
        let front = (&self.0, &self.1, &self.2, &self.3, &self.4);
        front.encode(writer)?;
        if let Err(err) = self.5.encode(writer) {
            writer.truncate(start);
            assert(writer@ == old(writer)@);
            return Err(err);
        }
        proof {
            let bytes = front.wire()->Ok_0 + self.5.wire()->Ok_0;
            assert(writer@ == old(writer)@ + bytes);
        }
        Ok(writer.len() - start)
    }
}

impl<T1, T2, T3, T4, T5, T6, T7> Encode for (T1, T2, T3, T4, T5, T6, T7) where
    T1: Encode,
    T2: Encode,
    T3: Encode,
    T4: Encode,
    T5: Encode,
    T6: Encode,
    T7: Encode,
{
    open spec fn wire(&self) -> Result<Seq<u8>, EncodeFault> {
        match (self.0, self.1, self.2, self.3, self.4, self.5).wire() {
            Ok(front) => match self.6.wire() {
                Ok(last) => Ok(front + last),
                Err(fault) => Err(fault),
            },
            Err(fault) => Err(fault),
        }
    }

    fn encode(&self, writer: &mut Vec<u8>) -> (r: Result<usize, EncodeError>) {
        let start: usize = writer.len();
        let front = (&self.0, &self.1, &self.2, &self.3, &self.4, &self.5);
        front.encode(writer)?;
        if let Err(err) = self.6.encode(writer) {
            writer.truncate(start);
            assert(writer@ == old(writer)@);
            return Err(err);
        }
        proof {
            let bytes = front.wire()->Ok_0 + self.6.wire()->Ok_0;
            assert(writer@ == old(writer)@ + bytes);
        }
        Ok(writer.len() - start)
    }
}

impl<T1, T2, T3, T4, T5, T6, T7, T8> Encode for (T1, T2, T3, T4, T5, T6, T7, T8) where
    T1: Encode,
    T2: Encode,
    T3: Encode,
    T4: Encode,
    T5: Encode,
    T6: Encode,
    T7: Encode,
    T8: Encode,
{
    open spec fn wire(&self) -> Result<Seq<u8>, EncodeFault> {
        match (self.0, self.1, self.2, self.3, self.4, self.5, self.6).wire() {
            Ok(front) => match self.7.wire() {
                Ok(last) => Ok(front + last),
                Err(fault) => Err(fault),
            },
            Err(fault) => Err(fault),
        }
    }

    fn encode(&self, writer: &mut Vec<u8>) -> (r: Result<usize, EncodeError>) {
        let start: usize = writer.len();
        let front = (&self.0, &self.1, &self.2, &self.3, &self.4, &self.5, &self.6);
        front.encode(writer)?;
        if let Err(err) = self.7.encode(writer) {
            writer.truncate(start);
            assert(writer@ == old(writer)@);
            return Err(err);
        }
        proof {
            let bytes = front.wire()->Ok_0 + self.7.wire()->Ok_0;
            assert(writer@ == old(writer)@ + bytes);
        }
        Ok(writer.len() - start)
    }
}

impl<T1, T2, T3, T4, T5, T6, T7, T8, T9> Encode for (T1, T2, T3, T4, T5, T6, T7, T8, T9) where
    T1: Encode,
    T2: Encode,
    T3: Encode,
    T4: Encode,
    T5: Encode,
    T6: Encode,
    T7: Encode,
    T8: Encode,
    T9: Encode,
{
    open spec fn wire(&self) -> Result<Seq<u8>, EncodeFault> {
        match (self.0, self.1, self.2, self.3, self.4, self.5, self.6, self.7).wire() {
            Ok(front) => match self.8.wire() {
                Ok(last) => Ok(front + last),
                Err(fault) => Err(fault),
            },
            Err(fault) => Err(fault),
        }
    }

    fn encode(&self, writer: &mut Vec<u8>) -> (r: Result<usize, EncodeError>) {
        let start: usize = writer.len();
        let front = (&self.0, &self.1, &self.2, &self.3, &self.4, &self.5, &self.6, &self.7);
        front.encode(writer)?;
        if let Err(err) = self.8.encode(writer) {
            writer.truncate(start);
            assert(writer@ == old(writer)@);
            return Err(err);
        }
        proof {
            let bytes = front.wire()->Ok_0 + self.8.wire()->Ok_0;
            assert(writer@ == old(writer)@ + bytes);
        }
        Ok(writer.len() - start)
    }
}

impl<T1, T2, T3, T4, T5, T6, T7, T8, T9, T10> Encode for (
    T1,
    T2,
    T3,
    T4,
    T5,
    T6,
    T7,
    T8,
    T9,
    T10,
) where
    T1: Encode,
    T2: Encode,
    T3: Encode,
    T4: Encode,
    T5: Encode,
    T6: Encode,
    T7: Encode,
    T8: Encode,
    T9: Encode,
    T10: Encode,
{
    open spec fn wire(&self) -> Result<Seq<u8>, EncodeFault> {
        match (self.0, self.1, self.2, self.3, self.4, self.5, self.6, self.7, self.8).wire() {
            Ok(front) => match self.9.wire() {
                Ok(last) => Ok(front + last),
                Err(fault) => Err(fault),
            },
            Err(fault) => Err(fault),
        }
    }

    fn encode(&self, writer: &mut Vec<u8>) -> (r: Result<usize, EncodeError>) {
        let start: usize = writer.len();
        let front = (
            &self.0,
            &self.1,
            &self.2,
            &self.3,
            &self.4,
            &self.5,
            &self.6,
            &self.7,
            &self.8,
        );
        front.encode(writer)?;
        if let Err(err) = self.9.encode(writer) {
            writer.truncate(start);
            assert(writer@ == old(writer)@);
            return Err(err);
        }
        proof {
            let bytes = front.wire()->Ok_0 + self.9.wire()->Ok_0;
            assert(writer@ == old(writer)@ + bytes);
        }
        Ok(writer.len() - start)
    }
}

impl<T1, T2, T3, T4, T5, T6, T7, T8, T9, T10, T11> Encode for (
    T1,
    T2,
    T3,
    T4,
    T5,
    T6,
    T7,
    T8,
    T9,
    T10,
    T11,
) where
    T1: Encode,
    T2: Encode,
    T3: Encode,
    T4: Encode,
    T5: Encode,
    T6: Encode,
    T7: Encode,
    T8: Encode,
    T9: Encode,
    T10: Encode,
    T11: Encode,
{
    open spec fn wire(&self) -> Result<Seq<u8>, EncodeFault> {
        match (
            self.0,
            self.1,
            self.2,
            self.3,
            self.4,
            self.5,
            self.6,
            self.7,
            self.8,
            self.9,
        ).wire() {
            Ok(front) => match self.10.wire() {
                Ok(last) => Ok(front + last),
                Err(fault) => Err(fault),
            },
            Err(fault) => Err(fault),
        }
    }

    fn encode(&self, writer: &mut Vec<u8>) -> (r: Result<usize, EncodeError>) {
        let start: usize = writer.len();
        let front = (
            &self.0,
            &self.1,
            &self.2,
            &self.3,
            &self.4,
            &self.5,
            &self.6,
            &self.7,
            &self.8,
            &self.9,
        );
        front.encode(writer)?;
        if let Err(err) = self.10.encode(writer) {
            writer.truncate(start);
            assert(writer@ == old(writer)@);
            return Err(err);
        }
        proof {
            let bytes = front.wire()->Ok_0 + self.10.wire()->Ok_0;
            assert(writer@ == old(writer)@ + bytes);
        }
        Ok(writer.len() - start)
    }
}

impl<T1, T2, T3, T4, T5, T6, T7, T8, T9, T10, T11, T12> Encode for (
    T1,
    T2,
    T3,
    T4,
    T5,
    T6,
    T7,
    T8,
    T9,
    T10,
    T11,
    T12,
) where
    T1: Encode,
    T2: Encode,
    T3: Encode,
    T4: Encode,
    T5: Encode,
    T6: Encode,
    T7: Encode,
    T8: Encode,
    T9: Encode,
    T10: Encode,
    T11: Encode,
    T12: Encode,
{
    open spec fn wire(&self) -> Result<Seq<u8>, EncodeFault> {
        match (
            self.0,
            self.1,
            self.2,
            self.3,
            self.4,
            self.5,
            self.6,
            self.7,
            self.8,
            self.9,
            self.10,
        ).wire() {
            Ok(front) => match self.11.wire() {
                Ok(last) => Ok(front + last),
                Err(fault) => Err(fault),
            },
            Err(fault) => Err(fault),
        }
    }

    fn encode(&self, writer: &mut Vec<u8>) -> (r: Result<usize, EncodeError>) {
        let start: usize = writer.len();
        let front = (
            &self.0,
            &self.1,
            &self.2,
            &self.3,
            &self.4,
            &self.5,
            &self.6,
            &self.7,
            &self.8,
            &self.9,
            &self.10,
        );
        front.encode(writer)?;
        if let Err(err) = self.11.encode(writer) {
            writer.truncate(start);
            assert(writer@ == old(writer)@);
            return Err(err);
        }
        proof {
            let bytes = front.wire()->Ok_0 + self.11.wire()->Ok_0;
            assert(writer@ == old(writer)@ + bytes);
        }
        Ok(writer.len() - start)
    }
}

} // verus!
