//! The type without values. It stands in where a generic type asks for an
//! error that never occurs; none of this can ever run.

use vstd::prelude::*;
use core::convert::Infallible;
use crate::serialization::{Deserializer, Serializable, Serializer};

verus! {

impl Serializer for Infallible {
    open spec fn pending(&self) -> Seq<u8> {
        Seq::<u8>::empty()
    }

    fn fill(&mut self, buf: &mut [u8]) -> (r: Option<usize>) {
        assert(buf@ =~= Seq::<u8>::empty() + buf@.skip(0));
        Some(0)
    }
}

impl Serializable for Infallible {
    type Serializer<'s> = Infallible;

    open spec fn encoding(&self) -> Seq<u8> {
        Seq::<u8>::empty()
    }

    fn serializer(&self) -> (s: Self::Serializer<'_>)
        ensures
            s == *self,
    {
        *self
    }
}

impl Deserializer<Infallible> for Infallible {
    type UpdateError = Infallible;

    type FinalizeError = Infallible;

    open spec fn reached(&self, history: Seq<Seq<u8>>) -> bool {
        true
    }

    open spec fn accepts(history: Seq<Seq<u8>>, chunk: Seq<u8>) -> bool {
        true
    }

    open spec fn finishes(history: Seq<Seq<u8>>) -> bool {
        true
    }

    open spec fn decodes(history: Seq<Seq<u8>>, value: &Infallible) -> bool {
        true
    }

    fn update(&mut self, _slice: &[u8]) -> (r: Result<(), Self::UpdateError>) {
        Ok(())
    }

    fn finalize(self) -> (r: Result<Infallible, Self::FinalizeError>)
        ensures
            r == Ok::<Infallible, Infallible>(self),
    {
        Ok(self)
    }
}

} // verus!
