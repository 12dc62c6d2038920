//! The unit value: an empty encoding, carried by one empty chunk.

use vstd::prelude::*;
use crate::serialization::{Deserializable, Deserializer, Serializable, Serializer};

verus! {

impl Serializer for () {
    open spec fn pending(&self) -> Seq<u8> {
        Seq::<u8>::empty()
    }

    fn fill(&mut self, buf: &mut [u8]) -> (r: Option<usize>)
        ensures
            r == Some(0usize),
            final(buf)@ == old(buf)@,
    {
        assert(buf@ =~= Seq::<u8>::empty() + buf@.skip(0));
        Some(0)
    }
}

impl Serializable for () {
    type Serializer<'s> = ();

    open spec fn encoding(&self) -> Seq<u8> {
        Seq::<u8>::empty()
    }

    fn serializer(&self) -> (s: Self::Serializer<'_>) {
        ()
    }
}

/// The history of a decoder that has taken its one empty chunk.
pub open spec fn one_empty_chunk() -> Seq<Seq<u8>> {
    seq![Seq::<u8>::empty()]
}

/// The decoder of the unit value is a flag: whether the one empty chunk has
/// arrived. It accepts that chunk once and nothing else.
impl Deserializer<()> for bool {
    type UpdateError = ();

    type FinalizeError = ();

    open spec fn reached(&self, history: Seq<Seq<u8>>) -> bool {
        if *self {
            history == one_empty_chunk()
        } else {
            history.len() == 0
        }
    }

    open spec fn accepts(history: Seq<Seq<u8>>, chunk: Seq<u8>) -> bool {
        history.len() == 0 && chunk.len() == 0
    }

    open spec fn finishes(history: Seq<Seq<u8>>) -> bool {
        history.len() == 1
    }

    open spec fn decodes(history: Seq<Seq<u8>>, value: &()) -> bool {
        true
    }

    fn update(&mut self, slice: &[u8]) -> (r: Result<(), Self::UpdateError>)
        ensures
            r is Ok <==> !*old(self) && slice@.len() == 0,
            r is Ok ==> *final(self),
            r is Err ==> *final(self) == *old(self),
    {
        if !*self && slice.len() == 0 {
            *self = true;
            proof {
                assert forall|history: Seq<Seq<u8>>| #[trigger]
                    old(self).reached(history) implies self.reached(history.push(slice@)) by {
                    assert(slice@ =~= Seq::<u8>::empty());
                    assert(history.push(slice@) =~= one_empty_chunk());
                }
            }
            Ok(())
        } else {
            Err(())
        }
    }

    fn finalize(self) -> (r: Result<(), Self::FinalizeError>)
        ensures
            r is Ok <==> self,
    {
        if self {
            Ok(())
        } else {
            Err(())
        }
    }
}

impl Deserializable for () {
    type Deserializer = bool;

    fn deserializer() -> (d: Self::Deserializer) {
        false
    }
}

} // verus!
