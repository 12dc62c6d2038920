//! Byte buffers and fixed byte arrays.

use vstd::prelude::*;
use core::convert::Infallible;
use crate::serialization::{concat, lemma_concat_push, Buf, Deserializable, Deserializer, Serializable};

verus! {

impl Serializable for [u8] {
    type Serializer<'s> = Buf<'s>;

    open spec fn encoding(&self) -> Seq<u8> {
        self@
    }

    fn serializer(&self) -> (s: Self::Serializer<'_>) {
        Buf::new(self)
    }
}

impl Serializable for Vec<u8> {
    type Serializer<'s> = Buf<'s>;

    open spec fn encoding(&self) -> Seq<u8> {
        self@
    }

    fn serializer(&self) -> (s: Self::Serializer<'_>) {
        Buf::new(self.as_slice())
    }
}

impl Deserializable for Vec<u8> {
    type Deserializer = Vec<u8>;

    fn deserializer() -> (d: Self::Deserializer) {
        Vec::new()
    }
}

/// A byte buffer decodes itself: it gathers every chunk and never fails.
impl Deserializer<Vec<u8>> for Vec<u8> {
    type UpdateError = Infallible;

    type FinalizeError = Infallible;

    open spec fn reached(&self, history: Seq<Seq<u8>>) -> bool {
        self@ == concat(history)
    }

    open spec fn accepts(history: Seq<Seq<u8>>, chunk: Seq<u8>) -> bool {
        true
    }

    open spec fn finishes(history: Seq<Seq<u8>>) -> bool {
        true
    }

    open spec fn decodes(history: Seq<Seq<u8>>, value: &Vec<u8>) -> bool {
        value@ == concat(history)
    }

    fn update(&mut self, slice: &[u8]) -> (r: Result<(), Self::UpdateError>)
        ensures
            r is Ok,
            final(self)@ == old(self)@ + slice@,
    {
        gather(self, slice);
        proof {
            assert forall|history: Seq<Seq<u8>>| #[trigger]
                old(self).reached(history) implies self.reached(history.push(slice@)) by {
                lemma_concat_push(history, slice@);
            }
        }
        Ok(())
    }

    fn finalize(self) -> (r: Result<Vec<u8>, Self::FinalizeError>)
        ensures
            r matches Ok(value) && value@ == self@,
    {
        Ok(self)
    }
}

/// Appends the bytes of `slice` to `buf`.
pub(crate) fn gather(buf: &mut Vec<u8>, slice: &[u8])
    ensures
        final(buf)@ == old(buf)@ + slice@,
{
    let ghost before = buf@;
    let mut i: usize = 0;
    while i < slice.len()
        invariant
            i <= slice@.len(),
            buf@ == before + slice@.take(i as int),
        decreases slice@.len() - i,
    {
        buf.push(slice[i]);
        i = i + 1;
        assert(buf@ =~= before + slice@.take(i as int));
    }
    assert(slice@.take(i as int) =~= slice@);
}

/// The decoder of a fixed array of `N` bytes: a buffer that holds at most `N`
/// bytes, rejects a chunk that would overflow it, and finishes only when it
/// is full.
pub struct ArrayDeserializer<const N: usize> {
    buf: Vec<u8>,
}

impl<const N: usize> ArrayDeserializer<N> {
    /// The bytes gathered so far.
    pub closed spec fn gathered(&self) -> Seq<u8> {
        self.buf@
    }

    pub fn new() -> (d: Self)
        ensures
            d.gathered() == Seq::<u8>::empty(),
    {
        Self { buf: Vec::new() }
    }
}

impl<const N: usize> Deserializer<[u8; N]> for ArrayDeserializer<N> {
    type UpdateError = ();

    /// The bytes that were gathered, too few to fill the array.
    type FinalizeError = Vec<u8>;

    open spec fn reached(&self, history: Seq<Seq<u8>>) -> bool {
        &&& self.gathered() == concat(history)
        &&& self.gathered().len() <= N
    }

    open spec fn accepts(history: Seq<Seq<u8>>, chunk: Seq<u8>) -> bool {
        concat(history).len() + chunk.len() <= N
    }

    open spec fn finishes(history: Seq<Seq<u8>>) -> bool {
        concat(history).len() == N
    }

    open spec fn decodes(history: Seq<Seq<u8>>, value: &[u8; N]) -> bool {
        value@ == concat(history)
    }

    fn update(&mut self, slice: &[u8]) -> (r: Result<(), Self::UpdateError>)
        ensures
            r is Ok <==> old(self).gathered().len() + slice@.len() <= N,
            r is Ok ==> final(self).gathered() == old(self).gathered() + slice@,
            r is Err ==> final(self).gathered() == old(self).gathered(),
    {
        let held: usize = self.buf.len();
        if held > N || slice.len() > N - held {
            return Err(());
        }
        gather(&mut self.buf, slice);
        proof {
            assert forall|history: Seq<Seq<u8>>| #[trigger]
                old(self).reached(history) implies self.reached(history.push(slice@)) by {
                lemma_concat_push(history, slice@);
            }
        }
        Ok(())
    }

    fn finalize(self) -> (r: Result<[u8; N], Self::FinalizeError>)
        ensures
            r is Ok <==> self.gathered().len() == N,
            r matches Ok(value) ==> value@ == self.gathered(),
            r matches Err(bytes) ==> bytes@ == self.gathered(),
    {
        if self.buf.len() != N {
            return Err(self.buf);
        }
        let mut value: [u8; N] = [0u8; N];
        let mut i: usize = 0;
        while i < N
            invariant
                i <= N,
                self.buf@.len() == N,
                forall|j: int| 0 <= j < i ==> value@[j] == self.buf@[j],
            decreases N - i,
        {
            value[i] = self.buf[i];
            i = i + 1;
        }
        assert(value@ =~= self.buf@);
        Ok(value)
    }
}

impl<const N: usize> Deserializable for [u8; N] {
    type Deserializer = ArrayDeserializer<N>;

    fn deserializer() -> (d: Self::Deserializer) {
        ArrayDeserializer::new()
    }
}

} // verus!
