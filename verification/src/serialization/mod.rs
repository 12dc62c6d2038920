//! Streaming encode and decode of typed payloads over byte chunks.
//!
//! A [`Serializer`] hands out the encoding of a value piece by piece, into
//! slices that the caller provides. A [`Deserializer`] takes the pieces back,
//! one `update` per chunk, and produces the value at `finalize`.

use vstd::prelude::*;

mod byte_vec;
mod never;
mod option;
mod result;
mod string;
mod unit;

pub use byte_vec::ArrayDeserializer;
pub(crate) use byte_vec::gather;
pub use option::{tagged, untagged, OptionDeserializer, OptionSerializer};
pub use result::{ResultDeserializationError, ResultDeserializer, ResultSerializer};
pub use string::StringDeserializer;

verus! {

/// What one call of [`Serializer::fill`] does, given the bytes that were
/// `pending` before it, the slice `before` and `after` the call, the value
/// `r` it returned and the bytes `rest` that are pending afterwards.
///
/// While more bytes are pending than the slice holds, the slice is filled
/// whole and `None` is returned. Otherwise the pending bytes are written to
/// the front of the slice, the rest of the slice is left as it was, and
/// `Some` of their number is returned: the encoding ends there.
pub open spec fn filled(
    pending: Seq<u8>,
    before: Seq<u8>,
    after: Seq<u8>,
    r: Option<usize>,
    rest: Seq<u8>,
) -> bool {
    if pending.len() > before.len() {
        &&& r is None
        &&& after == pending.take(before.len() as int)
        &&& rest == pending.skip(before.len() as int)
    } else {
        &&& r == Some(pending.len() as usize)
        &&& after == pending + before.skip(pending.len() as int)
        &&& rest == Seq::<u8>::empty()
    }
}

/// A stateful encoder that fills the slices it is given.
pub trait Serializer {
    /// The bytes that have not been handed out yet.
    spec fn pending(&self) -> Seq<u8>;

    /// Writes the next bytes of the encoding into `buf`.
    ///
    /// `None`: the whole slice was filled and more is pending. `Some(k)`: the
    /// last `k` bytes were written to the front of `buf`, and nothing is
    /// pending any more.
    fn fill(&mut self, buf: &mut [u8]) -> (r: Option<usize>)
        ensures
            filled(old(self).pending(), old(buf)@, final(buf)@, r, final(self).pending()),
    ;
}

/// A value with a byte encoding that can be streamed.
pub trait Serializable {
    type Serializer<'s>: Serializer where Self: 's;

    /// The bytes that stand for this value.
    spec fn encoding(&self) -> Seq<u8>;

    /// An encoder with the whole encoding pending.
    fn serializer(&self) -> (s: Self::Serializer<'_>)
        ensures
            s.pending() == self.encoding(),
    ;
}

/// A stateful decoder of a value of type `T` from a run of chunks.
///
/// The decoder is described over the run of chunks it has accepted so far,
/// its history: which chunk it accepts next, whether it can finish, and which
/// value it then yields.
pub trait Deserializer<T>: Sized {
    type UpdateError;

    type FinalizeError;

    /// This decoder is in the state that a fresh one reaches by accepting the
    /// chunks of `history`, in order.
    spec fn reached(&self, history: Seq<Seq<u8>>) -> bool;

    /// After `history`, the decoder accepts `chunk`.
    spec fn accepts(history: Seq<Seq<u8>>, chunk: Seq<u8>) -> bool;

    /// After `history`, the decoder can finish.
    spec fn finishes(history: Seq<Seq<u8>>) -> bool;

    /// Finishing after `history` yields `value`.
    spec fn decodes(history: Seq<Seq<u8>>, value: &T) -> bool;

    /// Feeds the next chunk. A rejected chunk leaves the block undecodable.
    fn update(&mut self, slice: &[u8]) -> (r: Result<(), Self::UpdateError>)
        ensures
            forall|history: Seq<Seq<u8>>| #[trigger]
                old(self).reached(history) ==> {
                    &&& r is Ok <==> Self::accepts(history, slice@)
                    &&& r is Ok ==> final(self).reached(history.push(slice@))
                },
    ;

    /// Ends the block and yields the value.
    fn finalize(self) -> (r: Result<T, Self::FinalizeError>)
        ensures
            forall|history: Seq<Seq<u8>>| #[trigger]
                self.reached(history) ==> {
                    &&& r is Ok <==> Self::finishes(history)
                    &&& r matches Ok(value) ==> Self::decodes(history, &value)
                },
    ;
}

/// A type that knows its decoder.
pub trait Deserializable: Sized {
    type Deserializer: Deserializer<Self>;

    /// A fresh decoder, which has accepted nothing.
    fn deserializer() -> (d: Self::Deserializer)
        ensures
            d.reached(Seq::<Seq<u8>>::empty()),
    ;
}

/// The bytes of all chunks of `history`, in order.
pub open spec fn concat(history: Seq<Seq<u8>>) -> Seq<u8>
    decreases history.len(),
{
    if history.len() == 0 {
        Seq::<u8>::empty()
    } else {
        concat(history.drop_last()) + history.last()
    }
}

/// Accepting one more chunk appends it to the bytes accepted so far.
pub proof fn lemma_concat_push(history: Seq<Seq<u8>>, chunk: Seq<u8>)
    ensures
        concat(history.push(chunk)) == concat(history) + chunk,
{
    assert(history.push(chunk).drop_last() =~= history);
}

/// A cursor over a borrowed byte string: the encoder of every plain blob.
pub struct Buf<'s> {
    buf: &'s [u8],
    pos: usize,
}

impl<'s> Buf<'s> {
    /// The bytes from the cursor to the end.
    pub closed spec fn rest(&self) -> Seq<u8> {
        if self.pos <= self.buf@.len() {
            self.buf@.skip(self.pos as int)
        } else {
            Seq::<u8>::empty()
        }
    }

    pub fn new(buf: &'s [u8]) -> (b: Self)
        ensures
            b.rest() == buf@,
    {
        Self { buf, pos: 0 }
    }

    /// Copies the next bytes into `buf` and moves the cursor past them.
    pub fn fill(&mut self, buf: &mut [u8]) -> (r: Option<usize>)
        ensures
            filled(old(self).rest(), old(buf)@, final(buf)@, r, final(self).rest()),
    {
        let ghost before = buf@;
        let ghost pending = self.rest();
        let source: &[u8] = self.buf;
        let total: usize = source.len();
        let start: usize = if self.pos <= total { self.pos } else { total };
        let avail: usize = total - start;
        let room: usize = buf.len();
        let count: usize = if avail < room { avail } else { room };
        let mut i: usize = 0;
        while i < count
            invariant
                i <= count,
                count <= room,
                start + count <= total,
                total == source@.len(),
                buf@.len() == room,
                before.len() == room,
                forall|j: int| 0 <= j < i ==> buf@[j] == source@[start + j],
                forall|j: int| i <= j < room ==> buf@[j] == before[j],
            decreases count - i,
        {
            buf[i] = source[start + i];
            i = i + 1;
        }
        self.pos = start + count;
        assert(pending == source@.skip(start as int));
        if avail > room {
            assert(buf@ =~= pending.take(room as int));
            assert(self.rest() =~= pending.skip(room as int));
            None
        } else {
            assert(buf@ =~= pending + before.skip(pending.len() as int));
            assert(self.rest() =~= Seq::<u8>::empty());
            Some(avail)
        }
    }
}

impl Serializer for Buf<'_> {
    open spec fn pending(&self) -> Seq<u8> {
        self.rest()
    }

    fn fill(&mut self, buf: &mut [u8]) -> (r: Option<usize>) {
        Buf::fill(self, buf)
    }
}

/// Writes `tag` to the front of `buf` and lets `inner` fill what follows.
pub(crate) fn fill_tagged<S: Serializer>(tag: u8, inner: &mut S, buf: &mut [u8]) -> (r: Option<usize>)
    requires
        old(buf)@.len() >= 1,
    ensures
        filled(
            seq![tag] + old(inner).pending(),
            old(buf)@,
            final(buf)@,
            r,
            final(inner).pending(),
        ),
{
    let ghost before = buf@;
    let ghost body = inner.pending();
    let room: usize = buf.len();
    buf[0] = tag;
    let (head, tail) = buf.split_at_mut(1);
    let ghost tail_before = tail@;
    let r = inner.fill(tail);
    proof {
        let whole = seq![tag] + body;
        assert(tail_before =~= before.skip(1));
        assert(head@ =~= seq![tag]);
        if body.len() > tail_before.len() {
            assert(head@ + tail@ =~= whole.take(room as int));
            assert(inner.pending() =~= whole.skip(room as int));
        } else {
            assert(head@ + tail@ =~= whole + before.skip(whole.len() as int));
        }
    }
    match r {
        Some(k) => Some(k + 1),
        None => None,
    }
}

} // verus!
