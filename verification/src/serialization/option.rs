//! Optional values: a one-byte tag (0 for absent, 1 for present), then the
//! encoding of the value where there is one.

use vstd::prelude::*;
use crate::serialization::{
    fill_tagged, filled, Deserializable, Deserializer, Serializable, Serializer,
};

verus! {

/// The encoder of an optional value.
///
/// It starts as `SomeTagged` or `NoneTagged`, with the tag still to be
/// written. Once the tag is out, what is left is the value's own encoder
/// (`SomeBody`) or nothing (`Finished`).
pub enum OptionSerializer<'s, T: Serializable + 's> {
    SomeTagged(T::Serializer<'s>),
    NoneTagged,
    SomeBody(T::Serializer<'s>),
    Finished,
}

impl<'s, T: Serializable + 's> OptionSerializer<'s, T> {
    /// One call of `fill`, on an encoder taken by value.
    fn step(self, buf: &mut [u8]) -> (out: (Self, Option<usize>))
        ensures
            filled(self.pending(), old(buf)@, final(buf)@, out.1, out.0.pending()),
    {
        let ghost before = buf@;
        let room: usize = buf.len();
        match self {
            OptionSerializer::Finished => {
                assert(buf@ =~= Seq::<u8>::empty() + before.skip(0));
                (OptionSerializer::Finished, Some(0))
            },
            OptionSerializer::SomeBody(mut inner) => {
                let r = inner.fill(buf);
                (OptionSerializer::SomeBody(inner), r)
            },
            OptionSerializer::NoneTagged => {
                if room == 0 {
                    assert(buf@ =~= seq![0u8].take(0));
                    assert(seq![0u8].skip(0) =~= seq![0u8]);
                    (OptionSerializer::NoneTagged, None)
                } else {
                    buf[0] = 0;
                    assert(buf@ =~= seq![0u8] + before.skip(1));
                    (OptionSerializer::Finished, Some(1))
                }
            },
            OptionSerializer::SomeTagged(mut inner) => {
                if room == 0 {
                    let ghost whole = seq![1u8] + inner.pending();
                    assert(buf@ =~= whole.take(0));
                    assert(whole.skip(0) =~= whole);
                    (OptionSerializer::SomeTagged(inner), None)
                } else {
                    let r = fill_tagged(1, &mut inner, buf);
                    (OptionSerializer::SomeBody(inner), r)
                }
            },
        }
    }
}

impl<T: Serializable> Serializer for OptionSerializer<'_, T> {
    open spec fn pending(&self) -> Seq<u8> {
        match self {
            OptionSerializer::SomeTagged(inner) => seq![1u8] + inner.pending(),
            OptionSerializer::NoneTagged => seq![0u8],
            OptionSerializer::SomeBody(inner) => inner.pending(),
            OptionSerializer::Finished => Seq::<u8>::empty(),
        }
    }

    fn fill(&mut self, buf: &mut [u8]) -> (r: Option<usize>) {
        let mut state = OptionSerializer::Finished;
        core::mem::swap(self, &mut state);
        let (next, r) = state.step(buf);
        *self = next;
        r
    }
}

impl<T: Serializable + 'static> Serializable for Option<T> {
    type Serializer<'s> = OptionSerializer<'s, T>;

    open spec fn encoding(&self) -> Seq<u8> {
        match self {
            Some(value) => seq![1u8] + value.encoding(),
            None => seq![0u8],
        }
    }

    fn serializer(&self) -> (s: Self::Serializer<'_>) {
        match self {
            None => OptionSerializer::NoneTagged,
            Some(value) => OptionSerializer::SomeTagged(value.serializer()),
        }
    }
}

/// The history that the decoder of the tagged value has seen, when the
/// decoder of the tagged encoding has seen `history`: the first chunk without
/// its tag, then the other chunks as they came.
pub open spec fn untagged(history: Seq<Seq<u8>>) -> Seq<Seq<u8>> {
    history.update(0, history[0].skip(1))
}

/// `history` is not empty and its first chunk starts with `tag`.
pub open spec fn tagged(history: Seq<Seq<u8>>, tag: u8) -> bool {
    history.len() >= 1 && history[0].len() >= 1 && history[0][0] == tag
}

/// The decoder of an optional value: nothing seen yet, the tag of an absent
/// value seen, or the tag of a present value seen and its decoder under way.
pub enum OptionDeserializer<T: Deserializable> {
    Uninit,
    NoneInit,
    SomeInit(T::Deserializer),
}

impl<T: Deserializable> Deserializer<Option<T>> for OptionDeserializer<T> {
    /// `None`: the chunk does not fit the tagged encoding. `Some`: the
    /// value's own decoder rejected it.
    type UpdateError = Option<<T::Deserializer as Deserializer<T>>::UpdateError>;

    /// `None`: no tag has arrived. `Some`: the value's own decoder failed.
    type FinalizeError = Option<<T::Deserializer as Deserializer<T>>::FinalizeError>;

    open spec fn reached(&self, history: Seq<Seq<u8>>) -> bool {
        match self {
            OptionDeserializer::Uninit => history.len() == 0,
            OptionDeserializer::NoneInit => history == seq![seq![0u8]],
            OptionDeserializer::SomeInit(inner) => tagged(history, 1) && inner.reached(
                untagged(history),
            ),
        }
    }

    open spec fn accepts(history: Seq<Seq<u8>>, chunk: Seq<u8>) -> bool {
        if history.len() == 0 {
            ||| chunk == seq![0u8]
            ||| chunk.len() >= 1 && chunk[0] == 1 && <T::Deserializer as Deserializer<T>>::accepts(
                Seq::<Seq<u8>>::empty(),
                chunk.skip(1),
            )
        } else {
            tagged(history, 1) && <T::Deserializer as Deserializer<T>>::accepts(
                untagged(history),
                chunk,
            )
        }
    }

    open spec fn finishes(history: Seq<Seq<u8>>) -> bool {
        ||| history == seq![seq![0u8]]
        ||| tagged(history, 1) && <T::Deserializer as Deserializer<T>>::finishes(untagged(history))
    }

    open spec fn decodes(history: Seq<Seq<u8>>, value: &Option<T>) -> bool {
        match value {
            None => history == seq![seq![0u8]],
            Some(inner) => tagged(history, 1) && <T::Deserializer as Deserializer<T>>::decodes(
                untagged(history),
                inner,
            ),
        }
    }

    fn update(&mut self, slice: &[u8]) -> (r: Result<(), Self::UpdateError>)
        ensures
            r matches Err(e) ==> (e is Some <==> (*old(self) is SomeInit || (*old(self) is Uninit
                && slice@.len() >= 1 && slice@[0] == 1))),
            r is Err && !(*old(self) is SomeInit) ==> *final(self) == *old(self),
    {
        match self {
            OptionDeserializer::Uninit => {
                if slice.len() == 1 && slice[0] == 0 {
                    *self = OptionDeserializer::NoneInit;
                    proof {
                        assert(slice@ =~= seq![0u8]);
                        assert forall|history: Seq<Seq<u8>>| #[trigger]
                            old(self).reached(history) implies self.reached(
                            history.push(slice@),
                        ) by {
                            assert(history.push(slice@) =~= seq![seq![0u8]]);
                        }
                    }
                    Ok(())
                } else if slice.len() >= 1 && slice[0] == 1 {
                    let mut inner = T::deserializer();
                    let tail = vstd::slice::slice_subrange(slice, 1, slice.len());
                    assert(tail@ =~= slice@.skip(1));
                    assert(slice@ != seq![0u8]);
                    match inner.update(tail) {
                        Ok(()) => {
                            *self = OptionDeserializer::SomeInit(inner);
                            proof {
                                assert forall|history: Seq<Seq<u8>>| #[trigger]
                                    old(self).reached(history) implies self.reached(
                                    history.push(slice@),
                                ) by {
                                    assert(untagged(history.push(slice@)) =~= Seq::<
                                        Seq<u8>,
                                    >::empty().push(tail@));
                                }
                            }
                            Ok(())
                        },
                        Err(e) => Err(Some(e)),
                    }
                } else {
                    proof {
                        if slice@ == seq![0u8] {
                            assert(slice@.len() == 1 && slice@[0] == 0);
                        }
                    }
                    Err(None)
                }
            },
            OptionDeserializer::NoneInit => {
                proof {
                    assert forall|history: Seq<Seq<u8>>| #[trigger]
                        old(self).reached(history) implies !Self::accepts(history, slice@) by {
                        assert(history[0][0] == 0);
                    }
                }
                Err(None)
            },
            OptionDeserializer::SomeInit(inner) => {
                let ghost before = *inner;
                match inner.update(slice) {
                    Ok(()) => {
                        proof {
                            assert forall|history: Seq<Seq<u8>>| #[trigger]
                                old(self).reached(history) implies self.reached(
                                history.push(slice@),
                            ) by {
                                assert(before.reached(untagged(history)));
                                assert(untagged(history.push(slice@)) =~= untagged(history).push(
                                    slice@,
                                ));
                            }
                        }
                        Ok(())
                    },
                    Err(e) => {
                        proof {
                            assert forall|history: Seq<Seq<u8>>| #[trigger]
                                old(self).reached(history) implies !Self::accepts(
                                history,
                                slice@,
                            ) by {
                                assert(before.reached(untagged(history)));
                            }
                        }
                        Err(Some(e))
                    },
                }
            },
        }
    }

    fn finalize(self) -> (r: Result<Option<T>, Self::FinalizeError>)
        ensures
            self is Uninit ==> r matches Err(None),
            self is NoneInit ==> r matches Ok(None),
            self is SomeInit ==> r matches Ok(Some(_)) || r matches Err(Some(_)),
    {
        match self {
            OptionDeserializer::Uninit => Err(None),
            OptionDeserializer::NoneInit => {
                proof {
                    assert forall|history: Seq<Seq<u8>>| #[trigger]
                        self.reached(history) implies Self::finishes(history) by {}
                }
                Ok(None)
            },
            OptionDeserializer::SomeInit(inner) => {
                proof {
                    assert forall|history: Seq<Seq<u8>>| #[trigger]
                        self.reached(history) implies inner.reached(untagged(history))
                        && history != seq![seq![0u8]] by {
                        assert(history[0][0] == 1);
                    }
                }
                match inner.finalize() {
                    Ok(value) => Ok(Some(value)),
                    Err(e) => Err(Some(e)),
                }
            },
        }
    }
}

impl<T: Deserializable> Deserializable for Option<T> {
    type Deserializer = OptionDeserializer<T>;

    fn deserializer() -> (d: Self::Deserializer) {
        OptionDeserializer::Uninit
    }
}

} // verus!
