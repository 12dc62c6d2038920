//! Results: a one-byte tag (1 for success, 0 for failure), then the encoding
//! of the value of the chosen arm.

use vstd::prelude::*;
use crate::serialization::{
    fill_tagged, filled, tagged, untagged, Deserializable, Deserializer, Serializable,
    Serializer,
};

verus! {

/// The encoder of a result.
///
/// It starts as `OkTagged` or `ErrTagged`, with the tag still to be written.
/// Once the tag is out, what is left is the encoder of the arm's value
/// (`OkBody`, `ErrBody`).
pub enum ResultSerializer<'s, T: Serializable + 's, E: Serializable + 's> {
    OkTagged(T::Serializer<'s>),
    ErrTagged(E::Serializer<'s>),
    OkBody(T::Serializer<'s>),
    ErrBody(E::Serializer<'s>),
    Finished,
}

impl<'s, T: Serializable + 's, E: Serializable + 's> ResultSerializer<'s, T, E> {
    /// One call of `fill`, on an encoder taken by value.
    fn step(self, buf: &mut [u8]) -> (out: (Self, Option<usize>))
        ensures
            filled(self.pending(), old(buf)@, final(buf)@, out.1, out.0.pending()),
    {
        let ghost before = buf@;
        let room: usize = buf.len();
        match self {
            ResultSerializer::Finished => {
                assert(buf@ =~= Seq::<u8>::empty() + before.skip(0));
                (ResultSerializer::Finished, Some(0))
            },
            ResultSerializer::OkBody(mut inner) => {
                let r = inner.fill(buf);
                (ResultSerializer::OkBody(inner), r)
            },
            ResultSerializer::ErrBody(mut inner) => {
                let r = inner.fill(buf);
                (ResultSerializer::ErrBody(inner), r)
            },
            ResultSerializer::OkTagged(mut inner) => {
                if room == 0 {
                    let ghost whole = seq![1u8] + inner.pending();
                    assert(buf@ =~= whole.take(0));
                    assert(whole.skip(0) =~= whole);
                    (ResultSerializer::OkTagged(inner), None)
                } else {
                    let r = fill_tagged(1, &mut inner, buf);
                    (ResultSerializer::OkBody(inner), r)
                }
            },
            ResultSerializer::ErrTagged(mut inner) => {
                if room == 0 {
                    let ghost whole = seq![0u8] + inner.pending();
                    assert(buf@ =~= whole.take(0));
                    assert(whole.skip(0) =~= whole);
                    (ResultSerializer::ErrTagged(inner), None)
                } else {
                    let r = fill_tagged(0, &mut inner, buf);
                    (ResultSerializer::ErrBody(inner), r)
                }
            },
        }
    }
}

impl<T: Serializable, E: Serializable> Serializer for ResultSerializer<'_, T, E> {
    open spec fn pending(&self) -> Seq<u8> {
        match self {
            ResultSerializer::OkTagged(inner) => seq![1u8] + inner.pending(),
            ResultSerializer::ErrTagged(inner) => seq![0u8] + inner.pending(),
            ResultSerializer::OkBody(inner) => inner.pending(),
            ResultSerializer::ErrBody(inner) => inner.pending(),
            ResultSerializer::Finished => Seq::<u8>::empty(),
        }
    }

    fn fill(&mut self, buf: &mut [u8]) -> (r: Option<usize>) {
        let mut state = ResultSerializer::Finished;
        core::mem::swap(self, &mut state);
        let (next, r) = state.step(buf);
        *self = next;
        r
    }
}

impl<T: Serializable + 'static, E: Serializable + 'static> Serializable for Result<T, E> {
    type Serializer<'s> = ResultSerializer<'s, T, E>;

    open spec fn encoding(&self) -> Seq<u8> {
        match self {
            Ok(value) => seq![1u8] + value.encoding(),
            Err(error) => seq![0u8] + error.encoding(),
        }
    }

    fn serializer(&self) -> (s: Self::Serializer<'_>) {
        match self {
            Ok(value) => ResultSerializer::OkTagged(value.serializer()),
            Err(error) => ResultSerializer::ErrTagged(error.serializer()),
        }
    }
}

/// The decoder of a result: nothing seen yet, or the tag of one arm seen and
/// that arm's decoder under way.
pub enum ResultDeserializer<T: Deserializable, E: Deserializable> {
    Uninit,
    OkInit(T::Deserializer),
    ErrInit(E::Deserializer),
}

/// Why a result could not be decoded: the decoder of one of the arms failed,
/// or the block does not fit the tagged encoding.
pub enum ResultDeserializationError<T, E> {
    OkError(T),
    ErrError(E),
    BlockError,
}

impl<T: Deserializable, E: Deserializable> Deserializer<Result<T, E>> for ResultDeserializer<T, E> {
    type UpdateError = ResultDeserializationError<
        <T::Deserializer as Deserializer<T>>::UpdateError,
        <E::Deserializer as Deserializer<E>>::UpdateError,
    >;

    type FinalizeError = ResultDeserializationError<
        <T::Deserializer as Deserializer<T>>::FinalizeError,
        <E::Deserializer as Deserializer<E>>::FinalizeError,
    >;

    open spec fn reached(&self, history: Seq<Seq<u8>>) -> bool {
        match self {
            ResultDeserializer::Uninit => history.len() == 0,
            ResultDeserializer::OkInit(inner) => tagged(history, 1) && inner.reached(
                untagged(history),
            ),
            ResultDeserializer::ErrInit(inner) => tagged(history, 0) && inner.reached(
                untagged(history),
            ),
        }
    }

    open spec fn accepts(history: Seq<Seq<u8>>, chunk: Seq<u8>) -> bool {
        if history.len() == 0 {
            ||| chunk.len() >= 1 && chunk[0] == 1 && <T::Deserializer as Deserializer<T>>::accepts(
                Seq::<Seq<u8>>::empty(),
                chunk.skip(1),
            )
            ||| chunk.len() >= 1 && chunk[0] == 0 && <E::Deserializer as Deserializer<E>>::accepts(
                Seq::<Seq<u8>>::empty(),
                chunk.skip(1),
            )
        } else {
            ||| tagged(history, 1) && <T::Deserializer as Deserializer<T>>::accepts(
                untagged(history),
                chunk,
            )
            ||| tagged(history, 0) && <E::Deserializer as Deserializer<E>>::accepts(
                untagged(history),
                chunk,
            )
        }
    }

    open spec fn finishes(history: Seq<Seq<u8>>) -> bool {
        ||| tagged(history, 1) && <T::Deserializer as Deserializer<T>>::finishes(untagged(history))
        ||| tagged(history, 0) && <E::Deserializer as Deserializer<E>>::finishes(untagged(history))
    }

    open spec fn decodes(history: Seq<Seq<u8>>, value: &Result<T, E>) -> bool {
        match value {
            Ok(inner) => tagged(history, 1) && <T::Deserializer as Deserializer<T>>::decodes(
                untagged(history),
                inner,
            ),
            Err(inner) => tagged(history, 0) && <E::Deserializer as Deserializer<E>>::decodes(
                untagged(history),
                inner,
            ),
        }
    }

    fn update(&mut self, slice: &[u8]) -> (r: Result<(), Self::UpdateError>)
        ensures
            r matches Err(e) ==> match *old(self) {
                ResultDeserializer::Uninit => if slice@.len() >= 1 && slice@[0] == 0 {
                    e is ErrError
                } else if slice@.len() >= 1 && slice@[0] == 1 {
                    e is OkError
                } else {
                    e is BlockError
                },
                ResultDeserializer::OkInit(_) => e is OkError,
                ResultDeserializer::ErrInit(_) => e is ErrError,
            },
            r is Err && *old(self) is Uninit ==> *final(self) is Uninit,
    {
        match self {
            ResultDeserializer::Uninit => {
                if slice.len() >= 1 && slice[0] == 0 {
                    let mut inner = E::deserializer();
                    let tail = vstd::slice::slice_subrange(slice, 1, slice.len());
                    assert(tail@ =~= slice@.skip(1));
                    match inner.update(tail) {
                        Ok(()) => {
                            *self = ResultDeserializer::ErrInit(inner);
                            proof {
                                assert forall|history: Seq<Seq<u8>>| #[trigger]
                                    old(self).reached(history) implies self.reached(
                                    history.push(slice@),
                                ) by {
                                    assert(untagged(history.push(slice@)) =~= Seq::<
                                        Seq<u8>,
                                    >::empty().push(tail@));
                                }
                            }
                            Ok(())
                        },
                        Err(e) => Err(ResultDeserializationError::ErrError(e)),
                    }
                } else if slice.len() >= 1 && slice[0] == 1 {
                    let mut inner = T::deserializer();
                    let tail = vstd::slice::slice_subrange(slice, 1, slice.len());
                    assert(tail@ =~= slice@.skip(1));
                    match inner.update(tail) {
                        Ok(()) => {
                            *self = ResultDeserializer::OkInit(inner);
                            proof {
                                assert forall|history: Seq<Seq<u8>>| #[trigger]
                                    old(self).reached(history) implies self.reached(
                                    history.push(slice@),
                                ) by {
                                    assert(untagged(history.push(slice@)) =~= Seq::<
                                        Seq<u8>,
                                    >::empty().push(tail@));
                                }
                            }
                            Ok(())
                        },
                        Err(e) => Err(ResultDeserializationError::OkError(e)),
                    }
                } else {
                    Err(ResultDeserializationError::BlockError)
                }
            },
            ResultDeserializer::ErrInit(inner) => {
                let ghost before = *inner;
                match inner.update(slice) {
                    Ok(()) => {
                        proof {
                            assert forall|history: Seq<Seq<u8>>| #[trigger]
                                old(self).reached(history) implies self.reached(
                                history.push(slice@),
                            ) by {
                                assert(before.reached(untagged(history)));
                                assert(untagged(history.push(slice@)) =~= untagged(history).push(
                                    slice@,
                                ));
                            }
                        }
                        Ok(())
                    },
                    Err(e) => {
                        proof {
                            assert forall|history: Seq<Seq<u8>>| #[trigger]
                                old(self).reached(history) implies !Self::accepts(
                                history,
                                slice@,
                            ) by {
                                assert(before.reached(untagged(history)));
                            }
                        }
                        Err(ResultDeserializationError::ErrError(e))
                    },
                }
            },
            ResultDeserializer::OkInit(inner) => {
                let ghost before = *inner;
                match inner.update(slice) {
                    Ok(()) => {
                        proof {
                            assert forall|history: Seq<Seq<u8>>| #[trigger]
                                old(self).reached(history) implies self.reached(
                                history.push(slice@),
                            ) by {
                                assert(before.reached(untagged(history)));
                                assert(untagged(history.push(slice@)) =~= untagged(history).push(
                                    slice@,
                                ));
                            }
                        }
                        Ok(())
                    },
                    Err(e) => {
                        proof {
                            assert forall|history: Seq<Seq<u8>>| #[trigger]
                                old(self).reached(history) implies !Self::accepts(
                                history,
                                slice@,
                            ) by {
                                assert(before.reached(untagged(history)));
                            }
                        }
                        Err(ResultDeserializationError::OkError(e))
                    },
                }
            },
        }
    }

    fn finalize(self) -> (r: Result<Result<T, E>, Self::FinalizeError>)
        ensures
            match self {
                ResultDeserializer::Uninit => r matches Err(ResultDeserializationError::BlockError),
                ResultDeserializer::OkInit(_) => r matches Ok(Ok(_)) || r matches Err(
                    ResultDeserializationError::OkError(_),
                ),
                ResultDeserializer::ErrInit(_) => r matches Ok(Err(_)) || r matches Err(
                    ResultDeserializationError::ErrError(_),
                ),
            },
    {
        match self {
            ResultDeserializer::Uninit => Err(ResultDeserializationError::BlockError),
            ResultDeserializer::OkInit(inner) => {
                proof {
                    assert forall|history: Seq<Seq<u8>>| #[trigger]
                        self.reached(history) implies inner.reached(untagged(history)) && !tagged(
                        history,
                        0,
                    ) by {}
                }
                match inner.finalize() {
                    Ok(value) => Ok(Ok(value)),
                    Err(e) => Err(ResultDeserializationError::OkError(e)),
                }
            },
            ResultDeserializer::ErrInit(inner) => {
                proof {
                    assert forall|history: Seq<Seq<u8>>| #[trigger]
                        self.reached(history) implies inner.reached(untagged(history)) && !tagged(
                        history,
                        1,
                    ) by {}
                }
                match inner.finalize() {
                    Ok(value) => Ok(Err(value)),
                    Err(e) => Err(ResultDeserializationError::ErrError(e)),
                }
            },
        }
    }
}

impl<T: Deserializable, E: Deserializable> Deserializable for Result<T, E> {
    type Deserializer = ResultDeserializer<T, E>;

    fn deserializer() -> (d: Self::Deserializer) {
        ResultDeserializer::Uninit
    }
}

} // verus!
