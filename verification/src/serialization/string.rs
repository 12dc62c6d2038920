//! Strings travel as their UTF-8 bytes and are validated when the block ends.

use vstd::prelude::*;
use vstd::string::StringSliceAdditionalSpecFns;
use vstd::utf8::{encode_utf8, valid_utf8};
use std::string::FromUtf8Error;
use core::convert::Infallible;
use crate::serialization::gather;
use crate::serialization::{concat, lemma_concat_push, Buf, Deserializable, Deserializer, Serializable};

verus! {

/// The error of `String::from_utf8`; it is carried through unread.
#[verifier::external_type_specification]
#[verifier::external_body]
pub struct ExFromUtf8Error(FromUtf8Error);

/// `String::from_utf8` succeeds exactly on well-formed UTF-8, and the string
/// it returns has the given bytes as its UTF-8 encoding.
pub assume_specification[ String::from_utf8 ](vec: Vec<u8>) -> (r: Result<String, FromUtf8Error>)
    ensures
        r is Ok <==> valid_utf8(vec@),
        r matches Ok(s) ==> encode_utf8(s@) == vec@,
;

/// `String::into_bytes` returns the UTF-8 encoding of the string.
pub assume_specification[ String::into_bytes ](s: String) -> (bytes: Vec<u8>)
    ensures
        bytes@ == encode_utf8(s@),
;

impl Serializable for String {
    type Serializer<'s> = Buf<'s>;

    open spec fn encoding(&self) -> Seq<u8> {
        encode_utf8(self@)
    }

    fn serializer(&self) -> (s: Self::Serializer<'_>) {
        Buf::new(self.as_str().as_bytes())
    }
}

impl Serializable for str {
    type Serializer<'s> = Buf<'s>;

    open spec fn encoding(&self) -> Seq<u8> {
        encode_utf8(self@)
    }

    fn serializer(&self) -> (s: Self::Serializer<'_>) {
        Buf::new(self.as_bytes())
    }
}

impl Serializable for &'static str {
    type Serializer<'s> = Buf<'s>;

    open spec fn encoding(&self) -> Seq<u8> {
        encode_utf8(self@)
    }

    fn serializer(&self) -> (s: Self::Serializer<'_>) {
        Buf::new(self.as_bytes())
    }
}

/// The decoder of a string: it gathers every chunk, and finishes when the
/// gathered bytes are well-formed UTF-8.
pub struct StringDeserializer {
    buf: Vec<u8>,
}

impl StringDeserializer {
    /// The bytes gathered so far.
    pub closed spec fn gathered(&self) -> Seq<u8> {
        self.buf@
    }

    pub fn new() -> (d: Self)
        ensures
            d.gathered() == Seq::<u8>::empty(),
    {
        Self { buf: Vec::new() }
    }
}

impl Deserializer<String> for StringDeserializer {
    type UpdateError = Infallible;

    type FinalizeError = FromUtf8Error;

    open spec fn reached(&self, history: Seq<Seq<u8>>) -> bool {
        self.gathered() == concat(history)
    }

    open spec fn accepts(history: Seq<Seq<u8>>, chunk: Seq<u8>) -> bool {
        true
    }

    open spec fn finishes(history: Seq<Seq<u8>>) -> bool {
        valid_utf8(concat(history))
    }

    open spec fn decodes(history: Seq<Seq<u8>>, value: &String) -> bool {
        encode_utf8(value@) == concat(history)
    }

    fn update(&mut self, slice: &[u8]) -> (r: Result<(), Self::UpdateError>)
        ensures
            r is Ok,
            final(self).gathered() == old(self).gathered() + slice@,
    {
        gather(&mut self.buf, slice);
        proof {
            assert forall|history: Seq<Seq<u8>>| #[trigger]
                old(self).reached(history) implies self.reached(history.push(slice@)) by {
                lemma_concat_push(history, slice@);
            }
        }
        Ok(())
    }

    fn finalize(self) -> (r: Result<String, Self::FinalizeError>)
        ensures
            r is Ok <==> valid_utf8(self.gathered()),
            r matches Ok(value) ==> encode_utf8(value@) == self.gathered(),
    {
        String::from_utf8(self.buf)
    }
}

impl Deserializable for String {
    type Deserializer = StringDeserializer;

    fn deserializer() -> (d: Self::Deserializer) {
        StringDeserializer::new()
    }
}

} // verus!
