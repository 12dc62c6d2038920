//! What is written is what is read, for the typed blocks that the protocol
//! exchanges: texts, the unit value, tagged options and results.

use vstd::prelude::*;
use vstd::utf8::{encode_utf8, valid_utf8};
use crate::frame::{chunks_of, lemma_chunks_of};
use crate::serialization::{
    concat, lemma_concat_push, tagged, untagged, Deserializable, Deserializer,
    OptionDeserializer, ResultDeserializer, Serializable, StringDeserializer,
};
use crate::stream::{
    accepts_all, lemma_accepts_all_always, lemma_write_then_read, read_chunks, sealed_block,
};

verus! {

/// A text comes back as it was written: the frames of its block decode to
/// a string exactly if that string is the text.
pub proof fn lemma_text_round_trip(key: Seq<u8>, n: int, text: String, wire: Seq<u8>)
    requires
        9 <= n <= u64::MAX,
        sealed_block(key, n, text.encoding(), wire),
    ensures
        read_chunks::<String, StringDeserializer>(
            key,
            n,
            wire,
            Seq::<Seq<u8>>::empty(),
        ) matches Ok((history, used)) && used == wire.len() && <StringDeserializer as Deserializer<
            String,
        >>::finishes(history) && forall|back: String|
            <StringDeserializer as Deserializer<String>>::decodes(history, &back) <==> back@
                == text@,
{
    let none = Seq::<Seq<u8>>::empty();
    let chunks = chunks_of(text.encoding(), n - 8);
    lemma_accepts_all_always::<String, StringDeserializer>(none, chunks);
    lemma_write_then_read::<String, StringDeserializer>(key, n, text.encoding(), wire, none);
    lemma_chunks_of(text.encoding(), n - 8);
    assert(none + chunks =~= chunks);
    vstd::utf8::encode_utf8_valid_utf8(text@);
    assert forall|back: String| encode_utf8(back@) == encode_utf8(text@) implies back@
        == text@ by {
        vstd::utf8::encode_utf8_decode_utf8(back@);
        vstd::utf8::encode_utf8_decode_utf8(text@);
    }
}

/// The unit value comes back: its block is one frame with an empty chunk,
/// which the decoder of the unit value accepts and finishes on.
pub proof fn lemma_unit_round_trip(key: Seq<u8>, n: int, wire: Seq<u8>)
    requires
        9 <= n <= u64::MAX,
        sealed_block(key, n, ().encoding(), wire),
    ensures
        read_chunks::<(), bool>(key, n, wire, Seq::<Seq<u8>>::empty()) matches Ok(
            (history, used),
        ) && used == wire.len() && <bool as Deserializer<()>>::finishes(history),
{
    let none = Seq::<Seq<u8>>::empty();
    let chunks = chunks_of(().encoding(), n - 8);
    assert(chunks =~= seq![Seq::<u8>::empty()]);
    assert(accepts_all::<(), bool>(none, chunks)) by {
        assert(chunks.skip(1).len() == 0);
        assert(accepts_all::<(), bool>(none.push(chunks[0]), chunks.skip(1)));
    }
    lemma_write_then_read::<(), bool>(key, n, ().encoding(), wire, none);
    assert(none + chunks =~= chunks);
}

/// The bytes that the decoder of a tagged value has seen are those of the
/// tagged encoding without the tag.
pub proof fn lemma_untagged_bytes(history: Seq<Seq<u8>>)
    requires
        history.len() >= 1,
        history[0].len() >= 1,
    ensures
        concat(untagged(history)) == concat(history).skip(1),
        concat(history).len() >= 1,
        concat(history)[0] == history[0][0],
    decreases history.len(),
{
    let none = Seq::<Seq<u8>>::empty();
    if history.len() == 1 {
        assert(history =~= none.push(history[0]));
        assert(untagged(history) =~= none.push(history[0].skip(1)));
        lemma_concat_push(none, history[0]);
        lemma_concat_push(none, history[0].skip(1));
        assert(concat(none) =~= Seq::<u8>::empty());
        assert(concat(untagged(history)) =~= concat(history).skip(1));
    } else {
        let front = history.drop_last();
        lemma_untagged_bytes(front);
        assert(history =~= front.push(history.last()));
        assert(untagged(history) =~= untagged(front).push(history.last()));
        lemma_concat_push(front, history.last());
        lemma_concat_push(untagged(front), history.last());
        assert(concat(untagged(history)) =~= concat(history).skip(1));
    }
}

/// The decoder of an option accepts the chunks of a present value, where
/// the decoder of the value accepts them without the tag.
pub proof fn lemma_some_is_accepted<T: Deserializable>(chunks: Seq<Seq<u8>>, at: int)
    requires
        tagged(chunks, 1),
        0 <= at <= chunks.len(),
        accepts_all::<T, T::Deserializer>(untagged(chunks).take(at), untagged(chunks).skip(at)),
    ensures
        accepts_all::<Option<T>, OptionDeserializer<T>>(chunks.take(at), chunks.skip(at)),
    decreases chunks.len() - at,
{
    if at < chunks.len() {
        let inner = untagged(chunks);
        let chunk = chunks.skip(at)[0];
        assert(inner.skip(at)[0] == inner[at]);
        assert(inner.take(at).push(inner[at]) =~= inner.take(at + 1));
        assert(inner.skip(at).skip(1) =~= inner.skip(at + 1));
        assert(chunks.take(at).push(chunk) =~= chunks.take(at + 1));
        assert(chunks.skip(at).skip(1) =~= chunks.skip(at + 1));
        if at == 0 {
            assert(inner.take(0) =~= Seq::<Seq<u8>>::empty());
            assert(chunk != seq![0u8]);
        } else {
            assert(untagged(chunks.take(at)) =~= inner.take(at));
        }
        lemma_some_is_accepted::<T>(chunks, at + 1);
    }
}

/// The decoder of a result accepts the chunks of either arm, where the
/// decoder of the arm's value accepts them without the tag.
pub proof fn lemma_ok_is_accepted<T: Deserializable, E: Deserializable>(
    chunks: Seq<Seq<u8>>,
    at: int,
)
    requires
        tagged(chunks, 1),
        0 <= at <= chunks.len(),
        accepts_all::<T, T::Deserializer>(untagged(chunks).take(at), untagged(chunks).skip(at)),
    ensures
        accepts_all::<Result<T, E>, ResultDeserializer<T, E>>(chunks.take(at), chunks.skip(at)),
    decreases chunks.len() - at,
{
    if at < chunks.len() {
        let inner = untagged(chunks);
        let chunk = chunks.skip(at)[0];
        assert(inner.skip(at)[0] == inner[at]);
        assert(inner.take(at).push(inner[at]) =~= inner.take(at + 1));
        assert(inner.skip(at).skip(1) =~= inner.skip(at + 1));
        assert(chunks.take(at).push(chunk) =~= chunks.take(at + 1));
        assert(chunks.skip(at).skip(1) =~= chunks.skip(at + 1));
        if at == 0 {
            assert(inner.take(0) =~= Seq::<Seq<u8>>::empty());
        } else {
            assert(untagged(chunks.take(at)) =~= inner.take(at));
        }
        lemma_ok_is_accepted::<T, E>(chunks, at + 1);
    }
}

/// See [`lemma_ok_is_accepted`]; this is the arm of failure.
pub proof fn lemma_err_is_accepted<T: Deserializable, E: Deserializable>(
    chunks: Seq<Seq<u8>>,
    at: int,
)
    requires
        tagged(chunks, 0),
        0 <= at <= chunks.len(),
        accepts_all::<E, E::Deserializer>(untagged(chunks).take(at), untagged(chunks).skip(at)),
    ensures
        accepts_all::<Result<T, E>, ResultDeserializer<T, E>>(chunks.take(at), chunks.skip(at)),
    decreases chunks.len() - at,
{
    if at < chunks.len() {
        let inner = untagged(chunks);
        let chunk = chunks.skip(at)[0];
        assert(inner.skip(at)[0] == inner[at]);
        assert(inner.take(at).push(inner[at]) =~= inner.take(at + 1));
        assert(inner.skip(at).skip(1) =~= inner.skip(at + 1));
        assert(chunks.take(at).push(chunk) =~= chunks.take(at + 1));
        assert(chunks.skip(at).skip(1) =~= chunks.skip(at + 1));
        if at == 0 {
            assert(inner.take(0) =~= Seq::<Seq<u8>>::empty());
        } else {
            assert(untagged(chunks.take(at)) =~= inner.take(at));
        }
        lemma_err_is_accepted::<T, E>(chunks, at + 1);
    }
}

/// Two optional texts say the same.
pub open spec fn same_recipient(a: Option<String>, b: Option<String>) -> bool {
    match (a, b) {
        (Some(x), Some(y)) => x@ == y@,
        (None, None) => true,
        _ => false,
    }
}

/// A recipient comes back as it was written, and so does the goodbye: the
/// frames of the block decode to an optional text exactly if it says the
/// same as the one that was written.
pub proof fn lemma_recipient_round_trip(
    key: Seq<u8>,
    n: int,
    recipient: Option<String>,
    wire: Seq<u8>,
)
    requires
        9 <= n <= u64::MAX,
        sealed_block(key, n, recipient.encoding(), wire),
    ensures
        read_chunks::<Option<String>, OptionDeserializer<String>>(
            key,
            n,
            wire,
            Seq::<Seq<u8>>::empty(),
        ) matches Ok((history, used)) && used == wire.len() && <OptionDeserializer<
            String,
        > as Deserializer<Option<String>>>::finishes(history) && forall|back: Option<String>|
            <OptionDeserializer<String> as Deserializer<Option<String>>>::decodes(history, &back)
                <==> same_recipient(back, recipient),
{
    let none = Seq::<Seq<u8>>::empty();
    let bytes = recipient.encoding();
    let chunks = chunks_of(bytes, n - 8);
    lemma_chunks_of(bytes, n - 8);
    assert(chunks[0].len() >= 1 && chunks[0][0] == bytes[0]) by {
        if bytes.len() > n - 8 {
            assert(chunks[0] == bytes.take(n - 8));
        } else {
            assert(chunks[0] == bytes);
        }
    }
    assert(chunks.take(0) =~= none);
    assert(chunks.skip(0) =~= chunks);
    assert(none + chunks =~= chunks);
    match recipient {
        None => {
            assert(bytes =~= seq![0u8]);
            assert(chunks =~= seq![seq![0u8]]);
            assert(accepts_all::<Option<String>, OptionDeserializer<String>>(none, chunks)) by {
                assert(chunks.skip(1).len() == 0);
                assert(accepts_all::<Option<String>, OptionDeserializer<String>>(
                    none.push(chunks[0]),
                    chunks.skip(1),
                ));
            }
            lemma_write_then_read::<Option<String>, OptionDeserializer<String>>(
                key,
                n,
                bytes,
                wire,
                none,
            );
        },
        Some(text) => {
            let inner = untagged(chunks);
            lemma_accepts_all_always::<String, StringDeserializer>(inner.take(0), inner.skip(0));
            lemma_some_is_accepted::<String>(chunks, 0);
            lemma_write_then_read::<Option<String>, OptionDeserializer<String>>(
                key,
                n,
                bytes,
                wire,
                none,
            );
            lemma_untagged_bytes(chunks);
            assert(bytes.skip(1) =~= encode_utf8(text@));
            vstd::utf8::encode_utf8_valid_utf8(text@);
            assert(chunks != seq![seq![0u8]]);
            assert forall|back: String| encode_utf8(back@) == encode_utf8(text@) implies back@
                == text@ by {
                vstd::utf8::encode_utf8_decode_utf8(back@);
                vstd::utf8::encode_utf8_decode_utf8(text@);
            }
        },
    }
}

/// An ack comes back as it was written: the frames of the block decode to
/// an ack, and to a positive one exactly if a positive one was written.
pub proof fn lemma_ack_round_trip(key: Seq<u8>, n: int, ack: Result<(), ()>, wire: Seq<u8>)
    requires
        9 <= n <= u64::MAX,
        sealed_block(key, n, ack.encoding(), wire),
    ensures
        read_chunks::<Result<(), ()>, ResultDeserializer<(), ()>>(
            key,
            n,
            wire,
            Seq::<Seq<u8>>::empty(),
        ) matches Ok((history, used)) && used == wire.len() && <ResultDeserializer<
            (),
            (),
        > as Deserializer<Result<(), ()>>>::finishes(history) && forall|back: Result<(), ()>|
            <ResultDeserializer<(), ()> as Deserializer<Result<(), ()>>>::decodes(history, &back)
                <==> (back is Ok <==> ack is Ok),
{
    let none = Seq::<Seq<u8>>::empty();
    let bytes = ack.encoding();
    let tag: u8 = if ack is Ok { 1 } else { 0 };
    assert(bytes =~= seq![tag]);
    let chunks = chunks_of(bytes, n - 8);
    assert(chunks =~= seq![seq![tag]]);
    assert(chunks[0].skip(1) =~= Seq::<u8>::empty());
    assert(untagged(chunks) =~= seq![Seq::<u8>::empty()]);
    let inner = untagged(chunks);
    assert(inner.take(0) =~= none && inner.skip(0) =~= inner);
    assert(accepts_all::<(), bool>(none, inner)) by {
        assert(inner.skip(1).len() == 0);
        assert(accepts_all::<(), bool>(none.push(inner[0]), inner.skip(1)));
    }
    if ack is Ok {
        lemma_ok_is_accepted::<(), ()>(chunks, 0);
    } else {
        lemma_err_is_accepted::<(), ()>(chunks, 0);
    }
    assert(chunks.take(0) =~= none && chunks.skip(0) =~= chunks);
    lemma_write_then_read::<Result<(), ()>, ResultDeserializer<(), ()>>(
        key,
        n,
        bytes,
        wire,
        none,
    );
    assert(none + chunks =~= chunks);
}

/// Two verdicts say the same: both are positive, or both are negative with
/// the same reason.
pub open spec fn same_verdict(a: Result<(), String>, b: Result<(), String>) -> bool {
    match (a, b) {
        (Ok(_), Ok(_)) => true,
        (Err(x), Err(y)) => x@ == y@,
        _ => false,
    }
}

/// A verdict comes back as it was written, with its reason: the frames of
/// the block decode to a verdict exactly if it says the same as the one
/// that was written.
pub proof fn lemma_verdict_round_trip(
    key: Seq<u8>,
    n: int,
    verdict: Result<(), String>,
    wire: Seq<u8>,
)
    requires
        9 <= n <= u64::MAX,
        sealed_block(key, n, verdict.encoding(), wire),
    ensures
        read_chunks::<Result<(), String>, ResultDeserializer<(), String>>(
            key,
            n,
            wire,
            Seq::<Seq<u8>>::empty(),
        ) matches Ok((history, used)) && used == wire.len() && <ResultDeserializer<
            (),
            String,
        > as Deserializer<Result<(), String>>>::finishes(history) && forall|
            back: Result<(), String>,
        |
            <ResultDeserializer<(), String> as Deserializer<Result<(), String>>>::decodes(
                history,
                &back,
            ) <==> same_verdict(back, verdict),
{
    let none = Seq::<Seq<u8>>::empty();
    let bytes = verdict.encoding();
    let chunks = chunks_of(bytes, n - 8);
    lemma_chunks_of(bytes, n - 8);
    assert(chunks[0].len() >= 1 && chunks[0][0] == bytes[0]) by {
        if bytes.len() > n - 8 {
            assert(chunks[0] == bytes.take(n - 8));
        } else {
            assert(chunks[0] == bytes);
        }
    }
    let inner = untagged(chunks);
    assert(inner.take(0) =~= none && inner.skip(0) =~= inner);
    assert(chunks.take(0) =~= none && chunks.skip(0) =~= chunks);
    assert(none + chunks =~= chunks);
    match verdict {
        Ok(_) => {
            assert(bytes =~= seq![1u8]);
            assert(chunks =~= seq![seq![1u8]]);
            assert(chunks[0].skip(1) =~= Seq::<u8>::empty());
            assert(inner =~= seq![Seq::<u8>::empty()]);
            assert(accepts_all::<(), bool>(none, inner)) by {
                assert(inner.skip(1).len() == 0);
                assert(accepts_all::<(), bool>(none.push(inner[0]), inner.skip(1)));
            }
            lemma_ok_is_accepted::<(), String>(chunks, 0);
        },
        Err(reason) => {
            lemma_accepts_all_always::<String, StringDeserializer>(none, inner);
            lemma_err_is_accepted::<(), String>(chunks, 0);
            lemma_untagged_bytes(chunks);
            assert(bytes.skip(1) =~= encode_utf8(reason@));
            vstd::utf8::encode_utf8_valid_utf8(reason@);
            assert forall|back: String| encode_utf8(back@) == encode_utf8(reason@) implies back@
                == reason@ by {
                vstd::utf8::encode_utf8_decode_utf8(back@);
                vstd::utf8::encode_utf8_decode_utf8(reason@);
            }
        },
    }
    lemma_write_then_read::<Result<(), String>, ResultDeserializer<(), String>>(
        key,
        n,
        bytes,
        wire,
        none,
    );
}

} // verus!
