//! The layout of a frame before it is encrypted, and the cutting of a
//! payload into the chunks that frames carry.
//!
//! A frame holds `n` bytes: an 8-byte big-endian header, then `n - 8` bytes
//! of payload room. Header `0` marks a frame whose whole room is payload and
//! that another frame follows. Header `v > 0` marks the last frame of a
//! block: the first `v - 1` bytes of its room are payload, the rest is
//! padding.

use vstd::prelude::*;
use crate::serialization::{concat, lemma_concat_push};

verus! {

/// The bytes of the length header.
pub const HEADER_LEN: usize = 8;

/// The eight bytes of `v`, most significant first.
pub open spec fn header_bytes(v: u64) -> Seq<u8> {
    seq![
        (v >> 56) as u8,
        ((v >> 48) & 0xff) as u8,
        ((v >> 40) & 0xff) as u8,
        ((v >> 32) & 0xff) as u8,
        ((v >> 24) & 0xff) as u8,
        ((v >> 16) & 0xff) as u8,
        ((v >> 8) & 0xff) as u8,
        (v & 0xff) as u8,
    ]
}

/// The number that the first eight bytes of `bytes` spell, most significant
/// first.
pub open spec fn header_value(bytes: Seq<u8>) -> u64 {
    (bytes[0] as u64) << 56 | (bytes[1] as u64) << 48 | (bytes[2] as u64) << 40 | (bytes[3] as u64)
        << 32 | (bytes[4] as u64) << 24 | (bytes[5] as u64) << 16 | (bytes[6] as u64) << 8 | (
    bytes[7] as u64)
}

/// Reading a header back gives the number that was written.
pub proof fn lemma_header_round_trip(v: u64)
    ensures
        header_bytes(v).len() == 8,
        header_value(header_bytes(v)) == v,
{
    assert(((v >> 56) as u8 as u64) << 56 | ((((v >> 48) & 0xff) as u8) as u64) << 48 | ((((v >> 40)
        & 0xff) as u8) as u64) << 40 | ((((v >> 32) & 0xff) as u8) as u64) << 32 | ((((v >> 24)
        & 0xff) as u8) as u64) << 24 | ((((v >> 16) & 0xff) as u8) as u64) << 16 | ((((v >> 8)
        & 0xff) as u8) as u64) << 8 | (((v & 0xff) as u8) as u64) == v) by (bit_vector);
}

/// Writes `v` to the first eight bytes of `buf`, most significant first.
pub fn put_header(buf: &mut [u8], v: u64)
    requires
        old(buf)@.len() >= 8,
    ensures
        final(buf)@ == header_bytes(v) + old(buf)@.skip(8),
{
    let ghost before = buf@;
    buf[0] = (v >> 56) as u8;
    buf[1] = ((v >> 48) & 0xff) as u8;
    buf[2] = ((v >> 40) & 0xff) as u8;
    buf[3] = ((v >> 32) & 0xff) as u8;
    buf[4] = ((v >> 24) & 0xff) as u8;
    buf[5] = ((v >> 16) & 0xff) as u8;
    buf[6] = ((v >> 8) & 0xff) as u8;
    buf[7] = (v & 0xff) as u8;
    assert(buf@ =~= header_bytes(v) + before.skip(8));
}

/// Reads the number that the first eight bytes of `buf` spell.
pub fn get_header(buf: &[u8]) -> (v: u64)
    requires
        buf@.len() >= 8,
    ensures
        v == header_value(buf@),
{
    (buf[0] as u64) << 56 | (buf[1] as u64) << 48 | (buf[2] as u64) << 40 | (buf[3] as u64) << 32
        | (buf[4] as u64) << 24 | (buf[5] as u64) << 16 | (buf[6] as u64) << 8 | (buf[7] as u64)
}

/// `len` zero bytes.
pub open spec fn zeros(len: int) -> Seq<u8> {
    Seq::new(len as nat, |i: int| 0u8)
}

/// The frame of `n` bytes that carries `chunk`: the header, the chunk, and
/// zero padding up to `n`. The last frame of a block has the chunk's length
/// plus one in its header; any other frame has zero there and a full chunk.
pub open spec fn plain_frame(chunk: Seq<u8>, last: bool, n: int) -> Seq<u8> {
    let header = if last {
        (chunk.len() + 1) as u64
    } else {
        0u64
    };
    header_bytes(header) + chunk + zeros(n - 8 - chunk.len())
}

/// What a frame of `n` bytes carries: its chunk and whether it ends the
/// block, or nothing where the header claims more bytes than the frame has.
pub open spec fn frame_chunk(frame: Seq<u8>, n: int) -> Option<(Seq<u8>, bool)> {
    let v = header_value(frame);
    if frame.len() != n || n < 8 {
        None
    } else if v == 0 {
        Some((frame.skip(8), false))
    } else if v - 1 > n - 8 {
        None
    } else {
        Some((frame.subrange(8, 8 + (v - 1)), true))
    }
}

/// A frame that was built around a chunk gives that chunk back.
pub proof fn lemma_frame_round_trip(chunk: Seq<u8>, last: bool, n: int)
    requires
        8 <= n <= u64::MAX,
        chunk.len() <= n - 8,
        !last ==> chunk.len() == n - 8,
    ensures
        plain_frame(chunk, last, n).len() == n,
        frame_chunk(plain_frame(chunk, last, n), n) == Some((chunk, last)),
{
    let header = if last {
        (chunk.len() + 1) as u64
    } else {
        0u64
    };
    let frame = plain_frame(chunk, last, n);
    lemma_header_round_trip(header);
    assert(frame.len() == n);
    assert(header_value(frame) == header_value(header_bytes(header))) by {
        assert(forall|i: int| 0 <= i < 8 ==> frame[i] == header_bytes(header)[i]);
    }
    if last {
        assert(frame.subrange(8, 8 + chunk.len() as int) =~= chunk);
    } else {
        assert(frame.skip(8) =~= chunk);
    }
}

/// The chunks that the frames of a block carry, for a payload and a frame
/// room of `cap` bytes: full chunks while more than `cap` bytes are left,
/// then one last chunk with the rest, which may be empty or full.
pub open spec fn chunks_of(payload: Seq<u8>, cap: int) -> Seq<Seq<u8>>
    decreases payload.len(),
{
    if cap <= 0 || payload.len() <= cap {
        seq![payload]
    } else {
        seq![payload.take(cap)] + chunks_of(payload.skip(cap), cap)
    }
}

/// Every block has at least one frame, and a payload of `len` bytes takes
/// one frame more for each full room that leaves bytes behind.
pub open spec fn frame_count(len: int, cap: int) -> int
    decreases len,
{
    if cap <= 0 || len <= cap {
        1
    } else {
        1 + frame_count(len - cap, cap)
    }
}

/// The chunks of a payload are as many as its frame count, each fits the
/// frame room, all but the last fill it, and together they are the payload.
pub proof fn lemma_chunks_of(payload: Seq<u8>, cap: int)
    requires
        cap >= 1,
    ensures
        chunks_of(payload, cap).len() == frame_count(payload.len() as int, cap),
        chunks_of(payload, cap).len() >= 1,
        forall|i: int|
            0 <= i < chunks_of(payload, cap).len() ==> (#[trigger] chunks_of(payload, cap)[i]).len()
                <= cap,
        forall|i: int|
            0 <= i < chunks_of(payload, cap).len() - 1 ==> (#[trigger] chunks_of(
                payload,
                cap,
            )[i]).len() == cap,
        concat(chunks_of(payload, cap)) == payload,
    decreases payload.len(),
{
    if payload.len() <= cap {
        lemma_concat_single(payload);
    } else {
        let rest = chunks_of(payload.skip(cap), cap);
        let all = chunks_of(payload, cap);
        lemma_chunks_of(payload.skip(cap), cap);
        lemma_concat_front(payload.take(cap), rest);
        assert(payload.take(cap) + payload.skip(cap) =~= payload);
        assert forall|i: int| 0 <= i < all.len() implies (#[trigger] all[i]).len() <= cap by {
            if i > 0 {
                assert(all[i] == rest[i - 1]);
            }
        }
        assert forall|i: int| 0 <= i < all.len() - 1 implies (#[trigger] all[i]).len() == cap by {
            if i > 0 {
                assert(all[i] == rest[i - 1]);
            }
        }
    }
}

/// The bytes of a single chunk are the chunk.
pub proof fn lemma_concat_single(chunk: Seq<u8>)
    ensures
        concat(seq![chunk]) == chunk,
{
    let none = Seq::<Seq<u8>>::empty();
    assert(concat(none) =~= Seq::<u8>::empty());
    assert(seq![chunk] =~= none.push(chunk));
    lemma_concat_push(none, chunk);
    assert(concat(none) + chunk =~= chunk);
}

/// Putting a chunk in front of a run of chunks puts its bytes in front of
/// theirs.
pub proof fn lemma_concat_front(first: Seq<u8>, rest: Seq<Seq<u8>>)
    ensures
        concat(seq![first] + rest) == first + concat(rest),
    decreases rest.len(),
{
    if rest.len() == 0 {
        assert(seq![first] + rest =~= seq![first]);
        lemma_concat_single(first);
        assert(concat(seq![first]) =~= first + concat(rest));
    } else {
        let all = seq![first] + rest;
        assert(all.drop_last() =~= seq![first] + rest.drop_last());
        lemma_concat_front(first, rest.drop_last());
        assert(concat(all) =~= first + concat(rest));
    }
}

} // verus!
