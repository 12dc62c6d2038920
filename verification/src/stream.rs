//! The encrypted block stream: an ephemeral X25519 key agreement, then
//! fixed-size AES-256-GCM-SIV frames that carry the chunks of typed blocks.
//!
//! On the wire a frame is a 12-byte nonce followed by the ciphertext of a
//! plain frame of `N` bytes, which is 16 bytes longer for its tag. This
//! module turns values into wire bytes and wire bytes into values; moving
//! the bytes is left to the caller.

use vstd::prelude::*;
use aes::Aes256;
use aes_gcm_siv::aead::{AeadInPlace, KeyInit};
use aes_gcm_siv::{AesGcmSiv, Nonce};
use rand_core::{OsRng, RngCore};
use x25519_dalek::{EphemeralSecret, PublicKey};
use crate::frame::{
    chunks_of, frame_chunk, frame_count, get_header, lemma_chunks_of, lemma_frame_round_trip,
    plain_frame, put_header, zeros,
};
use crate::serialization::gather;
use crate::serialization::{concat, Deserializable, Deserializer, Serializable, Serializer};

verus! {

/// The bytes of a nonce.
pub const NONCE_LEN: usize = 12;

/// The bytes of an authentication tag.
pub const TAG_LEN: usize = 16;

/// The bytes of a public key, and of the session key.
pub const KEY_LEN: usize = 32;

/// What a frame has on the wire beyond its `N` plain bytes: nonce and tag.
pub const FRAME_OVERHEAD: usize = 28;

/// The longest plaintext that AES-GCM-SIV seals, in bytes.
pub const PLAINTEXT_MAX: u64 = 0x10_0000_0000;

/// The AES-256-GCM-SIV cipher of the `aes-gcm-siv` crate.
#[verifier::external_type_specification]
#[verifier::external_body]
#[verifier::reject_recursive_types(Aes)]
pub struct ExAesGcmSiv<Aes>(AesGcmSiv<Aes>);

/// The AES-256 block cipher of the `aes` crate.
#[verifier::external_type_specification]
#[verifier::external_body]
pub struct ExAes256(Aes256);

/// The error of the `aead` traits, which tells nothing but that sealing or
/// opening failed.
#[verifier::external_type_specification]
#[verifier::external_body]
pub struct ExAeadError(aes_gcm_siv::Error);

/// The one-time X25519 secret of the `x25519-dalek` crate.
#[verifier::external_type_specification]
#[verifier::external_body]
pub struct ExEphemeralSecret(EphemeralSecret);

/// The 32 key bytes that a cipher was made with.
pub uninterp spec fn cipher_key(cipher: AesGcmSiv<Aes256>) -> Seq<u8>;

/// The ciphertext and tag that AES-256-GCM-SIV gives for a key, a nonce and a
/// plaintext, with no associated data.
pub uninterp spec fn aes_gcm_siv_seal(key: Seq<u8>, nonce: Seq<u8>, plaintext: Seq<u8>) -> Seq<u8>;

/// The plaintext that AES-256-GCM-SIV recovers from a ciphertext with its
/// tag, for a key and a nonce and no associated data, or nothing where the
/// tag does not match.
pub uninterp spec fn aes_gcm_siv_open(key: Seq<u8>, nonce: Seq<u8>, sealed: Seq<u8>) -> Option<
    Seq<u8>,
>;

/// `Aes256::new` and the conversion of the block cipher into
/// `AesGcmSiv<Aes256>`: the cipher is keyed with the 32 bytes given.
#[verifier::external_body]
fn keyed_cipher(key: &[u8; 32]) -> (cipher: AesGcmSiv<Aes256>)
    ensures
        cipher_key(cipher) == key@,
{
    Aes256::new(key.into()).into()
}

/// `AeadInPlace::encrypt_in_place` with no associated data. It fails only on
/// a plaintext longer than the cipher's limit. Otherwise the buffer holds
/// the ciphertext followed by the 16-byte tag, and opening that under the
/// same key and nonce gives the plaintext back.
#[verifier::external_body]
fn encrypt_in_place(cipher: &AesGcmSiv<Aes256>, nonce: &[u8], buffer: &mut Vec<u8>) -> (r: Result<
    (),
    aes_gcm_siv::Error,
>)
    requires
        nonce@.len() == 12,
    ensures
        r is Ok <==> old(buffer)@.len() <= PLAINTEXT_MAX,
        r is Ok ==> {
            &&& final(buffer)@ == aes_gcm_siv_seal(cipher_key(*cipher), nonce@, old(buffer)@)
            &&& final(buffer)@.len() == old(buffer)@.len() + 16
            &&& aes_gcm_siv_open(cipher_key(*cipher), nonce@, final(buffer)@) == Some(
                old(buffer)@,
            )
        },
{
    cipher.encrypt_in_place(Nonce::from_slice(nonce), b"", buffer)
}

/// `AeadInPlace::decrypt_in_place` with no associated data. Where the tag
/// matches, the buffer is cut down to the plaintext, which is 16 bytes
/// shorter than what was given; where it does not, the call fails.
#[verifier::external_body]
fn decrypt_in_place(cipher: &AesGcmSiv<Aes256>, nonce: &[u8], buffer: &mut Vec<u8>) -> (r: Result<
    (),
    aes_gcm_siv::Error,
>)
    requires
        nonce@.len() == 12,
    ensures
        match aes_gcm_siv_open(cipher_key(*cipher), nonce@, old(buffer)@) {
            Some(plain) => {
                &&& r is Ok
                &&& final(buffer)@ == plain
                &&& plain.len() + 16 == old(buffer)@.len()
            },
            None => r is Err,
        },
{
    cipher.decrypt_in_place(Nonce::from_slice(nonce), b"", buffer)
}

/// `OsRng::fill_bytes` on a nonce: twelve bytes from the operating system's
/// random source. Nothing is known of them. The call does not return where
/// the operating system has no random source to offer.
#[verifier::external_body]
fn fresh_nonce() -> [u8; 12] {
    let mut nonce = [0u8; 12];
    OsRng.fill_bytes(&mut nonce);
    nonce
}

/// `EphemeralSecret::random_from_rng` with the operating system's random
/// source. Nothing is known of the secret. The call does not return where
/// the operating system has no random source to offer.
#[verifier::external_body]
fn fresh_secret() -> EphemeralSecret {
    EphemeralSecret::random_from_rng(OsRng)
}

/// The 32 bytes that a one-time secret holds.
pub uninterp spec fn secret_scalar(secret: EphemeralSecret) -> Seq<u8>;

/// The 32 bytes of the X25519 public key that belongs to a secret.
pub uninterp spec fn x25519_public(scalar: Seq<u8>) -> Seq<u8>;

/// The 32 bytes that X25519 gives for a secret and a peer's public key.
pub uninterp spec fn x25519_shared(scalar: Seq<u8>, peer: Seq<u8>) -> Seq<u8>;

/// `PublicKey::from` on a secret, and `PublicKey::to_bytes`: the 32 bytes of
/// the public key that belongs to the secret.
#[verifier::external_body]
fn public_key_of(secret: &EphemeralSecret) -> (public: [u8; 32])
    ensures
        public@ == x25519_public(secret_scalar(*secret)),
{
    PublicKey::from(secret).to_bytes()
}

/// `EphemeralSecret::diffie_hellman` and `SharedSecret::to_bytes`: the 32
/// bytes that X25519 gives for this secret and the peer's public key.
#[verifier::external_body]
fn shared_secret(secret: EphemeralSecret, peer: &[u8; 32]) -> (shared: [u8; 32])
    ensures
        shared@ == x25519_shared(secret_scalar(secret), peer@),
{
    secret.diffie_hellman(&PublicKey::from(*peer)).to_bytes()
}

/// A frame size is usable when a frame has room for at least one payload
/// byte after its header and its wire length can be counted.
pub open spec fn frame_size_ok(n: usize) -> bool {
    9 <= n && n + 28 <= usize::MAX
}

/// `frame` is a nonce followed by the sealing of `plain` under `key` and
/// that nonce, and opens to `plain` again.
pub open spec fn sealed(key: Seq<u8>, frame: Seq<u8>, plain: Seq<u8>) -> bool {
    &&& frame.len() == 12 + plain.len() + 16
    &&& frame.skip(12) == aes_gcm_siv_seal(key, frame.take(12), plain)
    &&& aes_gcm_siv_open(key, frame.take(12), frame.skip(12)) == Some(plain)
}

/// `wire` is what a block with this payload looks like on the wire, for
/// frames of `n` plain bytes under `key`: one sealed frame for each chunk of
/// the payload, in order, and nothing else. Only the nonces are left open.
pub open spec fn sealed_block(key: Seq<u8>, n: int, payload: Seq<u8>, wire: Seq<u8>) -> bool
    decreases payload.len(),
{
    if n <= 8 || payload.len() <= n - 8 {
        sealed(key, wire, plain_frame(payload, true, n))
    } else {
        &&& wire.len() >= n + 28
        &&& sealed(key, wire.take(n + 28), plain_frame(payload.take(n - 8), false, n))
        &&& sealed_block(key, n, payload.skip(n - 8), wire.skip(n + 28))
    }
}

/// Why a block could not be read.
#[derive(Clone, Copy, PartialEq, Eq, Structural, Debug)]
pub enum ReadFault {
    /// The bytes ended inside a frame.
    Network,
    /// The cipher rejected a frame.
    Decrypt,
    /// A frame's header claims more payload than a frame holds.
    Header,
    /// The decoder rejected a chunk.
    Update,
    /// The decoder could not finish on what it was given.
    Finalize,
}

/// What a wire frame carries under `key`: its chunk and whether it ends the
/// block, or the fault that reading it meets.
pub open spec fn opened(key: Seq<u8>, n: int, frame: Seq<u8>) -> Result<(Seq<u8>, bool), ReadFault> {
    if frame.len() != n + 28 {
        Err(ReadFault::Network)
    } else {
        match aes_gcm_siv_open(key, frame.take(12), frame.skip(12)) {
            None => Err(ReadFault::Decrypt),
            Some(plain) => match frame_chunk(plain, n) {
                None => Err(ReadFault::Header),
                Some(carried) => Ok(carried),
            },
        }
    }
}

/// Reading one block from the front of `wire` with a decoder that has
/// accepted `history`: frame after frame is opened and its chunk offered to
/// the decoder, up to the frame that ends the block. The result is the
/// decoder's history after the block and the number of wire bytes used, or
/// the first fault met.
pub open spec fn read_chunks<T, D: Deserializer<T>>(
    key: Seq<u8>,
    n: int,
    wire: Seq<u8>,
    history: Seq<Seq<u8>>,
) -> Result<(Seq<Seq<u8>>, int), ReadFault>
    decreases wire.len(),
{
    if n < 0 || wire.len() < n + 28 {
        Err(ReadFault::Network)
    } else {
        match opened(key, n, wire.take(n + 28)) {
            Err(fault) => Err(fault),
            Ok((chunk, last)) => if !D::accepts(history, chunk) {
                Err(ReadFault::Update)
            } else if last {
                Ok((history.push(chunk), n + 28))
            } else {
                match read_chunks::<T, D>(key, n, wire.skip(n + 28), history.push(chunk)) {
                    Err(fault) => Err(fault),
                    Ok((all, used)) => Ok((all, used + n + 28)),
                }
            },
        }
    }
}

/// A block could not be written: the cipher refused the frame, which it does
/// only for a frame longer than its plaintext limit.
#[derive(Debug)]
pub enum WriteError {
    EncryptError,
}

/// A block could not be read.
pub enum ReadError<T: Deserializable> {
    /// The bytes ended inside a frame.
    NetworkError,
    /// The cipher rejected a frame: it was not sealed under the session key,
    /// or it was changed on the way.
    DecryptError,
    /// A frame's header claims more payload than a frame holds.
    HeaderError,
    /// The decoder rejected a chunk.
    UpdateError(<T::Deserializer as Deserializer<T>>::UpdateError),
    /// The decoder could not finish on what it was given.
    FinalizeError(<T::Deserializer as Deserializer<T>>::FinalizeError),
}

impl<T: Deserializable> ReadError<T> {
    /// The kind of this error.
    pub open spec fn fault(&self) -> ReadFault {
        match self {
            ReadError::NetworkError => ReadFault::Network,
            ReadError::DecryptError => ReadFault::Decrypt,
            ReadError::HeaderError => ReadFault::Header,
            ReadError::UpdateError(_) => ReadFault::Update,
            ReadError::FinalizeError(_) => ReadFault::Finalize,
        }
    }

    /// The kind of this error.
    pub fn kind(&self) -> (k: ReadFault)
        ensures
            k == self.fault(),
    {
        match self {
            ReadError::NetworkError => ReadFault::Network,
            ReadError::DecryptError => ReadFault::Decrypt,
            ReadError::HeaderError => ReadFault::Header,
            ReadError::UpdateError(_) => ReadFault::Update,
            ReadError::FinalizeError(_) => ReadFault::Finalize,
        }
    }
}

/// One side of the key agreement, before the peer's public key is known.
pub struct Handshake {
    secret: EphemeralSecret,
}

impl Handshake {
    /// The 32 bytes of the secret.
    pub closed spec fn scalar(&self) -> Seq<u8> {
        secret_scalar(self.secret)
    }

    /// Draws a fresh secret.
    pub fn start() -> Self {
        Self { secret: fresh_secret() }
    }

    /// The 32 bytes to send to the peer: the public key that belongs to the
    /// secret.
    pub fn public_key(&self) -> (public: [u8; 32])
        ensures
            public@ == x25519_public(self.scalar()),
    {
        public_key_of(&self.secret)
    }
}

/// The cipher of one connection, for frames of `N` plain bytes.
pub struct BlockStream<const N: usize> {
    aes: AesGcmSiv<Aes256>,
}

impl<const N: usize> BlockStream<N> {
    /// The session key.
    pub closed spec fn key(&self) -> Seq<u8> {
        cipher_key(self.aes)
    }

    /// Ends the key agreement with the 32 bytes that the peer sent: the
    /// shared secret is used as the session key, as it is.
    pub fn new(handshake: Handshake, peer_public: [u8; 32]) -> (stream: Self)
        ensures
            stream.key() == x25519_shared(handshake.scalar(), peer_public@),
    {
        let key = shared_secret(handshake.secret, &peer_public);
        Self { aes: keyed_cipher(&key) }
    }

    /// A stream under a session key that is already known.
    pub fn with_key(key: [u8; 32]) -> (stream: Self)
        ensures
            stream.key() == key@,
    {
        Self { aes: keyed_cipher(&key) }
    }

    /// Builds, seals and returns the next frame of a block, and tells whether
    /// it was the last one.
    ///
    /// The frame carries the next `N - 8` pending bytes of the encoder while
    /// more than that are pending, and otherwise all that is pending: that
    /// frame ends the block. On the wire it has `12 + N + 16` bytes.
    pub fn write_frame<S: Serializer>(&self, serializer: &mut S) -> (r: Result<
        (Vec<u8>, bool),
        WriteError,
    >)
        requires
            frame_size_ok(N),
        ensures
            r is Ok <==> N <= PLAINTEXT_MAX,
            r matches Ok((frame, last)) ==> {
                let pending = old(serializer).pending();
                &&& last == (pending.len() <= N - 8)
                &&& frame@.len() == 12 + N + 16
                &&& last ==> sealed(self.key(), frame@, plain_frame(pending, true, N as int))
                    && final(serializer).pending() == Seq::<u8>::empty()
                &&& !last ==> sealed(
                    self.key(),
                    frame@,
                    plain_frame(pending.take(N - 8), false, N as int),
                ) && final(serializer).pending() == pending.skip(N - 8)
            },
    {
        let ghost pending = serializer.pending();
        let mut plain: Vec<u8> = vec![0u8; N];
        assert(plain@ =~= zeros(N as int));
        let room = plain.as_mut_slice();
        let (head, body) = room.split_at_mut(8);
        assert(body@ =~= zeros(N - 8));
        let filled = serializer.fill(body);
        let (header, last): (u64, bool) = match filled {
            None => (0, false),
            Some(k) => (k as u64 + 1, true),
        };
        put_header(head, header);
        proof {
            if last {
                assert(zeros(N - 8).skip(pending.len() as int) =~= zeros(N - 8 - pending.len()));
                assert(head@ + body@ =~= plain_frame(pending, true, N as int));
            } else {
                assert(zeros(N - 8 - (N - 8)) =~= Seq::<u8>::empty());
                assert(head@ + body@ =~= plain_frame(pending.take(N - 8), false, N as int));
            }
        }
        let nonce = fresh_nonce();
        match encrypt_in_place(&self.aes, nonce.as_slice(), &mut plain) {
            Err(_) => Err(WriteError::EncryptError),
            Ok(()) => {
                let mut frame: Vec<u8> = Vec::new();
                gather(&mut frame, nonce.as_slice());
                gather(&mut frame, plain.as_slice());
                proof {
                    assert(frame@.take(12) =~= nonce@);
                    assert(frame@.skip(12) =~= plain@);
                }
                Ok((frame, last))
            },
        }
    }

    /// Encodes `block` and returns its frames as they go on the wire, one
    /// after the other.
    pub fn write_block<B: Serializable + ?Sized>(&self, block: &B) -> (r: Result<
        Vec<u8>,
        WriteError,
    >)
        requires
            frame_size_ok(N),
        ensures
            r is Ok <==> N <= PLAINTEXT_MAX,
            r matches Ok(wire) ==> sealed_block(self.key(), N as int, block.encoding(), wire@),
    {
        let mut serializer = block.serializer();
        let mut wire: Vec<u8> = Vec::new();
        let ghost payload = block.encoding();
        let mut failed = false;
        loop
            invariant_except_break
                frame_size_ok(N),
                !failed,
                forall|rest: Seq<u8>| #[trigger]
                    sealed_block(self.key(), N as int, serializer.pending(), rest)
                        ==> sealed_block(self.key(), N as int, payload, wire@ + rest),
            ensures
                failed <==> N > PLAINTEXT_MAX,
                !failed ==> sealed_block(self.key(), N as int, payload, wire@),
            decreases serializer.pending().len(),
        {
            let ghost pending = serializer.pending();
            let ghost sent = wire@;
            match self.write_frame(&mut serializer) {
                Err(_) => {
                    failed = true;
                    break ;
                },
                Ok((frame, last)) => {
                    gather(&mut wire, frame.as_slice());
                    if last {
                        assert(sealed_block(self.key(), N as int, pending, frame@));
                        break ;
                    }
                    proof {
                        assert forall|rest: Seq<u8>| #[trigger]
                            sealed_block(
                                self.key(),
                                N as int,
                                serializer.pending(),
                                rest,
                            ) implies sealed_block(self.key(), N as int, payload, wire@ + rest) by {
                            let more = frame@ + rest;
                            assert(more.take(N + 28) =~= frame@);
                            assert(more.skip(N + 28) =~= rest);
                            assert(sealed_block(self.key(), N as int, pending, more));
                            assert(sent + more =~= wire@ + rest);
                        }
                    }
                },
            }
        }
        if failed {
            Err(WriteError::EncryptError)
        } else {
            Ok(wire)
        }
    }

    /// Opens one wire frame and feeds the chunk it carries to the decoder.
    /// Tells whether the frame ended the block.
    pub fn read_frame<T: Deserializable>(&self, frame: &[u8], decoder: &mut T::Deserializer) -> (r:
        Result<bool, ReadError<T>>)
        requires
            frame_size_ok(N),
        ensures
            forall|history: Seq<Seq<u8>>| #[trigger]
                old(decoder).reached(history) ==> match opened(self.key(), N as int, frame@) {
                    Err(fault) => r matches Err(e) && e.fault() == fault,
                    Ok((chunk, last)) => if <T::Deserializer as Deserializer<T>>::accepts(
                        history,
                        chunk,
                    ) {
                        r == Ok::<bool, ReadError<T>>(last) && final(decoder).reached(
                            history.push(chunk),
                        )
                    } else {
                        r matches Err(e) && e.fault() == ReadFault::Update
                    },
                },
    {
        if frame.len() != N + FRAME_OVERHEAD {
            return Err(ReadError::NetworkError);
        }
        let nonce = vstd::slice::slice_subrange(frame, 0, NONCE_LEN);
        let body = vstd::slice::slice_subrange(frame, NONCE_LEN, frame.len());
        assert(nonce@ =~= frame@.take(12));
        assert(body@ =~= frame@.skip(12));
        let mut plain: Vec<u8> = Vec::new();
        gather(&mut plain, body);
        assert(plain@ =~= body@);
        if decrypt_in_place(&self.aes, nonce, &mut plain).is_err() {
            return Err(ReadError::DecryptError);
        }
        let header = get_header(plain.as_slice());
        if header == 0 {
            let chunk = vstd::slice::slice_subrange(plain.as_slice(), 8, N);
            assert(chunk@ =~= plain@.skip(8));
            match decoder.update(chunk) {
                Ok(()) => Ok(false),
                Err(e) => Err(ReadError::UpdateError(e)),
            }
        } else if header - 1 > (N - 8) as u64 {
            Err(ReadError::HeaderError)
        } else {
            let end: usize = 8 + (header - 1) as usize;
            let chunk = vstd::slice::slice_subrange(plain.as_slice(), 8, end);
            match decoder.update(chunk) {
                Ok(()) => Ok(true),
                Err(e) => Err(ReadError::UpdateError(e)),
            }
        }
    }

    /// Reads one block from the front of `wire` and decodes it. Returns the
    /// value and the number of wire bytes that the block took.
    pub fn read_block<T: Deserializable>(&self, wire: &[u8]) -> (r: Result<(T, usize), ReadError<T>>)
        requires
            frame_size_ok(N),
        ensures
            match read_chunks::<T, T::Deserializer>(
                self.key(),
                N as int,
                wire@,
                Seq::<Seq<u8>>::empty(),
            ) {
                Err(fault) => r matches Err(e) && e.fault() == fault,
                Ok((history, used)) => if <T::Deserializer as Deserializer<T>>::finishes(history) {
                    r matches Ok((value, taken)) && taken == used && <T::Deserializer as Deserializer<
                        T,
                    >>::decodes(history, &value)
                } else {
                    r matches Err(e) && e.fault() == ReadFault::Finalize
                },
            },
    {
        let mut decoder = T::deserializer();
        let mut pos: usize = 0;
        let ghost mut history = Seq::<Seq<u8>>::empty();
        let ghost whole = read_chunks::<T, T::Deserializer>(
            self.key(),
            N as int,
            wire@,
            Seq::<Seq<u8>>::empty(),
        );
        assert(wire@.skip(0) =~= wire@);
        loop
            invariant_except_break
                frame_size_ok(N),
                pos <= wire@.len(),
                decoder.reached(history),
                whole == match read_chunks::<T, T::Deserializer>(
                    self.key(),
                    N as int,
                    wire@.skip(pos as int),
                    history,
                ) {
                    Err(fault) => Err(fault),
                    Ok((all, used)) => Ok((all, used + pos)),
                },
            invariant
                whole == read_chunks::<T, T::Deserializer>(
                    self.key(),
                    N as int,
                    wire@,
                    Seq::<Seq<u8>>::empty(),
                ),
            ensures
                pos <= wire@.len(),
                decoder.reached(history),
                whole == Ok::<(Seq<Seq<u8>>, int), ReadFault>((history, pos as int)),
            decreases wire@.len() - pos,
        {
            if wire.len() - pos < N + FRAME_OVERHEAD {
                return Err(ReadError::NetworkError);
            }
            let frame = vstd::slice::slice_subrange(wire, pos, pos + (N + FRAME_OVERHEAD));
            assert(frame@ =~= wire@.skip(pos as int).take(N + 28));
            let ghost rest = wire@.skip(pos as int);
            let ghost carried = opened(self.key(), N as int, frame@);
            match self.read_frame::<T>(frame, &mut decoder) {
                Err(e) => {
                    return Err(e);
                },
                Ok(last) => {
                    proof {
                        history = history.push(carried->Ok_0.0);
                        assert(rest.skip(N + 28) =~= wire@.skip(pos + (N + 28)));
                    }
                    pos = pos + (N + FRAME_OVERHEAD);
                    if last {
                        break ;
                    }
                },
            }
        }
        match decoder.finalize() {
            Ok(value) => Ok((value, pos)),
            Err(e) => Err(ReadError::FinalizeError(e)),
        }
    }
}

/// The decoder accepts each chunk of `chunks` in turn, after `history`.
pub open spec fn accepts_all<T, D: Deserializer<T>>(
    history: Seq<Seq<u8>>,
    chunks: Seq<Seq<u8>>,
) -> bool
    decreases chunks.len(),
{
    chunks.len() == 0 || (D::accepts(history, chunks[0]) && accepts_all::<T, D>(
        history.push(chunks[0]),
        chunks.skip(1),
    ))
}

/// What was written is what is read: the frames of a block, read back under
/// the same key by a decoder that accepts the payload's chunks, hand the
/// decoder exactly those chunks and use up exactly those frames.
pub proof fn lemma_write_then_read<T, D: Deserializer<T>>(
    key: Seq<u8>,
    n: int,
    payload: Seq<u8>,
    wire: Seq<u8>,
    history: Seq<Seq<u8>>,
)
    requires
        9 <= n <= u64::MAX,
        sealed_block(key, n, payload, wire),
        accepts_all::<T, D>(history, chunks_of(payload, n - 8)),
    ensures
        read_chunks::<T, D>(key, n, wire, history) == Ok::<(Seq<Seq<u8>>, int), ReadFault>(
            (history + chunks_of(payload, n - 8), wire.len() as int),
        ),
    decreases payload.len(),
{
    let chunks = chunks_of(payload, n - 8);
    if payload.len() <= n - 8 {
        lemma_frame_round_trip(payload, true, n);
        assert(wire.take(n + 28) =~= wire);
        assert(chunks[0] == payload);
        assert(history + chunks =~= history.push(payload));
    } else {
        let first = payload.take(n - 8);
        let rest = payload.skip(n - 8);
        lemma_frame_round_trip(first, false, n);
        assert(chunks[0] == first);
        assert(chunks.skip(1) =~= chunks_of(rest, n - 8));
        lemma_write_then_read::<T, D>(key, n, rest, wire.skip(n + 28), history.push(first));
        assert(history.push(first) + chunks_of(rest, n - 8) =~= history + chunks);
    }
}

/// A byte payload of any length comes back as it was written: reading the
/// frames of the block gathers exactly the payload, and uses up exactly
/// those frames.
pub proof fn lemma_bytes_round_trip(key: Seq<u8>, n: int, payload: Seq<u8>, wire: Seq<u8>)
    requires
        9 <= n <= u64::MAX,
        sealed_block(key, n, payload, wire),
    ensures
        read_chunks::<Vec<u8>, Vec<u8>>(key, n, wire, Seq::<Seq<u8>>::empty()) matches Ok(
            (history, used),
        ) && used == wire.len() && concat(history) == payload && <Vec<u8> as Deserializer<
            Vec<u8>,
        >>::finishes(history) && forall|value: Vec<u8>|
            <Vec<u8> as Deserializer<Vec<u8>>>::decodes(history, &value) <==> value@ == payload,
{
    let chunks = chunks_of(payload, n - 8);
    let none = Seq::<Seq<u8>>::empty();
    lemma_accepts_all_always::<Vec<u8>, Vec<u8>>(none, chunks);
    lemma_write_then_read::<Vec<u8>, Vec<u8>>(key, n, payload, wire, none);
    lemma_chunks_of(payload, n - 8);
    assert(none + chunks =~= chunks);
}

/// A decoder that accepts every chunk accepts every run of chunks.
pub proof fn lemma_accepts_all_always<T, D: Deserializer<T>>(
    history: Seq<Seq<u8>>,
    chunks: Seq<Seq<u8>>,
)
    requires
        forall|h: Seq<Seq<u8>>, c: Seq<u8>| D::accepts(h, c),
    ensures
        accepts_all::<T, D>(history, chunks),
    decreases chunks.len(),
{
    if chunks.len() > 0 {
        lemma_accepts_all_always::<T, D>(history.push(chunks[0]), chunks.skip(1));
    }
}

/// Reading a block does not look past its last frame: with more bytes
/// behind the block, the same chunks are read and the same bytes used.
pub proof fn lemma_read_stops_at_block_end<T, D: Deserializer<T>>(
    key: Seq<u8>,
    n: int,
    first: Seq<u8>,
    second: Seq<u8>,
    history: Seq<Seq<u8>>,
)
    requires
        read_chunks::<T, D>(key, n, first, history) is Ok,
    ensures
        read_chunks::<T, D>(key, n, first + second, history) == read_chunks::<T, D>(
            key,
            n,
            first,
            history,
        ),
        read_chunks::<T, D>(key, n, first, history) matches Ok((_, used)) && 0 < used
            <= first.len(),
    decreases first.len(),
{
    let both = first + second;
    assert(both.take(n + 28) =~= first.take(n + 28));
    match opened(key, n, first.take(n + 28)) {
        Ok((chunk, last)) => {
            if !last {
                assert(both.skip(n + 28) =~= first.skip(n + 28) + second);
                lemma_read_stops_at_block_end::<T, D>(
                    key,
                    n,
                    first.skip(n + 28),
                    second,
                    history.push(chunk),
                );
            }
        },
        Err(_) => {},
    }
}

/// Blocks keep their order: of two byte payloads written one after the
/// other, the first read returns the first and stops where the second
/// begins, and the second read returns the second.
pub proof fn lemma_blocks_in_order(
    key: Seq<u8>,
    n: int,
    first_payload: Seq<u8>,
    first_wire: Seq<u8>,
    second_payload: Seq<u8>,
    second_wire: Seq<u8>,
)
    requires
        9 <= n <= u64::MAX,
        sealed_block(key, n, first_payload, first_wire),
        sealed_block(key, n, second_payload, second_wire),
    ensures
        read_chunks::<Vec<u8>, Vec<u8>>(
            key,
            n,
            first_wire + second_wire,
            Seq::<Seq<u8>>::empty(),
        ) matches Ok((history, used)) && used == first_wire.len() && concat(history)
            == first_payload,
        read_chunks::<Vec<u8>, Vec<u8>>(
            key,
            n,
            (first_wire + second_wire).skip(first_wire.len() as int),
            Seq::<Seq<u8>>::empty(),
        ) matches Ok((history, used)) && used == second_wire.len() && concat(history)
            == second_payload,
{
    let none = Seq::<Seq<u8>>::empty();
    lemma_bytes_round_trip(key, n, first_payload, first_wire);
    lemma_bytes_round_trip(key, n, second_payload, second_wire);
    lemma_read_stops_at_block_end::<Vec<u8>, Vec<u8>>(key, n, first_wire, second_wire, none);
    assert((first_wire + second_wire).skip(first_wire.len() as int) =~= second_wire);
}

/// Every frame on the wire has `12 + n + 16` bytes: a block takes that many
/// bytes for each of its frames.
pub proof fn lemma_wire_length(key: Seq<u8>, n: int, payload: Seq<u8>, wire: Seq<u8>)
    requires
        9 <= n <= u64::MAX,
        sealed_block(key, n, payload, wire),
    ensures
        wire.len() == frame_count(payload.len() as int, n - 8) * (12 + n + 16),
    decreases payload.len(),
{
    if payload.len() <= n - 8 {
        lemma_frame_round_trip(payload, true, n);
    } else {
        lemma_frame_round_trip(payload.take(n - 8), false, n);
        lemma_wire_length(key, n, payload.skip(n - 8), wire.skip(n + 28));
        assert((1 + frame_count(payload.len() - (n - 8), n - 8)) * (12 + n + 16) == (12 + n + 16)
            + frame_count(payload.len() - (n - 8), n - 8) * (12 + n + 16)) by (nonlinear_arith);
    }
}

} // verus!
