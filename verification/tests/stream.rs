use aes_gcm_siv::aead::{Aead, KeyInit};
use aes_gcm_siv::{Aes256GcmSiv, Nonce};
use chat::serialization::Serializable;
use chat::stream::{
    BlockStream, Handshake, ReadError, ReadFault, FRAME_OVERHEAD, KEY_LEN, NONCE_LEN, TAG_LEN,
};

const KEY: [u8; 32] = [7u8; 32];

fn payload(len: usize) -> Vec<u8> {
    (0..len).map(|i| (i * 31 + 5) as u8).collect()
}

fn open_frames(key: &[u8; 32], n: usize, wire: &[u8]) -> Vec<Vec<u8>> {
    let cipher = Aes256GcmSiv::new_from_slice(key).unwrap();
    assert_eq!(wire.len() % (n + 28), 0);
    wire.chunks(n + 28)
        .map(|frame| {
            let plain = cipher.decrypt(Nonce::from_slice(&frame[..12]), &frame[12..]).unwrap();
            assert_eq!(plain.len(), n);
            plain
        })
        .collect()
}

fn seal_frame(key: &[u8; 32], nonce: [u8; 12], plain: &[u8]) -> Vec<u8> {
    let cipher = Aes256GcmSiv::new_from_slice(key).unwrap();
    let mut frame = nonce.to_vec();
    frame.extend(cipher.encrypt(Nonce::from_slice(&nonce), plain).unwrap());
    frame
}

fn round_trip_1024(len: usize, frames: usize) {
    let stream = BlockStream::<1024>::with_key(KEY);
    let sent = payload(len);
    let wire = stream.write_block(&sent).unwrap();
    assert_eq!(wire.len(), frames * (12 + 1024 + 16));
    let (back, used) = stream.read_block::<Vec<u8>>(&wire).ok().unwrap();
    assert_eq!(back, sent);
    assert_eq!(used, wire.len());
}

#[test]
fn sizes_are_those_of_the_wire_format() {
    assert_eq!(NONCE_LEN, 12);
    assert_eq!(TAG_LEN, 16);
    assert_eq!(KEY_LEN, 32);
    assert_eq!(FRAME_OVERHEAD, 28);
}

#[test]
fn handshake_agrees_on_a_key() {
    let a = Handshake::start();
    let b = Handshake::start();
    let a_public = a.public_key();
    let b_public = b.public_key();
    assert_ne!(a_public, b_public);
    let alice = BlockStream::<1024>::new(a, b_public);
    let bob = BlockStream::<1024>::new(b, a_public);
    let sent: Vec<u8> = vec![1, 2, 3];
    let wire = alice.write_block(&sent).unwrap();
    assert_eq!(wire.len(), 12 + 1024 + 16);
    let (back, used) = bob.read_block::<Vec<u8>>(&wire).ok().unwrap();
    assert_eq!(back, sent);
    assert_eq!(used, wire.len());
    let answer = bob.write_block(&sent).unwrap();
    assert_eq!(alice.read_block::<Vec<u8>>(&answer).ok().unwrap().0, sent);
}

#[test]
fn session_key_is_the_shared_secret_itself() {
    let theirs = x25519_dalek::EphemeralSecret::random_from_rng(rand_core::OsRng);
    let their_public = x25519_dalek::PublicKey::from(&theirs).to_bytes();
    let ours = Handshake::start();
    let our_public = ours.public_key();
    assert_eq!(ours.public_key(), our_public);
    let stream = BlockStream::<64>::new(ours, their_public);
    let shared = theirs.diffie_hellman(&x25519_dalek::PublicKey::from(our_public)).to_bytes();
    let peer = BlockStream::<64>::with_key(shared);
    let wire = stream.write_block(&payload(100)).unwrap();
    assert_eq!(peer.read_block::<Vec<u8>>(&wire).ok().unwrap().0, payload(100));
    assert_eq!(open_frames(&shared, 64, &wire).len(), 2);
}

#[test]
fn stranger_does_not_share_the_key() {
    let a = Handshake::start();
    let b = Handshake::start();
    let c = Handshake::start();
    let a_public = a.public_key();
    let b_public = b.public_key();
    let alice = BlockStream::<64>::new(a, b_public);
    let eve = BlockStream::<64>::new(c, a_public);
    let wire = alice.write_block(&vec![1u8, 2, 3]).unwrap();
    let r = eve.read_block::<Vec<u8>>(&wire);
    assert!(matches!(r, Err(ReadError::DecryptError)));
}

#[test]
fn round_trip_of_an_empty_payload() {
    round_trip_1024(0, 1);
}

#[test]
fn round_trip_of_one_byte() {
    round_trip_1024(1, 1);
}

#[test]
fn round_trip_one_byte_short_of_a_full_frame() {
    round_trip_1024(1024 - 9, 1);
}

#[test]
fn round_trip_of_a_full_frame() {
    round_trip_1024(1024 - 8, 1);
}

#[test]
fn round_trip_one_byte_over_a_full_frame() {
    round_trip_1024(1024 - 7, 2);
}

#[test]
fn round_trip_of_two_and_three_full_frames() {
    round_trip_1024(2 * (1024 - 8), 2);
    round_trip_1024(3 * (1024 - 8), 3);
}

#[test]
fn round_trip_of_ten_times_the_frame_size() {
    round_trip_1024(10 * 1024, 11);
}

#[test]
fn frames_are_sealed_as_the_cipher_seals_them() {
    let stream = BlockStream::<16>::with_key(KEY);
    let wire = stream.write_block(&vec![9u8, 8, 7]).unwrap();
    assert_eq!(wire.len(), 44);
    assert_ne!(&wire[12..28], &[0, 0, 0, 0, 0, 0, 0, 4, 9, 8, 7, 0, 0, 0, 0, 0]);
    let plain = open_frames(&KEY, 16, &wire);
    assert_eq!(plain, vec![vec![0, 0, 0, 0, 0, 0, 0, 4, 9, 8, 7, 0, 0, 0, 0, 0]]);
    let mut nonce = [0u8; 12];
    nonce.copy_from_slice(&wire[..12]);
    assert_eq!(seal_frame(&KEY, nonce, &plain[0]), wire);
}

#[test]
fn empty_block_is_one_frame_with_header_one() {
    let stream = BlockStream::<16>::with_key(KEY);
    let wire = stream.write_block(&Vec::<u8>::new()).unwrap();
    let plain = open_frames(&KEY, 16, &wire);
    assert_eq!(plain, vec![vec![0, 0, 0, 0, 0, 0, 0, 1, 0, 0, 0, 0, 0, 0, 0, 0]]);
}

#[test]
fn multi_block_payload_has_three_full_frames_and_a_last_one_with_header_six() {
    let stream = BlockStream::<1024>::with_key(KEY);
    let sent = payload(3 * (1024 - 8) + 5);
    let wire = stream.write_block(&sent).unwrap();
    let plain = open_frames(&KEY, 1024, &wire);
    assert_eq!(plain.len(), 4);
    for (i, frame) in plain.iter().take(3).enumerate() {
        assert_eq!(&frame[..8], &[0u8; 8]);
        assert_eq!(&frame[8..], &sent[i * 1016..(i + 1) * 1016]);
    }
    assert_eq!(&plain[3][..8], &[0, 0, 0, 0, 0, 0, 0, 6]);
    assert_eq!(&plain[3][8..13], &sent[3 * 1016..]);
    assert!(plain[3][13..].iter().all(|b| *b == 0));
    let (back, used) = stream.read_block::<Vec<u8>>(&wire).ok().unwrap();
    assert_eq!(back, sent);
    assert_eq!(used, 4 * 1052);
}

#[test]
fn reading_accepts_frames_of_another_writer() {
    let stream = BlockStream::<16>::with_key(KEY);
    let mut wire = seal_frame(&KEY, [1; 12], &[0, 0, 0, 0, 0, 0, 0, 0, 1, 2, 3, 4, 5, 6, 7, 8]);
    wire.extend(seal_frame(&KEY, [2; 12], &[0, 0, 0, 0, 0, 0, 0, 3, 9, 10, 77, 77, 77, 77, 77, 77]));
    let (back, used) = stream.read_block::<Vec<u8>>(&wire).ok().unwrap();
    assert_eq!(back, vec![1, 2, 3, 4, 5, 6, 7, 8, 9, 10]);
    assert_eq!(used, 88);
}

#[test]
fn blocks_come_back_in_the_order_they_were_written() {
    let stream = BlockStream::<32>::with_key(KEY);
    let first = payload(70);
    let second = payload(3);
    let mut wire = stream.write_block(&first).unwrap();
    let boundary = wire.len();
    wire.extend(stream.write_block(&second).unwrap());
    let (one, used) = stream.read_block::<Vec<u8>>(&wire).ok().unwrap();
    assert_eq!(one, first);
    assert_eq!(used, boundary);
    let (two, used) = stream.read_block::<Vec<u8>>(&wire[boundary..]).ok().unwrap();
    assert_eq!(two, second);
    assert_eq!(used, wire.len() - boundary);
}

#[test]
fn every_frame_has_the_same_wire_length() {
    let stream = BlockStream::<40>::with_key(KEY);
    let sent = payload(100);
    let mut encoder = sent.serializer();
    let mut frames = 0;
    loop {
        let (frame, last) = stream.write_frame(&mut encoder).unwrap();
        assert_eq!(frame.len(), 12 + 40 + 16);
        frames += 1;
        if last {
            break;
        }
    }
    assert_eq!(frames, 4);
}

#[test]
fn nonces_are_not_reused() {
    let stream = BlockStream::<16>::with_key(KEY);
    let wire = stream.write_block(&payload(8 * 40)).unwrap();
    let nonces: Vec<&[u8]> = wire.chunks(44).map(|frame| &frame[..12]).collect();
    assert_eq!(nonces.len(), 40);
    for i in 0..nonces.len() {
        for j in 0..i {
            assert_ne!(nonces[i], nonces[j]);
        }
    }
    let again = stream.write_block(&payload(8 * 40)).unwrap();
    assert_ne!(again, wire);
}

#[test]
fn flipped_bit_is_a_decrypt_error() {
    let stream = BlockStream::<32>::with_key(KEY);
    let wire = stream.write_block(&payload(10)).unwrap();
    for at in [0, 11, 12, 13, 30, 43, 44, 59] {
        for bit in 0..8 {
            let mut bad = wire.clone();
            bad[at] ^= 1 << bit;
            let r = stream.read_block::<Vec<u8>>(&bad);
            assert!(matches!(r, Err(ReadError::DecryptError)));
            assert_eq!(r.err().unwrap().kind(), ReadFault::Decrypt);
        }
    }
    assert!(stream.read_block::<Vec<u8>>(&wire).is_ok());
}

#[test]
fn tampering_with_one_block_leaves_the_next_one_readable() {
    let stream = BlockStream::<32>::with_key(KEY);
    let mut wire = stream.write_block(&payload(10)).unwrap();
    let boundary = wire.len();
    wire.extend(stream.write_block(&payload(11)).unwrap());
    wire[20] ^= 0x40;
    assert!(matches!(stream.read_block::<Vec<u8>>(&wire), Err(ReadError::DecryptError)));
    let (back, _) = stream.read_block::<Vec<u8>>(&wire[boundary..]).ok().unwrap();
    assert_eq!(back, payload(11));
}

#[test]
fn wrong_key_is_a_decrypt_error() {
    let writer = BlockStream::<32>::with_key(KEY);
    let reader = BlockStream::<32>::with_key([8u8; 32]);
    let wire = writer.write_block(&payload(10)).unwrap();
    assert!(matches!(reader.read_block::<Vec<u8>>(&wire), Err(ReadError::DecryptError)));
}

#[test]
fn short_input_is_a_network_error() {
    let stream = BlockStream::<32>::with_key(KEY);
    let wire = stream.write_block(&payload(30)).unwrap();
    assert_eq!(wire.len(), 120);
    assert!(matches!(stream.read_block::<Vec<u8>>(&[]), Err(ReadError::NetworkError)));
    assert!(matches!(stream.read_block::<Vec<u8>>(&wire[..59]), Err(ReadError::NetworkError)));
    assert!(matches!(stream.read_block::<Vec<u8>>(&wire[..60]), Err(ReadError::NetworkError)));
    assert!(matches!(stream.read_block::<Vec<u8>>(&wire[..119]), Err(ReadError::NetworkError)));
    let mut decoder = Vec::new();
    let r = stream.read_frame::<Vec<u8>>(&wire[..59], &mut decoder);
    assert!(matches!(r, Err(ReadError::NetworkError)));
    let r = stream.read_frame::<Vec<u8>>(&wire[..61], &mut decoder);
    assert!(matches!(r, Err(ReadError::NetworkError)));
}

#[test]
fn header_beyond_the_frame_is_a_header_error() {
    let stream = BlockStream::<16>::with_key(KEY);
    let ok = seal_frame(&KEY, [3; 12], &[0, 0, 0, 0, 0, 0, 0, 9, 1, 2, 3, 4, 5, 6, 7, 8]);
    let (back, _) = stream.read_block::<Vec<u8>>(&ok).ok().unwrap();
    assert_eq!(back, vec![1, 2, 3, 4, 5, 6, 7, 8]);
    let bad = seal_frame(&KEY, [3; 12], &[0, 0, 0, 0, 0, 0, 0, 10, 1, 2, 3, 4, 5, 6, 7, 8]);
    let r = stream.read_block::<Vec<u8>>(&bad);
    assert!(matches!(r, Err(ReadError::HeaderError)));
    assert_eq!(r.err().unwrap().kind(), ReadFault::Header);
    let huge = seal_frame(&KEY, [3; 12], &[0xFF; 16]);
    assert!(matches!(stream.read_block::<Vec<u8>>(&huge), Err(ReadError::HeaderError)));
}

#[test]
fn rejected_chunk_is_an_update_error() {
    let stream = BlockStream::<16>::with_key(KEY);
    let wire = stream.write_block(&vec![1u8]).unwrap();
    let r = stream.read_block::<()>(&wire);
    assert!(matches!(r, Err(ReadError::UpdateError(()))));
    assert_eq!(r.err().unwrap().kind(), ReadFault::Update);
    let r = stream.read_block::<[u8; 1]>(&stream.write_block(&vec![1u8, 2]).unwrap());
    assert!(matches!(r, Err(ReadError::UpdateError(()))));
}

#[test]
fn unfinished_value_is_a_finalize_error() {
    let stream = BlockStream::<16>::with_key(KEY);
    let wire = stream.write_block(&vec![0xFFu8, 0xFE]).unwrap();
    let r = stream.read_block::<String>(&wire);
    assert!(matches!(r, Err(ReadError::FinalizeError(_))));
    assert_eq!(r.err().unwrap().kind(), ReadFault::Finalize);
    let r = stream.read_block::<[u8; 3]>(&wire);
    assert!(matches!(r, Err(ReadError::FinalizeError(_))));
}

#[test]
fn typed_blocks_round_trip() {
    let stream = BlockStream::<16>::with_key(KEY);
    let wire = stream.write_block(&()).unwrap();
    assert_eq!(stream.read_block::<()>(&wire).ok().unwrap(), ((), 44));
    let text = String::from("a longer text than one frame holds");
    let wire = stream.write_block(&text).unwrap();
    assert_eq!(stream.read_block::<String>(&wire).ok().unwrap().0, text);
    let wire = stream.write_block("hey").unwrap();
    assert_eq!(stream.read_block::<String>(&wire).ok().unwrap().0, "hey");
    let recipient = Some(String::from("bob and a very long family name"));
    let wire = stream.write_block(&recipient).unwrap();
    assert_eq!(stream.read_block::<Option<String>>(&wire).ok().unwrap().0, recipient);
    let goodbye: Option<String> = None;
    let wire = stream.write_block(&goodbye).unwrap();
    assert_eq!(stream.read_block::<Option<String>>(&wire).ok().unwrap().0, None);
    let ack: Result<(), ()> = Err(());
    let wire = stream.write_block(&ack).unwrap();
    assert_eq!(stream.read_block::<Result<(), ()>>(&wire).ok().unwrap().0, Err(()));
    let verdict: Result<(), &'static str> = Err("invalid credentials");
    let wire = stream.write_block(&verdict).unwrap();
    assert_eq!(
        stream.read_block::<Result<(), String>>(&wire).ok().unwrap().0,
        Err(String::from("invalid credentials"))
    );
    let mode: &[u8] = &[1];
    let wire = stream.write_block(mode).unwrap();
    assert_eq!(stream.read_block::<[u8; 1]>(&wire).ok().unwrap().0, [1]);
}

#[test]
fn frame_by_frame_reading_tells_the_last_frame() {
    let stream = BlockStream::<16>::with_key(KEY);
    let wire = stream.write_block(&payload(20)).unwrap();
    assert_eq!(wire.len(), 3 * 44);
    let mut decoder: Vec<u8> = Vec::new();
    assert_eq!(stream.read_frame::<Vec<u8>>(&wire[..44], &mut decoder).ok(), Some(false));
    assert_eq!(decoder, payload(20)[..8].to_vec());
    assert_eq!(stream.read_frame::<Vec<u8>>(&wire[44..88], &mut decoder).ok(), Some(false));
    assert_eq!(stream.read_frame::<Vec<u8>>(&wire[88..], &mut decoder).ok(), Some(true));
    assert_eq!(decoder, payload(20));
}
