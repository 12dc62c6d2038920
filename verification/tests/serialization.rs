use chat::db::User;
use chat::serialization::{
    ArrayDeserializer, Buf, Deserializable, Deserializer, OptionDeserializer,
    ResultDeserializationError, ResultDeserializer, Serializable, Serializer, StringDeserializer,
};

fn drain<S: Serializer>(serializer: &mut S, room: usize) -> (Vec<Vec<u8>>, usize) {
    let mut chunks = Vec::new();
    let mut calls = 0;
    loop {
        let mut buf = vec![0xEEu8; room];
        calls += 1;
        match serializer.fill(&mut buf) {
            None => chunks.push(buf),
            Some(k) => {
                buf.truncate(k);
                chunks.push(buf);
                return (chunks, calls);
            }
        }
    }
}

#[test]
fn buf_writes_short_source_and_leaves_the_rest() {
    let source = [1u8, 2, 3];
    let mut buf = Buf::new(&source);
    let mut out = [9u8; 8];
    assert_eq!(buf.fill(&mut out), Some(3));
    assert_eq!(out, [1, 2, 3, 9, 9, 9, 9, 9]);
}

#[test]
fn buf_that_fits_exactly_ends_the_block() {
    let source = [4u8, 5, 6, 7];
    let mut buf = Buf::new(&source);
    let mut out = [0u8; 4];
    assert_eq!(buf.fill(&mut out), Some(4));
    assert_eq!(out, [4, 5, 6, 7]);
}

#[test]
fn buf_hands_out_a_long_source_piece_by_piece() {
    let source: Vec<u8> = (0..10).collect();
    let mut buf = Buf::new(&source);
    let mut out = [0u8; 4];
    assert_eq!(buf.fill(&mut out), None);
    assert_eq!(out, [0, 1, 2, 3]);
    assert_eq!(buf.fill(&mut out), None);
    assert_eq!(out, [4, 5, 6, 7]);
    assert_eq!(buf.fill(&mut out), Some(2));
    assert_eq!(out, [8, 9, 6, 7]);
}

#[test]
fn buf_after_its_end_has_nothing_left() {
    let source = [1u8];
    let mut buf = Buf::new(&source);
    let mut out = [7u8; 2];
    assert_eq!(buf.fill(&mut out), Some(1));
    assert_eq!(buf.fill(&mut out), Some(0));
    assert_eq!(out, [1, 7]);
}

#[test]
fn buf_with_no_room_does_not_move() {
    let source = [1u8, 2];
    let mut buf = Buf::new(&source);
    let mut none: [u8; 0] = [];
    assert_eq!(buf.fill(&mut none), None);
    let mut out = [0u8; 2];
    assert_eq!(buf.fill(&mut out), Some(2));
    assert_eq!(out, [1, 2]);
}

#[test]
fn empty_source_ends_at_once() {
    let source: [u8; 0] = [];
    let mut buf = Buf::new(&source);
    let mut out = [3u8; 2];
    assert_eq!(buf.fill(&mut out), Some(0));
    assert_eq!(out, [3, 3]);
}

#[test]
fn byte_vec_and_slice_encode_as_themselves() {
    let v: Vec<u8> = vec![10, 20, 30];
    let (chunks, _) = drain(&mut v.serializer(), 8);
    assert_eq!(chunks, vec![vec![10, 20, 30]]);
    let s: &[u8] = &[5, 6];
    let (chunks, _) = drain(&mut s.serializer(), 8);
    assert_eq!(chunks, vec![vec![5, 6]]);
}

#[test]
fn string_encodes_as_utf8() {
    let s = String::from("h\u{e9}");
    let (chunks, _) = drain(&mut s.serializer(), 8);
    assert_eq!(chunks, vec![vec![b'h', 0xC3, 0xA9]]);
    let (chunks, _) = drain(&mut "ok".serializer(), 8);
    assert_eq!(chunks, vec![b"ok".to_vec()]);
    let literal: &'static str = "invalid credentials";
    let (chunks, _) = drain(&mut literal.serializer(), 64);
    assert_eq!(chunks, vec![b"invalid credentials".to_vec()]);
}

#[test]
fn unit_encodes_as_nothing() {
    let mut out = [1u8; 3];
    assert_eq!(().serializer().fill(&mut out), Some(0));
    assert_eq!(out, [1, 1, 1]);
}

#[test]
fn unit_decoder_takes_one_empty_chunk() {
    let mut d = <()>::deserializer();
    assert_eq!(d.update(&[]), Ok(()));
    assert_eq!(d.finalize(), Ok(()));
}

#[test]
fn unit_decoder_rejects_bytes_and_a_second_chunk() {
    let mut d = <()>::deserializer();
    assert_eq!(d.update(&[0]), Err(()));
    assert_eq!(d.update(&[]), Ok(()));
    assert_eq!(d.update(&[]), Err(()));
}

#[test]
fn unit_decoder_without_a_chunk_cannot_finish() {
    let d = <()>::deserializer();
    assert_eq!(d.finalize(), Err(()));
}

#[test]
fn byte_vec_decoder_gathers_every_chunk() {
    let mut d = <Vec<u8>>::deserializer();
    assert!(Deserializer::<Vec<u8>>::update(&mut d, &[1, 2]).is_ok());
    assert!(Deserializer::<Vec<u8>>::update(&mut d, &[]).is_ok());
    assert!(Deserializer::<Vec<u8>>::update(&mut d, &[3]).is_ok());
    assert_eq!(Deserializer::<Vec<u8>>::finalize(d).ok(), Some(vec![1, 2, 3]));
}

#[test]
fn array_decoder_fills_up_exactly() {
    let mut d = <[u8; 3]>::deserializer();
    assert_eq!(d.update(&[1]), Ok(()));
    assert_eq!(d.update(&[2, 3]), Ok(()));
    assert_eq!(d.finalize(), Ok([1, 2, 3]));
}

#[test]
fn array_decoder_rejects_overflow_and_keeps_what_it_has() {
    let mut d = ArrayDeserializer::<2>::new();
    assert_eq!(d.update(&[1]), Ok(()));
    assert_eq!(d.update(&[2, 3]), Err(()));
    assert_eq!(d.update(&[4]), Ok(()));
    assert_eq!(d.finalize(), Ok([1, 4]));
}

#[test]
fn array_decoder_that_is_short_hands_back_its_bytes() {
    let mut d = <[u8; 4]>::deserializer();
    assert_eq!(d.update(&[7, 8]), Ok(()));
    assert_eq!(d.finalize(), Err(vec![7, 8]));
}

#[test]
fn string_decoder_validates_at_the_end() {
    let mut d = <String>::deserializer();
    assert!(d.update(&[b'h', 0xC3]).is_ok());
    assert!(d.update(&[0xA9]).is_ok());
    assert_eq!(d.finalize().ok(), Some(String::from("h\u{e9}")));
    let mut bad = StringDeserializer::new();
    assert!(bad.update(&[0xFF, 0xFE]).is_ok());
    assert!(bad.finalize().is_err());
}

#[test]
fn absent_value_encodes_as_tag_zero() {
    let v: Option<String> = None;
    let (chunks, _) = drain(&mut v.serializer(), 8);
    assert_eq!(chunks, vec![vec![0]]);
}

#[test]
fn present_value_encodes_as_tag_one_and_the_value() {
    let v = Some(String::from("hi"));
    let (chunks, _) = drain(&mut v.serializer(), 8);
    assert_eq!(chunks, vec![vec![1, b'h', b'i']]);
}

#[test]
fn option_tag_is_written_once_over_many_chunks() {
    let v = Some(String::from("hello"));
    let (chunks, calls) = drain(&mut v.serializer(), 2);
    assert_eq!(chunks, vec![vec![1, b'h'], vec![b'e', b'l'], vec![b'l', b'o']]);
    assert_eq!(calls, 3);
}

#[test]
fn option_encoder_is_done_after_its_last_byte() {
    let v: Option<String> = None;
    let mut s = v.serializer();
    let mut out = [9u8; 2];
    assert_eq!(s.fill(&mut out), Some(1));
    assert_eq!(s.fill(&mut out), Some(0));
    assert_eq!(out, [0, 9]);
}

#[test]
fn option_decoder_reads_an_absent_value() {
    let mut d = <Option<String>>::deserializer();
    assert!(d.update(&[0]).is_ok());
    assert_eq!(d.finalize().ok(), Some(None));
}

#[test]
fn option_decoder_reads_a_present_value_over_chunks() {
    let mut d = <Option<String>>::deserializer();
    assert!(d.update(&[1, b'h']).is_ok());
    assert!(d.update(&[b'e', b'y']).is_ok());
    assert_eq!(d.finalize().ok(), Some(Some(String::from("hey"))));
}

#[test]
fn option_decoder_rejects_what_does_not_fit() {
    let mut d = <Option<String>>::deserializer();
    assert!(matches!(d.update(&[]), Err(None)));
    assert!(matches!(d.update(&[0, 1]), Err(None)));
    assert!(matches!(d.update(&[2]), Err(None)));
    assert!(d.update(&[0]).is_ok());
    assert!(matches!(d.update(&[0]), Err(None)));
}

#[test]
fn option_decoder_passes_on_the_inner_error() {
    let mut d = <Option<()>>::deserializer();
    assert!(matches!(d.update(&[1, 5]), Err(Some(()))));
    let mut d = <Option<()>>::deserializer();
    assert!(d.update(&[1]).is_ok());
    assert!(matches!(d.update(&[]), Err(Some(()))));
}

#[test]
fn option_decoder_without_a_tag_cannot_finish() {
    let d: OptionDeserializer<String> = <Option<String>>::deserializer();
    assert!(matches!(d.finalize(), Err(None)));
    let mut d = <Option<String>>::deserializer();
    assert!(d.update(&[1, 0xFF]).is_ok());
    assert!(matches!(d.finalize(), Err(Some(_))));
}

#[test]
fn nested_option_round_trip() {
    let v: Option<Option<()>> = Some(Some(()));
    let (chunks, _) = drain(&mut v.serializer(), 8);
    assert_eq!(chunks, vec![vec![1, 1]]);
    let mut d = <Option<Option<()>>>::deserializer();
    assert!(d.update(&[1, 1]).is_ok());
    assert_eq!(d.finalize().ok(), Some(Some(Some(()))));
}

#[test]
fn result_encodes_ok_as_tag_one_and_err_as_tag_zero() {
    let ok: Result<(), ()> = Ok(());
    let (chunks, _) = drain(&mut ok.serializer(), 8);
    assert_eq!(chunks, vec![vec![1]]);
    let err: Result<(), ()> = Err(());
    let (chunks, _) = drain(&mut err.serializer(), 8);
    assert_eq!(chunks, vec![vec![0]]);
    let reason: Result<(), &'static str> = Err("no");
    let (chunks, _) = drain(&mut reason.serializer(), 8);
    assert_eq!(chunks, vec![vec![0, b'n', b'o']]);
}

#[test]
fn result_tag_is_written_once_over_many_chunks() {
    let v: Result<String, ()> = Ok(String::from("abcd"));
    let (chunks, _) = drain(&mut v.serializer(), 3);
    assert_eq!(chunks, vec![vec![1, b'a', b'b'], vec![b'c', b'd']]);
}

#[test]
fn result_decoder_reads_both_arms() {
    let mut d = <Result<(), ()>>::deserializer();
    assert!(d.update(&[1]).is_ok());
    assert_eq!(d.finalize().ok(), Some(Ok(())));
    let mut d = <Result<(), String>>::deserializer();
    assert!(d.update(&[0, b'n']).is_ok());
    assert!(d.update(&[b'o']).is_ok());
    assert_eq!(d.finalize().ok(), Some(Err(String::from("no"))));
}

#[test]
fn result_decoder_names_the_arm_that_failed() {
    let mut d = <Result<(), ()>>::deserializer();
    assert!(matches!(d.update(&[]), Err(ResultDeserializationError::BlockError)));
    assert!(matches!(d.update(&[2]), Err(ResultDeserializationError::BlockError)));
    assert!(matches!(d.update(&[1, 9]), Err(ResultDeserializationError::OkError(()))));
    assert!(matches!(d.update(&[0, 9]), Err(ResultDeserializationError::ErrError(()))));
    assert!(d.update(&[1]).is_ok());
    assert!(matches!(d.update(&[]), Err(ResultDeserializationError::OkError(()))));
}

#[test]
fn result_decoder_without_a_tag_cannot_finish() {
    let d: ResultDeserializer<(), String> = <Result<(), String>>::deserializer();
    assert!(matches!(d.finalize(), Err(ResultDeserializationError::BlockError)));
    let mut d = <Result<(), String>>::deserializer();
    assert!(d.update(&[0, 0xFF]).is_ok());
    assert!(matches!(d.finalize(), Err(ResultDeserializationError::ErrError(_))));
    let mut d = <Result<String, ()>>::deserializer();
    assert!(d.update(&[1, 0xFF]).is_ok());
    assert!(matches!(d.finalize(), Err(ResultDeserializationError::OkError(_))));
}

#[test]
fn user_travels_as_its_name() {
    let user = User::new(String::from("alice"));
    let (chunks, _) = drain(&mut user.serializer(), 3);
    assert_eq!(chunks, vec![b"ali".to_vec(), b"ce".to_vec()]);
    let mut d = User::deserializer();
    assert!(d.update(b"ali").is_ok());
    assert!(d.update(b"ce").is_ok());
    assert_eq!(d.finalize().ok(), Some(User::new(String::from("alice"))));
    let mut bad = User::deserializer();
    assert!(bad.update(&[0xC3]).is_ok());
    assert!(bad.finalize().is_err());
}
