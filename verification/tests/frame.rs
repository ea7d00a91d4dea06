use tape_io::codec::{decode, encode, read, settle};
use tape_io::frame::{read_frame, write_frame};
use tape_io::{Error, InputTape, OutputTape};

struct Endless;

impl serde::Serialize for Endless {
    fn serialize<S: serde::Serializer>(&self, serializer: S) -> Result<S::Ok, S::Error> {
        let seq = serializer.serialize_seq(None)?;
        serde::ser::SerializeSeq::end(seq)
    }
}

fn wire_of<T: serde::Serialize>(value: &T) -> Vec<u8> {
    let mut out = OutputTape::new();
    assert_eq!(tape_io::codec::write(&mut out, value), Ok(()));
    out.into_bytes()
}

#[test]
fn write_frame_prefixes_the_length() {
    let mut out = OutputTape::new();
    write_frame(&mut out, b"hello");
    assert_eq!(out.as_slice(), b"5\nhello");
}

#[test]
fn write_frame_of_an_empty_body_is_zero_and_newline() {
    let mut out = OutputTape::new();
    write_frame(&mut out, b"");
    assert_eq!(out.as_slice(), b"0\n");
}

#[test]
fn write_frame_appends_behind_earlier_output() {
    let mut out = OutputTape::new();
    out.write_byte(b'>');
    write_frame(&mut out, &[0u8; 12]);
    let mut expected = b">12\n".to_vec();
    expected.extend_from_slice(&[0u8; 12]);
    assert_eq!(out.into_bytes(), expected);
}

#[test]
fn header_counts_the_body() {
    for len in [0usize, 1, 9, 10, 99, 100, 1000, 70000] {
        let body = vec![0x0Au8; len];
        let mut out = OutputTape::new();
        write_frame(&mut out, &body);
        let wire = out.into_bytes();
        let newline = wire.iter().position(|b| *b == b'\n').unwrap();
        let header = std::str::from_utf8(&wire[..newline]).unwrap();
        assert!(header.bytes().all(|b| b.is_ascii_digit()));
        assert_eq!(header.parse::<usize>().unwrap(), wire.len() - newline - 1);
        assert_eq!(&wire[newline + 1..], &body[..]);
    }
}

#[test]
fn read_frame_returns_the_body_and_stops_behind_it() {
    let mut tape = InputTape::from_bytes(b"3\nabcdef");
    assert_eq!(read_frame(&mut tape), Ok(b"abc".to_vec()));
    assert_eq!(tape.len(), 3);
    assert_eq!(tape.read_byte(), Some(b'd'));
}

#[test]
fn read_frame_reads_what_write_frame_wrote() {
    let bodies: [&[u8]; 5] = [b"", b"\n", b"12\n", b"a body with\nnewlines\n\n", &[0, 255, 10, 48]];
    let mut out = OutputTape::new();
    for body in bodies {
        write_frame(&mut out, body);
    }
    let mut tape = InputTape::from_bytes(out.as_slice());
    for body in bodies {
        assert_eq!(read_frame(&mut tape), Ok(body.to_vec()));
    }
    assert_eq!(tape.len(), 0);
}

#[test]
fn read_frame_takes_headers_with_leading_zeros() {
    let mut tape = InputTape::from_bytes(b"02
ab000
2
cd");
    assert_eq!(read_frame(&mut tape), Ok(b"ab".to_vec()));
    assert_eq!(read_frame(&mut tape), Ok(vec![]));
    assert_eq!(read_frame(&mut tape), Ok(b"cd".to_vec()));
}

#[test]
fn header_with_a_sign_is_malformed() {
    let mut tape = InputTape::from_bytes(b"+4\n\x00\x00\x00\x2A");
    assert_eq!(read::<u32>(&mut tape), Err(Error::HeaderDecode));
    assert_eq!(tape.len(), 4);
    let mut tape = InputTape::from_bytes(b"+2\nab");
    assert_eq!(read_frame(&mut tape), Err(Error::HeaderDecode));
    assert_eq!(tape.len(), 2);
    assert_eq!(tape.read_byte(), Some(b'a'));
}

#[test]
fn malformed_header_fails_before_the_body() {
    let mut tape = InputTape::from_bytes(b"12x\nbody");
    assert_eq!(read_frame(&mut tape), Err(Error::HeaderDecode));
    assert_eq!(tape.len(), 4);
    assert_eq!(tape.read_byte(), Some(b'b'));
}

#[test]
fn malformed_header_fails_read_before_the_body() {
    let mut tape = InputTape::from_bytes(b"12x\n\x00\x00\x00\x2A");
    assert_eq!(read::<i32>(&mut tape), Err(Error::HeaderDecode));
    assert_eq!(tape.len(), 4);
}

#[test]
fn header_that_is_no_text_or_no_number_is_rejected() {
    for wire in [&b"\n"[..], b" 4\nabcd", b"4 \nabcd", b"-4\nabcd", b"\xff\xfe\nab", b"4\r\nabcd", b"99999999999999999999999\na"] {
        let mut tape = InputTape::from_bytes(wire);
        assert_eq!(read_frame(&mut tape), Err(Error::HeaderDecode));
    }
}

#[test]
fn missing_newline_exhausts_the_channel() {
    let mut tape = InputTape::from_bytes(b"123");
    assert_eq!(read_frame(&mut tape), Err(Error::ChannelExhausted));
    assert_eq!(tape.len(), 0);
    let mut empty = InputTape::new();
    assert_eq!(read::<u8>(&mut empty), Err(Error::ChannelExhausted));
}

#[test]
fn short_body_is_truncated_input() {
    let mut tape = InputTape::from_bytes(b"5\nabc");
    assert_eq!(read_frame(&mut tape), Err(Error::TruncatedInput));
    assert_eq!(tape.len(), 0);
    let mut tape = InputTape::from_bytes(b"4\n\x00\x00");
    assert_eq!(read::<i32>(&mut tape), Err(Error::TruncatedInput));
}

#[test]
fn writing_42_gives_four_big_endian_bytes() {
    assert_eq!(wire_of(&42i32), b"4\n\x00\x00\x00\x2A".to_vec());
    let mut tape = InputTape::from_bytes(b"4\n\x00\x00\x00\x2A");
    assert_eq!(read::<i32>(&mut tape), Ok(42));
    assert_eq!(tape.len(), 0);
}

#[test]
fn codec_is_big_endian_and_fixed_width() {
    assert_eq!(encode(&0x0102_0304u32), Ok(vec![1, 2, 3, 4]));
    assert_eq!(encode(&1u64), Ok(vec![0, 0, 0, 0, 0, 0, 0, 1]));
    assert_eq!(encode(&-2i16), Ok(vec![0xFF, 0xFE]));
    assert_eq!(encode(&true), Ok(vec![1]));
    assert_eq!(encode(&()), Ok(vec![]));
    assert_eq!(encode(&"hi"), Ok(vec![0, 0, 0, 0, 0, 0, 0, 2, b'h', b'i']));
    assert_eq!(decode::<u32>(&[1, 2, 3, 4]), Ok(0x0102_0304));
    assert_eq!(decode::<(u8, u16)>(&[9, 1, 0]), Ok((9, 256)));
}

#[test]
fn values_round_trip_through_a_message() {
    let mut out = OutputTape::new();
    assert_eq!(tape_io::codec::write(&mut out, &42i32), Ok(()));
    assert_eq!(tape_io::codec::write(&mut out, &String::from("tape\n")), Ok(()));
    assert_eq!(tape_io::codec::write(&mut out, &(7u8, -3i64, true)), Ok(()));
    assert_eq!(tape_io::codec::write(&mut out, &vec![1u16, 2, 3]), Ok(()));
    assert_eq!(tape_io::codec::write(&mut out, &Option::<u32>::None), Ok(()));
    assert_eq!(tape_io::codec::write(&mut out, &()), Ok(()));
    let mut tape = InputTape::from_bytes(out.as_slice());
    assert_eq!(read::<i32>(&mut tape), Ok(42));
    assert_eq!(read::<String>(&mut tape), Ok(String::from("tape\n")));
    assert_eq!(read::<(u8, i64, bool)>(&mut tape), Ok((7, -3, true)));
    assert_eq!(read::<Vec<u16>>(&mut tape), Ok(vec![1, 2, 3]));
    assert_eq!(read::<Option<u32>>(&mut tape), Ok(None));
    assert_eq!(read::<()>(&mut tape), Ok(()));
    assert_eq!(tape.len(), 0);
}

#[test]
fn written_header_counts_the_encoded_body() {
    let value = (String::from("abc"), vec![1u32, 2]);
    let body = encode(&value).unwrap();
    let wire = wire_of(&value);
    let mut expected = body.len().to_string().into_bytes();
    expected.push(b'\n');
    expected.extend_from_slice(&body);
    assert_eq!(wire, expected);
}

#[test]
fn body_of_the_wrong_shape_is_a_decode_error() {
    let mut tape = InputTape::from_bytes(b"3\n\x00\x00\x2Arest");
    assert_eq!(read::<i32>(&mut tape), Err(Error::Decode));
    assert_eq!(tape.len(), 4);
    let mut tape = InputTape::from_bytes(b"5\n\x00\x00\x00\x2A\x00");
    assert_eq!(read::<i32>(&mut tape), Err(Error::Decode));
    assert_eq!(decode::<bool>(&[2]), Err(Error::Decode));
    assert_eq!(decode::<String>(&[0, 0, 0, 0, 0, 0, 0, 1, 0xFF]), Err(Error::Decode));
}

#[test]
fn value_that_the_codec_refuses_is_an_encode_error() {
    assert_eq!(encode(&Endless), Err(Error::Encode));
    let mut out = OutputTape::new();
    out.write_byte(b'!');
    assert_eq!(tape_io::codec::write(&mut out, &Endless), Err(Error::Encode));
    assert_eq!(out.as_slice(), b"!");
}

#[test]
fn settle_passes_values_and_names_the_failure() {
    assert_eq!(settle(Ok(vec![1u8, 2]), Error::Encode), Ok(vec![1u8, 2]));
    assert_eq!(settle(Ok(42i32), Error::Decode), Ok(42));
    let refused: Result<i32, Box<bincode::ErrorKind>> = Err(Box::new(bincode::ErrorKind::SizeLimit));
    assert_eq!(settle(refused, Error::Decode), Err(Error::Decode));
    let unsized_seq: Result<Vec<u8>, Box<bincode::ErrorKind>> =
        Err(Box::new(bincode::ErrorKind::SequenceMustHaveLength));
    assert_eq!(settle(unsized_seq, Error::Encode), Err(Error::Encode));
}
