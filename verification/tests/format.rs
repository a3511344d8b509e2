use serdif::error::ErrorKind;
use serdif::error::ResultExt;
use serdif::error::StdResultExt;
use serdif::fixed::decode_offset;
use serdif::fixed::encode_offset;
use serdif::frame::decode_command;
use serdif::meta::FixedSizeStitch;
use serdif::meta::Stitch;
use serdif::meta::Trailer;
use serdif::meta::MAGIC;
use serdif::scmd::Command;
use serdif::scmd::Kind;
use serdif::scmd::SerializeBool;
use serdif::scmd::SerializeStruct;
use serdif::scmd::SerializeStructEnd;
use serdif::scmd::SerializeStructField;
use serdif::scmd::SerializeTuple;
use serdif::scmd::SerializeTupleElement;
use serdif::scmd::SerializeTupleEnd;
use serdif::scmd::SerializeU8;
use serdif::Error;

fn every_command() -> Vec<Command> {
    vec![
        Command::Bool(SerializeBool { v: true }),
        Command::Bool(SerializeBool { v: false }),
        Command::U8(SerializeU8 { v: 0 }),
        Command::U8(SerializeU8 { v: 255 }),
        Command::Tuple(SerializeTuple { len: 0 }),
        Command::Tuple(SerializeTuple { len: 513 }),
        Command::TupleElement(SerializeTupleElement),
        Command::TupleEnd(SerializeTupleEnd),
        Command::Struct(SerializeStruct { name: b"Type1".to_vec(), len: 2 }),
        Command::Struct(SerializeStruct { name: Vec::new(), len: 0 }),
        Command::StructField(SerializeStructField { key: b"field1".to_vec() }),
        Command::StructField(SerializeStructField { key: Vec::new() }),
        Command::StructEnd(SerializeStructEnd),
        Command::Stitch(Stitch { old_pos: 26, new_pos: 121, next_stitch_pos: 36 }),
        Command::Stitch(Stitch { old_pos: 0, new_pos: 0, next_stitch_pos: 0 }),
        Command::Trailer(Trailer { magic: MAGIC, first_stitch: Some(64), prev_trailer_pos: None }),
        Command::Trailer(Trailer { magic: 7, first_stitch: None, prev_trailer_pos: Some(u64::MAX) }),
    ]
}

#[test]
fn offset_text_is_hex_of_little_endian_bytes() {
    assert_eq!(encode_offset(0), b"0000000000000000".to_vec());
    assert_eq!(encode_offset(1), b"0100000000000000".to_vec());
    assert_eq!(encode_offset(0x0102), b"0201000000000000".to_vec());
    assert_eq!(encode_offset(0x1234_5678_9abc_def0), b"f0debc9a78563412".to_vec());
    assert_eq!(encode_offset(u64::MAX), b"ffffffffffffffff".to_vec());
    assert_eq!(encode_offset(MAGIC), b"f83377414c4f1284".to_vec());
}

#[test]
fn offset_text_reads_back() {
    assert_eq!(decode_offset(b"0000000000000000"), Ok(0));
    assert_eq!(decode_offset(b"0201000000000000"), Ok(0x0102));
    assert_eq!(decode_offset(b"f0debc9a78563412"), Ok(0x1234_5678_9abc_def0));
    assert_eq!(decode_offset(b"F0DEBC9A78563412"), Ok(0x1234_5678_9abc_def0));
    assert_eq!(decode_offset(b"f0DeBc9a78563412"), Ok(0x1234_5678_9abc_def0));
    assert_eq!(decode_offset(b"ffffffffffffffff"), Ok(u64::MAX));
    for n in [0u64, 1, 9, 10, 15, 16, 255, 256, 65535, MAGIC, u64::MAX - 1, u64::MAX] {
        assert_eq!(decode_offset(&encode_offset(n)), Ok(n));
    }
}

#[test]
fn offset_text_of_wrong_form_is_refused() {
    assert_eq!(decode_offset(b""), Err(Error::new(ErrorKind::Framing)));
    assert_eq!(decode_offset(b"00000000000000"), Err(Error::new(ErrorKind::Framing)));
    assert_eq!(decode_offset(b"000000000000000"), Err(Error::new(ErrorKind::Framing)));
    assert_eq!(decode_offset(b"000000000000000000"), Err(Error::new(ErrorKind::Framing)));
    assert_eq!(decode_offset(b"000000000000000g"), Err(Error::new(ErrorKind::Framing)));
    assert_eq!(decode_offset(b"0000000 00000000"), Err(Error::new(ErrorKind::Framing)));
    assert_eq!(decode_offset(b"/000000000000000"), Err(Error::new(ErrorKind::Framing)));
    assert_eq!(decode_offset(b":000000000000000"), Err(Error::new(ErrorKind::Framing)));
    assert_eq!(decode_offset(b"@000000000000000"), Err(Error::new(ErrorKind::Framing)));
    assert_eq!(decode_offset(b"G000000000000000"), Err(Error::new(ErrorKind::Framing)));
    assert_eq!(decode_offset(b"`000000000000000"), Err(Error::new(ErrorKind::Framing)));
}

#[test]
fn stitch_text_is_three_offsets() {
    let stitch = Stitch { old_pos: 1, new_pos: 0x0102, next_stitch_pos: u64::MAX };
    let text = stitch.encode();
    assert_eq!(
        text.to_bytes(),
        b"01000000000000000201000000000000ffffffffffffffff".to_vec()
    );
    assert_eq!(text.decode(), Ok(stitch));
}

#[test]
fn stitch_text_of_wrong_form_is_refused() {
    assert!(FixedSizeStitch::from_bytes(b"0100").is_none());
    assert!(FixedSizeStitch::from_bytes(&[b'0'; 47]).is_none());
    assert!(FixedSizeStitch::from_bytes(&[b'0'; 49]).is_none());
    let zeros = FixedSizeStitch::from_bytes(&[b'0'; 48]).unwrap();
    assert_eq!(zeros.decode(), Ok(Stitch { old_pos: 0, new_pos: 0, next_stitch_pos: 0 }));
    let mut text = [b'0'; 48];
    text[40] = b'x';
    let broken = FixedSizeStitch::from_bytes(&text).unwrap();
    assert_eq!(broken.decode(), Err(Error::new(ErrorKind::Framing)));
}

#[test]
fn trailer_text_is_fixed_width() {
    let first = Trailer { magic: MAGIC, first_stitch: None, prev_trailer_pos: None };
    let mut expected = b"f83377414c4f1284".to_vec();
    expected.push(0);
    expected.extend_from_slice(b"0000000000000000");
    expected.push(0);
    expected.extend_from_slice(b"0000000000000000");
    assert_eq!(first.to_bytes(), expected);
    assert_eq!(Trailer::from_bytes(&expected), Some(first));

    let later = Trailer { magic: MAGIC, first_stitch: Some(64), prev_trailer_pos: Some(0x0102) };
    let mut expected = b"f83377414c4f1284".to_vec();
    expected.push(1);
    expected.extend_from_slice(b"4000000000000000");
    expected.push(1);
    expected.extend_from_slice(b"0201000000000000");
    assert_eq!(later.to_bytes(), expected);
    assert_eq!(later.to_bytes().len(), 50);
    assert_eq!(Trailer::from_bytes(&expected), Some(later));

    expected[16] = 2;
    assert_eq!(Trailer::from_bytes(&expected), None);
    expected[16] = 1;
    expected[0] = b'-';
    assert_eq!(Trailer::from_bytes(&expected), None);
    assert_eq!(Trailer::from_bytes(&expected[..49]), None);
}

#[test]
fn records_have_the_documented_bytes() {
    assert_eq!(
        Command::Bool(SerializeBool { v: true }).encode(),
        vec![1, 1, 0, 0, 0, 0, 0, 0, 0, 1]
    );
    assert_eq!(
        Command::Bool(SerializeBool { v: false }).encode(),
        vec![1, 1, 0, 0, 0, 0, 0, 0, 0, 0]
    );
    assert_eq!(Command::U8(SerializeU8 { v: 5 }).encode(), vec![2, 1, 0, 0, 0, 0, 0, 0, 0, 5]);
    assert_eq!(
        Command::Tuple(SerializeTuple { len: 513 }).encode(),
        vec![3, 8, 0, 0, 0, 0, 0, 0, 0, 1, 2, 0, 0, 0, 0, 0, 0]
    );
    assert_eq!(
        Command::TupleElement(SerializeTupleElement).encode(),
        vec![4, 0, 0, 0, 0, 0, 0, 0, 0]
    );
    assert_eq!(Command::TupleEnd(SerializeTupleEnd).encode(), vec![5, 0, 0, 0, 0, 0, 0, 0, 0]);
    assert_eq!(
        Command::Struct(SerializeStruct { name: b"Ty".to_vec(), len: 2 }).encode(),
        vec![6, 10, 0, 0, 0, 0, 0, 0, 0, 2, 0, 0, 0, 0, 0, 0, 0, b'T', b'y']
    );
    assert_eq!(
        Command::StructField(SerializeStructField { key: b"ab".to_vec() }).encode(),
        vec![7, 2, 0, 0, 0, 0, 0, 0, 0, b'a', b'b']
    );
    assert_eq!(Command::StructEnd(SerializeStructEnd).encode(), vec![8, 0, 0, 0, 0, 0, 0, 0, 0]);
    let stitch = Command::Stitch(Stitch { old_pos: 26, new_pos: 121, next_stitch_pos: 36 });
    let mut expected = vec![9, 48, 0, 0, 0, 0, 0, 0, 0];
    expected.extend_from_slice(b"1a0000000000000079000000000000002400000000000000");
    assert_eq!(stitch.encode(), expected);
    assert_eq!(stitch.encode().len(), 57);
    let trailer =
        Command::Trailer(Trailer { magic: MAGIC, first_stitch: None, prev_trailer_pos: None });
    assert_eq!(trailer.encode().len(), 59);
    assert_eq!(&trailer.encode()[..9], &[10, 50, 0, 0, 0, 0, 0, 0, 0]);
}

#[test]
fn every_record_reads_back() {
    for cmd in every_command() {
        let bytes = cmd.encode();
        let (found, end) = decode_command(&bytes, 0).unwrap();
        assert_eq!(found, cmd);
        assert!(found.same(&cmd));
        assert_eq!(end, bytes.len() as u64);

        let mut stream = vec![0xaa, 0xbb, 0xcc];
        stream.extend_from_slice(&bytes);
        stream.extend_from_slice(&[1, 2, 3, 4]);
        let (found, end) = decode_command(&stream, 3).unwrap();
        assert_eq!(found, cmd);
        assert_eq!(end, 3 + bytes.len() as u64);
    }
}

#[test]
fn records_differ_from_each_other() {
    let all = every_command();
    for (i, a) in all.iter().enumerate() {
        for (j, b) in all.iter().enumerate() {
            assert_eq!(a.same(b), i == j);
        }
    }
}

#[test]
fn the_end_of_the_stream_is_told_from_garbage() {
    let bytes = Command::Bool(SerializeBool { v: true }).encode();
    let at_end = decode_command(&bytes, bytes.len() as u64);
    assert_eq!(at_end, Err(Error::new(ErrorKind::EndOfStream)));
    assert!(at_end.cmd_eof());
    assert_eq!(decode_command(&[], 0), Err(Error::new(ErrorKind::EndOfStream)));

    let beyond = decode_command(&bytes, bytes.len() as u64 + 1);
    assert_eq!(beyond, Err(Error::new(ErrorKind::Framing)));
    assert!(!beyond.cmd_eof());
    assert!(!decode_command(&bytes, 0).cmd_eof());

    // A header that is cut short, a payload that is cut short.
    assert_eq!(decode_command(&bytes[..5], 0), Err(Error::new(ErrorKind::Framing)));
    assert_eq!(decode_command(&bytes[..9], 0), Err(Error::new(ErrorKind::Framing)));
    // An unknown tag, a boolean that is neither 0 nor 1, a payload of the
    // wrong length.
    assert_eq!(
        decode_command(&[0, 0, 0, 0, 0, 0, 0, 0, 0], 0),
        Err(Error::new(ErrorKind::Framing))
    );
    assert_eq!(
        decode_command(&[11, 0, 0, 0, 0, 0, 0, 0, 0], 0),
        Err(Error::new(ErrorKind::Framing))
    );
    assert_eq!(
        decode_command(&[1, 1, 0, 0, 0, 0, 0, 0, 0, 2], 0),
        Err(Error::new(ErrorKind::Framing))
    );
    assert_eq!(
        decode_command(&[4, 1, 0, 0, 0, 0, 0, 0, 0, 0], 0),
        Err(Error::new(ErrorKind::Framing))
    );
    assert_eq!(
        decode_command(&[3, 1, 0, 0, 0, 0, 0, 0, 0, 2], 0),
        Err(Error::new(ErrorKind::Framing))
    );
    assert_eq!(
        decode_command(&[1, 255, 255, 255, 255, 255, 255, 255, 255, 1], 0),
        Err(Error::new(ErrorKind::Framing))
    );
}

#[test]
fn a_stitch_with_bad_digits_is_no_record() {
    let mut bytes =
        Command::Stitch(Stitch { old_pos: 1, new_pos: 2, next_stitch_pos: 3 }).encode();
    assert!(decode_command(&bytes, 0).is_ok());
    bytes[20] = b'z';
    assert_eq!(decode_command(&bytes, 0), Err(Error::new(ErrorKind::Framing)));
}

#[test]
fn families_of_records() {
    assert_eq!(Command::Bool(SerializeBool { v: true }).kind(), Kind::Scalar);
    assert_eq!(Command::U8(SerializeU8 { v: 1 }).kind(), Kind::Scalar);
    assert_eq!(Command::Tuple(SerializeTuple { len: 1 }).kind(), Kind::AggregateStart);
    assert_eq!(
        Command::Struct(SerializeStruct { name: Vec::new(), len: 1 }).kind(),
        Kind::AggregateStart
    );
    assert_eq!(
        Command::StructField(SerializeStructField { key: Vec::new() }).kind(),
        Kind::FieldKey
    );
    assert_eq!(Command::TupleElement(SerializeTupleElement).kind(), Kind::ElementMarker);
    assert_eq!(Command::TupleEnd(SerializeTupleEnd).kind(), Kind::AggregateEnd);
    assert_eq!(Command::StructEnd(SerializeStructEnd).kind(), Kind::AggregateEnd);
    assert_eq!(
        Command::Stitch(Stitch { old_pos: 0, new_pos: 0, next_stitch_pos: 0 }).kind(),
        Kind::Stitch
    );
    assert_eq!(
        Command::Trailer(Trailer { magic: 0, first_stitch: None, prev_trailer_pos: None }).kind(),
        Kind::Trailer
    );
}

#[test]
fn outside_errors_become_framing_errors() {
    let good: Result<u8, hex::FromHexError> = Ok(3);
    assert_eq!(good.e(), Ok(3));
    let odd: Result<u8, hex::FromHexError> = Err(hex::FromHexError::OddLength);
    assert_eq!(odd.e(), Err(Error::new(ErrorKind::Framing)));
}

#[test]
fn errors_describe_themselves() {
    assert_eq!(Error::new(ErrorKind::Framing).message(), "malformed record");
    assert_eq!(Error::new(ErrorKind::EndOfStream).message(), "end of stream");
    assert_eq!(Error::new(ErrorKind::Io).message(), "seek outside the buffer");
    assert_eq!(Error::new(ErrorKind::NoTrailerFound).message(), "unable to find trailer block");
    assert_eq!(Error::new(ErrorKind::UnsupportedShape).message(), "unsupported shape");
    assert_eq!(Error::new(ErrorKind::Io).kind, ErrorKind::Io);
}

#[test]
fn byte_strings_are_appended_and_compared() {
    let mut out = vec![1u8, 2];
    serdif::bytes::extend(&mut out, &[3, 4, 5]);
    assert_eq!(out, vec![1, 2, 3, 4, 5]);
    serdif::bytes::extend(&mut out, &[]);
    assert_eq!(out, vec![1, 2, 3, 4, 5]);
    assert!(serdif::bytes::equal(&out, &[1, 2, 3, 4, 5]));
    assert!(!serdif::bytes::equal(&out, &[1, 2, 3, 4]));
    assert!(!serdif::bytes::equal(&out, &[1, 2, 3, 4, 6]));
    assert!(serdif::bytes::equal(&[], &[]));
}

#[test]
fn optional_offsets_are_compared() {
    assert!(serdif::scmd::option_equal(None, None));
    assert!(serdif::scmd::option_equal(Some(3), Some(3)));
    assert!(!serdif::scmd::option_equal(Some(3), Some(4)));
    assert!(!serdif::scmd::option_equal(Some(0), None));
    assert!(!serdif::scmd::option_equal(None, Some(0)));
}

#[test]
fn a_copy_of_a_record_says_the_same() {
    for cmd in every_command() {
        let copy = cmd.clone();
        assert_eq!(copy, cmd);
        assert!(copy.same(&cmd));
        assert_eq!(copy.encode(), cmd.encode());
    }
    let opening = SerializeStruct { name: b"Type1".to_vec(), len: 2 };
    assert_eq!(opening.clone(), opening);
    let field = SerializeStructField { key: b"field1".to_vec() };
    assert_eq!(field.clone(), field);
}
