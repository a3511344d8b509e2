use serdif::de::Deserializer;
use serdif::error::ErrorKind;
use serdif::frame::decode_command;
use serdif::log::read_slot;
use serdif::meta::Stitch;
use serdif::scmd::Command;
use serdif::scmd::SerializeBool;
use serdif::scmd::SerializeU8;
use serdif::ser::Serializer;
use serdif::state::Buffer;
use serdif::state::State;
use serdif::Error;

fn write_pair(ser: &mut Serializer, pair: (bool, bool)) -> Result<(), Error> {
    ser.serialize_tuple(2)?;
    ser.serialize_element()?;
    ser.serialize_bool(pair.0)?;
    ser.serialize_element()?;
    ser.serialize_bool(pair.1)?;
    ser.end()
}

fn read_pair(de: &mut Deserializer) -> Result<(bool, bool), Error> {
    let mut access = de.deserialize_tuple(2)?;
    assert!(access.next_element(de)?);
    let first = de.deserialize_bool()?;
    assert!(access.next_element(de)?);
    let second = de.deserialize_bool()?;
    assert!(!access.next_element(de)?);
    Ok((first, second))
}

/// Every record of the stream, in the order in which it lies there.
fn records(stream: &[u8]) -> Vec<(u64, Command)> {
    let mut found = Vec::new();
    let mut pos = 0u64;
    while pos < stream.len() as u64 {
        let (cmd, end) = decode_command(stream, pos).unwrap();
        found.push((pos, cmd));
        pos = end;
    }
    found
}

fn stitches(stream: &[u8]) -> Vec<(u64, Stitch)> {
    records(stream)
        .into_iter()
        .filter_map(|(pos, cmd)| match cmd {
            Command::Stitch(st) => Some((pos, st)),
            _ => None,
        })
        .collect()
}

#[test]
fn a_fresh_stream_holds_the_records_in_order() -> Result<(), Error> {
    let mut ser = Serializer::new(Buffer::new());
    assert_eq!(ser.first_stitch_pos(), 0);
    assert_eq!(ser.last_trailer_pos(), None);
    write_pair(&mut ser, (true, false))?;
    assert_eq!(ser.new_stitches(), 0);
    let stream = ser.dump()?;
    assert_eq!(stream.len(), 64);
    assert_eq!(ser.as_slice(), &stream[..]);
    let positions: Vec<u64> = records(&stream).iter().map(|(pos, _)| *pos).collect();
    assert_eq!(positions, vec![0, 17, 26, 36, 45, 55]);
    assert!(stitches(&stream).is_empty());
    Ok(())
}

#[test]
fn writing_the_same_value_again_changes_nothing() -> Result<(), Error> {
    let mut ser = Serializer::new(Buffer::new());
    write_pair(&mut ser, (true, false))?;
    let before = ser.dump()?;

    ser.reset()?;
    assert_eq!(ser.first_stitch_pos(), 64);
    write_pair(&mut ser, (true, false))?;

    assert_eq!(ser.new_stitches(), 0);
    assert_eq!(ser.dump()?, before);

    let mut de = ser.to_de();
    assert_eq!(read_pair(&mut de)?, (true, false));
    Ok(())
}

#[test]
fn one_changed_leaf_gives_one_stitch() -> Result<(), Error> {
    let mut ser = Serializer::new(Buffer::new());
    write_pair(&mut ser, (true, false))?;
    let before = ser.dump()?;

    ser.reset()?;
    write_pair(&mut ser, (true, true))?;
    assert_eq!(ser.new_stitches(), 1);

    let after = ser.dump()?;
    assert_eq!(&after[..before.len()], &before[..]);
    assert_eq!(after.len(), 64 + 57 + 10);
    assert_eq!(
        stitches(&after),
        vec![(64, Stitch { old_pos: 45, new_pos: 121, next_stitch_pos: 55 })]
    );
    assert_eq!(
        decode_command(&after, 121).unwrap().0,
        Command::Bool(SerializeBool { v: true })
    );

    let mut de = ser.to_de();
    assert_eq!(read_pair(&mut de)?, (true, true));
    Ok(())
}

#[test]
fn two_changed_leaves_give_two_stitches() -> Result<(), Error> {
    let mut ser = Serializer::new(Buffer::new());
    write_pair(&mut ser, (true, false))?;
    ser.reset()?;
    write_pair(&mut ser, (false, true))?;
    assert_eq!(ser.new_stitches(), 2);
    assert_eq!(ser.first_stitch_pos(), 64);

    let stream = ser.dump()?;
    assert_eq!(
        stitches(&stream),
        vec![
            (64, Stitch { old_pos: 26, new_pos: 121, next_stitch_pos: 36 }),
            (131, Stitch { old_pos: 45, new_pos: 188, next_stitch_pos: 55 }),
        ]
    );
    assert_eq!(stream.len(), 198);

    let mut de = ser.to_de();
    assert_eq!(read_pair(&mut de)?, (false, true));
    de.reset()?;
    assert_eq!(read_pair(&mut de)?, (false, true));
    Ok(())
}

#[test]
fn the_old_records_stay_where_they_are() -> Result<(), Error> {
    let mut ser = Serializer::new(Buffer::new());
    write_pair(&mut ser, (true, false))?;
    ser.reset()?;
    write_pair(&mut ser, (false, true))?;
    let stream = ser.dump()?;
    assert_eq!(decode_command(&stream, 26).unwrap().0, Command::Bool(SerializeBool { v: true }));
    assert_eq!(decode_command(&stream, 45).unwrap().0, Command::Bool(SerializeBool { v: false }));
    // Read through the forwarding records, the slots say the new value.
    let (now, at, resume) = read_slot(&stream, 26).unwrap();
    assert_eq!((now, at, resume), (Command::Bool(SerializeBool { v: false }), 121, 36));
    let (now, at, resume) = read_slot(&stream, 45).unwrap();
    assert_eq!((now, at, resume), (Command::Bool(SerializeBool { v: true }), 188, 55));
    let (now, at, resume) = read_slot(&stream, 0).unwrap();
    assert_eq!(now.kind(), serdif::scmd::Kind::AggregateStart);
    assert_eq!((at, resume), (0, 17));
    Ok(())
}

#[test]
fn a_leaf_can_be_updated_again_and_again() -> Result<(), Error> {
    let mut ser = Serializer::new(Buffer::new());
    ser.serialize_u8(1)?;
    ser.serialize_u8(100)?;
    for round in 2..6u8 {
        ser.reset()?;
        ser.serialize_u8(round)?;
        ser.serialize_u8(100)?;
        assert_eq!(ser.new_stitches(), 1);
    }
    let stream = ser.dump()?;
    // The forwarding records form a chain: each replaces the record that the
    // one before it brought, and all of them resume behind the first record.
    let found = stitches(&stream);
    assert_eq!(found.len(), 4);
    assert_eq!(found[0].1, Stitch { old_pos: 0, new_pos: 20 + 57, next_stitch_pos: 10 });
    assert_eq!(found[1].1.old_pos, found[0].1.new_pos);
    assert_eq!(found[2].1.old_pos, found[1].1.new_pos);
    assert_eq!(found[3].1.old_pos, found[2].1.new_pos);
    for (pos, st) in &found {
        assert_eq!(st.new_pos, pos + 57);
        assert_eq!(st.next_stitch_pos, 10);
    }

    let mut de = ser.to_de();
    assert_eq!(de.deserialize_u8()?, 5);
    assert_eq!(de.deserialize_u8()?, 100);

    // Going back to an earlier value is a change like any other.
    let mut ser = de.to_ser();
    ser.serialize_u8(1)?;
    assert_eq!(ser.new_stitches(), 1);
    ser.serialize_u8(100)?;
    let mut de = ser.to_de();
    assert_eq!(de.deserialize_u8()?, 1);
    assert_eq!(de.deserialize_u8()?, 100);
    Ok(())
}

#[test]
fn a_scalar_of_another_type_is_stitched() -> Result<(), Error> {
    let mut ser = Serializer::new(Buffer::new());
    ser.serialize_bool(true)?;
    ser.reset()?;
    ser.serialize_u8(7)?;
    assert_eq!(ser.new_stitches(), 1);
    let mut de = ser.to_de();
    assert_eq!(de.deserialize_bool(), Err(Error::new(ErrorKind::Framing)));
    assert_eq!(de.deserialize_u8()?, 7);
    Ok(())
}

#[test]
fn a_record_of_another_family_is_refused() -> Result<(), Error> {
    let mut ser = Serializer::new(Buffer::new());
    ser.serialize_bool(true)?;
    let before = ser.dump()?;

    ser.reset()?;
    assert_eq!(ser.serialize_tuple(1), Err(Error::new(ErrorKind::UnsupportedShape)));
    assert_eq!(ser.serialize_element(), Err(Error::new(ErrorKind::UnsupportedShape)));
    assert_eq!(ser.end(), Err(Error::new(ErrorKind::UnsupportedShape)));
    assert_eq!(ser.serialize_struct("S", 1), Err(Error::new(ErrorKind::UnsupportedShape)));
    assert_eq!(ser.serialize_field("f"), Err(Error::new(ErrorKind::UnsupportedShape)));
    assert_eq!(ser.end_struct(), Err(Error::new(ErrorKind::UnsupportedShape)));
    assert_eq!(ser.new_stitches(), 0);
    assert_eq!(ser.dump()?, before);

    // The refused calls have not moved the cursor.
    ser.serialize_bool(true)?;
    assert_eq!(ser.dump()?, before);
    Ok(())
}

#[test]
fn a_value_that_runs_into_the_log_is_refused() -> Result<(), Error> {
    let mut ser = Serializer::new(Buffer::new());
    ser.serialize_bool(true)?;
    ser.reset()?;
    ser.serialize_bool(false)?;
    // The value had one record; where a second would go lies a forwarding
    // record.
    assert_eq!(ser.serialize_bool(false), Err(Error::new(ErrorKind::UnsupportedShape)));
    Ok(())
}

#[test]
fn a_longer_value_is_appended_where_the_stream_ends() -> Result<(), Error> {
    let mut ser = Serializer::new(Buffer::new());
    ser.serialize_u8(1)?;
    ser.reset()?;
    ser.serialize_u8(1)?;
    ser.serialize_u8(2)?;
    assert_eq!(ser.new_stitches(), 0);
    assert_eq!(ser.dump()?.len(), 20);
    let mut de = ser.to_de();
    assert_eq!(de.deserialize_u8()?, 1);
    assert_eq!(de.deserialize_u8()?, 2);
    assert_eq!(de.deserialize_u8(), Err(Error::new(ErrorKind::EndOfStream)));
    Ok(())
}

#[test]
fn garbage_in_the_stream_is_a_framing_error() {
    let mut ser = Serializer::new(Buffer::from_vec(vec![1, 2, 3]));
    assert_eq!(ser.serialize_bool(true), Err(Error::new(ErrorKind::Framing)));
    assert_eq!(ser.dump().unwrap(), vec![1, 2, 3]);
    let mut de = ser.to_de();
    assert_eq!(de.deserialize_bool(), Err(Error::new(ErrorKind::Framing)));
    assert_eq!(de.read(), Err(Error::new(ErrorKind::Framing)));
}

#[test]
fn a_reserved_forwarding_record_replaces_nothing() -> Result<(), Error> {
    // A stream in which the room for a forwarding record was reserved and
    // never filled in.
    let mut stream = Command::U8(SerializeU8 { v: 9 }).encode();
    stream.extend(Command::Stitch(Stitch { old_pos: 0, new_pos: 0, next_stitch_pos: 0 }).encode());
    stream.extend(Command::U8(SerializeU8 { v: 3 }).encode());
    let mut de = Deserializer::new(Buffer::from_vec(stream));
    assert_eq!(de.deserialize_u8()?, 9);
    Ok(())
}

#[test]
fn a_forwarding_record_for_another_reader_replaces_nothing() -> Result<(), Error> {
    let first = Command::U8(SerializeU8 { v: 9 }).encode();
    // Right position and right replacement, wrong place to go on.
    let mut stream = first.clone();
    stream.extend(Command::Stitch(Stitch { old_pos: 0, new_pos: 67, next_stitch_pos: 0 }).encode());
    stream.extend(Command::U8(SerializeU8 { v: 3 }).encode());
    assert_eq!(Deserializer::new(Buffer::from_vec(stream)).deserialize_u8()?, 9);
    // Replacement not directly behind the forwarding record.
    let mut stream = first.clone();
    stream.extend(Command::Stitch(Stitch { old_pos: 0, new_pos: 66, next_stitch_pos: 10 }).encode());
    stream.extend(Command::U8(SerializeU8 { v: 3 }).encode());
    assert_eq!(Deserializer::new(Buffer::from_vec(stream)).deserialize_u8()?, 9);
    // All three as they should be.
    let mut stream = first.clone();
    stream.extend(Command::Stitch(Stitch { old_pos: 0, new_pos: 67, next_stitch_pos: 10 }).encode());
    stream.extend(Command::U8(SerializeU8 { v: 3 }).encode());
    assert_eq!(Deserializer::new(Buffer::from_vec(stream)).deserialize_u8()?, 3);
    // A forwarding record without its replacement.
    let mut stream = first;
    stream.extend(Command::Stitch(Stitch { old_pos: 0, new_pos: 67, next_stitch_pos: 10 }).encode());
    assert_eq!(
        Deserializer::new(Buffer::from_vec(stream)).deserialize_u8(),
        Err(Error::new(ErrorKind::Framing))
    );
    Ok(())
}

#[test]
fn a_struct_is_diffed_record_by_record() -> Result<(), Error> {
    let mut ser = Serializer::new(Buffer::new());
    ser.serialize_struct("Type1", 2)?;
    ser.serialize_field("field1")?;
    ser.serialize_bool(true)?;
    ser.serialize_field("field2")?;
    ser.serialize_u8(4)?;
    ser.end_struct()?;
    let before = ser.dump()?;

    ser.reset()?;
    ser.serialize_struct("Type1", 2)?;
    ser.serialize_field("field1")?;
    ser.serialize_bool(true)?;
    ser.serialize_field("other")?;
    ser.serialize_u8(5)?;
    ser.end_struct()?;
    assert_eq!(ser.new_stitches(), 2);
    let after = ser.dump()?;
    assert_eq!(&after[..before.len()], &before[..]);

    let mut de = ser.to_de();
    let unsupported = Some(Error::new(ErrorKind::UnsupportedShape));
    assert_eq!(de.deserialize_struct("Type2", &["field1", "other"]).err(), unsupported);
    assert_eq!(de.deserialize_struct("Type1", &["field1"]).err(), unsupported);
    assert_eq!(de.deserialize_tuple(2).err(), Some(Error::new(ErrorKind::Framing)));
    assert_eq!(de.position(), 0);
    de.deserialize_struct("Type1", &["field1", "field2"])?;
    de.deserialize_field("field1")?;
    assert!(de.deserialize_bool()?);
    let before = de.position();
    assert_eq!(de.deserialize_field("field2"), Err(Error::new(ErrorKind::UnsupportedShape)));
    assert_eq!(de.deserialize_bool(), Err(Error::new(ErrorKind::Framing)));
    assert_eq!(de.position(), before);
    de.deserialize_field("other")?;
    assert_eq!(de.deserialize_u8()?, 5);
    assert_eq!(de.deserialize_field("x"), Err(Error::new(ErrorKind::Framing)));
    de.deserialize_struct_end()?;
    // Behind the value lie the forwarding records, which are no part of it.
    assert_eq!(de.deserialize_struct_end(), Err(Error::new(ErrorKind::Framing)));
    Ok(())
}

#[test]
fn fields_are_read_in_order() -> Result<(), Error> {
    let mut ser = Serializer::new(Buffer::new());
    ser.serialize_struct("Pair", 2)?;
    ser.serialize_field("a")?;
    ser.serialize_u8(1)?;
    ser.serialize_field("b")?;
    ser.serialize_u8(2)?;
    ser.end_struct()?;
    assert_eq!(ser.position(), ser.dump()?.len() as u64);

    let mut de = ser.to_de();
    let mut fields = de.deserialize_struct("Pair", &["a", "b"])?;
    assert_eq!(fields.size_hint(), Some(2));
    assert_eq!(fields.next_field(&mut de), Ok(true));
    assert_eq!(fields.size_hint(), Some(1));
    // The value of the field has not been read yet: what stands there is no
    // field marker.
    assert_eq!(fields.next_field(&mut de), Err(Error::new(ErrorKind::Framing)));
    assert_eq!(de.deserialize_u8()?, 1);
    assert_eq!(fields.next_field(&mut de), Ok(true));
    assert_eq!(fields.size_hint(), Some(0));
    assert_eq!(de.deserialize_u8()?, 2);
    assert_eq!(fields.next_field(&mut de), Ok(false));
    assert_eq!(fields.next_field(&mut de), Err(Error::new(ErrorKind::EndOfStream)));

    de.reset()?;
    let mut fields = de.deserialize_struct("Pair", &["a", "c"])?;
    assert_eq!(fields.next_field(&mut de), Ok(true));
    assert_eq!(de.deserialize_u8()?, 1);
    assert_eq!(fields.next_field(&mut de), Err(Error::new(ErrorKind::UnsupportedShape)));
    assert_eq!(fields.size_hint(), Some(1));

    let mut empty = Serializer::new(Buffer::new());
    empty.serialize_struct("Unit", 0)?;
    empty.end_struct()?;
    let mut de = empty.to_de();
    let mut fields = de.deserialize_struct("Unit", &[])?;
    assert_eq!(fields.size_hint(), Some(0));
    assert_eq!(fields.next_field(&mut de), Ok(false));
    Ok(())
}

#[test]
fn a_tuple_of_another_length_is_an_unsupported_shape() -> Result<(), Error> {
    let mut ser = Serializer::new(Buffer::new());
    ser.serialize_tuple(2)?;
    let mut de = ser.to_de();
    assert_eq!(de.deserialize_tuple(3).err(), Some(Error::new(ErrorKind::UnsupportedShape)));
    assert_eq!(de.deserialize_element(), Err(Error::new(ErrorKind::Framing)));
    assert_eq!(de.deserialize_tuple_end(), Err(Error::new(ErrorKind::Framing)));
    let access = de.deserialize_tuple(2)?;
    assert_eq!(access.size_hint(), Some(2));
    Ok(())
}

#[test]
fn elements_are_counted_down() -> Result<(), Error> {
    let mut ser = Serializer::new(Buffer::new());
    ser.serialize_tuple(1)?;
    ser.serialize_element()?;
    ser.serialize_u8(3)?;
    ser.end()?;
    let mut de = ser.to_de();
    let mut access = de.deserialize_tuple(1)?;
    assert_eq!(access.size_hint(), Some(1));
    assert_eq!(access.next_element(&mut de), Ok(true));
    assert_eq!(access.size_hint(), Some(0));
    // The element has not been read yet: what stands there is no closing.
    assert_eq!(access.next_element(&mut de), Err(Error::new(ErrorKind::Framing)));
    assert_eq!(de.deserialize_u8()?, 3);
    assert_eq!(access.next_element(&mut de), Ok(false));
    assert_eq!(access.next_element(&mut de), Err(Error::new(ErrorKind::EndOfStream)));
    Ok(())
}

#[test]
fn sessions_hand_the_stream_over() -> Result<(), Error> {
    let mut ser = Serializer::new(Buffer::new());
    ser.serialize_u8(1)?;
    let state: State = ser.to_state();
    assert_eq!(state.buf.len(), 10);
    assert_eq!(state.buf.position(), 10);
    let mut de = Deserializer::from_state(state);
    assert_eq!(de.read()?, Command::U8(SerializeU8 { v: 1 }));
    assert_eq!(de.read(), Err(Error::new(ErrorKind::EndOfStream)));
    let state = de.to_state();
    assert_eq!(state.buf.position(), 10);
    let mut ser = Serializer::from_state(state);
    assert_eq!(ser.first_stitch_pos(), 10);
    ser.serialize_u8(2)?;
    assert_eq!(ser.new_stitches(), 1);
    let bytes = ser.to_state().buf.into_vec();
    assert_eq!(bytes.len(), 10 + 57 + 10);
    Ok(())
}

#[test]
fn the_buffer_writes_over_and_grows() {
    let mut buf = Buffer::from_vec(vec![1, 2, 3, 4]);
    assert_eq!(buf.position(), 0);
    assert_eq!(buf.seek(2), Ok(2));
    buf.write(&[9]);
    assert_eq!(buf.as_slice(), &[1, 2, 9, 4]);
    assert_eq!(buf.position(), 3);
    buf.write(&[7, 8, 6]);
    assert_eq!(buf.as_slice(), &[1, 2, 9, 7, 8, 6]);
    assert_eq!(buf.position(), 6);
    assert_eq!(buf.len(), 6);
    assert_eq!(buf.seek(6), Ok(6));
    assert_eq!(buf.seek(7), Err(Error::new(ErrorKind::Io)));
    assert_eq!(buf.position(), 6);
    buf.rewind();
    assert_eq!(buf.position(), 0);
    assert_eq!(buf.seek_end(), 6);
    buf.write(&[]);
    assert_eq!(buf.into_vec(), vec![1, 2, 9, 7, 8, 6]);
    assert_eq!(Buffer::new().seek(1), Err(Error::new(ErrorKind::Io)));
}
