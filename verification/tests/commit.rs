use serdif::error::ErrorKind;
use serdif::frame::decode_command;
use serdif::meta::find_last_trailer;
use serdif::meta::Trailer;
use serdif::meta::MAGIC;
use serdif::scmd::Command;
use serdif::scmd::SerializeStructField;
use serdif::ser::Serializer;
use serdif::state::Buffer;
use serdif::Error;

fn trailer_at(stream: &[u8], pos: u64) -> Trailer {
    match decode_command(stream, pos).unwrap().0 {
        Command::Trailer(t) => t,
        other => panic!("no commit marker at {}: {:?}", pos, other),
    }
}

/// The positions of the commit markers reached from `from`, going back.
fn chain(stream: &[u8], from: Option<u64>) -> Vec<u64> {
    let mut found = Vec::new();
    let mut next = from;
    while let Some(pos) = next {
        found.push(pos);
        next = trailer_at(stream, pos).prev_trailer_pos;
    }
    found
}

#[test]
fn an_empty_stream_has_no_commit() {
    assert_eq!(find_last_trailer(&Buffer::new()), Ok(None));
    assert_eq!(Serializer::new(Buffer::new()).recover(), Ok(None));
}

#[test]
fn a_stream_without_commit_reports_it() -> Result<(), Error> {
    let mut ser = Serializer::new(Buffer::new());
    ser.serialize_u8(1)?;
    assert_eq!(ser.recover(), Err(Error::new(ErrorKind::NoTrailerFound)));
    assert_eq!(
        find_last_trailer(&Buffer::from_vec(vec![0; 5000])),
        Err(Error::new(ErrorKind::NoTrailerFound))
    );
    Ok(())
}

#[test]
fn the_first_commit_names_nothing() -> Result<(), Error> {
    let mut ser = Serializer::new(Buffer::new());
    ser.serialize_u8(1)?;
    ser.finalize()?;
    let stream = ser.dump()?;
    assert_eq!(stream.len(), 10 + 59);
    let expected = Trailer { magic: MAGIC, first_stitch: None, prev_trailer_pos: None };
    assert_eq!(trailer_at(&stream, 10), expected);
    assert_eq!(ser.recover(), Ok(Some((expected, 10))));
    assert_eq!(ser.last_trailer_pos(), Some(10));
    assert_eq!(ser.first_stitch_pos(), 69);
    assert_eq!(ser.new_stitches(), 0);
    Ok(())
}

#[test]
fn a_commit_without_changes_writes_nothing() -> Result<(), Error> {
    let mut ser = Serializer::new(Buffer::new());
    ser.serialize_u8(1)?;
    ser.finalize()?;
    let before = ser.dump()?;
    ser.finalize()?;
    assert_eq!(ser.dump()?, before);

    ser.reset()?;
    ser.serialize_u8(1)?;
    ser.finalize()?;
    assert_eq!(ser.dump()?, before);

    let mut ser = Serializer::from_state(ser.to_state());
    assert_eq!(ser.last_trailer_pos(), Some(10));
    ser.serialize_u8(1)?;
    ser.finalize()?;
    assert_eq!(ser.dump()?, before);
    Ok(())
}

#[test]
fn a_commit_on_an_empty_stream_writes_a_marker() -> Result<(), Error> {
    let mut ser = Serializer::new(Buffer::new());
    ser.finalize()?;
    let stream = ser.dump()?;
    assert_eq!(stream.len(), 59);
    assert_eq!(
        ser.recover(),
        Ok(Some((Trailer { magic: MAGIC, first_stitch: None, prev_trailer_pos: None }, 0)))
    );
    Ok(())
}

#[test]
fn a_later_commit_names_its_first_stitch_and_the_commit_before() -> Result<(), Error> {
    let mut ser = Serializer::new(Buffer::new());
    ser.serialize_u8(1)?;
    ser.serialize_u8(2)?;
    ser.finalize()?;
    // 20 bytes of value, a commit marker at 20, the end at 79.
    let mut ser = Serializer::from_state(ser.to_state());
    assert_eq!(ser.last_trailer_pos(), Some(20));
    assert_eq!(ser.first_stitch_pos(), 79);
    ser.serialize_u8(3)?;
    ser.serialize_u8(4)?;
    assert_eq!(ser.new_stitches(), 2);
    ser.finalize()?;
    let stream = ser.dump()?;
    let second = 79 + 2 * (57 + 10);
    assert_eq!(stream.len() as u64, second + 59);
    assert_eq!(
        ser.recover(),
        Ok(Some((
            Trailer { magic: MAGIC, first_stitch: Some(79), prev_trailer_pos: Some(20) },
            second
        )))
    );
    assert!(matches!(decode_command(&stream, 79).unwrap().0, Command::Stitch(_)));
    assert_eq!(chain(&stream, Some(second)), vec![second, 20]);

    let mut de = ser.to_de();
    assert_eq!(de.deserialize_u8()?, 3);
    assert_eq!(de.deserialize_u8()?, 4);
    Ok(())
}

#[test]
fn commits_form_a_chain() -> Result<(), Error> {
    for sessions in 1..6u8 {
        let mut state = Serializer::new(Buffer::new()).to_state();
        for round in 0..sessions {
            let mut ser = Serializer::from_state(state);
            ser.serialize_u8(round)?;
            ser.finalize()?;
            state = ser.to_state();
        }
        let ser = Serializer::from_state(state);
        let stream = ser.dump()?;
        let (last, pos) = ser.recover()?.unwrap();
        assert_eq!(last.magic, MAGIC);
        assert_eq!(ser.last_trailer_pos(), Some(pos));
        let found = chain(&stream, Some(pos));
        assert_eq!(found.len(), sessions as usize);
        assert_eq!(*found.last().unwrap(), 10);
        for pair in found.windows(2) {
            assert!(pair[1] < pair[0]);
        }
    }
    Ok(())
}

#[test]
fn commits_of_one_encoder_form_a_chain() -> Result<(), Error> {
    let mut ser = Serializer::new(Buffer::new());
    for round in 0..4u8 {
        ser.reset()?;
        ser.serialize_u8(round)?;
        ser.finalize()?;
    }
    let stream = ser.dump()?;
    assert_eq!(chain(&stream, ser.last_trailer_pos()).len(), 4);
    Ok(())
}

#[test]
fn a_commit_is_found_when_the_stream_ends_behind_it() -> Result<(), Error> {
    let mut ser = Serializer::new(Buffer::new());
    ser.serialize_u8(1)?;
    ser.finalize()?;
    ser.reset()?;
    ser.serialize_u8(2)?;
    ser.finalize()?;
    let stream = ser.dump()?;
    let (last, pos) = ser.recover()?.unwrap();
    assert_eq!(pos, 69 + 67);
    // Bytes behind the marker are cut off; the marker itself stays whole.
    let mut longer = stream.clone();
    longer.extend_from_slice(&[0xff; 30]);
    assert_eq!(find_last_trailer(&Buffer::from_vec(longer)), Ok(Some((last, pos))));
    assert_eq!(find_last_trailer(&Buffer::from_vec(stream)), Ok(Some((last, pos))));
    Ok(())
}

#[test]
fn a_torn_commit_falls_back_to_the_one_before() -> Result<(), Error> {
    let mut ser = Serializer::new(Buffer::new());
    ser.serialize_u8(1)?;
    ser.finalize()?;
    let first = ser.recover()?.unwrap();
    assert_eq!(first.1, 10);
    ser.reset()?;
    ser.serialize_u8(2)?;
    ser.finalize()?;
    let stream = ser.dump()?;
    let second = ser.recover()?.unwrap().1;
    assert_eq!(second, 136);
    for keep in 0..59 {
        let cut = stream[..second as usize + keep].to_vec();
        assert_eq!(find_last_trailer(&Buffer::from_vec(cut)), Ok(Some(first)));
    }
    Ok(())
}

#[test]
fn a_torn_first_commit_leaves_no_commit() -> Result<(), Error> {
    let mut ser = Serializer::new(Buffer::new());
    ser.serialize_u8(1)?;
    ser.finalize()?;
    let stream = ser.dump()?;
    for keep in 0..59 {
        let cut = stream[..10 + keep].to_vec();
        assert_eq!(
            find_last_trailer(&Buffer::from_vec(cut)),
            Err(Error::new(ErrorKind::NoTrailerFound))
        );
    }
    assert_eq!(find_last_trailer(&Buffer::from_vec(Vec::new())), Ok(None));
    Ok(())
}

#[test]
fn a_commit_out_of_reach_is_not_found() -> Result<(), Error> {
    let mut ser = Serializer::new(Buffer::new());
    ser.finalize()?;
    let marker = ser.dump()?;
    // The marker starts 999 positions before the end: the last that is tried.
    let mut stream = marker.clone();
    stream.extend(vec![0u8; 999 - 59]);
    assert!(find_last_trailer(&Buffer::from_vec(stream.clone())).unwrap().is_some());
    stream.push(0);
    assert_eq!(
        find_last_trailer(&Buffer::from_vec(stream)),
        Err(Error::new(ErrorKind::NoTrailerFound))
    );
    Ok(())
}

#[test]
fn a_marker_with_another_magic_number_is_no_commit() {
    let fake = Command::Trailer(Trailer {
        magic: MAGIC + 1,
        first_stitch: None,
        prev_trailer_pos: None,
    });
    assert_eq!(
        find_last_trailer(&Buffer::from_vec(fake.encode())),
        Err(Error::new(ErrorKind::NoTrailerFound))
    );
}

#[test]
fn the_nearest_marker_wins_even_inside_a_name() {
    // The bytes of a commit marker inside a field's name read as a commit
    // marker when the search comes by: the magic number makes that unlikely,
    // not impossible.
    let inner = Command::Trailer(Trailer {
        magic: MAGIC,
        first_stitch: None,
        prev_trailer_pos: None,
    });
    let field = Command::StructField(SerializeStructField { key: inner.encode() });
    let found = find_last_trailer(&Buffer::from_vec(field.encode())).unwrap();
    assert_eq!(found.map(|(_, pos)| pos), Some(9));
}
