use serdif::de::Access;
use serdif::de::Deserializer;
use serdif::error::Error;
use serdif::ser::Serializer;
use serdif::state::Buffer;

fn buffer() -> Buffer {
    Buffer::new()
}

fn write_pair(ser: &mut Serializer, pair: (bool, bool)) -> Result<(), Error> {
    ser.serialize_tuple(2)?;
    ser.serialize_element()?;
    ser.serialize_bool(pair.0)?;
    ser.serialize_element()?;
    ser.serialize_bool(pair.1)?;
    ser.end()
}

fn read_pair(de: &mut Deserializer) -> Result<(bool, bool), Error> {
    let mut access: Access = de.deserialize_tuple(2)?;
    assert_eq!(access.size_hint(), Some(2));
    assert!(access.next_element(de)?);
    let first = de.deserialize_bool()?;
    assert!(access.next_element(de)?);
    let second = de.deserialize_bool()?;
    assert!(!access.next_element(de)?);
    Ok((first, second))
}

#[test]
fn test_u8() -> Result<(), Error> {
    let buf = buffer();
    let mut ser = Serializer::new(buf);

    let val1 = 5u8;
    ser.serialize_u8(val1)?;

    let mut de = ser.to_de();
    de.reset()?;

    let val2 = de.deserialize_u8()?;

    assert_eq!(val1, val2);

    Ok(())
}

#[test]
fn test_bool() -> Result<(), Error> {
    let buf = buffer();
    let mut ser = Serializer::new(buf);

    let val1 = true;
    ser.serialize_bool(val1)?;

    let mut de = ser.to_de();
    de.reset()?;

    let val2 = de.deserialize_bool()?;

    assert_eq!(val1, val2);

    Ok(())
}

#[test]
fn test_tuple() -> Result<(), Error> {
    let buf = buffer();
    let mut ser = Serializer::new(buf);

    let val1 = (true, false);
    write_pair(&mut ser, val1)?;

    let mut de = ser.to_de();
    de.reset()?;

    let val2 = read_pair(&mut de)?;

    assert_eq!(val1, val2);

    Ok(())
}

#[test]
fn test_struct() -> Result<(), Error> {
    let buf = buffer();
    let mut ser = Serializer::new(buf);

    #[derive(Eq, PartialEq, Debug)]
    struct Type1 {
        field1: bool,
        field2: bool,
    }

    let val1 = Type1 { field1: true, field2: false };
    ser.serialize_struct("Type1", 2)?;
    ser.serialize_field("field1")?;
    ser.serialize_bool(val1.field1)?;
    ser.serialize_field("field2")?;
    ser.serialize_bool(val1.field2)?;
    ser.end_struct()?;

    let mut de = ser.to_de();
    de.reset()?;

    let mut fields = de.deserialize_struct("Type1", &["field1", "field2"])?;
    assert_eq!(fields.size_hint(), Some(2));
    assert!(fields.next_field(&mut de)?);
    let field1 = de.deserialize_bool()?;
    assert!(fields.next_field(&mut de)?);
    let field2 = de.deserialize_bool()?;
    assert!(!fields.next_field(&mut de)?);
    let val2 = Type1 { field1, field2 };

    assert_eq!(val1, val2);

    Ok(())
}

#[test]
fn test_overwrite_tuple() -> Result<(), Error> {
    let buf = buffer();
    let mut ser = Serializer::new(buf);

    let val1 = (true, false);
    write_pair(&mut ser, val1)?;

    ser.reset()?;

    let val2 = (false, true);
    write_pair(&mut ser, val2)?;

    let mut de = ser.to_de();
    de.reset()?;

    let val3 = read_pair(&mut de)?;

    assert_eq!(val2, val3);

    Ok(())
}
