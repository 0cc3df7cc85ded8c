use otspec::de::{
    deserialize_to_end, from_bytes, from_bytes_strict, CountedDeserializer, Deserializer, Primitive, Scalar,
};
use otspec::error::Error;

#[test]
fn consume_advances_or_fails_in_place() {
    let bytes = [1, 2, 3];
    let mut de = Deserializer::from_bytes(&bytes);
    assert_eq!(de.consume(2), Ok(&bytes[0..2]));
    assert_eq!(de.position(), 2);
    assert_eq!(de.consume(2), Err(Error::Eof));
    assert_eq!(de.position(), 2);
    assert_eq!(de.consume(1), Ok(&bytes[2..3]));
    assert!(de.is_at_end());
}

#[test]
fn big_endian_scalars() {
    assert_eq!(from_bytes::<u16>(&[0x12, 0x34]), Ok(0x1234));
    assert_eq!(from_bytes::<i16>(&[0xFF, 0x38]), Ok(-200));
    assert_eq!(from_bytes::<u32>(&[0x01, 0x02, 0x03, 0x04]), Ok(0x01020304));
    assert_eq!(from_bytes::<i32>(&[0xFF, 0xFF, 0xFF, 0xFE]), Ok(-2));
    assert_eq!(from_bytes::<u64>(&[1, 2, 3, 4, 5, 6, 7, 8]), Ok(0x0102030405060708));
    assert_eq!(from_bytes::<i64>(&[0xFF; 8]), Ok(-1));
    assert_eq!(from_bytes::<i8>(&[0x80]), Ok(-128));
    assert_eq!(from_bytes::<u8>(&[0x80]), Ok(128));
    assert_eq!(from_bytes::<u32>(&[0x01, 0x02, 0x03]), Err(Error::Eof));
}

#[test]
fn bool_is_any_nonzero_byte() {
    assert_eq!(from_bytes::<bool>(&[0x00]), Ok(false));
    assert_eq!(from_bytes::<bool>(&[0x02]), Ok(true));
    let mut de = Deserializer::from_bytes(&[]);
    assert_eq!(de.parse_bool(), Err(Error::Eof));
}

#[test]
fn optional_is_always_read() {
    assert_eq!(from_bytes::<Option<u16>>(&[0x00, 0x00]), Ok(Some(0)));
    assert_eq!(from_bytes::<Option<u16>>(&[0x00]), Err(Error::Eof));
    let mut de = Deserializer::from_bytes(&[0x00, 0x05]);
    assert_eq!(de.deserialize_option(Primitive::U16), Ok(Some(Scalar::U16(5))));
}

#[test]
fn unsupported_primitives_fail() {
    let bytes = [0x3F, 0x80, 0x00, 0x00];
    let mut de = Deserializer::from_bytes(&bytes);
    assert_eq!(de.deserialize_primitive(Primitive::F32), Err(Error::UnsupportedPrimitive));
    assert_eq!(de.deserialize_primitive(Primitive::Str), Err(Error::UnsupportedPrimitive));
    assert_eq!(de.deserialize_primitive(Primitive::Dict), Err(Error::InvalidTag));
    assert_eq!(de.deserialize_primitive(Primitive::Enum), Err(Error::InvalidTag));
    assert_eq!(de.position(), 0);
    assert_eq!(de.deserialize_primitive(Primitive::I16), Ok(Scalar::I16(0x3F80)));
    assert_eq!(de.deserialize_primitive(Primitive::Bool), Ok(Scalar::Bool(false)));
}

#[test]
fn counted_sequence_reads_exactly_its_count() {
    let bytes = [0x00, 0x01, 0x00, 0x02, 0x00, 0x03];
    let mut de = Deserializer::from_bytes(&bytes);
    let v = CountedDeserializer::with_len(2).deserialize::<u16>(&mut de).unwrap();
    assert_eq!(v, vec![1, 2]);
    assert_eq!(de.position(), 4);
    let mut short = Deserializer::from_bytes(&bytes[..3]);
    assert_eq!(CountedDeserializer::with_len(2).deserialize::<u16>(&mut short), Err(Error::Eof));
    let mut none = Deserializer::from_bytes(&[]);
    assert_eq!(CountedDeserializer::with_len(0).deserialize::<u16>(&mut none), Ok(vec![]));
}

#[test]
fn sequence_to_end_of_buffer() {
    let mut de = Deserializer::from_bytes(&[0x00, 0x01, 0x00, 0x02]);
    assert_eq!(deserialize_to_end::<u16>(&mut de), Ok(vec![1, 2]));
    let mut odd = Deserializer::from_bytes(&[0x00, 0x01, 0x00]);
    assert_eq!(deserialize_to_end::<u16>(&mut odd), Err(Error::Eof));
}

#[test]
fn strict_decode_refuses_trailing_bytes() {
    assert_eq!(from_bytes::<u16>(&[0x00, 0x01, 0x02]), Ok(1));
    assert_eq!(from_bytes_strict::<u16>(&[0x00, 0x01, 0x02]), Err(Error::TrailingBytes));
    assert_eq!(from_bytes_strict::<u16>(&[0x00, 0x01]), Ok(1));
    assert_eq!(from_bytes_strict::<u16>(&[0x00]), Err(Error::Eof));
}
