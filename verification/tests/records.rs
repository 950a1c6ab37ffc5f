//! The codec contract and its structural composition: generic encode and
//! decode, the reference records, short-circuiting, and the derivation
//! front end's shape check.

use bytebuf::record::{Nested, Pair};
use bytebuf::shape::{record_fields, TypeShape};
use bytebuf::{from_bytes, into_bytes, ByteBuf, Endianness};

#[test]
fn generic_value_round_trip_through_free_functions() {
    let mut buf = ByteBuf::new();
    into_bytes(0x01020304u32, &mut buf);
    into_bytes(true, &mut buf);
    into_bytes(-9i64, &mut buf);
    assert_eq!(from_bytes::<u32>(&mut buf), Some(0x01020304));
    assert_eq!(from_bytes::<bool>(&mut buf), Some(true));
    assert_eq!(from_bytes::<i64>(&mut buf), Some(-9));
}

#[test]
fn generic_value_round_trip_through_buffer_methods() {
    let mut buf = ByteBuf::with_endianness(Endianness::Big);
    buf.write_value(0xBEEFu16);
    buf.write_value(200u8);
    assert_eq!(buf.read_value::<u16>(), Some(0xBEEF));
    assert_eq!(buf.read_value::<u8>(), Some(200));
    assert_eq!(buf.read_value::<u8>(), None);
}

#[test]
fn record_encodes_fields_in_declared_order() {
    // A record { a: u16, b: u8 } with a = 0x0102 (little-endian) and
    // b = 0x05 encodes to [0x02, 0x01, 0x05].
    let mut buf = ByteBuf::new();
    buf.write_value(Pair { a: 0x0102, b: 0x05 });
    assert_eq!(buf.inner(), &[0x02u8, 0x01, 0x05]);
}

#[test]
fn record_bytes_equal_concatenation_of_field_encodings() {
    for mode in [Endianness::Little, Endianness::Big] {
        let mut whole = ByteBuf::with_endianness(mode);
        whole.write_value(Pair { a: 0x1234, b: 7 });
        let mut fields = ByteBuf::with_endianness(mode);
        fields.write_value(0x1234u16);
        fields.write_value(7u8);
        assert_eq!(whole.inner(), fields.inner());
    }
}

#[test]
fn record_round_trip_reproduces_all_fields() {
    for mode in [Endianness::Little, Endianness::Big] {
        let mut buf = ByteBuf::with_endianness(mode);
        let v = Pair { a: 0xA1B2, b: 0xC3 };
        buf.write_value(v);
        assert_eq!(buf.read_value::<Pair>(), Some(v));
        assert!(!buf.has_remaining());
    }
}

#[test]
fn nested_record_round_trip() {
    for mode in [Endianness::Little, Endianness::Big] {
        let mut buf = ByteBuf::with_endianness(mode);
        let v = Nested { head: Pair { a: 0x0102, b: 3 }, tail: 0x0A0B0C0D };
        buf.write_value(v);
        assert_eq!(buf.len(), 7);
        assert_eq!(buf.read_value::<Nested>(), Some(v));
    }
}

#[test]
fn nested_bytes_equal_concatenation_of_field_encodings() {
    let mut whole = ByteBuf::new();
    whole.write_value(Nested { head: Pair { a: 0x0102, b: 3 }, tail: 0x0A0B0C0D });
    let mut fields = ByteBuf::new();
    fields.write_value(Pair { a: 0x0102, b: 3 });
    fields.write_value(0x0A0B0C0Du32);
    assert_eq!(whole.inner(), fields.inner());
    assert_eq!(whole.inner(), &[0x02u8, 0x01, 0x03, 0x0D, 0x0C, 0x0B, 0x0A]);
}

#[test]
fn record_ambient_mode_applies_per_field_at_processing_time() {
    // The record honors whatever mode the buffer has while each field is
    // processed; with the same mode throughout, both fields follow it.
    let mut buf = ByteBuf::with_endianness(Endianness::Big);
    buf.write_value(Pair { a: 0x0102, b: 0x05 });
    assert_eq!(buf.inner(), &[0x01u8, 0x02, 0x05]);
}

#[test]
fn record_decode_fails_on_first_missing_field() {
    // No bytes at all: the first field fails; nothing is consumed.
    let mut buf = ByteBuf::new();
    assert_eq!(buf.read_value::<Pair>(), None);
    assert_eq!(buf.remaining(), 0);
    // One byte: still the first field; it consumes nothing on failure.
    let mut buf = ByteBuf::from(vec![0xAAu8]);
    assert_eq!(buf.read_value::<Pair>(), None);
    assert_eq!(buf.remaining(), 1);
}

#[test]
fn record_decode_keeps_bytes_of_decoded_fields_consumed() {
    // Two bytes: field a decodes and its bytes stay consumed; field b
    // reports absence and the whole record decode fails.
    let mut buf = ByteBuf::from(vec![0x02u8, 0x01]);
    assert_eq!(buf.read_value::<Pair>(), None);
    assert_eq!(buf.remaining(), 0);
}

#[test]
fn nested_decode_keeps_bytes_of_decoded_head_consumed() {
    // Five bytes: the head record (3 bytes) decodes, the u32 tail fails
    // with only 2 bytes left; the head's bytes stay consumed.
    let mut buf = ByteBuf::from(vec![1u8, 2, 3, 4, 5]);
    assert_eq!(buf.read_value::<Nested>(), None);
    assert_eq!(buf.remaining(), 2);
}

#[test]
fn pair_decode_matches_the_generic_path() {
    let mut buf = ByteBuf::from(vec![0x02u8, 0x01, 0x05, 0xFF]);
    assert_eq!(Pair::decode(&mut buf), Some(Pair { a: 0x0102, b: 0x05 }));
    assert_eq!(buf.remaining(), 1);
}

#[test]
fn shape_check_accepts_named_fields_in_declared_order() {
    let shape = TypeShape::Named(vec!["a".to_string(), "b".to_string(), "c".to_string()]);
    assert_eq!(
        record_fields(shape),
        Ok(vec!["a".to_string(), "b".to_string(), "c".to_string()])
    );
}

#[test]
fn shape_check_accepts_empty_named_field_list() {
    let shape = TypeShape::Named(vec![]);
    assert_eq!(record_fields(shape), Ok(vec![]));
}

#[test]
fn shape_check_rejects_sum_types_and_unions() {
    assert_eq!(record_fields(TypeShape::Sum), Err("incompatible data type"));
    assert_eq!(record_fields(TypeShape::Union), Err("incompatible data type"));
}

#[test]
fn shape_check_rejects_tuple_and_unit_shapes() {
    assert_eq!(
        record_fields(TypeShape::Tuple(2)),
        Err("tuple-style fields cannot derive the codec contract")
    );
    assert_eq!(
        record_fields(TypeShape::Unit),
        Err("unit types cannot derive the codec contract")
    );
}
