use divine_tools::buffer::{BufferReader, BufferWriter};
use divine_tools::types::{Binary, CStringWithLength, FixedArray, FixedCString};
use divine_tools::DecodeError;

#[test]
fn primitive_round_trips() {
    let mut w = BufferWriter::new();
    w.write_u8(0xAB);
    w.write_bool(true);
    w.write_bool(false);
    w.write_u16(0xBEEF);
    w.write_i16(-2);
    w.write_u32(0xDEADBEEF);
    w.write_i32(-123456);
    let bytes = w.finish();
    let mut r = BufferReader::new(&bytes);
    assert_eq!(r.read_u8(), Ok(0xAB));
    assert_eq!(r.read_bool(), Ok(true));
    assert_eq!(r.read_bool(), Ok(false));
    assert_eq!(r.read_u16(), Ok(0xBEEF));
    assert_eq!(r.read_i16(), Ok(-2));
    assert_eq!(r.read_u32(), Ok(0xDEADBEEF));
    assert_eq!(r.read_i32(), Ok(-123456));
    assert!(r.is_empty());
}

#[test]
fn little_endian_layout() {
    let mut w = BufferWriter::new();
    w.write_u32(0x01020304);
    let bytes = w.finish();
    assert_eq!(bytes, vec![0x04, 0x03, 0x02, 0x01]);
    let mut w = BufferWriter::new();
    w.write_u16(0x0102);
    assert_eq!(w.finish(), vec![0x02, 0x01]);
}

#[test]
fn string_round_trip() {
    let mut w = BufferWriter::new();
    w.write_string("hello");
    let bytes = w.finish();
    assert_eq!(&bytes[0..4], &[5, 0, 0, 0]);
    assert_eq!(&bytes[4..], b"hello");
    let mut r = BufferReader::new(&bytes);
    assert_eq!(r.read_string(), Ok(String::from("hello")));
    assert!(r.is_empty());
}

#[test]
fn string_invalid_utf8() {
    let bytes = vec![2, 0, 0, 0, 0xFF, 0xFE];
    let mut r = BufferReader::new(&bytes);
    assert_eq!(r.read_string(), Err(DecodeError::InvalidUtf8));
}

#[test]
fn truncated_reads_fail_without_advancing() {
    let bytes = vec![1, 2, 3];
    let mut r = BufferReader::new(&bytes);
    assert_eq!(r.read_u32(), Err(DecodeError::Truncated));
    assert_eq!(r.position(), 0);
    assert_eq!(r.remaining(), 3);
    assert_eq!(r.read_u16(), Ok(0x0201));
    assert_eq!(r.position(), 2);
    assert!(!r.is_empty());
    assert_eq!(r.len(), 3);
}

#[test]
fn skip_and_pad() {
    let mut w = BufferWriter::new();
    w.write_u8(9);
    w.pad(3);
    w.write_u8(7);
    let bytes = w.finish();
    assert_eq!(bytes, vec![9, 0, 0, 0, 7]);
    let mut r = BufferReader::new(&bytes);
    r.skip(4);
    assert_eq!(r.read_u8(), Ok(7));
}

#[test]
fn dynamic_array_round_trip_preserves_order_and_count() {
    let v: Vec<u32> = vec![10, 20, 30];
    let mut w = BufferWriter::new();
    v.to_bytes(&mut w);
    let bytes = w.finish();
    // The count prefix equals the element count.
    assert_eq!(&bytes[0..4], &[3, 0, 0, 0]);
    assert_eq!(bytes.len(), 4 + 3 * 4);
    let mut r = BufferReader::new(&bytes);
    let back = <Vec<u32> as Binary>::from_bytes(&mut r).unwrap();
    assert_eq!(back, vec![10, 20, 30]);
    assert!(r.is_empty());
}

#[test]
fn dynamic_array_truncated_element_fails() {
    let bytes = vec![2, 0, 0, 0, 1, 0, 0, 0, 9];
    let mut r = BufferReader::new(&bytes);
    assert!(matches!(
        <Vec<u32> as Binary>::from_bytes(&mut r),
        Err(DecodeError::Truncated)
    ));
}

#[test]
fn fixed_array_has_no_count_in_stream() {
    let fa = FixedArray::<u32, 3> {
        elements: vec![1, 2, 3],
    };
    let mut w = BufferWriter::new();
    fa.to_bytes(&mut w);
    let bytes = w.finish();
    assert_eq!(bytes.len(), 12);
    let mut r = BufferReader::new(&bytes);
    let back = <FixedArray<u32, 3> as Binary>::from_bytes(&mut r).unwrap();
    assert_eq!(back.elements, vec![1, 2, 3]);
    assert!(r.is_empty());
}

#[test]
fn fixed_cstring_round_trip() {
    let s = FixedCString::<8> {
        bytes: b"abc".to_vec(),
    };
    let mut w = BufferWriter::new();
    s.to_bytes(&mut w);
    let bytes = w.finish();
    // The total encoded size is always exactly the fixed width.
    assert_eq!(bytes, vec![b'a', b'b', b'c', 0, 0, 0, 0, 0]);
    let mut r = BufferReader::new(&bytes);
    let back = <FixedCString<8> as Binary>::from_bytes(&mut r).unwrap();
    assert_eq!(back.bytes, b"abc".to_vec());
    assert!(r.is_empty());
}

#[test]
fn fixed_cstring_without_terminator_fails() {
    let bytes = vec![1u8; 8];
    let mut r = BufferReader::new(&bytes);
    assert!(matches!(
        <FixedCString<8> as Binary>::from_bytes(&mut r),
        Err(DecodeError::Malformed)
    ));
}

#[test]
fn length_prefixed_cstring_round_trip() {
    let s = CStringWithLength {
        bytes: b"hi".to_vec(),
    };
    let mut w = BufferWriter::new();
    s.to_bytes(&mut w);
    let bytes = w.finish();
    // The length prefix counts the logical bytes plus the terminator.
    assert_eq!(bytes, vec![3, 0, 0, 0, b'h', b'i', 0]);
    let mut r = BufferReader::new(&bytes);
    let back = <CStringWithLength as Binary>::from_bytes(&mut r).unwrap();
    assert_eq!(back.bytes, b"hi".to_vec());
    assert!(r.is_empty());
}

#[test]
fn length_prefixed_cstring_interior_nul_fails() {
    let bytes = vec![3, 0, 0, 0, b'h', 0, 0];
    let mut r = BufferReader::new(&bytes);
    assert!(matches!(
        <CStringWithLength as Binary>::from_bytes(&mut r),
        Err(DecodeError::Malformed)
    ));
}
