use cog_tiles::codec::{read_i16, read_i32, read_u16, read_u32, read_u64, ByteOrder};
use cog_tiles::entry::{resolve_entry, DirectoryEntry, ValueLocation};
use cog_tiles::errors::FormatError;
use cog_tiles::value::{decode_value, field_type_size, TagValue};

#[test]
fn reads_integers_in_both_orders() {
    let buf = [0x12u8, 0x34, 0x56, 0x78];
    assert_eq!(read_u16(&buf, 0, ByteOrder::LittleEndian), Ok((0x3412, 2)));
    assert_eq!(read_u16(&buf, 0, ByteOrder::BigEndian), Ok((0x1234, 2)));
    assert_eq!(read_u16(&buf, 2, ByteOrder::BigEndian), Ok((0x5678, 4)));
    assert_eq!(read_u32(&buf, 0, ByteOrder::LittleEndian), Ok((0x78563412, 4)));
    assert_eq!(read_u32(&buf, 0, ByteOrder::BigEndian), Ok((0x12345678, 4)));
}

#[test]
fn reads_signed_and_wide_values() {
    let buf = [0xFFu8, 0xFE, 0xFF, 0xFF];
    assert_eq!(read_i16(&buf, 0, ByteOrder::BigEndian), Ok((-2, 2)));
    assert_eq!(read_i16(&buf, 0, ByteOrder::LittleEndian), Ok((-257, 2)));
    assert_eq!(read_i32(&buf, 0, ByteOrder::BigEndian), Ok((-65537, 4)));
    let d = (-2.25f64).to_bits();
    let le = d.to_le_bytes();
    let be = d.to_be_bytes();
    assert_eq!(read_u64(&le, 0, ByteOrder::LittleEndian), Ok((d, 8)));
    assert_eq!(read_u64(&be, 0, ByteOrder::BigEndian), Ok((d, 8)));
}

#[test]
fn short_buffer_is_truncated() {
    let buf = [1u8, 2, 3];
    assert_eq!(
        read_u32(&buf, 0, ByteOrder::LittleEndian),
        Err(FormatError::Truncated { needed: 4, available: 3 })
    );
    assert_eq!(
        read_u16(&buf, 2, ByteOrder::LittleEndian),
        Err(FormatError::Truncated { needed: 2, available: 1 })
    );
    assert_eq!(
        read_u16(&buf, 7, ByteOrder::LittleEndian),
        Err(FormatError::Truncated { needed: 2, available: 0 })
    );
}

#[test]
fn field_type_sizes() {
    let expected = [1u64, 1, 2, 4, 8, 1, 1, 2, 4, 8, 4, 8];
    for (i, size) in expected.iter().enumerate() {
        assert_eq!(field_type_size(i as u16 + 1), Some(*size));
    }
    assert_eq!(field_type_size(0), None);
    assert_eq!(field_type_size(13), None);
    assert_eq!(field_type_size(16), None);
}

#[test]
fn decodes_every_element() {
    let raw = [1u8, 0, 2, 0, 3, 0];
    assert_eq!(
        decode_value(3, &raw, ByteOrder::LittleEndian, 3),
        Ok(TagValue::Short(vec![1, 2, 3]))
    );
    assert_eq!(
        decode_value(3, &raw, ByteOrder::BigEndian, 3),
        Ok(TagValue::Short(vec![256, 512, 768]))
    );
    let raw = [0u8, 0, 0, 72, 0, 0, 0, 1];
    assert_eq!(
        decode_value(5, &raw, ByteOrder::BigEndian, 1),
        Ok(TagValue::Rational(vec![(72, 1)]))
    );
    let raw = [0xFFu8, 0xFF, 0xFF, 0xFD, 0, 0, 0, 4];
    assert_eq!(
        decode_value(10, &raw, ByteOrder::BigEndian, 1),
        Ok(TagValue::SRational(vec![(-3, 4)]))
    );
    assert_eq!(
        decode_value(6, &[0xFF, 5], ByteOrder::BigEndian, 2),
        Ok(TagValue::SByte(vec![-1, 5]))
    );
    assert_eq!(
        decode_value(7, &[9, 8, 7], ByteOrder::BigEndian, 2),
        Ok(TagValue::Undefined(vec![9, 8]))
    );
    let bits = 1.5f32.to_bits();
    assert_eq!(
        decode_value(11, &bits.to_le_bytes(), ByteOrder::LittleEndian, 1),
        Ok(TagValue::Float(vec![bits]))
    );
}

#[test]
fn ascii_strips_one_trailing_nul() {
    assert_eq!(
        decode_value(2, b"abc\0", ByteOrder::LittleEndian, 4),
        Ok(TagValue::Ascii("abc".to_string()))
    );
    assert_eq!(
        decode_value(2, b"ab\0\0", ByteOrder::LittleEndian, 4),
        Ok(TagValue::Ascii("ab\0".to_string()))
    );
    assert_eq!(
        decode_value(2, b"abc", ByteOrder::LittleEndian, 3),
        Ok(TagValue::Ascii("abc".to_string()))
    );
    assert_eq!(
        decode_value(2, b"", ByteOrder::LittleEndian, 0),
        Ok(TagValue::Ascii(String::new()))
    );
}

#[test]
fn decode_errors() {
    assert_eq!(
        decode_value(2, &[0xC3, 0x28], ByteOrder::LittleEndian, 2),
        Err(FormatError::InvalidEncoding)
    );
    assert_eq!(
        decode_value(13, &[0, 0, 0, 0], ByteOrder::LittleEndian, 1),
        Err(FormatError::UnsupportedFieldType { field_type: 13 })
    );
    assert_eq!(
        decode_value(4, &[0, 0, 0, 0], ByteOrder::LittleEndian, 2),
        Err(FormatError::Truncated { needed: 8, available: 4 })
    );
}

fn entry_bytes(tag: u16, field_type: u16, count: u32, value: [u8; 4]) -> Vec<u8> {
    let mut b = Vec::new();
    b.extend_from_slice(&tag.to_le_bytes());
    b.extend_from_slice(&field_type.to_le_bytes());
    b.extend_from_slice(&count.to_le_bytes());
    b.extend_from_slice(&value);
    b
}

#[test]
fn entry_fields_and_location() {
    let raw = entry_bytes(256, 4, 1, 640u32.to_le_bytes());
    let d = DirectoryEntry::parse(&raw, ByteOrder::LittleEndian).unwrap();
    assert_eq!(d, DirectoryEntry { tag: 256, field_type: 4, count: 1, value_or_offset: 640 });
    assert_eq!(d.location(), ValueLocation::Inline);
    let four = DirectoryEntry { tag: 1, field_type: 1, count: 4, value_or_offset: 0 };
    assert_eq!(four.location(), ValueLocation::Inline);
    let five = DirectoryEntry { tag: 1, field_type: 1, count: 5, value_or_offset: 300 };
    assert_eq!(five.location(), ValueLocation::External { offset: 300, length: 5 });
    let odd = DirectoryEntry { tag: 1, field_type: 99, count: 5, value_or_offset: 300 };
    assert_eq!(odd.location(), ValueLocation::Unsupported);
    assert_eq!(
        DirectoryEntry::parse(&raw[..11], ByteOrder::LittleEndian),
        Err(FormatError::Truncated { needed: 12, available: 11 })
    );
}

#[test]
fn resolves_inline_and_fetched_values() {
    let raw = entry_bytes(258, 3, 2, [8, 0, 16, 0]);
    let e = resolve_entry(&raw, ByteOrder::LittleEndian, true, &[]).unwrap();
    assert_eq!(e.value, Some(TagValue::Short(vec![8, 16])));
    assert!(e.known_tag);

    let raw = entry_bytes(0xFFFF, 1, 5, 100u32.to_le_bytes());
    let e = resolve_entry(&raw, ByteOrder::LittleEndian, false, &[1, 2, 3, 4, 5]).unwrap();
    assert_eq!(e.value, Some(TagValue::Byte(vec![1, 2, 3, 4, 5])));
    assert!(!e.known_tag);

    let raw = entry_bytes(300, 42, 1, [0, 0, 0, 0]);
    let e = resolve_entry(&raw, ByteOrder::LittleEndian, true, &[]).unwrap();
    assert_eq!(e.value, None);
    assert_eq!(e.entry.field_type, 42);

    let raw = entry_bytes(305, 2, 6, 100u32.to_le_bytes());
    assert_eq!(
        resolve_entry(&raw, ByteOrder::LittleEndian, true, &[0xFF, 0xFF, 0, 0, 0, 0]),
        Err(FormatError::InvalidEncoding)
    );
}
