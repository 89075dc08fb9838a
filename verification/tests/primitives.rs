use kafka_codec::compact_array::CompactArray;
use kafka_codec::compact_string::CompactString;
use kafka_codec::error::CodecError;
use kafka_codec::format::{append_bytes, decode_at, WireFormat};
use kafka_codec::nullable_string::NullableString;
use kafka_codec::tag_buffer::TagBuffer;
use kafka_codec::unsigned_varint::UnsignedVarInt;
use kafka_codec::utf8::text_from_bytes;

fn encoded<T: WireFormat>(value: &T) -> Vec<u8> {
    let mut out = Vec::new();
    value.encode(&mut out).unwrap();
    out
}

#[test]
fn test_varint_read_write() {
    let test_cases = [
        (0, vec![0b0_0000000]),
        (1, vec![0b0_0000001]),
        (127, vec![0b0_1111111]),
        (128, vec![0b1_0000000, 0b0_0000001]),
        (255, vec![0b1_1111111, 0b0_0000001]),
        (300, vec![0b1_0101100, 0b0_0000010]),
        (16384, vec![0b1_0000000, 0b1_0000000, 0b0_0000001]),
        (2097151, vec![0b1_1111111, 0b1_1111111, 0b0_1111111]),
        (2097152, vec![0b1_0000000, 0b1_0000000, 0b1_0000000, 0b0_0000001]),
    ];

    for (number, expected_bytes) in test_cases {
        let mut writer = Vec::new();
        UnsignedVarInt(number).encode(&mut writer).unwrap();
        assert_eq!(writer, expected_bytes);

        let (read_value, _) = UnsignedVarInt::decode(&expected_bytes).unwrap();
        assert_eq!(read_value.get(), number);
    }
}

#[test]
fn test_5bytes_varint() {
    let invalid_bytes = vec![0x80, 0x80, 0x80, 0x80, 0x80];
    assert!(UnsignedVarInt::decode(&invalid_bytes).is_err());
}

#[test]
fn test_empty_string() {
    let null_string = NullableString(None);
    let mut buffer = Vec::new();
    null_string.encode(&mut buffer).unwrap();

    let (read_null, _) = NullableString::decode(&buffer).unwrap();
    assert_eq!(null_string, read_null);
}

#[test]
fn test_non_empty_string() {
    let test_string = NullableString(Some("hello".to_owned()));
    let mut buffer = Vec::new();
    test_string.encode(&mut buffer).unwrap();

    let (read_string, _) = NullableString::decode(&buffer).unwrap();
    assert_eq!(test_string, read_string);
}

#[test]
fn varint_boundaries() {
    assert_eq!(encoded(&UnsignedVarInt::new(0)), vec![0x00]);
    assert_eq!(encoded(&UnsignedVarInt::new(127)), vec![0x7F]);
    assert_eq!(encoded(&UnsignedVarInt::new(128)), vec![0x80, 0x01]);
    assert_eq!(
        encoded(&UnsignedVarInt::new(u32::MAX)),
        vec![0xFF, 0xFF, 0xFF, 0xFF, 0x0F]
    );
    assert_eq!(
        UnsignedVarInt::decode(&[0x80, 0x80, 0x80, 0x80, 0x80]),
        Err(CodecError::FormatError)
    );
    assert_eq!(
        UnsignedVarInt::decode(&[0xFF, 0xFF, 0xFF, 0xFF, 0xFF, 0x01]),
        Err(CodecError::FormatError)
    );
}

#[test]
fn varint_decode_stops_at_the_first_byte_without_high_bit() {
    assert_eq!(
        UnsignedVarInt::decode(&[0xAC, 0x02, 0xFF, 0xFF]),
        Ok((UnsignedVarInt(300), 2))
    );
    assert_eq!(
        UnsignedVarInt::decode(&[0xFF, 0xFF, 0xFF, 0xFF, 0x0F]),
        Ok((UnsignedVarInt(u32::MAX), 5))
    );
}

#[test]
fn varint_drops_bits_beyond_the_32nd() {
    assert_eq!(
        UnsignedVarInt::decode(&[0xFF, 0xFF, 0xFF, 0xFF, 0x7F]),
        Ok((UnsignedVarInt(u32::MAX), 5))
    );
    assert_eq!(
        UnsignedVarInt::decode(&[0x80, 0x80, 0x80, 0x80, 0x10]),
        Ok((UnsignedVarInt(0), 5))
    );
}

#[test]
fn varint_that_ends_early_is_incomplete() {
    assert_eq!(UnsignedVarInt::decode(&[]), Err(CodecError::IncompleteFrame));
    assert_eq!(UnsignedVarInt::decode(&[0x80]), Err(CodecError::IncompleteFrame));
    assert_eq!(
        UnsignedVarInt::decode(&[0x80, 0x80, 0x80, 0x80]),
        Err(CodecError::IncompleteFrame)
    );
}

#[test]
fn varint_round_trip_on_chosen_values() {
    for value in [0u32, 1, 127, 128, 16383, 16384, 268435455, 268435456, u32::MAX] {
        let bytes = encoded(&UnsignedVarInt(value));
        assert_eq!(
            UnsignedVarInt::decode(&bytes),
            Ok((UnsignedVarInt(value), bytes.len()))
        );
    }
}

#[test]
fn varint_from_a_length() {
    assert_eq!(UnsignedVarInt::try_from_usize(300), Some(UnsignedVarInt(300)));
    assert_eq!(
        UnsignedVarInt::try_from_usize(u32::MAX as usize),
        Some(UnsignedVarInt(u32::MAX))
    );
    if usize::BITS > 32 {
        assert_eq!(UnsignedVarInt::try_from_usize(u32::MAX as usize + 1), None);
    }
}

#[test]
fn fixed_width_integers_are_big_endian() {
    assert_eq!(encoded(&-1i16), vec![0xFF, 0xFF]);
    assert_eq!(encoded(&258i16), vec![0x01, 0x02]);
    assert_eq!(encoded(&i16::MIN), vec![0x80, 0x00]);
    assert_eq!(encoded(&0x01020304i32), vec![0x01, 0x02, 0x03, 0x04]);
    assert_eq!(encoded(&-2i32), vec![0xFF, 0xFF, 0xFF, 0xFE]);
    assert_eq!(i16::decode(&[0x01, 0x02, 0x03]), Ok((258, 2)));
    assert_eq!(i16::decode(&[0xFF, 0xFE]), Ok((-2, 2)));
    assert_eq!(i32::decode(&[0x00, 0x00, 0x01, 0x00, 0x09]), Ok((256, 4)));
    assert_eq!(i32::decode(&[0x80, 0x00, 0x00, 0x00]), Ok((i32::MIN, 4)));
    assert_eq!(i16::decode(&[0x01]), Err(CodecError::IncompleteFrame));
    assert_eq!(i32::decode(&[0x01, 0x02, 0x03]), Err(CodecError::IncompleteFrame));
}

#[test]
fn field_at_a_position() {
    let bytes = [0xAA, 0x00, 0x07, 0xBB];
    assert_eq!(decode_at::<i16>(&bytes, 1), Ok((7, 3)));
    assert_eq!(decode_at::<i16>(&bytes, 3), Err(CodecError::IncompleteFrame));
    assert_eq!(decode_at::<i16>(&bytes, 9), Err(CodecError::IncompleteFrame));
}

#[test]
fn nullable_string_wire_form() {
    assert_eq!(encoded(&NullableString::new(None)), vec![0xFF, 0xFF]);
    assert_eq!(
        encoded(&NullableString::new(Some("hi".to_owned()))),
        vec![0x00, 0x02, b'h', b'i']
    );
    assert_eq!(
        encoded(&NullableString::new(Some(String::new()))),
        vec![0x00, 0x00]
    );
}

#[test]
fn nullable_string_decode_cases() {
    assert_eq!(
        NullableString::decode(&[0xFF, 0xFF, 0x01]),
        Ok((NullableString(None), 2))
    );
    assert_eq!(
        NullableString::decode(&[0x00, 0x00]),
        Ok((NullableString(Some(String::new())), 2))
    );
    assert_eq!(
        NullableString::decode(&[0xFF, 0xFE]),
        Err(CodecError::FormatError)
    );
    assert_eq!(
        NullableString::decode(&[0x00, 0x05, b'a', b'b', b'c']),
        Err(CodecError::IncompleteFrame)
    );
    assert_eq!(
        NullableString::decode(&[0x00]),
        Err(CodecError::IncompleteFrame)
    );
    assert_eq!(
        NullableString::decode(&[0x00, 0x02, 0xC3, 0x28]),
        Err(CodecError::FormatError)
    );
    assert_eq!(
        NullableString::decode(&[0x00, 0x02, 0xC3, 0xA9, 0x00]),
        Ok((NullableString(Some("\u{e9}".to_owned())), 4))
    );
}

#[test]
fn nullable_string_too_long_is_an_overflow() {
    let longest = NullableString(Some("a".repeat(32767)));
    let mut out = Vec::new();
    assert_eq!(longest.encode(&mut out), Ok(()));
    assert_eq!(out.len(), 32769);
    assert_eq!(&out[..2], &[0x7F, 0xFF]);
    assert_eq!(NullableString::decode(&out), Ok((longest, 32769)));

    let too_long = NullableString(Some("a".repeat(32768)));
    let mut out = vec![9u8];
    assert_eq!(too_long.encode(&mut out), Err(CodecError::OverflowError));
    assert_eq!(out, vec![9u8]);
}

#[test]
fn compact_string_wire_form() {
    assert_eq!(encoded(&CompactString::new(None)), vec![0x00]);
    assert_eq!(encoded(&CompactString::new(Some(String::new()))), vec![0x01]);
    assert_eq!(
        encoded(&CompactString::new(Some("ab".to_owned()))),
        vec![0x03, b'a', b'b']
    );
    let long = CompactString::new(Some("x".repeat(200)));
    let bytes = encoded(&long);
    assert_eq!(&bytes[..2], &[0xC9, 0x01]);
    assert_eq!(bytes.len(), 202);
    assert_eq!(CompactString::decode(&bytes), Ok((long, 202)));
}

#[test]
fn compact_string_decode_cases() {
    assert_eq!(CompactString::decode(&[0x00, 0x41]), Ok((CompactString(None), 1)));
    assert_eq!(
        CompactString::decode(&[0x01, 0x41]),
        Ok((CompactString(Some(String::new())), 1))
    );
    assert_eq!(
        CompactString::decode(&[0x03, b'o', b'k', b'!']),
        Ok((CompactString(Some("ok".to_owned())), 3))
    );
    assert_eq!(
        CompactString::decode(&[0x04, b'o', b'k']),
        Err(CodecError::IncompleteFrame)
    );
    assert_eq!(CompactString::decode(&[]), Err(CodecError::IncompleteFrame));
    assert_eq!(
        CompactString::decode(&[0x02, 0xFF]),
        Err(CodecError::FormatError)
    );
    assert_eq!(
        CompactString::decode(&[0x80, 0x80, 0x80, 0x80, 0x80]),
        Err(CodecError::FormatError)
    );
}

#[test]
fn compact_array_wire_form() {
    let empty: CompactArray<UnsignedVarInt> = CompactArray::new(Vec::new());
    assert_eq!(encoded(&empty), vec![0x00]);
    let absent: CompactArray<UnsignedVarInt> = CompactArray::from_option(None);
    assert_eq!(encoded(&absent), vec![0x00]);

    let two = CompactArray::new(vec![UnsignedVarInt(300), UnsignedVarInt(5)]);
    assert_eq!(encoded(&two), vec![0x03, 0xAC, 0x02, 0x05]);

    let strings = CompactArray::from_option(Some(vec![
        CompactString(Some("a".to_owned())),
        CompactString(None),
    ]));
    assert_eq!(encoded(&strings), vec![0x03, 0x02, b'a', 0x00]);
}

#[test]
fn compact_array_decode_cases() {
    assert_eq!(
        CompactArray::<UnsignedVarInt>::decode(&[0x00, 0x07]),
        Ok((CompactArray::new(Vec::new()), 1))
    );
    assert_eq!(
        CompactArray::<UnsignedVarInt>::decode(&[0x01, 0x07]),
        Ok((CompactArray::new(Vec::new()), 1))
    );
    assert_eq!(
        CompactArray::<UnsignedVarInt>::decode(&[0x03, 0xAC, 0x02, 0x05, 0x09]),
        Ok((
            CompactArray::new(vec![UnsignedVarInt(300), UnsignedVarInt(5)]),
            4
        ))
    );
    assert_eq!(
        CompactArray::<UnsignedVarInt>::decode(&[0x03, 0xAC, 0x02]),
        Err(CodecError::IncompleteFrame)
    );
    assert_eq!(
        CompactArray::<NullableString>::decode(&[0x02, 0xFF, 0xFE]),
        Err(CodecError::FormatError)
    );
    assert_eq!(
        CompactArray::<TagBuffer>::decode(&[0x03, 0x00, 0x02]),
        Err(CodecError::UnsupportedTagError)
    );
}

#[test]
fn compact_array_round_trip_keeps_the_order() {
    let items = CompactArray::new(vec![
        NullableString(Some("one".to_owned())),
        NullableString(None),
        NullableString(Some("three".to_owned())),
    ]);
    let bytes = encoded(&items);
    assert_eq!(bytes[0], 4);
    assert_eq!(
        CompactArray::<NullableString>::decode(&bytes),
        Ok((items, bytes.len()))
    );
}

#[test]
fn compact_array_with_an_element_too_long_is_an_overflow() {
    let items = CompactArray::new(vec![
        NullableString(Some("ok".to_owned())),
        NullableString(Some("a".repeat(40000))),
    ]);
    let mut out = vec![1u8, 2, 3];
    assert_eq!(items.encode(&mut out), Err(CodecError::OverflowError));
    assert_eq!(out, vec![1u8, 2, 3]);
}

#[test]
fn tag_buffer_is_empty_or_refused() {
    assert_eq!(encoded(&TagBuffer), vec![0x00]);
    assert_eq!(TagBuffer::decode(&[0x00, 0x05]), Ok((TagBuffer, 1)));
    assert_eq!(
        TagBuffer::decode(&[0x01, 0x05]),
        Err(CodecError::UnsupportedTagError)
    );
    assert_eq!(TagBuffer::decode(&[]), Err(CodecError::IncompleteFrame));
}

#[test]
fn text_is_checked_utf8() {
    assert_eq!(text_from_bytes(b"hello"), Ok("hello".to_owned()));
    assert_eq!(text_from_bytes(&[]), Ok(String::new()));
    assert_eq!(
        text_from_bytes(&[0xE2, 0x82, 0xAC]),
        Ok("\u{20ac}".to_owned())
    );
    assert_eq!(text_from_bytes(&[0xE2, 0x82]), Err(CodecError::FormatError));
    assert_eq!(text_from_bytes(&[0xC0, 0x80]), Err(CodecError::FormatError));
    assert_eq!(
        text_from_bytes(&[0xED, 0xA0, 0x80]),
        Err(CodecError::FormatError)
    );
    assert_eq!(
        text_from_bytes(&[0xF4, 0x90, 0x80, 0x80]),
        Err(CodecError::FormatError)
    );
    assert_eq!(
        text_from_bytes(&[0xF4, 0x8F, 0xBF, 0xBF]),
        Ok("\u{10ffff}".to_owned())
    );
    assert_eq!(text_from_bytes(&[0x80]), Err(CodecError::FormatError));
}

#[test]
fn values_from_what_they_hold() {
    assert_eq!(UnsignedVarInt::from(5), UnsignedVarInt(5));
    assert_eq!(NullableString::from(None), NullableString(None));
    assert_eq!(
        NullableString::from(Some("a".to_owned())).get(),
        &Some("a".to_owned())
    );
    assert_eq!(
        CompactString::from(Some("b".to_owned())).get(),
        &Some("b".to_owned())
    );
    assert_eq!(
        CompactArray::from(vec![UnsignedVarInt(1)]),
        CompactArray::new(vec![UnsignedVarInt(1)])
    );
}

#[test]
fn bytes_are_appended_in_order() {
    let mut out = vec![1u8, 2];
    append_bytes(&mut out, &[3, 4, 5]);
    assert_eq!(out, vec![1, 2, 3, 4, 5]);
}

#[test]
fn errors_are_fatal_but_for_an_incomplete_frame() {
    assert!(!CodecError::IncompleteFrame.fatal());
    assert!(CodecError::FormatError.fatal());
    assert!(CodecError::TrailingBytesError.fatal());
    assert!(CodecError::OverflowError.fatal());
    assert!(CodecError::UnsupportedTagError.fatal());
    assert_eq!(CodecError::IncompleteFrame.describe(), "incomplete frame");
    assert_eq!(CodecError::FormatError.describe(), "format error");
    assert_ne!(
        CodecError::TrailingBytesError.describe(),
        CodecError::OverflowError.describe()
    );
}
