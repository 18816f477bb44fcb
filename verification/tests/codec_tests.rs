use yasna::basics::{PrintableString, SetOf, UtcTime};
use yasna::models::{BigIntBytes, BitString, ObjectIdentifier, TaggedDerValue};
use yasna::{
    construct_der, decode_ber, decode_der, encode_der, parse_ber, parse_der, ASN1Error, Tag,
};

#[test]
fn test_decode_der_integer_value() {
    let asn: i64 = decode_der(&[2, 3, 0, 255, 255]).unwrap();
    assert_eq!(asn, 65535);
}

#[test]
fn test_encode_der_tuple() {
    let der = encode_der(&(10i64, true));
    assert_eq!(der, vec![48, 6, 2, 1, 10, 1, 1, 255]);
}

#[test]
fn test_decode_der_tuple() {
    let asn: (i64, bool) = decode_der(&[48, 6, 2, 1, 10, 1, 1, 255]).unwrap();
    assert_eq!(asn, (10, true));
}

#[test]
fn test_constructed_octetstring_modes() {
    let data: &[u8] = &[36, 128, 4, 2, 12, 34, 0, 0];
    let value = parse_ber(data, |reader| reader.read_bytes()).unwrap();
    assert_eq!(value, vec![0x0C, 0x22]);
    assert_eq!(
        parse_der(data, |reader| reader.read_bytes()).unwrap_err(),
        ASN1Error::Invalid
    );
}

#[test]
fn test_set_elements_sorted() {
    let data = construct_der(|writer| {
        writer.write_set(|writer| {
            writer.next().write_tagged_implicit(Tag::context(28), |writer| writer.write_i64(456789));
            writer.next().write_tagged_implicit(Tag::context(27), |writer| writer.write_i64(456790));
        })
    });
    assert_eq!(
        data,
        vec![0x31, 0x0A, 0x9B, 0x03, 0x06, 0xF8, 0x56, 0x9C, 0x03, 0x06, 0xF8, 0x55]
    );
}

#[test]
fn test_boolean_strictness_by_mode() {
    assert_eq!(decode_der::<bool>(&[1, 1, 1]).unwrap_err(), ASN1Error::Invalid);
    assert_eq!(decode_ber::<bool>(&[1, 1, 1]).unwrap(), true);
}

#[test]
fn test_i64_round_trip_through_bytes() {
    for &v in
        [i64::MIN, -65537, -129, -1, 0, 1, 127, 128, 65535, i64::MAX].iter()
    {
        let der = encode_der(&v);
        let back: i64 = decode_der(&der).unwrap();
        assert_eq!(back, v);
    }
}

#[test]
fn test_u64_round_trip_through_bytes() {
    for &v in [0u64, 127, 128, 255, 65536, u64::MAX - 1, u64::MAX].iter() {
        let der = encode_der(&v);
        let back: u64 = decode_der(&der).unwrap();
        assert_eq!(back, v);
    }
}

#[test]
fn test_u64_top_value_bytes() {
    let der = encode_der(&u64::MAX);
    assert_eq!(der, vec![2, 9, 0, 255, 255, 255, 255, 255, 255, 255, 255]);
    assert_eq!(
        decode_der::<i64>(&der).unwrap_err(),
        ASN1Error::IntegerOverflow
    );
}

#[test]
fn test_integer_width_overflow() {
    assert_eq!(
        decode_der::<i64>(&[2, 9, 1, 0, 0, 0, 0, 0, 0, 0, 0]).unwrap_err(),
        ASN1Error::IntegerOverflow
    );
    assert_eq!(
        decode_der::<u16>(&[2, 3, 1, 0, 0]).unwrap_err(),
        ASN1Error::IntegerOverflow
    );
    assert_eq!(
        decode_der::<u64>(&[2, 1, 255]).unwrap_err(),
        ASN1Error::IntegerOverflow
    );
}

#[test]
fn test_length_reserved_octet() {
    assert_eq!(
        parse_der(&[4, 255, 0], |reader| reader.read_bytes()).unwrap_err(),
        ASN1Error::Invalid
    );
    assert_eq!(
        parse_ber(&[4, 255, 0], |reader| reader.read_bytes()).unwrap_err(),
        ASN1Error::Invalid
    );
}

#[test]
fn test_length_minimality_in_der() {
    // A short length written in long form is refused in DER but
    // accepted in BER.
    let mut data = vec![4u8, 0x81, 5];
    data.extend_from_slice(&[9, 9, 9, 9, 9]);
    assert_eq!(
        parse_der(&data, |reader| reader.read_bytes()).unwrap_err(),
        ASN1Error::Invalid
    );
    assert_eq!(parse_ber(&data, |reader| reader.read_bytes()).unwrap(), vec![9, 9, 9, 9, 9]);

    // A long-form length with a leading zero octet is refused in DER.
    let mut padded = vec![4u8, 0x82, 0, 0x80];
    padded.extend_from_slice(&vec![7; 128]);
    assert_eq!(
        parse_der(&padded, |reader| reader.read_bytes()).unwrap_err(),
        ASN1Error::Invalid
    );
    assert_eq!(parse_ber(&padded, |reader| reader.read_bytes()).unwrap(), vec![7; 128]);

    // The minimal long form of the same length is accepted in DER.
    let mut minimal = vec![4u8, 0x81, 0x80];
    minimal.extend_from_slice(&vec![7; 128]);
    assert_eq!(parse_der(&minimal, |reader| reader.read_bytes()).unwrap(), vec![7; 128]);
}

#[test]
fn test_length_accumulator_overflow() {
    let data: &[u8] = &[4, 0x89, 1, 1, 1, 1, 1, 1, 1, 1, 1];
    assert_eq!(
        parse_ber(data, |reader| reader.read_bytes()).unwrap_err(),
        ASN1Error::IntegerOverflow
    );
}

fn deep_tagged(reader: &mut yasna::BERReader, levels: usize) -> yasna::ASN1Result<bool> {
    if levels == 0 {
        reader.read_bool()
    } else {
        reader.parse_tagged(Tag::context(3), yasna::TagType::Explicit, |reader| {
            deep_tagged(reader, levels - 1)
        })
    }
}

#[test]
fn test_recursion_depth_guard() {
    // 120 nested explicit tags with indefinite lengths: the depth
    // limit trips before the input runs out.
    let mut data: Vec<u8> = Vec::new();
    for _ in 0..120 {
        data.push(0xA3);
        data.push(0x80);
    }
    assert_eq!(
        parse_ber(&data, |reader| deep_tagged(reader, 120)).unwrap_err(),
        ASN1Error::StackOverflow
    );
    // At a depth the limit admits, the same nesting parses.
    let mut ok_data: Vec<u8> = vec![1, 1, 255];
    for _ in 0..50 {
        let mut wrapped: Vec<u8> = vec![0xA3, ok_data.len() as u8];
        wrapped.extend_from_slice(&ok_data);
        ok_data = wrapped;
    }
    assert_eq!(parse_ber(&ok_data, |reader| deep_tagged(reader, 50)).unwrap(), true);
}

#[test]
fn test_oid_round_trip() {
    let oid = ObjectIdentifier::new(vec![1, 2, 840, 113549]);
    let der = encode_der(&oid);
    assert_eq!(der, vec![6, 6, 42, 134, 72, 134, 247, 13]);
    let back: ObjectIdentifier = decode_der(&der).unwrap();
    assert_eq!(back, oid);
}

#[test]
fn test_oid_rejections() {
    // Empty content.
    assert_eq!(decode_der::<ObjectIdentifier>(&[6, 0]).unwrap_err(), ASN1Error::Invalid);
    // Trailing continuation octet.
    assert_eq!(
        decode_der::<ObjectIdentifier>(&[6, 2, 42, 128]).unwrap_err(),
        ASN1Error::Invalid
    );
    // A sub-identifier starting with the padding octet 0x80.
    assert_eq!(
        decode_der::<ObjectIdentifier>(&[6, 3, 42, 128, 1]).unwrap_err(),
        ASN1Error::Invalid
    );
    // Sub-identifier overflow beyond u64.
    assert_eq!(
        decode_der::<ObjectIdentifier>(&[6, 11, 42, 255, 255, 255, 255, 255, 255, 255, 255, 255, 127])
            .unwrap_err(),
        ASN1Error::IntegerOverflow
    );
}

#[test]
fn test_set_of_order_checked_when_decoding() {
    // Ascending element encodings decode in DER.
    let ascending: &[u8] = &[0x31, 6, 2, 1, 1, 2, 1, 2];
    let value = parse_der(ascending, |reader| reader.parse::<SetOf<i64>>()).unwrap();
    assert_eq!(value.vec, vec![1, 2]);
    // Descending element encodings are refused in DER but pass in BER.
    let descending: &[u8] = &[0x31, 6, 2, 1, 2, 2, 1, 1];
    assert_eq!(
        parse_der(descending, |reader| reader.parse::<SetOf<i64>>()).unwrap_err(),
        ASN1Error::Invalid
    );
    let value = parse_ber(descending, |reader| reader.parse::<SetOf<i64>>()).unwrap();
    assert_eq!(value.vec, vec![2, 1]);
}

#[test]
fn test_sequence_of_round_trip() {
    let values: Vec<i64> = vec![1, -300, 65535];
    let der = construct_der(|writer| {
        writer.write_sequence(|writer| {
            for &v in values.iter() {
                writer.next().write_i64(v);
            }
        })
    });
    let back: Vec<i64> = parse_der(&der, |reader| reader.parse::<Vec<i64>>()).unwrap();
    assert_eq!(back, values);
}

#[test]
fn test_octetstring_decodable() {
    let asn: Vec<u8> = decode_ber(&[0x24, 0x80, 0x04, 0x02, 0x0C, 0x22, 0x00, 0x00]).unwrap();
    assert_eq!(asn, vec![0x0C, 0x22]);
    assert_eq!(
        decode_der::<Vec<u8>>(&[0x24, 0x80, 0x04, 0x02, 0x0C, 0x22, 0x00, 0x00]).unwrap_err(),
        ASN1Error::Invalid
    );
    let plain: Vec<u8> = decode_der(&[4, 3, 9, 8, 7]).unwrap();
    assert_eq!(plain, vec![9, 8, 7]);
    assert_eq!(encode_der(&(5i64, vec![9u8, 8, 7])), vec![48, 8, 2, 1, 5, 4, 3, 9, 8, 7]);
}

#[test]
fn test_printable_string_charset() {
    let value = parse_der(&[19, 2, 65, 66], |reader| reader.read_printable_string()).unwrap();
    assert_eq!(value.as_bytes(), b"AB");
    assert_eq!(
        parse_der(&[19, 1, 1], |reader| reader.read_printable_string()).unwrap_err(),
        ASN1Error::Invalid
    );
    assert!(PrintableString::from_bytes(b"Test1 = 2?".to_vec()).is_some());
    assert!(PrintableString::from_bytes(b"not@ok".to_vec()).is_none());
}

#[test]
fn test_utctime_keeps_bytes() {
    let data: &[u8] = &[23, 13, 56, 50, 48, 49, 48, 50, 49, 50, 48, 48, 48, 48, 90];
    let value = parse_der(data, |reader| reader.read_utctime()).unwrap();
    assert_eq!(value, UtcTime::new(b"820102120000Z".to_vec()));
}

#[test]
fn test_tagged_der_value_round_trip() {
    let value: TaggedDerValue = decode_ber(&[4, 3, 1, 2, 3]).unwrap();
    assert_eq!(value.value(), &[1, 2, 3]);
    assert_eq!(encode_der(&value), vec![4, 3, 1, 2, 3]);

    let big: TaggedDerValue = decode_der(&[0x1F, 0x1F, 1, 9]).unwrap();
    assert_eq!(big.tag().tag_number, 31);
    assert_eq!(encode_der(&big), vec![0x1F, 0x1F, 1, 9]);
}

#[test]
fn test_identifier_long_form_rules() {
    // A long form carrying a number below 31 is refused.
    assert_eq!(decode_der::<TaggedDerValue>(&[0x1F, 30, 0]).unwrap_err(), ASN1Error::Invalid);
    // A long form starting with the padding octet 0x80 is refused.
    assert_eq!(
        decode_der::<TaggedDerValue>(&[0x1F, 0x80, 0x1F, 0]).unwrap_err(),
        ASN1Error::Invalid
    );
}

#[test]
fn test_bitstring_model() {
    let bs = BitString::from_bytes(4, vec![0xAB, 0xFF]);
    assert_eq!(bs.unused_bits(), 4);
    assert_eq!(bs.bytes(), &[0xAB, 0xF0]);
    assert_eq!(bs.len(), 12);
    assert_eq!(bs.full_bytes(), &[0xAB]);
    let mut filled = bs.clone();
    filled.fill_unused_bits();
    assert_eq!(filled.len(), 16);
    let mut trimmed = bs.clone();
    trimmed.remove_trailing_bits();
    assert_eq!(trimmed.bytes(), &[0xAB]);
}

#[test]
fn test_bitstring_read_and_write() {
    let value = parse_der(&[3, 3, 4, 0xAB, 0xF0], |reader| {
        reader.parse::<yasna::basics::BitString>()
    })
    .unwrap();
    assert_eq!(value.unused_bits, 4);
    assert_eq!(value.buf, vec![0xAB, 0xF0]);
    // An unused-bit count above 7 is refused.
    assert_eq!(
        parse_der(&[3, 2, 8, 0xAB], |reader| reader.parse::<yasna::basics::BitString>())
            .unwrap_err(),
        ASN1Error::Invalid
    );
}

#[test]
fn test_bitstring_push() {
    let mut bs = yasna::basics::BitString::new();
    bs.push(true);
    bs.push(false);
    bs.push(true);
    assert_eq!(bs.buf, vec![0xA0]);
    assert_eq!(bs.unused_bits, 5);
}

#[test]
fn test_extra_bytes_refused() {
    assert_eq!(decode_der::<bool>(&[1, 1, 255, 0]).unwrap_err(), ASN1Error::Extra);
}

#[test]
fn test_explicit_tag_round_trip() {
    let data = construct_der(|writer| {
        writer.write_tagged(Tag::application(2), |writer| writer.write_bool(false))
    });
    assert_eq!(data, vec![0x62, 3, 1, 1, 0]);
    let inner = parse_der(&data, |reader| {
        reader.parse_tagged(Tag::application(2), yasna::TagType::Explicit, |reader| {
            reader.read_bool()
        })
    })
    .unwrap();
    assert_eq!(inner, false);
}

#[test]
fn test_optional_and_default() {
    let value = parse_der(&[48, 3, 2, 1, 5], |reader| {
        reader.parse_sequence(|reader| {
            let first = reader.parse_optional(|reader| reader.read_bool())?;
            let second = reader.parse_default(7i64, |reader| reader.read_i64())?;
            Ok((first, second))
        })
    })
    .unwrap();
    assert_eq!(value, (None, 5));

    let value = parse_der(&[48, 0], |reader| {
        reader.parse_sequence(|reader| {
            let first = reader.parse_optional(|reader| reader.read_bool())?;
            let second = reader.parse_default(7i64, |reader| reader.read_i64())?;
            Ok((first, second))
        })
    })
    .unwrap();
    assert_eq!(value, (None, 7));

    // In DER a value equal to the default must be omitted.
    assert_eq!(
        parse_der(&[48, 3, 2, 1, 7], |reader| {
            reader.parse_sequence(|reader| {
                reader.parse_default(7i64, |reader| reader.read_i64())
            })
        })
        .unwrap_err(),
        ASN1Error::Invalid
    );
}

#[test]
fn test_sized_integer_reads() {
    assert_eq!(parse_der(&[2, 2, 4, 0], |reader| reader.read_i32()).unwrap(), 1024);
    assert_eq!(parse_der(&[2, 1, 156], |reader| reader.read_i16()).unwrap(), -100);
    assert_eq!(parse_der(&[2, 3, 0, 255, 255], |reader| reader.read_u32()).unwrap(), 65535);
    assert_eq!(parse_der(&[2, 3, 0, 255, 255], |reader| reader.read_u16()).unwrap(), 65535);
    assert_eq!(
        parse_der(&[2, 2, 255, 0], |reader| reader.read_u32()).unwrap_err(),
        ASN1Error::IntegerOverflow
    );
}

#[test]
fn test_cer_primitive_chunk_limit() {
    let mut small = vec![4u8, 0x82, 0x03, 0xE8];
    small.extend_from_slice(&vec![5; 1000]);
    let value = yasna::reader::BERReader::from_buf(&small, yasna::BERMode::Cer, |reader| {
        reader.read_bytes()
    })
    .unwrap();
    assert_eq!(value.len(), 1000);

    let mut big = vec![4u8, 0x82, 0x03, 0xE9];
    big.extend_from_slice(&vec![5; 1001]);
    assert_eq!(
        yasna::reader::BERReader::from_buf(&big, yasna::BERMode::Cer, |reader| reader
            .read_bytes())
        .unwrap_err(),
        ASN1Error::Invalid
    );
}

#[test]
fn test_cer_definite_constructed_refused() {
    // In CER a definite length is only allowed on a primitive value.
    assert_eq!(
        yasna::reader::BERReader::from_buf(&[49, 3, 2, 1, 1], yasna::BERMode::Cer, |reader| {
            reader.parse::<SetOf<i64>>()
        })
        .unwrap_err(),
        ASN1Error::Invalid
    );
}

#[test]
fn test_capture_consumed_bytes() {
    let data: &[u8] = &[2, 1, 5, 1, 1, 0];
    let (value, captured) = parse_der(data, |reader| {
        let first = reader.parse_with_buffer(|reader| reader.read_i64())?;
        let second = reader.read_bool()?;
        Ok((first.0, first.1, second))
    })
    .map(|(v, c, b)| ((v, b), c))
    .unwrap();
    assert_eq!(value, (5, false));
    assert_eq!(captured, &[2, 1, 5]);
}

#[test]
fn test_remaining_buffer_view() {
    let data: &[u8] = &[2, 1, 5, 9, 9];
    let err = parse_der(data, |reader| {
        let v = reader.read_i64()?;
        assert_eq!(reader.remaining_buffer(), &[9, 9]);
        Ok(v)
    });
    // The trailing bytes are still refused at the end.
    assert_eq!(err.unwrap_err(), ASN1Error::Extra);
}

#[test]
fn test_bitstring_extend() {
    let mut a = BitString::from_bytes(0, vec![0xAA]);
    let b = BitString::from_bytes(4, vec![0xB0]);
    a.extend_from_bitstring(&b);
    assert_eq!(a.unused_bits(), 4);
    assert_eq!(a.bytes(), &[0xAA, 0xB0]);

    let mut c = BitString::from_bytes(4, vec![0xA0]);
    c.extend_from_bytes(4, &[0xB0]);
    assert_eq!(c.unused_bits(), 0);
    assert_eq!(c.bytes(), &[0xAB]);

    let mut d = BitString::from_bytes(2, vec![0xA4]);
    d.extend_from_bytes(4, &[0xB0]);
    assert_eq!(d.unused_bits(), 6);
    assert_eq!(d.bytes(), &[0xA6, 0xC0]);
}

#[test]
fn test_write_bitstring() {
    let data = construct_der(|writer| {
        writer.write_bitstring(&BitString::from_bytes(4, vec![0xAB, 0xF0]))
    });
    assert_eq!(data, vec![3, 3, 4, 0xAB, 0xF0]);
}

#[test]
fn test_write_oid_through_writer() {
    let data = construct_der(|writer| {
        writer.write_oid(&ObjectIdentifier::new(vec![2, 999, 3]))
    });
    assert_eq!(data, vec![6, 3, 136, 55, 3]);
}

#[test]
fn test_tag_constructors() {
    assert_eq!(Tag::application(5).tag_number, 5);
    assert_eq!(Tag::context(7).tag_number, 7);
    assert_eq!(Tag::private(9).tag_number, 9);
    let mut ids = Vec::new();
    for &id in ObjectIdentifier::new(vec![1, 2, 3]).iter() {
        ids.push(id);
    }
    assert_eq!(ids, vec![1, 2, 3]);
}

#[test]
fn test_tagged_der_pass_through_in_sequence() {
    let data: &[u8] = &[48, 8, 2, 1, 1, 163, 3, 1, 1, 255];
    let (n, raw): (i64, TaggedDerValue) = decode_der(data).unwrap();
    assert_eq!(n, 1);
    assert_eq!(raw.tag(), Tag::context(3));
    assert_eq!(raw.value(), &[1, 1, 255]);
    let rebuilt = encode_der(&(n, raw));
    assert_eq!(rebuilt, data);
}

#[test]
fn test_bigint_round_trip() {
    // A 17-octet value survives the round trip bit for bit.
    let content = vec![3u8, 160, 201, 32, 117, 192, 219, 243, 184, 172, 188, 95, 150, 206, 63, 10, 210];
    let big = BigIntBytes::from_content(content.clone()).unwrap();
    let der = encode_der(&big);
    let back: BigIntBytes = decode_der(&der).unwrap();
    assert_eq!(back.as_bytes(), &content[..]);
    // Minimality applies at any length.
    assert_eq!(
        decode_der::<BigIntBytes>(&[2, 10, 0, 3, 160, 201, 32, 117, 192, 219, 243, 184]).unwrap_err(),
        ASN1Error::Invalid
    );
    // The nonnegative variant refuses a negative value.
    let neg = BigIntBytes::from_content(vec![252, 95, 54]).unwrap();
    assert!(!neg.is_nonnegative());
    assert_eq!(
        parse_der(&encode_der(&neg), |reader| reader.read_biguint()).unwrap_err(),
        ASN1Error::IntegerOverflow
    );
    // Rejected content never builds a value.
    assert!(BigIntBytes::from_content(vec![]).is_none());
    assert!(BigIntBytes::from_content(vec![0, 5]).is_none());
}

#[test]
fn test_utf8string_roundtrip() {
    // "¡Hola!" : two-byte A1 for the inverted mark, rest ASCII.
    let text: Vec<u8> = vec![0xC2, 0xA1, 0x48, 0x6F, 0x6C, 0x61, 0x21];
    let s = yasna::models::Utf8String::from_bytes(text.clone()).unwrap();
    let der = yasna::encode_der(&s);
    assert_eq!(der, vec![12, 7, 0xC2, 0xA1, 0x48, 0x6F, 0x6C, 0x61, 0x21]);
    let back: yasna::models::Utf8String = yasna::parse_der(&der, |r| r.read_utf8string()).unwrap();
    assert_eq!(back.as_bytes(), &text[..]);
}

#[test]
fn test_utf8string_four_byte_char() {
    // U+1F600 encoded as F0 9F 98 80.
    let text: Vec<u8> = vec![0xF0, 0x9F, 0x98, 0x80];
    let s = yasna::models::Utf8String::from_bytes(text).unwrap();
    let der = yasna::encode_der(&s);
    assert_eq!(der, vec![12, 4, 0xF0, 0x9F, 0x98, 0x80]);
    assert!(yasna::parse_der(&der, |r| r.read_utf8string()).is_ok());
}

#[test]
fn test_utf8string_rejects_bad_bytes() {
    // A lone continuation octet.
    assert!(yasna::models::Utf8String::from_bytes(vec![0x80]).is_none());
    // An overlong two-byte encoding of NUL.
    assert!(yasna::models::Utf8String::from_bytes(vec![0xC0, 0x80]).is_none());
    // A surrogate code point D800.
    assert!(yasna::models::Utf8String::from_bytes(vec![0xED, 0xA0, 0x80]).is_none());
    // A truncated four-byte sequence.
    assert!(yasna::models::Utf8String::from_bytes(vec![0xF0, 0x9F, 0x98]).is_none());
    // The decoder refuses the same octets with Invalid.
    let der = vec![12, 1, 0xFF];
    assert_eq!(
        yasna::parse_der(&der, |r| r.read_utf8string()),
        Err(yasna::ASN1Error::Invalid)
    );
}
