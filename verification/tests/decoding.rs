use bytewire::{decode, encode, Context, Endianness, Error, Reader};

#[test]
fn roundtrip_unsigned_scalars() {
    for e in [Endianness::LittleEndian, Endianness::BigEndian] {
        assert_eq!(decode::<u8>(&encode(&0xABu8, e), e), Ok(0xAB));
        assert_eq!(decode::<u16>(&encode(&0xBEEFu16, e), e), Ok(0xBEEF));
        assert_eq!(decode::<u32>(&encode(&0xDEAD_BEEFu32, e), e), Ok(0xDEAD_BEEF));
        assert_eq!(decode::<u64>(&encode(&u64::MAX, e), e), Ok(u64::MAX));
        assert_eq!(decode::<u64>(&encode(&1234u64, e), e), Ok(1234));
    }
}

#[test]
fn roundtrip_signed_scalars() {
    for e in [Endianness::LittleEndian, Endianness::BigEndian] {
        for v in [i8::MIN, -1i8, 0, 1, i8::MAX] {
            assert_eq!(decode::<i8>(&encode(&v, e), e), Ok(v));
        }
        for v in [i16::MIN, -1234i16, 0, 1234, i16::MAX] {
            assert_eq!(decode::<i16>(&encode(&v, e), e), Ok(v));
        }
        for v in [i32::MIN, -7i32, 0, 7, i32::MAX] {
            assert_eq!(decode::<i32>(&encode(&v, e), e), Ok(v));
        }
        for v in [i64::MIN, -7i64, 0, 7, i64::MAX] {
            assert_eq!(decode::<i64>(&encode(&v, e), e), Ok(v));
        }
    }
}

#[test]
fn roundtrip_bool_and_unit_and_marker() {
    for e in [Endianness::LittleEndian, Endianness::BigEndian] {
        assert_eq!(decode::<bool>(&encode(&true, e), e), Ok(true));
        assert_eq!(decode::<bool>(&encode(&false, e), e), Ok(false));
        assert_eq!(decode::<()>(&encode(&(), e), e), Ok(()));
        assert_eq!(
            decode::<Endianness>(&encode(&Endianness::BigEndian, e), e),
            Ok(Endianness::BigEndian)
        );
        assert_eq!(
            decode::<Endianness>(&encode(&Endianness::LittleEndian, e), e),
            Ok(Endianness::LittleEndian)
        );
    }
}

#[test]
fn roundtrip_text() {
    for e in [Endianness::LittleEndian, Endianness::BigEndian] {
        for s in ["", "Hi", "héllo wörld", "✓ unicode ≠ ascii"] {
            let owned = String::from(s);
            assert_eq!(decode::<String>(&encode(&owned, e), e), Ok(owned.clone()));
        }
    }
}

#[test]
fn roundtrip_sequences() {
    for e in [Endianness::LittleEndian, Endianness::BigEndian] {
        let bytes: Vec<u8> = vec![1, 2, 3, 4, 5];
        assert_eq!(decode::<Vec<u8>>(&encode(&bytes, e), e), Ok(bytes.clone()));
        let words: Vec<u16> = vec![1000, 2000, 65535];
        assert_eq!(decode::<Vec<u16>>(&encode(&words, e), e), Ok(words.clone()));
        let empty: Vec<u64> = Vec::new();
        assert_eq!(decode::<Vec<u64>>(&encode(&empty, e), e), Ok(empty.clone()));
        let nested: Vec<Vec<u8>> = vec![vec![], vec![9], vec![8, 7]];
        assert_eq!(decode::<Vec<Vec<u8>>>(&encode(&nested, e), e), Ok(nested.clone()));
        let texts: Vec<String> = vec![String::from("a"), String::from("")];
        assert_eq!(decode::<Vec<String>>(&encode(&texts, e), e), Ok(texts.clone()));
    }
}

#[test]
fn roundtrip_options_and_tuples() {
    for e in [Endianness::LittleEndian, Endianness::BigEndian] {
        let none: Option<u8> = None;
        assert_eq!(decode::<Option<u8>>(&encode(&none, e), e), Ok(None));
        let some: Option<u32> = Some(0xCAFE);
        assert_eq!(decode::<Option<u32>>(&encode(&some, e), e), Ok(Some(0xCAFE)));
        let pair = (5u8, 0xABCDu16);
        assert_eq!(decode::<(u8, u16)>(&encode(&pair, e), e), Ok(pair));
        let single = (0xFFu8,);
        assert_eq!(decode::<(u8,)>(&encode(&single, e), e), Ok(single));
        let nested: Option<Vec<u8>> = Some(vec![1, 2]);
        assert_eq!(decode::<Option<Vec<u8>>>(&encode(&nested, e), e), Ok(nested.clone()));
    }
}

#[test]
fn truncated_scalar_fails() {
    assert_eq!(decode::<u32>(&[1, 2, 3], Endianness::LittleEndian), Err(Error::Truncated));
    assert_eq!(decode::<u64>(&[], Endianness::BigEndian), Err(Error::Truncated));
    assert_eq!(decode::<u8>(&[], Endianness::LittleEndian), Err(Error::Truncated));
}

#[test]
fn truncated_sequence_fails() {
    // declares five elements, holds two
    let buf: Vec<u8> = vec![5, 0, 0, 0, 1, 2];
    assert_eq!(decode::<Vec<u8>>(&buf, Endianness::LittleEndian), Err(Error::Truncated));
    // prefix itself cut short
    assert_eq!(decode::<Vec<u8>>(&[7, 0], Endianness::LittleEndian), Err(Error::Truncated));
}

#[test]
fn truncated_text_fails() {
    let buf: Vec<u8> = vec![4, 0, 0, 0, b'H', b'i'];
    assert_eq!(decode::<String>(&buf, Endianness::LittleEndian), Err(Error::Truncated));
}

#[test]
fn truncated_option_payload_fails() {
    let buf: Vec<u8> = vec![1];
    assert_eq!(decode::<Option<u16>>(&buf, Endianness::LittleEndian), Err(Error::Truncated));
}

#[test]
fn invalid_option_tag_fails() {
    assert_eq!(
        decode::<Option<u8>>(&[2, 5], Endianness::LittleEndian),
        Err(Error::InvalidDiscriminant)
    );
    assert_eq!(
        decode::<Option<u8>>(&[255], Endianness::BigEndian),
        Err(Error::InvalidDiscriminant)
    );
}

#[test]
fn invalid_bool_tag_fails() {
    assert_eq!(decode::<bool>(&[7], Endianness::LittleEndian), Err(Error::InvalidDiscriminant));
}

#[test]
fn invalid_endianness_tag_fails() {
    assert_eq!(
        decode::<Endianness>(&[9], Endianness::LittleEndian),
        Err(Error::InvalidDiscriminant)
    );
}

#[test]
fn invalid_utf8_fails() {
    let buf: Vec<u8> = vec![2, 0, 0, 0, 0xFF, 0xFE];
    assert_eq!(decode::<String>(&buf, Endianness::LittleEndian), Err(Error::InvalidUtf8));
}

#[test]
fn decode_reads_exactly_the_prefix() {
    // trailing bytes past one value are left alone
    let mut buf = encode(&0x0102u16, Endianness::LittleEndian);
    buf.push(0xEE);
    assert_eq!(decode::<u16>(&buf, Endianness::LittleEndian), Ok(0x0102));
}

#[test]
fn reader_scalar_and_cursor() {
    let data: Vec<u8> = vec![0x01, 0x02, 0x03, 0x04];
    let mut r = Reader::new(&data, Context::new(Endianness::BigEndian));
    assert_eq!(r.read_scalar(2), Ok(0x0102));
    assert_eq!(r.read_scalar(2), Ok(0x0304));
    assert_eq!(r.read_scalar(1), Err(Error::Truncated));
}

#[test]
fn reader_raw_bytes() {
    let data: Vec<u8> = vec![9, 8, 7];
    let mut r = Reader::new(&data, Context::new(Endianness::LittleEndian));
    assert_eq!(r.read_bytes(2), Ok(vec![9, 8]));
    assert_eq!(r.read_bytes(2), Err(Error::Truncated));
    assert_eq!(r.read_bytes(1), Ok(vec![7]));
}

#[test]
fn mixed_endianness_does_not_roundtrip_multibyte() {
    let enc = encode(&0x0102u16, Endianness::LittleEndian);
    assert_eq!(decode::<u16>(&enc, Endianness::BigEndian), Ok(0x0201));
}

#[test]
fn roundtrip_ranges_and_triples() {
    for e in [Endianness::LittleEndian, Endianness::BigEndian] {
        let range = 10u32..90u32;
        assert_eq!(decode::<std::ops::Range<u32>>(&encode(&range, e), e), Ok(range.clone()));
        let triple = (1u8, 0x0203u16, String::from("ok"));
        assert_eq!(
            decode::<(u8, u16, String)>(&encode(&triple, e), e),
            Ok(triple.clone())
        );
    }
}

#[test]
fn range_is_two_bare_bounds() {
    let out = encode(&(3u16..7u16), Endianness::LittleEndian);
    assert_eq!(out, vec![3, 0, 7, 0]);
}
