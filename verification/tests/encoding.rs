use bytewire::{encode, Endianness, Writable, Writer, Context};

#[test]
fn single_byte_le() {
    let out = encode(&12u8, Endianness::LittleEndian);
    assert_eq!(out, vec![12u8]);
}

#[test]
fn byte_sequence_native() {
    let v: Vec<u8> = vec![1, 2, 3, 4];
    let out = encode(&v, Endianness::resolve_native());
    assert_eq!(out, vec![4, 0, 0, 0, 1, 2, 3, 4]);
    assert_eq!(out.len(), 8);
}

#[test]
fn text_le() {
    let s = String::from("Hi");
    let out = encode(&s, Endianness::LittleEndian);
    assert_eq!(out, vec![2, 0, 0, 0, b'H', b'i']);
    assert_eq!(out.len(), 6);
}

#[test]
fn u64_big_endian_no_prefix() {
    let out = encode(&1234u64, Endianness::BigEndian);
    assert_eq!(out, vec![0, 0, 0, 0, 0, 0, 0x04, 0xD2]);
}

#[test]
fn option_framing_bytes() {
    let none: Option<u8> = None;
    assert_eq!(encode(&none, Endianness::LittleEndian), vec![0]);
    let some: Option<u8> = Some(5);
    assert_eq!(encode(&some, Endianness::LittleEndian), vec![1, 5]);
}

#[test]
fn u16_sequence_under_both_orders() {
    let v: Vec<u16> = vec![1000, 2000];
    let le = encode(&v, Endianness::LittleEndian);
    let be = encode(&v, Endianness::BigEndian);
    // same length prefix value, in the active order each time
    assert_eq!(&le[0..4], &[2, 0, 0, 0]);
    assert_eq!(&be[0..4], &[0, 0, 0, 2]);
    // element bytes reversed between the two orders
    assert_eq!(&le[4..], &[0xE8, 0x03, 0xD0, 0x07]);
    assert_eq!(&be[4..], &[0x03, 0xE8, 0x07, 0xD0]);
}

#[test]
fn byte_sequence_payload_is_order_blind() {
    let v: Vec<u8> = (0..=255u8).collect::<Vec<u8>>();
    let mut long: Vec<u8> = Vec::new();
    for _ in 0..2 {
        long.extend_from_slice(&v);
    }
    // 512 elements: the prefix differs between orders, the payload does not
    let le = encode(&long, Endianness::LittleEndian);
    let be = encode(&long, Endianness::BigEndian);
    assert_eq!(&le[0..4], &[0, 2, 0, 0]);
    assert_eq!(&be[0..4], &[0, 0, 2, 0]);
    assert_eq!(&le[4..], &be[4..]);
}

#[test]
fn empty_sequence_is_zero_prefix_only() {
    let v: Vec<u8> = Vec::new();
    assert_eq!(encode(&v, Endianness::LittleEndian), vec![0, 0, 0, 0]);
    assert_eq!(encode(&v, Endianness::BigEndian), vec![0, 0, 0, 0]);
}

#[test]
fn empty_text_is_zero_prefix_only() {
    let s = String::new();
    assert_eq!(encode(&s, Endianness::LittleEndian), vec![0, 0, 0, 0]);
    assert_eq!(encode(&s, Endianness::BigEndian), vec![0, 0, 0, 0]);
}

#[test]
fn unit_encodes_to_nothing() {
    assert_eq!(encode(&(), Endianness::LittleEndian), Vec::<u8>::new());
}

#[test]
fn endianness_marker_is_one_tag_byte() {
    assert_eq!(encode(&Endianness::LittleEndian, Endianness::BigEndian), vec![0]);
    assert_eq!(encode(&Endianness::BigEndian, Endianness::LittleEndian), vec![1]);
}

#[test]
fn bool_encodes_to_one_byte() {
    assert_eq!(encode(&true, Endianness::LittleEndian), vec![1]);
    assert_eq!(encode(&false, Endianness::BigEndian), vec![0]);
}

#[test]
fn signed_values_are_twos_complement() {
    assert_eq!(encode(&-1i8, Endianness::LittleEndian), vec![0xFF]);
    assert_eq!(encode(&-2i16, Endianness::LittleEndian), vec![0xFE, 0xFF]);
    assert_eq!(encode(&-2i16, Endianness::BigEndian), vec![0xFF, 0xFE]);
    assert_eq!(
        encode(&-1i64, Endianness::BigEndian),
        vec![0xFF, 0xFF, 0xFF, 0xFF, 0xFF, 0xFF, 0xFF, 0xFF]
    );
    assert_eq!(encode(&i32::MIN, Endianness::BigEndian), vec![0x80, 0, 0, 0]);
}

#[test]
fn tuple_members_back_to_back() {
    let out = encode(&(7u8, 0x0102u16), Endianness::LittleEndian);
    assert_eq!(out, vec![7, 2, 1]);
    let out_be = encode(&(7u8, 0x0102u16), Endianness::BigEndian);
    assert_eq!(out_be, vec![7, 1, 2]);
}

#[test]
fn nested_sequences() {
    let v: Vec<Vec<u8>> = vec![vec![1], vec![2, 3]];
    let out = encode(&v, Endianness::LittleEndian);
    assert_eq!(out, vec![2, 0, 0, 0, 1, 0, 0, 0, 1, 2, 0, 0, 0, 2, 3]);
}

#[test]
fn bytes_needed_matches_encoded_length() {
    let cases: Vec<Vec<u8>> = vec![Vec::new(), vec![9], vec![1, 2, 3, 4, 5]];
    for v in cases {
        assert_eq!(v.bytes_needed(), encode(&v, Endianness::LittleEndian).len());
        assert_eq!(v.bytes_needed(), encode(&v, Endianness::BigEndian).len());
    }
    let s = String::from("héllo");
    assert_eq!(s.bytes_needed(), encode(&s, Endianness::LittleEndian).len());
    let o: Option<u32> = Some(9);
    assert_eq!(o.bytes_needed(), encode(&o, Endianness::BigEndian).len());
    let nested: Vec<String> = vec![String::from("a"), String::from("bc")];
    assert_eq!(nested.bytes_needed(), 15);
    assert_eq!(nested.bytes_needed(), encode(&nested, Endianness::LittleEndian).len());
    assert_eq!(1234u64.bytes_needed(), 8);
    assert_eq!(().bytes_needed(), 0);
}

#[test]
fn writer_accumulates_in_order() {
    let mut w = Writer::new(Context::new(Endianness::LittleEndian));
    w.write_u8(1);
    w.write_u16(0x0203);
    w.write_bytes(&[9, 9]);
    let out = w.into_buffer();
    assert_eq!(out, vec![1, 3, 2, 9, 9]);
}

#[test]
fn native_resolves_to_a_fixed_order() {
    let a = Endianness::resolve_native();
    let b = Endianness::resolve_native();
    assert_eq!(a, b);
    // the hosts this runs on are little-endian, as the byte-sequence scenario assumes
    assert_eq!(a, Endianness::LittleEndian);
    assert!(!Endianness::LittleEndian.conversion_necessary());
    assert!(Endianness::BigEndian.conversion_necessary());
}

#[test]
fn borrowed_text_encodes_like_owned() {
    let borrowed = bytewire::encode_str("Hi", Endianness::LittleEndian);
    let owned = encode(&String::from("Hi"), Endianness::LittleEndian);
    assert_eq!(borrowed, owned);
    assert_eq!(borrowed, vec![2, 0, 0, 0, b'H', b'i']);
}
