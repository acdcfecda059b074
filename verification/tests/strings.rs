use binary::{Binary, Buffer, CString, CodecError, VarU32, W32, U16, LE};

#[test]
fn impls_string() {
    let mut buffer = Buffer::new(13);
    CString::<VarU32>::new("Hello World!".to_string()).serialize(&mut buffer);

    assert_eq!(buffer.len(), 13);
    assert_eq!(buffer.offset(), 0);

    let str = CString::<VarU32>::deserialize(&mut buffer).unwrap();

    assert_eq!(buffer.len(), 13);
    assert_eq!(buffer.offset(), 13);
    assert_eq!(str.get(), "Hello World!");
}

#[test]
fn string_string() {
    // A region without capacity takes nothing in, so nothing comes back out.
    let mut buffer = Buffer::new(0);
    CString::<W32>::new("Hello World!".to_string()).serialize(&mut buffer);
    assert_eq!(buffer.len(), 0);
    assert_eq!(CString::<W32>::deserialize(&mut buffer), Err(CodecError::BoundsError));

    // With room for the thirteen bytes the string comes back.
    let mut buffer = Buffer::new(13);
    CString::<W32>::new("Hello World!".to_string()).serialize(&mut buffer);

    let str = CString::<W32>::deserialize(&mut buffer).unwrap();
    assert_eq!(str.get(), "Hello World!");
}

#[test]
fn string_bytes_are_prefix_then_utf8() {
    let mut buffer = Buffer::new(32);
    CString::<VarU32>::new("Hello World!".to_string()).serialize(&mut buffer);
    let mut expected = vec![12u8];
    expected.extend_from_slice(b"Hello World!");
    assert_eq!(buffer.get_data(), &expected[..]);
}

#[test]
fn string_with_sixteen_bit_prefix() {
    let mut buffer = Buffer::new(32);
    CString::<U16<LE>>::new("héllo".to_string()).serialize(&mut buffer);
    assert_eq!(buffer.get_data(), &[6u8, 0, b'h', 0xc3, 0xa9, b'l', b'l', b'o'][..]);
    let back = CString::<U16<LE>>::deserialize(&mut buffer).unwrap();
    assert_eq!(back.get(), "héllo");
    assert_eq!(buffer.offset(), 8);
}

#[test]
fn string_from_str_and_string() {
    let a: CString<VarU32> = "abc".into();
    let b: CString<VarU32> = String::from("abc").into();
    assert_eq!(a, b);
    assert_eq!(a.get(), "abc");
}

#[test]
fn empty_string_round_trip() {
    let mut buffer = Buffer::new(4);
    CString::<VarU32>::new(String::new()).serialize(&mut buffer);
    assert_eq!(buffer.get_data(), &[0u8][..]);
    assert_eq!(CString::<VarU32>::deserialize(&mut buffer).unwrap().get(), "");
}

#[test]
fn string_invalid_utf8_is_refused() {
    let mut buffer = Buffer::from(vec![2u8, 0xff, 0xfe]);
    assert_eq!(CString::<VarU32>::deserialize(&mut buffer), Err(CodecError::Utf8DecodeError));
    assert_eq!(buffer.offset(), 3);
}

#[test]
fn string_truncated_utf8_sequence_is_refused() {
    // 0xe2 0x82 opens a three-byte sequence that never ends.
    let mut buffer = Buffer::from(vec![2u8, 0xe2, 0x82]);
    assert_eq!(CString::<VarU32>::deserialize(&mut buffer), Err(CodecError::Utf8DecodeError));
}

#[test]
fn string_shorter_than_announced_is_refused() {
    let mut buffer = Buffer::from(vec![5u8, b'a', b'b']);
    assert_eq!(CString::<VarU32>::deserialize(&mut buffer), Err(CodecError::BoundsError));
    // The prefix was read, the payload was not touched.
    assert_eq!(buffer.offset(), 1);
}

#[test]
fn string_without_prefix_is_refused() {
    let mut buffer = Buffer::from(Vec::new());
    assert_eq!(CString::<VarU32>::deserialize(&mut buffer), Err(CodecError::BoundsError));
    let mut buffer = Buffer::from(vec![0x05u8]);
    assert_eq!(CString::<U16<LE>>::deserialize(&mut buffer), Err(CodecError::BoundsError));
}

#[test]
fn string_prefix_overflow_is_refused() {
    let mut buffer = Buffer::from(vec![0x80u8, 0x80, 0x80, 0x80, 0x80, 0x01]);
    assert_eq!(CString::<VarU32>::deserialize(&mut buffer), Err(CodecError::VarIntOverflow));
}

#[test]
fn string_followed_by_other_bytes() {
    let mut buffer = Buffer::from(vec![2u8, b'o', b'k', 0xaa, 0xbb]);
    assert_eq!(CString::<VarU32>::deserialize(&mut buffer).unwrap().get(), "ok");
    assert_eq!(buffer.offset(), 3);
    assert_eq!(buffer.remaining(), 2);
}
