use binary::varint::{zigzag_decode_32, zigzag_decode_64, zigzag_encode_32, zigzag_encode_64};
use binary::{
    Binary, Buffer, CodecError, Prefix, VarI32, VarI64, VarU32, VarU64, V32, V64, W32, W64,
};

fn bytes_of<T: Binary>(value: &T) -> Vec<u8> {
    let mut buffer = Buffer::new(16);
    value.serialize(&mut buffer);
    buffer.get_data().to_vec()
}

fn from_bytes<T: Binary>(bytes: &[u8]) -> Result<T, CodecError> {
    let mut buffer = Buffer::from(bytes.to_vec());
    T::deserialize(&mut buffer)
}

#[test]
fn zigzag_of_small_numbers() {
    assert_eq!(zigzag_encode_32(-1), 1);
    assert_eq!(zigzag_encode_32(0), 0);
    assert_eq!(zigzag_encode_32(1), 2);
    assert_eq!(zigzag_encode_32(-2), 3);
    assert_eq!(zigzag_encode_64(-1), 1);
    assert_eq!(zigzag_encode_64(0), 0);
    assert_eq!(zigzag_encode_64(1), 2);
    assert_eq!(zigzag_encode_64(-2), 3);
}

#[test]
fn zigzag_at_the_ends() {
    assert_eq!(zigzag_encode_32(i32::MAX), u32::MAX - 1);
    assert_eq!(zigzag_encode_32(i32::MIN), u32::MAX);
    assert_eq!(zigzag_encode_64(i64::MAX), u64::MAX - 1);
    assert_eq!(zigzag_encode_64(i64::MIN), u64::MAX);
    assert_eq!(zigzag_decode_32(u32::MAX), i32::MIN);
    assert_eq!(zigzag_decode_32(u32::MAX - 1), i32::MAX);
    assert_eq!(zigzag_decode_64(u64::MAX), i64::MIN);
    assert_eq!(zigzag_decode_64(u64::MAX - 1), i64::MAX);
}

#[test]
fn zigzag_is_the_shift_and_xor() {
    for v in [0i32, 1, -1, 2, -2, 63, -64, 64, 1000, -1000, i32::MAX, i32::MIN] {
        assert_eq!(zigzag_encode_32(v), ((v << 1) ^ (v >> 31)) as u32);
        assert_eq!(zigzag_decode_32(zigzag_encode_32(v)), v);
    }
    for v in [0i64, 1, -1, 2, -2, 1 << 40, -(1 << 40), i64::MAX, i64::MIN] {
        assert_eq!(zigzag_encode_64(v), ((v << 1) ^ (v >> 63)) as u64);
        assert_eq!(zigzag_decode_64(zigzag_encode_64(v)), v);
    }
}

#[test]
fn signed_varints_encode_through_zigzag() {
    assert_eq!(bytes_of(&VarI32::new(-1)), vec![0x01]);
    assert_eq!(bytes_of(&VarI32::new(0)), vec![0x00]);
    assert_eq!(bytes_of(&VarI32::new(1)), vec![0x02]);
    assert_eq!(bytes_of(&VarI64::new(-1)), vec![0x01]);
    assert_eq!(bytes_of(&VarI64::new(0)), vec![0x00]);
    assert_eq!(bytes_of(&VarI64::new(1)), vec![0x02]);
    assert_eq!(bytes_of(&VarI32::new(-64)), vec![0x7f]);
    assert_eq!(bytes_of(&VarI32::new(64)), vec![0x80, 0x01]);
}

#[test]
fn unsigned_varint_bytes() {
    assert_eq!(bytes_of(&VarU32::new(0)), vec![0x00]);
    assert_eq!(bytes_of(&VarU32::new(0x7f)), vec![0x7f]);
    assert_eq!(bytes_of(&VarU32::new(0x80)), vec![0x80, 0x01]);
    assert_eq!(bytes_of(&VarU32::new(300)), vec![0xac, 0x02]);
    assert_eq!(bytes_of(&VarU32::new(0x3fff)), vec![0xff, 0x7f]);
    assert_eq!(bytes_of(&VarU32::new(0x4000)), vec![0x80, 0x80, 0x01]);
    assert_eq!(bytes_of(&VarU32::new(u32::MAX)), vec![0xff, 0xff, 0xff, 0xff, 0x0f]);
    assert_eq!(
        bytes_of(&VarU64::new(u64::MAX)),
        vec![0xff, 0xff, 0xff, 0xff, 0xff, 0xff, 0xff, 0xff, 0xff, 0x01]
    );
    assert_eq!(bytes_of(&VarU64::new(1 << 35)), vec![0x80, 0x80, 0x80, 0x80, 0x80, 0x01]);
}

#[test]
fn signed_varint_bytes_at_the_ends() {
    assert_eq!(bytes_of(&VarI32::new(i32::MAX)), vec![0xfe, 0xff, 0xff, 0xff, 0x0f]);
    assert_eq!(bytes_of(&VarI32::new(i32::MIN)), vec![0xff, 0xff, 0xff, 0xff, 0x0f]);
    assert_eq!(
        bytes_of(&VarI64::new(i64::MAX)),
        vec![0xfe, 0xff, 0xff, 0xff, 0xff, 0xff, 0xff, 0xff, 0xff, 0x01]
    );
    assert_eq!(
        bytes_of(&VarI64::new(i64::MIN)),
        vec![0xff, 0xff, 0xff, 0xff, 0xff, 0xff, 0xff, 0xff, 0xff, 0x01]
    );
    // Numbers beyond 32 bits keep all their bits.
    assert_eq!(bytes_of(&VarI64::new(1 << 32)), vec![0x80, 0x80, 0x80, 0x80, 0x20]);
}

#[test]
fn varint_round_trip_over_boundary_values() {
    for v in [0u32, 0x7f, 0x80, u32::MAX, i32::MAX as u32, i32::MIN as u32] {
        assert_eq!(from_bytes::<VarU32>(&bytes_of(&VarU32::new(v))).unwrap().get(), v);
    }
    for v in [0i32, 0x7f, 0x80, i32::MIN, i32::MAX, -1, 1] {
        assert_eq!(from_bytes::<VarI32>(&bytes_of(&VarI32::new(v))).unwrap().get(), v);
    }
    for v in [0u64, 0x7f, 0x80, u32::MAX as u64, u64::MAX, i64::MAX as u64, i64::MIN as u64] {
        assert_eq!(from_bytes::<VarU64>(&bytes_of(&VarU64::new(v))).unwrap().get(), v);
    }
    for v in [0i64, 0x7f, 0x80, i32::MIN as i64, i32::MAX as i64, i64::MIN, i64::MAX, -1, 1] {
        assert_eq!(from_bytes::<VarI64>(&bytes_of(&VarI64::new(v))).unwrap().get(), v);
    }
}

#[test]
fn varint_round_trip_across_group_borders() {
    for shift in 0..32 {
        for delta in [-1i64, 0, 1] {
            let v = ((1i64 << shift) + delta) as u32;
            assert_eq!(from_bytes::<VarU32>(&bytes_of(&VarU32::new(v))).unwrap().get(), v);
            let s = v as i32;
            assert_eq!(from_bytes::<VarI32>(&bytes_of(&VarI32::new(s))).unwrap().get(), s);
            assert_eq!(from_bytes::<VarI32>(&bytes_of(&VarI32::new(-s))).unwrap().get(), -s);
        }
    }
    for shift in 0..64 {
        for delta in [-1i128, 0, 1] {
            let v = ((1i128 << shift) + delta) as u64;
            assert_eq!(from_bytes::<VarU64>(&bytes_of(&VarU64::new(v))).unwrap().get(), v);
            let s = v as i64;
            assert_eq!(from_bytes::<VarI64>(&bytes_of(&VarI64::new(s))).unwrap().get(), s);
        }
    }
}

#[test]
fn varint_reads_stop_at_the_last_group() {
    let mut buffer = Buffer::from(vec![0xac, 0x02, 0x05]);
    assert_eq!(VarU32::deserialize(&mut buffer).unwrap().get(), 300);
    assert_eq!(buffer.offset(), 2);
    assert_eq!(VarU32::deserialize(&mut buffer).unwrap().get(), 5);
    assert_eq!(buffer.offset(), 3);
}

#[test]
fn truncated_varint_is_refused() {
    assert_eq!(from_bytes::<VarU32>(&[]), Err(CodecError::BoundsError));
    assert_eq!(from_bytes::<VarU32>(&[0x80]), Err(CodecError::BoundsError));
    assert_eq!(from_bytes::<VarI32>(&[0xff, 0xff]), Err(CodecError::BoundsError));
    assert_eq!(from_bytes::<VarU32>(&[0x80, 0x80, 0x80, 0x80]), Err(CodecError::BoundsError));
    assert_eq!(from_bytes::<VarU64>(&[0xff; 9]), Err(CodecError::BoundsError));
    assert_eq!(from_bytes::<VarI64>(&[]), Err(CodecError::BoundsError));
    // Every proper prefix of an encoding is refused.
    let whole = bytes_of(&VarU64::new(u64::MAX));
    for n in 0..whole.len() {
        assert_eq!(from_bytes::<VarU64>(&whole[..n]), Err(CodecError::BoundsError));
    }
}

#[test]
fn overlong_varint_is_refused() {
    assert_eq!(from_bytes::<VarU32>(&[0x80; 5]), Err(CodecError::VarIntOverflow));
    assert_eq!(from_bytes::<VarI32>(&[0xff; 6]), Err(CodecError::VarIntOverflow));
    assert_eq!(
        from_bytes::<VarU32>(&[0x80, 0x80, 0x80, 0x80, 0x80, 0x01]),
        Err(CodecError::VarIntOverflow)
    );
    assert_eq!(from_bytes::<VarU64>(&[0x80; 10]), Err(CodecError::VarIntOverflow));
    assert_eq!(from_bytes::<VarI64>(&[0xff; 11]), Err(CodecError::VarIntOverflow));
    // The groups allowed were read, and no more.
    let mut buffer = Buffer::from(vec![0x80u8; 8]);
    assert_eq!(VarU32::deserialize(&mut buffer), Err(CodecError::VarIntOverflow));
    assert_eq!(buffer.offset(), 5);
    let mut buffer = Buffer::from(vec![0x80u8; 12]);
    assert_eq!(VarU64::deserialize(&mut buffer), Err(CodecError::VarIntOverflow));
    assert_eq!(buffer.offset(), 10);
}

#[test]
fn bits_beyond_the_width_are_dropped() {
    // The fifth group of a 32-bit number has room for four bits only.
    assert_eq!(from_bytes::<VarU32>(&[0xff, 0xff, 0xff, 0xff, 0x7f]).unwrap().get(), u32::MAX);
    assert_eq!(from_bytes::<VarU32>(&[0x80, 0x80, 0x80, 0x80, 0x10]).unwrap().get(), 0);
    // Groups of zeros in front of the last are read like any other.
    assert_eq!(from_bytes::<VarU32>(&[0x81, 0x80, 0x00]).unwrap().get(), 1);
}

#[test]
fn short_names_are_the_same_types() {
    assert_eq!(bytes_of(&W32::new(300)), bytes_of(&VarU32::new(300)));
    assert_eq!(bytes_of(&V32::new(-300)), bytes_of(&VarI32::new(-300)));
    assert_eq!(bytes_of(&W64::new(1 << 40)), bytes_of(&VarU64::new(1 << 40)));
    assert_eq!(bytes_of(&V64::new(-(1 << 40))), bytes_of(&VarI64::new(-(1 << 40))));
}

#[test]
fn varint_prefixes() {
    let mut buffer = Buffer::new(16);
    VarU32::encode(300, &mut buffer);
    VarI32::encode(300, &mut buffer);
    assert_eq!(buffer.get_data(), &[0xacu8, 0x02, 0xd8, 0x04][..]);
    assert_eq!(VarU32::decode(&mut buffer), Ok(300));
    assert_eq!(VarI32::decode(&mut buffer), Ok(300));
    assert_eq!(W32::decode(&mut buffer), Err(CodecError::BoundsError));
}

#[test]
fn varint_cut_short_by_a_full_region() {
    let mut buffer = Buffer::new(2);
    VarU32::new(u32::MAX).serialize(&mut buffer);
    assert_eq!(buffer.get_data(), &[0xffu8, 0xff][..]);
    assert_eq!(VarU32::deserialize(&mut buffer), Err(CodecError::BoundsError));
}
