use binary::{
    Binary, Buffer, CodecError, ByteOrder, Prefix, BE, F32, F64, I16, I32, I64, I8, LE, U16, U24,
    U32, U64, U8,
};

fn bytes_of<T: Binary>(value: &T) -> Vec<u8> {
    let mut buffer = Buffer::new(16);
    value.serialize(&mut buffer);
    buffer.get_data().to_vec()
}

fn from_bytes<T: Binary>(bytes: &[u8]) -> Result<T, CodecError> {
    let mut buffer = Buffer::from(bytes.to_vec());
    T::deserialize(&mut buffer)
}

#[test]
fn single_bytes() {
    assert_eq!(bytes_of(&U8::new(0xab)), vec![0xab]);
    assert_eq!(bytes_of(&I8::new(-1)), vec![0xff]);
    assert_eq!(bytes_of(&I8::new(-128)), vec![0x80]);
    assert_eq!(bytes_of(&I8::new(127)), vec![0x7f]);
    for v in 0..=255u8 {
        assert_eq!(from_bytes::<U8>(&bytes_of(&U8::new(v))).unwrap().get(), v);
    }
    for v in i8::MIN..=i8::MAX {
        assert_eq!(from_bytes::<I8>(&bytes_of(&I8::new(v))).unwrap().get(), v);
    }
}

#[test]
fn sixteen_bit_bytes() {
    assert_eq!(bytes_of(&U16::<LE>::new(0x1234)), vec![0x34, 0x12]);
    assert_eq!(bytes_of(&U16::<BE>::new(0x1234)), vec![0x12, 0x34]);
    assert_eq!(bytes_of(&I16::<LE>::new(-2)), vec![0xfe, 0xff]);
    assert_eq!(bytes_of(&I16::<BE>::new(-2)), vec![0xff, 0xfe]);
    assert_eq!(bytes_of(&I16::<LE>::new(i16::MIN)), vec![0x00, 0x80]);
}

#[test]
fn sixteen_bit_round_trip_over_every_value() {
    for v in 0..=u16::MAX {
        assert_eq!(from_bytes::<U16<LE>>(&bytes_of(&U16::<LE>::new(v))).unwrap().get(), v);
        assert_eq!(from_bytes::<U16<BE>>(&bytes_of(&U16::<BE>::new(v))).unwrap().get(), v);
    }
    for v in i16::MIN..=i16::MAX {
        assert_eq!(from_bytes::<I16<LE>>(&bytes_of(&I16::<LE>::new(v))).unwrap().get(), v);
        assert_eq!(from_bytes::<I16<BE>>(&bytes_of(&I16::<BE>::new(v))).unwrap().get(), v);
    }
}

#[test]
fn twenty_four_bit_bytes() {
    assert_eq!(bytes_of(&U24::<LE>::new(0x123456)), vec![0x56, 0x34, 0x12]);
    assert_eq!(bytes_of(&U24::<BE>::new(0x123456)), vec![0x12, 0x34, 0x56]);
    // Of a larger value only the three low-order bytes travel.
    assert_eq!(bytes_of(&U24::<LE>::new(0xff123456)), vec![0x56, 0x34, 0x12]);
    // Three bytes are never sign-extended.
    assert_eq!(from_bytes::<U24<LE>>(&[0xff, 0xff, 0xff]).unwrap().get(), 0x00ff_ffff);
    assert_eq!(from_bytes::<U24<BE>>(&[0x80, 0x00, 0x01]).unwrap().get(), 0x0080_0001);
}

#[test]
fn twenty_four_bit_round_trip() {
    for v in [0u32, 1, 0xff, 0x100, 0xffff, 0x1_0000, 0x7f_ffff, 0x80_0000, 0xff_ffff] {
        assert_eq!(from_bytes::<U24<LE>>(&bytes_of(&U24::<LE>::new(v))).unwrap().get(), v);
        assert_eq!(from_bytes::<U24<BE>>(&bytes_of(&U24::<BE>::new(v))).unwrap().get(), v);
    }
}

#[test]
fn thirty_two_bit_bytes() {
    assert_eq!(bytes_of(&U32::<LE>::new(0x12345678)), vec![0x78, 0x56, 0x34, 0x12]);
    assert_eq!(bytes_of(&U32::<BE>::new(0x12345678)), vec![0x12, 0x34, 0x56, 0x78]);
    assert_eq!(bytes_of(&I32::<LE>::new(-2)), vec![0xfe, 0xff, 0xff, 0xff]);
    assert_eq!(bytes_of(&I32::<BE>::new(i32::MIN)), vec![0x80, 0, 0, 0]);
    assert_eq!(bytes_of(&U32::<LE>::new(7)), 7u32.to_le_bytes().to_vec());
    assert_eq!(bytes_of(&I32::<BE>::new(-7)), (-7i32).to_be_bytes().to_vec());
}

#[test]
fn thirty_two_bit_round_trip() {
    for v in [0u32, 1, 0x7f, 0x80, 0xffff, 0x7fff_ffff, 0x8000_0000, u32::MAX] {
        assert_eq!(from_bytes::<U32<LE>>(&bytes_of(&U32::<LE>::new(v))).unwrap().get(), v);
        assert_eq!(from_bytes::<U32<BE>>(&bytes_of(&U32::<BE>::new(v))).unwrap().get(), v);
    }
    for v in [0i32, 1, -1, i32::MIN, i32::MAX, 0x1234_5678, -0x1234_5678] {
        assert_eq!(from_bytes::<I32<LE>>(&bytes_of(&I32::<LE>::new(v))).unwrap().get(), v);
        assert_eq!(from_bytes::<I32<BE>>(&bytes_of(&I32::<BE>::new(v))).unwrap().get(), v);
    }
}

#[test]
fn sixty_four_bit_bytes() {
    assert_eq!(
        bytes_of(&U64::<LE>::new(0x0102030405060708)),
        vec![8, 7, 6, 5, 4, 3, 2, 1]
    );
    assert_eq!(
        bytes_of(&U64::<BE>::new(0x0102030405060708)),
        vec![1, 2, 3, 4, 5, 6, 7, 8]
    );
    assert_eq!(bytes_of(&I64::<LE>::new(-1)), vec![0xff; 8]);
    assert_eq!(bytes_of(&I64::<BE>::new(i64::MIN)), vec![0x80, 0, 0, 0, 0, 0, 0, 0]);
    assert_eq!(bytes_of(&U64::<LE>::new(u64::MAX)), u64::MAX.to_le_bytes().to_vec());
}

#[test]
fn sixty_four_bit_round_trip() {
    for v in [0u64, 1, 0xff, u32::MAX as u64, 1 << 63, u64::MAX, 0x0123_4567_89ab_cdef] {
        assert_eq!(from_bytes::<U64<LE>>(&bytes_of(&U64::<LE>::new(v))).unwrap().get(), v);
        assert_eq!(from_bytes::<U64<BE>>(&bytes_of(&U64::<BE>::new(v))).unwrap().get(), v);
    }
    for v in [0i64, 1, -1, i64::MIN, i64::MAX, i32::MIN as i64, -0x0123_4567_89ab_cdef] {
        assert_eq!(from_bytes::<I64<LE>>(&bytes_of(&I64::<LE>::new(v))).unwrap().get(), v);
        assert_eq!(from_bytes::<I64<BE>>(&bytes_of(&I64::<BE>::new(v))).unwrap().get(), v);
    }
}

#[test]
fn floats_travel_as_their_bits() {
    assert_eq!(bytes_of(&F32::<LE>::new(1.5f32.to_bits())), 1.5f32.to_le_bytes().to_vec());
    assert_eq!(bytes_of(&F32::<BE>::new(1.5f32.to_bits())), 1.5f32.to_be_bytes().to_vec());
    assert_eq!(bytes_of(&F64::<LE>::new((-0.1f64).to_bits())), (-0.1f64).to_le_bytes().to_vec());
    assert_eq!(bytes_of(&F64::<BE>::new((-0.1f64).to_bits())), (-0.1f64).to_be_bytes().to_vec());
    for v in [0.0f32, -0.0, 1.0, f32::MIN, f32::MAX, f32::INFINITY, f32::EPSILON] {
        let back = from_bytes::<F32<LE>>(&bytes_of(&F32::<LE>::new(v.to_bits()))).unwrap().get();
        assert_eq!(f32::from_bits(back).to_bits(), v.to_bits());
        let back = from_bytes::<F32<BE>>(&bytes_of(&F32::<BE>::new(v.to_bits()))).unwrap().get();
        assert_eq!(f32::from_bits(back).to_bits(), v.to_bits());
    }
    for v in [0.0f64, -0.0, 1.0, f64::MIN, f64::MAX, f64::NEG_INFINITY, f64::NAN] {
        let back = from_bytes::<F64<LE>>(&bytes_of(&F64::<LE>::new(v.to_bits()))).unwrap().get();
        assert_eq!(back, v.to_bits());
        let back = from_bytes::<F64<BE>>(&bytes_of(&F64::<BE>::new(v.to_bits()))).unwrap().get();
        assert_eq!(back, v.to_bits());
    }
}

#[test]
fn truncated_fixed_width_input_is_refused() {
    assert_eq!(from_bytes::<U8>(&[]), Err(CodecError::BoundsError));
    assert_eq!(from_bytes::<I8>(&[]), Err(CodecError::BoundsError));
    for n in 0..2 {
        assert_eq!(from_bytes::<U16<LE>>(&vec![1; n]), Err(CodecError::BoundsError));
        assert_eq!(from_bytes::<I16<BE>>(&vec![1; n]), Err(CodecError::BoundsError));
    }
    for n in 0..3 {
        assert_eq!(from_bytes::<U24<LE>>(&vec![1; n]), Err(CodecError::BoundsError));
        assert_eq!(from_bytes::<U24<BE>>(&vec![1; n]), Err(CodecError::BoundsError));
    }
    for n in 0..4 {
        assert_eq!(from_bytes::<U32<LE>>(&vec![1; n]), Err(CodecError::BoundsError));
        assert_eq!(from_bytes::<I32<BE>>(&vec![1; n]), Err(CodecError::BoundsError));
        assert_eq!(from_bytes::<F32<LE>>(&vec![1; n]), Err(CodecError::BoundsError));
    }
    for n in 0..8 {
        assert_eq!(from_bytes::<U64<LE>>(&vec![1; n]), Err(CodecError::BoundsError));
        assert_eq!(from_bytes::<I64<BE>>(&vec![1; n]), Err(CodecError::BoundsError));
        assert_eq!(from_bytes::<F64<BE>>(&vec![1; n]), Err(CodecError::BoundsError));
    }
}

#[test]
fn short_read_takes_what_is_left() {
    let mut buffer = Buffer::from(vec![1u8, 2, 3]);
    assert_eq!(U32::<LE>::deserialize(&mut buffer), Err(CodecError::BoundsError));
    assert_eq!(buffer.offset(), 3);
    assert_eq!(buffer.remaining(), 0);
}

#[test]
fn numbers_are_read_one_after_another() {
    let mut buffer = Buffer::from(vec![0x01u8, 0x02, 0x03, 0x04, 0x05, 0x06, 0x07]);
    assert_eq!(U16::<BE>::deserialize(&mut buffer).unwrap().get(), 0x0102);
    assert_eq!(buffer.offset(), 2);
    assert_eq!(U24::<LE>::deserialize(&mut buffer).unwrap().get(), 0x050403);
    assert_eq!(buffer.offset(), 5);
    assert_eq!(U16::<LE>::deserialize(&mut buffer).unwrap().get(), 0x0706);
    assert_eq!(buffer.remaining(), 0);
}

#[test]
fn byte_order_reads_and_writes() {
    let mut buffer = Buffer::new(64);
    LE::write_u16(0xbeef, &mut buffer);
    BE::write_u16(0xbeef, &mut buffer);
    LE::write_i16(-3, &mut buffer);
    BE::write_u24(0x010203, &mut buffer);
    LE::write_u32(0xdeadbeef, &mut buffer);
    BE::write_i32(-5, &mut buffer);
    LE::write_u64(u64::MAX - 1, &mut buffer);
    BE::write_i64(i64::MIN + 1, &mut buffer);
    LE::write_f32(2.5f32.to_bits(), &mut buffer);
    BE::write_f64(2.5f64.to_bits(), &mut buffer);
    assert_eq!(&buffer.get_data()[..4], &[0xef, 0xbe, 0xbe, 0xef]);

    assert_eq!(LE::read_u16(&mut buffer), Some(0xbeef));
    assert_eq!(BE::read_u16(&mut buffer), Some(0xbeef));
    assert_eq!(LE::read_i16(&mut buffer), Some(-3));
    assert_eq!(BE::read_u24(&mut buffer), Some(0x010203));
    assert_eq!(LE::read_u32(&mut buffer), Some(0xdeadbeef));
    assert_eq!(BE::read_i32(&mut buffer), Some(-5));
    assert_eq!(LE::read_u64(&mut buffer), Some(u64::MAX - 1));
    assert_eq!(BE::read_i64(&mut buffer), Some(i64::MIN + 1));
    assert_eq!(LE::read_f32(&mut buffer).map(f32::from_bits), Some(2.5));
    assert_eq!(BE::read_f64(&mut buffer).map(f64::from_bits), Some(2.5));
    assert_eq!(LE::read_u16(&mut buffer), None);
    assert_eq!(BE::read_u64(&mut buffer), None);
}

#[test]
fn write_into_a_full_region_is_cut_short() {
    let mut buffer = Buffer::new(3);
    U32::<BE>::new(0x01020304).serialize(&mut buffer);
    assert_eq!(buffer.get_data(), &[1u8, 2, 3][..]);
    U16::<LE>::new(0xffff).serialize(&mut buffer);
    assert_eq!(buffer.get_data(), &[1u8, 2, 3][..]);
}

#[test]
fn wrappers_from_plain_numbers() {
    let a: U16<LE> = 7u16.into();
    assert_eq!(a, U16::<LE>::new(7));
    let b: I64<BE> = (-7i64).into();
    assert_eq!(b.get(), -7);
    let c: U8 = 9u8.into();
    assert_eq!(c.get(), 9);
}

#[test]
fn fixed_width_prefixes() {
    let mut buffer = Buffer::new(32);
    U16::<LE>::encode(0x1234, &mut buffer);
    I16::<BE>::encode(0x0102, &mut buffer);
    U32::<BE>::encode(5, &mut buffer);
    I32::<LE>::encode(6, &mut buffer);
    assert_eq!(buffer.get_data(), &[0x34u8, 0x12, 0x01, 0x02, 0, 0, 0, 5, 6, 0, 0, 0][..]);
    assert_eq!(U16::<LE>::decode(&mut buffer), Ok(0x1234));
    assert_eq!(I16::<BE>::decode(&mut buffer), Ok(0x0102));
    assert_eq!(U32::<BE>::decode(&mut buffer), Ok(5));
    assert_eq!(I32::<LE>::decode(&mut buffer), Ok(6));
    assert_eq!(U16::<LE>::decode(&mut buffer), Err(CodecError::BoundsError));
}

#[test]
fn prefix_keeps_the_low_order_bytes_of_a_long_length() {
    let mut buffer = Buffer::new(8);
    U16::<BE>::encode(0x1_0005, &mut buffer);
    assert_eq!(buffer.get_data(), &[0x00u8, 0x05][..]);
    assert_eq!(U16::<BE>::decode(&mut buffer), Ok(5));
}

#[test]
fn wrappers_give_their_value_back() {
    let a = U32::<BE>::new(77);
    assert_eq!(*a, 77);
    assert_eq!(*a.as_ref(), 77);
    let plain: u32 = a.into();
    assert_eq!(plain, 77);
    let b = I8::new(-3);
    assert_eq!(*b, -3);
    let plain: i8 = b.into();
    assert_eq!(plain, -3);
    let c = F64::<LE>::new(1.25f64.to_bits());
    assert_eq!(f64::from_bits(*c), 1.25);
}
