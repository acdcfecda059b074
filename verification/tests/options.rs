use binary::{Binary, Bool, Buffer, CodecError, FOption, Optional, TOption, VarU32, U16, BE};

#[test]
fn option() {
    let mut buffer = Buffer::new(6);
    let option: FOption<VarU32> = Some(100.into()).into();
    option.serialize(&mut buffer);

    assert_eq!(buffer.offset(), 0);

    let val = FOption::<VarU32>::deserialize(&mut buffer).unwrap();
    let val = val.get().unwrap();

    assert_eq!(buffer.len(), 2);
    assert_eq!(buffer.offset(), 2);
    assert_eq!(val.get(), 100);
}

#[test]
fn option_bytes_with_false_sentinel() {
    let mut buffer = Buffer::new(6);
    let option: FOption<VarU32> = Some(VarU32::new(100)).into();
    option.serialize(&mut buffer);
    assert_eq!(buffer.get_data(), &[0x00u8, 100][..]);

    let mut buffer = Buffer::new(6);
    let option: FOption<VarU32> = None.into();
    option.serialize(&mut buffer);
    assert_eq!(buffer.get_data(), &[0x01u8][..]);
}

#[test]
fn option_bytes_with_true_sentinel() {
    let mut buffer = Buffer::new(6);
    let option: TOption<U16<BE>> = Optional::new(Some(U16::new(0x0102)));
    option.serialize(&mut buffer);
    assert_eq!(buffer.get_data(), &[0x01u8, 0x01, 0x02][..]);

    let mut buffer = Buffer::new(6);
    let option: TOption<U16<BE>> = Optional::new(None);
    option.serialize(&mut buffer);
    assert_eq!(buffer.get_data(), &[0x00u8][..]);
}

#[test]
fn option_absent_round_trip() {
    let mut buffer = Buffer::from(vec![0x01u8, 0x55]);
    let val = FOption::<VarU32>::deserialize(&mut buffer).unwrap();
    assert!(val.get().is_none());
    // Nothing after the flag was read.
    assert_eq!(buffer.offset(), 1);

    let mut buffer = Buffer::from(vec![0x00u8, 0x55]);
    let val = TOption::<VarU32>::deserialize(&mut buffer).unwrap();
    assert!(val.get().is_none());
    assert_eq!(buffer.offset(), 1);
}

#[test]
fn option_present_round_trip_true_sentinel() {
    let mut buffer = Buffer::from(vec![0x01u8, 0x2a]);
    let val = TOption::<VarU32>::deserialize(&mut buffer).unwrap();
    assert_eq!(val.get().unwrap().get(), 42);
    assert_eq!(buffer.offset(), 2);
}

#[test]
fn option_invalid_flag_is_refused() {
    let mut buffer = Buffer::from(vec![0x02u8, 0x2a]);
    assert_eq!(
        FOption::<VarU32>::deserialize(&mut buffer).map(|v| v.get().map(|x| x.get())),
        Err(CodecError::InvalidBoolean)
    );
    assert_eq!(buffer.offset(), 1);
}

#[test]
fn option_missing_payload_is_refused() {
    let mut buffer = Buffer::from(vec![0x00u8]);
    assert_eq!(
        FOption::<VarU32>::deserialize(&mut buffer).map(|v| v.get().map(|x| x.get())),
        Err(CodecError::BoundsError)
    );
    let mut buffer = Buffer::from(Vec::new());
    assert_eq!(
        FOption::<VarU32>::deserialize(&mut buffer).map(|v| v.get().map(|x| x.get())),
        Err(CodecError::BoundsError)
    );
}

#[test]
fn bool_bytes() {
    let mut buffer = Buffer::new(2);
    Bool::new(true).serialize(&mut buffer);
    Bool::new(false).serialize(&mut buffer);
    assert_eq!(buffer.get_data(), &[0x01u8, 0x00][..]);
    assert_eq!(Bool::deserialize(&mut buffer).unwrap().get(), true);
    assert_eq!(Bool::deserialize(&mut buffer).unwrap().get(), false);
    assert_eq!(Bool::deserialize(&mut buffer), Err(CodecError::BoundsError));
}

#[test]
fn bool_other_byte_is_refused() {
    for byte in [0x02u8, 0x7f, 0x80, 0xff] {
        let mut buffer = Buffer::from(vec![byte]);
        assert_eq!(Bool::deserialize(&mut buffer), Err(CodecError::InvalidBoolean));
        assert_eq!(buffer.offset(), 1);
    }
}

#[test]
fn optional_and_bool_conversions() {
    let flag: Bool = true.into();
    assert!(*flag);
    assert_eq!(*flag.as_ref(), true);
    let plain: bool = flag.into();
    assert!(plain);

    let some: TOption<VarU32> = Some(VarU32::new(3)).into();
    let back: Option<VarU32> = some.into();
    assert_eq!(back, Some(VarU32::new(3)));
    let none: FOption<VarU32> = Optional::new(None);
    let back: Option<VarU32> = none.into();
    assert_eq!(back, None);
}
