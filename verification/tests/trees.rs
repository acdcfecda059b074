use binary::{
    decode, encode, Binary, Buffer, CodecError, Compound, Encoding, List, LittleEndian,
    NetworkLittleEndian, RootNBT, Tag, MAX_DEPTH, NBT,
};

fn compound_of(entries: Vec<(&str, NBT)>) -> Compound {
    let mut c = Compound::new();
    for (name, value) in entries {
        c.put(name, value);
    }
    c
}

fn list_of(tag: Tag, items: Vec<NBT>) -> List {
    let mut l = List::new(tag);
    for item in items {
        assert!(l.push(item));
    }
    l
}

fn one_of_each() -> NBT {
    NBT::Compound(compound_of(vec![
        ("byte", NBT::Byte(-7)),
        ("short", NBT::Short(-30_000)),
        ("int", NBT::Int(i32::MIN)),
        ("long", NBT::Long(i64::MAX)),
        ("float", NBT::Float(3.25f32.to_bits())),
        ("double", NBT::Double((-1.0e100f64).to_bits())),
        ("bytes", NBT::ByteArray(vec![i8::MIN, -1, 0, 1, i8::MAX])),
        ("string", NBT::String("grüße, 世界".to_string())),
        (
            "list",
            NBT::List(list_of(
                Tag::Compound,
                vec![
                    NBT::Compound(compound_of(vec![("x", NBT::Int(1))])),
                    NBT::Compound(compound_of(vec![])),
                ],
            )),
        ),
        ("compound", NBT::Compound(compound_of(vec![("inner", NBT::String(String::new()))]))),
        ("ints", NBT::IntArray(vec![i32::MIN, -1, 0, 1, i32::MAX])),
        ("longs", NBT::LongArray(vec![i64::MIN, -1, 0, 1, i64::MAX])),
        ("nothing", NBT::List(list_of(Tag::End, vec![]))),
        ("lists", NBT::List(list_of(
            Tag::List,
            vec![
                NBT::List(list_of(Tag::Byte, vec![NBT::Byte(1), NBT::Byte(2)])),
                NBT::List(list_of(Tag::Byte, vec![])),
            ],
        ))),
    ]))
}

fn round_trip<E: Encoding + PartialEq + std::fmt::Debug>(tree: NBT, same: NBT) {
    let mut buffer = Buffer::new(4096);
    RootNBT::<E>::new(tree).serialize(&mut buffer);
    let written = buffer.len();
    assert!(written < 4096);
    let back = RootNBT::<E>::deserialize(&mut buffer).unwrap();
    assert_eq!(buffer.offset(), written);
    assert_eq!(back.get(), same);
}

#[test]
fn every_kind_round_trips_in_the_network_profile() {
    round_trip::<NetworkLittleEndian>(one_of_each(), one_of_each());
}

#[test]
fn every_kind_round_trips_in_the_storage_profile() {
    round_trip::<LittleEndian>(one_of_each(), one_of_each());
}

#[test]
fn scalars_round_trip_as_roots() {
    for make in [
        || NBT::Byte(5),
        || NBT::Short(-5),
        || NBT::Int(500_000),
        || NBT::Long(-5_000_000_000),
        || NBT::Float(0.5f32.to_bits()),
        || NBT::Double(0.5f64.to_bits()),
        || NBT::String("root".to_string()),
        || NBT::ByteArray(vec![]),
        || NBT::IntArray(vec![7]),
        || NBT::LongArray(vec![]),
    ] {
        round_trip::<NetworkLittleEndian>(make(), make());
        round_trip::<LittleEndian>(make(), make());
    }
}

#[test]
fn key_order_is_kept() {
    let names = ["zeta", "alpha", "mid", "0", ""];
    let tree = || {
        NBT::Compound(compound_of(
            names.iter().enumerate().map(|(i, n)| (*n, NBT::Int(i as i32))).collect(),
        ))
    };
    let mut buffer = Buffer::new(256);
    RootNBT::<NetworkLittleEndian>::new(tree()).serialize(&mut buffer);
    let back = RootNBT::<NetworkLittleEndian>::deserialize(&mut buffer).unwrap().get();
    match back {
        NBT::Compound(c) => {
            let got: Vec<&str> = c.entries().iter().map(|(n, _)| n.as_str()).collect();
            assert_eq!(got, names.to_vec());
        }
        other => panic!("not a compound: {:?}", other),
    }
}

#[test]
fn network_profile_bytes() {
    let tree = NBT::Compound(compound_of(vec![
        ("a", NBT::Int(-1)),
        ("b", NBT::Long(300)),
        ("s", NBT::Short(0x0102)),
        ("l", NBT::List(list_of(Tag::Int, vec![NBT::Int(1), NBT::Int(64)]))),
    ]));
    let mut buffer = Buffer::new(64);
    RootNBT::<NetworkLittleEndian>::new(tree).serialize(&mut buffer);
    let expected: Vec<u8> = vec![
        10, 0, // compound under an empty name
        3, 1, b'a', 0x01, // int -1, zigzag
        4, 1, b'b', 0xd8, 0x04, // long 300, zigzag
        2, 1, b's', 0x02, 0x01, // short, little-endian
        9, 1, b'l', 3, 0x04, 0x02, 0x80, 0x01, // list of two ints
        0, // end
    ];
    assert_eq!(buffer.get_data(), &expected[..]);
}

#[test]
fn storage_profile_bytes() {
    let tree = NBT::Compound(compound_of(vec![
        ("a", NBT::Int(-1)),
        ("b", NBT::Long(300)),
        ("s", NBT::Short(0x0102)),
        ("l", NBT::List(list_of(Tag::Int, vec![NBT::Int(1), NBT::Int(64)]))),
    ]));
    let mut buffer = Buffer::new(96);
    RootNBT::<LittleEndian>::new(tree).serialize(&mut buffer);
    let expected: Vec<u8> = vec![
        10, 0, 0, // compound under an empty name
        3, 1, 0, b'a', 0xff, 0xff, 0xff, 0xff, // int -1
        4, 1, 0, b'b', 0x2c, 0x01, 0, 0, 0, 0, 0, 0, // long 300
        2, 1, 0, b's', 0x02, 0x01, // short
        9, 1, 0, b'l', 3, 2, 0, 0, 0, 1, 0, 0, 0, 64, 0, 0, 0, // list of two ints
        0, // end
    ];
    assert_eq!(buffer.get_data(), &expected[..]);
}

#[test]
fn scalars_are_little_endian_in_both_profiles() {
    for tree in [
        || NBT::Short(0x0102),
        || NBT::Float(1.0f32.to_bits()),
        || NBT::Double(1.0f64.to_bits()),
        || NBT::Byte(-2),
    ] {
        let mut a = Buffer::new(16);
        let mut b = Buffer::new(16);
        encode::<NetworkLittleEndian>(&tree(), &mut a);
        encode::<LittleEndian>(&tree(), &mut b);
        assert_eq!(a.get_data(), b.get_data());
    }
    let mut buffer = Buffer::new(16);
    encode::<NetworkLittleEndian>(&NBT::Float(1.0f32.to_bits()), &mut buffer);
    assert_eq!(buffer.get_data(), &1.0f32.to_le_bytes()[..]);
    let mut buffer = Buffer::new(16);
    encode::<LittleEndian>(&NBT::Double(2.5f64.to_bits()), &mut buffer);
    assert_eq!(buffer.get_data(), &2.5f64.to_le_bytes()[..]);
}

#[test]
fn array_payload_bytes() {
    let mut buffer = Buffer::new(32);
    encode::<NetworkLittleEndian>(&NBT::ByteArray(vec![-1, 2]), &mut buffer);
    assert_eq!(buffer.get_data(), &[0x04u8, 0xff, 0x02][..]);
    let mut buffer = Buffer::new(32);
    encode::<LittleEndian>(&NBT::IntArray(vec![1, -1]), &mut buffer);
    assert_eq!(buffer.get_data(), &[2u8, 0, 0, 0, 1, 0, 0, 0, 0xff, 0xff, 0xff, 0xff][..]);
    let mut buffer = Buffer::new(32);
    encode::<NetworkLittleEndian>(&NBT::LongArray(vec![1, -1]), &mut buffer);
    assert_eq!(buffer.get_data(), &[0x04u8, 0x02, 0x01][..]);
}

#[test]
fn empty_list_writes_its_tag() {
    let mut buffer = Buffer::new(8);
    encode::<NetworkLittleEndian>(&NBT::List(List::new(Tag::End)), &mut buffer);
    assert_eq!(buffer.get_data(), &[0u8, 0][..]);
    let mut buffer = Buffer::new(8);
    encode::<NetworkLittleEndian>(&NBT::List(List::with_capacity(Tag::Long, 4)), &mut buffer);
    assert_eq!(buffer.get_data(), &[4u8, 0][..]);
    let back = decode::<NetworkLittleEndian>(Tag::List, &mut buffer).unwrap();
    assert_eq!(back, NBT::List(List::new(Tag::Long)));
}

#[test]
fn decode_by_tag() {
    let mut buffer = Buffer::from(vec![0x7fu8]);
    assert_eq!(decode::<NetworkLittleEndian>(Tag::Byte, &mut buffer), Ok(NBT::Byte(127)));
    let mut buffer = Buffer::from(vec![0x03u8]);
    assert_eq!(decode::<NetworkLittleEndian>(Tag::Int, &mut buffer), Ok(NBT::Int(-2)));
    let mut buffer = Buffer::from(vec![0x03u8, 0, 0, 0]);
    assert_eq!(decode::<LittleEndian>(Tag::Int, &mut buffer), Ok(NBT::Int(3)));
    let mut buffer = Buffer::from(vec![2u8, 0, b'h', b'i']);
    assert_eq!(
        decode::<LittleEndian>(Tag::String, &mut buffer),
        Ok(NBT::String("hi".to_string()))
    );
}

#[test]
fn end_is_no_value() {
    let mut buffer = Buffer::from(vec![1u8, 2, 3]);
    assert_eq!(decode::<NetworkLittleEndian>(Tag::End, &mut buffer), Err(CodecError::InvalidTag));
    assert_eq!(buffer.offset(), 0);
    // A root under the end marker.
    let mut buffer = Buffer::from(vec![0u8, 0]);
    assert_eq!(
        RootNBT::<NetworkLittleEndian>::deserialize(&mut buffer),
        Err(CodecError::InvalidTag)
    );
    // A list of end markers that claims to hold one.
    let mut buffer = Buffer::from(vec![0u8, 0x02, 0]);
    assert_eq!(decode::<NetworkLittleEndian>(Tag::List, &mut buffer), Err(CodecError::InvalidTag));
}

#[test]
fn unknown_tag_is_refused() {
    for byte in [13u8, 14, 0x7f, 0x80, 0xff] {
        let mut buffer = Buffer::from(vec![byte, 0, 0]);
        assert_eq!(
            RootNBT::<NetworkLittleEndian>::deserialize(&mut buffer),
            Err(CodecError::InvalidTag)
        );
        assert_eq!(buffer.offset(), 1);
        // As the tag of a list's elements.
        let mut buffer = Buffer::from(vec![byte, 0]);
        assert_eq!(
            decode::<NetworkLittleEndian>(Tag::List, &mut buffer),
            Err(CodecError::InvalidTag)
        );
        // As the tag of a compound's entry.
        let mut buffer = Buffer::from(vec![byte, 0, 0]);
        assert_eq!(
            decode::<NetworkLittleEndian>(Tag::Compound, &mut buffer),
            Err(CodecError::InvalidTag)
        );
    }
}

#[test]
fn tag_bytes() {
    let tags = [
        Tag::End,
        Tag::Byte,
        Tag::Short,
        Tag::Int,
        Tag::Long,
        Tag::Float,
        Tag::Double,
        Tag::ByteArray,
        Tag::String,
        Tag::List,
        Tag::Compound,
        Tag::IntArray,
        Tag::LongArray,
    ];
    for (i, tag) in tags.iter().enumerate() {
        assert_eq!(tag.to_byte(), i as u8);
        assert_eq!(Tag::from_byte(i as u8), Some(*tag));
    }
    for b in 13..=255u8 {
        assert_eq!(Tag::from_byte(b), None);
    }
}

#[test]
fn truncated_trees_are_refused() {
    let mut buffer = Buffer::new(4096);
    RootNBT::<NetworkLittleEndian>::new(one_of_each()).serialize(&mut buffer);
    let whole = buffer.get_data().to_vec();
    for n in 0..whole.len() {
        let mut cut = Buffer::from(whole[..n].to_vec());
        let r = RootNBT::<NetworkLittleEndian>::deserialize(&mut cut);
        assert!(r.is_err(), "a tree came out of the first {} bytes", n);
    }
    let mut buffer = Buffer::new(4096);
    RootNBT::<LittleEndian>::new(one_of_each()).serialize(&mut buffer);
    let whole = buffer.get_data().to_vec();
    for n in 0..whole.len() {
        let mut cut = Buffer::from(whole[..n].to_vec());
        assert!(RootNBT::<LittleEndian>::deserialize(&mut cut).is_err());
    }
}

#[test]
fn arbitrary_bytes_never_crash_the_reader() {
    // A small generator of byte strings; whatever comes out must be an answer.
    let mut state: u32 = 0x2545_f491;
    for _ in 0..2000 {
        let mut bytes = Vec::new();
        state ^= state << 13;
        state ^= state >> 17;
        state ^= state << 5;
        let len = (state % 40) as usize;
        for _ in 0..len {
            state ^= state << 13;
            state ^= state >> 17;
            state ^= state << 5;
            // Mostly small values, so that tags and short lengths are common.
            bytes.push(if state % 3 == 0 { (state >> 8) as u8 } else { (state >> 8) as u8 % 13 });
        }
        let mut buffer = Buffer::from(bytes.clone());
        let _ = RootNBT::<NetworkLittleEndian>::deserialize(&mut buffer);
        assert!(buffer.offset() <= bytes.len());
        let mut buffer = Buffer::from(bytes.clone());
        let _ = RootNBT::<LittleEndian>::deserialize(&mut buffer);
        assert!(buffer.offset() <= bytes.len());
    }
}

#[test]
fn negative_lengths_are_refused() {
    // -1 in zigzag is 0x01.
    let mut buffer = Buffer::from(vec![0x01u8, 1, 2, 3]);
    assert_eq!(
        decode::<NetworkLittleEndian>(Tag::ByteArray, &mut buffer),
        Err(CodecError::BoundsError)
    );
    let mut buffer = Buffer::from(vec![0x01u8, 1, 2, 3]);
    assert_eq!(
        decode::<NetworkLittleEndian>(Tag::IntArray, &mut buffer),
        Err(CodecError::BoundsError)
    );
    let mut buffer = Buffer::from(vec![0xffu8, 0xff, 0xff, 0xff, 1, 2, 3]);
    assert_eq!(decode::<LittleEndian>(Tag::LongArray, &mut buffer), Err(CodecError::BoundsError));
    let mut buffer = Buffer::from(vec![1u8, 0x01, 5, 5]);
    assert_eq!(decode::<NetworkLittleEndian>(Tag::List, &mut buffer), Err(CodecError::BoundsError));
    let mut buffer = Buffer::from(vec![0u8, 0x01]);
    assert_eq!(decode::<NetworkLittleEndian>(Tag::List, &mut buffer), Err(CodecError::BoundsError));
}

#[test]
fn lengths_beyond_the_input_are_refused() {
    // A byte array of i32::MAX bytes, of which three are there.
    let mut buffer = Buffer::from(vec![0xfeu8, 0xff, 0xff, 0xff, 0x0f, 1, 2, 3]);
    assert_eq!(
        decode::<NetworkLittleEndian>(Tag::ByteArray, &mut buffer),
        Err(CodecError::BoundsError)
    );
    let mut buffer = Buffer::from(vec![0xfeu8, 0xff, 0xff, 0xff, 0x0f, 2, 4]);
    assert_eq!(
        decode::<NetworkLittleEndian>(Tag::IntArray, &mut buffer),
        Err(CodecError::BoundsError)
    );
    let mut buffer = Buffer::from(vec![1u8, 0xfe, 0xff, 0xff, 0xff, 0x0f, 9, 9]);
    assert_eq!(decode::<NetworkLittleEndian>(Tag::List, &mut buffer), Err(CodecError::BoundsError));
}

#[test]
fn bad_text_inside_a_tree_is_refused() {
    let mut buffer = Buffer::from(vec![8u8, 0, 2, 0xc3, 0x28]);
    assert_eq!(
        RootNBT::<NetworkLittleEndian>::deserialize(&mut buffer),
        Err(CodecError::Utf8DecodeError)
    );
    // In the name of an entry.
    let mut buffer = Buffer::from(vec![10u8, 0, 1, 1, 0xff, 0, 0]);
    assert_eq!(
        RootNBT::<NetworkLittleEndian>::deserialize(&mut buffer),
        Err(CodecError::Utf8DecodeError)
    );
    // In the name of the root.
    let mut buffer = Buffer::from(vec![1u8, 1, 0xff, 0]);
    assert_eq!(
        RootNBT::<NetworkLittleEndian>::deserialize(&mut buffer),
        Err(CodecError::Utf8DecodeError)
    );
}

#[test]
fn overlong_number_inside_a_tree_is_refused() {
    let mut buffer = Buffer::from(vec![3u8, 0, 0x80, 0x80, 0x80, 0x80, 0x80, 0x01]);
    assert_eq!(
        RootNBT::<NetworkLittleEndian>::deserialize(&mut buffer),
        Err(CodecError::VarIntOverflow)
    );
}

#[test]
fn root_name_is_read() {
    let mut buffer = Buffer::from(vec![1u8, 4, b'n', b'a', b'm', b'e', 0x2a, 0x99]);
    let root = RootNBT::<NetworkLittleEndian>::deserialize(&mut buffer).unwrap();
    assert_eq!(root.name(), "name");
    assert_eq!(root.get(), NBT::Byte(42));
    assert_eq!(buffer.offset(), 7);
    assert_eq!(buffer.remaining(), 1);
}

#[test]
fn root_name_is_empty_unless_given() {
    let root = RootNBT::<NetworkLittleEndian>::new(NBT::Int(1));
    assert_eq!(root.name(), "");
    let mut buffer = Buffer::new(8);
    root.serialize(&mut buffer);
    assert_eq!(buffer.get_data(), &[3u8, 0, 0x02][..]);
    let from: RootNBT<NetworkLittleEndian> = NBT::Int(1).into();
    assert_eq!(from, root);
}

#[test]
fn named_root_round_trip() {
    let mut buffer = Buffer::new(32);
    let root = RootNBT::<LittleEndian>::named("level".to_string(), NBT::Short(7));
    root.serialize(&mut buffer);
    assert_eq!(buffer.get_data(), &[2u8, 5, 0, b'l', b'e', b'v', b'e', b'l', 7, 0][..]);
    let back = RootNBT::<LittleEndian>::deserialize(&mut buffer).unwrap();
    assert_eq!(back, root);
    assert_eq!(back.name(), "level");
    let tree: NBT = back.into();
    assert_eq!(tree, NBT::Short(7));
}

#[test]
fn a_name_that_comes_again_keeps_its_place() {
    let mut c = Compound::new();
    c.put("a", NBT::Int(1));
    c.put("b", NBT::Int(2));
    c.put("a", NBT::String("again".to_string()));
    assert_eq!(c.len(), 2);
    let names: Vec<&str> = c.entries().iter().map(|(n, _)| n.as_str()).collect();
    assert_eq!(names, vec!["a", "b"]);
    assert_eq!(c.get("a"), Some(&NBT::String("again".to_string())));
    assert_eq!(c.get("b"), Some(&NBT::Int(2)));
    assert_eq!(c.get("c"), None);

    // The same holds of entries that are read.
    let mut buffer = Buffer::from(vec![
        1u8, 1, b'a', 1, // a = 1
        1, 1, b'b', 2, // b = 2
        1, 1, b'a', 3, // a = 3
        0,
    ]);
    let back = decode::<NetworkLittleEndian>(Tag::Compound, &mut buffer).unwrap();
    assert_eq!(back, NBT::Compound(compound_of(vec![("a", NBT::Byte(3)), ("b", NBT::Byte(2))])));
}

#[test]
fn a_list_takes_only_its_own_kind() {
    let mut l = List::new(Tag::Int);
    assert!(l.push(NBT::Int(1)));
    assert!(!l.push(NBT::Long(2)));
    assert!(!l.push(NBT::String("3".to_string())));
    assert!(l.push(NBT::Int(4)));
    assert_eq!(l.len(), 2);
    assert_eq!(l.tag(), Tag::Int);
    assert_eq!(l.items(), &vec![NBT::Int(1), NBT::Int(4)]);
    // A list of end markers stays empty.
    let mut none = List::new(Tag::End);
    assert!(!none.push(NBT::Byte(0)));
    assert_eq!(none.len(), 0);
}

#[test]
fn node_kinds() {
    assert_eq!(NBT::Byte(0).tag(), Tag::Byte);
    assert_eq!(NBT::Short(0).tag(), Tag::Short);
    assert_eq!(NBT::Int(0).tag(), Tag::Int);
    assert_eq!(NBT::Long(0).tag(), Tag::Long);
    assert_eq!(NBT::Float(0).tag(), Tag::Float);
    assert_eq!(NBT::Double(0).tag(), Tag::Double);
    assert_eq!(NBT::ByteArray(vec![]).tag(), Tag::ByteArray);
    assert_eq!(NBT::String(String::new()).tag(), Tag::String);
    assert_eq!(NBT::List(List::new(Tag::End)).tag(), Tag::List);
    assert_eq!(NBT::Compound(Compound::new()).tag(), Tag::Compound);
    assert_eq!(NBT::IntArray(vec![]).tag(), Tag::IntArray);
    assert_eq!(NBT::LongArray(vec![]).tag(), Tag::LongArray);
}

fn nested_lists(levels: usize) -> Vec<u8> {
    // Each level is a list of one list; the innermost is an empty list of bytes.
    let mut bytes = Vec::new();
    for _ in 1..levels {
        bytes.push(9);
        bytes.push(0x02);
    }
    bytes.push(1);
    bytes.push(0);
    bytes
}

#[test]
fn nesting_up_to_the_limit_is_read() {
    let mut buffer = Buffer::from(nested_lists(MAX_DEPTH));
    let mut node = decode::<NetworkLittleEndian>(Tag::List, &mut buffer).unwrap();
    assert_eq!(buffer.remaining(), 0);
    let mut levels = 0;
    loop {
        match node {
            NBT::List(l) => {
                levels += 1;
                let mut items = Vec::new();
                for item in l.items() {
                    items.push(item);
                }
                if items.is_empty() {
                    assert_eq!(l.tag(), Tag::Byte);
                    break;
                }
                assert_eq!(items.len(), 1);
                // Walk down by decoding the rest again: the tree owns its items.
                let mut rest = Buffer::from(nested_lists(MAX_DEPTH - levels));
                node = decode::<NetworkLittleEndian>(Tag::List, &mut rest).unwrap();
                assert_eq!(&node, items[0]);
            }
            other => panic!("not a list: {:?}", other),
        }
    }
    assert_eq!(levels, MAX_DEPTH);
}

#[test]
fn nesting_beyond_the_limit_is_refused() {
    let mut buffer = Buffer::from(nested_lists(MAX_DEPTH + 1));
    assert_eq!(
        decode::<NetworkLittleEndian>(Tag::List, &mut buffer),
        Err(CodecError::DepthExceeded)
    );
    // Compounds count as well.
    let mut bytes = Vec::new();
    for _ in 0..MAX_DEPTH {
        bytes.extend_from_slice(&[10, 0]);
    }
    for _ in 0..=MAX_DEPTH {
        bytes.push(0);
    }
    let mut buffer = Buffer::from(bytes);
    assert_eq!(
        decode::<NetworkLittleEndian>(Tag::Compound, &mut buffer),
        Err(CodecError::DepthExceeded)
    );
    // A long run of opening compounds ends the same way, without a crash.
    let mut buffer = Buffer::from([10u8, 0].repeat(100_000));
    assert_eq!(
        decode::<NetworkLittleEndian>(Tag::Compound, &mut buffer),
        Err(CodecError::DepthExceeded)
    );
}

#[test]
fn a_tree_cut_short_by_a_full_region_does_not_come_back() {
    let mut buffer = Buffer::new(10);
    RootNBT::<NetworkLittleEndian>::new(one_of_each()).serialize(&mut buffer);
    assert_eq!(buffer.len(), 10);
    assert!(RootNBT::<NetworkLittleEndian>::deserialize(&mut buffer).is_err());
}

#[test]
fn long_names_in_the_storage_profile() {
    // A name of 300 bytes needs both bytes of the 16-bit length.
    let name = "n".repeat(300);
    let tree = || NBT::Compound(compound_of(vec![(name.as_str(), NBT::Byte(1))]));
    let mut buffer = Buffer::new(512);
    RootNBT::<LittleEndian>::new(tree()).serialize(&mut buffer);
    assert_eq!(&buffer.get_data()[..6], &[10u8, 0, 0, 1, 0x2c, 0x01]);
    let back = RootNBT::<LittleEndian>::deserialize(&mut buffer).unwrap();
    assert_eq!(back.get(), tree());
}
