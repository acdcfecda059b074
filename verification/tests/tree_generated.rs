use binary::{
    Binary, Buffer, Compound, Encoding, List, LittleEndian, NetworkLittleEndian, RootNBT, Tag, NBT,
};

// Trees of bounded depth from a small deterministic generator.

struct Source(u64);

impl Source {
    fn next(&mut self) -> u64 {
        self.0 ^= self.0 << 13;
        self.0 ^= self.0 >> 7;
        self.0 ^= self.0 << 17;
        self.0
    }

    fn below(&mut self, n: u64) -> u64 {
        self.next() % n
    }

    fn text(&mut self) -> String {
        let alphabet = ['a', 'b', 'é', 'z', '0', ' ', '世', '\u{1F600}', ':'];
        let len = self.below(6);
        (0..len).map(|_| alphabet[self.below(alphabet.len() as u64) as usize]).collect()
    }
}

const SCALARS: [Tag; 9] = [
    Tag::Byte,
    Tag::Short,
    Tag::Int,
    Tag::Long,
    Tag::Float,
    Tag::Double,
    Tag::ByteArray,
    Tag::String,
    Tag::IntArray,
];

fn kind(src: &mut Source, depth: u32) -> Tag {
    let n = src.below(13);
    match n {
        0..=8 => SCALARS[n as usize],
        9 => Tag::LongArray,
        10 | 11 if depth > 0 => if n == 10 { Tag::List } else { Tag::Compound },
        _ => Tag::Int,
    }
}

fn tree(src: &mut Source, tag: Tag, depth: u32) -> NBT {
    match tag {
        Tag::Byte => NBT::Byte(src.next() as i8),
        Tag::Short => NBT::Short(src.next() as i16),
        Tag::Int => NBT::Int(src.next() as i32),
        Tag::Long => NBT::Long(src.next() as i64),
        Tag::Float => NBT::Float(src.next() as u32),
        Tag::Double => NBT::Double(src.next()),
        Tag::ByteArray => NBT::ByteArray((0..src.below(5)).map(|_| src.next() as i8).collect()),
        Tag::String => NBT::String(src.text()),
        Tag::IntArray => NBT::IntArray((0..src.below(5)).map(|_| src.next() as i32).collect()),
        Tag::LongArray => NBT::LongArray((0..src.below(5)).map(|_| src.next() as i64).collect()),
        Tag::List => {
            let len = src.below(4);
            let element = if len == 0 && src.below(2) == 0 { Tag::End } else { kind(src, depth - 1) };
            let mut list = List::new(element);
            if element != Tag::End {
                for _ in 0..len {
                    assert!(list.push(tree(src, element, depth - 1)));
                }
            }
            NBT::List(list)
        }
        Tag::Compound => {
            let mut compound = Compound::new();
            for i in 0..src.below(5) {
                let tag = kind(src, depth - 1);
                // The index keeps the names apart.
                let name = format!("{}{}", src.text(), i);
                compound.put(&name, tree(src, tag, depth - 1));
            }
            NBT::Compound(compound)
        }
        Tag::End => unreachable!(),
    }
}

fn round_trips<E: Encoding + PartialEq + std::fmt::Debug>(seed: u64) {
    let make = || {
        let mut src = Source(seed);
        let tag = if src.below(2) == 0 { Tag::Compound } else { kind(&mut src, 4) };
        tree(&mut src, tag, 4)
    };
    let mut buffer = Buffer::new(1 << 16);
    RootNBT::<E>::new(make()).serialize(&mut buffer);
    assert!(buffer.has_remaining_mut(), "the tree of seed {} did not fit", seed);
    let written = buffer.len();
    let back = RootNBT::<E>::deserialize(&mut buffer).unwrap();
    assert_eq!(buffer.offset(), written);
    assert_eq!(back.name(), "");
    assert_eq!(back.get(), make(), "seed {}", seed);
}

#[test]
fn generated_trees_round_trip_in_the_network_profile() {
    for seed in 1..=500u64 {
        round_trips::<NetworkLittleEndian>(seed.wrapping_mul(0x9e37_79b9_7f4a_7c15));
    }
}

#[test]
fn generated_trees_round_trip_in_the_storage_profile() {
    for seed in 1..=500u64 {
        round_trips::<LittleEndian>(seed.wrapping_mul(0x9e37_79b9_7f4a_7c15));
    }
}

#[test]
fn generated_trees_differ() {
    let mut seen = Vec::new();
    for seed in 1..=40u64 {
        let mut src = Source(seed.wrapping_mul(0x9e37_79b9_7f4a_7c15));
        let t = tree(&mut src, Tag::Compound, 4);
        let mut buffer = Buffer::new(1 << 16);
        RootNBT::<NetworkLittleEndian>::new(t).serialize(&mut buffer);
        seen.push(buffer.get_data().to_vec());
    }
    seen.sort();
    seen.dedup();
    assert!(seen.len() > 20);
}
