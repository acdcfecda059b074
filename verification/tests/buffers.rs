use binary::{Buffer, CodecError};

#[test]
fn new_region_is_empty() {
    let buffer = Buffer::new(16);
    assert_eq!(buffer.capacity(), 16);
    assert_eq!(buffer.length(), 0);
    assert_eq!(buffer.len(), 0);
    assert_eq!(buffer.size(), 0);
    assert_eq!(buffer.offset(), 0);
    assert_eq!(buffer.remaining(), 0);
    assert_eq!(buffer.remaining_mut(), 16);
    assert!(!buffer.has_remaining());
    assert!(buffer.has_remaining_mut());
    assert_eq!(buffer.get_data(), &[0u8; 0][..]);
}

#[test]
fn zeroed_region_is_all_written() {
    let buffer = Buffer::zeroed(4);
    assert_eq!(buffer.capacity(), 4);
    assert_eq!(buffer.length(), 4);
    assert_eq!(buffer.offset(), 0);
    assert_eq!(buffer.remaining(), 4);
    assert_eq!(buffer.remaining_mut(), 0);
    assert!(buffer.has_remaining());
    assert!(!buffer.has_remaining_mut());
    assert_eq!(buffer.get_data(), &[0u8, 0, 0, 0][..]);
}

#[test]
fn region_of_no_capacity() {
    let mut buffer = Buffer::new(0);
    assert_eq!(buffer.write(&[1, 2, 3]), 0);
    let mut dst = [9u8; 2];
    assert_eq!(buffer.read(&mut dst), 0);
    assert_eq!(dst, [9, 9]);
    assert_eq!(buffer.split_at(0).err(), Some(CodecError::BoundsError));
}

#[test]
fn region_from_bytes() {
    let buffer = Buffer::from(vec![1u8, 2, 3]);
    assert_eq!(buffer.capacity(), 3);
    assert_eq!(buffer.length(), 3);
    assert_eq!(buffer.offset(), 0);
    assert_eq!(buffer.get_data(), &[1u8, 2, 3][..]);
    let same = Buffer::from(vec![1u8, 2, 3]);
    assert_eq!(same.get_data(), buffer.get_data());
}

#[test]
fn write_appends_and_stops_when_full() {
    let mut buffer = Buffer::new(5);
    assert_eq!(buffer.write(&[1, 2, 3]), 3);
    assert_eq!(buffer.length(), 3);
    assert_eq!(buffer.offset(), 0);
    // Only two of the next four bytes fit.
    assert_eq!(buffer.write(&[4, 5, 6, 7]), 2);
    assert_eq!(buffer.length(), 5);
    assert_eq!(buffer.get_data(), &[1u8, 2, 3, 4, 5][..]);
    // Nothing more goes in, and the capacity has not grown.
    assert_eq!(buffer.write(&[8]), 0);
    assert_eq!(buffer.capacity(), 5);
    assert_eq!(buffer.get_data(), &[1u8, 2, 3, 4, 5][..]);
}

#[test]
fn write_of_nothing_changes_nothing() {
    let mut buffer = Buffer::new(2);
    assert_eq!(buffer.write(&[]), 0);
    assert_eq!(buffer.length(), 0);
}

#[test]
fn read_copies_and_moves_the_cursor() {
    let mut buffer = Buffer::from(vec![10u8, 20, 30, 40, 50]);
    let mut dst = [0u8; 2];
    assert_eq!(buffer.read(&mut dst), 2);
    assert_eq!(dst, [10, 20]);
    assert_eq!(buffer.offset(), 2);
    assert_eq!(buffer.remaining(), 3);
    // A short read fills the front of the destination and leaves the rest.
    let mut dst = [7u8; 5];
    assert_eq!(buffer.read(&mut dst), 3);
    assert_eq!(dst, [30, 40, 50, 7, 7]);
    assert_eq!(buffer.offset(), 5);
    assert_eq!(buffer.read(&mut dst), 0);
    assert_eq!(buffer.offset(), 5);
}

#[test]
fn read_sees_only_written_bytes() {
    let mut buffer = Buffer::new(8);
    buffer.write(&[1, 2, 3]);
    let mut dst = [0u8; 8];
    assert_eq!(buffer.read(&mut dst), 3);
    assert_eq!(&dst[..3], &[1, 2, 3]);
    buffer.write(&[4]);
    assert_eq!(buffer.read(&mut dst), 1);
    assert_eq!(dst[0], 4);
}

#[test]
fn read_byte_takes_one() {
    let mut buffer = Buffer::from(vec![5u8, 6]);
    assert_eq!(buffer.read_byte(), Some(5));
    assert_eq!(buffer.read_byte(), Some(6));
    assert_eq!(buffer.read_byte(), None);
    assert_eq!(buffer.offset(), 2);
}

#[test]
fn get_peeks_or_advances() {
    let mut buffer = Buffer::from(vec![1u8, 2, 3, 4]);
    assert_eq!(buffer.get(2, false).unwrap(), &[1u8, 2][..]);
    assert_eq!(buffer.offset(), 0);
    assert_eq!(buffer.get(2, true).unwrap(), &[1u8, 2][..]);
    assert_eq!(buffer.offset(), 2);
    assert_eq!(buffer.get(0, true).unwrap(), &[0u8; 0][..]);
    assert_eq!(buffer.get(2, true).unwrap(), &[3u8, 4][..]);
    assert_eq!(buffer.offset(), 4);
}

#[test]
fn get_past_the_end_is_refused() {
    let mut buffer = Buffer::from(vec![1u8, 2, 3]);
    assert_eq!(buffer.get(4, true).err(), Some(CodecError::BoundsError));
    assert_eq!(buffer.offset(), 0);
    buffer.advance(2);
    assert_eq!(buffer.get(2, false).err(), Some(CodecError::BoundsError));
    assert_eq!(buffer.offset(), 2);
    assert_eq!(buffer.get(usize::MAX, true).err(), Some(CodecError::BoundsError));
}

#[test]
fn advance_moves_only_within_written_bytes() {
    let mut buffer = Buffer::from(vec![0u8; 4]);
    assert!(buffer.advance(3));
    assert_eq!(buffer.offset(), 3);
    assert!(!buffer.advance(2));
    assert_eq!(buffer.offset(), 3);
    assert!(buffer.advance(1));
    assert!(buffer.advance(0));
    assert!(!buffer.advance(1));
    assert_eq!(buffer.offset(), 4);
}

#[test]
fn set_offset_resize_reset() {
    let mut buffer = Buffer::new(8);
    buffer.write(&[1, 2, 3, 4]);
    buffer.set_offset(3);
    assert_eq!(buffer.offset(), 3);
    assert_eq!(buffer.remaining(), 1);
    buffer.resize(6);
    assert_eq!(buffer.length(), 6);
    assert_eq!(buffer.capacity(), 8);
    assert_eq!(buffer.remaining(), 3);
    assert_eq!(&buffer.get_data()[..4], &[1, 2, 3, 4]);
    buffer.reset();
    assert_eq!(buffer.offset(), 0);
    assert_eq!(buffer.length(), 8);
    assert_eq!(buffer.remaining_mut(), 0);
    assert_eq!(&buffer.get_data()[..4], &[1, 2, 3, 4]);
}

#[test]
fn split_divides_written_bytes() {
    let mut buffer = Buffer::new(8);
    buffer.write(&[1, 2, 3, 4, 5, 6]);
    buffer.advance(2);
    let tail = buffer.split_at(4).unwrap();
    // The left keeps [0, 4), the right takes [4, 8) with the written length
    // beyond the split; both cursors start over.
    assert_eq!(buffer.capacity(), 4);
    assert_eq!(buffer.length(), 4);
    assert_eq!(buffer.offset(), 0);
    assert_eq!(buffer.get_data(), &[1u8, 2, 3, 4][..]);
    assert_eq!(tail.capacity(), 4);
    assert_eq!(tail.length(), 2);
    assert_eq!(tail.offset(), 0);
    assert_eq!(tail.get_data(), &[5u8, 6][..]);
}

#[test]
fn split_beyond_written_bytes() {
    let mut buffer = Buffer::new(8);
    buffer.write(&[1, 2]);
    let tail = buffer.split_at(5).unwrap();
    assert_eq!(buffer.capacity(), 5);
    assert_eq!(buffer.length(), 2);
    assert_eq!(buffer.get_data(), &[1u8, 2][..]);
    assert_eq!(tail.capacity(), 3);
    assert_eq!(tail.length(), 0);
}

#[test]
fn split_at_the_written_length() {
    let mut buffer = Buffer::new(8);
    buffer.write(&[1, 2, 3]);
    let tail = buffer.split_at(3).unwrap();
    assert_eq!(buffer.length(), 3);
    assert_eq!(buffer.capacity(), 3);
    assert_eq!(tail.length(), 0);
    assert_eq!(tail.capacity(), 5);
}

#[test]
fn split_at_zero_hands_everything_over() {
    let mut buffer = Buffer::from(vec![1u8, 2, 3]);
    let tail = buffer.split_at(0).unwrap();
    assert_eq!(buffer.capacity(), 0);
    assert_eq!(buffer.length(), 0);
    assert_eq!(tail.capacity(), 3);
    assert_eq!(tail.get_data(), &[1u8, 2, 3][..]);
}

#[test]
fn split_outside_the_region_is_refused() {
    let mut buffer = Buffer::new(4);
    buffer.write(&[1, 2, 3]);
    buffer.advance(1);
    assert_eq!(buffer.split_at(4).err(), Some(CodecError::BoundsError));
    assert_eq!(buffer.split_at(5).err(), Some(CodecError::BoundsError));
    assert_eq!(buffer.split_at(usize::MAX).err(), Some(CodecError::BoundsError));
    // A refused split leaves the region as it was.
    assert_eq!(buffer.capacity(), 4);
    assert_eq!(buffer.length(), 3);
    assert_eq!(buffer.offset(), 1);
    assert!(buffer.split_at(3).is_ok());
}

#[test]
fn halves_of_a_split_do_not_see_each_other() {
    let mut left = Buffer::new(8);
    left.write(&[1, 2]);
    let mut right = left.split_at(4).unwrap();
    let capacities = left.capacity() + right.capacity();
    assert_eq!(capacities, 8);

    // Writing the left full never reaches the right.
    assert_eq!(left.write(&[3, 4, 5, 6, 7]), 2);
    assert_eq!(left.get_data(), &[1u8, 2, 3, 4][..]);
    assert_eq!(right.length(), 0);
    assert_eq!(right.get_data(), &[0u8; 0][..]);

    // And the other way round.
    assert_eq!(right.write(&[9, 9, 9, 9, 9]), 4);
    assert_eq!(right.get_data(), &[9u8, 9, 9, 9][..]);
    assert_eq!(left.get_data(), &[1u8, 2, 3, 4][..]);
    assert_eq!(left.capacity(), 4);
    assert_eq!(right.capacity(), 4);
}

#[test]
fn split_of_a_split() {
    let mut a = Buffer::from((0u8..10).collect::<Vec<u8>>());
    let mut b = a.split_at(6).unwrap();
    let c = b.split_at(1).unwrap();
    assert_eq!(a.get_data(), &[0u8, 1, 2, 3, 4, 5][..]);
    assert_eq!(b.get_data(), &[6u8][..]);
    assert_eq!(c.get_data(), &[7u8, 8, 9][..]);
    assert_eq!(a.capacity() + b.capacity() + c.capacity(), 10);
}
