//! The two byte orders in which fixed-width numbers travel.

use vstd::prelude::*;
use crate::buffer::{Buffer, BufferView};
use crate::fixed::{
    i16_bits, i16_of_bits, i32_bits, i32_of_bits, i64_bits, i64_of_bits, lemma_pow256_values,
    ordered_bytes, parse_fixed, read_fixed, to_signed, to_unsigned, write_fixed,
};

verus! {

/// The region after a read of `width` bytes: the cursor has passed them, or
/// what was left of them.
pub open spec fn after_fixed(big: bool, width: nat, before: BufferView) -> BufferView {
    before.advance(parse_fixed(big, width, before.unread()).consumed)
}

/// The unsigned number that a read of `width` bytes gives, if that many are
/// unread.
pub open spec fn unsigned_read(big: bool, width: nat, before: BufferView) -> Option<int> {
    match parse_fixed(big, width, before.unread()).value {
        Ok(u) => Some(u as int),
        Err(_) => None,
    }
}

/// The signed number that a read of `width` bytes gives, if that many are
/// unread.
pub open spec fn signed_read(big: bool, width: nat, before: BufferView) -> Option<int> {
    match parse_fixed(big, width, before.unread()).value {
        Ok(u) => Some(to_signed(u, width)),
        Err(_) => None,
    }
}

/// How the bytes of a fixed-width number are arranged on the wire. The two
/// orders are [`LE`] and [`BE`].
pub trait ByteOrder {
    /// Whether the most significant byte comes first.
    spec fn big_endian() -> bool;

    /// Reads an unsigned 16-bit number. With fewer than 2 bytes unread the read
    /// takes what is left and returns nothing.
    fn read_u16(buf: &mut Buffer) -> (r: Option<u16>)
        requires
            old(buf).wf(),
        ensures
            final(buf).wf(),
            final(buf)@ == after_fixed(Self::big_endian(), 2, old(buf)@),
            match r {
                Some(v) => unsigned_read(Self::big_endian(), 2, old(buf)@) == Some(v as int),
                None => unsigned_read(Self::big_endian(), 2, old(buf)@) is None,
            },
    ;

    /// Appends an unsigned 16-bit number, as far as the region has room.
    fn write_u16(val: u16, buf: &mut Buffer)
        requires
            old(buf).wf(),
        ensures
            final(buf).wf(),
            final(buf)@ == old(buf)@.write(
                ordered_bytes(Self::big_endian(), val as nat, 2),
            ),
    ;

    /// Reads a signed 16-bit number. With fewer than 2 bytes unread the read
    /// takes what is left and returns nothing.
    fn read_i16(buf: &mut Buffer) -> (r: Option<i16>)
        requires
            old(buf).wf(),
        ensures
            final(buf).wf(),
            final(buf)@ == after_fixed(Self::big_endian(), 2, old(buf)@),
            match r {
                Some(v) => signed_read(Self::big_endian(), 2, old(buf)@) == Some(v as int),
                None => signed_read(Self::big_endian(), 2, old(buf)@) is None,
            },
    ;

    /// Appends a signed 16-bit number, as far as the region has room.
    fn write_i16(val: i16, buf: &mut Buffer)
        requires
            old(buf).wf(),
        ensures
            final(buf).wf(),
            final(buf)@ == old(buf)@.write(
                ordered_bytes(Self::big_endian(), to_unsigned(val as int, 2), 2),
            ),
    ;

    /// Reads an unsigned 24-bit number, three bytes wide. With fewer than 3
    /// bytes unread the read takes what is left and returns nothing.
    fn read_u24(buf: &mut Buffer) -> (r: Option<u32>)
        requires
            old(buf).wf(),
        ensures
            final(buf).wf(),
            final(buf)@ == after_fixed(Self::big_endian(), 3, old(buf)@),
            match r {
                Some(v) => unsigned_read(Self::big_endian(), 3, old(buf)@) == Some(v as int),
                None => unsigned_read(Self::big_endian(), 3, old(buf)@) is None,
            },
    ;

    /// Appends an unsigned 24-bit number, three bytes wide, as far as the
    /// region has room.
    fn write_u24(val: u32, buf: &mut Buffer)
        requires
            old(buf).wf(),
        ensures
            final(buf).wf(),
            final(buf)@ == old(buf)@.write(
                ordered_bytes(Self::big_endian(), val as nat, 3),
            ),
    ;

    /// Reads an unsigned 32-bit number. With fewer than 4 bytes unread the read
    /// takes what is left and returns nothing.
    fn read_u32(buf: &mut Buffer) -> (r: Option<u32>)
        requires
            old(buf).wf(),
        ensures
            final(buf).wf(),
            final(buf)@ == after_fixed(Self::big_endian(), 4, old(buf)@),
            match r {
                Some(v) => unsigned_read(Self::big_endian(), 4, old(buf)@) == Some(v as int),
                None => unsigned_read(Self::big_endian(), 4, old(buf)@) is None,
            },
    ;

    /// Appends an unsigned 32-bit number, as far as the region has room.
    fn write_u32(val: u32, buf: &mut Buffer)
        requires
            old(buf).wf(),
        ensures
            final(buf).wf(),
            final(buf)@ == old(buf)@.write(
                ordered_bytes(Self::big_endian(), val as nat, 4),
            ),
    ;

    /// Reads a signed 32-bit number. With fewer than 4 bytes unread the read
    /// takes what is left and returns nothing.
    fn read_i32(buf: &mut Buffer) -> (r: Option<i32>)
        requires
            old(buf).wf(),
        ensures
            final(buf).wf(),
            final(buf)@ == after_fixed(Self::big_endian(), 4, old(buf)@),
            match r {
                Some(v) => signed_read(Self::big_endian(), 4, old(buf)@) == Some(v as int),
                None => signed_read(Self::big_endian(), 4, old(buf)@) is None,
            },
    ;

    /// Appends a signed 32-bit number, as far as the region has room.
    fn write_i32(val: i32, buf: &mut Buffer)
        requires
            old(buf).wf(),
        ensures
            final(buf).wf(),
            final(buf)@ == old(buf)@.write(
                ordered_bytes(Self::big_endian(), to_unsigned(val as int, 4), 4),
            ),
    ;

    /// Reads an unsigned 64-bit number. With fewer than 8 bytes unread the read
    /// takes what is left and returns nothing.
    fn read_u64(buf: &mut Buffer) -> (r: Option<u64>)
        requires
            old(buf).wf(),
        ensures
            final(buf).wf(),
            final(buf)@ == after_fixed(Self::big_endian(), 8, old(buf)@),
            match r {
                Some(v) => unsigned_read(Self::big_endian(), 8, old(buf)@) == Some(v as int),
                None => unsigned_read(Self::big_endian(), 8, old(buf)@) is None,
            },
    ;

    /// Appends an unsigned 64-bit number, as far as the region has room.
    fn write_u64(val: u64, buf: &mut Buffer)
        requires
            old(buf).wf(),
        ensures
            final(buf).wf(),
            final(buf)@ == old(buf)@.write(
                ordered_bytes(Self::big_endian(), val as nat, 8),
            ),
    ;

    /// Reads a signed 64-bit number. With fewer than 8 bytes unread the read
    /// takes what is left and returns nothing.
    fn read_i64(buf: &mut Buffer) -> (r: Option<i64>)
        requires
            old(buf).wf(),
        ensures
            final(buf).wf(),
            final(buf)@ == after_fixed(Self::big_endian(), 8, old(buf)@),
            match r {
                Some(v) => signed_read(Self::big_endian(), 8, old(buf)@) == Some(v as int),
                None => signed_read(Self::big_endian(), 8, old(buf)@) is None,
            },
    ;

    /// Appends a signed 64-bit number, as far as the region has room.
    fn write_i64(val: i64, buf: &mut Buffer)
        requires
            old(buf).wf(),
        ensures
            final(buf).wf(),
            final(buf)@ == old(buf)@.write(
                ordered_bytes(Self::big_endian(), to_unsigned(val as int, 8), 8),
            ),
    ;

    /// Reads a single-precision number, carried as its IEEE 754 bit pattern.
    /// With fewer than 4 bytes unread the read takes what is left and returns
    /// nothing.
    fn read_f32(buf: &mut Buffer) -> (r: Option<u32>)
        requires
            old(buf).wf(),
        ensures
            final(buf).wf(),
            final(buf)@ == after_fixed(Self::big_endian(), 4, old(buf)@),
            match r {
                Some(v) => unsigned_read(Self::big_endian(), 4, old(buf)@) == Some(v as int),
                None => unsigned_read(Self::big_endian(), 4, old(buf)@) is None,
            },
    ;

    /// Appends a single-precision number, carried as its IEEE 754 bit pattern,
    /// as far as the region has room.
    fn write_f32(val: u32, buf: &mut Buffer)
        requires
            old(buf).wf(),
        ensures
            final(buf).wf(),
            final(buf)@ == old(buf)@.write(
                ordered_bytes(Self::big_endian(), val as nat, 4),
            ),
    ;

    /// Reads a double-precision number, carried as its IEEE 754 bit pattern.
    /// With fewer than 8 bytes unread the read takes what is left and returns
    /// nothing.
    fn read_f64(buf: &mut Buffer) -> (r: Option<u64>)
        requires
            old(buf).wf(),
        ensures
            final(buf).wf(),
            final(buf)@ == after_fixed(Self::big_endian(), 8, old(buf)@),
            match r {
                Some(v) => unsigned_read(Self::big_endian(), 8, old(buf)@) == Some(v as int),
                None => unsigned_read(Self::big_endian(), 8, old(buf)@) is None,
            },
    ;

    /// Appends a double-precision number, carried as its IEEE 754 bit pattern,
    /// as far as the region has room.
    fn write_f64(val: u64, buf: &mut Buffer)
        requires
            old(buf).wf(),
        ensures
            final(buf).wf(),
            final(buf)@ == old(buf)@.write(
                ordered_bytes(Self::big_endian(), val as nat, 8),
            ),
    ;
}

/// Little-endian: the least significant byte comes first.
#[derive(Debug, Clone, Copy, PartialEq, Eq)]
pub struct LE;

/// Big-endian: the most significant byte comes first.
#[derive(Debug, Clone, Copy, PartialEq, Eq)]
pub struct BE;

impl ByteOrder for LE {
    open spec fn big_endian() -> bool {
        false
    }

    fn read_u16(buf: &mut Buffer) -> (r: Option<u16>) {
        proof {
            lemma_pow256_values();
        }
        match read_fixed(buf, 2, false) {
            Some(v) => Some(v as u16),
            None => None,
        }
    }

    fn write_u16(val: u16, buf: &mut Buffer) {
        write_fixed(buf, val as u64, 2, false)
    }

    fn read_i16(buf: &mut Buffer) -> (r: Option<i16>) {
        proof {
            lemma_pow256_values();
        }
        match read_fixed(buf, 2, false) {
            Some(v) => Some(i16_of_bits(v as u16)),
            None => None,
        }
    }

    fn write_i16(val: i16, buf: &mut Buffer) {
        write_fixed(buf, i16_bits(val) as u64, 2, false)
    }

    fn read_u24(buf: &mut Buffer) -> (r: Option<u32>) {
        proof {
            lemma_pow256_values();
        }
        match read_fixed(buf, 3, false) {
            Some(v) => Some(v as u32),
            None => None,
        }
    }

    fn write_u24(val: u32, buf: &mut Buffer) {
        write_fixed(buf, val as u64, 3, false)
    }

    fn read_u32(buf: &mut Buffer) -> (r: Option<u32>) {
        proof {
            lemma_pow256_values();
        }
        match read_fixed(buf, 4, false) {
            Some(v) => Some(v as u32),
            None => None,
        }
    }

    fn write_u32(val: u32, buf: &mut Buffer) {
        write_fixed(buf, val as u64, 4, false)
    }

    fn read_i32(buf: &mut Buffer) -> (r: Option<i32>) {
        proof {
            lemma_pow256_values();
        }
        match read_fixed(buf, 4, false) {
            Some(v) => Some(i32_of_bits(v as u32)),
            None => None,
        }
    }

    fn write_i32(val: i32, buf: &mut Buffer) {
        write_fixed(buf, i32_bits(val) as u64, 4, false)
    }

    fn read_u64(buf: &mut Buffer) -> (r: Option<u64>) {
        proof {
            lemma_pow256_values();
        }
        match read_fixed(buf, 8, false) {
            Some(v) => Some(v as u64),
            None => None,
        }
    }

    fn write_u64(val: u64, buf: &mut Buffer) {
        write_fixed(buf, val as u64, 8, false)
    }

    fn read_i64(buf: &mut Buffer) -> (r: Option<i64>) {
        proof {
            lemma_pow256_values();
        }
        match read_fixed(buf, 8, false) {
            Some(v) => Some(i64_of_bits(v as u64)),
            None => None,
        }
    }

    fn write_i64(val: i64, buf: &mut Buffer) {
        write_fixed(buf, i64_bits(val) as u64, 8, false)
    }

    fn read_f32(buf: &mut Buffer) -> (r: Option<u32>) {
        proof {
            lemma_pow256_values();
        }
        match read_fixed(buf, 4, false) {
            Some(v) => Some(v as u32),
            None => None,
        }
    }

    fn write_f32(val: u32, buf: &mut Buffer) {
        write_fixed(buf, val as u64, 4, false)
    }

    fn read_f64(buf: &mut Buffer) -> (r: Option<u64>) {
        proof {
            lemma_pow256_values();
        }
        match read_fixed(buf, 8, false) {
            Some(v) => Some(v as u64),
            None => None,
        }
    }

    fn write_f64(val: u64, buf: &mut Buffer) {
        write_fixed(buf, val as u64, 8, false)
    }
}

impl ByteOrder for BE {
    open spec fn big_endian() -> bool {
        true
    }

    fn read_u16(buf: &mut Buffer) -> (r: Option<u16>) {
        proof {
            lemma_pow256_values();
        }
        match read_fixed(buf, 2, true) {
            Some(v) => Some(v as u16),
            None => None,
        }
    }

    fn write_u16(val: u16, buf: &mut Buffer) {
        write_fixed(buf, val as u64, 2, true)
    }

    fn read_i16(buf: &mut Buffer) -> (r: Option<i16>) {
        proof {
            lemma_pow256_values();
        }
        match read_fixed(buf, 2, true) {
            Some(v) => Some(i16_of_bits(v as u16)),
            None => None,
        }
    }

    fn write_i16(val: i16, buf: &mut Buffer) {
        write_fixed(buf, i16_bits(val) as u64, 2, true)
    }

    fn read_u24(buf: &mut Buffer) -> (r: Option<u32>) {
        proof {
            lemma_pow256_values();
        }
        match read_fixed(buf, 3, true) {
            Some(v) => Some(v as u32),
            None => None,
        }
    }

    fn write_u24(val: u32, buf: &mut Buffer) {
        write_fixed(buf, val as u64, 3, true)
    }

    fn read_u32(buf: &mut Buffer) -> (r: Option<u32>) {
        proof {
            lemma_pow256_values();
        }
        match read_fixed(buf, 4, true) {
            Some(v) => Some(v as u32),
            None => None,
        }
    }

    fn write_u32(val: u32, buf: &mut Buffer) {
        write_fixed(buf, val as u64, 4, true)
    }

    fn read_i32(buf: &mut Buffer) -> (r: Option<i32>) {
        proof {
            lemma_pow256_values();
        }
        match read_fixed(buf, 4, true) {
            Some(v) => Some(i32_of_bits(v as u32)),
            None => None,
        }
    }

    fn write_i32(val: i32, buf: &mut Buffer) {
        write_fixed(buf, i32_bits(val) as u64, 4, true)
    }

    fn read_u64(buf: &mut Buffer) -> (r: Option<u64>) {
        proof {
            lemma_pow256_values();
        }
        match read_fixed(buf, 8, true) {
            Some(v) => Some(v as u64),
            None => None,
        }
    }

    fn write_u64(val: u64, buf: &mut Buffer) {
        write_fixed(buf, val as u64, 8, true)
    }

    fn read_i64(buf: &mut Buffer) -> (r: Option<i64>) {
        proof {
            lemma_pow256_values();
        }
        match read_fixed(buf, 8, true) {
            Some(v) => Some(i64_of_bits(v as u64)),
            None => None,
        }
    }

    fn write_i64(val: i64, buf: &mut Buffer) {
        write_fixed(buf, i64_bits(val) as u64, 8, true)
    }

    fn read_f32(buf: &mut Buffer) -> (r: Option<u32>) {
        proof {
            lemma_pow256_values();
        }
        match read_fixed(buf, 4, true) {
            Some(v) => Some(v as u32),
            None => None,
        }
    }

    fn write_f32(val: u32, buf: &mut Buffer) {
        write_fixed(buf, val as u64, 4, true)
    }

    fn read_f64(buf: &mut Buffer) -> (r: Option<u64>) {
        proof {
            lemma_pow256_values();
        }
        match read_fixed(buf, 8, true) {
            Some(v) => Some(v as u64),
            None => None,
        }
    }

    fn write_f64(val: u64, buf: &mut Buffer) {
        write_fixed(buf, val as u64, 8, true)
    }
}

} // verus!
