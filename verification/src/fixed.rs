//! Fixed-width integers as bytes, in either byte order.

use vstd::prelude::*;
use crate::buffer::Buffer;
use crate::error::CodecError;
use crate::parsed::Parsed;

verus! {

/// `256` to the power `n`.
pub open spec fn pow256(n: nat) -> nat
    decreases n,
{
    if n == 0 {
        1
    } else {
        256 * pow256((n - 1) as nat)
    }
}

/// The `width` low-order bytes of `v`, least significant first.
pub open spec fn le_bytes(v: nat, width: nat) -> Seq<u8>
    decreases width,
{
    if width == 0 {
        Seq::empty()
    } else {
        seq![(v % 256) as u8] + le_bytes(v / 256, (width - 1) as nat)
    }
}

/// The number whose bytes, least significant first, are `s`.
pub open spec fn le_value(s: Seq<u8>) -> nat
    decreases s.len(),
{
    if s.len() == 0 {
        0
    } else {
        s[0] as nat + 256 * le_value(s.subrange(1, s.len() as int))
    }
}

/// The `width` low-order bytes of `v`, most significant first if `big`.
pub open spec fn ordered_bytes(big: bool, v: nat, width: nat) -> Seq<u8> {
    if big {
        le_bytes(v, width).reverse()
    } else {
        le_bytes(v, width)
    }
}

/// The number whose bytes are `s`, most significant first if `big`.
pub open spec fn ordered_value(big: bool, s: Seq<u8>) -> nat {
    if big {
        le_value(s.reverse())
    } else {
        le_value(s)
    }
}

/// Reading `width` bytes as a number: with fewer bytes left the read comes up
/// short and takes them all.
pub open spec fn parse_fixed(big: bool, width: nat, s: Seq<u8>) -> Parsed<nat> {
    if s.len() >= width {
        Parsed::ok(ordered_value(big, s.subrange(0, width as int)), width)
    } else {
        Parsed::err(CodecError::BoundsError, s.len())
    }
}

/// The unsigned number with the same `width` bytes as `v` in two's complement.
pub open spec fn to_unsigned(v: int, width: nat) -> nat {
    if v >= 0 {
        v as nat
    } else {
        (v + pow256(width)) as nat
    }
}

/// The signed number with the same `width` bytes as `u` in two's complement.
pub open spec fn to_signed(u: nat, width: nat) -> int {
    if 2 * u < pow256(width) {
        u as int
    } else {
        u - pow256(width)
    }
}

/// The powers of `256` up to the eighth.
pub proof fn lemma_pow256_values()
    ensures
        pow256(0) == 1,
        pow256(1) == 0x100,
        pow256(2) == 0x1_0000,
        pow256(3) == 0x100_0000,
        pow256(4) == 0x1_0000_0000,
        pow256(5) == 0x100_0000_0000,
        pow256(6) == 0x1_0000_0000_0000,
        pow256(7) == 0x100_0000_0000_0000,
        pow256(8) == 0x1_0000_0000_0000_0000,
{
    reveal_with_fuel(pow256, 9);
}

/// A number written `width` bytes wide takes `width` bytes.
pub proof fn lemma_le_bytes_len(v: nat, width: nat)
    ensures
        le_bytes(v, width).len() == width,
    decreases width,
{
    if width > 0 {
        lemma_le_bytes_len(v / 256, (width - 1) as nat);
    }
}

/// The number read from bytes fits in as many bytes.
pub proof fn lemma_le_value_bound(s: Seq<u8>)
    ensures
        le_value(s) < pow256(s.len()),
    decreases s.len(),
{
    if s.len() > 0 {
        lemma_le_value_bound(s.subrange(1, s.len() as int));
    }
}

/// A number that fits in `width` bytes is read back from its bytes.
pub proof fn lemma_le_round_trip(v: nat, width: nat)
    requires
        v < pow256(width),
    ensures
        le_value(le_bytes(v, width)) == v,
    decreases width,
{
    if width > 0 {
        let rest = le_bytes(v / 256, (width - 1) as nat);
        let s = le_bytes(v, width);
        assert(s.subrange(1, s.len() as int) =~= rest);
        lemma_le_round_trip(v / 256, (width - 1) as nat);
    }
}

/// Bytes are written back from the number they were read as.
pub proof fn lemma_le_bytes_of_value(s: Seq<u8>)
    ensures
        le_bytes(le_value(s), s.len()) == s,
    decreases s.len(),
{
    if s.len() > 0 {
        let tail = s.subrange(1, s.len() as int);
        lemma_le_bytes_of_value(tail);
        let v = le_value(s);
        assert(v % 256 == s[0] as nat);
        assert(v / 256 == le_value(tail));
        assert(le_bytes(v, s.len()) =~= s);
    } else {
        assert(le_bytes(le_value(s), s.len()) =~= s);
    }
}

/// In either byte order, a number that fits in `width` bytes is read back
/// from its bytes, whatever follows them.
pub proof fn lemma_fixed_round_trip(big: bool, v: nat, width: nat, rest: Seq<u8>)
    requires
        v < pow256(width),
    ensures
        ordered_bytes(big, v, width).len() == width,
        parse_fixed(big, width, ordered_bytes(big, v, width) + rest) == Parsed::ok(v, width),
{
    lemma_le_bytes_len(v, width);
    lemma_le_round_trip(v, width);
    let b = ordered_bytes(big, v, width);
    assert((b + rest).subrange(0, width as int) =~= b);
    if big {
        assert(le_bytes(v, width).reverse().reverse() =~= le_bytes(v, width));
    }
}

/// Bytes that break off before the full width are refused, in either byte
/// order, and the read takes what is there.
pub proof fn lemma_fixed_truncated(big: bool, width: nat, s: Seq<u8>)
    requires
        s.len() < width,
    ensures
        parse_fixed(big, width, s) == Parsed::<nat>::err(CodecError::BoundsError, s.len()),
{
}

/// Two's complement loses nothing: a signed number within `width` bytes comes
/// back from its unsigned image.
pub proof fn lemma_signed_round_trip(v: int, width: nat)
    requires
        -(pow256(width) as int) <= 2 * v < pow256(width),
    ensures
        to_unsigned(v, width) < pow256(width),
        to_signed(to_unsigned(v, width), width) == v,
{
}

/// The number whose bytes, in the given order, are `s`.
pub fn value_of_bytes(s: &[u8], big: bool) -> (v: u64)
    requires
        s@.len() <= 8,
    ensures
        v == ordered_value(big, s@),
{
    let n = s.len();
    let mut acc: u64 = 0;
    proof {
        lemma_pow256_values();
    }
    if big {
        let mut i: usize = 0;
        assert(s@.subrange(0, 0).reverse() =~= Seq::<u8>::empty());
        while i < n
            invariant
                i <= n,
                n == s@.len(),
                n <= 8,
                acc == le_value(s@.subrange(0, i as int).reverse()),
                acc < pow256(i as nat),
                pow256(8) == 0x1_0000_0000_0000_0000,
            decreases n - i,
        {
            let ghost prev = s@.subrange(0, i as int).reverse();
            let ghost next = s@.subrange(0, i + 1).reverse();
            proof {
                assert(next.subrange(1, next.len() as int) =~= prev);
                assert(next[0] == s@[i as int]);
                lemma_le_value_bound(next);
                lemma_pow256_monotonic((i + 1) as nat, 8);
            }
            acc = acc * 256 + s[i] as u64;
            i = i + 1;
        }
        assert(s@.subrange(0, n as int) =~= s@);
    } else {
        let mut i: usize = n;
        assert(s@.subrange(n as int, n as int) =~= Seq::<u8>::empty());
        while i > 0
            invariant
                i <= n,
                n == s@.len(),
                n <= 8,
                acc == le_value(s@.subrange(i as int, n as int)),
                acc < pow256((n - i) as nat),
                pow256(8) == 0x1_0000_0000_0000_0000,
            decreases i,
        {
            let ghost prev = s@.subrange(i as int, n as int);
            let ghost next = s@.subrange(i - 1, n as int);
            proof {
                assert(next.subrange(1, next.len() as int) =~= prev);
                assert(next[0] == s@[i - 1]);
                lemma_le_value_bound(next);
                lemma_pow256_monotonic((n - i + 1) as nat, 8);
            }
            i = i - 1;
            acc = acc * 256 + s[i] as u64;
        }
        assert(s@.subrange(0, n as int) =~= s@);
    }
    acc
}

/// Reads a number of `width` bytes in the given order. With fewer than `width`
/// bytes unread, the read takes what is left and reports nothing.
pub fn read_fixed(buf: &mut Buffer, width: usize, big: bool) -> (r: Option<u64>)
    requires
        old(buf).wf(),
        width <= 8,
    ensures
        final(buf).wf(),
        final(buf)@ == old(buf)@.advance(
            parse_fixed(big, width as nat, old(buf)@.unread()).consumed,
        ),
        match r {
            Some(v) => v < pow256(width as nat) && parse_fixed(
                big,
                width as nat,
                old(buf)@.unread(),
            ).value == Ok::<nat, CodecError>(v as nat),
            None => parse_fixed(big, width as nat, old(buf)@.unread()).value is Err,
        },
{
    proof {
        let head = old(buf)@.unread().subrange(0, width as int);
        if old(buf)@.unread().len() >= width {
            lemma_le_value_bound(head);
            lemma_le_value_bound(head.reverse());
        }
    }
    let left = buf.remaining();
    if left < width {
        buf.advance(left);
        return None;
    }
    match buf.get(width, true) {
        Ok(s) => Some(value_of_bytes(s, big)),
        Err(_) => None,
    }
}

/// Appends the `width` low-order bytes of `v` in the given order, as far as
/// the region has room.
pub fn write_fixed(buf: &mut Buffer, v: u64, width: usize, big: bool)
    requires
        old(buf).wf(),
        width <= 8,
    ensures
        final(buf).wf(),
        final(buf)@ == old(buf)@.write(ordered_bytes(big, v as nat, width as nat)),
{
    let mut bytes = [0u8; 8];
    let mut rest = v;
    let mut i: usize = 0;
    proof {
        lemma_le_bytes_len(v as nat, width as nat);
    }
    while i < width
        invariant
            i <= width <= 8,
            le_bytes(v as nat, width as nat).len() == width,
            forall|j: int|
                0 <= j < i ==> bytes@[if big {
                    width - 1 - j
                } else {
                    j
                }] == le_bytes(v as nat, width as nat)[j],
            le_bytes(rest as nat, (width - i) as nat) =~= le_bytes(
                v as nat,
                width as nat,
            ).subrange(i as int, width as int),
        decreases width - i,
    {
        let ghost tail = le_bytes(rest as nat, (width - i) as nat);
        proof {
            lemma_le_bytes_len(rest as nat / 256, (width - i - 1) as nat);
            assert(tail[0] == (rest % 256) as u8);
            assert(tail.subrange(1, tail.len() as int) =~= le_bytes(
                rest as nat / 256,
                (width - i - 1) as nat,
            ));
        }
        let at = if big { width - 1 - i } else { i };
        bytes[at] = (rest % 256) as u8;
        rest = rest / 256;
        i = i + 1;
    }
    let s = vstd::slice::slice_subrange(bytes.as_slice(), 0, width);
    assert(s@ =~= ordered_bytes(big, v as nat, width as nat));
    buf.write(s);
}

/// The bits of `v` as an unsigned number.
pub fn i8_bits(v: i8) -> (u: u8)
    ensures
        u == to_unsigned(v as int, 1),
{
    let u = v as u8;
    proof {
        lemma_pow256_values();
        assert(u == if v >= 0 {
            v as int
        } else {
            v + 0x100
        }) by (bit_vector)
            requires
                u == v as u8,
        ;
    }
    u
}

/// The signed number whose bits are `u`.
pub fn i8_of_bits(u: u8) -> (v: i8)
    ensures
        v == to_signed(u as nat, 1),
{
    let v = u as i8;
    proof {
        lemma_pow256_values();
        assert(v == if u < 0x80 {
            u as int
        } else {
            u - 0x100
        }) by (bit_vector)
            requires
                v == u as i8,
        ;
    }
    v
}

/// The bits of `v` as an unsigned number.
pub fn i16_bits(v: i16) -> (u: u16)
    ensures
        u == to_unsigned(v as int, 2),
{
    let u = v as u16;
    proof {
        lemma_pow256_values();
        assert(u == if v >= 0 {
            v as int
        } else {
            v + 0x1_0000
        }) by (bit_vector)
            requires
                u == v as u16,
        ;
    }
    u
}

/// The signed number whose bits are `u`.
pub fn i16_of_bits(u: u16) -> (v: i16)
    ensures
        v == to_signed(u as nat, 2),
{
    let v = u as i16;
    proof {
        lemma_pow256_values();
        assert(v == if u < 0x8000 {
            u as int
        } else {
            u - 0x1_0000
        }) by (bit_vector)
            requires
                v == u as i16,
        ;
    }
    v
}

/// The bits of `v` as an unsigned number.
pub fn i32_bits(v: i32) -> (u: u32)
    ensures
        u == to_unsigned(v as int, 4),
{
    let u = v as u32;
    proof {
        lemma_pow256_values();
        assert(u == if v >= 0 {
            v as int
        } else {
            v + 0x1_0000_0000
        }) by (bit_vector)
            requires
                u == v as u32,
        ;
    }
    u
}

/// The signed number whose bits are `u`.
pub fn i32_of_bits(u: u32) -> (v: i32)
    ensures
        v == to_signed(u as nat, 4),
{
    let v = u as i32;
    proof {
        lemma_pow256_values();
        assert(v == if u < 0x8000_0000 {
            u as int
        } else {
            u - 0x1_0000_0000
        }) by (bit_vector)
            requires
                v == u as i32,
        ;
    }
    v
}

/// The bits of `v` as an unsigned number.
pub fn i64_bits(v: i64) -> (u: u64)
    ensures
        u == to_unsigned(v as int, 8),
{
    let u = v as u64;
    proof {
        lemma_pow256_values();
        assert(u == if v >= 0 {
            v as int
        } else {
            v + 0x1_0000_0000_0000_0000
        }) by (bit_vector)
            requires
                u == v as u64,
        ;
    }
    u
}

/// The signed number whose bits are `u`.
pub fn i64_of_bits(u: u64) -> (v: i64)
    ensures
        v == to_signed(u as nat, 8),
{
    let v = u as i64;
    proof {
        lemma_pow256_values();
        assert(v == if u < 0x8000_0000_0000_0000 {
            u as int
        } else {
            u - 0x1_0000_0000_0000_0000
        }) by (bit_vector)
            requires
                v == u as i64,
        ;
    }
    v
}

/// The powers of `256` do not fall.
pub proof fn lemma_pow256_monotonic(a: nat, b: nat)
    requires
        a <= b,
    ensures
        pow256(a) <= pow256(b),
    decreases b,
{
    if a < b {
        lemma_pow256_monotonic(a, (b - 1) as nat);
    }
}

} // verus!
