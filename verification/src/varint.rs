//! Variable-length integers: groups of seven bits, low-order group first, each
//! but the last marked by the continuation bit `0x80`; and the zigzag mapping
//! that folds signed numbers into unsigned ones.

use vstd::prelude::*;
use crate::buffer::{Buffer, lemma_advance_advance, lemma_advance_unread};
use crate::error::CodecError;
use crate::parsed::Parsed;

verus! {

/// `128` to the power `n`.
pub open spec fn pow128(n: nat) -> nat
    decreases n,
{
    if n == 0 {
        1
    } else {
        128 * pow128((n - 1) as nat)
    }
}

/// The groups of `v`, low-order group first.
pub open spec fn varint_bytes(v: nat) -> Seq<u8>
    decreases v,
{
    if v < 128 {
        seq![v as u8]
    } else {
        seq![(v % 128 + 128) as u8] + varint_bytes(v / 128)
    }
}

/// A decoded number with `acc` put below it: the groups read before it hold
/// `acc`, and its own groups weigh `weight` each step further.
pub open spec fn varint_resume(acc: nat, weight: nat, taken: nat, p: Parsed<nat>) -> Parsed<nat> {
    Parsed {
        value: match p.value {
            Ok(hi) => Ok(acc + weight * hi),
            Err(e) => Err(e),
        },
        consumed: taken + p.consumed,
    }
}

/// Reading groups from the front of `s`, at most `groups` of them: the number
/// they hold, `VarIntOverflow` if the last group allowed still asks for
/// another, `BoundsError` if the bytes run out first.
pub open spec fn parse_varint(s: Seq<u8>, groups: nat) -> Parsed<nat>
    decreases groups,
{
    if groups == 0 {
        Parsed::err(CodecError::VarIntOverflow, 0)
    } else if s.len() == 0 {
        Parsed::err(CodecError::BoundsError, 0)
    } else if s[0] < 128 {
        Parsed::ok(s[0] as nat, 1)
    } else {
        varint_resume(
            (s[0] - 128) as nat,
            128,
            1,
            parse_varint(s.subrange(1, s.len() as int), (groups - 1) as nat),
        )
    }
}

/// The zigzag image of `v`: `0, -1, 1, -2, 2, ...` become `0, 1, 2, 3, 4, ...`.
pub open spec fn zigzag(v: int) -> nat {
    if v >= 0 {
        (2 * v) as nat
    } else {
        (-2 * v - 1) as nat
    }
}

/// The number whose zigzag image is `u`.
pub open spec fn unzigzag(u: nat) -> int {
    if u % 2 == 0 {
        (u / 2) as int
    } else {
        -((u / 2) as int) - 1
    }
}

/// The powers of `128` up to the tenth.
pub proof fn lemma_pow128_values()
    ensures
        pow128(0) == 1,
        pow128(1) == 0x80,
        pow128(2) == 0x4000,
        pow128(3) == 0x20_0000,
        pow128(4) == 0x1000_0000,
        pow128(5) == 0x8_0000_0000,
        pow128(6) == 0x400_0000_0000,
        pow128(7) == 0x2_0000_0000_0000,
        pow128(8) == 0x100_0000_0000_0000,
        pow128(9) == 0x8000_0000_0000_0000,
        pow128(10) == 0x40_0000_0000_0000_0000,
{
    reveal_with_fuel(pow128, 11);
}

/// Zigzag loses nothing.
pub proof fn lemma_zigzag_round_trip(v: int)
    ensures
        unzigzag(zigzag(v)) == v,
{
}

/// On 32 bits the zigzag image is `(v << 1) ^ (v >> 31)`.
pub proof fn lemma_zigzag_32_bits(v: i32)
    ensures
        zigzag(v as int) == ((v << 1) ^ (v >> 31)) as u32,
{
    assert((if v >= 0 { 2 * v } else { -2 * v - 1 }) == (((v << 1) ^ (v >> 31)) as u32) as int)
        by (bit_vector);
}

/// On 64 bits the zigzag image is `(v << 1) ^ (v >> 63)`.
pub proof fn lemma_zigzag_64_bits(v: i64)
    ensures
        zigzag(v as int) == ((v << 1) ^ (v >> 63)) as u64,
{
    assert((if v >= 0 { 2 * v } else { -2 * v - 1 }) == (((v << 1) ^ (v >> 63)) as u64) as int)
        by (bit_vector);
}

/// In bits: a group holds the seven low-order bits of the number, a group
/// that is followed by another has the bit `0x80` set above them, and what is
/// left for the next group is the number shifted right by seven bits.
pub proof fn lemma_group_bits(v: u64)
    ensures
        (v % 128) as u8 == (v & 0x7f) as u8,
        (v % 128 + 128) as u8 == ((v & 0x7f) | 0x80) as u8,
        v / 128 == v >> 7,
{
    assert((v % 128) as u8 == (v & 0x7f) as u8) by (bit_vector);
    assert((v % 128 + 128) as u8 == ((v & 0x7f) | 0x80) as u8) by (bit_vector);
    assert(v / 128 == v >> 7) by (bit_vector);
}

/// A variable-length integer takes at least one byte.
pub proof fn lemma_varint_bytes_len(v: nat)
    ensures
        varint_bytes(v).len() >= 1,
    decreases v,
{
    if v >= 128 {
        lemma_varint_bytes_len(v / 128);
    }
}

/// Decoding takes no more bytes than there are, nor more groups than allowed;
/// a number takes at least one byte and is below `128` to the power `groups`.
pub proof fn lemma_parse_varint_bounds(s: Seq<u8>, groups: nat)
    ensures
        parse_varint(s, groups).consumed <= s.len(),
        parse_varint(s, groups).consumed <= groups,
        parse_varint(s, groups).value matches Ok(n) ==> parse_varint(s, groups).consumed >= 1 && n
            < pow128(groups),
    decreases groups,
{
    if groups > 0 {
        lemma_pow128_positive((groups - 1) as nat);
        if s.len() > 0 && s[0] >= 128 {
            lemma_parse_varint_bounds(s.subrange(1, s.len() as int), (groups - 1) as nat);
        }
    }
}

/// A number below `128` to the power `groups` is read back from its groups,
/// whatever follows them.
pub proof fn lemma_varint_round_trip(v: nat, groups: nat, rest: Seq<u8>)
    requires
        groups >= 1,
        v < pow128(groups),
    ensures
        parse_varint(varint_bytes(v) + rest, groups) == Parsed::ok(v, varint_bytes(v).len()),
    decreases groups,
{
    let s = varint_bytes(v) + rest;
    if v >= 128 {
        assert(groups >= 2) by {
            reveal_with_fuel(pow128, 2);
        }
        let tail = varint_bytes(v / 128) + rest;
        assert(s.subrange(1, s.len() as int) =~= tail);
        lemma_varint_round_trip(v / 128, (groups - 1) as nat, rest);
        assert(s[0] == (v % 128 + 128) as u8);
    } else {
        assert(s[0] == v as u8);
    }
}

/// Groups that all ask for another are never a number: where they break off
/// before the last group allowed the read is refused for want of bytes, and
/// where they go on through it the read is refused as an overflow.
pub proof fn lemma_varint_unfinished(s: Seq<u8>, groups: nat)
    requires
        forall|i: int| 0 <= i < s.len() ==> s[i] >= 128,
    ensures
        parse_varint(s, groups) == if s.len() < groups {
            Parsed::<nat>::err(CodecError::BoundsError, s.len())
        } else {
            Parsed::<nat>::err(CodecError::VarIntOverflow, groups)
        },
    decreases groups,
{
    if groups > 0 && s.len() > 0 {
        let tail = s.subrange(1, s.len() as int);
        assert forall|i: int| 0 <= i < tail.len() implies tail[i] >= 128 by {
            assert(tail[i] == s[i + 1]);
        }
        lemma_varint_unfinished(tail, (groups - 1) as nat);
    }
}

/// Every group of a variable-length integer but the last asks for another.
pub proof fn lemma_varint_bytes_continue(v: nat, i: int)
    requires
        0 <= i < varint_bytes(v).len() - 1,
    ensures
        varint_bytes(v)[i] >= 128,
    decreases v,
{
    if v >= 128 {
        if i > 0 {
            lemma_varint_bytes_continue(v / 128, i - 1);
        }
    }
}

/// A variable-length integer that breaks off before its last group is
/// refused, however many groups are allowed.
pub proof fn lemma_varint_truncated(v: nat, k: nat, groups: nat)
    requires
        k < varint_bytes(v).len(),
    ensures
        parse_varint(varint_bytes(v).subrange(0, k as int), groups).value is Err,
{
    let s = varint_bytes(v).subrange(0, k as int);
    assert forall|i: int| 0 <= i < s.len() implies s[i] >= 128 by {
        lemma_varint_bytes_continue(v, i);
    }
    lemma_varint_unfinished(s, groups);
}

/// The zigzag image of a signed 32-bit number.
pub fn zigzag_encode_32(v: i32) -> (u: u32)
    ensures
        u == zigzag(v as int),
{
    if v >= 0 {
        (v as u32) * 2
    } else {
        ((-(v + 1)) as u32) * 2 + 1
    }
}

/// The signed 32-bit number whose zigzag image is `u`.
pub fn zigzag_decode_32(u: u32) -> (v: i32)
    ensures
        v == unzigzag(u as nat),
{
    if u % 2 == 0 {
        (u / 2) as i32
    } else {
        -((u / 2) as i32) - 1
    }
}

/// The zigzag image of a signed 64-bit number.
pub fn zigzag_encode_64(v: i64) -> (u: u64)
    ensures
        u == zigzag(v as int),
{
    if v >= 0 {
        (v as u64) * 2
    } else {
        ((-(v + 1)) as u64) * 2 + 1
    }
}

/// The signed 64-bit number whose zigzag image is `u`.
pub fn zigzag_decode_64(u: u64) -> (v: i64)
    ensures
        v == unzigzag(u as nat),
{
    if u % 2 == 0 {
        (u / 2) as i64
    } else {
        -((u / 2) as i64) - 1
    }
}

/// Appends `v` as a variable-length integer, as far as the region has room.
pub fn write_varint(v: u64, buf: &mut Buffer)
    requires
        old(buf).wf(),
    ensures
        final(buf).wf(),
        final(buf)@ == old(buf)@.write(varint_bytes(v as nat)),
{
    let mut groups = [0u8; 10];
    let mut rest = v;
    let mut n: usize = 0;
    proof {
        lemma_pow128_values();
    }
    while rest >= 128
        invariant
            n <= 9,
            rest < pow128((10 - n) as nat),
            varint_bytes(v as nat) =~= groups@.subrange(0, n as int) + varint_bytes(rest as nat),
        decreases rest,
    {
        proof {
            assert(n <= 8) by {
                if n == 9 {
                    reveal_with_fuel(pow128, 2);
                }
            }
            assert(pow128((10 - n) as nat) == 128 * pow128((9 - n) as nat));
        }
        let ghost before = groups@.subrange(0, n as int);
        groups[n] = (rest % 128 + 128) as u8;
        proof {
            assert(groups@.subrange(0, n + 1) =~= before.push((rest % 128 + 128) as u8));
        }
        rest = rest / 128;
        n = n + 1;
    }
    let ghost before = groups@.subrange(0, n as int);
    groups[n] = rest as u8;
    proof {
        assert(groups@.subrange(0, n + 1) =~= before.push(rest as u8));
    }
    let s = vstd::slice::slice_subrange(groups.as_slice(), 0, n + 1);
    assert(s@ =~= varint_bytes(v as nat));
    buf.write(s);
}

/// Reads a variable-length integer of at most `groups` groups.
pub fn read_varint(buf: &mut Buffer, groups: usize) -> (r: Result<u128, CodecError>)
    requires
        old(buf).wf(),
        groups <= 18,
    ensures
        final(buf).wf(),
        final(buf)@ == old(buf)@.advance(parse_varint(old(buf)@.unread(), groups as nat).consumed),
        match r {
            Ok(v) => parse_varint(old(buf)@.unread(), groups as nat).value == Ok::<nat, CodecError>(
                v as nat,
            ),
            Err(e) => parse_varint(old(buf)@.unread(), groups as nat).value == Err::<
                nat,
                CodecError,
            >(e),
        },
{
    let ghost start = buf@;
    let ghost whole = parse_varint(start.unread(), groups as nat);
    let mut acc: u128 = 0;
    let mut weight: u128 = 1;
    let mut i: usize = 0;
    proof {
        lemma_pow128_18();
        assert(start.advance(0) == start);
    }
    while i < groups
        invariant
            i <= groups <= 18,
            start == old(buf)@,
            start.wf(),
            buf.wf(),
            i <= start.remaining(),
            buf@ == start.advance(i as nat),
            weight == pow128(i as nat),
            acc < pow128(i as nat),
            pow128(18) < 0x8000_0000_0000_0000_0000_0000_0000_0000,
            whole == parse_varint(start.unread(), groups as nat),
            whole == varint_resume(
                acc as nat,
                weight as nat,
                i as nat,
                parse_varint(buf@.unread(), (groups - i) as nat),
            ),
        decreases groups - i,
    {
        let ghost here = buf@;
        let ghost s = here.unread();
        proof {
            lemma_pow128_monotonic((i + 1) as nat, 18);
            lemma_pow128_positive(i as nat);
        }
        let b = match buf.read_byte() {
            Some(b) => b,
            None => {
                return Err(CodecError::BoundsError);
            },
        };
        proof {
            lemma_advance_unread(here, 1);
            lemma_advance_advance(start, i as nat, 1);
        }
        if b < 128 {
            assert(b as u128 * weight < pow128((i + 1) as nat)) by (nonlinear_arith)
                requires
                    b < 128,
                    weight > 0,
                    weight == pow128(i as nat),
                    pow128((i + 1) as nat) == 128 * pow128(i as nat),
            ;
            let v = acc + b as u128 * weight;
            assert(acc as nat + weight as nat * (b as nat) == v as nat) by (nonlinear_arith)
                requires
                    v == acc + b as u128 * weight,
            ;
            return Ok(v);
        }
        assert((b - 128) as u128 * weight + acc < pow128((i + 1) as nat)) by (nonlinear_arith)
            requires
                128 <= b < 256,
                weight == pow128(i as nat),
                acc < pow128(i as nat),
                pow128((i + 1) as nat) == 128 * pow128(i as nat),
        ;
        let ghost next = parse_varint(s.subrange(1, s.len() as int), (groups - i - 1) as nat);
        let ghost old_acc = acc;
        let ghost old_weight = weight;
        acc = acc + (b - 128) as u128 * weight;
        weight = weight * 128;
        i = i + 1;
        proof {
            assert(buf@.unread() == s.subrange(1, s.len() as int));
            assert(parse_varint(s, (groups - i + 1) as nat) == varint_resume(
                (b - 128) as nat,
                128,
                1,
                next,
            ));
            match next.value {
                Ok(hi) => {
                    assert(old_acc as nat + old_weight as nat * ((b - 128) as nat + 128 * hi)
                        == acc as nat + weight as nat * hi) by (nonlinear_arith)
                        requires
                            acc == old_acc + (b - 128) as u128 * old_weight,
                            weight == old_weight * 128,
                            b >= 128,
                    ;
                },
                Err(_) => {},
            }
        }
    }
    Err(CodecError::VarIntOverflow)
}

/// The powers of `128` do not fall.
pub proof fn lemma_pow128_monotonic(a: nat, b: nat)
    requires
        a <= b,
    ensures
        pow128(a) <= pow128(b),
    decreases b,
{
    if a < b {
        lemma_pow128_monotonic(a, (b - 1) as nat);
    }
}

/// The powers of `128` are positive.
pub proof fn lemma_pow128_positive(n: nat)
    ensures
        pow128(n) >= 1,
    decreases n,
{
    if n > 0 {
        lemma_pow128_positive((n - 1) as nat);
    }
}

proof fn lemma_pow128_18()
    ensures
        pow128(18) < 0x8000_0000_0000_0000_0000_0000_0000_0000,
{
    reveal_with_fuel(pow128, 19);
}

} // verus!
