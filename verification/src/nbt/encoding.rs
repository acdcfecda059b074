//! The two wire profiles of the tree format.

use vstd::prelude::*;
use crate::buffer::Buffer;
use crate::codec::Binary;
use crate::error::CodecError;
use crate::impls::numeric::{I32, I64, U16, VarI32, VarI64, VarU32};
use crate::impls::string::{
    lemma_parse_string_bounds, lemma_string_round_trip, parse_string, read_string, string_fits,
    string_wire, write_string,
};
use crate::order::LE;
use crate::parsed::Parsed;

verus! {

/// A wire profile: how the tree format writes its integers, its long
/// integers, and its strings. Container lengths are written as integers.
pub trait Encoding {
    /// The bytes of the integer `v`.
    spec fn int_wire(v: i32) -> Seq<u8>;

    /// What reading an integer makes of the bytes `s`.
    spec fn parse_int(s: Seq<u8>) -> Parsed<i32>;

    /// The bytes of the long integer `v`.
    spec fn long_wire(v: i64) -> Seq<u8>;

    /// What reading a long integer makes of the bytes `s`.
    spec fn parse_long(s: Seq<u8>) -> Parsed<i64>;

    /// The bytes of the string `chars`.
    spec fn text_wire(chars: Seq<char>) -> Seq<u8>;

    /// What reading a string makes of the bytes `s`.
    spec fn parse_text(s: Seq<u8>) -> Parsed<Seq<char>>;

    /// The strings whose length the profile can announce.
    spec fn text_fits(chars: Seq<char>) -> bool;

    fn read_int(buf: &mut Buffer) -> (r: Result<i32, CodecError>)
        requires
            old(buf).wf(),
        ensures
            final(buf).wf(),
            final(buf)@ == old(buf)@.advance(Self::parse_int(old(buf)@.unread()).consumed),
            r == Self::parse_int(old(buf)@.unread()).value,
    ;

    fn write_int(val: i32, buf: &mut Buffer)
        requires
            old(buf).wf(),
        ensures
            final(buf).wf(),
            final(buf)@ == old(buf)@.write(Self::int_wire(val)),
    ;

    fn read_long(buf: &mut Buffer) -> (r: Result<i64, CodecError>)
        requires
            old(buf).wf(),
        ensures
            final(buf).wf(),
            final(buf)@ == old(buf)@.advance(Self::parse_long(old(buf)@.unread()).consumed),
            r == Self::parse_long(old(buf)@.unread()).value,
    ;

    fn write_long(val: i64, buf: &mut Buffer)
        requires
            old(buf).wf(),
        ensures
            final(buf).wf(),
            final(buf)@ == old(buf)@.write(Self::long_wire(val)),
    ;

    fn read_string(buf: &mut Buffer) -> (r: Result<String, CodecError>)
        requires
            old(buf).wf(),
        ensures
            final(buf).wf(),
            final(buf)@ == old(buf)@.advance(Self::parse_text(old(buf)@.unread()).consumed),
            match r {
                Ok(v) => Self::parse_text(old(buf)@.unread()).value == Ok::<
                    Seq<char>,
                    CodecError,
                >(v@),
                Err(e) => Self::parse_text(old(buf)@.unread()).value == Err::<
                    Seq<char>,
                    CodecError,
                >(e),
            },
    ;

    fn write_string(val: &str, buf: &mut Buffer)
        requires
            old(buf).wf(),
        ensures
            final(buf).wf(),
            final(buf)@ == old(buf)@.write(Self::text_wire(val@)),
    ;

    /// An integer is read back from its bytes, whatever follows them.
    proof fn lemma_int_round_trip(v: i32, rest: Seq<u8>)
        ensures
            Self::parse_int(Self::int_wire(v) + rest) == Parsed::ok(v, Self::int_wire(v).len()),
    ;

    /// Reading an integer never passes the end of the input.
    proof fn lemma_parse_int_bounds(s: Seq<u8>)
        ensures
            Self::parse_int(s).consumed <= s.len(),
    ;

    /// A long integer is read back from its bytes, whatever follows them.
    proof fn lemma_long_round_trip(v: i64, rest: Seq<u8>)
        ensures
            Self::parse_long(Self::long_wire(v) + rest) == Parsed::ok(v, Self::long_wire(v).len()),
    ;

    /// Reading a long integer never passes the end of the input.
    proof fn lemma_parse_long_bounds(s: Seq<u8>)
        ensures
            Self::parse_long(s).consumed <= s.len(),
    ;

    /// A string whose length the profile can announce is read back from its
    /// bytes, whatever follows them.
    proof fn lemma_text_round_trip(chars: Seq<char>, rest: Seq<u8>)
        requires
            Self::text_fits(chars),
        ensures
            Self::parse_text(Self::text_wire(chars) + rest) == Parsed::ok(
                chars,
                Self::text_wire(chars).len(),
            ),
    ;

    /// Reading a string never passes the end of the input.
    proof fn lemma_parse_text_bounds(s: Seq<u8>)
        ensures
            Self::parse_text(s).consumed <= s.len(),
    ;
}

/// The network profile: integers and long integers are zigzag-folded
/// variable-length integers, and a string follows its byte length as an
/// unsigned variable-length integer.
#[derive(Debug, Clone, Copy, PartialEq, Eq)]
pub struct NetworkLittleEndian;

impl Encoding for NetworkLittleEndian {
    open spec fn int_wire(v: i32) -> Seq<u8> {
        <VarI32 as Binary>::wire(v)
    }

    open spec fn parse_int(s: Seq<u8>) -> Parsed<i32> {
        <VarI32 as Binary>::parse(s)
    }

    open spec fn long_wire(v: i64) -> Seq<u8> {
        <VarI64 as Binary>::wire(v)
    }

    open spec fn parse_long(s: Seq<u8>) -> Parsed<i64> {
        <VarI64 as Binary>::parse(s)
    }

    open spec fn text_wire(chars: Seq<char>) -> Seq<u8> {
        string_wire::<VarU32>(chars)
    }

    open spec fn parse_text(s: Seq<u8>) -> Parsed<Seq<char>> {
        parse_string::<VarU32>(s)
    }

    open spec fn text_fits(chars: Seq<char>) -> bool {
        string_fits::<VarU32>(chars)
    }

    fn read_int(buf: &mut Buffer) -> (r: Result<i32, CodecError>) {
        match <VarI32 as Binary>::deserialize(buf) {
            Ok(v) => Ok(v.get()),
            Err(e) => Err(e),
        }
    }

    fn write_int(val: i32, buf: &mut Buffer) {
        <VarI32>::new(val).serialize(buf);
    }

    fn read_long(buf: &mut Buffer) -> (r: Result<i64, CodecError>) {
        match <VarI64 as Binary>::deserialize(buf) {
            Ok(v) => Ok(v.get()),
            Err(e) => Err(e),
        }
    }

    fn write_long(val: i64, buf: &mut Buffer) {
        <VarI64>::new(val).serialize(buf);
    }

    fn read_string(buf: &mut Buffer) -> (r: Result<String, CodecError>) {
        read_string::<VarU32>(buf)
    }

    fn write_string(val: &str, buf: &mut Buffer) {
        write_string::<VarU32>(val, buf)
    }

    proof fn lemma_int_round_trip(v: i32, rest: Seq<u8>) {
        <VarI32 as Binary>::lemma_round_trip(v, rest);
    }

    proof fn lemma_parse_int_bounds(s: Seq<u8>) {
        <VarI32 as Binary>::lemma_parse_bounds(s);
    }

    proof fn lemma_long_round_trip(v: i64, rest: Seq<u8>) {
        <VarI64 as Binary>::lemma_round_trip(v, rest);
    }

    proof fn lemma_parse_long_bounds(s: Seq<u8>) {
        <VarI64 as Binary>::lemma_parse_bounds(s);
    }

    proof fn lemma_text_round_trip(chars: Seq<char>, rest: Seq<u8>) {
        lemma_string_round_trip::<VarU32>(chars, rest);
    }

    proof fn lemma_parse_text_bounds(s: Seq<u8>) {
        lemma_parse_string_bounds::<VarU32>(s);
    }
}

/// The storage profile: integers and long integers are fixed-width and
/// little-endian, and a string follows its byte length as a little-endian
/// 16-bit number.
#[derive(Debug, Clone, Copy, PartialEq, Eq)]
pub struct LittleEndian;

impl Encoding for LittleEndian {
    open spec fn int_wire(v: i32) -> Seq<u8> {
        <I32<LE> as Binary>::wire(v)
    }

    open spec fn parse_int(s: Seq<u8>) -> Parsed<i32> {
        <I32<LE> as Binary>::parse(s)
    }

    open spec fn long_wire(v: i64) -> Seq<u8> {
        <I64<LE> as Binary>::wire(v)
    }

    open spec fn parse_long(s: Seq<u8>) -> Parsed<i64> {
        <I64<LE> as Binary>::parse(s)
    }

    open spec fn text_wire(chars: Seq<char>) -> Seq<u8> {
        string_wire::<U16<LE>>(chars)
    }

    open spec fn parse_text(s: Seq<u8>) -> Parsed<Seq<char>> {
        parse_string::<U16<LE>>(s)
    }

    open spec fn text_fits(chars: Seq<char>) -> bool {
        string_fits::<U16<LE>>(chars)
    }

    fn read_int(buf: &mut Buffer) -> (r: Result<i32, CodecError>) {
        match <I32<LE> as Binary>::deserialize(buf) {
            Ok(v) => Ok(v.get()),
            Err(e) => Err(e),
        }
    }

    fn write_int(val: i32, buf: &mut Buffer) {
        <I32<LE>>::new(val).serialize(buf);
    }

    fn read_long(buf: &mut Buffer) -> (r: Result<i64, CodecError>) {
        match <I64<LE> as Binary>::deserialize(buf) {
            Ok(v) => Ok(v.get()),
            Err(e) => Err(e),
        }
    }

    fn write_long(val: i64, buf: &mut Buffer) {
        <I64<LE>>::new(val).serialize(buf);
    }

    fn read_string(buf: &mut Buffer) -> (r: Result<String, CodecError>) {
        read_string::<U16<LE>>(buf)
    }

    fn write_string(val: &str, buf: &mut Buffer) {
        write_string::<U16<LE>>(val, buf)
    }

    proof fn lemma_int_round_trip(v: i32, rest: Seq<u8>) {
        <I32<LE> as Binary>::lemma_round_trip(v, rest);
    }

    proof fn lemma_parse_int_bounds(s: Seq<u8>) {
        <I32<LE> as Binary>::lemma_parse_bounds(s);
    }

    proof fn lemma_long_round_trip(v: i64, rest: Seq<u8>) {
        <I64<LE> as Binary>::lemma_round_trip(v, rest);
    }

    proof fn lemma_parse_long_bounds(s: Seq<u8>) {
        <I64<LE> as Binary>::lemma_parse_bounds(s);
    }

    proof fn lemma_text_round_trip(chars: Seq<char>, rest: Seq<u8>) {
        lemma_string_round_trip::<U16<LE>>(chars, rest);
    }

    proof fn lemma_parse_text_bounds(s: Seq<u8>) {
        lemma_parse_string_bounds::<U16<LE>>(s);
    }
}

} // verus!
