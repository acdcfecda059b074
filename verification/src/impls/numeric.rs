//! The numeric wrappers: single bytes, fixed-width numbers in a chosen byte
//! order, and variable-length integers.

use std::marker::PhantomData;
use vstd::prelude::*;
use vstd::std_specs::convert::FromSpecImpl;
use crate::buffer::Buffer;
use crate::codec::Binary;
use crate::error::CodecError;
use crate::fixed::{
    i8_bits, i8_of_bits, lemma_fixed_round_trip, lemma_pow256_values, lemma_signed_round_trip,
    ordered_bytes, parse_fixed, to_signed, to_unsigned,
};
use crate::order::ByteOrder;
use crate::parsed::Parsed;
use crate::varint::{
    lemma_parse_varint_bounds, lemma_pow128_values, lemma_varint_round_trip,
    lemma_zigzag_round_trip, parse_varint, read_varint, unzigzag, varint_bytes, write_varint,
    zigzag, zigzag_decode_32, zigzag_decode_64, zigzag_encode_32, zigzag_encode_64,
};

verus! {

/// A single byte.
#[derive(Debug, PartialEq)]
pub struct U8 {
    val: u8,
}

impl DeepView for U8 {
    type V = u8;

    closed spec fn deep_view(&self) -> u8 {
        self.val
    }
}

impl U8 {
    /// Wraps `val`.
    pub fn new(val: u8) -> (r: Self)
        ensures
            r.deep_view() == val,
    {
        U8 { val }
    }

    /// The value inside.
    pub fn get(self) -> (val: u8)
        ensures
            val == self.deep_view(),
    {
        self.val
    }
}

impl From<u8> for U8 {
    fn from(value: u8) -> (r: Self)
        ensures
            r.deep_view() == value,
    {
        Self::new(value)
    }
}

impl FromSpecImpl<u8> for U8 {
    open spec fn obeys_from_spec() -> bool {
        true
    }

    closed spec fn from_spec(v: u8) -> Self {
        U8 { val: v }
    }
}

impl From<U8> for u8 {
    fn from(value: U8) -> (r: u8)
        ensures
            r == value.deep_view(),
    {
        value.val
    }
}

impl FromSpecImpl<U8> for u8 {
    open spec fn obeys_from_spec() -> bool {
        true
    }

    closed spec fn from_spec(v: U8) -> u8 {
        v.val
    }
}

impl AsRef<u8> for U8 {
    fn as_ref(&self) -> (r: &u8)
        ensures
            *r == self.deep_view(),
    {
        &self.val
    }
}

impl std::ops::Deref for U8 {
    type Target = u8;

    fn deref(&self) -> (r: &u8)
        ensures
            *r == self.deep_view(),
    {
        &self.val
    }
}

impl Binary for U8 {
    open spec fn wire(v: u8) -> Seq<u8> {
        seq![v]
    }

    open spec fn parse(s: Seq<u8>) -> Parsed<u8> {
        if s.len() >= 1 {
            Parsed::ok(s[0], 1)
        } else {
            Parsed::err(CodecError::BoundsError, 0)
        }
    }

    open spec fn encodable(v: u8) -> bool {
        true
    }

    open spec fn self_delimiting() -> bool {
        true
    }

    fn serialize(&self, buf: &mut Buffer) {
        let bytes = [self.val];
        assert(bytes@ =~= seq![self.val]);
        buf.write(bytes.as_slice());
    }

    fn deserialize(buf: &mut Buffer) -> (r: Result<Self, CodecError>) {
        match buf.read_byte() {
            Some(val) => Ok(U8 { val }),
            None => Err(CodecError::BoundsError),
        }
    }

    proof fn lemma_parse_bounds(s: Seq<u8>) {
    }

    proof fn lemma_round_trip(v: u8, rest: Seq<u8>) {
    }
}

/// A single signed byte.
#[derive(Debug, PartialEq)]
pub struct I8 {
    val: i8,
}

impl DeepView for I8 {
    type V = i8;

    closed spec fn deep_view(&self) -> i8 {
        self.val
    }
}

impl I8 {
    /// Wraps `val`.
    pub fn new(val: i8) -> (r: Self)
        ensures
            r.deep_view() == val,
    {
        I8 { val }
    }

    /// The value inside.
    pub fn get(self) -> (val: i8)
        ensures
            val == self.deep_view(),
    {
        self.val
    }
}

impl From<i8> for I8 {
    fn from(value: i8) -> (r: Self)
        ensures
            r.deep_view() == value,
    {
        Self::new(value)
    }
}

impl FromSpecImpl<i8> for I8 {
    open spec fn obeys_from_spec() -> bool {
        true
    }

    closed spec fn from_spec(v: i8) -> Self {
        I8 { val: v }
    }
}

impl From<I8> for i8 {
    fn from(value: I8) -> (r: i8)
        ensures
            r == value.deep_view(),
    {
        value.val
    }
}

impl FromSpecImpl<I8> for i8 {
    open spec fn obeys_from_spec() -> bool {
        true
    }

    closed spec fn from_spec(v: I8) -> i8 {
        v.val
    }
}

impl AsRef<i8> for I8 {
    fn as_ref(&self) -> (r: &i8)
        ensures
            *r == self.deep_view(),
    {
        &self.val
    }
}

impl std::ops::Deref for I8 {
    type Target = i8;

    fn deref(&self) -> (r: &i8)
        ensures
            *r == self.deep_view(),
    {
        &self.val
    }
}

impl Binary for I8 {
    open spec fn wire(v: i8) -> Seq<u8> {
        seq![to_unsigned(v as int, 1) as u8]
    }

    open spec fn parse(s: Seq<u8>) -> Parsed<i8> {
        if s.len() >= 1 {
            Parsed::ok(to_signed(s[0] as nat, 1) as i8, 1)
        } else {
            Parsed::err(CodecError::BoundsError, 0)
        }
    }

    open spec fn encodable(v: i8) -> bool {
        true
    }

    open spec fn self_delimiting() -> bool {
        true
    }

    fn serialize(&self, buf: &mut Buffer) {
        let bytes = [i8_bits(self.val)];
        assert(bytes@ =~= seq![to_unsigned(self.val as int, 1) as u8]);
        buf.write(bytes.as_slice());
    }

    fn deserialize(buf: &mut Buffer) -> (r: Result<Self, CodecError>) {
        match buf.read_byte() {
            Some(b) => Ok(I8 { val: i8_of_bits(b) }),
            None => Err(CodecError::BoundsError),
        }
    }

    proof fn lemma_parse_bounds(s: Seq<u8>) {
    }

    proof fn lemma_round_trip(v: i8, rest: Seq<u8>) {
        lemma_pow256_values();
        lemma_signed_round_trip(v as int, 1);
    }
}

/// An unsigned 16-bit number.
#[derive(Debug, PartialEq)]
pub struct U16<E: ByteOrder> {
    val: u16,
    order: PhantomData<E>,
}

impl<E: ByteOrder> DeepView for U16<E> {
    type V = u16;

    closed spec fn deep_view(&self) -> u16 {
        self.val
    }
}

impl<E: ByteOrder> U16<E> {
    /// Wraps `val`.
    pub fn new(val: u16) -> (r: Self)
        ensures
            r.deep_view() == val,
    {
        U16 { val, order: PhantomData }
    }

    /// The value inside.
    pub fn get(self) -> (val: u16)
        ensures
            val == self.deep_view(),
    {
        self.val
    }
}

impl<E: ByteOrder> From<u16> for U16<E> {
    fn from(value: u16) -> (r: Self)
        ensures
            r.deep_view() == value,
    {
        Self::new(value)
    }
}

impl<E: ByteOrder> FromSpecImpl<u16> for U16<E> {
    open spec fn obeys_from_spec() -> bool {
        true
    }

    closed spec fn from_spec(v: u16) -> Self {
        U16 { val: v, order: PhantomData }
    }
}

impl<E: ByteOrder> From<U16<E>> for u16 {
    fn from(value: U16<E>) -> (r: u16)
        ensures
            r == value.deep_view(),
    {
        value.val
    }
}

impl<E: ByteOrder> FromSpecImpl<U16<E>> for u16 {
    open spec fn obeys_from_spec() -> bool {
        true
    }

    closed spec fn from_spec(v: U16<E>) -> u16 {
        v.val
    }
}

impl<E: ByteOrder> AsRef<u16> for U16<E> {
    fn as_ref(&self) -> (r: &u16)
        ensures
            *r == self.deep_view(),
    {
        &self.val
    }
}

impl<E: ByteOrder> std::ops::Deref for U16<E> {
    type Target = u16;

    fn deref(&self) -> (r: &u16)
        ensures
            *r == self.deep_view(),
    {
        &self.val
    }
}

impl<E: ByteOrder> Binary for U16<E> {
    open spec fn wire(v: u16) -> Seq<u8> {
        ordered_bytes(E::big_endian(), v as nat, 2)
    }

    open spec fn parse(s: Seq<u8>) -> Parsed<u16> {
        let p = parse_fixed(E::big_endian(), 2, s);
        Parsed {
            value: match p.value {
                Ok(u) => Ok(u as u16),
                Err(e) => Err(e),
            },
            consumed: p.consumed,
        }
    }

    open spec fn encodable(v: u16) -> bool {
        true
    }

    open spec fn self_delimiting() -> bool {
        true
    }

    fn serialize(&self, buf: &mut Buffer) {
        E::write_u16(self.val, buf)
    }

    fn deserialize(buf: &mut Buffer) -> (r: Result<Self, CodecError>) {
        match E::read_u16(buf) {
            Some(val) => Ok(U16 { val, order: PhantomData }),
            None => Err(CodecError::BoundsError),
        }
    }

    proof fn lemma_parse_bounds(s: Seq<u8>) {
    }

    proof fn lemma_round_trip(v: u16, rest: Seq<u8>) {
        lemma_pow256_values();
        lemma_fixed_round_trip(E::big_endian(), v as nat, 2, rest);
    }
}

/// A signed 16-bit number.
#[derive(Debug, PartialEq)]
pub struct I16<E: ByteOrder> {
    val: i16,
    order: PhantomData<E>,
}

impl<E: ByteOrder> DeepView for I16<E> {
    type V = i16;

    closed spec fn deep_view(&self) -> i16 {
        self.val
    }
}

impl<E: ByteOrder> I16<E> {
    /// Wraps `val`.
    pub fn new(val: i16) -> (r: Self)
        ensures
            r.deep_view() == val,
    {
        I16 { val, order: PhantomData }
    }

    /// The value inside.
    pub fn get(self) -> (val: i16)
        ensures
            val == self.deep_view(),
    {
        self.val
    }
}

impl<E: ByteOrder> From<i16> for I16<E> {
    fn from(value: i16) -> (r: Self)
        ensures
            r.deep_view() == value,
    {
        Self::new(value)
    }
}

impl<E: ByteOrder> FromSpecImpl<i16> for I16<E> {
    open spec fn obeys_from_spec() -> bool {
        true
    }

    closed spec fn from_spec(v: i16) -> Self {
        I16 { val: v, order: PhantomData }
    }
}

impl<E: ByteOrder> From<I16<E>> for i16 {
    fn from(value: I16<E>) -> (r: i16)
        ensures
            r == value.deep_view(),
    {
        value.val
    }
}

impl<E: ByteOrder> FromSpecImpl<I16<E>> for i16 {
    open spec fn obeys_from_spec() -> bool {
        true
    }

    closed spec fn from_spec(v: I16<E>) -> i16 {
        v.val
    }
}

impl<E: ByteOrder> AsRef<i16> for I16<E> {
    fn as_ref(&self) -> (r: &i16)
        ensures
            *r == self.deep_view(),
    {
        &self.val
    }
}

impl<E: ByteOrder> std::ops::Deref for I16<E> {
    type Target = i16;

    fn deref(&self) -> (r: &i16)
        ensures
            *r == self.deep_view(),
    {
        &self.val
    }
}

impl<E: ByteOrder> Binary for I16<E> {
    open spec fn wire(v: i16) -> Seq<u8> {
        ordered_bytes(E::big_endian(), to_unsigned(v as int, 2), 2)
    }

    open spec fn parse(s: Seq<u8>) -> Parsed<i16> {
        let p = parse_fixed(E::big_endian(), 2, s);
        Parsed {
            value: match p.value {
                Ok(u) => Ok(to_signed(u, 2) as i16),
                Err(e) => Err(e),
            },
            consumed: p.consumed,
        }
    }

    open spec fn encodable(v: i16) -> bool {
        true
    }

    open spec fn self_delimiting() -> bool {
        true
    }

    fn serialize(&self, buf: &mut Buffer) {
        E::write_i16(self.val, buf)
    }

    fn deserialize(buf: &mut Buffer) -> (r: Result<Self, CodecError>) {
        match E::read_i16(buf) {
            Some(val) => Ok(I16 { val, order: PhantomData }),
            None => Err(CodecError::BoundsError),
        }
    }

    proof fn lemma_parse_bounds(s: Seq<u8>) {
    }

    proof fn lemma_round_trip(v: i16, rest: Seq<u8>) {
        lemma_pow256_values();
        lemma_signed_round_trip(v as int, 2);
        lemma_fixed_round_trip(E::big_endian(), to_unsigned(v as int, 2), 2, rest);
    }
}

/// An unsigned 24-bit number, three bytes wide on the wire; of a larger
/// value only the three low-order bytes travel.
#[derive(Debug, PartialEq)]
pub struct U24<E: ByteOrder> {
    val: u32,
    order: PhantomData<E>,
}

impl<E: ByteOrder> DeepView for U24<E> {
    type V = u32;

    closed spec fn deep_view(&self) -> u32 {
        self.val
    }
}

impl<E: ByteOrder> U24<E> {
    /// Wraps `val`.
    pub fn new(val: u32) -> (r: Self)
        ensures
            r.deep_view() == val,
    {
        U24 { val, order: PhantomData }
    }

    /// The value inside.
    pub fn get(self) -> (val: u32)
        ensures
            val == self.deep_view(),
    {
        self.val
    }
}

impl<E: ByteOrder> From<u32> for U24<E> {
    fn from(value: u32) -> (r: Self)
        ensures
            r.deep_view() == value,
    {
        Self::new(value)
    }
}

impl<E: ByteOrder> FromSpecImpl<u32> for U24<E> {
    open spec fn obeys_from_spec() -> bool {
        true
    }

    closed spec fn from_spec(v: u32) -> Self {
        U24 { val: v, order: PhantomData }
    }
}

impl<E: ByteOrder> From<U24<E>> for u32 {
    fn from(value: U24<E>) -> (r: u32)
        ensures
            r == value.deep_view(),
    {
        value.val
    }
}

impl<E: ByteOrder> FromSpecImpl<U24<E>> for u32 {
    open spec fn obeys_from_spec() -> bool {
        true
    }

    closed spec fn from_spec(v: U24<E>) -> u32 {
        v.val
    }
}

impl<E: ByteOrder> AsRef<u32> for U24<E> {
    fn as_ref(&self) -> (r: &u32)
        ensures
            *r == self.deep_view(),
    {
        &self.val
    }
}

impl<E: ByteOrder> std::ops::Deref for U24<E> {
    type Target = u32;

    fn deref(&self) -> (r: &u32)
        ensures
            *r == self.deep_view(),
    {
        &self.val
    }
}

impl<E: ByteOrder> Binary for U24<E> {
    open spec fn wire(v: u32) -> Seq<u8> {
        ordered_bytes(E::big_endian(), v as nat, 3)
    }

    open spec fn parse(s: Seq<u8>) -> Parsed<u32> {
        let p = parse_fixed(E::big_endian(), 3, s);
        Parsed {
            value: match p.value {
                Ok(u) => Ok(u as u32),
                Err(e) => Err(e),
            },
            consumed: p.consumed,
        }
    }

    open spec fn encodable(v: u32) -> bool {
        v < 0x100_0000
    }

    open spec fn self_delimiting() -> bool {
        true
    }

    fn serialize(&self, buf: &mut Buffer) {
        E::write_u24(self.val, buf)
    }

    fn deserialize(buf: &mut Buffer) -> (r: Result<Self, CodecError>) {
        match E::read_u24(buf) {
            Some(val) => Ok(U24 { val, order: PhantomData }),
            None => Err(CodecError::BoundsError),
        }
    }

    proof fn lemma_parse_bounds(s: Seq<u8>) {
    }

    proof fn lemma_round_trip(v: u32, rest: Seq<u8>) {
        lemma_pow256_values();
        lemma_fixed_round_trip(E::big_endian(), v as nat, 3, rest);
    }
}

/// An unsigned 32-bit number.
#[derive(Debug, PartialEq)]
pub struct U32<E: ByteOrder> {
    val: u32,
    order: PhantomData<E>,
}

impl<E: ByteOrder> DeepView for U32<E> {
    type V = u32;

    closed spec fn deep_view(&self) -> u32 {
        self.val
    }
}

impl<E: ByteOrder> U32<E> {
    /// Wraps `val`.
    pub fn new(val: u32) -> (r: Self)
        ensures
            r.deep_view() == val,
    {
        U32 { val, order: PhantomData }
    }

    /// The value inside.
    pub fn get(self) -> (val: u32)
        ensures
            val == self.deep_view(),
    {
        self.val
    }
}

impl<E: ByteOrder> From<u32> for U32<E> {
    fn from(value: u32) -> (r: Self)
        ensures
            r.deep_view() == value,
    {
        Self::new(value)
    }
}

impl<E: ByteOrder> FromSpecImpl<u32> for U32<E> {
    open spec fn obeys_from_spec() -> bool {
        true
    }

    closed spec fn from_spec(v: u32) -> Self {
        U32 { val: v, order: PhantomData }
    }
}

impl<E: ByteOrder> From<U32<E>> for u32 {
    fn from(value: U32<E>) -> (r: u32)
        ensures
            r == value.deep_view(),
    {
        value.val
    }
}

impl<E: ByteOrder> FromSpecImpl<U32<E>> for u32 {
    open spec fn obeys_from_spec() -> bool {
        true
    }

    closed spec fn from_spec(v: U32<E>) -> u32 {
        v.val
    }
}

impl<E: ByteOrder> AsRef<u32> for U32<E> {
    fn as_ref(&self) -> (r: &u32)
        ensures
            *r == self.deep_view(),
    {
        &self.val
    }
}

impl<E: ByteOrder> std::ops::Deref for U32<E> {
    type Target = u32;

    fn deref(&self) -> (r: &u32)
        ensures
            *r == self.deep_view(),
    {
        &self.val
    }
}

impl<E: ByteOrder> Binary for U32<E> {
    open spec fn wire(v: u32) -> Seq<u8> {
        ordered_bytes(E::big_endian(), v as nat, 4)
    }

    open spec fn parse(s: Seq<u8>) -> Parsed<u32> {
        let p = parse_fixed(E::big_endian(), 4, s);
        Parsed {
            value: match p.value {
                Ok(u) => Ok(u as u32),
                Err(e) => Err(e),
            },
            consumed: p.consumed,
        }
    }

    open spec fn encodable(v: u32) -> bool {
        true
    }

    open spec fn self_delimiting() -> bool {
        true
    }

    fn serialize(&self, buf: &mut Buffer) {
        E::write_u32(self.val, buf)
    }

    fn deserialize(buf: &mut Buffer) -> (r: Result<Self, CodecError>) {
        match E::read_u32(buf) {
            Some(val) => Ok(U32 { val, order: PhantomData }),
            None => Err(CodecError::BoundsError),
        }
    }

    proof fn lemma_parse_bounds(s: Seq<u8>) {
    }

    proof fn lemma_round_trip(v: u32, rest: Seq<u8>) {
        lemma_pow256_values();
        lemma_fixed_round_trip(E::big_endian(), v as nat, 4, rest);
    }
}

/// A signed 32-bit number.
#[derive(Debug, PartialEq)]
pub struct I32<E: ByteOrder> {
    val: i32,
    order: PhantomData<E>,
}

impl<E: ByteOrder> DeepView for I32<E> {
    type V = i32;

    closed spec fn deep_view(&self) -> i32 {
        self.val
    }
}

impl<E: ByteOrder> I32<E> {
    /// Wraps `val`.
    pub fn new(val: i32) -> (r: Self)
        ensures
            r.deep_view() == val,
    {
        I32 { val, order: PhantomData }
    }

    /// The value inside.
    pub fn get(self) -> (val: i32)
        ensures
            val == self.deep_view(),
    {
        self.val
    }
}

impl<E: ByteOrder> From<i32> for I32<E> {
    fn from(value: i32) -> (r: Self)
        ensures
            r.deep_view() == value,
    {
        Self::new(value)
    }
}

impl<E: ByteOrder> FromSpecImpl<i32> for I32<E> {
    open spec fn obeys_from_spec() -> bool {
        true
    }

    closed spec fn from_spec(v: i32) -> Self {
        I32 { val: v, order: PhantomData }
    }
}

impl<E: ByteOrder> From<I32<E>> for i32 {
    fn from(value: I32<E>) -> (r: i32)
        ensures
            r == value.deep_view(),
    {
        value.val
    }
}

impl<E: ByteOrder> FromSpecImpl<I32<E>> for i32 {
    open spec fn obeys_from_spec() -> bool {
        true
    }

    closed spec fn from_spec(v: I32<E>) -> i32 {
        v.val
    }
}

impl<E: ByteOrder> AsRef<i32> for I32<E> {
    fn as_ref(&self) -> (r: &i32)
        ensures
            *r == self.deep_view(),
    {
        &self.val
    }
}

impl<E: ByteOrder> std::ops::Deref for I32<E> {
    type Target = i32;

    fn deref(&self) -> (r: &i32)
        ensures
            *r == self.deep_view(),
    {
        &self.val
    }
}

impl<E: ByteOrder> Binary for I32<E> {
    open spec fn wire(v: i32) -> Seq<u8> {
        ordered_bytes(E::big_endian(), to_unsigned(v as int, 4), 4)
    }

    open spec fn parse(s: Seq<u8>) -> Parsed<i32> {
        let p = parse_fixed(E::big_endian(), 4, s);
        Parsed {
            value: match p.value {
                Ok(u) => Ok(to_signed(u, 4) as i32),
                Err(e) => Err(e),
            },
            consumed: p.consumed,
        }
    }

    open spec fn encodable(v: i32) -> bool {
        true
    }

    open spec fn self_delimiting() -> bool {
        true
    }

    fn serialize(&self, buf: &mut Buffer) {
        E::write_i32(self.val, buf)
    }

    fn deserialize(buf: &mut Buffer) -> (r: Result<Self, CodecError>) {
        match E::read_i32(buf) {
            Some(val) => Ok(I32 { val, order: PhantomData }),
            None => Err(CodecError::BoundsError),
        }
    }

    proof fn lemma_parse_bounds(s: Seq<u8>) {
    }

    proof fn lemma_round_trip(v: i32, rest: Seq<u8>) {
        lemma_pow256_values();
        lemma_signed_round_trip(v as int, 4);
        lemma_fixed_round_trip(E::big_endian(), to_unsigned(v as int, 4), 4, rest);
    }
}

/// An unsigned 64-bit number.
#[derive(Debug, PartialEq)]
pub struct U64<E: ByteOrder> {
    val: u64,
    order: PhantomData<E>,
}

impl<E: ByteOrder> DeepView for U64<E> {
    type V = u64;

    closed spec fn deep_view(&self) -> u64 {
        self.val
    }
}

impl<E: ByteOrder> U64<E> {
    /// Wraps `val`.
    pub fn new(val: u64) -> (r: Self)
        ensures
            r.deep_view() == val,
    {
        U64 { val, order: PhantomData }
    }

    /// The value inside.
    pub fn get(self) -> (val: u64)
        ensures
            val == self.deep_view(),
    {
        self.val
    }
}

impl<E: ByteOrder> From<u64> for U64<E> {
    fn from(value: u64) -> (r: Self)
        ensures
            r.deep_view() == value,
    {
        Self::new(value)
    }
}

impl<E: ByteOrder> FromSpecImpl<u64> for U64<E> {
    open spec fn obeys_from_spec() -> bool {
        true
    }

    closed spec fn from_spec(v: u64) -> Self {
        U64 { val: v, order: PhantomData }
    }
}

impl<E: ByteOrder> From<U64<E>> for u64 {
    fn from(value: U64<E>) -> (r: u64)
        ensures
            r == value.deep_view(),
    {
        value.val
    }
}

impl<E: ByteOrder> FromSpecImpl<U64<E>> for u64 {
    open spec fn obeys_from_spec() -> bool {
        true
    }

    closed spec fn from_spec(v: U64<E>) -> u64 {
        v.val
    }
}

impl<E: ByteOrder> AsRef<u64> for U64<E> {
    fn as_ref(&self) -> (r: &u64)
        ensures
            *r == self.deep_view(),
    {
        &self.val
    }
}

impl<E: ByteOrder> std::ops::Deref for U64<E> {
    type Target = u64;

    fn deref(&self) -> (r: &u64)
        ensures
            *r == self.deep_view(),
    {
        &self.val
    }
}

impl<E: ByteOrder> Binary for U64<E> {
    open spec fn wire(v: u64) -> Seq<u8> {
        ordered_bytes(E::big_endian(), v as nat, 8)
    }

    open spec fn parse(s: Seq<u8>) -> Parsed<u64> {
        let p = parse_fixed(E::big_endian(), 8, s);
        Parsed {
            value: match p.value {
                Ok(u) => Ok(u as u64),
                Err(e) => Err(e),
            },
            consumed: p.consumed,
        }
    }

    open spec fn encodable(v: u64) -> bool {
        true
    }

    open spec fn self_delimiting() -> bool {
        true
    }

    fn serialize(&self, buf: &mut Buffer) {
        E::write_u64(self.val, buf)
    }

    fn deserialize(buf: &mut Buffer) -> (r: Result<Self, CodecError>) {
        match E::read_u64(buf) {
            Some(val) => Ok(U64 { val, order: PhantomData }),
            None => Err(CodecError::BoundsError),
        }
    }

    proof fn lemma_parse_bounds(s: Seq<u8>) {
    }

    proof fn lemma_round_trip(v: u64, rest: Seq<u8>) {
        lemma_pow256_values();
        lemma_fixed_round_trip(E::big_endian(), v as nat, 8, rest);
    }
}

/// A signed 64-bit number.
#[derive(Debug, PartialEq)]
pub struct I64<E: ByteOrder> {
    val: i64,
    order: PhantomData<E>,
}

impl<E: ByteOrder> DeepView for I64<E> {
    type V = i64;

    closed spec fn deep_view(&self) -> i64 {
        self.val
    }
}

impl<E: ByteOrder> I64<E> {
    /// Wraps `val`.
    pub fn new(val: i64) -> (r: Self)
        ensures
            r.deep_view() == val,
    {
        I64 { val, order: PhantomData }
    }

    /// The value inside.
    pub fn get(self) -> (val: i64)
        ensures
            val == self.deep_view(),
    {
        self.val
    }
}

impl<E: ByteOrder> From<i64> for I64<E> {
    fn from(value: i64) -> (r: Self)
        ensures
            r.deep_view() == value,
    {
        Self::new(value)
    }
}

impl<E: ByteOrder> FromSpecImpl<i64> for I64<E> {
    open spec fn obeys_from_spec() -> bool {
        true
    }

    closed spec fn from_spec(v: i64) -> Self {
        I64 { val: v, order: PhantomData }
    }
}

impl<E: ByteOrder> From<I64<E>> for i64 {
    fn from(value: I64<E>) -> (r: i64)
        ensures
            r == value.deep_view(),
    {
        value.val
    }
}

impl<E: ByteOrder> FromSpecImpl<I64<E>> for i64 {
    open spec fn obeys_from_spec() -> bool {
        true
    }

    closed spec fn from_spec(v: I64<E>) -> i64 {
        v.val
    }
}

impl<E: ByteOrder> AsRef<i64> for I64<E> {
    fn as_ref(&self) -> (r: &i64)
        ensures
            *r == self.deep_view(),
    {
        &self.val
    }
}

impl<E: ByteOrder> std::ops::Deref for I64<E> {
    type Target = i64;

    fn deref(&self) -> (r: &i64)
        ensures
            *r == self.deep_view(),
    {
        &self.val
    }
}

impl<E: ByteOrder> Binary for I64<E> {
    open spec fn wire(v: i64) -> Seq<u8> {
        ordered_bytes(E::big_endian(), to_unsigned(v as int, 8), 8)
    }

    open spec fn parse(s: Seq<u8>) -> Parsed<i64> {
        let p = parse_fixed(E::big_endian(), 8, s);
        Parsed {
            value: match p.value {
                Ok(u) => Ok(to_signed(u, 8) as i64),
                Err(e) => Err(e),
            },
            consumed: p.consumed,
        }
    }

    open spec fn encodable(v: i64) -> bool {
        true
    }

    open spec fn self_delimiting() -> bool {
        true
    }

    fn serialize(&self, buf: &mut Buffer) {
        E::write_i64(self.val, buf)
    }

    fn deserialize(buf: &mut Buffer) -> (r: Result<Self, CodecError>) {
        match E::read_i64(buf) {
            Some(val) => Ok(I64 { val, order: PhantomData }),
            None => Err(CodecError::BoundsError),
        }
    }

    proof fn lemma_parse_bounds(s: Seq<u8>) {
    }

    proof fn lemma_round_trip(v: i64, rest: Seq<u8>) {
        lemma_pow256_values();
        lemma_signed_round_trip(v as int, 8);
        lemma_fixed_round_trip(E::big_endian(), to_unsigned(v as int, 8), 8, rest);
    }
}

/// A single-precision number, held as its IEEE 754 bit pattern.
#[derive(Debug, PartialEq)]
pub struct F32<E: ByteOrder> {
    val: u32,
    order: PhantomData<E>,
}

impl<E: ByteOrder> DeepView for F32<E> {
    type V = u32;

    closed spec fn deep_view(&self) -> u32 {
        self.val
    }
}

impl<E: ByteOrder> F32<E> {
    /// Wraps `val`.
    pub fn new(val: u32) -> (r: Self)
        ensures
            r.deep_view() == val,
    {
        F32 { val, order: PhantomData }
    }

    /// The value inside.
    pub fn get(self) -> (val: u32)
        ensures
            val == self.deep_view(),
    {
        self.val
    }
}

impl<E: ByteOrder> From<u32> for F32<E> {
    fn from(value: u32) -> (r: Self)
        ensures
            r.deep_view() == value,
    {
        Self::new(value)
    }
}

impl<E: ByteOrder> FromSpecImpl<u32> for F32<E> {
    open spec fn obeys_from_spec() -> bool {
        true
    }

    closed spec fn from_spec(v: u32) -> Self {
        F32 { val: v, order: PhantomData }
    }
}

impl<E: ByteOrder> From<F32<E>> for u32 {
    fn from(value: F32<E>) -> (r: u32)
        ensures
            r == value.deep_view(),
    {
        value.val
    }
}

impl<E: ByteOrder> FromSpecImpl<F32<E>> for u32 {
    open spec fn obeys_from_spec() -> bool {
        true
    }

    closed spec fn from_spec(v: F32<E>) -> u32 {
        v.val
    }
}

impl<E: ByteOrder> AsRef<u32> for F32<E> {
    fn as_ref(&self) -> (r: &u32)
        ensures
            *r == self.deep_view(),
    {
        &self.val
    }
}

impl<E: ByteOrder> std::ops::Deref for F32<E> {
    type Target = u32;

    fn deref(&self) -> (r: &u32)
        ensures
            *r == self.deep_view(),
    {
        &self.val
    }
}

impl<E: ByteOrder> Binary for F32<E> {
    open spec fn wire(v: u32) -> Seq<u8> {
        ordered_bytes(E::big_endian(), v as nat, 4)
    }

    open spec fn parse(s: Seq<u8>) -> Parsed<u32> {
        let p = parse_fixed(E::big_endian(), 4, s);
        Parsed {
            value: match p.value {
                Ok(u) => Ok(u as u32),
                Err(e) => Err(e),
            },
            consumed: p.consumed,
        }
    }

    open spec fn encodable(v: u32) -> bool {
        true
    }

    open spec fn self_delimiting() -> bool {
        true
    }

    fn serialize(&self, buf: &mut Buffer) {
        E::write_f32(self.val, buf)
    }

    fn deserialize(buf: &mut Buffer) -> (r: Result<Self, CodecError>) {
        match E::read_f32(buf) {
            Some(val) => Ok(F32 { val, order: PhantomData }),
            None => Err(CodecError::BoundsError),
        }
    }

    proof fn lemma_parse_bounds(s: Seq<u8>) {
    }

    proof fn lemma_round_trip(v: u32, rest: Seq<u8>) {
        lemma_pow256_values();
        lemma_fixed_round_trip(E::big_endian(), v as nat, 4, rest);
    }
}

/// A double-precision number, held as its IEEE 754 bit pattern.
#[derive(Debug, PartialEq)]
pub struct F64<E: ByteOrder> {
    val: u64,
    order: PhantomData<E>,
}

impl<E: ByteOrder> DeepView for F64<E> {
    type V = u64;

    closed spec fn deep_view(&self) -> u64 {
        self.val
    }
}

impl<E: ByteOrder> F64<E> {
    /// Wraps `val`.
    pub fn new(val: u64) -> (r: Self)
        ensures
            r.deep_view() == val,
    {
        F64 { val, order: PhantomData }
    }

    /// The value inside.
    pub fn get(self) -> (val: u64)
        ensures
            val == self.deep_view(),
    {
        self.val
    }
}

impl<E: ByteOrder> From<u64> for F64<E> {
    fn from(value: u64) -> (r: Self)
        ensures
            r.deep_view() == value,
    {
        Self::new(value)
    }
}

impl<E: ByteOrder> FromSpecImpl<u64> for F64<E> {
    open spec fn obeys_from_spec() -> bool {
        true
    }

    closed spec fn from_spec(v: u64) -> Self {
        F64 { val: v, order: PhantomData }
    }
}

impl<E: ByteOrder> From<F64<E>> for u64 {
    fn from(value: F64<E>) -> (r: u64)
        ensures
            r == value.deep_view(),
    {
        value.val
    }
}

impl<E: ByteOrder> FromSpecImpl<F64<E>> for u64 {
    open spec fn obeys_from_spec() -> bool {
        true
    }

    closed spec fn from_spec(v: F64<E>) -> u64 {
        v.val
    }
}

impl<E: ByteOrder> AsRef<u64> for F64<E> {
    fn as_ref(&self) -> (r: &u64)
        ensures
            *r == self.deep_view(),
    {
        &self.val
    }
}

impl<E: ByteOrder> std::ops::Deref for F64<E> {
    type Target = u64;

    fn deref(&self) -> (r: &u64)
        ensures
            *r == self.deep_view(),
    {
        &self.val
    }
}

impl<E: ByteOrder> Binary for F64<E> {
    open spec fn wire(v: u64) -> Seq<u8> {
        ordered_bytes(E::big_endian(), v as nat, 8)
    }

    open spec fn parse(s: Seq<u8>) -> Parsed<u64> {
        let p = parse_fixed(E::big_endian(), 8, s);
        Parsed {
            value: match p.value {
                Ok(u) => Ok(u as u64),
                Err(e) => Err(e),
            },
            consumed: p.consumed,
        }
    }

    open spec fn encodable(v: u64) -> bool {
        true
    }

    open spec fn self_delimiting() -> bool {
        true
    }

    fn serialize(&self, buf: &mut Buffer) {
        E::write_f64(self.val, buf)
    }

    fn deserialize(buf: &mut Buffer) -> (r: Result<Self, CodecError>) {
        match E::read_f64(buf) {
            Some(val) => Ok(F64 { val, order: PhantomData }),
            None => Err(CodecError::BoundsError),
        }
    }

    proof fn lemma_parse_bounds(s: Seq<u8>) {
    }

    proof fn lemma_round_trip(v: u64, rest: Seq<u8>) {
        lemma_pow256_values();
        lemma_fixed_round_trip(E::big_endian(), v as nat, 8, rest);
    }
}

/// An unsigned 32-bit number as a variable-length integer of at most five
/// groups.
#[derive(Debug, PartialEq)]
pub struct VarU32 {
    val: u32,
}

impl DeepView for VarU32 {
    type V = u32;

    closed spec fn deep_view(&self) -> u32 {
        self.val
    }
}

impl VarU32 {
    /// Wraps `val`.
    pub fn new(val: u32) -> (r: Self)
        ensures
            r.deep_view() == val,
    {
        VarU32 { val }
    }

    /// The value inside.
    pub fn get(self) -> (val: u32)
        ensures
            val == self.deep_view(),
    {
        self.val
    }
}

impl From<u32> for VarU32 {
    fn from(value: u32) -> (r: Self)
        ensures
            r.deep_view() == value,
    {
        Self::new(value)
    }
}

impl FromSpecImpl<u32> for VarU32 {
    open spec fn obeys_from_spec() -> bool {
        true
    }

    closed spec fn from_spec(v: u32) -> Self {
        VarU32 { val: v }
    }
}

impl From<VarU32> for u32 {
    fn from(value: VarU32) -> (r: u32)
        ensures
            r == value.deep_view(),
    {
        value.val
    }
}

impl FromSpecImpl<VarU32> for u32 {
    open spec fn obeys_from_spec() -> bool {
        true
    }

    closed spec fn from_spec(v: VarU32) -> u32 {
        v.val
    }
}

impl AsRef<u32> for VarU32 {
    fn as_ref(&self) -> (r: &u32)
        ensures
            *r == self.deep_view(),
    {
        &self.val
    }
}

impl std::ops::Deref for VarU32 {
    type Target = u32;

    fn deref(&self) -> (r: &u32)
        ensures
            *r == self.deep_view(),
    {
        &self.val
    }
}

impl Binary for VarU32 {
    open spec fn wire(v: u32) -> Seq<u8> {
        varint_bytes(v as nat)
    }

    open spec fn parse(s: Seq<u8>) -> Parsed<u32> {
        let p = parse_varint(s, 5);
        Parsed {
            value: match p.value {
                Ok(n) => Ok((n % 0x1_0000_0000) as u32),
                Err(e) => Err(e),
            },
            consumed: p.consumed,
        }
    }

    open spec fn encodable(v: u32) -> bool {
        true
    }

    open spec fn self_delimiting() -> bool {
        true
    }

    fn serialize(&self, buf: &mut Buffer) {
        write_varint(self.val as u64, buf)
    }

    fn deserialize(buf: &mut Buffer) -> (r: Result<Self, CodecError>) {
        match read_varint(buf, 5) {
            Ok(n) => Ok(VarU32 { val: (n % 0x1_0000_0000) as u32 }),
            Err(e) => Err(e),
        }
    }

    proof fn lemma_parse_bounds(s: Seq<u8>) {
        lemma_parse_varint_bounds(s, 5);
    }

    proof fn lemma_round_trip(v: u32, rest: Seq<u8>) {
        lemma_pow128_values();
        lemma_varint_round_trip(v as nat, 5, rest);
    }
}

/// A signed 32-bit number, zigzag-folded and written as a variable-length
/// integer of at most five groups.
#[derive(Debug, PartialEq)]
pub struct VarI32 {
    val: i32,
}

impl DeepView for VarI32 {
    type V = i32;

    closed spec fn deep_view(&self) -> i32 {
        self.val
    }
}

impl VarI32 {
    /// Wraps `val`.
    pub fn new(val: i32) -> (r: Self)
        ensures
            r.deep_view() == val,
    {
        VarI32 { val }
    }

    /// The value inside.
    pub fn get(self) -> (val: i32)
        ensures
            val == self.deep_view(),
    {
        self.val
    }
}

impl From<i32> for VarI32 {
    fn from(value: i32) -> (r: Self)
        ensures
            r.deep_view() == value,
    {
        Self::new(value)
    }
}

impl FromSpecImpl<i32> for VarI32 {
    open spec fn obeys_from_spec() -> bool {
        true
    }

    closed spec fn from_spec(v: i32) -> Self {
        VarI32 { val: v }
    }
}

impl From<VarI32> for i32 {
    fn from(value: VarI32) -> (r: i32)
        ensures
            r == value.deep_view(),
    {
        value.val
    }
}

impl FromSpecImpl<VarI32> for i32 {
    open spec fn obeys_from_spec() -> bool {
        true
    }

    closed spec fn from_spec(v: VarI32) -> i32 {
        v.val
    }
}

impl AsRef<i32> for VarI32 {
    fn as_ref(&self) -> (r: &i32)
        ensures
            *r == self.deep_view(),
    {
        &self.val
    }
}

impl std::ops::Deref for VarI32 {
    type Target = i32;

    fn deref(&self) -> (r: &i32)
        ensures
            *r == self.deep_view(),
    {
        &self.val
    }
}

impl Binary for VarI32 {
    open spec fn wire(v: i32) -> Seq<u8> {
        varint_bytes(zigzag(v as int))
    }

    open spec fn parse(s: Seq<u8>) -> Parsed<i32> {
        let p = parse_varint(s, 5);
        Parsed {
            value: match p.value {
                Ok(n) => Ok(unzigzag(n % 0x1_0000_0000) as i32),
                Err(e) => Err(e),
            },
            consumed: p.consumed,
        }
    }

    open spec fn encodable(v: i32) -> bool {
        true
    }

    open spec fn self_delimiting() -> bool {
        true
    }

    fn serialize(&self, buf: &mut Buffer) {
        write_varint(zigzag_encode_32(self.val) as u64, buf)
    }

    fn deserialize(buf: &mut Buffer) -> (r: Result<Self, CodecError>) {
        match read_varint(buf, 5) {
            Ok(n) => Ok(VarI32 { val: zigzag_decode_32((n % 0x1_0000_0000) as u32) }),
            Err(e) => Err(e),
        }
    }

    proof fn lemma_parse_bounds(s: Seq<u8>) {
        lemma_parse_varint_bounds(s, 5);
    }

    proof fn lemma_round_trip(v: i32, rest: Seq<u8>) {
        lemma_pow128_values();
        lemma_zigzag_round_trip(v as int);
        lemma_varint_round_trip(zigzag(v as int), 5, rest);
    }
}

/// An unsigned 64-bit number as a variable-length integer of at most ten
/// groups.
#[derive(Debug, PartialEq)]
pub struct VarU64 {
    val: u64,
}

impl DeepView for VarU64 {
    type V = u64;

    closed spec fn deep_view(&self) -> u64 {
        self.val
    }
}

impl VarU64 {
    /// Wraps `val`.
    pub fn new(val: u64) -> (r: Self)
        ensures
            r.deep_view() == val,
    {
        VarU64 { val }
    }

    /// The value inside.
    pub fn get(self) -> (val: u64)
        ensures
            val == self.deep_view(),
    {
        self.val
    }
}

impl From<u64> for VarU64 {
    fn from(value: u64) -> (r: Self)
        ensures
            r.deep_view() == value,
    {
        Self::new(value)
    }
}

impl FromSpecImpl<u64> for VarU64 {
    open spec fn obeys_from_spec() -> bool {
        true
    }

    closed spec fn from_spec(v: u64) -> Self {
        VarU64 { val: v }
    }
}

impl From<VarU64> for u64 {
    fn from(value: VarU64) -> (r: u64)
        ensures
            r == value.deep_view(),
    {
        value.val
    }
}

impl FromSpecImpl<VarU64> for u64 {
    open spec fn obeys_from_spec() -> bool {
        true
    }

    closed spec fn from_spec(v: VarU64) -> u64 {
        v.val
    }
}

impl AsRef<u64> for VarU64 {
    fn as_ref(&self) -> (r: &u64)
        ensures
            *r == self.deep_view(),
    {
        &self.val
    }
}

impl std::ops::Deref for VarU64 {
    type Target = u64;

    fn deref(&self) -> (r: &u64)
        ensures
            *r == self.deep_view(),
    {
        &self.val
    }
}

impl Binary for VarU64 {
    open spec fn wire(v: u64) -> Seq<u8> {
        varint_bytes(v as nat)
    }

    open spec fn parse(s: Seq<u8>) -> Parsed<u64> {
        let p = parse_varint(s, 10);
        Parsed {
            value: match p.value {
                Ok(n) => Ok((n % 0x1_0000_0000_0000_0000) as u64),
                Err(e) => Err(e),
            },
            consumed: p.consumed,
        }
    }

    open spec fn encodable(v: u64) -> bool {
        true
    }

    open spec fn self_delimiting() -> bool {
        true
    }

    fn serialize(&self, buf: &mut Buffer) {
        write_varint(self.val as u64, buf)
    }

    fn deserialize(buf: &mut Buffer) -> (r: Result<Self, CodecError>) {
        match read_varint(buf, 10) {
            Ok(n) => Ok(VarU64 { val: (n % 0x1_0000_0000_0000_0000) as u64 }),
            Err(e) => Err(e),
        }
    }

    proof fn lemma_parse_bounds(s: Seq<u8>) {
        lemma_parse_varint_bounds(s, 10);
    }

    proof fn lemma_round_trip(v: u64, rest: Seq<u8>) {
        lemma_pow128_values();
        lemma_varint_round_trip(v as nat, 10, rest);
    }
}

/// A signed 64-bit number, zigzag-folded and written as a variable-length
/// integer of at most ten groups.
#[derive(Debug, PartialEq)]
pub struct VarI64 {
    val: i64,
}

impl DeepView for VarI64 {
    type V = i64;

    closed spec fn deep_view(&self) -> i64 {
        self.val
    }
}

impl VarI64 {
    /// Wraps `val`.
    pub fn new(val: i64) -> (r: Self)
        ensures
            r.deep_view() == val,
    {
        VarI64 { val }
    }

    /// The value inside.
    pub fn get(self) -> (val: i64)
        ensures
            val == self.deep_view(),
    {
        self.val
    }
}

impl From<i64> for VarI64 {
    fn from(value: i64) -> (r: Self)
        ensures
            r.deep_view() == value,
    {
        Self::new(value)
    }
}

impl FromSpecImpl<i64> for VarI64 {
    open spec fn obeys_from_spec() -> bool {
        true
    }

    closed spec fn from_spec(v: i64) -> Self {
        VarI64 { val: v }
    }
}

impl From<VarI64> for i64 {
    fn from(value: VarI64) -> (r: i64)
        ensures
            r == value.deep_view(),
    {
        value.val
    }
}

impl FromSpecImpl<VarI64> for i64 {
    open spec fn obeys_from_spec() -> bool {
        true
    }

    closed spec fn from_spec(v: VarI64) -> i64 {
        v.val
    }
}

impl AsRef<i64> for VarI64 {
    fn as_ref(&self) -> (r: &i64)
        ensures
            *r == self.deep_view(),
    {
        &self.val
    }
}

impl std::ops::Deref for VarI64 {
    type Target = i64;

    fn deref(&self) -> (r: &i64)
        ensures
            *r == self.deep_view(),
    {
        &self.val
    }
}

impl Binary for VarI64 {
    open spec fn wire(v: i64) -> Seq<u8> {
        varint_bytes(zigzag(v as int))
    }

    open spec fn parse(s: Seq<u8>) -> Parsed<i64> {
        let p = parse_varint(s, 10);
        Parsed {
            value: match p.value {
                Ok(n) => Ok(unzigzag(n % 0x1_0000_0000_0000_0000) as i64),
                Err(e) => Err(e),
            },
            consumed: p.consumed,
        }
    }

    open spec fn encodable(v: i64) -> bool {
        true
    }

    open spec fn self_delimiting() -> bool {
        true
    }

    fn serialize(&self, buf: &mut Buffer) {
        write_varint(zigzag_encode_64(self.val) as u64, buf)
    }

    fn deserialize(buf: &mut Buffer) -> (r: Result<Self, CodecError>) {
        match read_varint(buf, 10) {
            Ok(n) => Ok(VarI64 { val: zigzag_decode_64((n % 0x1_0000_0000_0000_0000) as u64) }),
            Err(e) => Err(e),
        }
    }

    proof fn lemma_parse_bounds(s: Seq<u8>) {
        lemma_parse_varint_bounds(s, 10);
    }

    proof fn lemma_round_trip(v: i64, rest: Seq<u8>) {
        lemma_pow128_values();
        lemma_zigzag_round_trip(v as int);
        lemma_varint_round_trip(zigzag(v as int), 10, rest);
    }
}

/// Another name for [`VarU32`].
pub type W32 = VarU32;

/// Another name for [`VarI32`].
pub type V32 = VarI32;

/// Another name for [`VarU64`].
pub type W64 = VarU64;

/// Another name for [`VarI64`].
pub type V64 = VarI64;

} // verus!
