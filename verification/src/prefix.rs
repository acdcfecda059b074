//! Length prefixes: the number types that can announce how long a string or
//! an array is.

use vstd::prelude::*;
use crate::buffer::Buffer;
use crate::codec::Binary;
use crate::error::CodecError;
use crate::impls::numeric::{I16, I32, U16, U32, VarI32, VarU32};
use crate::order::ByteOrder;

verus! {

/// A number type that carries a length. The length is cast to the type and
/// written in its format; a length read is cast back. Whether the announced
/// bytes are really there is for the reader of the payload to check.
pub trait Prefix: Binary {
    /// The number that stands for the length `len`: the cast to this type.
    spec fn of_len(len: usize) -> Self::V;

    /// The length that the number `v` stands for: the cast back.
    spec fn to_len(v: Self::V) -> usize;

    /// The lengths that the cast leaves unchanged.
    spec fn fits(len: usize) -> bool;

    /// Writes the length `len`.
    fn encode(len: usize, buf: &mut Buffer)
        requires
            old(buf).wf(),
        ensures
            final(buf).wf(),
            final(buf)@ == old(buf)@.write(Self::wire(Self::of_len(len))),
    ;

    /// Reads a length.
    fn decode(buf: &mut Buffer) -> (r: Result<usize, CodecError>)
        requires
            old(buf).wf(),
        ensures
            final(buf).wf(),
            final(buf)@ == old(buf)@.advance(Self::parse(old(buf)@.unread()).consumed),
            r == match Self::parse(old(buf)@.unread()).value {
                Ok(v) => Ok::<usize, CodecError>(Self::to_len(v)),
                Err(e) => Err::<usize, CodecError>(e),
            },
    ;

    /// A length that fits comes back from the number that stands for it, and
    /// that number is one the format carries; a prefix marks its own end.
    proof fn lemma_fits(len: usize)
        requires
            Self::fits(len),
        ensures
            Self::encodable(Self::of_len(len)),
            Self::to_len(Self::of_len(len)) == len,
            Self::self_delimiting(),
    ;
}

impl<E: ByteOrder> Prefix for U16<E> {
    open spec fn of_len(len: usize) -> u16 {
        len as u16
    }

    open spec fn to_len(v: u16) -> usize {
        v as usize
    }

    open spec fn fits(len: usize) -> bool {
        len <= 0xffff
    }

    fn encode(len: usize, buf: &mut Buffer) {
        Self::new(len as u16).serialize(buf);
    }

    fn decode(buf: &mut Buffer) -> (r: Result<usize, CodecError>) {
        match Self::deserialize(buf) {
            Ok(v) => Ok(v.get() as usize),
            Err(e) => Err(e),
        }
    }

    proof fn lemma_fits(len: usize) {
    }
}

impl<E: ByteOrder> Prefix for I16<E> {
    open spec fn of_len(len: usize) -> i16 {
        len as i16
    }

    open spec fn to_len(v: i16) -> usize {
        v as usize
    }

    open spec fn fits(len: usize) -> bool {
        len <= 0x7fff
    }

    fn encode(len: usize, buf: &mut Buffer) {
        Self::new(len as i16).serialize(buf);
    }

    fn decode(buf: &mut Buffer) -> (r: Result<usize, CodecError>) {
        match Self::deserialize(buf) {
            Ok(v) => Ok(v.get() as usize),
            Err(e) => Err(e),
        }
    }

    proof fn lemma_fits(len: usize) {
    }
}

impl<E: ByteOrder> Prefix for U32<E> {
    open spec fn of_len(len: usize) -> u32 {
        len as u32
    }

    open spec fn to_len(v: u32) -> usize {
        v as usize
    }

    open spec fn fits(len: usize) -> bool {
        len <= 0xffff_ffff
    }

    fn encode(len: usize, buf: &mut Buffer) {
        Self::new(len as u32).serialize(buf);
    }

    fn decode(buf: &mut Buffer) -> (r: Result<usize, CodecError>) {
        match Self::deserialize(buf) {
            Ok(v) => Ok(v.get() as usize),
            Err(e) => Err(e),
        }
    }

    proof fn lemma_fits(len: usize) {
    }
}

impl<E: ByteOrder> Prefix for I32<E> {
    open spec fn of_len(len: usize) -> i32 {
        len as i32
    }

    open spec fn to_len(v: i32) -> usize {
        v as usize
    }

    open spec fn fits(len: usize) -> bool {
        len <= 0x7fff_ffff
    }

    fn encode(len: usize, buf: &mut Buffer) {
        Self::new(len as i32).serialize(buf);
    }

    fn decode(buf: &mut Buffer) -> (r: Result<usize, CodecError>) {
        match Self::deserialize(buf) {
            Ok(v) => Ok(v.get() as usize),
            Err(e) => Err(e),
        }
    }

    proof fn lemma_fits(len: usize) {
    }
}

impl Prefix for VarU32 {
    open spec fn of_len(len: usize) -> u32 {
        len as u32
    }

    open spec fn to_len(v: u32) -> usize {
        v as usize
    }

    open spec fn fits(len: usize) -> bool {
        len <= 0xffff_ffff
    }

    fn encode(len: usize, buf: &mut Buffer) {
        Self::new(len as u32).serialize(buf);
    }

    fn decode(buf: &mut Buffer) -> (r: Result<usize, CodecError>) {
        match Self::deserialize(buf) {
            Ok(v) => Ok(v.get() as usize),
            Err(e) => Err(e),
        }
    }

    proof fn lemma_fits(len: usize) {
    }
}

impl Prefix for VarI32 {
    open spec fn of_len(len: usize) -> i32 {
        len as i32
    }

    open spec fn to_len(v: i32) -> usize {
        v as usize
    }

    open spec fn fits(len: usize) -> bool {
        len <= 0x7fff_ffff
    }

    fn encode(len: usize, buf: &mut Buffer) {
        Self::new(len as i32).serialize(buf);
    }

    fn decode(buf: &mut Buffer) -> (r: Result<usize, CodecError>) {
        match Self::deserialize(buf) {
            Ok(v) => Ok(v.get() as usize),
            Err(e) => Err(e),
        }
    }

    proof fn lemma_fits(len: usize) {
    }
}

} // verus!
