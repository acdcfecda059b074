//! The protocol that every codable type follows.

use vstd::prelude::*;
use crate::buffer::{Buffer, BufferView, lemma_write_unread};
use crate::error::CodecError;
use crate::parsed::Parsed;

verus! {

/// The outcome of a decode, seen through the value's view.
pub open spec fn result_view<T: DeepView>(r: Result<T, CodecError>) -> Result<T::V, CodecError> {
    match r {
        Ok(v) => Ok(v.deep_view()),
        Err(e) => Err(e),
    }
}

/// A type with a wire format: its values are written to a byte region and
/// read back from one.
///
/// The format is given by two functions on plain bytes, [`Binary::wire`] and
/// [`Binary::parse`]; `serialize` and `deserialize` carry them out on a
/// [`Buffer`], and the two laws tie them together.
pub trait Binary: Sized + DeepView {
    /// The bytes that stand for the value `v`.
    spec fn wire(v: Self::V) -> Seq<u8>;

    /// What decoding makes of the bytes `s`: a value or a refusal, and how far
    /// the read cursor moves.
    spec fn parse(s: Seq<u8>) -> Parsed<Self::V>;

    /// The values that the format carries unchanged.
    spec fn encodable(v: Self::V) -> bool;

    /// Whether an encoded value marks its own end, so that other bytes may
    /// follow it.
    spec fn self_delimiting() -> bool;

    /// Appends the bytes of `self` to the region. What does not fit is left
    /// out: the region never grows.
    fn serialize(&self, buf: &mut Buffer)
        requires
            old(buf).wf(),
        ensures
            final(buf).wf(),
            final(buf)@ == old(buf)@.write(Self::wire(self.deep_view())),
    ;

    /// Reads a value from the unread bytes of the region.
    fn deserialize(buf: &mut Buffer) -> (r: Result<Self, CodecError>)
        requires
            old(buf).wf(),
        ensures
            final(buf).wf(),
            final(buf)@ == old(buf)@.advance(Self::parse(old(buf)@.unread()).consumed),
            result_view(r) == Self::parse(old(buf)@.unread()).value,
    ;

    /// Decoding never reads past the end, and a value decoded from a
    /// non-empty input has taken at least one byte.
    proof fn lemma_parse_bounds(s: Seq<u8>)
        ensures
            Self::parse(s).consumed <= s.len(),
            Self::parse(s).value is Ok && s.len() > 0 ==> Self::parse(s).consumed > 0,
    ;

    /// Decoding the bytes of an encodable value gives the value back and
    /// stops at their end.
    proof fn lemma_round_trip(v: Self::V, rest: Seq<u8>)
        requires
            Self::encodable(v),
            Self::self_delimiting() || rest.len() == 0,
        ensures
            Self::parse(Self::wire(v) + rest) == Parsed::ok(v, Self::wire(v).len()),
    ;
}

/// On a region in which nothing is unread and the bytes of an encodable
/// value find room, reading after writing the value gives the value back and
/// stops at the end of what was written.
pub proof fn lemma_write_then_read<T: Binary>(region: BufferView, v: T::V)
    requires
        region.wf(),
        region.remaining() == 0,
        T::encodable(v),
        T::wire(v).len() <= region.free(),
    ensures
        T::parse(region.write(T::wire(v)).unread()) == Parsed::ok(v, T::wire(v).len()),
        region.write(T::wire(v)).advance(T::wire(v).len()).remaining() == 0,
{
    lemma_write_unread(region, T::wire(v));
    assert(region.unread() =~= Seq::<u8>::empty());
    assert(region.write(T::wire(v)).unread() =~= T::wire(v) + Seq::<u8>::empty());
    T::lemma_round_trip(v, Seq::empty());
}

} // verus!
