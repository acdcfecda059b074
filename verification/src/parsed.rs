//! What a decoder makes of a run of bytes.

use vstd::prelude::*;
use crate::error::CodecError;

verus! {

/// The outcome of decoding from the front of a byte sequence: the value or the
/// refusal, and how many bytes the read cursor moves in either case.
pub struct Parsed<T> {
    /// The value that was read, or why none was.
    pub value: Result<T, CodecError>,
    /// How many bytes the read has taken.
    pub consumed: nat,
}

impl<T> Parsed<T> {
    /// The value `v`, read from `consumed` bytes.
    pub open spec fn ok(v: T, consumed: nat) -> Self {
        Parsed { value: Ok(v), consumed }
    }

    /// The refusal `e`, after `consumed` bytes.
    pub open spec fn err(e: CodecError, consumed: nat) -> Self {
        Parsed { value: Err(e), consumed }
    }
}

} // verus!
