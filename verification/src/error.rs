//! The ways in which a decode or a region operation can be refused.

use vstd::prelude::*;

verus! {

/// Why an operation on a byte region, or a decode, was refused.
#[derive(Clone, Copy, Debug, PartialEq, Eq, Structural)]
pub enum CodecError {
    /// Fewer bytes were available than a read needed, a declared length was
    /// negative or ran past the end of the input, or a split index lay outside
    /// the region.
    BoundsError,
    /// A variable-length integer kept its continuation bit set through the
    /// last group that its width allows.
    VarIntOverflow,
    /// The bytes of a string were not valid UTF-8.
    Utf8DecodeError,
    /// A tag byte named no node kind, or named the end marker where a value
    /// was expected.
    InvalidTag,
    /// A byte other than `0x00` and `0x01` stood where a boolean was expected.
    InvalidBoolean,
    /// A tree was nested more deeply than the decoder follows.
    DepthExceeded,
}

} // verus!
