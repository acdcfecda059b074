//! Booleans.

use vstd::prelude::*;
use vstd::std_specs::convert::FromSpecImpl;
use crate::buffer::Buffer;
use crate::codec::Binary;
use crate::error::CodecError;
use crate::parsed::Parsed;

verus! {

/// The byte that stands for a boolean: `0x01` for true, `0x00` for false.
pub open spec fn bool_byte(v: bool) -> u8 {
    if v {
        1
    } else {
        0
    }
}

/// A boolean, one byte wide on the wire.
#[derive(Debug, PartialEq)]
pub struct Bool {
    val: bool,
}

impl DeepView for Bool {
    type V = bool;

    closed spec fn deep_view(&self) -> bool {
        self.val
    }
}

impl Bool {
    /// Wraps the value.
    pub fn new(val: bool) -> (r: Self)
        ensures
            r.deep_view() == val,
    {
        Bool { val }
    }

    /// The value inside.
    pub fn get(self) -> (val: bool)
        ensures
            val == self.deep_view(),
    {
        self.val
    }
}

impl From<bool> for Bool {
    fn from(value: bool) -> (r: Self)
        ensures
            r.deep_view() == value,
    {
        Bool { val: value }
    }
}

impl FromSpecImpl<bool> for Bool {
    open spec fn obeys_from_spec() -> bool {
        true
    }

    closed spec fn from_spec(v: bool) -> Self {
        Bool { val: v }
    }
}

impl From<Bool> for bool {
    fn from(value: Bool) -> (r: bool)
        ensures
            r == value.deep_view(),
    {
        value.val
    }
}

impl FromSpecImpl<Bool> for bool {
    open spec fn obeys_from_spec() -> bool {
        true
    }

    closed spec fn from_spec(v: Bool) -> bool {
        v.val
    }
}

impl AsRef<bool> for Bool {
    fn as_ref(&self) -> (r: &bool)
        ensures
            *r == self.deep_view(),
    {
        &self.val
    }
}

impl std::ops::Deref for Bool {
    type Target = bool;

    fn deref(&self) -> (r: &bool)
        ensures
            *r == self.deep_view(),
    {
        &self.val
    }
}

impl Binary for Bool {
    open spec fn wire(v: bool) -> Seq<u8> {
        seq![bool_byte(v)]
    }

    open spec fn parse(s: Seq<u8>) -> Parsed<bool> {
        if s.len() == 0 {
            Parsed::err(CodecError::BoundsError, 0)
        } else if s[0] == 1 {
            Parsed::ok(true, 1)
        } else if s[0] == 0 {
            Parsed::ok(false, 1)
        } else {
            Parsed::err(CodecError::InvalidBoolean, 1)
        }
    }

    open spec fn encodable(v: bool) -> bool {
        true
    }

    open spec fn self_delimiting() -> bool {
        true
    }

    fn serialize(&self, buf: &mut Buffer) {
        let byte: u8 = if self.val { 0x01 } else { 0x00 };
        let bytes = [byte];
        assert(bytes@ =~= seq![bool_byte(self.val)]);
        buf.write(bytes.as_slice());
    }

    fn deserialize(buf: &mut Buffer) -> (r: Result<Self, CodecError>) {
        match buf.read_byte() {
            Some(0x01) => Ok(Bool { val: true }),
            Some(0x00) => Ok(Bool { val: false }),
            Some(_) => Err(CodecError::InvalidBoolean),
            None => Err(CodecError::BoundsError),
        }
    }

    proof fn lemma_parse_bounds(s: Seq<u8>) {
    }

    proof fn lemma_round_trip(v: bool, rest: Seq<u8>) {
    }
}

} // verus!
