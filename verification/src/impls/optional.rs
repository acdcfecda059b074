//! Values that may be absent: a flag byte says whether a value follows.

use vstd::prelude::*;
use vstd::std_specs::convert::FromSpecImpl;
use crate::buffer::{Buffer, lemma_advance_advance, lemma_advance_unread, lemma_write_write};
use crate::codec::Binary;
use crate::error::CodecError;
use crate::impls::other::{Bool, bool_byte};
use crate::parsed::Parsed;

verus! {

/// The bytes of an optional value: the flag equals `sentinel` where a value
/// follows, and differs from it where none does.
pub open spec fn optional_wire<T: Binary>(sentinel: bool, v: Option<T::V>) -> Seq<u8> {
    match v {
        Some(x) => seq![bool_byte(sentinel)] + T::wire(x),
        None => seq![bool_byte(!sentinel)],
    }
}

/// Reading an optional value: the flag, and a value only where the flag
/// equals `sentinel`.
pub open spec fn parse_optional<T: Binary>(sentinel: bool, s: Seq<u8>) -> Parsed<Option<T::V>> {
    let flag = Bool::parse(s);
    match flag.value {
        Err(e) => Parsed::err(e, flag.consumed),
        Ok(f) => if f == sentinel {
            let inner = T::parse(s.subrange(1, s.len() as int));
            Parsed {
                value: match inner.value {
                    Ok(x) => Ok(Some(x)),
                    Err(e) => Err(e),
                },
                consumed: 1 + inner.consumed,
            }
        } else {
            Parsed::ok(None, 1)
        },
    }
}

/// A value of type `T` that may be absent. On the wire a boolean comes first:
/// equal to `S`, the value follows; different from `S`, nothing follows.
#[derive(Debug)]
pub struct Optional<const S: bool, T: Binary> {
    value: Option<T>,
}

/// An optional value whose presence is flagged by `true`.
pub type TOption<T> = Optional<true, T>;

/// An optional value whose presence is flagged by `false`.
pub type FOption<T> = Optional<false, T>;

impl<const S: bool, T: Binary> DeepView for Optional<S, T> {
    type V = Option<T::V>;

    closed spec fn deep_view(&self) -> Option<T::V> {
        self.value.deep_view()
    }
}

impl<const S: bool, T: Binary> Optional<S, T> {
    /// Wraps the value.
    pub fn new(value: Option<T>) -> (r: Self)
        ensures
            r.deep_view() == value.deep_view(),
    {
        Optional { value }
    }

    /// The value inside.
    pub fn get(self) -> (value: Option<T>)
        ensures
            value.deep_view() == self.deep_view(),
    {
        self.value
    }
}

impl<const S: bool, T: Binary> From<Option<T>> for Optional<S, T> {
    fn from(value: Option<T>) -> (r: Self)
        ensures
            r.deep_view() == value.deep_view(),
    {
        Optional { value }
    }
}

impl<const S: bool, T: Binary> FromSpecImpl<Option<T>> for Optional<S, T> {
    open spec fn obeys_from_spec() -> bool {
        true
    }

    closed spec fn from_spec(v: Option<T>) -> Self {
        Optional { value: v }
    }
}

impl<const S: bool, T: Binary> From<Optional<S, T>> for Option<T> {
    fn from(value: Optional<S, T>) -> (r: Option<T>)
        ensures
            r.deep_view() == value.deep_view(),
    {
        value.value
    }
}

impl<const S: bool, T: Binary> FromSpecImpl<Optional<S, T>> for Option<T> {
    open spec fn obeys_from_spec() -> bool {
        true
    }

    closed spec fn from_spec(v: Optional<S, T>) -> Option<T> {
        v.value
    }
}

impl<const S: bool, T: Binary> Binary for Optional<S, T> {
    open spec fn wire(v: Option<T::V>) -> Seq<u8> {
        optional_wire::<T>(S, v)
    }

    open spec fn parse(s: Seq<u8>) -> Parsed<Option<T::V>> {
        parse_optional::<T>(S, s)
    }

    open spec fn encodable(v: Option<T::V>) -> bool {
        match v {
            Some(x) => T::encodable(x),
            None => true,
        }
    }

    open spec fn self_delimiting() -> bool {
        T::self_delimiting()
    }

    fn serialize(&self, buf: &mut Buffer) {
        let ghost start = buf@;
        match &self.value {
            Some(value) => {
                Bool::new(S).serialize(buf);
                value.serialize(buf);
                proof {
                    lemma_write_write(start, seq![bool_byte(S)], T::wire(value.deep_view()));
                }
            },
            None => Bool::new(!S).serialize(buf),
        }
    }

    fn deserialize(buf: &mut Buffer) -> (r: Result<Self, CodecError>) {
        let ghost start = buf@;
        let flag = match Bool::deserialize(buf) {
            Ok(flag) => flag.get(),
            Err(e) => {
                return Err(e);
            },
        };
        if flag == S {
            proof {
                lemma_advance_unread(start, 1);
                T::lemma_parse_bounds(buf@.unread());
                lemma_advance_advance(start, 1, T::parse(buf@.unread()).consumed);
            }
            match T::deserialize(buf) {
                Ok(value) => Ok(Optional { value: Some(value) }),
                Err(e) => Err(e),
            }
        } else {
            Ok(Optional { value: None })
        }
    }

    proof fn lemma_parse_bounds(s: Seq<u8>) {
        if s.len() > 0 {
            T::lemma_parse_bounds(s.subrange(1, s.len() as int));
        }
    }

    proof fn lemma_round_trip(v: Option<T::V>, rest: Seq<u8>) {
        match v {
            Some(x) => {
                let s = optional_wire::<T>(S, v) + rest;
                assert(s.subrange(1, s.len() as int) =~= T::wire(x) + rest);
                T::lemma_round_trip(x, rest);
            },
            None => {},
        }
    }
}

} // verus!
