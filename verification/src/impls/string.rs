//! Length-prefixed strings.

use std::marker::PhantomData;
use vstd::prelude::*;
use vstd::std_specs::convert::FromSpecImpl;
use vstd::slice::slice_to_vec;
use vstd::utf8::{
    decode_utf8, encode_utf8, encode_utf8_decode_utf8, encode_utf8_valid_utf8, valid_utf8,
};
use crate::buffer::{Buffer, lemma_advance_advance, lemma_advance_unread, lemma_write_write};
use crate::codec::Binary;
use crate::error::CodecError;
use crate::parsed::Parsed;
use crate::prefix::Prefix;

verus! {

/// The bytes of a string behind its length: the prefix `P` announces how many
/// bytes of UTF-8 follow.
pub open spec fn string_wire<P: Prefix>(chars: Seq<char>) -> Seq<u8> {
    P::wire(P::of_len(encode_utf8(chars).len() as usize)) + encode_utf8(chars)
}

/// Reading a string: the prefix, then as many bytes as it announces, which
/// must be there and must be UTF-8.
pub open spec fn parse_string<P: Prefix>(s: Seq<u8>) -> Parsed<Seq<char>> {
    let p = P::parse(s);
    match p.value {
        Err(e) => Parsed::err(e, p.consumed),
        Ok(v) => {
            let n = P::to_len(v) as nat;
            if n + p.consumed > s.len() {
                Parsed::err(CodecError::BoundsError, p.consumed)
            } else {
                let body = s.subrange(p.consumed as int, (p.consumed + n) as int);
                if valid_utf8(body) {
                    Parsed::ok(decode_utf8(body), p.consumed + n)
                } else {
                    Parsed::err(CodecError::Utf8DecodeError, p.consumed + n)
                }
            }
        },
    }
}

/// The strings whose byte length the prefix `P` can announce.
pub open spec fn string_fits<P: Prefix>(chars: Seq<char>) -> bool {
    &&& encode_utf8(chars).len() <= usize::MAX
    &&& P::fits(encode_utf8(chars).len() as usize)
}

/// `String::from_utf8` of std: the string whose bytes are `bytes`, which
/// exists if and only if `bytes` is valid UTF-8.
#[verifier::external_body]
fn string_from_utf8(bytes: Vec<u8>) -> (r: Option<String>)
    ensures
        r is Some <==> valid_utf8(bytes@),
        r matches Some(s) ==> encode_utf8(s@) == bytes@,
{
    String::from_utf8(bytes).ok()
}

/// Appends the string `val` behind its length, as far as the region has room.
pub fn write_string<P: Prefix>(val: &str, buf: &mut Buffer)
    requires
        old(buf).wf(),
    ensures
        final(buf).wf(),
        final(buf)@ == old(buf)@.write(string_wire::<P>(val@)),
{
    let ghost start = buf@;
    P::encode(val.len(), buf);
    buf.write(val.as_bytes());
    proof {
        lemma_write_write(
            start,
            P::wire(P::of_len(encode_utf8(val@).len() as usize)),
            encode_utf8(val@),
        );
    }
}

/// Reads a string behind its length.
pub fn read_string<P: Prefix>(buf: &mut Buffer) -> (r: Result<String, CodecError>)
    requires
        old(buf).wf(),
    ensures
        final(buf).wf(),
        final(buf)@ == old(buf)@.advance(parse_string::<P>(old(buf)@.unread()).consumed),
        match r {
            Ok(s) => parse_string::<P>(old(buf)@.unread()).value == Ok::<Seq<char>, CodecError>(s@),
            Err(e) => parse_string::<P>(old(buf)@.unread()).value == Err::<Seq<char>, CodecError>(
                e,
            ),
        },
{
    let ghost start = buf@;
    let ghost input = start.unread();
    let ghost p = P::parse(input);
    proof {
        P::lemma_parse_bounds(input);
        lemma_advance_unread(start, p.consumed);
    }
    let len = match P::decode(buf) {
        Ok(len) => len,
        Err(e) => {
            return Err(e);
        },
    };
    let bytes = match buf.get(len, true) {
        Ok(bytes) => slice_to_vec(bytes),
        Err(e) => {
            return Err(e);
        },
    };
    proof {
        lemma_advance_advance(start, p.consumed, len as nat);
        assert(bytes@ =~= input.subrange(p.consumed as int, (p.consumed + len) as int));
    }
    match string_from_utf8(bytes) {
        Some(s) => {
            proof {
                encode_utf8_decode_utf8(s@);
            }
            Ok(s)
        },
        None => Err(CodecError::Utf8DecodeError),
    }
}

/// A string is read back from its bytes, whatever follows them, if the
/// prefix can announce its length.
pub proof fn lemma_string_round_trip<P: Prefix>(chars: Seq<char>, rest: Seq<u8>)
    requires
        string_fits::<P>(chars),
    ensures
        parse_string::<P>(string_wire::<P>(chars) + rest) == Parsed::ok(
            chars,
            string_wire::<P>(chars).len(),
        ),
{
    let body = encode_utf8(chars);
    let len = body.len() as usize;
    let head = P::wire(P::of_len(len));
    let s = string_wire::<P>(chars) + rest;
    P::lemma_fits(len);
    assert(s =~= head + (body + rest));
    P::lemma_round_trip(P::of_len(len), body + rest);
    assert(s.subrange(head.len() as int, (head.len() + body.len()) as int) =~= body);
    encode_utf8_valid_utf8(chars);
    encode_utf8_decode_utf8(chars);
}

/// Reading a string never reads past the end, and takes at least one byte
/// when it gives a string from a non-empty input.
pub proof fn lemma_parse_string_bounds<P: Prefix>(s: Seq<u8>)
    ensures
        parse_string::<P>(s).consumed <= s.len(),
        parse_string::<P>(s).value is Ok && s.len() > 0 ==> parse_string::<P>(s).consumed > 0,
{
    P::lemma_parse_bounds(s);
}

/// A string behind a length prefix of type `P`.
#[derive(Debug, PartialEq)]
pub struct CString<P: Prefix> {
    val: String,
    prefix: PhantomData<P>,
}

impl<P: Prefix> DeepView for CString<P> {
    type V = Seq<char>;

    closed spec fn deep_view(&self) -> Seq<char> {
        self.val@
    }
}

impl<P: Prefix> CString<P> {
    /// Wraps the value.
    pub fn new(val: String) -> (r: Self)
        ensures
            r.deep_view() == val@,
    {
        CString { val, prefix: PhantomData }
    }

    /// The value inside.
    pub fn get(self) -> (val: String)
        ensures
            val@ == self.deep_view(),
    {
        self.val
    }
}

impl<P: Prefix> From<String> for CString<P> {
    fn from(value: String) -> (r: Self)
        ensures
            r.deep_view() == value@,
    {
        CString { val: value, prefix: PhantomData }
    }
}

impl<P: Prefix> FromSpecImpl<String> for CString<P> {
    open spec fn obeys_from_spec() -> bool {
        true
    }

    closed spec fn from_spec(v: String) -> Self {
        CString { val: v, prefix: PhantomData }
    }
}

impl<'a, P: Prefix> From<&'a str> for CString<P> {
    fn from(value: &'a str) -> (r: Self)
        ensures
            r.deep_view() == value@,
    {
        CString { val: value.to_owned(), prefix: PhantomData }
    }
}

impl<'a, P: Prefix> FromSpecImpl<&'a str> for CString<P> {
    open spec fn obeys_from_spec() -> bool {
        false
    }

    closed spec fn from_spec(v: &'a str) -> Self {
        arbitrary()
    }
}

impl<P: Prefix> From<CString<P>> for String {
    fn from(value: CString<P>) -> (r: String)
        ensures
            r@ == value.deep_view(),
    {
        value.val
    }
}

impl<P: Prefix> FromSpecImpl<CString<P>> for String {
    open spec fn obeys_from_spec() -> bool {
        true
    }

    closed spec fn from_spec(v: CString<P>) -> String {
        v.val
    }
}

impl<P: Prefix> AsRef<String> for CString<P> {
    fn as_ref(&self) -> (r: &String)
        ensures
            r@ == self.deep_view(),
    {
        &self.val
    }
}

impl<P: Prefix> std::ops::Deref for CString<P> {
    type Target = String;

    fn deref(&self) -> (r: &String)
        ensures
            r@ == self.deep_view(),
    {
        &self.val
    }
}

impl<P: Prefix> Binary for CString<P> {
    open spec fn wire(v: Seq<char>) -> Seq<u8> {
        string_wire::<P>(v)
    }

    open spec fn parse(s: Seq<u8>) -> Parsed<Seq<char>> {
        parse_string::<P>(s)
    }

    open spec fn encodable(v: Seq<char>) -> bool {
        string_fits::<P>(v)
    }

    open spec fn self_delimiting() -> bool {
        true
    }

    fn serialize(&self, buf: &mut Buffer) {
        write_string::<P>(self.val.as_str(), buf)
    }

    fn deserialize(buf: &mut Buffer) -> (r: Result<Self, CodecError>) {
        match read_string::<P>(buf) {
            Ok(val) => Ok(CString { val, prefix: PhantomData }),
            Err(e) => Err(e),
        }
    }

    proof fn lemma_parse_bounds(s: Seq<u8>) {
        lemma_parse_string_bounds::<P>(s);
    }

    proof fn lemma_round_trip(v: Seq<char>, rest: Seq<u8>) {
        lemma_string_round_trip::<P>(v, rest);
    }
}

} // verus!
