//! Sequences: arrays behind a length prefix, and the two formats that run to
//! the end of the input.

use std::marker::PhantomData;
use vstd::prelude::*;
use vstd::std_specs::convert::FromSpecImpl;
use vstd::slice::slice_to_vec;
use crate::buffer::{
    Buffer, lemma_advance_advance, lemma_advance_unread, lemma_write_empty, lemma_write_write,
};
use crate::codec::Binary;
use crate::error::CodecError;
use crate::parsed::Parsed;
use crate::prefix::Prefix;

verus! {

/// The bytes of the values `v`, one after another.
pub open spec fn wire_all<B: Binary>(v: Seq<B::V>) -> Seq<u8>
    decreases v.len(),
{
    if v.len() == 0 {
        Seq::empty()
    } else {
        B::wire(v[0]) + wire_all::<B>(v.subrange(1, v.len() as int))
    }
}

/// A decoded run of values with the values `acc` put before it, which took
/// `taken` bytes.
pub open spec fn seq_resume<V>(acc: Seq<V>, taken: nat, p: Parsed<Seq<V>>) -> Parsed<Seq<V>> {
    Parsed {
        value: match p.value {
            Ok(more) => Ok(acc + more),
            Err(e) => Err(e),
        },
        consumed: taken + p.consumed,
    }
}

/// Reading `n` values one after another; the first refusal ends the read.
pub open spec fn parse_n<B: Binary>(s: Seq<u8>, n: nat) -> Parsed<Seq<B::V>>
    decreases n,
{
    if n == 0 {
        Parsed::ok(Seq::empty(), 0)
    } else {
        let first = B::parse(s);
        match first.value {
            Err(e) => Parsed::err(e, first.consumed),
            Ok(x) => seq_resume(
                seq![x],
                first.consumed,
                parse_n::<B>(s.subrange(first.consumed as int, s.len() as int), (n - 1) as nat),
            ),
        }
    }
}

/// Reading values until no byte is left; the first refusal ends the read.
pub open spec fn parse_all<B: Binary>(s: Seq<u8>) -> Parsed<Seq<B::V>>
    decreases s.len(),
{
    if s.len() == 0 {
        Parsed::ok(Seq::empty(), 0)
    } else {
        let first = B::parse(s);
        match first.value {
            Err(e) => Parsed::err(e, first.consumed),
            Ok(x) => {
                proof {
                    B::lemma_parse_bounds(s);
                }
                seq_resume(
                    seq![x],
                    first.consumed,
                    parse_all::<B>(s.subrange(first.consumed as int, s.len() as int)),
                )
            },
        }
    }
}

/// Every value of `v` is one that the format of `B` carries unchanged.
pub open spec fn all_encodable<B: Binary>(v: Seq<B::V>) -> bool {
    forall|i: int| 0 <= i < v.len() ==> B::encodable(#[trigger] v[i])
}

/// Every value of `v` takes at least one byte.
pub open spec fn all_nonempty<B: Binary>(v: Seq<B::V>) -> bool {
    forall|i: int| 0 <= i < v.len() ==> B::wire(#[trigger] v[i]).len() > 0
}

/// The bytes of a run of values with one more value are the bytes of the run
/// and then the bytes of that value.
pub proof fn lemma_wire_all_push<B: Binary>(v: Seq<B::V>, x: B::V)
    ensures
        wire_all::<B>(v.push(x)) == wire_all::<B>(v) + B::wire(x),
    decreases v.len(),
{
    let w = v.push(x);
    if v.len() == 0 {
        assert(w.subrange(1, w.len() as int) =~= Seq::<B::V>::empty());
        assert(wire_all::<B>(Seq::<B::V>::empty()) =~= Seq::<u8>::empty());
        assert(wire_all::<B>(v) =~= Seq::<u8>::empty());
        assert(wire_all::<B>(w) =~= wire_all::<B>(v) + B::wire(x));
    } else {
        let tail = v.subrange(1, v.len() as int);
        assert(w.subrange(1, w.len() as int) =~= tail.push(x));
        lemma_wire_all_push::<B>(tail, x);
        assert(wire_all::<B>(w) =~= wire_all::<B>(v) + B::wire(x));
    }
}

/// Reading a given number of values never passes the end of the input, and
/// gives that many.
pub proof fn lemma_parse_n_bounds<B: Binary>(s: Seq<u8>, n: nat)
    ensures
        parse_n::<B>(s, n).consumed <= s.len(),
        parse_n::<B>(s, n).value matches Ok(v) ==> v.len() == n,
    decreases n,
{
    if n > 0 {
        let first = B::parse(s);
        B::lemma_parse_bounds(s);
        if first.value is Ok {
            lemma_parse_n_bounds::<B>(
                s.subrange(first.consumed as int, s.len() as int),
                (n - 1) as nat,
            );
        }
    }
}

/// Reading values to the end never passes it, and values are only given
/// when the end was reached.
pub proof fn lemma_parse_all_bounds<B: Binary>(s: Seq<u8>)
    ensures
        parse_all::<B>(s).consumed <= s.len(),
        parse_all::<B>(s).value is Ok ==> parse_all::<B>(s).consumed == s.len(),
    decreases s.len(),
{
    if s.len() > 0 {
        let first = B::parse(s);
        B::lemma_parse_bounds(s);
        if first.value is Ok {
            lemma_parse_all_bounds::<B>(s.subrange(first.consumed as int, s.len() as int));
        }
    }
}

/// Values that mark their own end are read back, in their number, from
/// their bytes one after another, whatever follows them.
pub proof fn lemma_parse_n_round_trip<B: Binary>(v: Seq<B::V>, rest: Seq<u8>)
    requires
        B::self_delimiting(),
        all_encodable::<B>(v),
    ensures
        parse_n::<B>(wire_all::<B>(v) + rest, v.len()) == Parsed::ok(v, wire_all::<B>(v).len()),
    decreases v.len(),
{
    if v.len() == 0 {
        assert(parse_n::<B>(wire_all::<B>(v) + rest, v.len()).value->Ok_0 =~= v);
    } else {
        let tail = v.subrange(1, v.len() as int);
        let head_bytes = B::wire(v[0]);
        let tail_bytes = wire_all::<B>(tail);
        let s = wire_all::<B>(v) + rest;
        assert(s =~= head_bytes + (tail_bytes + rest));
        B::lemma_round_trip(v[0], tail_bytes + rest);
        assert(s.subrange(head_bytes.len() as int, s.len() as int) =~= tail_bytes + rest);
        assert(all_encodable::<B>(tail)) by {
            assert forall|i: int| 0 <= i < tail.len() implies B::encodable(#[trigger] tail[i]) by {
                assert(tail[i] == v[i + 1]);
            }
        }
        lemma_parse_n_round_trip::<B>(tail, rest);
        assert(seq![v[0]] + tail =~= v);
    }
}

/// Values that mark their own end and take at least one byte each are read
/// back from their bytes one after another, when nothing follows them.
pub proof fn lemma_parse_all_round_trip<B: Binary>(v: Seq<B::V>)
    requires
        B::self_delimiting(),
        all_encodable::<B>(v),
        all_nonempty::<B>(v),
    ensures
        parse_all::<B>(wire_all::<B>(v)) == Parsed::ok(v, wire_all::<B>(v).len()),
    decreases v.len(),
{
    if v.len() == 0 {
        assert(parse_all::<B>(wire_all::<B>(v)).value->Ok_0 =~= v);
    } else {
        let tail = v.subrange(1, v.len() as int);
        let head_bytes = B::wire(v[0]);
        let tail_bytes = wire_all::<B>(tail);
        let s = wire_all::<B>(v);
        assert(s =~= head_bytes + tail_bytes);
        B::lemma_round_trip(v[0], tail_bytes);
        assert(s.subrange(head_bytes.len() as int, s.len() as int) =~= tail_bytes);
        assert(all_encodable::<B>(tail) && all_nonempty::<B>(tail)) by {
            assert forall|i: int| 0 <= i < tail.len() implies B::encodable(#[trigger] tail[i])
                && B::wire(tail[i]).len() > 0 by {
                assert(tail[i] == v[i + 1]);
            }
        }
        lemma_parse_all_round_trip::<B>(tail);
        assert(seq![v[0]] + tail =~= v);
    }
}

/// Appends each value of `items`, as far as the region has room.
pub fn write_all<B: Binary>(items: &Vec<B>, buf: &mut Buffer)
    requires
        old(buf).wf(),
    ensures
        final(buf).wf(),
        final(buf)@ == old(buf)@.write(wire_all::<B>(items.deep_view())),
{
    let ghost start = buf@;
    let ghost all = items.deep_view();
    let mut i: usize = 0;
    proof {
        lemma_write_empty(start);
        assert(all.subrange(0, 0) =~= Seq::<B::V>::empty());
    }
    while i < items.len()
        invariant
            i <= items.len(),
            start.wf(),
            buf.wf(),
            all == items.deep_view(),
            all.len() == items.len(),
            buf@ == start.write(wire_all::<B>(all.subrange(0, i as int))),
        decreases items.len() - i,
    {
        let ghost done = all.subrange(0, i as int);
        items[i].serialize(buf);
        proof {
            assert(all.subrange(0, i + 1) =~= done.push(all[i as int]));
            assert(all[i as int] == items@[i as int].deep_view());
            lemma_wire_all_push::<B>(done, all[i as int]);
            lemma_write_write(start, wire_all::<B>(done), B::wire(all[i as int]));
        }
        i = i + 1;
    }
    assert(all.subrange(0, i as int) =~= all);
}

/// Reads `n` values one after another.
pub fn read_n<B: Binary>(buf: &mut Buffer, n: usize) -> (r: Result<Vec<B>, CodecError>)
    requires
        old(buf).wf(),
    ensures
        final(buf).wf(),
        final(buf)@ == old(buf)@.advance(parse_n::<B>(old(buf)@.unread(), n as nat).consumed),
        result_view_seq::<B>(r) == parse_n::<B>(old(buf)@.unread(), n as nat).value,
{
    let ghost start = buf@;
    let ghost whole = parse_n::<B>(start.unread(), n as nat);
    let mut items: Vec<B> = Vec::new();
    let mut i: usize = 0;
    let ghost mut taken: nat = 0;
    proof {
        assert(start.advance(0) == start);
        assert(items.deep_view() =~= Seq::<B::V>::empty());
        let p = parse_n::<B>(start.unread(), n as nat);
        match p.value {
            Ok(v) => {
                assert(Seq::<B::V>::empty() + v =~= v);
            },
            Err(_) => {},
        }
    }
    while i < n
        invariant
            i <= n,
            start == old(buf)@,
            start.wf(),
            buf.wf(),
            taken <= start.remaining(),
            buf@ == start.advance(taken),
            whole == parse_n::<B>(start.unread(), n as nat),
            whole == seq_resume(
                items.deep_view(),
                taken,
                parse_n::<B>(buf@.unread(), (n - i) as nat),
            ),
        decreases n - i,
    {
        let ghost here = buf@;
        let ghost s = here.unread();
        let ghost first = B::parse(s);
        let ghost acc = items.deep_view();
        proof {
            B::lemma_parse_bounds(s);
            lemma_advance_unread(here, first.consumed);
            lemma_advance_advance(start, taken, first.consumed);
        }
        match B::deserialize(buf) {
            Ok(x) => {
                let ghost xv = x.deep_view();
                items.push(x);
                proof {
                    assert(items.deep_view() =~= acc.push(xv));
                    let more = parse_n::<B>(
                        s.subrange(first.consumed as int, s.len() as int),
                        (n - i - 1) as nat,
                    );
                    match more.value {
                        Ok(m) => {
                            assert(acc + (seq![xv] + m) =~= acc.push(xv) + m);
                        },
                        Err(_) => {},
                    }
                    taken = taken + first.consumed;
                }
            },
            Err(e) => {
                return Err(e);
            },
        }
        i = i + 1;
    }
    proof {
        assert(items.deep_view() + Seq::<B::V>::empty() =~= items.deep_view());
    }
    Ok(items)
}

/// Reads values until no byte is left unread.
pub fn read_all<B: Binary>(buf: &mut Buffer) -> (r: Result<Vec<B>, CodecError>)
    requires
        old(buf).wf(),
    ensures
        final(buf).wf(),
        final(buf)@ == old(buf)@.advance(parse_all::<B>(old(buf)@.unread()).consumed),
        result_view_seq::<B>(r) == parse_all::<B>(old(buf)@.unread()).value,
{
    let ghost start = buf@;
    let ghost whole = parse_all::<B>(start.unread());
    let mut items: Vec<B> = Vec::new();
    let ghost mut taken: nat = 0;
    proof {
        assert(start.advance(0) == start);
        assert(items.deep_view() =~= Seq::<B::V>::empty());
        match whole.value {
            Ok(v) => {
                assert(Seq::<B::V>::empty() + v =~= v);
            },
            Err(_) => {},
        }
    }
    while buf.remaining() != 0
        invariant
            start == old(buf)@,
            start.wf(),
            buf.wf(),
            taken <= start.remaining(),
            buf@ == start.advance(taken),
            whole == parse_all::<B>(start.unread()),
            whole == seq_resume(items.deep_view(), taken, parse_all::<B>(buf@.unread())),
        decreases buf@.remaining(),
    {
        let ghost here = buf@;
        let ghost s = here.unread();
        let ghost first = B::parse(s);
        let ghost acc = items.deep_view();
        proof {
            B::lemma_parse_bounds(s);
            lemma_advance_unread(here, first.consumed);
            lemma_advance_advance(start, taken, first.consumed);
        }
        match B::deserialize(buf) {
            Ok(x) => {
                let ghost xv = x.deep_view();
                items.push(x);
                proof {
                    assert(items.deep_view() =~= acc.push(xv));
                    let more = parse_all::<B>(s.subrange(first.consumed as int, s.len() as int));
                    match more.value {
                        Ok(m) => {
                            assert(acc + (seq![xv] + m) =~= acc.push(xv) + m);
                        },
                        Err(_) => {},
                    }
                    taken = taken + first.consumed;
                }
            },
            Err(e) => {
                return Err(e);
            },
        }
    }
    proof {
        assert(items.deep_view() + Seq::<B::V>::empty() =~= items.deep_view());
    }
    Ok(items)
}

/// The outcome of reading a run of values, seen through their views.
pub open spec fn result_view_seq<B: Binary>(r: Result<Vec<B>, CodecError>) -> Result<
    Seq<B::V>,
    CodecError,
> {
    match r {
        Ok(v) => Ok(v.deep_view()),
        Err(e) => Err(e),
    }
}

/// The bytes of an array: the prefix `P` announces how many values follow.
pub open spec fn array_wire<P: Prefix, B: Binary>(v: Seq<B::V>) -> Seq<u8> {
    P::wire(P::of_len(v.len() as usize)) + wire_all::<B>(v)
}

/// Reading an array: the prefix, then as many values as it announces.
pub open spec fn parse_array<P: Prefix, B: Binary>(s: Seq<u8>) -> Parsed<Seq<B::V>> {
    let p = P::parse(s);
    match p.value {
        Err(e) => Parsed::err(e, p.consumed),
        Ok(n) => {
            let items = parse_n::<B>(
                s.subrange(p.consumed as int, s.len() as int),
                P::to_len(n) as nat,
            );
            Parsed { value: items.value, consumed: p.consumed + items.consumed }
        },
    }
}

/// An array of values of one type behind a length prefix of type `P`.
#[derive(Debug, PartialEq)]
pub struct Array<P: Prefix, B: Binary> {
    val: Vec<B>,
    prefix: PhantomData<P>,
}

impl<P: Prefix, B: Binary> DeepView for Array<P, B> {
    type V = Seq<B::V>;

    closed spec fn deep_view(&self) -> Seq<B::V> {
        self.val.deep_view()
    }
}

impl<P: Prefix, B: Binary> Array<P, B> {
    /// Wraps the value.
    pub fn new(val: Vec<B>) -> (r: Self)
        ensures
            r.deep_view() == val.deep_view(),
    {
        Array { val, prefix: PhantomData }
    }

    /// The value inside.
    pub fn get(self) -> (val: Vec<B>)
        ensures
            val.deep_view() == self.deep_view(),
    {
        self.val
    }
}

impl<P: Prefix, B: Binary> From<Vec<B>> for Array<P, B> {
    fn from(value: Vec<B>) -> (r: Self)
        ensures
            r.deep_view() == value.deep_view(),
    {
        Array { val: value, prefix: PhantomData }
    }
}

impl<P: Prefix, B: Binary> FromSpecImpl<Vec<B>> for Array<P, B> {
    open spec fn obeys_from_spec() -> bool {
        true
    }

    closed spec fn from_spec(v: Vec<B>) -> Self {
        Array { val: v, prefix: PhantomData }
    }
}

impl<P: Prefix, B: Binary> From<Array<P, B>> for Vec<B> {
    fn from(value: Array<P, B>) -> (r: Vec<B>)
        ensures
            r.deep_view() == value.deep_view(),
    {
        value.val
    }
}

impl<P: Prefix, B: Binary> FromSpecImpl<Array<P, B>> for Vec<B> {
    open spec fn obeys_from_spec() -> bool {
        true
    }

    closed spec fn from_spec(v: Array<P, B>) -> Vec<B> {
        v.val
    }
}

impl<P: Prefix, B: Binary> AsRef<Vec<B>> for Array<P, B> {
    fn as_ref(&self) -> (r: &Vec<B>)
        ensures
            r.deep_view() == self.deep_view(),
    {
        &self.val
    }
}

impl<P: Prefix, B: Binary> std::ops::Deref for Array<P, B> {
    type Target = Vec<B>;

    fn deref(&self) -> (r: &Vec<B>)
        ensures
            r.deep_view() == self.deep_view(),
    {
        &self.val
    }
}

impl<P: Prefix, B: Binary> Binary for Array<P, B> {
    open spec fn wire(v: Seq<B::V>) -> Seq<u8> {
        array_wire::<P, B>(v)
    }

    open spec fn parse(s: Seq<u8>) -> Parsed<Seq<B::V>> {
        parse_array::<P, B>(s)
    }

    open spec fn encodable(v: Seq<B::V>) -> bool {
        &&& v.len() <= usize::MAX
        &&& P::fits(v.len() as usize)
        &&& B::self_delimiting()
        &&& all_encodable::<B>(v)
    }

    open spec fn self_delimiting() -> bool {
        true
    }

    fn serialize(&self, buf: &mut Buffer) {
        let ghost start = buf@;
        P::encode(self.val.len(), buf);
        write_all::<B>(&self.val, buf);
        proof {
            lemma_write_write(
                start,
                P::wire(P::of_len(self.val.len())),
                wire_all::<B>(self.val.deep_view()),
            );
        }
    }

    fn deserialize(buf: &mut Buffer) -> (r: Result<Self, CodecError>) {
        let ghost start = buf@;
        let ghost p = P::parse(start.unread());
        proof {
            P::lemma_parse_bounds(start.unread());
            lemma_advance_unread(start, p.consumed);
        }
        let n = match P::decode(buf) {
            Ok(n) => n,
            Err(e) => {
                return Err(e);
            },
        };
        proof {
            lemma_parse_n_bounds::<B>(buf@.unread(), n as nat);
            lemma_advance_advance(
                start,
                p.consumed,
                parse_n::<B>(buf@.unread(), n as nat).consumed,
            );
        }
        match read_n::<B>(buf, n) {
            Ok(val) => Ok(Array { val, prefix: PhantomData }),
            Err(e) => Err(e),
        }
    }

    proof fn lemma_parse_bounds(s: Seq<u8>) {
        P::lemma_parse_bounds(s);
        let p = P::parse(s);
        if p.value is Ok {
            lemma_parse_n_bounds::<B>(
                s.subrange(p.consumed as int, s.len() as int),
                P::to_len(p.value->Ok_0) as nat,
            );
        }
    }

    proof fn lemma_round_trip(v: Seq<B::V>, rest: Seq<u8>) {
        let len = v.len() as usize;
        let head = P::wire(P::of_len(len));
        let body = wire_all::<B>(v);
        let s = array_wire::<P, B>(v) + rest;
        P::lemma_fits(len);
        assert(s =~= head + (body + rest));
        P::lemma_round_trip(P::of_len(len), body + rest);
        assert(s.subrange(head.len() as int, s.len() as int) =~= body + rest);
        lemma_parse_n_round_trip::<B>(v, rest);
    }
}

/// The rest of the input as values of one type, with no length before them.
/// Such a sequence can only stand last.
impl<T: Binary> Binary for Vec<T> {
    open spec fn wire(v: Seq<T::V>) -> Seq<u8> {
        wire_all::<T>(v)
    }

    open spec fn parse(s: Seq<u8>) -> Parsed<Seq<T::V>> {
        parse_all::<T>(s)
    }

    open spec fn encodable(v: Seq<T::V>) -> bool {
        &&& T::self_delimiting()
        &&& all_encodable::<T>(v)
        &&& all_nonempty::<T>(v)
    }

    open spec fn self_delimiting() -> bool {
        false
    }

    fn serialize(&self, buf: &mut Buffer) {
        write_all::<T>(self, buf)
    }

    fn deserialize(buf: &mut Buffer) -> (r: Result<Self, CodecError>) {
        read_all::<T>(buf)
    }

    proof fn lemma_parse_bounds(s: Seq<u8>) {
        lemma_parse_all_bounds::<T>(s);
    }

    proof fn lemma_round_trip(v: Seq<T::V>, rest: Seq<u8>) {
        assert(wire_all::<T>(v) + rest =~= wire_all::<T>(v));
        lemma_parse_all_round_trip::<T>(v);
    }
}

/// The rest of the input as raw bytes, with no length before them. Such
/// bytes can only stand last.
impl Binary for Vec<u8> {
    open spec fn wire(v: Seq<u8>) -> Seq<u8> {
        v
    }

    open spec fn parse(s: Seq<u8>) -> Parsed<Seq<u8>> {
        Parsed::ok(s, s.len())
    }

    open spec fn encodable(v: Seq<u8>) -> bool {
        true
    }

    open spec fn self_delimiting() -> bool {
        false
    }

    fn serialize(&self, buf: &mut Buffer) {
        assert(self.deep_view() =~= self@);
        buf.write(self.as_slice());
    }

    fn deserialize(buf: &mut Buffer) -> (r: Result<Self, CodecError>) {
        let n = buf.remaining();
        match buf.get(n, true) {
            Ok(bytes) => {
                let val = slice_to_vec(bytes);
                assert(val.deep_view() =~= old(buf)@.unread());
                Ok(val)
            },
            Err(e) => Err(e),
        }
    }

    proof fn lemma_parse_bounds(s: Seq<u8>) {
    }

    proof fn lemma_round_trip(v: Seq<u8>, rest: Seq<u8>) {
        assert(v + rest =~= v);
    }
}

/// The rest of the input as raw bytes, with no length before them. Such a
/// blob can only stand last.
#[derive(Debug, PartialEq)]
pub struct RemBuf {
    val: Vec<u8>,
}

impl DeepView for RemBuf {
    type V = Seq<u8>;

    closed spec fn deep_view(&self) -> Seq<u8> {
        self.val@
    }
}

impl RemBuf {
    /// Wraps the value.
    pub fn new(val: Vec<u8>) -> (r: Self)
        ensures
            r.deep_view() == val@,
    {
        RemBuf { val }
    }

    /// The value inside.
    pub fn get(self) -> (val: Vec<u8>)
        ensures
            val@ == self.deep_view(),
    {
        self.val
    }
}

impl From<Vec<u8>> for RemBuf {
    fn from(value: Vec<u8>) -> (r: Self)
        ensures
            r.deep_view() == value@,
    {
        RemBuf { val: value }
    }
}

impl FromSpecImpl<Vec<u8>> for RemBuf {
    open spec fn obeys_from_spec() -> bool {
        true
    }

    closed spec fn from_spec(v: Vec<u8>) -> Self {
        RemBuf { val: v }
    }
}

impl From<RemBuf> for Vec<u8> {
    fn from(value: RemBuf) -> (r: Vec<u8>)
        ensures
            r@ == value.deep_view(),
    {
        value.val
    }
}

impl FromSpecImpl<RemBuf> for Vec<u8> {
    open spec fn obeys_from_spec() -> bool {
        true
    }

    closed spec fn from_spec(v: RemBuf) -> Vec<u8> {
        v.val
    }
}

impl AsRef<Vec<u8>> for RemBuf {
    fn as_ref(&self) -> (r: &Vec<u8>)
        ensures
            r@ == self.deep_view(),
    {
        &self.val
    }
}

impl std::ops::Deref for RemBuf {
    type Target = Vec<u8>;

    fn deref(&self) -> (r: &Vec<u8>)
        ensures
            r@ == self.deep_view(),
    {
        &self.val
    }
}

impl Binary for RemBuf {
    open spec fn wire(v: Seq<u8>) -> Seq<u8> {
        v
    }

    open spec fn parse(s: Seq<u8>) -> Parsed<Seq<u8>> {
        Parsed::ok(s, s.len())
    }

    open spec fn encodable(v: Seq<u8>) -> bool {
        true
    }

    open spec fn self_delimiting() -> bool {
        false
    }

    fn serialize(&self, buf: &mut Buffer) {
        buf.write(self.val.as_slice());
    }

    fn deserialize(buf: &mut Buffer) -> (r: Result<Self, CodecError>) {
        match Vec::<u8>::deserialize(buf) {
            Ok(val) => {
                assert(val.deep_view() =~= val@);
                Ok(RemBuf { val })
            },
            Err(e) => Err(e),
        }
    }

    proof fn lemma_parse_bounds(s: Seq<u8>) {
    }

    proof fn lemma_round_trip(v: Seq<u8>, rest: Seq<u8>) {
        assert(v + rest =~= v);
    }
}

} // verus!
