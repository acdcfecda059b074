//! The tree codec: trees written to a byte region and read back from one.

use std::marker::PhantomData;
use vstd::prelude::*;
use vstd::std_specs::convert::FromSpecImpl;
use crate::buffer::{
    Buffer, lemma_advance_advance, lemma_advance_unread, lemma_write_empty, lemma_write_write,
};
use crate::codec::{Binary, result_view};
use crate::error::CodecError;
use crate::fixed::{i8_bits, i8_of_bits, to_signed, to_unsigned};
use crate::impls::numeric::{F32, F64, I16, I8, U8};
use crate::impls::sequence::seq_resume;
use crate::nbt::encoding::Encoding;
use crate::nbt::format::{
    RootView, bytes_wire, entries_wire, ints_wire, items_wire, longs_wire, parse_entries,
    parse_ints, parse_items, parse_len, parse_longs, parse_root, parse_tag, parse_value,
    root_wire, signed_bytes, value_wire,
};
use crate::nbt::laws::{
    carried, lemma_parse_root_bounds, lemma_parse_value_sound, lemma_root_round_trip,
};
use crate::nbt::tag::Tag;
use crate::nbt::tree::{Compound, List, NBT, NbtView, put_all};
use crate::order::LE;
use crate::parsed::Parsed;

verus! {

/// How deep lists and compounds may nest in a tree that is read.
pub const MAX_DEPTH: usize = 512;

/// The payloads of a run of nodes with one more node are the payloads of the
/// run and then the payload of that node.
pub proof fn lemma_items_wire_push<E: Encoding>(items: Seq<NbtView>, x: NbtView)
    ensures
        items_wire::<E>(items.push(x)) == items_wire::<E>(items) + value_wire::<E>(x),
    decreases items.len(),
{
    let w = items.push(x);
    if items.len() == 0 {
        assert(w.subrange(1, w.len() as int) =~= Seq::<NbtView>::empty());
        assert(items_wire::<E>(Seq::<NbtView>::empty()) =~= Seq::<u8>::empty());
        assert(items_wire::<E>(items) =~= Seq::<u8>::empty());
        assert(items_wire::<E>(w) =~= items_wire::<E>(items) + value_wire::<E>(x));
    } else {
        let tail = items.subrange(1, items.len() as int);
        assert(w.subrange(1, w.len() as int) =~= tail.push(x));
        lemma_items_wire_push::<E>(tail, x);
        assert(items_wire::<E>(w) =~= items_wire::<E>(items) + value_wire::<E>(x));
    }
}

/// The entries of a compound with one more entry are the entries and then
/// the tag, the name and the payload of that entry.
pub proof fn lemma_entries_wire_push<E: Encoding>(
    entries: Seq<(Seq<char>, NbtView)>,
    name: Seq<char>,
    x: NbtView,
)
    ensures
        entries_wire::<E>(entries.push((name, x))) == entries_wire::<E>(entries) + (seq![
            x.tag().byte(),
        ] + E::text_wire(name) + value_wire::<E>(x)),
    decreases entries.len(),
{
    let w = entries.push((name, x));
    let last = seq![x.tag().byte()] + E::text_wire(name) + value_wire::<E>(x);
    if entries.len() == 0 {
        assert(w.subrange(1, w.len() as int) =~= Seq::<(Seq<char>, NbtView)>::empty());
        assert(entries_wire::<E>(Seq::<(Seq<char>, NbtView)>::empty()) =~= Seq::<u8>::empty());
        assert(entries_wire::<E>(entries) =~= Seq::<u8>::empty());
        assert(entries_wire::<E>(w) =~= entries_wire::<E>(entries) + last);
    } else {
        let tail = entries.subrange(1, entries.len() as int);
        assert(w.subrange(1, w.len() as int) =~= tail.push((name, x)));
        lemma_entries_wire_push::<E>(tail, name, x);
        assert(entries_wire::<E>(w) =~= entries_wire::<E>(entries) + last);
    }
}

/// The bytes of a run of integers with one more integer are the bytes of
/// the run and then the bytes of that integer.
pub proof fn lemma_ints_wire_push<E: Encoding>(a: Seq<i32>, x: i32)
    ensures
        ints_wire::<E>(a.push(x)) == ints_wire::<E>(a) + E::int_wire(x),
    decreases a.len(),
{
    let w = a.push(x);
    if a.len() == 0 {
        assert(w.subrange(1, w.len() as int) =~= Seq::<i32>::empty());
        assert(ints_wire::<E>(Seq::<i32>::empty()) =~= Seq::<u8>::empty());
        assert(ints_wire::<E>(a) =~= Seq::<u8>::empty());
        assert(ints_wire::<E>(w) =~= ints_wire::<E>(a) + E::int_wire(x));
    } else {
        let tail = a.subrange(1, a.len() as int);
        assert(w.subrange(1, w.len() as int) =~= tail.push(x));
        lemma_ints_wire_push::<E>(tail, x);
        assert(ints_wire::<E>(w) =~= ints_wire::<E>(a) + E::int_wire(x));
    }
}

/// The bytes of a run of long integers with one more are the bytes of the
/// run and then the bytes of that long integer.
pub proof fn lemma_longs_wire_push<E: Encoding>(a: Seq<i64>, x: i64)
    ensures
        longs_wire::<E>(a.push(x)) == longs_wire::<E>(a) + E::long_wire(x),
    decreases a.len(),
{
    let w = a.push(x);
    if a.len() == 0 {
        assert(w.subrange(1, w.len() as int) =~= Seq::<i64>::empty());
        assert(longs_wire::<E>(Seq::<i64>::empty()) =~= Seq::<u8>::empty());
        assert(longs_wire::<E>(a) =~= Seq::<u8>::empty());
        assert(longs_wire::<E>(w) =~= longs_wire::<E>(a) + E::long_wire(x));
    } else {
        let tail = a.subrange(1, a.len() as int);
        assert(w.subrange(1, w.len() as int) =~= tail.push(x));
        lemma_longs_wire_push::<E>(tail, x);
        assert(longs_wire::<E>(w) =~= longs_wire::<E>(a) + E::long_wire(x));
    }
}

/// Appends the tag byte of `tag`, if the region has room.
pub fn serialize_tag(tag: Tag, buf: &mut Buffer)
    requires
        old(buf).wf(),
    ensures
        final(buf).wf(),
        final(buf)@ == old(buf)@.write(seq![tag.byte()]),
{
    U8::new(tag.to_byte()).serialize(buf);
}

/// Reads a tag byte.
pub fn deserialize_tag(buf: &mut Buffer) -> (r: Result<Tag, CodecError>)
    requires
        old(buf).wf(),
    ensures
        final(buf).wf(),
        final(buf)@ == old(buf)@.advance(parse_tag(old(buf)@.unread()).consumed),
        r == parse_tag(old(buf)@.unread()).value,
{
    match buf.read_byte() {
        Some(b) => match Tag::from_byte(b) {
            Some(tag) => Ok(tag),
            None => Err(CodecError::InvalidTag),
        },
        None => {
            assert(old(buf)@.advance(0) == old(buf)@);
            Err(CodecError::BoundsError)
        },
    }
}

/// Appends the signed bytes `a` as bytes, as far as the region has room.
fn write_signed_bytes(a: &Vec<i8>, buf: &mut Buffer)
    requires
        old(buf).wf(),
    ensures
        final(buf).wf(),
        final(buf)@ == old(buf)@.write(bytes_wire(a@)),
{
    let mut bytes: Vec<u8> = Vec::with_capacity(a.len());
    let mut i: usize = 0;
    while i < a.len()
        invariant
            i <= a.len(),
            bytes@.len() == i,
            forall|j: int| 0 <= j < i ==> bytes@[j] == to_unsigned(a@[j] as int, 1) as u8,
        decreases a.len() - i,
    {
        bytes.push(i8_bits(a[i]));
        i = i + 1;
    }
    assert(bytes@ =~= bytes_wire(a@));
    buf.write(bytes.as_slice());
}

/// Appends the integers `a` one after another, as far as the region has room.
fn write_ints<E: Encoding>(a: &Vec<i32>, buf: &mut Buffer)
    requires
        old(buf).wf(),
    ensures
        final(buf).wf(),
        final(buf)@ == old(buf)@.write(ints_wire::<E>(a@)),
{
    let ghost start = buf@;
    let mut i: usize = 0;
    proof {
        lemma_write_empty(start);
        assert(a@.subrange(0, 0) =~= Seq::<i32>::empty());
    }
    while i < a.len()
        invariant
            i <= a.len(),
            start.wf(),
            buf.wf(),
            buf@ == start.write(ints_wire::<E>(a@.subrange(0, i as int))),
        decreases a.len() - i,
    {
        let ghost done = a@.subrange(0, i as int);
        E::write_int(a[i], buf);
        proof {
            assert(a@.subrange(0, i + 1) =~= done.push(a@[i as int]));
            lemma_ints_wire_push::<E>(done, a@[i as int]);
            lemma_write_write(start, ints_wire::<E>(done), E::int_wire(a@[i as int]));
        }
        i = i + 1;
    }
    assert(a@.subrange(0, i as int) =~= a@);
}

/// Appends the long integers `a` one after another, as far as the region has
/// room.
fn write_longs<E: Encoding>(a: &Vec<i64>, buf: &mut Buffer)
    requires
        old(buf).wf(),
    ensures
        final(buf).wf(),
        final(buf)@ == old(buf)@.write(longs_wire::<E>(a@)),
{
    let ghost start = buf@;
    let mut i: usize = 0;
    proof {
        lemma_write_empty(start);
        assert(a@.subrange(0, 0) =~= Seq::<i64>::empty());
    }
    while i < a.len()
        invariant
            i <= a.len(),
            start.wf(),
            buf.wf(),
            buf@ == start.write(longs_wire::<E>(a@.subrange(0, i as int))),
        decreases a.len() - i,
    {
        let ghost done = a@.subrange(0, i as int);
        E::write_long(a[i], buf);
        proof {
            assert(a@.subrange(0, i + 1) =~= done.push(a@[i as int]));
            lemma_longs_wire_push::<E>(done, a@[i as int]);
            lemma_write_write(start, longs_wire::<E>(done), E::long_wire(a@[i as int]));
        }
        i = i + 1;
    }
    assert(a@.subrange(0, i as int) =~= a@);
}

/// Appends the payload of `nbt` in the profile `E`, as far as the region has
/// room. A tree that nests deeper than [`MAX_DEPTH`] is written like any
/// other, but [`decode`] will not follow it.
pub fn encode<E: Encoding>(nbt: &NBT, buf: &mut Buffer)
    requires
        old(buf).wf(),
    ensures
        final(buf).wf(),
        final(buf)@ == old(buf)@.write(value_wire::<E>(nbt.deep_view())),
    decreases nbt.deep_view(),
{
    let ghost start = buf@;
    match nbt {
        NBT::Byte(v) => I8::new(*v).serialize(buf),
        NBT::Short(v) => I16::<LE>::new(*v).serialize(buf),
        NBT::Int(v) => E::write_int(*v, buf),
        NBT::Long(v) => E::write_long(*v, buf),
        NBT::Float(v) => F32::<LE>::new(*v).serialize(buf),
        NBT::Double(v) => F64::<LE>::new(*v).serialize(buf),
        NBT::ByteArray(v) => {
            E::write_int(#[verifier::truncate] (v.len() as i32), buf);
            write_signed_bytes(v, buf);
            proof {
                lemma_write_write(start, E::int_wire(v@.len() as i32), bytes_wire(v@));
            }
        },
        NBT::String(v) => E::write_string(v.as_str(), buf),
        NBT::List(v) => {
            proof {
                assert(decreases_to!(nbt.deep_view() => nbt.deep_view()->List_1));
            }
            encode_list::<E>(v, buf)
        },
        NBT::Compound(v) => {
            proof {
                assert(decreases_to!(nbt.deep_view() => nbt.deep_view()->Compound_0));
            }
            encode_compound::<E>(v, buf)
        },
        NBT::IntArray(v) => {
            E::write_int(#[verifier::truncate] (v.len() as i32), buf);
            write_ints::<E>(v, buf);
            proof {
                lemma_write_write(start, E::int_wire(v@.len() as i32), ints_wire::<E>(v@));
            }
        },
        NBT::LongArray(v) => {
            E::write_int(#[verifier::truncate] (v.len() as i32), buf);
            write_longs::<E>(v, buf);
            proof {
                lemma_write_write(start, E::int_wire(v@.len() as i32), longs_wire::<E>(v@));
            }
        },
    }
}

/// Appends a list: the tag of its elements, their number, and their payloads.
fn encode_list<E: Encoding>(v: &List, buf: &mut Buffer)
    requires
        old(buf).wf(),
    ensures
        final(buf).wf(),
        final(buf)@ == old(buf)@.write(
            value_wire::<E>(NbtView::List(v.element_tag(), v.items_view())),
        ),
    decreases v.items_view(),
{
    let ghost start = buf@;
    let ghost views = v.items_view();
    let ghost head = seq![v.element_tag().byte()] + E::int_wire(views.len() as i32);
    serialize_tag(v.tag(), buf);
    E::write_int(#[verifier::truncate] (v.len() as i32), buf);
    let items = v.items();
    let mut i: usize = 0;
    proof {
        lemma_write_write(start, seq![v.element_tag().byte()], E::int_wire(views.len() as i32));
        assert(views.subrange(0, 0) =~= Seq::<NbtView>::empty());
        assert(head + items_wire::<E>(Seq::<NbtView>::empty()) =~= head);
    }
    while i < items.len()
        invariant
            i <= items.len(),
            start.wf(),
            buf.wf(),
            views == v.items_view(),
            views == items.deep_view(),
            views.len() == items.len(),
            buf@ == start.write(head + items_wire::<E>(views.subrange(0, i as int))),
        decreases items.len() - i,
    {
        let ghost done = views.subrange(0, i as int);
        proof {
            assert(views[i as int] == items@[i as int].deep_view());
            assert(decreases_to!(views => views[i as int]));
        }
        encode::<E>(&items[i], buf);
        proof {
            assert(views.subrange(0, i + 1) =~= done.push(views[i as int]));
            lemma_items_wire_push::<E>(done, views[i as int]);
            lemma_write_write(
                start,
                head + items_wire::<E>(done),
                value_wire::<E>(views[i as int]),
            );
            assert((head + items_wire::<E>(done)) + value_wire::<E>(views[i as int]) =~= head
                + items_wire::<E>(done.push(views[i as int])));
        }
        i = i + 1;
    }
    assert(views.subrange(0, i as int) =~= views);
}

/// Appends a compound: for each entry its tag, its name and its payload,
/// and the end marker after the last.
fn encode_compound<E: Encoding>(v: &Compound, buf: &mut Buffer)
    requires
        old(buf).wf(),
    ensures
        final(buf).wf(),
        final(buf)@ == old(buf)@.write(value_wire::<E>(NbtView::Compound(v.entries_view()))),
    decreases v.entries_view(),
{
    let ghost start = buf@;
    let ghost views = v.entries_view();
    let entries = v.entries();
    let mut i: usize = 0;
    proof {
        lemma_write_empty(start);
        assert(views.subrange(0, 0) =~= Seq::<(Seq<char>, NbtView)>::empty());
    }
    while i < entries.len()
        invariant
            i <= entries.len(),
            start.wf(),
            buf.wf(),
            views == v.entries_view(),
            views.len() == entries@.len(),
            forall|j: int|
                0 <= j < entries@.len() ==> (#[trigger] entries@[j]).0@ == views[j].0
                    && entries@[j].1.deep_view() == views[j].1,
            buf@ == start.write(entries_wire::<E>(views.subrange(0, i as int))),
        decreases entries.len() - i,
    {
        let ghost done = views.subrange(0, i as int);
        let ghost here = buf@;
        let ghost name = views[i as int].0;
        let ghost value = views[i as int].1;
        proof {
            assert(entries@[i as int].0@ == name);
            assert(entries@[i as int].1.deep_view() == value);
            assert(decreases_to!(views => views[i as int]));
            assert(decreases_to!(views[i as int] => views[i as int].1));
        }
        serialize_tag(entries[i].1.tag(), buf);
        E::write_string(entries[i].0.as_str(), buf);
        encode::<E>(&entries[i].1, buf);
        proof {
            let tag_byte = seq![value.tag().byte()];
            lemma_write_write(here, tag_byte, E::text_wire(name));
            lemma_write_write(here, tag_byte + E::text_wire(name), value_wire::<E>(value));
            assert(views.subrange(0, i + 1) =~= done.push((name, value)));
            lemma_entries_wire_push::<E>(done, name, value);
            lemma_write_write(
                start,
                entries_wire::<E>(done),
                tag_byte + E::text_wire(name) + value_wire::<E>(value),
            );
        }
        i = i + 1;
    }
    assert(views.subrange(0, i as int) =~= views);
    serialize_tag(Tag::End, buf);
    proof {
        lemma_write_write(start, entries_wire::<E>(views), seq![Tag::End.byte()]);
    }
}

/// Reads a length: an integer of the profile, refused if negative.
fn read_len<E: Encoding>(buf: &mut Buffer) -> (r: Result<usize, CodecError>)
    requires
        old(buf).wf(),
    ensures
        final(buf).wf(),
        final(buf)@ == old(buf)@.advance(parse_len::<E>(old(buf)@.unread()).consumed),
        match r {
            Ok(n) => parse_len::<E>(old(buf)@.unread()).value == Ok::<nat, CodecError>(n as nat),
            Err(e) => parse_len::<E>(old(buf)@.unread()).value == Err::<nat, CodecError>(e),
        },
{
    match E::read_int(buf) {
        Ok(len) => if len < 0 {
            Err(CodecError::BoundsError)
        } else {
            Ok(len as usize)
        },
        Err(e) => Err(e),
    }
}

/// Reads `n` bytes as signed bytes; refused if fewer are unread.
fn read_signed_bytes(buf: &mut Buffer, n: usize) -> (r: Result<Vec<i8>, CodecError>)
    requires
        old(buf).wf(),
    ensures
        final(buf).wf(),
        match r {
            Ok(a) => n <= old(buf)@.remaining() && final(buf)@ == old(buf)@.advance(n as nat) && a@
                == signed_bytes(old(buf)@.unread().subrange(0, n as int)),
            Err(e) => n > old(buf)@.remaining() && final(buf)@ == old(buf)@ && e
                == CodecError::BoundsError,
        },
{
    let bytes = match buf.get(n, true) {
        Ok(bytes) => bytes,
        Err(e) => {
            return Err(e);
        },
    };
    let mut a: Vec<i8> = Vec::with_capacity(n);
    let mut i: usize = 0;
    while i < n
        invariant
            i <= n,
            n == bytes@.len(),
            a@.len() == i,
            forall|j: int| 0 <= j < i ==> a@[j] == to_signed(bytes@[j] as nat, 1) as i8,
        decreases n - i,
    {
        a.push(i8_of_bits(bytes[i]));
        i = i + 1;
    }
    assert(a@ =~= signed_bytes(bytes@));
    Ok(a)
}

/// Reads `n` integers one after another.
fn read_ints<E: Encoding>(buf: &mut Buffer, n: usize) -> (r: Result<Vec<i32>, CodecError>)
    requires
        old(buf).wf(),
    ensures
        final(buf).wf(),
        final(buf)@ == old(buf)@.advance(parse_ints::<E>(old(buf)@.unread(), n as nat).consumed),
        match r {
            Ok(a) => parse_ints::<E>(old(buf)@.unread(), n as nat).value == Ok::<
                Seq<i32>,
                CodecError,
            >(a@),
            Err(e) => parse_ints::<E>(old(buf)@.unread(), n as nat).value == Err::<
                Seq<i32>,
                CodecError,
            >(e),
        },
{
    let ghost start = buf@;
    let ghost whole = parse_ints::<E>(start.unread(), n as nat);
    let mut a: Vec<i32> = Vec::new();
    let mut i: usize = 0;
    let ghost mut taken: nat = 0;
    proof {
        assert(start.advance(0) == start);
        match whole.value {
            Ok(v) => {
                assert(Seq::<i32>::empty() + v =~= v);
            },
            Err(_) => {},
        }
    }
    while i < n
        invariant
            i <= n,
            start == old(buf)@,
            start.wf(),
            buf.wf(),
            taken <= start.remaining(),
            buf@ == start.advance(taken),
            whole == parse_ints::<E>(start.unread(), n as nat),
            whole == seq_resume(a@, taken, parse_ints::<E>(buf@.unread(), (n - i) as nat)),
        decreases n - i,
    {
        let ghost here = buf@;
        let ghost s = here.unread();
        let ghost first = E::parse_int(s);
        let ghost acc = a@;
        match E::read_int(buf) {
            Ok(x) => {
                a.push(x);
                proof {
                    lemma_advance_unread(here, first.consumed);
                    lemma_advance_advance(start, taken, first.consumed);
                    let more = parse_ints::<E>(
                        s.subrange(first.consumed as int, s.len() as int),
                        (n - i - 1) as nat,
                    );
                    match more.value {
                        Ok(m) => {
                            assert(acc + (seq![x] + m) =~= acc.push(x) + m);
                        },
                        Err(_) => {},
                    }
                    taken = taken + first.consumed;
                }
            },
            Err(e) => {
                proof {
                    lemma_advance_advance(start, taken, first.consumed);
                }
                return Err(e);
            },
        }
        i = i + 1;
    }
    proof {
        assert(a@ + Seq::<i32>::empty() =~= a@);
    }
    Ok(a)
}

/// Reads `n` long integers one after another.
fn read_longs<E: Encoding>(buf: &mut Buffer, n: usize) -> (r: Result<Vec<i64>, CodecError>)
    requires
        old(buf).wf(),
    ensures
        final(buf).wf(),
        final(buf)@ == old(buf)@.advance(parse_longs::<E>(old(buf)@.unread(), n as nat).consumed),
        match r {
            Ok(a) => parse_longs::<E>(old(buf)@.unread(), n as nat).value == Ok::<
                Seq<i64>,
                CodecError,
            >(a@),
            Err(e) => parse_longs::<E>(old(buf)@.unread(), n as nat).value == Err::<
                Seq<i64>,
                CodecError,
            >(e),
        },
{
    let ghost start = buf@;
    let ghost whole = parse_longs::<E>(start.unread(), n as nat);
    let mut a: Vec<i64> = Vec::new();
    let mut i: usize = 0;
    let ghost mut taken: nat = 0;
    proof {
        assert(start.advance(0) == start);
        match whole.value {
            Ok(v) => {
                assert(Seq::<i64>::empty() + v =~= v);
            },
            Err(_) => {},
        }
    }
    while i < n
        invariant
            i <= n,
            start == old(buf)@,
            start.wf(),
            buf.wf(),
            taken <= start.remaining(),
            buf@ == start.advance(taken),
            whole == parse_longs::<E>(start.unread(), n as nat),
            whole == seq_resume(a@, taken, parse_longs::<E>(buf@.unread(), (n - i) as nat)),
        decreases n - i,
    {
        let ghost here = buf@;
        let ghost s = here.unread();
        let ghost first = E::parse_long(s);
        let ghost acc = a@;
        match E::read_long(buf) {
            Ok(x) => {
                a.push(x);
                proof {
                    lemma_advance_unread(here, first.consumed);
                    lemma_advance_advance(start, taken, first.consumed);
                    let more = parse_longs::<E>(
                        s.subrange(first.consumed as int, s.len() as int),
                        (n - i - 1) as nat,
                    );
                    match more.value {
                        Ok(m) => {
                            assert(acc + (seq![x] + m) =~= acc.push(x) + m);
                        },
                        Err(_) => {},
                    }
                    taken = taken + first.consumed;
                }
            },
            Err(e) => {
                proof {
                    lemma_advance_advance(start, taken, first.consumed);
                }
                return Err(e);
            },
        }
        i = i + 1;
    }
    proof {
        assert(a@ + Seq::<i64>::empty() =~= a@);
    }
    Ok(a)
}

/// Reads the payload of a node of kind `id` in the profile `E`. Lists and
/// compounds may nest [`MAX_DEPTH`] deep.
pub fn decode<E: Encoding>(id: Tag, buf: &mut Buffer) -> (r: Result<NBT, CodecError>)
    requires
        old(buf).wf(),
    ensures
        final(buf).wf(),
        final(buf)@ == old(buf)@.advance(
            parse_value::<E>(id, old(buf)@.unread(), MAX_DEPTH as nat).consumed,
        ),
        result_view(r) == parse_value::<E>(id, old(buf)@.unread(), MAX_DEPTH as nat).value,
        r matches Ok(tree) ==> tree.deep_view().tag() == id && tree.deep_view().wf()
            && tree.deep_view().within_depth(MAX_DEPTH as nat),
{
    proof {
        lemma_parse_value_sound::<E>(id, buf@.unread(), MAX_DEPTH as nat);
    }
    decode_within::<E>(id, buf, MAX_DEPTH)
}

/// Reads the payload of a node of kind `id` in the profile `E`, with lists
/// and compounds nested at most `depth` deep.
pub fn decode_within<E: Encoding>(id: Tag, buf: &mut Buffer, depth: usize) -> (r: Result<
    NBT,
    CodecError,
>)
    requires
        old(buf).wf(),
    ensures
        final(buf).wf(),
        final(buf)@ == old(buf)@.advance(
            parse_value::<E>(id, old(buf)@.unread(), depth as nat).consumed,
        ),
        result_view(r) == parse_value::<E>(id, old(buf)@.unread(), depth as nat).value,
    decreases depth, 1nat,
{
    let ghost start = buf@;
    proof {
        assert(start.advance(0) == start);
    }
    match id {
        Tag::End => Err(CodecError::InvalidTag),
        Tag::Byte => match I8::deserialize(buf) {
            Ok(v) => Ok(NBT::Byte(v.get())),
            Err(e) => Err(e),
        },
        Tag::Short => match I16::<LE>::deserialize(buf) {
            Ok(v) => Ok(NBT::Short(v.get())),
            Err(e) => Err(e),
        },
        Tag::Int => match E::read_int(buf) {
            Ok(v) => Ok(NBT::Int(v)),
            Err(e) => Err(e),
        },
        Tag::Long => match E::read_long(buf) {
            Ok(v) => Ok(NBT::Long(v)),
            Err(e) => Err(e),
        },
        Tag::Float => match F32::<LE>::deserialize(buf) {
            Ok(v) => Ok(NBT::Float(v.get())),
            Err(e) => Err(e),
        },
        Tag::Double => match F64::<LE>::deserialize(buf) {
            Ok(v) => Ok(NBT::Double(v.get())),
            Err(e) => Err(e),
        },
        Tag::ByteArray => decode_byte_array::<E>(buf),
        Tag::String => match E::read_string(buf) {
            Ok(v) => Ok(NBT::String(v)),
            Err(e) => Err(e),
        },
        Tag::List => if depth == 0 {
            Err(CodecError::DepthExceeded)
        } else {
            decode_list::<E>(buf, depth)
        },
        Tag::Compound => if depth == 0 {
            Err(CodecError::DepthExceeded)
        } else {
            decode_compound::<E>(buf, depth)
        },
        Tag::IntArray => decode_int_array::<E>(buf),
        Tag::LongArray => decode_long_array::<E>(buf),
    }
}

/// Reads a byte array: its length, then as many bytes.
fn decode_byte_array<E: Encoding>(buf: &mut Buffer) -> (r: Result<NBT, CodecError>)
    requires
        old(buf).wf(),
    ensures
        final(buf).wf(),
        final(buf)@ == old(buf)@.advance(
            parse_value::<E>(Tag::ByteArray, old(buf)@.unread(), 0).consumed,
        ),
        result_view(r) == parse_value::<E>(Tag::ByteArray, old(buf)@.unread(), 0).value,
{
    let ghost start = buf@;
    let ghost n = parse_len::<E>(start.unread());
    let len = match read_len::<E>(buf) {
        Ok(len) => len,
        Err(e) => {
            return Err(e);
        },
    };
    proof {
        lemma_advance_unread(start, n.consumed);
    }
    match read_signed_bytes(buf, len) {
        Ok(a) => {
            proof {
                lemma_advance_advance(start, n.consumed, len as nat);
                assert(start.unread().subrange(n.consumed as int, (n.consumed + len) as int)
                    =~= start.advance(n.consumed).unread().subrange(0, len as int));
            }
            Ok(NBT::ByteArray(a))
        },
        Err(e) => Err(e),
    }
}

/// Reads an array of integers: its length, then as many integers.
fn decode_int_array<E: Encoding>(buf: &mut Buffer) -> (r: Result<NBT, CodecError>)
    requires
        old(buf).wf(),
    ensures
        final(buf).wf(),
        final(buf)@ == old(buf)@.advance(
            parse_value::<E>(Tag::IntArray, old(buf)@.unread(), 0).consumed,
        ),
        result_view(r) == parse_value::<E>(Tag::IntArray, old(buf)@.unread(), 0).value,
{
    let ghost start = buf@;
    let ghost n = parse_len::<E>(start.unread());
    let len = match read_len::<E>(buf) {
        Ok(len) => len,
        Err(e) => {
            return Err(e);
        },
    };
    proof {
        lemma_advance_unread(start, n.consumed);
        lemma_advance_advance(
            start,
            n.consumed,
            parse_ints::<E>(buf@.unread(), len as nat).consumed,
        );
    }
    match read_ints::<E>(buf, len) {
        Ok(a) => Ok(NBT::IntArray(a)),
        Err(e) => Err(e),
    }
}

/// Reads an array of long integers: its length, then as many long integers.
fn decode_long_array<E: Encoding>(buf: &mut Buffer) -> (r: Result<NBT, CodecError>)
    requires
        old(buf).wf(),
    ensures
        final(buf).wf(),
        final(buf)@ == old(buf)@.advance(
            parse_value::<E>(Tag::LongArray, old(buf)@.unread(), 0).consumed,
        ),
        result_view(r) == parse_value::<E>(Tag::LongArray, old(buf)@.unread(), 0).value,
{
    let ghost start = buf@;
    let ghost n = parse_len::<E>(start.unread());
    let len = match read_len::<E>(buf) {
        Ok(len) => len,
        Err(e) => {
            return Err(e);
        },
    };
    proof {
        lemma_advance_unread(start, n.consumed);
        lemma_advance_advance(
            start,
            n.consumed,
            parse_longs::<E>(buf@.unread(), len as nat).consumed,
        );
    }
    match read_longs::<E>(buf, len) {
        Ok(a) => Ok(NBT::LongArray(a)),
        Err(e) => Err(e),
    }
}

/// Reads a list: the tag of its elements, their number, and as many
/// payloads of that kind.
fn decode_list<E: Encoding>(buf: &mut Buffer, depth: usize) -> (r: Result<NBT, CodecError>)
    requires
        old(buf).wf(),
        depth > 0,
    ensures
        final(buf).wf(),
        final(buf)@ == old(buf)@.advance(
            parse_value::<E>(Tag::List, old(buf)@.unread(), depth as nat).consumed,
        ),
        result_view(r) == parse_value::<E>(Tag::List, old(buf)@.unread(), depth as nat).value,
    decreases depth, 0nat,
{
    let ghost start = buf@;
    let ghost input = start.unread();
    let element = match deserialize_tag(buf) {
        Ok(tag) => tag,
        Err(e) => {
            return Err(e);
        },
    };
    let ghost n = parse_len::<E>(input.subrange(1, input.len() as int));
    proof {
        lemma_advance_unread(start, 1);
    }
    let count = match read_len::<E>(buf) {
        Ok(count) => count,
        Err(e) => {
            proof {
                lemma_advance_advance(start, 1, n.consumed);
            }
            return Err(e);
        },
    };
    proof {
        lemma_advance_advance(start, 1, n.consumed);
        lemma_advance_unread(start, 1 + n.consumed);
    }
    let ghost head = buf@;
    let ghost whole = parse_items::<E>(element, head.unread(), count as nat, (depth - 1) as nat);
    let ghost expected = parse_value::<E>(Tag::List, input, depth as nat);
    proof {
        assert(expected.consumed == 1 + n.consumed + whole.consumed);
        assert(expected.value == match whole.value {
            Ok(items) => Ok::<NbtView, CodecError>(NbtView::List(element, items)),
            Err(e) => Err::<NbtView, CodecError>(e),
        });
    }
    let mut list = List::new(element);
    let mut i: usize = 0;
    let ghost mut taken: nat = 0;
    proof {
        assert(head.advance(0) == head);
        match whole.value {
            Ok(v) => {
                assert(Seq::<NbtView>::empty() + v =~= v);
            },
            Err(_) => {},
        }
    }
    while i < count
        invariant
            i <= count,
            depth > 0,
            head.wf(),
            buf.wf(),
            head == start.advance(1 + n.consumed),
            start == old(buf)@,
            taken <= head.remaining(),
            buf@ == head.advance(taken),
            list.element_tag() == element,
            expected == parse_value::<E>(Tag::List, old(buf)@.unread(), depth as nat),
            expected.consumed == 1 + n.consumed + whole.consumed,
            expected.value == match whole.value {
                Ok(items) => Ok::<NbtView, CodecError>(NbtView::List(element, items)),
                Err(e) => Err::<NbtView, CodecError>(e),
            },
            whole == parse_items::<E>(element, head.unread(), count as nat, (depth - 1) as nat),
            whole == seq_resume(
                list.items_view(),
                taken,
                parse_items::<E>(element, buf@.unread(), (count - i) as nat, (depth - 1) as nat),
            ),
        decreases count - i,
    {
        let ghost here = buf@;
        let ghost s = here.unread();
        let ghost first = parse_value::<E>(element, s, (depth - 1) as nat);
        let ghost acc = list.items_view();
        match decode_within::<E>(element, buf, depth - 1) {
            Ok(item) => {
                let ghost x = item.deep_view();
                proof {
                    lemma_parse_value_sound::<E>(element, s, (depth - 1) as nat);
                }
                list.push(item);
                proof {
                    lemma_advance_unread(here, first.consumed);
                    lemma_advance_advance(head, taken, first.consumed);
                    let more = parse_items::<E>(
                        element,
                        s.subrange(first.consumed as int, s.len() as int),
                        (count - i - 1) as nat,
                        (depth - 1) as nat,
                    );
                    match more.value {
                        Ok(m) => {
                            assert(acc + (seq![x] + m) =~= acc.push(x) + m);
                        },
                        Err(_) => {},
                    }
                    taken = taken + first.consumed;
                }
            },
            Err(e) => {
                proof {
                    lemma_advance_advance(head, taken, first.consumed);
                    lemma_advance_advance(start, 1 + n.consumed, taken + first.consumed);
                }
                return Err(e);
            },
        }
        i = i + 1;
    }
    proof {
        assert(list.items_view() + Seq::<NbtView>::empty() =~= list.items_view());
        lemma_advance_advance(start, 1 + n.consumed, taken);
    }
    Ok(NBT::List(list))
}

/// Reads a compound: entries of tag, name and payload, up to the end marker.
fn decode_compound<E: Encoding>(buf: &mut Buffer, depth: usize) -> (r: Result<NBT, CodecError>)
    requires
        old(buf).wf(),
        depth > 0,
    ensures
        final(buf).wf(),
        final(buf)@ == old(buf)@.advance(
            parse_value::<E>(Tag::Compound, old(buf)@.unread(), depth as nat).consumed,
        ),
        result_view(r) == parse_value::<E>(Tag::Compound, old(buf)@.unread(), depth as nat).value,
    decreases depth, 0nat,
{
    let ghost start = buf@;
    let ghost whole = parse_entries::<E>(start.unread(), (depth - 1) as nat);
    let mut compound = Compound::new();
    let ghost mut raw: Seq<(Seq<char>, NbtView)> = Seq::empty();
    let ghost mut taken: nat = 0;
    proof {
        assert(start.advance(0) == start);
        match whole.value {
            Ok(v) => {
                assert(Seq::<(Seq<char>, NbtView)>::empty() + v =~= v);
            },
            Err(_) => {},
        }
    }
    loop
        invariant
            depth > 0,
            start == old(buf)@,
            start.wf(),
            buf.wf(),
            taken <= start.remaining(),
            buf@ == start.advance(taken),
            compound.entries_view() == put_all(raw),
            whole == parse_entries::<E>(start.unread(), (depth - 1) as nat),
            whole == seq_resume(raw, taken, parse_entries::<E>(buf@.unread(), (depth - 1) as nat)),
        decreases buf@.remaining(),
    {
        let ghost here = buf@;
        let ghost s = here.unread();
        let tag = match deserialize_tag(buf) {
            Ok(tag) => tag,
            Err(e) => {
                proof {
                    lemma_advance_advance(start, taken, parse_tag(s).consumed);
                }
                return Err(e);
            },
        };
        proof {
            lemma_advance_unread(here, 1);
            lemma_advance_advance(start, taken, 1);
        }
        if tag == Tag::End {
            proof {
                assert(raw + Seq::<(Seq<char>, NbtView)>::empty() =~= raw);
            }
            return Ok(NBT::Compound(compound));
        }
        let ghost name_parse = E::parse_text(s.subrange(1, s.len() as int));
        let name = match E::read_string(buf) {
            Ok(name) => name,
            Err(e) => {
                proof {
                    lemma_advance_advance(here, 1, name_parse.consumed);
                    lemma_advance_advance(start, taken, 1 + name_parse.consumed);
                }
                return Err(e);
            },
        };
        proof {
            lemma_advance_advance(here, 1, name_parse.consumed);
            lemma_advance_unread(here, 1 + name_parse.consumed);
        }
        let ghost value_parse = parse_value::<E>(
            tag,
            s.subrange((1 + name_parse.consumed) as int, s.len() as int),
            (depth - 1) as nat,
        );
        let ghost used = 1 + name_parse.consumed + value_parse.consumed;
        let value = match decode_within::<E>(tag, buf, depth - 1) {
            Ok(value) => value,
            Err(e) => {
                proof {
                    lemma_advance_advance(here, 1 + name_parse.consumed, value_parse.consumed);
                    lemma_advance_advance(start, taken, used);
                }
                return Err(e);
            },
        };
        proof {
            lemma_advance_advance(here, 1 + name_parse.consumed, value_parse.consumed);
            lemma_advance_advance(start, taken, used);
            lemma_advance_unread(here, used);
        }
        let ghost entry = (name@, value.deep_view());
        compound.put(name.as_str(), value);
        proof {
            let grown = raw.push(entry);
            assert(grown.drop_last() =~= raw);
            let more = parse_entries::<E>(
                s.subrange(used as int, s.len() as int),
                (depth - 1) as nat,
            );
            match more.value {
                Ok(m) => {
                    assert(raw + (seq![entry] + m) =~= grown + m);
                },
                Err(_) => {},
            }
            raw = grown;
            taken = taken + used;
        }
    }
}

/// A named top-level tree with the profile `E` it travels in. On the wire
/// the tree stands under its tag and its name; by convention the name is
/// empty.
#[derive(Debug, PartialEq)]
pub struct RootNBT<E: Encoding> {
    name: String,
    val: NBT,
    encoding: PhantomData<E>,
}

impl<E: Encoding> DeepView for RootNBT<E> {
    type V = RootView;

    closed spec fn deep_view(&self) -> RootView {
        RootView { name: self.name@, value: self.val.deep_view() }
    }
}

impl<E: Encoding> RootNBT<E> {
    /// The tree `val` under the empty name.
    pub fn new(val: NBT) -> (r: Self)
        ensures
            r.deep_view() == (RootView { name: Seq::empty(), value: val.deep_view() }),
    {
        RootNBT { name: String::new(), val, encoding: PhantomData }
    }

    /// The tree `val` under the name `name`.
    pub fn named(name: String, val: NBT) -> (r: Self)
        ensures
            r.deep_view() == (RootView { name: name@, value: val.deep_view() }),
    {
        RootNBT { name, val, encoding: PhantomData }
    }

    /// The name of the tree.
    pub fn name(&self) -> (name: &str)
        ensures
            name@ == self.deep_view().name,
    {
        self.name.as_str()
    }

    /// The tree.
    pub fn get(self) -> (val: NBT)
        ensures
            val.deep_view() == self.deep_view().value,
    {
        self.val
    }
}

impl<E: Encoding> From<NBT> for RootNBT<E> {
    fn from(value: NBT) -> (r: Self)
        ensures
            r.deep_view() == (RootView { name: Seq::empty(), value: value.deep_view() }),
    {
        RootNBT { name: String::new(), val: value, encoding: PhantomData }
    }
}

impl<E: Encoding> FromSpecImpl<NBT> for RootNBT<E> {
    open spec fn obeys_from_spec() -> bool {
        false
    }

    closed spec fn from_spec(v: NBT) -> Self {
        arbitrary()
    }
}

impl<E: Encoding> From<RootNBT<E>> for NBT {
    fn from(value: RootNBT<E>) -> (r: NBT)
        ensures
            r.deep_view() == value.deep_view().value,
    {
        value.val
    }
}

impl<E: Encoding> FromSpecImpl<RootNBT<E>> for NBT {
    open spec fn obeys_from_spec() -> bool {
        true
    }

    closed spec fn from_spec(v: RootNBT<E>) -> NBT {
        v.val
    }
}

impl<E: Encoding> AsRef<NBT> for RootNBT<E> {
    fn as_ref(&self) -> (r: &NBT)
        ensures
            r.deep_view() == self.deep_view().value,
    {
        &self.val
    }
}

impl<E: Encoding> std::ops::Deref for RootNBT<E> {
    type Target = NBT;

    fn deref(&self) -> (r: &NBT)
        ensures
            r.deep_view() == self.deep_view().value,
    {
        &self.val
    }
}

impl<E: Encoding> Binary for RootNBT<E> {
    open spec fn wire(r: RootView) -> Seq<u8> {
        root_wire::<E>(r)
    }

    open spec fn parse(s: Seq<u8>) -> Parsed<RootView> {
        parse_root::<E>(s, MAX_DEPTH as nat)
    }

    open spec fn encodable(r: RootView) -> bool {
        carried::<E>(r.value, MAX_DEPTH as nat) && E::text_fits(r.name)
    }

    open spec fn self_delimiting() -> bool {
        true
    }

    fn serialize(&self, buf: &mut Buffer) {
        let ghost start = buf@;
        let ghost v = self.val.deep_view();
        serialize_tag(self.val.tag(), buf);
        E::write_string(self.name.as_str(), buf);
        encode::<E>(&self.val, buf);
        proof {
            let tag_byte = seq![v.tag().byte()];
            let name = E::text_wire(self.name@);
            lemma_write_write(start, tag_byte, name);
            lemma_write_write(start, tag_byte + name, value_wire::<E>(v));
        }
    }

    fn deserialize(buf: &mut Buffer) -> (r: Result<Self, CodecError>) {
        let ghost start = buf@;
        let ghost s = start.unread();
        let tag = match deserialize_tag(buf) {
            Ok(tag) => tag,
            Err(e) => {
                return Err(e);
            },
        };
        let ghost name_parse = E::parse_text(s.subrange(1, s.len() as int));
        proof {
            lemma_advance_unread(start, 1);
            lemma_advance_advance(start, 1, name_parse.consumed);
        }
        let name = match E::read_string(buf) {
            Ok(name) => name,
            Err(e) => {
                return Err(e);
            },
        };
        proof {
            lemma_advance_unread(start, 1 + name_parse.consumed);
            lemma_advance_advance(
                start,
                1 + name_parse.consumed,
                parse_value::<E>(tag, buf@.unread(), MAX_DEPTH as nat).consumed,
            );
        }
        match decode::<E>(tag, buf) {
            Ok(val) => Ok(RootNBT { name, val, encoding: PhantomData }),
            Err(e) => Err(e),
        }
    }

    proof fn lemma_parse_bounds(s: Seq<u8>) {
        lemma_parse_root_bounds::<E>(s, MAX_DEPTH as nat);
    }

    proof fn lemma_round_trip(r: RootView, rest: Seq<u8>) {
        lemma_root_round_trip::<E>(r, rest, MAX_DEPTH as nat);
    }
}

} // verus!
