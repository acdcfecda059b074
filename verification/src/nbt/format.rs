//! The wire format of a tree, as functions on plain bytes.

use vstd::prelude::*;
use crate::codec::Binary;
use crate::error::CodecError;
use crate::fixed::{to_signed, to_unsigned};
use crate::impls::numeric::{F32, F64, I16, I8};
use crate::impls::sequence::seq_resume;
use crate::nbt::encoding::Encoding;
use crate::nbt::tag::Tag;
use crate::nbt::tree::{NbtView, put_all};
use crate::order::LE;
use crate::parsed::Parsed;

verus! {

/// The bytes with the same bits as the signed bytes `a`.
pub open spec fn bytes_wire(a: Seq<i8>) -> Seq<u8> {
    Seq::new(a.len(), |i: int| to_unsigned(a[i] as int, 1) as u8)
}

/// The signed bytes with the same bits as the bytes `s`.
pub open spec fn signed_bytes(s: Seq<u8>) -> Seq<i8> {
    Seq::new(s.len(), |i: int| to_signed(s[i] as nat, 1) as i8)
}

/// The bytes of the integers `a`, one after another.
pub open spec fn ints_wire<E: Encoding>(a: Seq<i32>) -> Seq<u8>
    decreases a.len(),
{
    if a.len() == 0 {
        Seq::empty()
    } else {
        E::int_wire(a[0]) + ints_wire::<E>(a.subrange(1, a.len() as int))
    }
}

/// The bytes of the long integers `a`, one after another.
pub open spec fn longs_wire<E: Encoding>(a: Seq<i64>) -> Seq<u8>
    decreases a.len(),
{
    if a.len() == 0 {
        Seq::empty()
    } else {
        E::long_wire(a[0]) + longs_wire::<E>(a.subrange(1, a.len() as int))
    }
}

/// Reading `n` integers one after another.
pub open spec fn parse_ints<E: Encoding>(s: Seq<u8>, n: nat) -> Parsed<Seq<i32>>
    decreases n,
{
    if n == 0 {
        Parsed::ok(Seq::empty(), 0)
    } else {
        let first = E::parse_int(s);
        match first.value {
            Err(e) => Parsed::err(e, first.consumed),
            Ok(x) => seq_resume(
                seq![x],
                first.consumed,
                parse_ints::<E>(s.subrange(first.consumed as int, s.len() as int), (n - 1) as nat),
            ),
        }
    }
}

/// Reading `n` long integers one after another.
pub open spec fn parse_longs<E: Encoding>(s: Seq<u8>, n: nat) -> Parsed<Seq<i64>>
    decreases n,
{
    if n == 0 {
        Parsed::ok(Seq::empty(), 0)
    } else {
        let first = E::parse_long(s);
        match first.value {
            Err(e) => Parsed::err(e, first.consumed),
            Ok(x) => seq_resume(
                seq![x],
                first.consumed,
                parse_longs::<E>(s.subrange(first.consumed as int, s.len() as int), (n - 1) as nat),
            ),
        }
    }
}

/// The payload of the node `v`: what follows its tag and its name.
///
/// Bytes, shorts, floats and doubles are fixed-width and little-endian in
/// every profile; integers, long integers, strings and all lengths are
/// written as the profile `E` says.
pub open spec fn value_wire<E: Encoding>(v: NbtView) -> Seq<u8>
    decreases v,
{
    match v {
        NbtView::Byte(x) => I8::wire(x),
        NbtView::Short(x) => I16::<LE>::wire(x),
        NbtView::Int(x) => E::int_wire(x),
        NbtView::Long(x) => E::long_wire(x),
        NbtView::Float(x) => F32::<LE>::wire(x),
        NbtView::Double(x) => F64::<LE>::wire(x),
        NbtView::ByteArray(a) => E::int_wire(a.len() as i32) + bytes_wire(a),
        NbtView::String(s) => E::text_wire(s),
        NbtView::List(tag, items) => seq![tag.byte()] + E::int_wire(items.len() as i32)
            + items_wire::<E>(items),
        NbtView::Compound(entries) => entries_wire::<E>(entries) + seq![Tag::End.byte()],
        NbtView::IntArray(a) => E::int_wire(a.len() as i32) + ints_wire::<E>(a),
        NbtView::LongArray(a) => E::int_wire(a.len() as i32) + longs_wire::<E>(a),
    }
}

/// The payloads of the nodes `items`, one after another.
pub open spec fn items_wire<E: Encoding>(items: Seq<NbtView>) -> Seq<u8>
    decreases items,
{
    if items.len() == 0 {
        Seq::empty()
    } else {
        value_wire::<E>(items[0]) + items_wire::<E>(items.subrange(1, items.len() as int))
    }
}

/// The entries of a compound, one after another: for each its tag, its name
/// and its payload.
pub open spec fn entries_wire<E: Encoding>(entries: Seq<(Seq<char>, NbtView)>) -> Seq<u8>
    decreases entries,
{
    if entries.len() == 0 {
        Seq::empty()
    } else {
        seq![entries[0].1.tag().byte()] + E::text_wire(entries[0].0) + value_wire::<E>(
            entries[0].1,
        ) + entries_wire::<E>(entries.subrange(1, entries.len() as int))
    }
}

/// A decoded value made into a node.
pub open spec fn node<A>(p: Parsed<A>, make: spec_fn(A) -> NbtView) -> Parsed<NbtView> {
    Parsed {
        value: match p.value {
            Ok(x) => Ok(make(x)),
            Err(e) => Err(e),
        },
        consumed: p.consumed,
    }
}

/// A decoded part that began `taken` bytes into the whole.
pub open spec fn after<A>(taken: nat, p: Parsed<A>) -> Parsed<A> {
    Parsed { value: p.value, consumed: taken + p.consumed }
}

/// Reading a tag byte.
pub open spec fn parse_tag(s: Seq<u8>) -> Parsed<Tag> {
    if s.len() == 0 {
        Parsed::err(CodecError::BoundsError, 0)
    } else {
        match Tag::of_byte(s[0]) {
            Some(t) => Parsed::ok(t, 1),
            None => Parsed::err(CodecError::InvalidTag, 1),
        }
    }
}

/// Reading a length: an integer of the profile, which must not be negative.
pub open spec fn parse_len<E: Encoding>(s: Seq<u8>) -> Parsed<nat> {
    let n = E::parse_int(s);
    match n.value {
        Err(e) => Parsed::err(e, n.consumed),
        Ok(len) => if len < 0 {
            Parsed::err(CodecError::BoundsError, n.consumed)
        } else {
            Parsed::ok(len as nat, n.consumed)
        },
    }
}

/// Reading the payload of a node of kind `tag`, nested at most `depth` deep.
///
/// The end marker is no kind of node, so a list of end markers can only be
/// empty. A list names the kind of its elements and their number once. A
/// compound runs up to the end marker that stands where the tag of a further
/// entry would; a name that comes again takes the place of its first entry.
/// Any refusal inside refuses the whole.
pub open spec fn parse_value<E: Encoding>(tag: Tag, s: Seq<u8>, depth: nat) -> Parsed<NbtView>
    decreases depth, 0nat, 0nat,
{
    match tag {
        Tag::End => Parsed::err(CodecError::InvalidTag, 0),
        Tag::Byte => node(I8::parse(s), |x: i8| NbtView::Byte(x)),
        Tag::Short => node(I16::<LE>::parse(s), |x: i16| NbtView::Short(x)),
        Tag::Int => node(E::parse_int(s), |x: i32| NbtView::Int(x)),
        Tag::Long => node(E::parse_long(s), |x: i64| NbtView::Long(x)),
        Tag::Float => node(F32::<LE>::parse(s), |x: u32| NbtView::Float(x)),
        Tag::Double => node(F64::<LE>::parse(s), |x: u64| NbtView::Double(x)),
        Tag::ByteArray => {
            let n = parse_len::<E>(s);
            match n.value {
                Err(e) => Parsed::err(e, n.consumed),
                Ok(len) => if n.consumed + len > s.len() {
                    Parsed::err(CodecError::BoundsError, n.consumed)
                } else {
                    Parsed::ok(
                        NbtView::ByteArray(
                            signed_bytes(s.subrange(n.consumed as int, (n.consumed + len) as int)),
                        ),
                        n.consumed + len,
                    )
                },
            }
        },
        Tag::String => node(E::parse_text(s), |x: Seq<char>| NbtView::String(x)),
        Tag::List => if depth == 0 {
            Parsed::err(CodecError::DepthExceeded, 0)
        } else {
            let t = parse_tag(s);
            match t.value {
                Err(e) => Parsed::err(e, t.consumed),
                Ok(element) => {
                    let n = parse_len::<E>(s.subrange(1, s.len() as int));
                    match n.value {
                        Err(e) => Parsed::err(e, 1 + n.consumed),
                        Ok(count) => after(
                            1 + n.consumed,
                            node(
                                parse_items::<E>(
                                    element,
                                    s.subrange((1 + n.consumed) as int, s.len() as int),
                                    count,
                                    (depth - 1) as nat,
                                ),
                                |items: Seq<NbtView>| NbtView::List(element, items),
                            ),
                        ),
                    }
                },
            }
        },
        Tag::Compound => if depth == 0 {
            Parsed::err(CodecError::DepthExceeded, 0)
        } else {
            node(
                parse_entries::<E>(s, (depth - 1) as nat),
                |raw: Seq<(Seq<char>, NbtView)>| NbtView::Compound(put_all(raw)),
            )
        },
        Tag::IntArray => {
            let n = parse_len::<E>(s);
            match n.value {
                Err(e) => Parsed::err(e, n.consumed),
                Ok(len) => after(
                    n.consumed,
                    node(
                        parse_ints::<E>(s.subrange(n.consumed as int, s.len() as int), len),
                        |a: Seq<i32>| NbtView::IntArray(a),
                    ),
                ),
            }
        },
        Tag::LongArray => {
            let n = parse_len::<E>(s);
            match n.value {
                Err(e) => Parsed::err(e, n.consumed),
                Ok(len) => after(
                    n.consumed,
                    node(
                        parse_longs::<E>(s.subrange(n.consumed as int, s.len() as int), len),
                        |a: Seq<i64>| NbtView::LongArray(a),
                    ),
                ),
            }
        },
    }
}

/// Reading the payloads of `n` nodes of kind `tag`, one after another.
pub open spec fn parse_items<E: Encoding>(tag: Tag, s: Seq<u8>, n: nat, depth: nat) -> Parsed<
    Seq<NbtView>,
>
    decreases depth, 1nat, n,
{
    if n == 0 {
        Parsed::ok(Seq::empty(), 0)
    } else {
        let first = parse_value::<E>(tag, s, depth);
        match first.value {
            Err(e) => Parsed::err(e, first.consumed),
            Ok(x) => seq_resume(
                seq![x],
                first.consumed,
                parse_items::<E>(
                    tag,
                    s.subrange(first.consumed as int, s.len() as int),
                    (n - 1) as nat,
                    depth,
                ),
            ),
        }
    }
}

/// Reading the entries of a compound up to its end marker, in the order in
/// which they stand.
pub open spec fn parse_entries<E: Encoding>(s: Seq<u8>, depth: nat) -> Parsed<
    Seq<(Seq<char>, NbtView)>,
>
    decreases depth, 1nat, s.len(),
{
    let t = parse_tag(s);
    match t.value {
        Err(e) => Parsed::err(e, t.consumed),
        Ok(tag) => if tag == Tag::End {
            Parsed::ok(Seq::empty(), 1)
        } else {
            let name = E::parse_text(s.subrange(1, s.len() as int));
            match name.value {
                Err(e) => Parsed::err(e, 1 + name.consumed),
                Ok(chars) => {
                    let value = parse_value::<E>(
                        tag,
                        s.subrange((1 + name.consumed) as int, s.len() as int),
                        depth,
                    );
                    let used = 1 + name.consumed + value.consumed;
                    match value.value {
                        Err(e) => Parsed::err(e, used),
                        Ok(v) => if used <= s.len() {
                            seq_resume(
                                seq![(chars, v)],
                                used,
                                parse_entries::<E>(s.subrange(used as int, s.len() as int), depth),
                            )
                        } else {
                            Parsed::err(CodecError::BoundsError, used)
                        },
                    }
                },
            }
        },
    }
}

/// The mathematical content of a named top-level tree.
pub struct RootView {
    /// The name of the tree; by convention it is empty.
    pub name: Seq<char>,
    /// The tree.
    pub value: NbtView,
}

/// A top-level tree on the wire: its tag, its name and its payload.
pub open spec fn root_wire<E: Encoding>(r: RootView) -> Seq<u8> {
    seq![r.value.tag().byte()] + E::text_wire(r.name) + value_wire::<E>(r.value)
}

/// Reading a top-level tree: its tag, its name, and the payload of a node of
/// that kind.
pub open spec fn parse_root<E: Encoding>(s: Seq<u8>, depth: nat) -> Parsed<RootView> {
    let t = parse_tag(s);
    match t.value {
        Err(e) => Parsed::err(e, t.consumed),
        Ok(tag) => {
            let name = E::parse_text(s.subrange(1, s.len() as int));
            match name.value {
                Err(e) => Parsed::err(e, 1 + name.consumed),
                Ok(chars) => {
                    let value = parse_value::<E>(
                        tag,
                        s.subrange((1 + name.consumed) as int, s.len() as int),
                        depth,
                    );
                    Parsed {
                        value: match value.value {
                            Ok(v) => Ok(RootView { name: chars, value: v }),
                            Err(e) => Err(e),
                        },
                        consumed: 1 + name.consumed + value.consumed,
                    }
                },
            }
        },
    }
}

} // verus!
