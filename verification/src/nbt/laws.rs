//! What holds of the tree format: reading stays within the input, and a
//! well-formed tree is read back from its bytes.

use vstd::prelude::*;
use crate::codec::Binary;
use crate::fixed::{lemma_pow256_values, lemma_signed_round_trip};
use crate::impls::numeric::{F32, F64, I16, I8};
use crate::impls::sequence::seq_resume;
use crate::nbt::encoding::Encoding;
use crate::nbt::format::{
    RootView, bytes_wire, entries_wire, ints_wire, items_wire, longs_wire, parse_entries,
    parse_ints, parse_items, parse_len, parse_longs, parse_root, parse_tag, parse_value,
    root_wire, signed_bytes, value_wire,
};
use crate::nbt::tag::Tag;
use crate::nbt::tree::{NbtView, names_distinct, put_all, put_entry};
use crate::order::LE;
use crate::parsed::Parsed;

verus! {

/// The sizes inside the tree are ones that the profile `E` can announce:
/// every array and list has at most `i32::MAX` elements, and every string
/// and name is one whose length the profile's strings can carry.
pub open spec fn fits<E: Encoding>(v: NbtView) -> bool
    decreases v,
{
    match v {
        NbtView::ByteArray(a) => a.len() <= i32::MAX,
        NbtView::String(s) => E::text_fits(s),
        NbtView::List(_, items) => items.len() <= i32::MAX && forall|i: int|
            0 <= i < items.len() ==> fits::<E>(#[trigger] items[i]),
        NbtView::Compound(entries) => forall|i: int|
            0 <= i < entries.len() ==> E::text_fits((#[trigger] entries[i]).0) && fits::<E>(
                entries[i].1,
            ),
        NbtView::IntArray(a) => a.len() <= i32::MAX,
        NbtView::LongArray(a) => a.len() <= i32::MAX,
        _ => true,
    }
}

/// The trees that the profile `E` carries unchanged when lists and
/// compounds may nest `depth` deep.
pub open spec fn carried<E: Encoding>(v: NbtView, depth: nat) -> bool {
    v.wf() && fits::<E>(v) && v.within_depth(depth)
}

/// Reading integers never passes the end of the input.
pub proof fn lemma_parse_ints_bounds<E: Encoding>(s: Seq<u8>, n: nat)
    ensures
        parse_ints::<E>(s, n).consumed <= s.len(),
    decreases n,
{
    if n > 0 {
        let first = E::parse_int(s);
        E::lemma_parse_int_bounds(s);
        if first.value is Ok {
            lemma_parse_ints_bounds::<E>(
                s.subrange(first.consumed as int, s.len() as int),
                (n - 1) as nat,
            );
        }
    }
}

/// Reading long integers never passes the end of the input.
pub proof fn lemma_parse_longs_bounds<E: Encoding>(s: Seq<u8>, n: nat)
    ensures
        parse_longs::<E>(s, n).consumed <= s.len(),
    decreases n,
{
    if n > 0 {
        let first = E::parse_long(s);
        E::lemma_parse_long_bounds(s);
        if first.value is Ok {
            lemma_parse_longs_bounds::<E>(
                s.subrange(first.consumed as int, s.len() as int),
                (n - 1) as nat,
            );
        }
    }
}

/// Reading a node never passes the end of the input.
pub proof fn lemma_parse_value_bounds<E: Encoding>(tag: Tag, s: Seq<u8>, depth: nat)
    ensures
        parse_value::<E>(tag, s, depth).consumed <= s.len(),
    decreases depth, 0nat, 0nat,
{
    E::lemma_parse_int_bounds(s);
    E::lemma_parse_long_bounds(s);
    E::lemma_parse_text_bounds(s);
    match tag {
        Tag::End => {},
        Tag::Byte => {},
        Tag::Short => {},
        Tag::Int => {},
        Tag::Long => {},
        Tag::Float => {},
        Tag::Double => {},
        Tag::ByteArray => {},
        Tag::String => {},
        Tag::List => {
            if depth > 0 && s.len() > 0 {
                let tail = s.subrange(1, s.len() as int);
                E::lemma_parse_int_bounds(tail);
                let n = parse_len::<E>(tail);
                let t = parse_tag(s);
                if t.value is Ok && n.value is Ok {
                    lemma_parse_items_bounds::<E>(
                        t.value->Ok_0,
                        s.subrange((1 + n.consumed) as int, s.len() as int),
                        n.value->Ok_0,
                        (depth - 1) as nat,
                    );
                }
            }
        },
        Tag::Compound => {
            if depth > 0 {
                lemma_parse_entries_bounds::<E>(s, (depth - 1) as nat);
            }
        },
        Tag::IntArray => {
            let n = parse_len::<E>(s);
            if n.value is Ok {
                lemma_parse_ints_bounds::<E>(
                    s.subrange(n.consumed as int, s.len() as int),
                    n.value->Ok_0,
                );
            }
        },
        Tag::LongArray => {
            let n = parse_len::<E>(s);
            if n.value is Ok {
                lemma_parse_longs_bounds::<E>(
                    s.subrange(n.consumed as int, s.len() as int),
                    n.value->Ok_0,
                );
            }
        },
    }
}

/// Reading the elements of a list never passes the end of the input.
pub proof fn lemma_parse_items_bounds<E: Encoding>(tag: Tag, s: Seq<u8>, n: nat, depth: nat)
    ensures
        parse_items::<E>(tag, s, n, depth).consumed <= s.len(),
    decreases depth, 1nat, n,
{
    if n > 0 {
        let first = parse_value::<E>(tag, s, depth);
        lemma_parse_value_bounds::<E>(tag, s, depth);
        if first.value is Ok {
            lemma_parse_items_bounds::<E>(
                tag,
                s.subrange(first.consumed as int, s.len() as int),
                (n - 1) as nat,
                depth,
            );
        }
    }
}

/// Reading the entries of a compound never passes the end of the input.
pub proof fn lemma_parse_entries_bounds<E: Encoding>(s: Seq<u8>, depth: nat)
    ensures
        parse_entries::<E>(s, depth).consumed <= s.len(),
    decreases depth, 1nat, s.len(),
{
    let t = parse_tag(s);
    if t.value is Ok && t.value->Ok_0 != Tag::End {
        let tag = t.value->Ok_0;
        let tail = s.subrange(1, s.len() as int);
        E::lemma_parse_text_bounds(tail);
        let name = E::parse_text(tail);
        if name.value is Ok {
            let body = s.subrange((1 + name.consumed) as int, s.len() as int);
            lemma_parse_value_bounds::<E>(tag, body, depth);
            let value = parse_value::<E>(tag, body, depth);
            let used = 1 + name.consumed + value.consumed;
            if value.value is Ok {
                lemma_parse_entries_bounds::<E>(s.subrange(used as int, s.len() as int), depth);
            }
        }
    }
}

/// Signed bytes come back from the bytes with their bits.
pub proof fn lemma_signed_bytes_round_trip(a: Seq<i8>)
    ensures
        signed_bytes(bytes_wire(a)) == a,
{
    lemma_pow256_values();
    assert forall|i: int| 0 <= i < a.len() implies signed_bytes(bytes_wire(a))[i] == a[i] by {
        lemma_signed_round_trip(a[i] as int, 1);
    }
    assert(signed_bytes(bytes_wire(a)) =~= a);
}

/// Integers are read back, in their number, from their bytes one after
/// another, whatever follows them.
pub proof fn lemma_ints_round_trip<E: Encoding>(a: Seq<i32>, rest: Seq<u8>)
    ensures
        parse_ints::<E>(ints_wire::<E>(a) + rest, a.len()) == Parsed::ok(
            a,
            ints_wire::<E>(a).len(),
        ),
    decreases a.len(),
{
    if a.len() == 0 {
        assert(parse_ints::<E>(ints_wire::<E>(a) + rest, a.len()).value->Ok_0 =~= a);
    } else {
        let tail = a.subrange(1, a.len() as int);
        let head_bytes = E::int_wire(a[0]);
        let tail_bytes = ints_wire::<E>(tail);
        let s = ints_wire::<E>(a) + rest;
        assert(s =~= head_bytes + (tail_bytes + rest));
        E::lemma_int_round_trip(a[0], tail_bytes + rest);
        assert(s.subrange(head_bytes.len() as int, s.len() as int) =~= tail_bytes + rest);
        lemma_ints_round_trip::<E>(tail, rest);
        assert(seq![a[0]] + tail =~= a);
    }
}

/// Long integers are read back, in their number, from their bytes one after
/// another, whatever follows them.
pub proof fn lemma_longs_round_trip<E: Encoding>(a: Seq<i64>, rest: Seq<u8>)
    ensures
        parse_longs::<E>(longs_wire::<E>(a) + rest, a.len()) == Parsed::ok(
            a,
            longs_wire::<E>(a).len(),
        ),
    decreases a.len(),
{
    if a.len() == 0 {
        assert(parse_longs::<E>(longs_wire::<E>(a) + rest, a.len()).value->Ok_0 =~= a);
    } else {
        let tail = a.subrange(1, a.len() as int);
        let head_bytes = E::long_wire(a[0]);
        let tail_bytes = longs_wire::<E>(tail);
        let s = longs_wire::<E>(a) + rest;
        assert(s =~= head_bytes + (tail_bytes + rest));
        E::lemma_long_round_trip(a[0], tail_bytes + rest);
        assert(s.subrange(head_bytes.len() as int, s.len() as int) =~= tail_bytes + rest);
        lemma_longs_round_trip::<E>(tail, rest);
        assert(seq![a[0]] + tail =~= a);
    }
}

/// A name that is not among the entries goes to their end.
pub proof fn lemma_put_entry_new(
    entries: Seq<(Seq<char>, NbtView)>,
    name: Seq<char>,
    value: NbtView,
)
    requires
        forall|i: int| 0 <= i < entries.len() ==> (#[trigger] entries[i]).0 != name,
    ensures
        put_entry(entries, name, value) == entries.push((name, value)),
    decreases entries.len(),
{
    if entries.len() > 0 {
        let tail = entries.subrange(1, entries.len() as int);
        assert forall|i: int| 0 <= i < tail.len() implies (#[trigger] tail[i]).0 != name by {
            assert(tail[i] == entries[i + 1]);
        }
        lemma_put_entry_new(tail, name, value);
        assert(seq![entries[0]] + tail.push((name, value)) =~= entries.push((name, value)));
    } else {
        assert(seq![(name, value)] =~= entries.push((name, value)));
    }
}

/// Entries with distinct names, put one after another into an empty
/// compound, are its entries, in their order.
pub proof fn lemma_put_all_distinct(entries: Seq<(Seq<char>, NbtView)>)
    requires
        names_distinct(entries),
    ensures
        put_all(entries) == entries,
    decreases entries.len(),
{
    if entries.len() > 0 {
        let front = entries.drop_last();
        let last = entries.last();
        assert(names_distinct(front)) by {
            assert forall|i: int, j: int|
                0 <= i < front.len() && 0 <= j < front.len() && i != j implies (
            #[trigger] front[i]).0 != (#[trigger] front[j]).0 by {
                assert(front[i] == entries[i]);
                assert(front[j] == entries[j]);
            }
        }
        lemma_put_all_distinct(front);
        assert forall|i: int| 0 <= i < front.len() implies (#[trigger] front[i]).0 != last.0 by {
            assert(front[i] == entries[i]);
            assert(last == entries[entries.len() - 1]);
        }
        lemma_put_entry_new(front, last.0, last.1);
        assert(front.push(last) =~= entries);
    } else {
        assert(put_all(entries) =~= entries);
    }
}

/// A well-formed tree whose sizes fit the profile is read back from its
/// payload, whatever follows it, when the reader follows lists and
/// compounds as deep as the tree nests them.
pub proof fn lemma_value_round_trip<E: Encoding>(v: NbtView, rest: Seq<u8>, depth: nat)
    requires
        carried::<E>(v, depth),
    ensures
        parse_value::<E>(v.tag(), value_wire::<E>(v) + rest, depth) == Parsed::ok(
            v,
            value_wire::<E>(v).len(),
        ),
    decreases v,
{
    let s = value_wire::<E>(v) + rest;
    match v {
        NbtView::Byte(x) => {
            I8::lemma_round_trip(x, rest);
        },
        NbtView::Short(x) => {
            I16::<LE>::lemma_round_trip(x, rest);
        },
        NbtView::Int(x) => {
            E::lemma_int_round_trip(x, rest);
        },
        NbtView::Long(x) => {
            E::lemma_long_round_trip(x, rest);
        },
        NbtView::Float(x) => {
            F32::<LE>::lemma_round_trip(x, rest);
        },
        NbtView::Double(x) => {
            F64::<LE>::lemma_round_trip(x, rest);
        },
        NbtView::ByteArray(a) => {
            let head = E::int_wire(a.len() as i32);
            let body = bytes_wire(a);
            assert(s =~= head + (body + rest));
            E::lemma_int_round_trip(a.len() as i32, body + rest);
            assert(s.subrange(head.len() as int, (head.len() + a.len()) as int) =~= body);
            lemma_signed_bytes_round_trip(a);
        },
        NbtView::String(x) => {
            E::lemma_text_round_trip(x, rest);
        },
        NbtView::List(tag, items) => {
            let count = E::int_wire(items.len() as i32);
            let body = items_wire::<E>(items);
            assert(s =~= seq![tag.byte()] + (count + (body + rest)));
            tag.lemma_byte_round_trip();
            assert(s.subrange(1, s.len() as int) =~= count + (body + rest));
            E::lemma_int_round_trip(items.len() as i32, body + rest);
            assert(s.subrange((1 + count.len()) as int, s.len() as int) =~= body + rest);
            lemma_items_round_trip::<E>(tag, items, rest, (depth - 1) as nat);
            assert(seq![tag.byte()] + count + body =~= seq![tag.byte()] + (count + body));
        },
        NbtView::Compound(entries) => {
            let body = entries_wire::<E>(entries);
            assert(s =~= body + seq![Tag::End.byte()] + rest);
            lemma_entries_round_trip::<E>(entries, rest, (depth - 1) as nat);
            lemma_put_all_distinct(entries);
        },
        NbtView::IntArray(a) => {
            let head = E::int_wire(a.len() as i32);
            let body = ints_wire::<E>(a);
            assert(s =~= head + (body + rest));
            E::lemma_int_round_trip(a.len() as i32, body + rest);
            assert(s.subrange(head.len() as int, s.len() as int) =~= body + rest);
            lemma_ints_round_trip::<E>(a, rest);
        },
        NbtView::LongArray(a) => {
            let head = E::int_wire(a.len() as i32);
            let body = longs_wire::<E>(a);
            assert(s =~= head + (body + rest));
            E::lemma_int_round_trip(a.len() as i32, body + rest);
            assert(s.subrange(head.len() as int, s.len() as int) =~= body + rest);
            lemma_longs_round_trip::<E>(a, rest);
        },
    }
}

/// The elements of a well-formed list are read back, in their number, from
/// their payloads one after another, whatever follows them.
pub proof fn lemma_items_round_trip<E: Encoding>(
    tag: Tag,
    items: Seq<NbtView>,
    rest: Seq<u8>,
    depth: nat,
)
    requires
        forall|i: int|
            0 <= i < items.len() ==> (#[trigger] items[i]).tag() == tag && carried::<E>(
                items[i],
                depth,
            ),
    ensures
        parse_items::<E>(tag, items_wire::<E>(items) + rest, items.len(), depth) == Parsed::ok(
            items,
            items_wire::<E>(items).len(),
        ),
    decreases items,
{
    if items.len() == 0 {
        assert(parse_items::<E>(tag, items_wire::<E>(items) + rest, items.len(), depth).value->Ok_0
            =~= items);
    } else {
        let tail = items.subrange(1, items.len() as int);
        let head_bytes = value_wire::<E>(items[0]);
        let tail_bytes = items_wire::<E>(tail);
        let s = items_wire::<E>(items) + rest;
        assert(s =~= head_bytes + (tail_bytes + rest));
        lemma_value_round_trip::<E>(items[0], tail_bytes + rest, depth);
        assert(s.subrange(head_bytes.len() as int, s.len() as int) =~= tail_bytes + rest);
        assert forall|i: int| 0 <= i < tail.len() implies (#[trigger] tail[i]).tag() == tag
            && carried::<E>(tail[i], depth) by {
            assert(tail[i] == items[i + 1]);
        }
        lemma_items_round_trip::<E>(tag, tail, rest, depth);
        assert(seq![items[0]] + tail =~= items);
    }
}

/// The bytes of one entry of a compound: its tag, its name and its payload.
pub open spec fn entry_wire<E: Encoding>(name: Seq<char>, value: NbtView) -> Seq<u8> {
    seq![value.tag().byte()] + E::text_wire(name) + value_wire::<E>(value)
}

/// Where the bytes of an entry are read back as the entry, reading the
/// entries of a compound takes that entry first and goes on behind it.
pub proof fn lemma_entry_first<E: Encoding>(
    name: Seq<char>,
    value: NbtView,
    behind: Seq<u8>,
    depth: nat,
)
    requires
        E::text_fits(name),
        parse_value::<E>(value.tag(), value_wire::<E>(value) + behind, depth) == Parsed::ok(
            value,
            value_wire::<E>(value).len(),
        ),
    ensures
        parse_entries::<E>(entry_wire::<E>(name, value) + behind, depth) == seq_resume(
            seq![(name, value)],
            entry_wire::<E>(name, value).len(),
            parse_entries::<E>(behind, depth),
        ),
{
    let name_bytes = E::text_wire(name);
    let value_bytes = value_wire::<E>(value);
    let s = entry_wire::<E>(name, value) + behind;
    assert(s =~= seq![value.tag().byte()] + (name_bytes + (value_bytes + behind)));
    assert(s[0] == value.tag().byte());
    value.tag().lemma_byte_round_trip();
    assert(parse_tag(s) == Parsed::ok(value.tag(), 1));
    assert(s.subrange(1, s.len() as int) =~= name_bytes + (value_bytes + behind));
    E::lemma_text_round_trip(name, value_bytes + behind);
    assert(s.subrange((1 + name_bytes.len()) as int, s.len() as int) =~= value_bytes + behind);
    let used = 1 + name_bytes.len() + value_bytes.len();
    assert(s.subrange(used as int, s.len() as int) =~= behind);
}

/// The entries of a well-formed compound are read back from their bytes and
/// the end marker, whatever follows it.
pub proof fn lemma_entries_round_trip<E: Encoding>(
    entries: Seq<(Seq<char>, NbtView)>,
    rest: Seq<u8>,
    depth: nat,
)
    requires
        forall|i: int|
            0 <= i < entries.len() ==> E::text_fits((#[trigger] entries[i]).0) && carried::<E>(
                entries[i].1,
                depth,
            ),
    ensures
        parse_entries::<E>(entries_wire::<E>(entries) + seq![Tag::End.byte()] + rest, depth)
            == Parsed::ok(entries, entries_wire::<E>(entries).len() + 1),
    decreases entries,
{
    let s = entries_wire::<E>(entries) + seq![Tag::End.byte()] + rest;
    if entries.len() == 0 {
        assert(s[0] == 0u8);
        assert(parse_entries::<E>(s, depth).value->Ok_0 =~= entries);
    } else {
        let name = entries[0].0;
        let value = entries[0].1;
        let tail = entries.subrange(1, entries.len() as int);
        let behind = entries_wire::<E>(tail) + seq![Tag::End.byte()] + rest;
        assert(entries_wire::<E>(entries) =~= entry_wire::<E>(name, value) + entries_wire::<E>(
            tail,
        ));
        assert(s =~= entry_wire::<E>(name, value) + behind);
        lemma_value_round_trip::<E>(value, behind, depth);
        lemma_entry_first::<E>(name, value, behind, depth);
        assert forall|i: int| 0 <= i < tail.len() implies E::text_fits((#[trigger] tail[i]).0)
            && carried::<E>(tail[i].1, depth) by {
            assert(tail[i] == entries[i + 1]);
        }
        lemma_entries_round_trip::<E>(tail, rest, depth);
        assert(seq![(name, value)] + tail =~= entries);
    }
}

/// A named top-level tree is read back from its bytes, whatever follows
/// them, if the tree is well formed, its sizes fit the profile, and the
/// profile can announce the length of its name.
pub proof fn lemma_root_round_trip<E: Encoding>(r: RootView, rest: Seq<u8>, depth: nat)
    requires
        carried::<E>(r.value, depth),
        E::text_fits(r.name),
    ensures
        parse_root::<E>(root_wire::<E>(r) + rest, depth) == Parsed::ok(r, root_wire::<E>(r).len()),
{
    let v = r.value;
    let name_bytes = E::text_wire(r.name);
    let body = value_wire::<E>(v);
    let s = root_wire::<E>(r) + rest;
    assert(s =~= seq![v.tag().byte()] + (name_bytes + (body + rest)));
    v.tag().lemma_byte_round_trip();
    assert(s.subrange(1, s.len() as int) =~= name_bytes + (body + rest));
    E::lemma_text_round_trip(r.name, body + rest);
    assert(s.subrange((1 + name_bytes.len()) as int, s.len() as int) =~= body + rest);
    lemma_value_round_trip::<E>(v, rest, depth);
    assert(seq![v.tag().byte()] + name_bytes + body =~= seq![v.tag().byte()] + (name_bytes + body));
}

/// Reading a top-level tree never passes the end of the input, and takes at
/// least one byte when it gives a tree.
pub proof fn lemma_parse_root_bounds<E: Encoding>(s: Seq<u8>, depth: nat)
    ensures
        parse_root::<E>(s, depth).consumed <= s.len(),
        parse_root::<E>(s, depth).value is Ok ==> parse_root::<E>(s, depth).consumed > 0,
{
    let t = parse_tag(s);
    if t.value is Ok {
        let tail = s.subrange(1, s.len() as int);
        E::lemma_parse_text_bounds(tail);
        let name = E::parse_text(tail);
        if name.value is Ok {
            lemma_parse_value_bounds::<E>(
                t.value->Ok_0,
                s.subrange((1 + name.consumed) as int, s.len() as int),
                depth,
            );
        }
    }
}

/// Where `k` is the first place at which `name` stands, putting `name`
/// replaces the entry at `k`.
pub proof fn lemma_put_entry_at(
    entries: Seq<(Seq<char>, NbtView)>,
    k: int,
    name: Seq<char>,
    value: NbtView,
)
    requires
        0 <= k < entries.len(),
        entries[k].0 == name,
        forall|i: int| 0 <= i < k ==> (#[trigger] entries[i]).0 != name,
    ensures
        put_entry(entries, name, value) == entries.update(k, (name, value)),
    decreases entries.len(),
{
    if k > 0 {
        let tail = entries.subrange(1, entries.len() as int);
        assert(tail[k - 1] == entries[k]);
        assert forall|i: int| 0 <= i < k - 1 implies (#[trigger] tail[i]).0 != name by {
            assert(tail[i] == entries[i + 1]);
        }
        lemma_put_entry_at(tail, k - 1, name, value);
        assert(seq![entries[0]] + tail.update(k - 1, (name, value)) =~= entries.update(
            k,
            (name, value),
        ));
    }
}

/// Every value among the entries is well formed and nests at most `depth`
/// deep.
pub open spec fn values_sound(entries: Seq<(Seq<char>, NbtView)>, depth: nat) -> bool {
    forall|i: int|
        0 <= i < entries.len() ==> (#[trigger] entries[i]).1.wf() && entries[i].1.within_depth(
            depth,
        )
}

/// Putting a sound value into entries with distinct names and sound values
/// leaves the names distinct and the values sound.
pub proof fn lemma_put_entry_sound(
    entries: Seq<(Seq<char>, NbtView)>,
    name: Seq<char>,
    value: NbtView,
    depth: nat,
)
    requires
        names_distinct(entries),
        values_sound(entries, depth),
        value.wf(),
        value.within_depth(depth),
    ensures
        names_distinct(put_entry(entries, name, value)),
        values_sound(put_entry(entries, name, value), depth),
{
    let r = put_entry(entries, name, value);
    if exists|k: int| 0 <= k < entries.len() && (#[trigger] entries[k]).0 == name {
        let k = choose|k: int| 0 <= k < entries.len() && (#[trigger] entries[k]).0 == name;
        assert forall|i: int| 0 <= i < k implies (#[trigger] entries[i]).0 != name by {
            assert(entries[i].0 != entries[k].0);
        }
        lemma_put_entry_at(entries, k, name, value);
        assert forall|i: int, j: int|
            0 <= i < r.len() && 0 <= j < r.len() && i != j implies (#[trigger] r[i]).0 != (
        #[trigger] r[j]).0 by {
            assert(r[i].0 == entries[i].0);
            assert(r[j].0 == entries[j].0);
        }
        assert forall|i: int| 0 <= i < r.len() implies (#[trigger] r[i]).1.wf()
            && r[i].1.within_depth(depth) by {
            if i != k {
                assert(r[i] == entries[i]);
            }
        }
    } else {
        lemma_put_entry_new(entries, name, value);
        assert forall|i: int, j: int|
            0 <= i < r.len() && 0 <= j < r.len() && i != j implies (#[trigger] r[i]).0 != (
        #[trigger] r[j]).0 by {
            if i < entries.len() {
                assert(r[i] == entries[i]);
            }
            if j < entries.len() {
                assert(r[j] == entries[j]);
            }
        }
        assert forall|i: int| 0 <= i < r.len() implies (#[trigger] r[i]).1.wf()
            && r[i].1.within_depth(depth) by {
            if i < entries.len() {
                assert(r[i] == entries[i]);
            }
        }
    }
}

/// Entries with sound values, put one after another into an empty compound,
/// give entries with distinct names and sound values.
pub proof fn lemma_put_all_sound(raw: Seq<(Seq<char>, NbtView)>, depth: nat)
    requires
        values_sound(raw, depth),
    ensures
        names_distinct(put_all(raw)),
        values_sound(put_all(raw), depth),
    decreases raw.len(),
{
    if raw.len() > 0 {
        let front = raw.drop_last();
        assert(values_sound(front, depth)) by {
            assert forall|i: int| 0 <= i < front.len() implies (#[trigger] front[i]).1.wf()
                && front[i].1.within_depth(depth) by {
                assert(front[i] == raw[i]);
            }
        }
        lemma_put_all_sound(front, depth);
        assert(raw.last() == raw[raw.len() - 1]);
        lemma_put_entry_sound(put_all(front), raw.last().0, raw.last().1, depth);
    }
}

/// A tree that is read is of the kind that was asked for, is well formed,
/// and nests no deeper than the reader follows.
pub proof fn lemma_parse_value_sound<E: Encoding>(tag: Tag, s: Seq<u8>, depth: nat)
    ensures
        parse_value::<E>(tag, s, depth).value matches Ok(v) ==> v.tag() == tag && v.wf()
            && v.within_depth(depth),
    decreases depth, 0nat, 0nat,
{
    match tag {
        Tag::End => {},
        Tag::Byte => {},
        Tag::Short => {},
        Tag::Int => {},
        Tag::Long => {},
        Tag::Float => {},
        Tag::Double => {},
        Tag::ByteArray => {},
        Tag::String => {},
        Tag::List => {
            if depth > 0 && s.len() > 0 {
                let t = parse_tag(s);
                let n = parse_len::<E>(s.subrange(1, s.len() as int));
                if t.value is Ok && n.value is Ok {
                    lemma_parse_items_sound::<E>(
                        t.value->Ok_0,
                        s.subrange((1 + n.consumed) as int, s.len() as int),
                        n.value->Ok_0,
                        (depth - 1) as nat,
                    );
                }
            }
        },
        Tag::Compound => {
            if depth > 0 {
                let raw = parse_entries::<E>(s, (depth - 1) as nat);
                lemma_parse_entries_sound::<E>(s, (depth - 1) as nat);
                if raw.value is Ok {
                    lemma_put_all_sound(raw.value->Ok_0, (depth - 1) as nat);
                }
            }
        },
        Tag::IntArray => {},
        Tag::LongArray => {},
    }
}

/// The elements that are read for a list are of the kind asked for, well
/// formed, no deeper than the reader follows, and as many as were asked for.
pub proof fn lemma_parse_items_sound<E: Encoding>(tag: Tag, s: Seq<u8>, n: nat, depth: nat)
    ensures
        parse_items::<E>(tag, s, n, depth).value matches Ok(items) ==> items.len() == n && forall|
            i: int,
        |
            0 <= i < items.len() ==> (#[trigger] items[i]).tag() == tag && items[i].wf()
                && items[i].within_depth(depth),
    decreases depth, 1nat, n,
{
    if n > 0 {
        let first = parse_value::<E>(tag, s, depth);
        lemma_parse_value_sound::<E>(tag, s, depth);
        if first.value is Ok {
            let rest = parse_items::<E>(
                tag,
                s.subrange(first.consumed as int, s.len() as int),
                (n - 1) as nat,
                depth,
            );
            lemma_parse_items_sound::<E>(
                tag,
                s.subrange(first.consumed as int, s.len() as int),
                (n - 1) as nat,
                depth,
            );
            if rest.value is Ok {
                let items = seq![first.value->Ok_0] + rest.value->Ok_0;
                assert forall|i: int| 0 <= i < items.len() implies (#[trigger] items[i]).tag()
                    == tag && items[i].wf() && items[i].within_depth(depth) by {
                    if i > 0 {
                        assert(items[i] == rest.value->Ok_0[i - 1]);
                    }
                }
            }
        }
    }
}

/// The values that are read for the entries of a compound are well formed
/// and no deeper than the reader follows.
pub proof fn lemma_parse_entries_sound<E: Encoding>(s: Seq<u8>, depth: nat)
    ensures
        parse_entries::<E>(s, depth).value matches Ok(raw) ==> values_sound(raw, depth),
    decreases depth, 1nat, s.len(),
{
    let t = parse_tag(s);
    if t.value is Ok && t.value->Ok_0 != Tag::End {
        let tag = t.value->Ok_0;
        let name = E::parse_text(s.subrange(1, s.len() as int));
        if name.value is Ok {
            let body = s.subrange((1 + name.consumed) as int, s.len() as int);
            let value = parse_value::<E>(tag, body, depth);
            lemma_parse_value_sound::<E>(tag, body, depth);
            let used = 1 + name.consumed + value.consumed;
            if value.value is Ok && used <= s.len() {
                let rest = parse_entries::<E>(s.subrange(used as int, s.len() as int), depth);
                lemma_parse_entries_sound::<E>(s.subrange(used as int, s.len() as int), depth);
                if rest.value is Ok {
                    let raw = seq![(name.value->Ok_0, value.value->Ok_0)] + rest.value->Ok_0;
                    assert forall|i: int| 0 <= i < raw.len() implies (#[trigger] raw[i]).1.wf()
                        && raw[i].1.within_depth(depth) by {
                        if i > 0 {
                            assert(raw[i] == rest.value->Ok_0[i - 1]);
                        }
                    }
                }
            }
        }
    }
}

} // verus!
