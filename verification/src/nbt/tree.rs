//! The tree model: a dynamically typed, named tree of twelve kinds of node.

use vstd::prelude::*;
use crate::nbt::tag::Tag;

verus! {

/// The mathematical content of a tree.
pub enum NbtView {
    Byte(i8),
    Short(i16),
    Int(i32),
    Long(i64),
    /// A single-precision number, as its IEEE 754 bit pattern.
    Float(u32),
    /// A double-precision number, as its IEEE 754 bit pattern.
    Double(u64),
    ByteArray(Seq<i8>),
    String(Seq<char>),
    /// An element tag and the elements.
    List(Tag, Seq<NbtView>),
    /// The entries, in insertion order.
    Compound(Seq<(Seq<char>, NbtView)>),
    IntArray(Seq<i32>),
    LongArray(Seq<i64>),
}

/// A tree node.
#[derive(Debug, PartialEq)]
pub enum NBT {
    Byte(i8),
    Short(i16),
    Int(i32),
    Long(i64),
    /// A single-precision number, held as its IEEE 754 bit pattern.
    Float(u32),
    /// A double-precision number, held as its IEEE 754 bit pattern.
    Double(u64),
    ByteArray(Vec<i8>),
    String(String),
    List(List),
    Compound(Compound),
    IntArray(Vec<i32>),
    LongArray(Vec<i64>),
}

/// A sequence of nodes of one kind.
#[derive(Debug, PartialEq)]
pub struct List {
    tag: Tag,
    items: Vec<NBT>,
}

/// A mapping from names to nodes that keeps the order of insertion.
#[derive(Debug, PartialEq)]
pub struct Compound {
    entries: Vec<(String, NBT)>,
}

impl NbtView {
    /// The kind of the node.
    pub open spec fn tag(self) -> Tag {
        match self {
            NbtView::Byte(_) => Tag::Byte,
            NbtView::Short(_) => Tag::Short,
            NbtView::Int(_) => Tag::Int,
            NbtView::Long(_) => Tag::Long,
            NbtView::Float(_) => Tag::Float,
            NbtView::Double(_) => Tag::Double,
            NbtView::ByteArray(_) => Tag::ByteArray,
            NbtView::String(_) => Tag::String,
            NbtView::List(_, _) => Tag::List,
            NbtView::Compound(_) => Tag::Compound,
            NbtView::IntArray(_) => Tag::IntArray,
            NbtView::LongArray(_) => Tag::LongArray,
        }
    }

    /// The tree is well formed: the elements of every list are of the list's
    /// kind, and no compound holds a name twice.
    pub open spec fn wf(self) -> bool
        decreases self,
    {
        match self {
            NbtView::List(tag, items) => forall|i: int|
                0 <= i < items.len() ==> (#[trigger] items[i]).tag() == tag && items[i].wf(),
            NbtView::Compound(entries) => names_distinct(entries) && forall|i: int|
                0 <= i < entries.len() ==> (#[trigger] entries[i]).1.wf(),
            _ => true,
        }
    }

    /// The tree nests lists and compounds at most `depth` deep.
    pub open spec fn within_depth(self, depth: nat) -> bool
        decreases self,
    {
        match self {
            NbtView::List(_, items) => depth > 0 && forall|i: int|
                0 <= i < items.len() ==> (#[trigger] items[i]).within_depth((depth - 1) as nat),
            NbtView::Compound(entries) => depth > 0 && forall|i: int|
                0 <= i < entries.len() ==> (#[trigger] entries[i]).1.within_depth(
                    (depth - 1) as nat,
                ),
            _ => true,
        }
    }
}

/// No name occurs twice among the entries.
pub open spec fn names_distinct(entries: Seq<(Seq<char>, NbtView)>) -> bool {
    forall|i: int, j: int|
        0 <= i < entries.len() && 0 <= j < entries.len() && i != j ==> (#[trigger] entries[i]).0
            != (#[trigger] entries[j]).0
}

/// The entries after `name` has been given `value`: a name already present
/// keeps its place and takes the new value, a new name goes to the end.
pub open spec fn put_entry(
    entries: Seq<(Seq<char>, NbtView)>,
    name: Seq<char>,
    value: NbtView,
) -> Seq<(Seq<char>, NbtView)>
    decreases entries.len(),
{
    if entries.len() == 0 {
        seq![(name, value)]
    } else if entries[0].0 == name {
        entries.update(0, (name, value))
    } else {
        seq![entries[0]] + put_entry(entries.subrange(1, entries.len() as int), name, value)
    }
}

/// The entries that come of putting `raw`, one after another, into an empty
/// compound.
pub open spec fn put_all(raw: Seq<(Seq<char>, NbtView)>) -> Seq<(Seq<char>, NbtView)>
    decreases raw.len(),
{
    if raw.len() == 0 {
        Seq::empty()
    } else {
        put_entry(put_all(raw.drop_last()), raw.last().0, raw.last().1)
    }
}

/// The content of a node.
pub open spec fn nbt_view(n: NBT) -> NbtView
    decreases n,
{
    match n {
        NBT::Byte(v) => NbtView::Byte(v),
        NBT::Short(v) => NbtView::Short(v),
        NBT::Int(v) => NbtView::Int(v),
        NBT::Long(v) => NbtView::Long(v),
        NBT::Float(v) => NbtView::Float(v),
        NBT::Double(v) => NbtView::Double(v),
        NBT::ByteArray(v) => NbtView::ByteArray(v@),
        NBT::String(v) => NbtView::String(v@),
        NBT::List(l) => NbtView::List(l.element_tag(), l.items_view()),
        NBT::Compound(c) => NbtView::Compound(c.entries_view()),
        NBT::IntArray(v) => NbtView::IntArray(v@),
        NBT::LongArray(v) => NbtView::LongArray(v@),
    }
}

impl DeepView for NBT {
    type V = NbtView;

    open spec fn deep_view(&self) -> NbtView {
        nbt_view(*self)
    }
}

impl NBT {
    /// The kind of the node.
    pub fn tag(&self) -> (t: Tag)
        ensures
            t == self.deep_view().tag(),
            t != Tag::End,
    {
        match self {
            NBT::Byte(_) => Tag::Byte,
            NBT::Short(_) => Tag::Short,
            NBT::Int(_) => Tag::Int,
            NBT::Long(_) => Tag::Long,
            NBT::Float(_) => Tag::Float,
            NBT::Double(_) => Tag::Double,
            NBT::ByteArray(_) => Tag::ByteArray,
            NBT::String(_) => Tag::String,
            NBT::List(_) => Tag::List,
            NBT::Compound(_) => Tag::Compound,
            NBT::IntArray(_) => Tag::IntArray,
            NBT::LongArray(_) => Tag::LongArray,
        }
    }
}

impl List {
    /// The kind that the elements are of.
    pub closed spec fn element_tag(&self) -> Tag {
        self.tag
    }

    /// The contents of the elements, in order.
    pub closed spec fn items_view(&self) -> Seq<NbtView>
        decreases self,
    {
        Seq::new(
            self.items@.len(),
            |i: int|
                if 0 <= i < self.items@.len() {
                    nbt_view(self.items@[i])
                } else {
                    NbtView::Byte(0)
                },
        )
    }

    #[verifier::type_invariant]
    spec fn homogeneous(&self) -> bool {
        forall|i: int|
            0 <= i < self.items@.len() ==> nbt_view(#[trigger] self.items@[i]).tag() == self.tag
    }

    /// An empty list for elements of kind `tag`.
    pub fn new(tag: Tag) -> (r: Self)
        ensures
            r.element_tag() == tag,
            r.items_view() == Seq::<NbtView>::empty(),
    {
        let r = List { tag, items: Vec::new() };
        assert(r.items_view() =~= Seq::<NbtView>::empty());
        r
    }

    /// An empty list for elements of kind `tag`, with room for `capacity` of
    /// them where that much room can be had.
    pub fn with_capacity(tag: Tag, capacity: usize) -> (r: Self)
        ensures
            r.element_tag() == tag,
            r.items_view() == Seq::<NbtView>::empty(),
    {
        let mut items: Vec<NBT> = Vec::new();
        let _ = items.try_reserve(capacity);
        let r = List { tag, items };
        assert(r.items_view() =~= Seq::<NbtView>::empty());
        r
    }

    /// The kind that the elements are of; every element is of it.
    pub fn tag(&self) -> (t: Tag)
        ensures
            t == self.element_tag(),
            forall|i: int|
                0 <= i < self.items_view().len() ==> (#[trigger] self.items_view()[i]).tag() == t,
    {
        proof {
            use_type_invariant(self);
        }
        self.tag
    }

    /// The number of elements.
    pub fn len(&self) -> (n: usize)
        ensures
            n == self.items_view().len(),
    {
        self.items.len()
    }

    /// The elements, in order.
    pub fn items(&self) -> (r: &Vec<NBT>)
        ensures
            r.deep_view() == self.items_view(),
    {
        assert(self.items.deep_view() =~= self.items_view());
        &self.items
    }

    /// Appends `item` if it is of the list's kind, and says whether it did.
    pub fn push(&mut self, item: NBT) -> (ok: bool)
        ensures
            ok == (item.deep_view().tag() == old(self).element_tag()),
            final(self).element_tag() == old(self).element_tag(),
            final(self).items_view() == if ok {
                old(self).items_view().push(item.deep_view())
            } else {
                old(self).items_view()
            },
    {
        proof {
            use_type_invariant(&*self);
        }
        if item.tag() != self.tag {
            return false;
        }
        let mut items: Vec<NBT> = Vec::new();
        std::mem::swap(&mut self.items, &mut items);
        items.push(item);
        self.items = items;
        assert(self.items_view() =~= old(self).items_view().push(item.deep_view()));
        true
    }
}

impl Compound {
    /// The names and the contents of the values, in insertion order.
    pub closed spec fn entries_view(&self) -> Seq<(Seq<char>, NbtView)>
        decreases self,
    {
        Seq::new(
            self.entries@.len(),
            |i: int|
                if 0 <= i < self.entries@.len() {
                    (self.entries@[i].0@, nbt_view(self.entries@[i].1))
                } else {
                    (Seq::empty(), NbtView::Byte(0))
                },
        )
    }

    #[verifier::type_invariant]
    spec fn distinct(&self) -> bool {
        forall|i: int, j: int|
            0 <= i < self.entries@.len() && 0 <= j < self.entries@.len() && i != j ==> (
            #[trigger] self.entries@[i]).0@ != (#[trigger] self.entries@[j]).0@
    }

    /// An empty compound.
    pub fn new() -> (r: Self)
        ensures
            r.entries_view() == Seq::<(Seq<char>, NbtView)>::empty(),
    {
        let r = Compound { entries: Vec::new() };
        assert(r.entries_view() =~= Seq::<(Seq<char>, NbtView)>::empty());
        r
    }

    /// The number of entries; no two of them share a name.
    pub fn len(&self) -> (n: usize)
        ensures
            n == self.entries_view().len(),
            names_distinct(self.entries_view()),
    {
        proof {
            use_type_invariant(self);
        }
        self.entries.len()
    }

    /// The entries, in insertion order; no two of them share a name.
    pub fn entries(&self) -> (r: &Vec<(String, NBT)>)
        ensures
            names_distinct(self.entries_view()),
            r@.len() == self.entries_view().len(),
            forall|i: int|
                0 <= i < r@.len() ==> (#[trigger] r@[i]).0@ == self.entries_view()[i].0
                    && r@[i].1.deep_view() == self.entries_view()[i].1,
    {
        proof {
            use_type_invariant(self);
        }
        &self.entries
    }

    /// The value under `name`, if there is one. No two entries share a name.
    pub fn get(&self, name: &str) -> (r: Option<&NBT>)
        ensures
            names_distinct(self.entries_view()),
            match r {
                Some(v) => exists|i: int|
                    0 <= i < self.entries_view().len() && (#[trigger] self.entries_view()[i]).0
                        == name@ && self.entries_view()[i].1 == v.deep_view(),
                None => forall|i: int|
                    0 <= i < self.entries_view().len() ==> (#[trigger] self.entries_view()[i]).0
                        != name@,
            },
    {
        proof {
            use_type_invariant(self);
        }
        let key = name.to_owned();
        let mut i: usize = 0;
        while i < self.entries.len()
            invariant
                i <= self.entries.len(),
                key@ == name@,
                names_distinct(self.entries_view()),
                forall|j: int| 0 <= j < i ==> (#[trigger] self.entries_view()[j]).0 != name@,
            decreases self.entries.len() - i,
        {
            if self.entries[i].0 == key {
                assert(self.entries_view()[i as int].0 == name@);
                return Some(&self.entries[i].1);
            }
            i = i + 1;
        }
        None
    }

    /// Gives `name` the value `value`. A name already present keeps its place
    /// and takes the new value; a new name goes to the end. The entries are
    /// looked through in order.
    pub fn put(&mut self, name: &str, value: NBT)
        ensures
            final(self).entries_view() == put_entry(
                old(self).entries_view(),
                name@,
                value.deep_view(),
            ),
    {
        proof {
            use_type_invariant(&*self);
        }
        let ghost before = self.entries_view();
        let key = name.to_owned();
        let mut entries: Vec<(String, NBT)> = Vec::new();
        std::mem::swap(&mut self.entries, &mut entries);
        let ghost all = entries@;
        let mut i: usize = 0;
        proof {
            assert(before.subrange(0, before.len() as int) =~= before);
            let whole = put_entry(before, name@, value.deep_view());
            assert(before.subrange(0, 0) + whole =~= whole);
        }
        while i < entries.len()
            invariant
                i <= entries.len(),
                key@ == name@,
                entries@ == all,
                before == old(self).entries_view(),
                all.len() == before.len(),
                forall|j: int|
                    0 <= j < all.len() ==> (#[trigger] before[j]) == (
                        all[j].0@,
                        nbt_view(all[j].1),
                    ),
                forall|j: int, k: int|
                    0 <= j < all.len() && 0 <= k < all.len() && j != k ==> (
                    #[trigger] all[j]).0@ != (#[trigger] all[k]).0@,
                forall|j: int| 0 <= j < i ==> (#[trigger] before[j]).0 != name@,
                put_entry(before, name@, value.deep_view()) == before.subrange(0, i as int)
                    + put_entry(
                    before.subrange(i as int, before.len() as int),
                    name@,
                    value.deep_view(),
                ),
            decreases entries.len() - i,
        {
            let ghost tail = before.subrange(i as int, before.len() as int);
            if entries[i].0 == key {
                assert(tail[0].0 == name@);
                entries.set(i, (key, value));
                self.entries = entries;
                assert(self.entries_view() =~= before.subrange(0, i as int) + tail.update(
                    0,
                    (name@, value.deep_view()),
                ));
                return ;
            }
            proof {
                assert(tail[0] == before[i as int]);
                assert(tail.subrange(1, tail.len() as int) =~= before.subrange(
                    i + 1,
                    before.len() as int,
                ));
                assert(before.subrange(0, i + 1) =~= before.subrange(0, i as int) + seq![
                    before[i as int],
                ]);
                assert(before.subrange(0, i as int) + (seq![tail[0]] + put_entry(
                    tail.subrange(1, tail.len() as int),
                    name@,
                    value.deep_view(),
                )) =~= before.subrange(0, i + 1) + put_entry(
                    before.subrange(i + 1, before.len() as int),
                    name@,
                    value.deep_view(),
                ));
            }
            i = i + 1;
        }
        entries.push((key, value));
        proof {
            assert forall|j: int, k: int|
                0 <= j < entries@.len() && 0 <= k < entries@.len() && j != k implies (
            #[trigger] entries@[j]).0@ != (#[trigger] entries@[k]).0@ by {
                if j < all.len() {
                    assert(before[j].0 == all[j].0@);
                }
                if k < all.len() {
                    assert(before[k].0 == all[k].0@);
                }
            }
        }
        self.entries = entries;
        assert(self.entries_view() =~= before.subrange(0, i as int) + seq![
            (name@, value.deep_view()),
        ]);
    }
}

} // verus!
