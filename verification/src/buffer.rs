//! A contiguous, capacity-bounded byte region with a read cursor and a write cursor.

use vstd::prelude::*;
use vstd::std_specs::convert::FromSpecImpl;
use crate::error::CodecError;

verus! {

/// The mathematical content of a [`Buffer`].
pub struct BufferView {
    /// Every byte of the region, written or not; its length is the capacity.
    pub bytes: Seq<u8>,
    /// How many leading bytes have been written.
    pub len: nat,
    /// The read cursor.
    pub offset: nat,
    /// Where the region's first byte lies within the allocation it was carved from.
    pub base: nat,
}

/// The smaller of two numbers.
pub open spec fn min_nat(a: nat, b: nat) -> nat {
    if a <= b {
        a
    } else {
        b
    }
}

impl BufferView {
    /// How many bytes the region holds, written or not.
    pub open spec fn capacity(self) -> nat {
        self.bytes.len()
    }

    /// The cursors are in order: `offset <= len <= capacity`.
    pub open spec fn wf(self) -> bool {
        self.offset <= self.len <= self.bytes.len()
    }

    /// The bytes written so far.
    pub open spec fn written(self) -> Seq<u8> {
        self.bytes.subrange(0, self.len as int)
    }

    /// The written bytes that the read cursor has not passed yet.
    pub open spec fn unread(self) -> Seq<u8> {
        self.bytes.subrange(self.offset as int, self.len as int)
    }

    /// How many written bytes are still to be read.
    pub open spec fn remaining(self) -> nat {
        (self.len - self.offset) as nat
    }

    /// How many bytes can still be written.
    pub open spec fn free(self) -> nat {
        (self.bytes.len() - self.len) as nat
    }

    /// The positions of the allocation that this region owns.
    pub open spec fn addresses(self) -> Set<nat> {
        Set::new(|p: nat| self.base <= p < self.base + self.bytes.len())
    }

    /// The region after `n` more bytes have been read.
    pub open spec fn advance(self, n: nat) -> BufferView {
        BufferView { offset: self.offset + n, ..self }
    }

    /// The region after as much of `src` as fits has been appended to the
    /// written bytes.
    pub open spec fn write(self, src: Seq<u8>) -> BufferView {
        let n = min_nat(src.len(), self.free());
        BufferView {
            bytes: self.bytes.subrange(0, self.len as int) + src.subrange(0, n as int)
                + self.bytes.subrange((self.len + n) as int, self.bytes.len() as int),
            len: self.len + n,
            ..self
        }
    }

    /// What stays with the region that is split at `k`.
    pub open spec fn split_left(self, k: nat) -> BufferView {
        BufferView {
            bytes: self.bytes.subrange(0, k as int),
            len: min_nat(self.len, k),
            offset: 0,
            base: self.base,
        }
    }

    /// What the region that is split at `k` hands over.
    pub open spec fn split_right(self, k: nat) -> BufferView {
        BufferView {
            bytes: self.bytes.subrange(k as int, self.bytes.len() as int),
            len: if self.len > k { (self.len - k) as nat } else { 0 },
            offset: 0,
            base: self.base + k,
        }
    }
}

/// Reading on from a moved cursor sees what was left.
pub proof fn lemma_advance_unread(v: BufferView, n: nat)
    requires
        v.wf(),
        n <= v.remaining(),
    ensures
        v.advance(n).wf(),
        v.advance(n).unread() == v.unread().subrange(n as int, v.unread().len() as int),
        v.advance(n).remaining() == v.remaining() - n,
{
    assert(v.advance(n).unread() =~= v.unread().subrange(n as int, v.unread().len() as int));
}

/// Moving the cursor twice is moving it once by the sum.
pub proof fn lemma_advance_advance(v: BufferView, n: nat, m: nat)
    ensures
        v.advance(n).advance(m) == v.advance(n + m),
{
}

/// Writing one run of bytes after another is writing their concatenation:
/// once the region is full, nothing more goes in.
pub proof fn lemma_write_write(v: BufferView, a: Seq<u8>, b: Seq<u8>)
    requires
        v.wf(),
    ensures
        v.write(a).wf(),
        v.write(a).write(b) == v.write(a + b),
{
    let one = v.write(a);
    let two = one.write(b);
    let both = v.write(a + b);
    assert(two.bytes =~= both.bytes);
}

/// Writing nothing changes nothing.
pub proof fn lemma_write_empty(v: BufferView)
    requires
        v.wf(),
    ensures
        v.write(Seq::<u8>::empty()) == v,
{
    assert(v.write(Seq::<u8>::empty()).bytes =~= v.bytes);
}

/// A write touches the unwritten tail only: what was written stays, the read
/// cursor and the capacity stay, and the new bytes are a prefix of `src`.
pub proof fn lemma_write_appends(v: BufferView, src: Seq<u8>)
    requires
        v.wf(),
    ensures
        v.write(src).wf(),
        v.write(src).capacity() == v.capacity(),
        v.write(src).offset == v.offset,
        v.write(src).base == v.base,
        v.write(src).written() == v.written() + src.subrange(
            0,
            min_nat(src.len(), v.free()) as int,
        ),
{
    let w = v.write(src);
    assert(w.written() =~= v.written() + src.subrange(0, min_nat(src.len(), v.free()) as int));
}

/// The two halves of a split own every position of the region that was
/// split, and no position twice; side by side their bytes are its bytes.
pub proof fn lemma_split_partitions(v: BufferView, k: nat)
    requires
        v.wf(),
        k <= v.capacity(),
    ensures
        v.split_left(k).wf(),
        v.split_right(k).wf(),
        v.split_left(k).addresses().disjoint(v.split_right(k).addresses()),
        v.split_left(k).addresses().union(v.split_right(k).addresses()) == v.addresses(),
        v.split_left(k).bytes + v.split_right(k).bytes == v.bytes,
        v.split_left(k).written() + v.split_right(k).written() == v.written(),
{
    let l = v.split_left(k);
    let r = v.split_right(k);
    assert(l.addresses().union(r.addresses()) =~= v.addresses());
    assert(l.bytes + r.bytes =~= v.bytes);
    assert(l.written() + r.written() =~= v.written());
}

/// What is written through one half of a split stays inside that half: no
/// position that the other half owns is among those the write can reach.
pub proof fn lemma_split_halves_independent(v: BufferView, k: nat, src: Seq<u8>)
    requires
        v.wf(),
        k <= v.capacity(),
    ensures
        v.split_left(k).write(src).addresses() == v.split_left(k).addresses(),
        v.split_right(k).write(src).addresses() == v.split_right(k).addresses(),
        v.split_left(k).write(src).addresses().disjoint(v.split_right(k).addresses()),
        v.split_right(k).write(src).addresses().disjoint(v.split_left(k).addresses()),
{
    let l = v.split_left(k);
    let r = v.split_right(k);
    assert(l.write(src).bytes.len() == l.bytes.len());
    assert(r.write(src).bytes.len() == r.bytes.len());
    assert(l.write(src).addresses() =~= l.addresses());
    assert(r.write(src).addresses() =~= r.addresses());
}

/// A fixed-capacity byte region. Bytes are appended at the write cursor
/// (`length`) and consumed at the read cursor (`offset`); the region never
/// grows by itself.
pub struct Buffer {
    data: Vec<u8>,
    len: usize,
    offset: usize,
    base: usize,
}

impl View for Buffer {
    type V = BufferView;

    closed spec fn view(&self) -> BufferView {
        BufferView {
            bytes: self.data@,
            len: self.len as nat,
            offset: self.offset as nat,
            base: self.base as nat,
        }
    }
}

impl Buffer {
    /// The region's invariant: the cursors are in order and its addresses are
    /// machine addresses.
    pub open spec fn wf(&self) -> bool {
        &&& self@.wf()
        &&& self@.base + self@.capacity() <= usize::MAX
    }

    /// A region of `cap` bytes with nothing written. No allocation holds
    /// more than `isize::MAX` bytes.
    pub fn new(cap: usize) -> (r: Self)
        requires
            cap <= isize::MAX,
        ensures
            r.wf(),
            r@.capacity() == cap,
            r@.len == 0,
            r@.offset == 0,
            r@.base == 0,
    {
        Buffer { data: vec![0u8; cap], len: 0, offset: 0, base: 0 }
    }

    /// A region of `cap` bytes, all written as zero. No allocation holds
    /// more than `isize::MAX` bytes.
    pub fn zeroed(cap: usize) -> (r: Self)
        requires
            cap <= isize::MAX,
        ensures
            r.wf(),
            r@.bytes == Seq::new(cap as nat, |i: int| 0u8),
            r@.len == cap,
            r@.offset == 0,
            r@.base == 0,
    {
        let data = vec![0u8; cap];
        assert(data@ =~= Seq::new(cap as nat, |i: int| 0u8));
        Buffer { data, len: cap, offset: 0, base: 0 }
    }

    /// The number of bytes that the region holds, written or not.
    pub fn capacity(&self) -> (r: usize)
        ensures
            r == self@.capacity(),
    {
        self.data.len()
    }

    /// The number of bytes written.
    pub fn length(&self) -> (r: usize)
        ensures
            r == self@.len,
    {
        self.len
    }

    /// The number of bytes written.
    pub fn len(&self) -> (r: usize)
        ensures
            r == self@.len,
    {
        self.len
    }

    /// The number of bytes written.
    pub fn size(&self) -> (r: usize)
        ensures
            r == self@.len,
    {
        self.len
    }

    /// The read cursor: how many written bytes have been read.
    pub fn offset(&self) -> (r: usize)
        ensures
            r == self@.offset,
    {
        self.offset
    }

    /// The number of written bytes still to be read.
    pub fn remaining(&self) -> (r: usize)
        requires
            self.wf(),
        ensures
            r == self@.remaining(),
    {
        self.len - self.offset
    }

    /// Whether any written byte is still to be read.
    pub fn has_remaining(&self) -> (r: bool)
        requires
            self.wf(),
        ensures
            r == (self@.remaining() > 0),
    {
        self.len - self.offset > 0
    }

    /// The number of bytes that can still be written.
    pub fn remaining_mut(&self) -> (r: usize)
        requires
            self.wf(),
        ensures
            r == self@.free(),
    {
        self.data.len() - self.len
    }

    /// Whether any byte can still be written.
    pub fn has_remaining_mut(&self) -> (r: bool)
        requires
            self.wf(),
        ensures
            r == (self@.free() > 0),
    {
        self.data.len() - self.len > 0
    }

    /// The written bytes.
    pub fn get_data(&self) -> (r: &[u8])
        requires
            self.wf(),
        ensures
            r@ == self@.written(),
    {
        vstd::slice::slice_subrange(self.data.as_slice(), 0, self.len)
    }

    /// Declares `size` bytes as written, without touching any byte.
    pub fn resize(&mut self, size: usize)
        requires
            old(self).wf(),
            old(self)@.offset <= size <= old(self)@.capacity(),
        ensures
            final(self).wf(),
            final(self)@ == (BufferView { len: size as nat, ..old(self)@ }),
    {
        self.len = size;
    }

    /// Moves the read cursor to `offset`.
    pub fn set_offset(&mut self, offset: usize)
        requires
            old(self).wf(),
            offset <= old(self)@.len,
        ensures
            final(self).wf(),
            final(self)@ == (BufferView { offset: offset as nat, ..old(self)@ }),
    {
        self.offset = offset;
    }

    /// Moves the read cursor `n` bytes on if that many are unread, and says
    /// whether it did.
    pub fn advance(&mut self, n: usize) -> (r: bool)
        requires
            old(self).wf(),
        ensures
            final(self).wf(),
            r == (n <= old(self)@.remaining()),
            r ==> final(self)@ == old(self)@.advance(n as nat),
            !r ==> final(self)@ == old(self)@,
    {
        if self.len - self.offset < n {
            return false;
        }
        self.offset = self.offset + n;
        true
    }

    /// Rewinds the read cursor and declares the whole capacity as written.
    pub fn reset(&mut self)
        requires
            old(self).wf(),
        ensures
            final(self).wf(),
            final(self)@ == (BufferView { len: old(self)@.capacity(), offset: 0, ..old(self)@ }),
    {
        self.offset = 0;
        self.len = self.data.len();
    }

    /// The next `n` unread bytes, with the read cursor moved past them if
    /// `advance` is set. Refused when fewer than `n` bytes are unread.
    pub fn get(&mut self, n: usize, advance: bool) -> (r: Result<&[u8], CodecError>)
        requires
            old(self).wf(),
        ensures
            final(self).wf(),
            r is Ok <==> n <= old(self)@.remaining(),
            r matches Err(e) ==> e == CodecError::BoundsError && final(self)@ == old(self)@,
            r matches Ok(s) ==> {
                &&& s@ == old(self)@.unread().subrange(0, n as int)
                &&& final(self)@ == if advance { old(self)@.advance(n as nat) } else { old(self)@ }
            },
    {
        if n > self.len - self.offset {
            return Err(CodecError::BoundsError);
        }
        let start = self.offset;
        if advance {
            self.offset = self.offset + n;
        }
        let s = vstd::slice::slice_subrange(self.data.as_slice(), start, start + n);
        assert(s@ =~= old(self)@.unread().subrange(0, n as int));
        Ok(s)
    }

    /// Takes the next unread byte, if there is one.
    pub fn read_byte(&mut self) -> (r: Option<u8>)
        requires
            old(self).wf(),
        ensures
            final(self).wf(),
            match r {
                Some(b) => old(self)@.remaining() > 0 && b == old(self)@.unread()[0] && final(self)@
                    == old(self)@.advance(1),
                None => old(self)@.remaining() == 0 && final(self)@ == old(self)@,
            },
    {
        if self.offset >= self.len {
            return None;
        }
        let b = self.data[self.offset];
        self.offset = self.offset + 1;
        Some(b)
    }

    /// Copies unread bytes into `dst`, as many as there are and `dst` takes,
    /// moves the read cursor past them and returns their number.
    pub fn read(&mut self, dst: &mut [u8]) -> (count: usize)
        requires
            old(self).wf(),
        ensures
            final(self).wf(),
            count == min_nat(old(dst)@.len(), old(self)@.remaining()),
            final(self)@ == old(self)@.advance(count as nat),
            final(dst)@ == old(self)@.unread().subrange(0, count as int) + old(dst)@.subrange(
                count as int,
                old(dst)@.len() as int,
            ),
    {
        let remaining = self.len - self.offset;
        let count = if dst.len() < remaining { dst.len() } else { remaining };
        let start = self.offset;
        let mut i: usize = 0;
        while i < count
            invariant
                i <= count,
                start + count <= self.len <= self.data.len(),
                count <= dst@.len(),
                dst@.len() == old(dst)@.len(),
                *self == *old(self),
                start == self.offset,
                forall|j: int| 0 <= j < i ==> dst@[j] == self.data@[start + j],
                forall|j: int| i <= j < dst@.len() ==> dst@[j] == old(dst)@[j],
            decreases count - i,
        {
            dst[i] = self.data[start + i];
            i = i + 1;
        }
        self.offset = start + count;
        assert(dst@ =~= old(self)@.unread().subrange(0, count as int) + old(dst)@.subrange(
            count as int,
            old(dst)@.len() as int,
        ));
        count
    }

    /// Appends bytes of `src` to the written bytes, as many as there are and
    /// the region has room for, and returns their number.
    pub fn write(&mut self, src: &[u8]) -> (count: usize)
        requires
            old(self).wf(),
        ensures
            final(self).wf(),
            count == min_nat(src@.len(), old(self)@.free()),
            final(self)@ == old(self)@.write(src@),
    {
        let free = self.data.len() - self.len;
        let count = if src.len() < free { src.len() } else { free };
        let start = self.len;
        let mut i: usize = 0;
        while i < count
            invariant
                i <= count,
                count <= src@.len(),
                start + count <= self.data.len(),
                self.data@.len() == old(self).data@.len(),
                self.len == old(self).len,
                self.offset == old(self).offset,
                self.base == old(self).base,
                start == self.len,
                forall|j: int| 0 <= j < start ==> self.data@[j] == old(self).data@[j],
                forall|j: int| 0 <= j < i ==> self.data@[start + j] == src@[j],
                forall|j: int|
                    start + i <= j < self.data@.len() ==> self.data@[j] == old(self).data@[j],
            decreases count - i,
        {
            self.data[start + i] = src[i];
            i = i + 1;
        }
        self.len = start + count;
        assert(self.data@ =~= old(self)@.write(src@).bytes);
        count
    }

    /// Splits the region at `index`: the region keeps the bytes before it, and
    /// the bytes from it on leave as a region of their own. Written bytes stay
    /// written on whichever side they fall; both read cursors start over.
    /// Refused when `index` is not inside the region.
    pub fn split_at(&mut self, index: usize) -> (r: Result<Buffer, CodecError>)
        requires
            old(self).wf(),
        ensures
            final(self).wf(),
            r is Ok <==> index < old(self)@.capacity(),
            r matches Err(e) ==> e == CodecError::BoundsError && final(self)@ == old(self)@,
            r matches Ok(tail) ==> {
                &&& tail.wf()
                &&& final(self)@ == old(self)@.split_left(index as nat)
                &&& tail@ == old(self)@.split_right(index as nat)
            },
    {
        if index >= self.data.len() {
            return Err(CodecError::BoundsError);
        }
        let tail_len = if self.len > index { self.len - index } else { 0 };
        let tail_data = self.data.split_off(index);
        if self.len > index {
            self.len = index;
        }
        self.offset = 0;
        Ok(Buffer { data: tail_data, len: tail_len, offset: 0, base: self.base + index })
    }
}

impl From<Vec<u8>> for Buffer {
    /// A region that holds exactly `value`, all of it written and none of it
    /// read.
    fn from(value: Vec<u8>) -> (r: Self)
        ensures
            r.wf(),
            r@.bytes == value@,
            r@.len == value@.len(),
            r@.offset == 0,
            r@.base == 0,
    {
        let len = value.len();
        Buffer { data: value, len, offset: 0, base: 0 }
    }
}

impl FromSpecImpl<Vec<u8>> for Buffer {
    open spec fn obeys_from_spec() -> bool {
        true
    }

    closed spec fn from_spec(v: Vec<u8>) -> Self {
        Buffer { data: v, len: v@.len() as usize, offset: 0, base: 0 }
    }
}

/// Bytes that fit into the region are read, once written, after those that
/// were unread before.
pub proof fn lemma_write_unread(v: BufferView, src: Seq<u8>)
    requires
        v.wf(),
        src.len() <= v.free(),
    ensures
        v.write(src).unread() == v.unread() + src,
{
    assert(v.write(src).unread() =~= v.unread() + src);
}

} // verus!
