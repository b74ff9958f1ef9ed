//! The ordered container: values of any size and alignment, owned by the
//! container, stored in its arena and read by position.

use crate::align::is_aligned;
use crate::blocks::DynBlocks;
use crate::iter::{DynSeqIter, DynSeqIterMut};
use crate::model::{
    lemma_addresses_are_unique, lemma_place, lemma_place_keeps, lemma_write, lemma_write_keeps,
    Arena, Slot, DEFAULT_BLOCK_SIZE,
};
use vstd::prelude::*;
use vstd::slice::slice_to_vec;

verus! {

/// One entry of the position list: where the value is stored, and the
/// metadata that tells what kind of value the bytes are.
struct Entry<M> {
    slot: Slot,
    meta: M,
}

/// An ordered sequence of values of differing kinds.
///
/// A value is a string of bytes with an alignment; `M` is the metadata that
/// goes with each value and is kept unchanged beside it, such as a tag that
/// names its kind. The bytes live in the container's arena and never move; the
/// order of the sequence is the order of the position list alone, so inserting
/// at a position shifts entries of the list and no bytes.
///
/// The container owns its values. They are given up all at once, by
/// [`DynSequence::drain`] or when the container is dropped; no value is
/// removed on its own. The arena's blocks are released when the container is
/// dropped.
pub struct DynSequence<M> {
    ptrs: Vec<Entry<M>>,
    blocks: DynBlocks,
}

impl<M> View for DynSequence<M> {
    type V = Seq<(Seq<u8>, M)>;

    /// The values in order, each with its metadata.
    closed spec fn view(&self) -> Seq<(Seq<u8>, M)> {
        Seq::new(
            self.ptrs@.len(),
            |i: int| (self.blocks@.read(self.ptrs@[i].slot), self.ptrs@[i].meta),
        )
    }
}

impl<M> DynSequence<M> {
    /// The state of the container's arena.
    pub closed spec fn arena(&self) -> Arena {
        self.blocks@
    }

    /// Where each value is stored, in the order of the sequence.
    pub closed spec fn slots(&self) -> Seq<Slot> {
        Seq::new(self.ptrs@.len(), |i: int| self.ptrs@[i].slot)
    }

    /// The invariant of the container: the arena is well formed, every value
    /// lies in storage that the arena has issued, and no two values share a
    /// byte.
    pub closed spec fn wf(&self) -> bool {
        &&& self.blocks@.wf()
        &&& forall|i: int| 0 <= i < self.ptrs@.len() ==> self.blocks@.holds(#[trigger] self.ptrs@[i].slot)
        &&& forall|i: int, j: int|
            0 <= i < j < self.ptrs@.len() ==> (#[trigger] self.ptrs@[i].slot).disjoint(
                #[trigger] self.ptrs@[j].slot,
            )
    }

    /// What the invariant says: the arena is well formed, every value lies in
    /// storage that it has issued and reads as the arena holds it, and no two
    /// values share a byte.
    pub proof fn lemma_invariant(&self)
        requires
            self.wf(),
        ensures
            self.arena().wf(),
            self.slots().len() == self@.len(),
            forall|i: int| 0 <= i < self@.len() ==> self.arena().holds(#[trigger] self.slots()[i]),
            forall|i: int|
                0 <= i < self@.len() ==> (#[trigger] self@[i]).0 == self.arena().read(
                    self.slots()[i],
                ),
            forall|i: int, j: int|
                0 <= i < j < self@.len() ==> (#[trigger] self.slots()[i]).disjoint(
                    #[trigger] self.slots()[j],
                ),
    {
    }

    /// No two values have an address in common: the byte `a` of the value at
    /// position `i` and the byte `b` of the value at another position `j` lie
    /// at different addresses.
    pub proof fn lemma_values_never_alias(&self, i: int, j: int, a: nat, b: nat)
        requires
            self.wf(),
            0 <= i < self@.len(),
            0 <= j < self@.len(),
            i != j,
            a < self.slots()[i].len,
            b < self.slots()[j].len,
        ensures
            self.arena().address(self.slots()[i]) + a != self.arena().address(self.slots()[j]) + b,
    {
        lemma_addresses_are_unique(self.blocks@, self.ptrs@[i].slot, self.ptrs@[j].slot, a, b);
    }

    /// Entering a value at `index` puts it at that position, leaves the values
    /// before it where they were and moves each value from `index` on one
    /// position up. Entering it after the last value is entering it at the
    /// length.
    pub proof fn lemma_entry_keeps_order(values: Seq<(Seq<u8>, M)>, index: int, value: (Seq<u8>, M))
        requires
            0 <= index <= values.len(),
        ensures
            values.insert(index, value).len() == values.len() + 1,
            values.insert(index, value)[index] == value,
            forall|i: int| 0 <= i < index ==> values.insert(index, value)[i] == values[i],
            forall|i: int|
                index < i <= values.len() ==> values.insert(index, value)[i] == values[i - 1],
            values.push(value) == values.insert(values.len() as int, value),
    {
    }

    /// An empty container whose arena has the default nominal block size.
    pub fn new() -> (seq: Self)
        ensures
            seq.wf(),
            seq@ == Seq::<(Seq<u8>, M)>::empty(),
            seq.arena() == Arena::empty(DEFAULT_BLOCK_SIZE as nat),
    {
        Self::with_blocksize(DEFAULT_BLOCK_SIZE)
    }

    /// An empty container whose arena has the nominal block size `block_size`.
    pub fn with_blocksize(block_size: usize) -> (seq: Self)
        ensures
            seq.wf(),
            seq@ == Seq::<(Seq<u8>, M)>::empty(),
            seq.arena() == Arena::empty(block_size as nat),
    {
        let seq = Self { ptrs: Vec::new(), blocks: DynBlocks::with_blocksize(block_size) };
        seq
    }

    /// The number of values.
    pub fn len(&self) -> (n: usize)
        ensures
            n == self@.len(),
    {
        self.ptrs.len()
    }

    /// Whether the container holds no value.
    pub fn is_empty(&self) -> (b: bool)
        ensures
            b == (self@.len() == 0),
    {
        self.ptrs.len() == 0
    }

    /// Whether a value of `size` bytes at `align` can be placed.
    pub fn can_place(&self, size: usize, align: usize) -> (ok: bool)
        requires
            self.wf(),
        ensures
            ok == self.arena().can_place(size as nat, align as nat),
    {
        self.blocks.can_place(size, align)
    }

    /// The container `post` is the container `pre` after a value with the bytes
    /// `bytes` and the metadata `meta` was placed and entered at `index`.
    proof fn lemma_inserted(
        pre: Self,
        post: Self,
        index: int,
        bytes: Seq<u8>,
        meta: M,
        align: nat,
    )
        requires
            pre.wf(),
            0 <= index <= pre.ptrs@.len(),
            pre.blocks@.can_place(bytes.len(), align),
            post.ptrs@ == pre.ptrs@.insert(
                index,
                Entry { slot: pre.blocks@.placed_slot(bytes.len(), align), meta },
            ),
            post.blocks@ == pre.blocks@.place(bytes.len(), align).write(
                pre.blocks@.placed_slot(bytes.len(), align),
                bytes,
            ),
        ensures
            post.wf(),
            post@ == pre@.insert(index, (bytes, meta)),
            post.slots() == pre.slots().insert(
                index,
                pre.blocks@.placed_slot(bytes.len(), align),
            ),
            is_aligned(post.blocks@.address(pre.blocks@.placed_slot(bytes.len(), align)), align),
    {
        let size = bytes.len();
        let slot = pre.blocks@.placed_slot(size, align);
        let placed = pre.blocks@.place(size, align);
        lemma_place(pre.blocks@, size, align);
        lemma_write(placed, slot, bytes);
        assert forall|i: int| 0 <= i < post.ptrs@.len() implies {
            &&& post.blocks@.holds(#[trigger] post.ptrs@[i].slot)
            &&& post@[i] == pre@.insert(index, (bytes, meta))[i]
        } by {
            if i != index {
                let k = if i < index { i } else { i - 1 };
                let other = pre.ptrs@[k].slot;
                lemma_place_keeps(pre.blocks@, size, align, other);
                lemma_write_keeps(placed, slot, bytes, other);
            }
        }
        assert forall|i: int, j: int| 0 <= i < j < post.ptrs@.len() implies (
        #[trigger] post.ptrs@[i].slot).disjoint(#[trigger] post.ptrs@[j].slot) by {
            let ki = if i < index { i } else { i - 1 };
            let kj = if j < index { j } else { j - 1 };
            if i == index {
                lemma_place_keeps(pre.blocks@, size, align, pre.ptrs@[kj].slot);
            } else if j == index {
                lemma_place_keeps(pre.blocks@, size, align, pre.ptrs@[ki].slot);
            }
        }
    }

    /// The container `post` is the container `pre` with `bytes` written over
    /// the value at `index`.
    proof fn lemma_rewritten(pre: Self, post: Self, index: int, bytes: Seq<u8>)
        requires
            pre.wf(),
            0 <= index < pre.ptrs@.len(),
            bytes.len() == pre.ptrs@[index].slot.len,
            post.ptrs@ == pre.ptrs@,
            post.blocks@ == pre.blocks@.write(pre.ptrs@[index].slot, bytes),
        ensures
            post.wf(),
            post@ == pre@.update(index, (bytes, pre@[index].1)),
            post.slots() == pre.slots(),
    {
        let slot = pre.ptrs@[index].slot;
        lemma_write(pre.blocks@, slot, bytes);
        assert forall|i: int| 0 <= i < post.ptrs@.len() implies post@[i] == pre@.update(
            index,
            (bytes, pre@[index].1),
        )[i] by {
            if i != index {
                lemma_write_keeps(pre.blocks@, slot, bytes, pre.ptrs@[i].slot);
            }
        }
    }

    /// Places a copy of the value `src` with the alignment `align` and enters it
    /// at position `index`; the values from `index` on move one position up.
    /// The result refers to the placed value.
    ///
    /// The caller states the value's shape: `src` is all of its bytes, `align`
    /// its alignment and `meta` its metadata. `index` is at most the length,
    /// and the arena must be able to place the value.
    pub fn insert_raw(&mut self, index: usize, src: &[u8], align: usize, meta: M) -> (r: &mut [u8])
        requires
            old(self).wf(),
            index <= old(self)@.len(),
            old(self).arena().can_place(src@.len(), align as nat),
        ensures
            r@ == src@,
            final(r)@.len() == src@.len(),
            final(self).wf(),
            final(self)@ == old(self)@.insert(index as int, (final(r)@, meta)),
            final(self).slots() == old(self).slots().insert(
                index as int,
                old(self).arena().placed_slot(src@.len(), align as nat),
            ),
            final(self).arena() == old(self).arena().place(src@.len(), align as nat).write(
                old(self).arena().placed_slot(src@.len(), align as nat),
                final(r)@,
            ),
            is_aligned(
                final(self).arena().address(
                    old(self).arena().placed_slot(src@.len(), align as nat),
                ),
                align as nat,
            ),
    {
        let mut placed = self.blocks.push_raw(src, align);
        let slot = placed.as_mut_ptr();
        self.ptrs.insert(index, Entry { slot, meta });
        let r = placed.into_mut();
        proof {
            let pre = *old(self);
            let bytes = final(r)@;
            assert forall|post: Self|
                #![trigger post.wf()]
                #![trigger post.view()]
                #![trigger post.slots()]
                #![trigger post.blocks]
                post.ptrs@ == pre.ptrs@.insert(index as int, Entry { slot, meta }) && post.blocks@
                    == pre.blocks@.place(src@.len(), align as nat).write(slot, bytes) implies {
                &&& post.wf()
                &&& post@ == pre@.insert(index as int, (bytes, meta))
                &&& post.slots() == pre.slots().insert(index as int, slot)
                &&& is_aligned(post.blocks@.address(slot), align as nat)
            } by {
                Self::lemma_inserted(pre, post, index as int, bytes, meta, align as nat);
            }
        }
        r
    }

    /// Places a copy of the value `src` with the alignment `align` and enters it
    /// after the last value. The result refers to the placed value.
    ///
    /// The caller states the value's shape, as for
    /// [`DynSequence::insert_raw`]; the arena must be able to place the value.
    pub fn push_raw(&mut self, src: &[u8], align: usize, meta: M) -> (r: &mut [u8])
        requires
            old(self).wf(),
            old(self).arena().can_place(src@.len(), align as nat),
        ensures
            r@ == src@,
            final(r)@.len() == src@.len(),
            final(self).wf(),
            final(self)@ == old(self)@.push((final(r)@, meta)),
            final(self).slots() == old(self).slots().push(
                old(self).arena().placed_slot(src@.len(), align as nat),
            ),
            final(self).arena() == old(self).arena().place(src@.len(), align as nat).write(
                old(self).arena().placed_slot(src@.len(), align as nat),
                final(r)@,
            ),
            is_aligned(
                final(self).arena().address(
                    old(self).arena().placed_slot(src@.len(), align as nat),
                ),
                align as nat,
            ),
    {
        let mut placed = self.blocks.push_raw(src, align);
        let slot = placed.as_mut_ptr();
        self.ptrs.push(Entry { slot, meta });
        let r = placed.into_mut();
        proof {
            let pre = *old(self);
            let bytes = final(r)@;
            let index = pre.ptrs@.len() as int;
            assert forall|post: Self|
                #![trigger post.wf()]
                #![trigger post.view()]
                #![trigger post.slots()]
                #![trigger post.blocks]
                post.ptrs@ == pre.ptrs@.push(Entry { slot, meta }) && post.blocks@
                    == pre.blocks@.place(src@.len(), align as nat).write(slot, bytes) implies {
                &&& post.wf()
                &&& post@ == pre@.push((bytes, meta))
                &&& post.slots() == pre.slots().push(slot)
                &&& is_aligned(post.blocks@.address(slot), align as nat)
            } by {
                assert(pre.ptrs@.push(Entry { slot, meta }) =~= pre.ptrs@.insert(
                    index,
                    Entry { slot, meta },
                ));
                Self::lemma_inserted(pre, post, index, bytes, meta, align as nat);
            }
        }
        r
    }

    /// Enters a copy of `value` at position `index` as
    /// [`DynSequence::insert_raw`] does, after testing that the arena can place
    /// it. Where it cannot, the result is `None` and the container stays as it
    /// is. `index` is at most the length.
    pub fn insert(&mut self, index: usize, value: &[u8], align: usize, meta: M) -> (r: Option<
        &mut [u8],
    >)
        requires
            old(self).wf(),
            index <= old(self)@.len(),
        ensures
            r.is_some() == old(self).arena().can_place(value@.len(), align as nat),
            r.is_none() ==> *final(self) == *old(self),
            r.is_some() ==> {
                &&& r.unwrap()@ == value@
                &&& final(r.unwrap())@.len() == value@.len()
                &&& final(self)@ == old(self)@.insert(index as int, (final(r.unwrap())@, meta))
                &&& final(self).slots() == old(self).slots().insert(
                    index as int,
                    old(self).arena().placed_slot(value@.len(), align as nat),
                )
                &&& final(self).arena() == old(self).arena().place(
                    value@.len(),
                    align as nat,
                ).write(
                    old(self).arena().placed_slot(value@.len(), align as nat),
                    final(r.unwrap())@,
                )
                &&& is_aligned(
                    final(self).arena().address(
                        old(self).arena().placed_slot(value@.len(), align as nat),
                    ),
                    align as nat,
                )
            },
            final(self).wf(),
    {
        if self.blocks.can_place(value.len(), align) {
            Some(self.insert_raw(index, value, align, meta))
        } else {
            None
        }
    }

    /// Enters a copy of `value` after the last value as
    /// [`DynSequence::push_raw`] does, after testing that the arena can place
    /// it. Where it cannot, the result is `None` and the container stays as it
    /// is.
    pub fn push(&mut self, value: &[u8], align: usize, meta: M) -> (r: Option<&mut [u8]>)
        requires
            old(self).wf(),
        ensures
            r.is_some() == old(self).arena().can_place(value@.len(), align as nat),
            r.is_none() ==> *final(self) == *old(self),
            r.is_some() ==> {
                &&& r.unwrap()@ == value@
                &&& final(r.unwrap())@.len() == value@.len()
                &&& final(self)@ == old(self)@.push((final(r.unwrap())@, meta))
                &&& final(self).slots() == old(self).slots().push(
                    old(self).arena().placed_slot(value@.len(), align as nat),
                )
                &&& final(self).arena() == old(self).arena().place(
                    value@.len(),
                    align as nat,
                ).write(
                    old(self).arena().placed_slot(value@.len(), align as nat),
                    final(r.unwrap())@,
                )
                &&& is_aligned(
                    final(self).arena().address(
                        old(self).arena().placed_slot(value@.len(), align as nat),
                    ),
                    align as nat,
                )
            },
            final(self).wf(),
    {
        if self.blocks.can_place(value.len(), align) {
            Some(self.push_raw(value, align, meta))
        } else {
            None
        }
    }

    /// The value at position `index` with its metadata, or `None` where
    /// `index` is not below the length.
    pub fn get(&self, index: usize) -> (r: Option<(&[u8], &M)>)
        requires
            self.wf(),
        ensures
            r.is_some() == (index < self@.len()),
            r.is_some() ==> r.unwrap().0@ == self@[index as int].0 && *r.unwrap().1
                == self@[index as int].1,
    {
        if index < self.ptrs.len() {
            Some(self.index(index))
        } else {
            None
        }
    }

    /// The value at position `index`, for writing in place, with its metadata;
    /// or `None` where `index` is not below the length. What is written is the
    /// value at `index` afterwards; the other values, the order and the
    /// metadata stay as they are.
    pub fn get_mut(&mut self, index: usize) -> (r: Option<(&mut [u8], &M)>)
        requires
            old(self).wf(),
        ensures
            r.is_some() == (index < old(self)@.len()),
            r.is_none() ==> *final(self) == *old(self),
            r.is_some() ==> {
                &&& r.unwrap().0@ == old(self)@[index as int].0
                &&& *r.unwrap().1 == old(self)@[index as int].1
                &&& final(r.unwrap().0)@.len() == r.unwrap().0@.len()
                &&& final(self)@ == old(self)@.update(
                    index as int,
                    (final(r.unwrap().0)@, old(self)@[index as int].1),
                )
                &&& final(self).slots() == old(self).slots()
                &&& final(self).arena() == old(self).arena().write(
                    old(self).slots()[index as int],
                    final(r.unwrap().0)@,
                )
            },
            final(self).wf(),
    {
        if index < self.ptrs.len() {
            Some(self.index_mut(index))
        } else {
            None
        }
    }

    /// The value at position `index` with its metadata. `index` is below the
    /// length.
    pub fn index(&self, index: usize) -> (r: (&[u8], &M))
        requires
            self.wf(),
            index < self@.len(),
        ensures
            r.0@ == self@[index as int].0,
            *r.1 == self@[index as int].1,
    {
        let entry = &self.ptrs[index];
        (self.blocks.bytes(entry.slot), &entry.meta)
    }

    /// The value at position `index`, for writing in place, with its metadata.
    /// `index` is below the length.
    pub fn index_mut(&mut self, index: usize) -> (r: (&mut [u8], &M))
        requires
            old(self).wf(),
            index < old(self)@.len(),
        ensures
            r.0@ == old(self)@[index as int].0,
            *r.1 == old(self)@[index as int].1,
            final(r.0)@.len() == r.0@.len(),
            final(self).wf(),
            final(self)@ == old(self)@.update(
                index as int,
                (final(r.0)@, old(self)@[index as int].1),
            ),
            final(self).slots() == old(self).slots(),
            final(self).arena() == old(self).arena().write(
                old(self).slots()[index as int],
                final(r.0)@,
            ),
    {
        let entry = &self.ptrs[index];
        let bytes = self.blocks.bytes_mut(entry.slot);
        proof {
            let pre = *old(self);
            let written = final(bytes)@;
            assert forall|post: Self|
                #![trigger post.wf()]
                #![trigger post.view()]
                #![trigger post.slots()]
                #![trigger post.blocks]
                post.ptrs@ == pre.ptrs@ && post.blocks@ == pre.blocks@.write(
                    pre.ptrs@[index as int].slot,
                    written,
                ) implies {
                &&& post.wf()
                &&& post@ == pre@.update(index as int, (written, pre@[index as int].1))
                &&& post.slots() == pre.slots()
            } by {
                Self::lemma_rewritten(pre, post, index as int, written);
            }
        }
        (bytes, &entry.meta)
    }

    /// A cursor over all the values, in order.
    pub fn iter(&self) -> (it: DynSeqIter<'_, M>)
        requires
            self.wf(),
        ensures
            it.wf(),
            *it.seq == *self,
            it.front == 0,
            it.back == self@.len(),
            it.remaining() == self@,
    {
        let back = self.ptrs.len();
        let it = DynSeqIter { seq: self, front: 0, back };
        it
    }

    /// A cursor over all the values, in order, that lets each be written in
    /// place. The container ends as the cursor leaves it.
    pub fn iter_mut(&mut self) -> (it: DynSeqIterMut<'_, M>)
        requires
            old(self).wf(),
        ensures
            it.wf(),
            *it.seq == *old(self),
            *final(it.seq) == *final(self),
            it.front == 0,
            it.back == old(self)@.len(),
            it.remaining() == old(self)@,
    {
        let back = self.ptrs.len();
        let it = DynSeqIterMut { seq: self, front: 0, back };
        it
    }

    /// All the values in order, each with its metadata.
    pub fn as_slice(&self) -> (all: Vec<(&[u8], &M)>)
        requires
            self.wf(),
        ensures
            all@.len() == self@.len(),
            forall|i: int|
                0 <= i < all@.len() ==> (#[trigger] all@[i]).0@ == self@[i].0 && *all@[i].1
                    == self@[i].1,
    {
        let n = self.ptrs.len();
        let mut all: Vec<(&[u8], &M)> = Vec::new();
        let mut i: usize = 0;
        while i < n
            invariant
                self.wf(),
                n == self@.len(),
                i <= n,
                all@.len() == i,
                forall|k: int|
                    0 <= k < i ==> (#[trigger] all@[k]).0@ == self@[k].0 && *all@[k].1
                        == self@[k].1,
            decreases n - i,
        {
            all.push(self.index(i));
            i += 1;
        }
        all
    }

    /// Ends the life of every value. Each value leaves the container exactly
    /// once: the result holds a copy of the bytes and the metadata of each, in
    /// the order of the sequence, and the container is empty afterwards. The
    /// arena keeps its blocks, and with them the bytes, to which nothing
    /// refers any more.
    pub fn drain(&mut self) -> (gone: Vec<(Vec<u8>, M)>)
        requires
            old(self).wf(),
        ensures
            final(self).wf(),
            final(self)@ == Seq::<(Seq<u8>, M)>::empty(),
            final(self).arena() == old(self).arena(),
            gone@.len() == old(self)@.len(),
            forall|i: int|
                0 <= i < gone@.len() ==> (#[trigger] gone@[i]).0@ == old(self)@[i].0 && gone@[i].1
                    == old(self)@[i].1,
    {
        let ghost all = self@;
        let n = self.ptrs.len();
        let mut reversed: Vec<(Vec<u8>, M)> = Vec::new();
        while self.ptrs.len() > 0
            invariant
                self.wf(),
                self.blocks == old(self).blocks,
                all == old(self)@,
                n == all.len(),
                self.ptrs@.len() <= n,
                self@ == all.subrange(0, self.ptrs@.len() as int),
                reversed@.len() == n - self.ptrs@.len(),
                forall|k: int|
                    0 <= k < reversed@.len() ==> (#[trigger] reversed@[k]).0@ == all[n - 1 - k].0
                        && reversed@[k].1 == all[n - 1 - k].1,
            decreases self.ptrs@.len(),
        {
            let ghost before = *self;
            let last = self.ptrs.len() - 1;
            let bytes = slice_to_vec(self.blocks.bytes(self.ptrs[last].slot));
            let entry = self.ptrs.pop().unwrap();
            proof {
                assert(before@[last as int] == all[last as int]);
            }
            reversed.push((bytes, entry.meta));
        }
        let mut gone: Vec<(Vec<u8>, M)> = Vec::new();
        while reversed.len() > 0
            invariant
                n == all.len(),
                reversed@.len() <= n,
                gone@.len() == n - reversed@.len(),
                forall|k: int|
                    0 <= k < reversed@.len() ==> (#[trigger] reversed@[k]).0@ == all[n - 1 - k].0
                        && reversed@[k].1 == all[n - 1 - k].1,
                forall|k: int|
                    0 <= k < gone@.len() ==> (#[trigger] gone@[k]).0@ == all[k].0 && gone@[k].1
                        == all[k].1,
            decreases reversed@.len(),
        {
            let value = reversed.pop().unwrap();
            gone.push(value);
        }
        gone
    }
}

} // verus!
