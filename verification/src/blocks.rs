//! The block arena: growable blocks of zeroed bytes, from which storage is
//! issued once and never taken back.

use crate::align::{align_offset, checked_next_power_of_two, is_aligned};
use crate::block_ref::DynBlockRef;
use crate::model::{
    lemma_empty_wf, lemma_fresh_capacity, lemma_place, lemma_write, splice, zeros, Arena, Region,
    Slot, DEFAULT_BLOCK_SIZE, MIN_BLOCK_CAP,
};
use vstd::prelude::*;
use vstd::slice::slice_subrange;

verus! {

/// One block of the arena: its first address and its storage.
struct Block {
    base: usize,
    data: Vec<u8>,
}

/// An arena that packs values of any size and alignment into fixed-capacity
/// blocks of zeroed memory.
///
/// Storage is issued from the most recent block while it has room, and from a
/// new block otherwise; what is left of the old block is given up. A slot,
/// once issued, is never moved, issued again or freed on its own. The blocks
/// are released together, when the arena is dropped.
///
/// An address is a position in the arena's own address space, which starts at
/// 0. Each block takes the next addresses that suit the alignment of the
/// value that starts it, so that blocks never overlap and every address names
/// one byte of storage at most.
pub struct DynBlocks {
    block_size: usize,
    max_block_size: usize,
    blocks: Vec<Block>,
    next_block_offset: usize,
}

impl View for DynBlocks {
    type V = Arena;

    closed spec fn view(&self) -> Arena {
        Arena {
            block_size: self.block_size as nat,
            max_block_size: self.max_block_size as nat,
            regions: Seq::new(
                self.blocks@.len(),
                |i: int| Region { base: self.blocks@[i].base as nat, bytes: self.blocks@[i].data@ },
            ),
            cursor: self.next_block_offset as nat,
        }
    }
}

/// The part of `s` from `from` up to `to`, for writing in place.
///
/// This is `IndexMut::index_mut` of a slice with a `Range<usize>`, written
/// `&mut s[from..to]`; Verus is not shown its body and takes the contract on
/// trust. The contract says that the part holds the bytes of `s` in that
/// range, that a slice keeps its length while it is borrowed, and that, when
/// the borrow ends, `s` holds what was written through the part there and its
/// other bytes as they were. The call panics where the range does not lie in
/// `s`, which the precondition rules out.
#[verifier::external_body]
fn subslice_mut(s: &mut [u8], from: usize, to: usize) -> (part: &mut [u8])
    requires
        from <= to <= old(s)@.len(),
    ensures
        part@ == old(s)@.subrange(from as int, to as int),
        final(part)@.len() == part@.len(),
        final(s)@ == splice(old(s)@, from as int, final(part)@),
{
    &mut s[from..to]
}

/// Copies `src` over `dst`, byte for byte.
fn copy_bytes(dst: &mut [u8], src: &[u8])
    requires
        old(dst)@.len() == src@.len(),
    ensures
        final(dst)@ == src@,
{
    let n = src.len();
    let mut i: usize = 0;
    while i < n
        invariant
            i <= n,
            n == src@.len(),
            dst@.len() == n,
            forall|k: int| 0 <= k < i ==> dst@[k] == src@[k],
        decreases n - i,
    {
        dst[i] = src[i];
        i += 1;
    }
}

impl DynBlocks {
    /// An arena with the default nominal block size.
    pub fn new() -> (arena: Self)
        ensures
            arena@ == Arena::empty(DEFAULT_BLOCK_SIZE as nat),
            arena@.wf(),
    {
        Self::with_blocksize(DEFAULT_BLOCK_SIZE)
    }

    /// An arena whose first block has the nominal size `block_size`. The cap on
    /// the nominal size is `block_size` or [`MIN_BLOCK_CAP`], whichever is
    /// larger.
    pub fn with_blocksize(block_size: usize) -> (arena: Self)
        ensures
            arena@ == Arena::empty(block_size as nat),
            arena@.wf(),
    {
        let arena = Self {
            block_size,
            max_block_size: if block_size < MIN_BLOCK_CAP {
                MIN_BLOCK_CAP
            } else {
                block_size
            },
            blocks: Vec::new(),
            next_block_offset: 0,
        };
        proof {
            lemma_empty_wf(block_size as nat);
            assert(arena@.regions =~= Seq::<Region>::empty());
        }
        arena
    }

    /// The nominal size of the next block.
    pub fn block_size(&self) -> (n: usize)
        ensures
            n == self@.block_size,
    {
        self.block_size
    }

    /// The cap on the nominal block size.
    pub fn max_block_size(&self) -> (n: usize)
        ensures
            n == self@.max_block_size,
    {
        self.max_block_size
    }

    /// The number of blocks.
    pub fn block_count(&self) -> (n: usize)
        ensures
            n == self@.regions.len(),
    {
        self.blocks.len()
    }

    /// The capacity in bytes of block number `block`, or `None` where there is
    /// no such block.
    pub fn block_capacity(&self, block: usize) -> (cap: Option<usize>)
        ensures
            cap == if block < self@.regions.len() {
                Some(self@.regions[block as int].bytes.len() as usize)
            } else {
                None
            },
    {
        if block < self.blocks.len() {
            Some(self.blocks[block].data.len())
        } else {
            None
        }
    }

    /// Whether `slot` lies in storage that the arena will not issue again: in
    /// the most recent block, below the write offset; in an older block,
    /// anywhere.
    pub fn holds(&self, slot: Slot) -> (ok: bool)
        ensures
            ok == self@.holds(slot),
    {
        let n = self.blocks.len();
        if slot.block >= n {
            return false;
        }
        let limit = if slot.block + 1 == n {
            self.next_block_offset
        } else {
            self.blocks[slot.block].data.len()
        };
        slot.offset <= limit && slot.len <= limit - slot.offset
    }

    /// The address of the slot's first byte.
    pub fn address(&self, slot: Slot) -> (addr: usize)
        requires
            self@.wf(),
            self@.holds(slot),
        ensures
            addr == self@.address(slot),
    {
        proof {
            self.lemma_block_ends(slot.block as int);
        }
        self.blocks[slot.block].base + slot.offset
    }

    /// No block reaches beyond the address space.
    proof fn lemma_block_ends(&self, block: int)
        requires
            self@.wf(),
            0 <= block < self@.regions.len(),
        ensures
            self@.regions[block].end() <= self@.end(),
            self@.end() <= usize::MAX,
    {
        let last = self@.regions.len() - 1;
        if block < last {
        }
    }

    /// Whether `post` is this arena with `bytes` in the slot and nothing else
    /// changed.
    spec fn rewritten(&self, post: DynBlocks, slot: Slot, bytes: Seq<u8>) -> bool {
        let block = slot.block as int;
        &&& post.block_size == self.block_size
        &&& post.max_block_size == self.max_block_size
        &&& post.next_block_offset == self.next_block_offset
        &&& post.blocks@.len() == self.blocks@.len()
        &&& forall|i: int|
            0 <= i < self.blocks@.len() && i != block ==> post.blocks@[i] == self.blocks@[i]
        &&& post.blocks@[block].base == self.blocks@[block].base
        &&& post.blocks@[block].data@ == splice(self.blocks@[block].data@, slot.offset as int, bytes)
    }

    /// The first address after the most recent block.
    fn end(&self) -> (end: usize)
        requires
            self@.wf(),
        ensures
            end == self@.end(),
    {
        let n = self.blocks.len();
        if n == 0 {
            0
        } else {
            self.blocks[n - 1].base + self.blocks[n - 1].data.len()
        }
    }

    /// The offset in the most recent block at which a value of `size` bytes at
    /// `align` goes, if that block has room for it.
    fn current_fit(&self, size: usize, align: usize) -> (offset: Option<usize>)
        requires
            self@.wf(),
            align > 0,
        ensures
            offset.is_some() == self@.fits_current(size as nat, align as nat),
            offset.is_some() ==> offset.unwrap() == self@.placed_slot(
                size as nat,
                align as nat,
            ).offset,
    {
        let n = self.blocks.len();
        if n == 0 {
            return None;
        }
        let cap = self.blocks[n - 1].data.len();
        let room = cap - self.next_block_offset;
        let pad = align_offset(self.blocks[n - 1].base + self.next_block_offset, align);
        if pad <= room && size <= room - pad {
            Some(self.next_block_offset + pad)
        } else {
            None
        }
    }

    /// The capacity of the block that a value of `size` bytes would start, or
    /// `None` where no machine word holds it.
    fn fresh_capacity(&self, size: usize) -> (cap: Option<usize>)
        requires
            self@.wf(),
        ensures
            match cap {
                Some(c) => c == self@.fresh_capacity(size as nat),
                None => self@.fresh_capacity(size as nat) > usize::MAX,
            },
    {
        if size > self.max_block_size {
            Some(size)
        } else if size > self.block_size {
            checked_next_power_of_two(size)
        } else {
            checked_next_power_of_two(self.block_size)
        }
    }

    /// Whether a value of `size` bytes at `align` can be placed.
    pub fn can_place(&self, size: usize, align: usize) -> (ok: bool)
        requires
            self@.wf(),
        ensures
            ok == self@.can_place(size as nat, align as nat),
    {
        if align == 0 {
            return false;
        }
        if self.current_fit(size, align).is_some() {
            return true;
        }
        let end = self.end();
        let pad = align_offset(end, align);
        if pad > usize::MAX - end {
            return false;
        }
        match self.fresh_capacity(size) {
            Some(cap) => cap <= usize::MAX - (end + pad),
            None => false,
        }
    }

    /// Issues `size` bytes of zeroed storage at an address that is a multiple of
    /// `align`.
    ///
    /// The storage comes from the most recent block if, after the padding that
    /// the alignment takes, it has room; else from the start of a new block. A
    /// value larger than the cap gets a block of exactly its size, and the
    /// nominal block size stays. Any other value gets a block of the smallest
    /// power of two that holds it and the nominal size, and the nominal size
    /// becomes twice that where the cap allows.
    pub fn next_ptr(&mut self, size: usize, align: usize) -> (slot: Slot)
        requires
            old(self)@.wf(),
            old(self)@.can_place(size as nat, align as nat),
        ensures
            slot == old(self)@.placed_slot(size as nat, align as nat),
            final(self)@ == old(self)@.place(size as nat, align as nat),
            final(self)@.wf(),
            final(self)@.holds(slot),
            is_aligned(final(self)@.address(slot), align as nat),
            final(self)@.read(slot) == zeros(size as nat),
    {
        proof {
            lemma_place(self@, size as nat, align as nat);
            lemma_fresh_capacity(self@, size as nat);
        }
        let n = self.blocks.len();
        if let Some(offset) = self.current_fit(size, align) {
            self.next_block_offset = offset + size;
            return Slot { block: n - 1, offset, len: size };
        }
        let end = self.end();
        let base = end + align_offset(end, align);
        let cap = self.fresh_capacity(size).unwrap();
        if size <= self.max_block_size && cap <= self.max_block_size / 2 {
            self.block_size = cap * 2;
        }
        let data = vec![0u8; cap];
        assert(data@ =~= zeros(cap as nat));
        self.blocks.push(Block { base, data });
        self.next_block_offset = size;
        assert(self@.regions =~= old(self)@.place(size as nat, align as nat).regions);
        Slot { block: n, offset: 0, len: size }
    }

    /// The bytes in the slot.
    pub fn bytes(&self, slot: Slot) -> (r: &[u8])
        requires
            self@.wf(),
            self@.holds(slot),
        ensures
            r@ == self@.read(slot),
    {
        slice_subrange(self.blocks[slot.block].data.as_slice(), slot.offset, slot.offset + slot.len)
    }

    /// The bytes in the slot, for writing in place. What is written is what the
    /// arena holds in the slot afterwards; nothing else changes.
    pub fn bytes_mut(&mut self, slot: Slot) -> (r: &mut [u8])
        requires
            old(self)@.wf(),
            old(self)@.holds(slot),
        ensures
            r@ == old(self)@.read(slot),
            final(r)@.len() == slot.len,
            final(self)@ == old(self)@.write(slot, final(r)@),
            final(self)@.wf(),
    {
        let block = &mut self.blocks[slot.block];
        let r = subslice_mut(block.data.as_mut_slice(), slot.offset, slot.offset + slot.len);
        proof {
            let pre = *old(self);
            let bytes = final(r)@;
            lemma_write(pre@, slot, bytes);
            assert forall|post: DynBlocks| pre.rewritten(post, slot, bytes) implies #[trigger] post@
                == pre@.write(slot, bytes) by {
                assert(post@.regions =~= pre@.write(slot, bytes).regions);
            }
        }
        r
    }

    /// Places a copy of the value `src` at an address that is a multiple of
    /// `align`, and hands out the handle to it.
    ///
    /// The caller states the value's shape: `src` is all of its bytes, and
    /// `align` is its alignment. The arena must be able to place it.
    pub fn push_raw(&mut self, src: &[u8], align: usize) -> (r: DynBlockRef<'_>)
        requires
            old(self)@.wf(),
            old(self)@.can_place(src@.len(), align as nat),
        ensures
            r.slot == old(self)@.placed_slot(src@.len(), align as nat),
            r.bytes@ == src@,
            final(r.bytes)@.len() == src@.len(),
            final(self)@ == old(self)@.place(src@.len(), align as nat).write(
                r.slot,
                final(r.bytes)@,
            ),
            final(self)@.wf(),
            final(self)@.holds(r.slot),
            is_aligned(final(self)@.address(r.slot), align as nat),
    {
        proof {
            lemma_place(self@, src@.len(), align as nat);
        }
        let slot = self.next_ptr(src.len(), align);
        let bytes = self.bytes_mut(slot);
        copy_bytes(bytes, src);
        DynBlockRef { bytes, slot }
    }

    /// Places a copy of `value` as [`DynBlocks::push_raw`] does, after testing
    /// that it can be placed. Where it cannot, the arena stays as it is.
    pub fn push(&mut self, value: &[u8], align: usize) -> (r: Option<DynBlockRef<'_>>)
        requires
            old(self)@.wf(),
        ensures
            r.is_some() == old(self)@.can_place(value@.len(), align as nat),
            r.is_none() ==> final(self)@ == old(self)@,
            r.is_some() ==> {
                &&& r.unwrap().slot == old(self)@.placed_slot(value@.len(), align as nat)
                &&& r.unwrap().bytes@ == value@
                &&& final(r.unwrap().bytes)@.len() == value@.len()
                &&& final(self)@ == old(self)@.place(value@.len(), align as nat).write(
                    r.unwrap().slot,
                    final(r.unwrap().bytes)@,
                )
            },
            final(self)@.wf(),
    {
        if self.can_place(value.len(), align) {
            Some(self.push_raw(value, align))
        } else {
            None
        }
    }
}

} // verus!
