//! The mathematical model of the block arena: what it has laid out, where the
//! next value goes, and the laws of placement.
//!
//! The arena addresses its storage by position in a linear address space of
//! its own. A block is a region `[base, base + capacity)` of that space; the
//! regions lie in ascending order and never overlap.

use crate::align::{align_up, is_aligned, lemma_next_power_of_two, lemma_padding, next_power_of_two, padding};
use vstd::prelude::*;

verus! {

/// The block-size cap is never below this many bytes.
pub const MIN_BLOCK_CAP: usize = 2048;

/// The nominal block size of an arena made without one.
pub const DEFAULT_BLOCK_SIZE: usize = 128;

/// A stable handle to storage that the arena has issued: `len` bytes at
/// `offset` in block number `block`.
#[derive(Clone, Copy, Debug, PartialEq, Eq, Structural)]
pub struct Slot {
    pub block: usize,
    pub offset: usize,
    pub len: usize,
}

impl Slot {
    /// Whether the two slots share no byte.
    pub open spec fn disjoint(self, other: Slot) -> bool {
        ||| self.block != other.block
        ||| self.offset + self.len <= other.offset
        ||| other.offset + other.len <= self.offset
    }
}

/// One block: its first address and its bytes.
pub struct Region {
    pub base: nat,
    pub bytes: Seq<u8>,
}

impl Region {
    /// The first address after the block.
    pub open spec fn end(self) -> nat {
        self.base + self.bytes.len()
    }
}

/// The state of an arena.
pub struct Arena {
    /// The nominal size of the next block.
    pub block_size: nat,
    /// The cap on the nominal block size.
    pub max_block_size: nat,
    /// The blocks, oldest first.
    pub regions: Seq<Region>,
    /// The write offset into the most recent block.
    pub cursor: nat,
}

/// `n` zero bytes.
pub open spec fn zeros(n: nat) -> Seq<u8> {
    Seq::new(n, |i: int| 0u8)
}

/// `bytes` with the `patch.len()` bytes from `offset` on replaced by `patch`.
pub open spec fn splice(bytes: Seq<u8>, offset: int, patch: Seq<u8>) -> Seq<u8> {
    bytes.subrange(0, offset) + patch + bytes.subrange(offset + patch.len(), bytes.len() as int)
}

impl Arena {
    /// An arena that has issued nothing yet.
    pub open spec fn empty(block_size: nat) -> Arena {
        Arena {
            block_size,
            max_block_size: if block_size < MIN_BLOCK_CAP {
                MIN_BLOCK_CAP as nat
            } else {
                block_size
            },
            regions: Seq::empty(),
            cursor: 0,
        }
    }

    /// The first address after the most recent block; 0 before the first block.
    pub open spec fn end(self) -> nat {
        if self.regions.len() == 0 {
            0
        } else {
            self.regions.last().end()
        }
    }

    /// The invariant of an arena.
    pub open spec fn wf(self) -> bool {
        &&& self.block_size <= self.max_block_size
        &&& self.max_block_size >= MIN_BLOCK_CAP
        &&& self.max_block_size <= usize::MAX
        &&& self.regions.len() <= self.end()
        &&& self.end() <= usize::MAX
        &&& self.regions.len() == 0 ==> self.cursor == 0
        &&& self.regions.len() > 0 ==> self.cursor <= self.regions.last().bytes.len()
        &&& forall|i: int, j: int|
            0 <= i < j < self.regions.len() ==> (#[trigger] self.regions[i]).end() <= (
            #[trigger] self.regions[j]).base
        &&& forall|k: int|
            self.regions.len() > 0 && self.cursor <= k < self.regions.last().bytes.len()
                ==> #[trigger] self.regions.last().bytes[k] == 0
    }

    /// Whether `slot` lies in storage that the arena will not issue again: in
    /// the most recent block, below the write offset; in an older block,
    /// anywhere.
    pub open spec fn holds(self, slot: Slot) -> bool {
        &&& slot.block < self.regions.len()
        &&& slot.offset + slot.len <= if slot.block + 1 == self.regions.len() {
            self.cursor
        } else {
            self.regions[slot.block as int].bytes.len()
        }
    }

    /// The address of the slot's first byte.
    pub open spec fn address(self, slot: Slot) -> nat {
        (self.regions[slot.block as int].base + slot.offset) as nat
    }

    /// The bytes in the slot.
    pub open spec fn read(self, slot: Slot) -> Seq<u8> {
        self.regions[slot.block as int].bytes.subrange(
            slot.offset as int,
            slot.offset + slot.len,
        )
    }

    /// The arena with `bytes` in the slot and every other byte as it was.
    pub open spec fn write(self, slot: Slot, bytes: Seq<u8>) -> Arena {
        let region = self.regions[slot.block as int];
        Arena {
            regions: self.regions.update(
                slot.block as int,
                Region { base: region.base, bytes: splice(region.bytes, slot.offset as int, bytes) },
            ),
            ..self
        }
    }

    /// Whether the most recent block has room for `size` bytes at `align`,
    /// counted from the write offset and after the padding.
    pub open spec fn fits_current(self, size: nat, align: nat) -> bool {
        &&& self.regions.len() > 0
        &&& self.cursor + padding(self.regions.last().base + self.cursor, align) + size
            <= self.regions.last().bytes.len()
    }

    /// The capacity of the block that a value of `size` bytes starts: the value's
    /// own size where it is above the cap, else the smallest power of two that
    /// holds both the nominal block size and the value.
    pub open spec fn fresh_capacity(self, size: nat) -> nat {
        if size > self.max_block_size {
            size
        } else if size > self.block_size {
            next_power_of_two(size)
        } else {
            next_power_of_two(self.block_size)
        }
    }

    /// The nominal block size after a value of `size` bytes has started a block:
    /// twice the new block's capacity where that stays under the cap, else
    /// unchanged. A value above the cap leaves it unchanged.
    pub open spec fn grown_block_size(self, size: nat) -> nat {
        if size <= self.max_block_size && 2 * self.fresh_capacity(size) <= self.max_block_size {
            2 * self.fresh_capacity(size)
        } else {
            self.block_size
        }
    }

    /// Whether a value of `size` bytes at `align` can be placed: the most recent
    /// block has room, or a new block fits the address space.
    pub open spec fn can_place(self, size: nat, align: nat) -> bool {
        &&& align > 0
        &&& self.fits_current(size, align) || align_up(self.end(), align) + self.fresh_capacity(
            size,
        ) <= usize::MAX
    }

    /// The slot that a value of `size` bytes at `align` is given.
    pub open spec fn placed_slot(self, size: nat, align: nat) -> Slot {
        if self.fits_current(size, align) {
            Slot {
                block: (self.regions.len() - 1) as usize,
                offset: (self.cursor + padding(self.regions.last().base + self.cursor, align)) as usize,
                len: size as usize,
            }
        } else {
            Slot { block: self.regions.len() as usize, offset: 0, len: size as usize }
        }
    }

    /// The arena after a value of `size` bytes at `align` has been given its
    /// slot. Storage that was issued before stays as it is; a new block is all
    /// zero.
    pub open spec fn place(self, size: nat, align: nat) -> Arena {
        if self.fits_current(size, align) {
            Arena {
                cursor: self.cursor + padding(self.regions.last().base + self.cursor, align) + size,
                ..self
            }
        } else {
            Arena {
                block_size: self.grown_block_size(size),
                max_block_size: self.max_block_size,
                regions: self.regions.push(
                    Region {
                        base: align_up(self.end(), align),
                        bytes: zeros(self.fresh_capacity(size)),
                    },
                ),
                cursor: size,
            }
        }
    }
}

/// An arena that has issued nothing is well formed, with the cap at its floor
/// or at the nominal block size, whichever is larger.
pub proof fn lemma_empty_wf(block_size: nat)
    requires
        block_size <= usize::MAX,
    ensures
        Arena::empty(block_size).wf(),
        Arena::empty(block_size).max_block_size >= block_size,
        Arena::empty(block_size).max_block_size >= MIN_BLOCK_CAP,
{
}

/// A new block is large enough for the value that starts it.
pub proof fn lemma_fresh_capacity(arena: Arena, size: nat)
    ensures
        arena.fresh_capacity(size) >= size,
        arena.fresh_capacity(size) >= 1,
        size <= arena.max_block_size ==> arena.fresh_capacity(size) >= arena.block_size,
{
    lemma_next_power_of_two(size);
    lemma_next_power_of_two(arena.block_size);
}

/// Placement keeps the arena well formed, and the slot it gives is issued
/// storage at an address that is a multiple of the alignment, all zero.
pub proof fn lemma_place(arena: Arena, size: nat, align: nat)
    requires
        arena.wf(),
        arena.can_place(size, align),
    ensures
        arena.place(size, align).wf(),
        arena.place(size, align).holds(arena.placed_slot(size, align)),
        arena.placed_slot(size, align).len == size,
        is_aligned(arena.place(size, align).address(arena.placed_slot(size, align)), align),
        arena.place(size, align).read(arena.placed_slot(size, align)) == zeros(size),
{
    lemma_fresh_capacity(arena, size);
    if arena.fits_current(size, align) {
        lemma_padding(arena.regions.last().base + arena.cursor, align);
    } else {
        lemma_padding(arena.end(), align);
    }
}

/// Placement never touches what was issued before: every slot that the arena
/// held is still held, at the same address and with the same bytes, and shares
/// no byte with the new slot.
pub proof fn lemma_place_keeps(arena: Arena, size: nat, align: nat, slot: Slot)
    requires
        arena.wf(),
        arena.can_place(size, align),
        arena.holds(slot),
    ensures
        arena.place(size, align).holds(slot),
        arena.place(size, align).address(slot) == arena.address(slot),
        arena.place(size, align).read(slot) == arena.read(slot),
        slot.disjoint(arena.placed_slot(size, align)),
{
}

/// Writing a slot's bytes keeps the arena well formed and its layout
/// unchanged, and the slot then reads as written.
pub proof fn lemma_write(arena: Arena, slot: Slot, bytes: Seq<u8>)
    requires
        arena.wf(),
        arena.holds(slot),
        bytes.len() == slot.len,
    ensures
        arena.write(slot, bytes).wf(),
        arena.write(slot, bytes).read(slot) == bytes,
        arena.write(slot, bytes).regions.len() == arena.regions.len(),
        forall|other: Slot| arena.write(slot, bytes).holds(other) == arena.holds(other),
        forall|other: Slot|
            arena.holds(other) ==> arena.write(slot, bytes).address(other) == arena.address(other),
        forall|size: nat, align: nat|
            arena.write(slot, bytes).can_place(size, align) == arena.can_place(size, align),
{
}

/// Writing one slot leaves the bytes of every slot that shares no byte with it.
pub proof fn lemma_write_keeps(arena: Arena, slot: Slot, bytes: Seq<u8>, other: Slot)
    requires
        arena.wf(),
        arena.holds(slot),
        arena.holds(other),
        bytes.len() == slot.len,
        slot.disjoint(other),
    ensures
        arena.write(slot, bytes).read(other) == arena.read(other),
{
}

/// A value that is placed and written reads back byte for byte, at an address
/// that is a multiple of its alignment, and every value that was there before
/// reads as it did.
pub proof fn lemma_placed_value_reads_back(arena: Arena, bytes: Seq<u8>, align: nat, other: Slot)
    requires
        arena.wf(),
        arena.can_place(bytes.len(), align),
        arena.holds(other),
    ensures
        ({
            let slot = arena.placed_slot(bytes.len(), align);
            let after = arena.place(bytes.len(), align).write(slot, bytes);
            &&& after.wf()
            &&& after.holds(slot)
            &&& after.read(slot) == bytes
            &&& is_aligned(after.address(slot), align)
            &&& after.holds(other)
            &&& after.read(other) == arena.read(other)
            &&& after.address(other) == arena.address(other)
        }),
{
    let slot = arena.placed_slot(bytes.len(), align);
    let placed = arena.place(bytes.len(), align);
    lemma_place(arena, bytes.len(), align);
    lemma_place_keeps(arena, bytes.len(), align, other);
    lemma_write(placed, slot, bytes);
    lemma_write_keeps(placed, slot, bytes, other);
}

/// Slots in issued storage that share no byte have no address in common: an
/// address names at most one stored byte.
pub proof fn lemma_addresses_are_unique(arena: Arena, a: Slot, b: Slot, i: nat, j: nat)
    requires
        arena.wf(),
        arena.holds(a),
        arena.holds(b),
        a.disjoint(b),
        i < a.len,
        j < b.len,
    ensures
        arena.address(a) + i != arena.address(b) + j,
{
}

} // verus!
