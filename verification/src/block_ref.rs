//! The scoped handle to a value that has just been placed.

use crate::model::Slot;
use vstd::prelude::*;

verus! {

/// A value that has been moved into the arena and not yet given its final
/// owner: the one reference to its bytes, and the slot that holds them.
///
/// The handle cannot be copied. Committing it with [`DynBlockRef::into_ref`] or
/// [`DynBlockRef::into_mut`] yields a reference that lives as long as the
/// handle's borrow of the arena. A handle that is let go without being
/// committed leaves the bytes in the arena, where nothing refers to them any
/// more; their storage is not reclaimed.
pub struct DynBlockRef<'l> {
    /// The bytes of the value, in place.
    pub bytes: &'l mut [u8],
    /// Where the arena holds them.
    pub slot: Slot,
}

impl<'l> DynBlockRef<'l> {
    /// Commits the value for reading. Nothing is written through the handle
    /// after this, so the arena keeps the bytes as they are now.
    pub fn into_ref(self) -> (r: &'l [u8])
        ensures
            r@ == old(self.bytes)@,
            final(self.bytes)@ == old(self.bytes)@,
    {
        self.bytes
    }

    /// Commits the value for reading and writing: what is written through the
    /// result is what the arena holds in the end.
    pub fn into_mut(self) -> (r: &'l mut [u8])
        ensures
            r@ == old(self.bytes)@,
            final(r)@ == final(self.bytes)@,
    {
        self.bytes
    }

    /// The slot of the value, for reading.
    pub fn as_ptr(&mut self) -> (slot: Slot)
        ensures
            slot == old(self).slot,
            *final(self) == *old(self),
    {
        self.slot
    }

    /// The slot of the value, for writing.
    pub fn as_mut_ptr(&mut self) -> (slot: Slot)
        ensures
            slot == old(self).slot,
            *final(self) == *old(self),
    {
        self.slot
    }

    /// The bytes of the value.
    pub fn deref(&self) -> (r: &[u8])
        ensures
            r@ == old(self.bytes)@,
    {
        self.bytes
    }

    /// The bytes of the value, for writing in place.
    pub fn deref_mut(&mut self) -> (r: &mut [u8])
        ensures
            r@ == old(self).bytes@,
            final(self).bytes@ == final(r)@,
            final(self).slot == old(self).slot,
            final(final(self).bytes)@ == final(old(self).bytes)@,
    {
        self.bytes
    }
}

} // verus!
