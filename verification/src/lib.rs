//! Heterogeneous, position-indexed storage for byte-encoded values of varying
//! size and alignment, packed into the growable blocks of an arena without one
//! heap allocation per value.
//!
//! [`DynBlocks`] is the arena: it issues zeroed, aligned storage from blocks
//! and never takes any of it back. [`DynBlockRef`] is the handle to a value
//! that has just been placed. [`DynSequence`] is the ordered container built
//! on the arena: it owns its values, keeps their order in a list of slots, and
//! gives them by position or through a cursor.

pub mod align;
pub mod block_ref;
pub mod blocks;
pub mod iter;
pub mod model;
pub mod sequence;

pub use block_ref::DynBlockRef;
pub use blocks::DynBlocks;
pub use iter::{DynSeqIter, DynSeqIterMut};
pub use model::Slot;
pub use sequence::DynSequence;
