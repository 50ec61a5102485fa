//! Handles: the place of a stored value, by chunk and slot.

use crate::layout::chunk_start;
use vstd::prelude::*;

verus! {

/// The place of a value in an arena. An arena never moves a value, so the
/// handle that `allocate` returned finds the value for as long as the arena
/// lives.
///
/// A handle is a place and nothing more: it does not record which arena
/// made it, and an arena answers for any handle that names one of its filled
/// slots.
#[derive(Clone, Copy, PartialEq, Eq, Hash, Debug, Structural)]
pub struct Handle {
    /// Index of the chunk that holds the value.
    pub chunk: usize,
    /// Index of the value's slot in that chunk.
    pub slot: usize,
}

impl Handle {
    /// The allocation number of the slot: how many values an arena stores
    /// before it fills this slot.
    pub open spec fn index(self) -> nat {
        chunk_start(self.chunk as nat) + self.slot as nat
    }

    /// Whether the slot is filled in `chunks`.
    pub open spec fn valid_in<T>(self, chunks: Seq<Seq<T>>) -> bool {
        self.chunk < chunks.len() && self.slot < chunks[self.chunk as int].len()
    }

    /// The value in the slot.
    pub open spec fn value_in<T>(self, chunks: Seq<Seq<T>>) -> T
        recommends
            self.valid_in(chunks),
    {
        chunks[self.chunk as int][self.slot as int]
    }
}

} // verus!
