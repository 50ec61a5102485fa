//! The arena: append-only storage in chunks that never move.
//!
//! Values are reached through handles, not through references into the
//! arena, so that a handle can be kept while further values are stored.

use crate::handle::Handle;
use crate::layout::{
    chunk_capacity, chunk_start, lemma_full_chunks_fit, lemma_start_plus_initial, max_values,
    INITIAL_CHUNK_SIZE,
};
use crate::packing::{
    lemma_packed_index, lemma_packed_len, lemma_pushed, lemma_replaced, packed, pushed, replaced,
    stored,
};
use vstd::prelude::*;

verus! {

/// One block of storage. `slots` is created with room for `capacity` values
/// and never takes more, so it never reallocates.
struct Chunk<T> {
    slots: Vec<T>,
    capacity: usize,
}

/// A typed arena. It owns every value stored in it and drops them together,
/// each once, when it is dropped; no value leaves it before.
///
/// `chunks` holds the chunks in the order of their creation. Only the last
/// chunk has free slots, and the next value goes into the first of them.
pub struct Arena<T> {
    chunks: Vec<Chunk<T>>,
    count: usize,
}

impl<T> View for Arena<T> {
    type V = Seq<T>;

    /// The stored values in allocation order.
    open spec fn view(&self) -> Seq<T> {
        self.layout().flatten()
    }
}

impl<T> Arena<T> {
    /// The stored values chunk by chunk, the chunks in the order of their
    /// creation.
    pub closed spec fn layout(&self) -> Seq<Seq<T>> {
        self.chunks@.map_values(|c: Chunk<T>| c.slots@)
    }

    /// The counter of stored values, which `len` returns.
    pub closed spec fn spec_len(&self) -> usize {
        self.count
    }

    /// Whether each chunk was created with the capacity that its index calls
    /// for.
    pub closed spec fn capacities_match(&self) -> bool {
        forall|i: int|
            0 <= i < self.chunks@.len() ==> (#[trigger] self.chunks@[i]).capacity
                == chunk_capacity(i as nat)
    }

    /// Well-formedness: the chunks are packed and created with the right
    /// capacities, the values are no more than the machine allows, and the
    /// counter is their number.
    pub open spec fn wf(&self) -> bool {
        &&& packed(self.layout())
        &&& self.capacities_match()
        &&& self@.len() <= max_values()
        &&& self.spec_len() == self@.len()
    }

    /// Whether `handle` names a filled slot of this arena.
    pub open spec fn holds(&self, handle: Handle) -> bool {
        handle.valid_in(self.layout())
    }

    /// Creates an arena that holds nothing. No chunk is created before the
    /// first value arrives.
    pub fn new() -> (arena: Self)
        ensures
            arena.wf(),
            arena.layout() == Seq::<Seq<T>>::empty(),
            arena@ == Seq::<T>::empty(),
    {
        let arena = Arena { chunks: Vec::new(), count: 0 };
        assert(arena.layout() =~= Seq::<Seq<T>>::empty());
        arena
    }

    /// Stores `value` and returns its handle. The value goes into the next
    /// free slot of the last chunk; where there is no chunk yet or the last
    /// one is full, a new chunk is created first, with `INITIAL_CHUNK_SIZE`
    /// slots for the first chunk and with twice the slots of the last chunk
    /// for every other. No stored value is moved or changed, and every handle
    /// keeps naming its value.
    ///
    /// The arena must not be full (see `is_full`): a full arena would need a
    /// chunk with more than `usize::MAX` slots.
    pub fn allocate(&mut self, value: T) -> (handle: Handle)
        requires
            old(self).wf(),
            old(self)@.len() < max_values(),
        ensures
            final(self).wf(),
            final(self).layout() == pushed(old(self).layout(), value),
            final(self)@ == old(self)@.push(value),
            final(self).len() == old(self).len() + 1,
            handle.chunk == final(self).layout().len() - 1,
            handle.slot == final(self).layout().last().len() - 1,
            handle.index() == old(self)@.len(),
            final(self).holds(handle),
            handle.value_in(final(self).layout()) == value,
            forall|h: Handle| #[trigger]
                old(self).holds(h) ==> final(self).holds(h) && h.value_in(final(self).layout())
                    == h.value_in(old(self).layout()),
    {
        let ghost before = self.layout();
        proof {
            lemma_packed_len(before);
            lemma_pushed(before, value);
            lemma_packed_len(pushed(before, value));
            lemma_start_plus_initial(before.len());
        }
        let n = self.chunks.len();
        if n == 0 {
            let mut slots: Vec<T> = Vec::with_capacity(INITIAL_CHUNK_SIZE);
            slots.push(value);
            self.chunks.push(Chunk { slots, capacity: INITIAL_CHUNK_SIZE });
        } else if self.chunks[n - 1].slots.len() == self.chunks[n - 1].capacity {
            let capacity = 2 * self.chunks[n - 1].capacity;
            let mut slots: Vec<T> = Vec::with_capacity(capacity);
            slots.push(value);
            self.chunks.push(Chunk { slots, capacity });
        } else {
            self.chunks[n - 1].slots.push(value);
        }
        self.count = self.count + 1;
        assert(self.layout() =~= pushed(before, value));
        let last = self.chunks.len() - 1;
        Handle { chunk: last, slot: self.chunks[last].slots.len() - 1 }
    }

    /// Calls `produce` once, before anything is stored, and stores the value
    /// that it returns, as `allocate` does.
    pub fn alloc_with<F: FnOnce() -> T>(&mut self, produce: F) -> (handle: Handle)
        requires
            old(self).wf(),
            old(self)@.len() < max_values(),
            produce.requires(()),
        ensures
            final(self).wf(),
            produce.ensures((), final(self)@.last()),
            final(self).layout() == pushed(old(self).layout(), final(self)@.last()),
            final(self)@ == old(self)@.push(final(self)@.last()),
            final(self).len() == old(self).len() + 1,
            handle.chunk == final(self).layout().len() - 1,
            handle.slot == final(self).layout().last().len() - 1,
            handle.index() == old(self)@.len(),
            final(self).holds(handle),
            handle.value_in(final(self).layout()) == final(self)@.last(),
            forall|h: Handle| #[trigger]
                old(self).holds(h) ==> final(self).holds(h) && h.value_in(final(self).layout())
                    == h.value_in(old(self).layout()),
    {
        let value = produce();
        self.allocate(value)
    }

    /// The value that `handle` names, or `None` where the handle names no
    /// filled slot of this arena.
    pub fn get(&self, handle: Handle) -> (found: Option<&T>)
        requires
            self.wf(),
        ensures
            found.is_some() == self.holds(handle),
            self.holds(handle) ==> handle.index() < self@.len() && *found.unwrap()
                == self@[handle.index() as int] && *found.unwrap() == handle.value_in(
                self.layout(),
            ),
    {
        if handle.chunk < self.chunks.len() {
            let chunk = &self.chunks[handle.chunk];
            if handle.slot < chunk.slots.len() {
                proof {
                    lemma_packed_index(self.layout(), handle.chunk as int, handle.slot as int);
                }
                Some(&chunk.slots[handle.slot])
            } else {
                None
            }
        } else {
            None
        }
    }

    /// Access for writing to the value that `handle` names, or `None` where
    /// the handle names no filled slot of this arena. Whatever is written,
    /// only that slot changes: no value moves, and none is added or removed.
    /// The arena is borrowed exclusively while the access lasts, so a slot
    /// never has two writers.
    pub fn get_mut(&mut self, handle: Handle) -> (found: Option<&mut T>)
        requires
            old(self).wf(),
        ensures
            found.is_some() == old(self).holds(handle),
            found matches Some(slot) ==> *slot == handle.value_in(old(self).layout()),
            found matches Some(slot) ==> final(self).layout() == replaced(
                old(self).layout(),
                handle.chunk as int,
                handle.slot as int,
                *final(slot),
            ),
            found matches Some(slot) ==> final(self)@ == old(self)@.update(
                handle.index() as int,
                *final(slot),
            ),
            found.is_none() ==> final(self).layout() == old(self).layout(),
            final(self).wf(),
    {
        if handle.chunk < self.chunks.len() {
            if handle.slot < self.chunks[handle.chunk].slots.len() {
                proof {
                    let before = self.layout();
                    // The number of values depends on the chunks' lengths alone.
                    assert forall|chunks: Seq<Seq<T>>| packed(chunks) implies #[trigger]
                        chunks.flatten().len() == stored(chunks) by {
                        lemma_packed_len(chunks);
                    }
                    assert forall|value: T|
                        packed(
                            #[trigger] replaced(
                                before,
                                handle.chunk as int,
                                handle.slot as int,
                                value,
                            ),
                        ) && replaced(
                            before,
                            handle.chunk as int,
                            handle.slot as int,
                            value,
                        ).flatten() == before.flatten().update(handle.index() as int, value) by {
                        lemma_replaced(before, handle.chunk as int, handle.slot as int, value);
                    }
                }
                Some(&mut self.chunks[handle.chunk].slots[handle.slot])
            } else {
                None
            }
        } else {
            None
        }
    }

    /// Number of values stored since the arena was created.
    #[verifier::when_used_as_spec(spec_len)]
    pub fn len(&self) -> (n: usize)
        requires
            self.wf(),
        ensures
            n == self.spec_len(),
            n == self@.len(),
    {
        self.count
    }

    /// Whether nothing has been stored yet: whether `len` is zero.
    pub fn is_empty(&self) -> (b: bool)
        requires
            self.wf(),
        ensures
            b == (self.len() == 0),
            b == (self@.len() == 0),
    {
        self.len() == 0
    }

    /// Whether the arena holds as many values as it can on this machine, so
    /// that `allocate` cannot be called.
    pub fn is_full(&self) -> (b: bool)
        requires
            self.wf(),
        ensures
            b == (self@.len() == max_values()),
    {
        self.count >= usize::MAX - (INITIAL_CHUNK_SIZE - 1)
    }

    /// Number of chunks created so far.
    pub fn chunk_count(&self) -> (n: usize)
        requires
            self.wf(),
        ensures
            n == self.layout().len(),
    {
        self.chunks.len()
    }

    /// Number of slots in all chunks created so far, filled or free.
    pub fn capacity(&self) -> (slots: usize)
        requires
            self.wf(),
        ensures
            slots == chunk_start(self.layout().len()),
    {
        let n = self.chunks.len();
        if n == 0 {
            0
        } else {
            let last = self.chunks[n - 1].capacity;
            proof {
                lemma_packed_len(self.layout());
                lemma_start_plus_initial((n - 1) as nat);
                lemma_full_chunks_fit((n - 1) as nat);
            }
            (last - INITIAL_CHUNK_SIZE) + last
        }
    }
}

} // verus!
