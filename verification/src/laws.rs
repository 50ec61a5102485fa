//! What holds of every arena, whatever was stored in it and in whatever
//! order the functions were called.

use crate::arena::Arena;
use crate::handle::Handle;
use crate::layout::{
    chunk_capacity, chunk_of, chunk_spans, chunk_start, lemma_capacity_closed_form,
    lemma_chunk_of, lemma_chunk_of_unique, lemma_chunks_ordered, lemma_start_at_least_linear,
    lemma_start_plus_initial, max_values, INITIAL_CHUNK_SIZE,
};
use crate::packing::{
    lemma_packed_index, lemma_packed_len, lemma_pushed_all, packed, pushed, pushed_all,
};
use vstd::arithmetic::power2::{lemma2_to64, lemma_pow2_adds, pow2};
use vstd::layout::unsigned_int_max_values;
use vstd::prelude::*;

verus! {

/// An arena in which `values` were stored one after the other since it was
/// created holds exactly `values`, and its length is their number.
pub proof fn law_len_counts_allocations<T>(arena: Arena<T>, values: Seq<T>)
    requires
        arena.wf(),
        arena.layout() == pushed_all(Seq::<Seq<T>>::empty(), values),
    ensures
        arena.len() == values.len(),
        arena@ == values,
{
    lemma_pushed_all(Seq::<Seq<T>>::empty(), values);
    assert(Seq::<Seq<T>>::empty().flatten() =~= Seq::<T>::empty());
    assert(arena@ =~= values);
}

/// Storing further values appends them to the stored values and adds their
/// number to the length.
pub proof fn law_allocations_append<T>(before: Arena<T>, after: Arena<T>, values: Seq<T>)
    requires
        before.wf(),
        after.wf(),
        after.layout() == pushed_all(before.layout(), values),
    ensures
        after@ == before@ + values,
        after.len() == before.len() + values.len(),
{
    lemma_pushed_all(before.layout(), values);
}

/// A handle that names a value keeps naming that value, in the same chunk
/// and slot, however many values are stored afterwards and however many
/// chunks are created for them.
pub proof fn law_handles_stable<T>(
    before: Arena<T>,
    after: Arena<T>,
    values: Seq<T>,
    handle: Handle,
)
    requires
        before.wf(),
        before.holds(handle),
        after.layout() == pushed_all(before.layout(), values),
    ensures
        after.holds(handle),
        handle.value_in(after.layout()) == handle.value_in(before.layout()),
        after@[handle.index() as int] == before@[handle.index() as int],
{
    lemma_stable_in_chunks(before.layout(), values, handle);
    lemma_pushed_all(before.layout(), values);
    lemma_packed_index(before.layout(), handle.chunk as int, handle.slot as int);
    lemma_packed_index(after.layout(), handle.chunk as int, handle.slot as int);
}

/// Chunks only grow at the end: storing values removes no chunk, leaves
/// every chunk but the last as it was, and only appends to the last.
pub proof fn law_chunks_only_grow<T>(before: Arena<T>, after: Arena<T>, values: Seq<T>)
    requires
        before.wf(),
        after.layout() == pushed_all(before.layout(), values),
    ensures
        before.layout().len() <= after.layout().len(),
        forall|i: int|
            0 <= i < before.layout().len() - 1 ==> #[trigger] after.layout()[i]
                == before.layout()[i],
        before.layout().len() > 0 ==> before.layout().last().is_prefix_of(
            after.layout()[before.layout().len() - 1],
        ),
{
    let chunks = before.layout();
    lemma_chunks_grow(chunks, values);
}

/// The number of chunks is logarithmic in the number of values: the last
/// chunk was created because the chunks before it, which hold
/// `INITIAL_CHUNK_SIZE * (2^(n - 1) - 1)` values, were full.
pub proof fn law_chunk_count_logarithmic<T>(arena: Arena<T>)
    requires
        arena.wf(),
        arena@.len() > 0,
    ensures
        arena.layout().len() == chunk_of((arena@.len() - 1) as nat) + 1,
        INITIAL_CHUNK_SIZE * pow2((arena.layout().len() - 1) as nat) < arena@.len()
            + INITIAL_CHUNK_SIZE,
{
    let chunks = arena.layout();
    let last = (chunks.len() - 1) as nat;
    lemma_packed_len(chunks);
    lemma_chunk_of_unique((arena@.len() - 1) as nat, last);
    lemma_capacity_closed_form(last);
    lemma_start_plus_initial(last);
}

/// An arena is full when every chunk whose capacity fits in `usize` is full:
/// these are the chunks with an index below `usize::BITS - 3`, and the next
/// chunk would have `usize::MAX + 1` slots.
pub proof fn law_full_arena_fills_every_chunk()
    ensures
        max_values() == chunk_start((usize::BITS - 3) as nat),
        chunk_capacity((usize::BITS - 3) as nat) == usize::MAX + 1,
{
    let last = (usize::BITS - 3) as nat;
    lemma_capacity_closed_form(last);
    lemma_start_plus_initial(last);
    unsigned_int_max_values();
    lemma2_to64();
    lemma_pow2_adds(3, last);
}

/// Every stored value has its own slot: the value with allocation number
/// `index` is named by one handle of the arena, whose chunk is
/// `chunk_of(index)`, and by no other.
pub proof fn law_one_slot_per_value<T>(arena: Arena<T>, index: nat) -> (handle: Handle)
    requires
        arena.wf(),
        index < arena@.len(),
    ensures
        arena.holds(handle),
        handle.index() == index,
        handle.chunk == chunk_of(index),
        handle.value_in(arena.layout()) == arena@[index as int],
        forall|other: Handle| #[trigger]
            arena.holds(other) && other.index() == index ==> other == handle,
{
    let chunks = arena.layout();
    let chunk = chunk_of(index);
    lemma_chunk_of(index);
    lemma_packed_len(chunks);
    if chunk >= chunks.len() {
        if chunk > chunks.len() {
            lemma_chunks_ordered(chunks.len(), chunk);
        }
        assert(false);
    }
    lemma_start_at_least_linear(chunk);
    let slot = (index - chunk_start(chunk)) as nat;
    let handle = Handle { chunk: chunk as usize, slot: slot as usize };
    lemma_packed_index(chunks, chunk as int, slot as int);
    assert forall|other: Handle| #[trigger]
        arena.holds(other) && other.index() == index implies other == handle by {
        lemma_handle_spans(chunks, other);
        lemma_chunk_of_unique(index, other.chunk as nat);
    }
    handle
}

/// A valid handle's allocation number lies among the slots of its chunk.
proof fn lemma_handle_spans<T>(chunks: Seq<Seq<T>>, handle: Handle)
    requires
        packed(chunks),
        handle.valid_in(chunks),
    ensures
        chunk_spans(handle.chunk as nat, handle.index()),
{
    assert(chunks[handle.chunk as int].len() <= chunk_capacity(handle.chunk as nat));
}

/// Storing one value keeps every valid handle valid and its value in place.
proof fn lemma_stable_in_pushed<T>(chunks: Seq<Seq<T>>, value: T, handle: Handle)
    requires
        handle.valid_in(chunks),
    ensures
        handle.valid_in(pushed(chunks, value)),
        handle.value_in(pushed(chunks, value)) == handle.value_in(chunks),
{
}

/// Storing a sequence of values keeps every valid handle valid and its value
/// in place.
proof fn lemma_stable_in_chunks<T>(chunks: Seq<Seq<T>>, values: Seq<T>, handle: Handle)
    requires
        handle.valid_in(chunks),
    ensures
        handle.valid_in(pushed_all(chunks, values)),
        handle.value_in(pushed_all(chunks, values)) == handle.value_in(chunks),
    decreases values.len(),
{
    if values.len() > 0 {
        lemma_stable_in_chunks(chunks, values.drop_last(), handle);
        lemma_stable_in_pushed(pushed_all(chunks, values.drop_last()), values.last(), handle);
    }
}

/// Storing a sequence of values removes no chunk, leaves every chunk but the
/// last as it was, and only appends to the last.
proof fn lemma_chunks_grow<T>(chunks: Seq<Seq<T>>, values: Seq<T>)
    ensures
        chunks.len() <= pushed_all(chunks, values).len(),
        forall|i: int|
            0 <= i < chunks.len() - 1 ==> #[trigger] pushed_all(chunks, values)[i] == chunks[i],
        chunks.len() > 0 ==> chunks.last().is_prefix_of(
            pushed_all(chunks, values)[chunks.len() - 1],
        ),
    decreases values.len(),
{
    if values.len() > 0 {
        lemma_chunks_grow(chunks, values.drop_last());
    }
}

} // verus!
