//! Chunk geometry: how many slots each chunk has and where it starts.
//!
//! An arena numbers its chunks from zero in the order in which it creates
//! them. The functions here depend on a chunk's index alone, so the place of
//! the `k`-th value that an arena stores is known before the arena exists.

use vstd::arithmetic::power2::{
    lemma2_to64, lemma_pow2_adds, lemma_pow2_strictly_increases, lemma_pow2_unfold, pow2,
};
use vstd::layout::unsigned_int_max_values;
use vstd::prelude::*;

verus! {

/// Number of slots in the first chunk of an arena.
pub const INITIAL_CHUNK_SIZE: usize = 8;

/// Capacity of the chunk with the given index: the first chunk has
/// `INITIAL_CHUNK_SIZE` slots and every later chunk twice as many as the one
/// before it.
pub open spec fn chunk_capacity(index: nat) -> nat
    decreases index,
{
    if index == 0 {
        INITIAL_CHUNK_SIZE as nat
    } else {
        2 * chunk_capacity((index - 1) as nat)
    }
}

/// Number of slots in all chunks before the chunk with the given index, which
/// is the allocation number of that chunk's first slot.
pub open spec fn chunk_start(index: nat) -> nat
    decreases index,
{
    if index == 0 {
        0
    } else {
        chunk_start((index - 1) as nat) + chunk_capacity((index - 1) as nat)
    }
}

/// Whether the slot with allocation number `index` lies in the chunk with
/// index `chunk`.
pub open spec fn chunk_spans(chunk: nat, index: nat) -> bool {
    chunk_start(chunk) <= index < chunk_start(chunk + 1)
}

/// Index of the chunk that holds the value with the given allocation number.
pub open spec fn chunk_of(index: nat) -> nat {
    choose|chunk: nat| chunk_spans(chunk, index)
}

/// The largest number of values that an arena can hold on this machine: the
/// chunk that would take the next value needs more than `usize::MAX` slots.
pub open spec fn max_values() -> nat {
    (usize::MAX - (INITIAL_CHUNK_SIZE - 1)) as nat
}

/// The chunks before a chunk hold `INITIAL_CHUNK_SIZE` slots fewer than the
/// chunk itself.
pub proof fn lemma_start_plus_initial(index: nat)
    ensures
        chunk_start(index) + INITIAL_CHUNK_SIZE == chunk_capacity(index),
    decreases index,
{
    if index > 0 {
        lemma_start_plus_initial((index - 1) as nat);
    }
}

/// Closed form of the capacities: `INITIAL_CHUNK_SIZE` times a power of two.
pub proof fn lemma_capacity_closed_form(index: nat)
    ensures
        chunk_capacity(index) == INITIAL_CHUNK_SIZE * pow2(index),
        chunk_start(index) == INITIAL_CHUNK_SIZE * (pow2(index) - 1),
    decreases index,
{
    lemma_start_plus_initial(index);
    if index == 0 {
        lemma2_to64();
    } else {
        lemma_capacity_closed_form((index - 1) as nat);
        lemma_pow2_unfold(index);
    }
}

/// Every chunk has at least `INITIAL_CHUNK_SIZE` slots.
pub proof fn lemma_capacity_at_least_initial(index: nat)
    ensures
        chunk_capacity(index) >= INITIAL_CHUNK_SIZE,
    decreases index,
{
    if index > 0 {
        lemma_capacity_at_least_initial((index - 1) as nat);
    }
}

/// Later chunks are larger and start later; the slots of two different chunks
/// never overlap.
pub proof fn lemma_chunks_ordered(first: nat, second: nat)
    requires
        first < second,
    ensures
        chunk_capacity(first) < chunk_capacity(second),
        chunk_start(first) + chunk_capacity(first) <= chunk_start(second),
    decreases second,
{
    lemma_capacity_at_least_initial((second - 1) as nat);
    if first + 1 < second {
        lemma_chunks_ordered(first, (second - 1) as nat);
    }
}

/// A chunk has at least `INITIAL_CHUNK_SIZE` slots before it for every chunk
/// before it.
pub proof fn lemma_start_at_least_linear(index: nat)
    ensures
        chunk_start(index) >= INITIAL_CHUNK_SIZE * index,
    decreases index,
{
    if index > 0 {
        lemma_start_at_least_linear((index - 1) as nat);
        lemma_capacity_at_least_initial((index - 1) as nat);
    }
}

/// Some chunk holds the value with the given allocation number.
proof fn lemma_holding_chunk_exists(index: nat) -> (chunk: nat)
    ensures
        chunk_spans(chunk, index),
    decreases index,
{
    if index == 0 {
        0
    } else {
        let before = lemma_holding_chunk_exists((index - 1) as nat);
        if index < chunk_start(before + 1) {
            before
        } else {
            lemma_capacity_at_least_initial(before + 1);
            before + 1
        }
    }
}

/// `chunk_of(index)` is a chunk whose slots include number `index`.
pub proof fn lemma_chunk_of(index: nat)
    ensures
        chunk_spans(chunk_of(index), index),
{
    let chunk = lemma_holding_chunk_exists(index);
    assert(chunk_spans(chunk, index));
}

/// No other chunk's slots include number `index`.
pub proof fn lemma_chunk_of_unique(index: nat, chunk: nat)
    requires
        chunk_spans(chunk, index),
    ensures
        chunk_of(index) == chunk,
{
    lemma_chunk_of(index);
    let other = chunk_of(index);
    if other < chunk {
        lemma_chunks_ordered(other, chunk);
    } else if chunk < other {
        lemma_chunks_ordered(chunk, other);
    }
}

/// If a chunk's capacity fits in `usize`, so does the number of slots of all
/// chunks up to and including it, with room for `INITIAL_CHUNK_SIZE` more.
pub proof fn lemma_full_chunks_fit(index: nat)
    requires
        chunk_capacity(index) <= usize::MAX,
    ensures
        chunk_start(index + 1) <= max_values(),
{
    let bits = usize::BITS as nat;
    lemma_capacity_closed_form(index);
    lemma_start_plus_initial(index + 1);
    unsigned_int_max_values();
    lemma2_to64();
    // The capacity is 2^(index + 3), and a power of two below 2^bits is at most half of it.
    assert(chunk_capacity(index) == pow2(index + 3)) by {
        lemma_pow2_adds(3, index);
    }
    if index + 3 >= bits {
        if index + 3 > bits {
            lemma_pow2_strictly_increases(bits, index + 3);
        }
        assert(false);
    }
    lemma_pow2_unfold(index + 4);
    if index + 4 < bits {
        lemma_pow2_strictly_increases(index + 4, bits);
    }
    assert(chunk_capacity(index + 1) == 2 * chunk_capacity(index));
}

} // verus!
