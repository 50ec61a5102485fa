//! The contents of an arena as a sequence of chunks, each a sequence of
//! values, and what storing a value does to it.
//!
//! The values of an arena in allocation order are the concatenation of its
//! chunks, `chunks.flatten()`.

use crate::layout::{chunk_capacity, chunk_start, lemma_capacity_at_least_initial};
use vstd::prelude::*;

verus! {

/// Whether `chunks` is filled the way an arena fills its chunks: no chunk is
/// empty or holds more than its capacity, and every chunk but the last is full.
pub open spec fn packed<T>(chunks: Seq<Seq<T>>) -> bool {
    forall|i: int|
        0 <= i < chunks.len() ==> {
            &&& 1 <= (#[trigger] chunks[i]).len() <= chunk_capacity(i as nat)
            &&& (i + 1 < chunks.len() ==> chunks[i].len() == chunk_capacity(i as nat))
        }
}

/// Whether the next value needs a new chunk: there is no chunk yet, or the
/// last one is full.
pub open spec fn needs_chunk<T>(chunks: Seq<Seq<T>>) -> bool {
    chunks.len() == 0 || chunks.last().len() == chunk_capacity((chunks.len() - 1) as nat)
}

/// The chunks after `value` has been stored: it starts a new chunk where one
/// is needed and else takes the next free slot of the last chunk. No other
/// slot changes.
pub open spec fn pushed<T>(chunks: Seq<Seq<T>>, value: T) -> Seq<Seq<T>> {
    if needs_chunk(chunks) {
        chunks.push(seq![value])
    } else {
        chunks.update(chunks.len() - 1, chunks.last().push(value))
    }
}

/// The chunks after `values` have been stored one after the other.
pub open spec fn pushed_all<T>(chunks: Seq<Seq<T>>, values: Seq<T>) -> Seq<Seq<T>>
    decreases values.len(),
{
    if values.len() == 0 {
        chunks
    } else {
        pushed(pushed_all(chunks, values.drop_last()), values.last())
    }
}

/// The chunks after the value in one filled slot has been replaced by `value`.
pub open spec fn replaced<T>(chunks: Seq<Seq<T>>, chunk: int, slot: int, value: T) -> Seq<Seq<T>>
    recommends
        0 <= chunk < chunks.len(),
        0 <= slot < chunks[chunk].len(),
{
    chunks.update(chunk, chunks[chunk].update(slot, value))
}

/// Number of values in packed chunks, by the index and the length of the last
/// chunk alone.
pub open spec fn stored<T>(chunks: Seq<Seq<T>>) -> nat {
    if chunks.len() == 0 {
        0
    } else {
        chunk_start((chunks.len() - 1) as nat) + chunks.last().len()
    }
}

/// Packed chunks stay packed when the last chunk is taken away.
pub proof fn lemma_packed_drop_last<T>(chunks: Seq<Seq<T>>)
    requires
        packed(chunks),
        chunks.len() > 0,
    ensures
        packed(chunks.drop_last()),
        stored(chunks.drop_last()) == chunk_start((chunks.len() - 1) as nat),
        chunks.flatten() == chunks.drop_last().flatten() + chunks.last(),
{
    let front = chunks.drop_last();
    assert forall|i: int| 0 <= i < front.len() implies {
        &&& 1 <= (#[trigger] front[i]).len() <= chunk_capacity(i as nat)
        &&& (i + 1 < front.len() ==> front[i].len() == chunk_capacity(i as nat))
    } by {
        assert(front[i] == chunks[i]);
    }
    if front.len() > 0 {
        assert(front.last() == chunks[chunks.len() - 2]);
    }
    assert(chunks == front.push(chunks.last()));
    front.lemma_flatten_push(chunks.last());
}

/// The number of values in packed chunks is `stored(chunks)`.
pub proof fn lemma_packed_len<T>(chunks: Seq<Seq<T>>)
    requires
        packed(chunks),
    ensures
        chunks.flatten().len() == stored(chunks),
    decreases chunks.len(),
{
    if chunks.len() > 0 {
        lemma_packed_drop_last(chunks);
        lemma_packed_len(chunks.drop_last());
    }
}

/// In packed chunks the value in slot `slot` of chunk `chunk` is the value
/// with allocation number `chunk_start(chunk) + slot`.
pub proof fn lemma_packed_index<T>(chunks: Seq<Seq<T>>, chunk: int, slot: int)
    requires
        packed(chunks),
        0 <= chunk < chunks.len(),
        0 <= slot < chunks[chunk].len(),
    ensures
        chunk_start(chunk as nat) + slot < chunks.flatten().len(),
        chunks.flatten()[chunk_start(chunk as nat) + slot] == chunks[chunk][slot],
    decreases chunks.len(),
{
    let front = chunks.drop_last();
    lemma_packed_drop_last(chunks);
    lemma_packed_len(front);
    if chunk < chunks.len() - 1 {
        assert(front[chunk] == chunks[chunk]);
        lemma_packed_index(front, chunk, slot);
    }
}

/// Replacing the value in a slot keeps the chunks packed and replaces the
/// value with the slot's allocation number, and no other.
pub proof fn lemma_replaced<T>(chunks: Seq<Seq<T>>, chunk: int, slot: int, value: T)
    requires
        packed(chunks),
        0 <= chunk < chunks.len(),
        0 <= slot < chunks[chunk].len(),
    ensures
        packed(replaced(chunks, chunk, slot, value)),
        chunk_start(chunk as nat) + slot < chunks.flatten().len(),
        replaced(chunks, chunk, slot, value).flatten() == chunks.flatten().update(
            chunk_start(chunk as nat) + slot,
            value,
        ),
    decreases chunks.len(),
{
    let after = replaced(chunks, chunk, slot, value);
    let front = chunks.drop_last();
    lemma_packed_index(chunks, chunk, slot);
    lemma_packed_drop_last(chunks);
    lemma_packed_len(front);
    assert(packed(after)) by {
        assert forall|i: int| 0 <= i < after.len() implies {
            &&& 1 <= (#[trigger] after[i]).len() <= chunk_capacity(i as nat)
            &&& (i + 1 < after.len() ==> after[i].len() == chunk_capacity(i as nat))
        } by {
            assert(after[i].len() == chunks[i].len());
        }
    }
    lemma_packed_drop_last(after);
    if chunk == chunks.len() - 1 {
        assert(after.drop_last() == front);
    } else {
        assert(front[chunk] == chunks[chunk]);
        assert(after.drop_last() == replaced(front, chunk, slot, value));
        assert(after.last() == chunks.last());
        lemma_replaced(front, chunk, slot, value);
    }
    assert(after.flatten() =~= chunks.flatten().update(chunk_start(chunk as nat) + slot, value));
}

/// Storing a value keeps the chunks packed and appends the value to the
/// values in allocation order.
pub proof fn lemma_pushed<T>(chunks: Seq<Seq<T>>, value: T)
    requires
        packed(chunks),
    ensures
        packed(pushed(chunks, value)),
        pushed(chunks, value).flatten() == chunks.flatten().push(value),
{
    let after = pushed(chunks, value);
    if needs_chunk(chunks) {
        lemma_capacity_at_least_initial(chunks.len());
        chunks.lemma_flatten_push(seq![value]);
    } else {
        lemma_packed_drop_last(chunks);
        assert(after == chunks.drop_last().push(chunks.last().push(value)));
        chunks.drop_last().lemma_flatten_push(chunks.last().push(value));
    }
    assert(after.flatten() =~= chunks.flatten().push(value));
}

/// Storing a sequence of values keeps the chunks packed and appends the
/// sequence to the values in allocation order.
pub proof fn lemma_pushed_all<T>(chunks: Seq<Seq<T>>, values: Seq<T>)
    requires
        packed(chunks),
    ensures
        packed(pushed_all(chunks, values)),
        pushed_all(chunks, values).flatten() == chunks.flatten() + values,
    decreases values.len(),
{
    if values.len() > 0 {
        lemma_pushed_all(chunks, values.drop_last());
        lemma_pushed(pushed_all(chunks, values.drop_last()), values.last());
        assert(values == values.drop_last().push(values.last()));
    }
    assert(pushed_all(chunks, values).flatten() =~= chunks.flatten() + values);
}

} // verus!
