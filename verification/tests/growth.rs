use chunk_arena::arena::Arena;
use chunk_arena::handle::Handle;
use chunk_arena::layout::INITIAL_CHUNK_SIZE;

fn filled(n: usize) -> (Arena<usize>, Vec<Handle>) {
    let mut arena = Arena::new();
    let mut handles = Vec::new();
    for i in 0..n {
        handles.push(arena.allocate(i));
    }
    (arena, handles)
}

#[test]
fn new_arena_has_no_chunk() {
    let arena = Arena::<u64>::new();
    assert_eq!(arena.len(), 0);
    assert!(arena.is_empty());
    assert_eq!(arena.chunk_count(), 0);
    assert_eq!(arena.capacity(), 0);
    assert!(!arena.is_full());
}

#[test]
fn first_chunk_has_eight_slots() {
    assert_eq!(INITIAL_CHUNK_SIZE, 8);
    let (arena, _) = filled(1);
    assert_eq!(arena.chunk_count(), 1);
    assert_eq!(arena.capacity(), 8);
}

#[test]
fn len_counts_every_allocation() {
    for n in [0usize, 1, 7, 8, 9, 23, 24, 25, 55, 56, 57, 120, 121, 1000] {
        let (arena, handles) = filled(n);
        assert_eq!(arena.len(), n);
        assert_eq!(handles.len(), n);
        assert_eq!(arena.is_empty(), n == 0);
    }
}

#[test]
fn capacities_double() {
    // Chunks of 8, 16, 32 and 64 slots: a chunk is added when 8, 24 and 56 values are stored.
    let expected = [
        (0usize, 0usize, 0usize),
        (1, 1, 8),
        (8, 1, 8),
        (9, 2, 24),
        (24, 2, 24),
        (25, 3, 56),
        (56, 3, 56),
        (57, 4, 120),
        (120, 4, 120),
        (121, 5, 248),
    ];
    for (n, chunks, capacity) in expected {
        let (arena, _) = filled(n);
        assert_eq!(arena.chunk_count(), chunks, "chunks after {n} values");
        assert_eq!(arena.capacity(), capacity, "capacity after {n} values");
    }
}

#[test]
fn handles_name_chunk_and_slot_in_allocation_order() {
    let (_, handles) = filled(60);
    assert_eq!(handles[0], Handle { chunk: 0, slot: 0 });
    assert_eq!(handles[7], Handle { chunk: 0, slot: 7 });
    assert_eq!(handles[8], Handle { chunk: 1, slot: 0 });
    assert_eq!(handles[23], Handle { chunk: 1, slot: 15 });
    assert_eq!(handles[24], Handle { chunk: 2, slot: 0 });
    assert_eq!(handles[55], Handle { chunk: 2, slot: 31 });
    assert_eq!(handles[56], Handle { chunk: 3, slot: 0 });
    assert_eq!(handles[59], Handle { chunk: 3, slot: 3 });
}

#[test]
fn handles_are_distinct() {
    let (_, handles) = filled(130);
    for i in 0..handles.len() {
        for j in 0..i {
            assert_ne!(handles[i], handles[j]);
        }
    }
}

#[test]
fn handles_survive_every_growth() {
    let mut arena = Arena::<String>::new();
    let mut handles = Vec::new();
    for i in 0..300 {
        handles.push(arena.allocate(format!("value-{i}")));
        // Every handle handed out so far still finds its value.
        if [1, 8, 9, 24, 25, 56, 57, 120, 121, 248, 249, 300].contains(&(i + 1)) {
            for (k, handle) in handles.iter().enumerate() {
                assert_eq!(arena.get(*handle).unwrap(), &format!("value-{k}"));
            }
        }
    }
    assert_eq!(arena.len(), 300);
}

#[test]
fn ten_integers_then_two_hundred_more() {
    let mut arena = Arena::<i32>::new();
    let mut handles = Vec::new();
    for i in 0..10 {
        handles.push(arena.allocate(i));
    }
    assert_eq!(arena.len(), 10);
    assert_eq!(arena.chunk_count(), 2);
    assert_eq!(arena.capacity(), 8 + 16);
    for i in 0..200 {
        arena.allocate(1000 + i);
    }
    assert_eq!(*arena.get(handles[0]).unwrap(), 0);
    assert_eq!(*arena.get(handles[9]).unwrap(), 9);
    assert_eq!(arena.len(), 210);
}

#[test]
fn empty_then_one_value() {
    let mut arena = Arena::<char>::new();
    assert!(arena.is_empty());
    arena.allocate('x');
    assert!(!arena.is_empty());
    assert_eq!(arena.len(), 1);
}

#[test]
fn get_refuses_handles_of_free_slots() {
    let (arena, handles) = filled(9);
    assert_eq!(handles[8], Handle { chunk: 1, slot: 0 });
    assert_eq!(arena.get(Handle { chunk: 1, slot: 1 }), None);
    assert_eq!(arena.get(Handle { chunk: 0, slot: 8 }), None);
    assert_eq!(arena.get(Handle { chunk: 2, slot: 0 }), None);
    assert_eq!(arena.get(Handle { chunk: usize::MAX, slot: usize::MAX }), None);
    let empty = Arena::<usize>::new();
    assert_eq!(empty.get(Handle { chunk: 0, slot: 0 }), None);
}

#[test]
fn get_mut_changes_one_slot() {
    let (mut arena, handles) = filled(30);
    *arena.get_mut(handles[12]).unwrap() = 777;
    for (k, handle) in handles.iter().enumerate() {
        let expected = if k == 12 { 777 } else { k };
        assert_eq!(*arena.get(*handle).unwrap(), expected);
    }
    assert_eq!(arena.len(), 30);
    assert_eq!(arena.chunk_count(), 3);
    assert!(arena.get_mut(Handle { chunk: 2, slot: 6 }).is_none());
    assert!(arena.get_mut(Handle { chunk: 3, slot: 0 }).is_none());
}
