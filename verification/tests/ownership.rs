use chunk_arena::arena::Arena;
use std::cell::Cell;
use std::rc::Rc;

/// Adds one to a shared counter when it is dropped.
struct Counted {
    drops: Rc<Cell<usize>>,
}

impl Drop for Counted {
    fn drop(&mut self) {
        self.drops.set(self.drops.get() + 1);
    }
}

fn drops_after_storing(n: usize) -> usize {
    let drops = Rc::new(Cell::new(0));
    {
        let mut arena = Arena::<Counted>::new();
        for _ in 0..n {
            arena.allocate(Counted { drops: drops.clone() });
        }
        assert_eq!(arena.len(), n);
        assert_eq!(drops.get(), 0, "no value is dropped while the arena lives");
    }
    drops.get()
}

#[test]
fn every_value_is_dropped_once() {
    for n in [0usize, 1, 8, 9, 24, 25, 50, 57, 200] {
        assert_eq!(drops_after_storing(n), n);
    }
}

#[test]
fn empty_arena_drops_nothing() {
    assert_eq!(drops_after_storing(0), 0);
}

#[test]
fn alloc_with_calls_the_producer_once() {
    let calls = Cell::new(0usize);
    let mut arena = Arena::<String>::new();
    let handle = arena.alloc_with(|| {
        calls.set(calls.get() + 1);
        String::from("made")
    });
    assert_eq!(calls.get(), 1);
    assert_eq!(arena.get(handle).unwrap(), "made");
    assert_eq!(arena.len(), 1);
}

#[test]
fn alloc_with_stores_like_allocate() {
    let mut plain = Arena::<u32>::new();
    let mut produced = Arena::<u32>::new();
    for i in 0..40u32 {
        let a = plain.allocate(i * 3);
        let b = produced.alloc_with(move || i * 3);
        assert_eq!(a, b);
        assert_eq!(plain.get(a), produced.get(b));
    }
    assert_eq!(plain.len(), produced.len());
    assert_eq!(plain.capacity(), produced.capacity());
}

#[test]
fn alloc_with_takes_a_moved_value() {
    let mut arena = Arena::<Vec<String>>::new();
    let words = vec![String::from("a"), String::from("b")];
    let handle = arena.alloc_with(move || words);
    assert_eq!(arena.get(handle).unwrap().len(), 2);
}
