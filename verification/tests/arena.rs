use chunk_arena::arena::Arena;
use std::sync::atomic::{AtomicUsize, Ordering};

#[test]
fn test_basic_alloc() {
    let mut arena = Arena::<i32>::new();
    let a = arena.allocate(42);
    assert_eq!(*arena.get(a).unwrap(), 42);
    assert_eq!(arena.len(), 1);
}

#[test]
fn test_references_stable_across_growth() {
    let mut arena = Arena::<String>::new();
    let first = arena.allocate("first".into());

    // Force multiple chunk growths
    for i in 0..200 {
        arena.allocate(format!("item-{i}"));
    }

    // The first handle must still be valid
    assert_eq!(arena.get(first).unwrap(), "first");
    assert_eq!(arena.len(), 201);
}

#[test]
fn test_alloc_with() {
    let mut arena = Arena::<Vec<u8>>::new();
    let v = arena.alloc_with(|| vec![1, 2, 3]);
    assert_eq!(arena.get(v).unwrap(), &[1, 2, 3]);
}

#[test]
fn test_empty() {
    let mut arena = Arena::<()>::new();
    assert!(arena.is_empty());
    arena.allocate(());
    assert!(!arena.is_empty());
}

#[test]
fn test_drop_runs() {
    static COUNT: AtomicUsize = AtomicUsize::new(0);

    struct Loud;
    impl Drop for Loud {
        fn drop(&mut self) {
            COUNT.fetch_add(1, Ordering::SeqCst);
        }
    }

    COUNT.store(0, Ordering::SeqCst);
    {
        let mut arena = Arena::<Loud>::new();
        for _ in 0..50 {
            arena.allocate(Loud);
        }
    }
    assert_eq!(COUNT.load(Ordering::SeqCst), 50);
}
