use spinlock::Spinlock;
use std::cell::Cell;
use std::sync::atomic::AtomicU64;
use std::sync::atomic::Ordering;

fn increment(counter: &Spinlock<Cell<u64>>) {
    let guard = counter.lock(1).unwrap();
    let seen: u64 = guard.get();
    guard.set(seen + 1);
}

#[test]
fn guard_reads_what_the_lock_was_made_with() {
    let lock = Spinlock::new(1234u64);
    let guard = lock.try_lock().unwrap();
    assert_eq!(*guard, 1234);
}

#[test]
fn guard_reads_a_structured_payload() {
    let lock = Spinlock::new((String::from("left"), vec![1u8, 2, 3]));
    let guard = lock.try_lock().unwrap();
    assert_eq!(guard.0, "left");
    assert_eq!(guard.1.len(), 3);
    assert_eq!(guard.1[2], 3);
}

#[test]
fn every_guard_reads_the_same_payload() {
    let lock = Spinlock::new(5u8);
    for _ in 0..10 {
        let guard = lock.try_lock().unwrap();
        assert_eq!(*guard, 5);
    }
}

#[test]
fn value_written_under_a_guard_is_read_under_the_next() {
    let lock = Spinlock::new(Cell::new(10i32));
    {
        let writer = lock.try_lock().unwrap();
        writer.set(-3);
    }
    let reader = lock.try_lock().unwrap();
    assert_eq!(reader.get(), -3);
}

#[test]
fn last_value_written_under_a_guard_wins() {
    let lock = Spinlock::new(Cell::new(0u8));
    {
        let writer = lock.try_lock().unwrap();
        writer.set(1);
        writer.set(2);
        assert_eq!(writer.get(), 2);
    }
    {
        let writer = lock.lock(2).unwrap();
        assert_eq!(writer.get(), 2);
        writer.set(9);
    }
    assert_eq!(lock.try_lock().unwrap().get(), 9);
}

#[test]
fn increments_by_three_callers_add_up() {
    let counter = Spinlock::new(Cell::new(0u64));
    let each: u64 = 500;
    for _ in 0..each {
        increment(&counter);
        increment(&counter);
        increment(&counter);
    }
    assert_eq!(counter.try_lock().unwrap().get(), 3 * each);
}

#[test]
fn increments_start_from_the_first_value() {
    let counter = Spinlock::new(Cell::new(40u64));
    increment(&counter);
    increment(&counter);
    assert_eq!(counter.try_lock().unwrap().get(), 42);
}

#[test]
fn refused_caller_changes_nothing() {
    let counter = Spinlock::new(Cell::new(0u64));
    let holder = counter.try_lock().unwrap();
    holder.set(1);
    match counter.try_lock() {
        Some(intruder) => intruder.set(100),
        None => {}
    }
    assert_eq!(holder.get(), 1);
}

#[test]
fn atomic_payload_counts_under_the_lock() {
    let counter = Spinlock::new(AtomicU64::new(0));
    for _ in 0..64 {
        let guard = counter.try_lock().unwrap();
        let seen: u64 = guard.load(Ordering::Relaxed);
        guard.store(seen + 1, Ordering::Relaxed);
    }
    assert_eq!(counter.try_lock().unwrap().load(Ordering::Relaxed), 64);
}

fn shareable<S: Sync>(_: &S) -> bool {
    true
}

fn transferable<S: Send>(_: S) -> bool {
    true
}

#[test]
fn lock_of_a_shareable_payload_is_shareable() {
    let lock = Spinlock::new(AtomicU64::new(3));
    assert!(shareable(&lock));
    assert!(shareable(&lock.try_lock()));
    assert_eq!(lock.try_lock().unwrap().load(Ordering::Relaxed), 3);
}

#[test]
fn lock_of_a_transferable_payload_is_transferable() {
    let lock = Spinlock::new(Cell::new(8u8));
    lock.try_lock().unwrap().set(9);
    let moved = lock;
    assert_eq!(moved.try_lock().unwrap().get(), 9);
    assert!(transferable(moved));
}
