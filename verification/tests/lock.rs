use spinlock::Spinlock;
use spinlock::SpinlockGuard;

fn take_and_leave_early(lock: &Spinlock<u32>, leave_early: bool) -> u32 {
    let guard = lock.try_lock().unwrap();
    if leave_early {
        return *guard;
    }
    *guard + 1
}

fn holds<'a>(guard: &Option<SpinlockGuard<'a, u32>>) -> bool {
    guard.is_some()
}

#[test]
fn new_lock_is_taken_at_the_first_try() {
    let lock = Spinlock::new(7u32);
    assert!(lock.try_lock().is_some());
}

#[test]
fn new_lock_is_taken_at_the_first_of_many_attempts() {
    let lock = Spinlock::new(7u32);
    assert!(lock.lock(1).is_some());
}

#[test]
fn try_lock_fails_while_a_guard_lives() {
    let lock = Spinlock::new(0u32);
    let first = lock.try_lock();
    assert!(holds(&first));
    assert!(lock.try_lock().is_none());
    assert!(lock.try_lock().is_none());
    drop(first);
}

#[test]
fn try_lock_succeeds_once_the_guard_is_dropped() {
    let lock = Spinlock::new(0u32);
    let first = lock.try_lock();
    assert!(lock.try_lock().is_none());
    drop(first);
    let second = lock.try_lock();
    assert!(second.is_some());
}

#[test]
fn failed_try_lock_does_not_release_the_holder() {
    let lock = Spinlock::new(0u32);
    let first = lock.try_lock();
    let refused = lock.try_lock();
    assert!(refused.is_none());
    drop(refused);
    assert!(lock.try_lock().is_none());
    drop(first);
    assert!(lock.try_lock().is_some());
}

#[test]
fn guard_leaving_scope_releases() {
    let lock = Spinlock::new(1u32);
    {
        let _guard = lock.try_lock().unwrap();
        assert!(lock.try_lock().is_none());
    }
    assert!(lock.try_lock().is_some());
}

#[test]
fn early_return_releases() {
    let lock = Spinlock::new(41u32);
    assert_eq!(take_and_leave_early(&lock, true), 41);
    assert!(lock.lock(1).is_some());
    assert_eq!(take_and_leave_early(&lock, false), 42);
    assert!(lock.lock(1).is_some());
}

#[test]
fn unused_guard_releases_at_once() {
    let lock = Spinlock::new(0u32);
    let _ = lock.try_lock();
    assert!(lock.try_lock().is_some());
}

#[test]
fn lock_no_attempts_takes_nothing() {
    let lock = Spinlock::new(0u32);
    assert!(lock.lock(0).is_none());
    assert!(lock.try_lock().is_some());
}

#[test]
fn lock_gives_up_on_a_held_lock() {
    let lock = Spinlock::new(0u32);
    let holder = lock.lock(3);
    assert!(holder.is_some());
    assert!(lock.lock(1).is_none());
    assert!(lock.lock(1000).is_none());
    drop(holder);
    assert!(lock.lock(1000).is_some());
}

#[test]
fn holder_waiting_for_its_own_lock_is_refused() {
    let lock = Spinlock::new(0u32);
    let held = lock.try_lock().unwrap();
    assert!(lock.lock(64).is_none());
    assert_eq!(*held, 0);
    drop(held);
    assert!(lock.lock(64).is_some());
}

#[test]
fn lock_guard_excludes_try_lock() {
    let lock = Spinlock::new(0u32);
    let holder = lock.lock(5);
    assert!(lock.try_lock().is_none());
    drop(holder);
    let holder = lock.try_lock();
    assert!(lock.lock(5).is_none());
    drop(holder);
}

#[test]
fn at_most_one_guard_at_any_time() {
    let lock = Spinlock::new(0u32);
    let mut live: u32 = 0;
    let mut most: u32 = 0;
    for round in 0..100u32 {
        let outer = lock.try_lock();
        if outer.is_some() {
            live += 1;
        }
        let inner = if round % 2 == 0 { lock.try_lock() } else { lock.lock(4) };
        if inner.is_some() {
            live += 1;
        }
        if live > most {
            most = live;
        }
        if inner.is_some() {
            live -= 1;
        }
        drop(inner);
        if outer.is_some() {
            live -= 1;
        }
        drop(outer);
    }
    assert_eq!(most, 1);
    assert_eq!(live, 0);
}

#[test]
fn locks_do_not_share_their_flags() {
    let left = Spinlock::new(1u32);
    let right = Spinlock::new(2u32);
    let held = left.try_lock();
    assert!(held.is_some());
    assert!(right.try_lock().is_some());
    assert!(left.try_lock().is_none());
}

#[test]
fn lock_can_be_taken_over_and_over() {
    let lock = Spinlock::new(0u32);
    for _ in 0..1000 {
        let guard = lock.try_lock();
        assert!(guard.is_some());
        assert!(lock.try_lock().is_none());
    }
}
