//! The lock and its guard.
//!
//! A [`Spinlock`] owns a payload and a flag. Taking the lock is one
//! compare-and-set of the flag with acquire ordering; a [`SpinlockGuard`]
//! stands for having taken it, lends the payload out, and gives the lock back
//! with a store of release ordering when it is dropped.
//!
//! The guard lends the payload out shared. A payload that is to change under
//! the lock brings a cell of its own.
//!
//! A shared reference to a lock says nothing of its flag: other parties
//! change it between any two steps of this one. So the contracts here say
//! what holds whatever the flag held, and what a guard is once there is one.
//! What the flag does over time is the subject of [`crate::protocol`], which
//! follows the three calls that this module makes on it, and of
//! [`crate::laws`]. The contracts meet the protocol where they can: a new
//! lock is made with the protocol's first flag, and what a compare-and-set
//! reports here is what the protocol says that it reports.
//!
//! Nothing here fails but by returning `None`: making a lock, taking it,
//! waiting for it and giving it back do not unwind.

use crate::protocol::acquires;
use crate::protocol::exchange_outcome;
use crate::protocol::FREE;
use crate::protocol::HELD;
use core::ops::Deref;
use core::sync::atomic::AtomicBool;
use core::sync::atomic::Ordering;
use vstd::prelude::*;

verus! {

/// `core::hint::spin_loop`: tells the processor that the caller is polling.
/// The claim is that the call comes back: it does not panic.
#[verifier::external_body]
fn spin_hint()
    no_unwind
{
    core::hint::spin_loop();
}

/// What a flag held when `AtomicBool::new` made it. A flag is made once, so
/// this never changes, whatever the flag holds later.
pub uninterp spec fn made_with(flag: AtomicBool) -> bool;

/// `AtomicBool::new`. The claim is that the flag was made with `value`,
/// and that the call comes back: it does not panic.
#[verifier::external_body]
fn new_flag(value: bool) -> (r: AtomicBool)
    ensures
        made_with(r) == value,
    no_unwind
{
    AtomicBool::new(value)
}

/// `AtomicBool::compare_exchange`, with acquire ordering whether it writes
/// or not. It writes `new` where the flag holds `current`, and nowhere
/// else. The claim is what it reports: `Ok` with the value that the flag
/// held, which is `current`, where it wrote; `Err` with the value that the
/// flag held, which is not `current`, where it did not. Which of the two
/// comes back is not claimed: that depends on what the flag held.
///
/// The call itself takes any two values. A compare-and-set that writes
/// what it compares with changes nothing, so callers here hand two that
/// differ. It comes back whatever the flag held: with these two orderings
/// it does not panic.
#[verifier::external_body]
fn compare_and_set(flag: &AtomicBool, current: bool, new: bool) -> (r: Result<bool, bool>)
    requires
        new != current,
    ensures
        r matches Ok(v) ==> v == current,
        r matches Err(v) ==> v != current,
    no_unwind
{
    flag.compare_exchange(current, new, Ordering::Acquire, Ordering::Acquire)
}

/// `AtomicBool::store` with release ordering. The claim is that the call
/// comes back: with this ordering the store does not panic.
#[verifier::external_body]
fn store_release(flag: &AtomicBool, value: bool)
    opens_invariants none
    no_unwind
{
    flag.store(value, Ordering::Release);
}

/// A payload behind a busy-wait lock.
pub struct Spinlock<T> {
    lock: AtomicBool,
    data: T,
}

/// Proof of having taken a [`Spinlock`]. Dropping it gives the lock back.
#[must_use]
pub struct SpinlockGuard<'a, T> {
    lock: &'a Spinlock<T>,
}

impl<T> View for Spinlock<T> {
    type V = T;

    /// The payload.
    closed spec fn view(&self) -> T {
        self.data
    }
}

impl<'a, T> View for SpinlockGuard<'a, T> {
    type V = T;

    /// The payload of the lock that the guard was taken from.
    closed spec fn view(&self) -> T {
        self.lock.data
    }
}

impl<T> Spinlock<T> {
    /// What the flag of this lock held when the lock was made.
    pub closed spec fn first_flag(&self) -> bool {
        made_with(self.lock)
    }

    /// Whether the lock was made unlocked.
    pub open spec fn starts_free(&self) -> bool {
        self.first_flag() == FREE
    }

    /// A lock around `data`, unlocked.
    pub fn new(data: T) -> (r: Self)
        ensures
            r@ == data,
            r.starts_free(),
        no_unwind
    {
        Spinlock { lock: new_flag(FREE), data }
    }

    /// Turns the outcome of a compare-and-set on this lock's flag into a
    /// guard, where the compare-and-set took the lock.
    fn grant(&self, outcome: Result<bool, bool>) -> (r: Option<SpinlockGuard<'_, T>>)
        ensures
            r is Some <==> acquires(outcome),
            r matches Some(g) ==> g.spinlock() == self && g@ == self@,
        no_unwind
    {
        match outcome {
            Ok(_) => Some(SpinlockGuard { lock: self }),
            Err(_) => None,
        }
    }

    /// One compare-and-set of the flag, `FREE` for `HELD`, with acquire
    /// ordering whether it writes or not. What comes back depends on what
    /// the other parties have done, and is what the protocol says of one
    /// of the two things that the flag can hold.
    fn exchange(&self) -> (r: Result<bool, bool>)
        ensures
            r == exchange_outcome(FREE) || r == exchange_outcome(HELD),
        no_unwind
    {
        compare_and_set(&self.lock, FREE, HELD)
    }

    /// Tries once to take the lock, with one compare-and-set, and does not
    /// wait. `None` means that the flag was `HELD`: another guard is alive.
    pub fn try_lock(&self) -> (r: Option<SpinlockGuard<'_, T>>)
        ensures
            r matches Some(g) ==> g.spinlock() == self && g@ == self@,
        no_unwind
    {
        self.grant(self.exchange())
    }

    /// Waits for the lock: tries up to `attempts` times to take it, with a
    /// spin hint to the processor after each failure, and stops at the first
    /// success. `None` means that every attempt found the flag `HELD`.
    ///
    /// The wait is by polling and has no end but the bound. A caller that
    /// has nothing else to do calls again.
    pub fn lock(&self, attempts: usize) -> (r: Option<SpinlockGuard<'_, T>>)
        ensures
            attempts == 0 ==> r is None,
            r matches Some(g) ==> g.spinlock() == self && g@ == self@,
        no_unwind
    {
        let mut left: usize = attempts;
        while left > 0
            invariant
                left <= attempts,
            decreases left,
        {
            match self.grant(self.exchange()) {
                Some(guard) => {
                    return Some(guard);
                },
                None => {
                    spin_hint();
                },
            }
            left = left - 1;
        }
        None
    }
}

impl<'a, T> SpinlockGuard<'a, T> {
    /// The lock that the guard was taken from.
    pub closed spec fn spinlock(&self) -> &'a Spinlock<T> {
        self.lock
    }
}

impl<'a, T> Deref for SpinlockGuard<'a, T> {
    type Target = T;

    /// Read access to the payload: the guard's own, which is that of the
    /// lock it was taken from.
    fn deref(&self) -> (r: &T)
        ensures
            *r == self@,
            *r == self.spinlock()@,
    {
        &self.lock.data
    }
}

impl<'a, T> Drop for SpinlockGuard<'a, T> {
    /// Gives the lock back: stores `FREE` in the flag, with release
    /// ordering, on every way out of the guard's scope. Nothing else
    /// changes: the guard still names its lock, and the payload is as it
    /// was.
    fn drop(&mut self)
        ensures
            final(self)@ == old(self)@,
            final(self).spinlock() == old(self).spinlock(),
        opens_invariants none
        no_unwind
    {
        store_release(&self.lock.lock, FREE);
    }
}

} // verus!
