//! A busy-wait lock for code that has no operating system to block on.
//!
//! [`spin`] holds the lock and its guard. [`protocol`] holds the two-state
//! protocol that the lock's flag follows, as any number of parties take and
//! release the lock. [`laws`] holds what is proved of every run of it.

pub mod laws;
pub mod protocol;
pub mod spin;

pub use spin::Spinlock;
pub use spin::SpinlockGuard;
