//! The exclusivity protocol: one flag, taken by a compare-and-set and given
//! back by a store.
//!
//! The lock in [`crate::spin`] touches its flag in three places only: it
//! creates it `FREE`, it compares-and-sets `FREE` for `HELD` to take the lock,
//! and it stores `FREE` when a guard is dropped. This module says what those
//! three steps do to a flag, lets any number of parties make them in any
//! order, and proves the invariant that every such run keeps. What follows
//! from it (one holder at most, no update lost, a released lock that the
//! next party gets at once) is in [`crate::laws`].
//!
//! The runs here are interleavings: every step sees what the steps before it
//! wrote. On a real machine the acquire ordering of the compare-and-set and
//! the release ordering of the store are what give the holder of the lock
//! that view of the payload.

use vstd::prelude::*;

verus! {

/// What the flag holds while nobody has the lock.
pub const FREE: bool = false;

/// What the flag holds while a guard is alive.
pub const HELD: bool = true;

/// What a compare-and-set of `FREE` for `HELD` reports on a flag that holds
/// `flag`: `Ok` with the old value where it wrote, `Err` with the value it
/// found where it did not.
pub open spec fn exchange_outcome(flag: bool) -> Result<bool, bool> {
    if flag == FREE {
        Ok(flag)
    } else {
        Err(flag)
    }
}

/// What the flag holds after that compare-and-set.
pub open spec fn exchange_flag(flag: bool) -> bool {
    if flag == FREE {
        HELD
    } else {
        flag
    }
}

/// Whether the outcome of a compare-and-set hands the lock to the party that
/// made it.
pub open spec fn acquires(outcome: Result<bool, bool>) -> bool {
    outcome is Ok
}

/// One lock and the parties around it. A party is a thread of execution,
/// known by a number.
pub struct World {
    /// The exclusivity flag.
    pub flag: bool,
    /// The parties that own a live guard.
    pub holders: Set<nat>,
    /// The payload, taken as a number.
    pub value: int,
    /// What each party last read from, or wrote to, the payload through the
    /// guard it still owns.
    pub seen: Map<nat, int>,
}

/// What a party can do.
pub enum Event {
    /// One compare-and-set of the flag: the whole of `try_lock`, and each
    /// round of a waiting `lock`.
    Attempt(nat),
    /// The drop of the party's guard.
    Release(nat),
    /// A read of the payload through the party's guard.
    Load(nat),
    /// A write to the payload through the party's guard.
    Write(nat, int),
}

/// A new lock around `value`.
pub open spec fn init(value: int) -> World {
    World { flag: FREE, holders: Set::empty(), value, seen: Map::empty() }
}

/// Whether `event` can happen in `w`. Anyone may attempt at any time. The
/// other three go through a guard, so only a party that owns one can make
/// them.
pub open spec fn enabled(w: World, event: Event) -> bool {
    match event {
        Event::Attempt(party) => true,
        Event::Release(party) => w.holders.contains(party),
        Event::Load(party) => w.holders.contains(party),
        Event::Write(party, value) => w.holders.contains(party),
    }
}

/// The world after `event`.
pub open spec fn step(w: World, event: Event) -> World {
    match event {
        Event::Attempt(party) => {
            if acquires(exchange_outcome(w.flag)) {
                World { flag: exchange_flag(w.flag), holders: w.holders.insert(party), ..w }
            } else {
                World { flag: exchange_flag(w.flag), ..w }
            }
        },
        Event::Release(party) => World {
            flag: FREE,
            holders: w.holders.remove(party),
            seen: w.seen.remove(party),
            ..w
        },
        Event::Load(party) => World { seen: w.seen.insert(party, w.value), ..w },
        Event::Write(party, value) => World { value, seen: w.seen.insert(party, value), ..w },
    }
}

/// The world after all of `trace`, first event first.
pub open spec fn run(w: World, trace: Seq<Event>) -> World
    decreases trace.len(),
{
    if trace.len() == 0 {
        w
    } else {
        step(run(w, trace.drop_last()), trace.last())
    }
}

/// Whether each event of `trace` can happen at its turn.
pub open spec fn valid(w: World, trace: Seq<Event>) -> bool
    decreases trace.len(),
{
    trace.len() == 0 || (valid(w, trace.drop_last()) && enabled(
        run(w, trace.drop_last()),
        trace.last(),
    ))
}

/// What the protocol keeps true: the flag is `HELD` exactly while one party
/// holds a guard, nobody else holds one, and what a holder has seen of the
/// payload is what the payload is.
pub open spec fn consistent(w: World) -> bool {
    &&& w.holders.finite()
    &&& w.holders.len() == (if w.flag == HELD { 1nat } else { 0nat })
    &&& forall|p: nat| w.seen.dom().contains(p) ==> w.holders.contains(p)
    &&& forall|p: nat| w.seen.dom().contains(p) ==> w.seen[p] == w.value
}

/// In a consistent world two holders are one party.
pub proof fn lemma_one_holder(w: World, p: nat, q: nat)
    requires
        consistent(w),
        w.holders.contains(p),
        w.holders.contains(q),
    ensures
        p == q,
        w.flag == HELD,
{
    if p != q {
        assert(w.holders.remove(p).contains(q));
    }
}

/// A step that can happen keeps a consistent world consistent.
pub proof fn lemma_step_consistent(w: World, event: Event)
    requires
        consistent(w),
        enabled(w, event),
    ensures
        consistent(step(w, event)),
{
    let next = step(w, event);
    match event {
        Event::Attempt(party) => {},
        Event::Release(party) => {
            lemma_one_holder(w, party, party);
            assert forall|p: nat| next.seen.dom().contains(p) implies next.holders.contains(p) by {
                lemma_one_holder(w, party, p);
            }
        },
        Event::Load(party) => {},
        Event::Write(party, value) => {
            assert forall|p: nat| next.seen.dom().contains(p) implies next.seen[p]
                == next.value by {
                if w.seen.dom().contains(p) {
                    lemma_one_holder(w, party, p);
                }
            }
        },
    }
}

/// A run that can happen keeps a consistent world consistent.
pub proof fn lemma_run_consistent(w: World, trace: Seq<Event>)
    requires
        consistent(w),
        valid(w, trace),
    ensures
        consistent(run(w, trace)),
    decreases trace.len(),
{
    if trace.len() > 0 {
        lemma_run_consistent(w, trace.drop_last());
        lemma_step_consistent(run(w, trace.drop_last()), trace.last());
    }
}

} // verus!
