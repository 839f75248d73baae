//! What holds of every run of the protocol.
//!
//! Each law is stated of the worlds and runs of [`crate::protocol`] and
//! proved from the invariant that every run keeps.

use crate::protocol::acquires;
use crate::protocol::consistent;
use crate::protocol::enabled;
use crate::protocol::exchange_outcome;
use crate::protocol::init;
use crate::protocol::lemma_one_holder;
use crate::protocol::lemma_run_consistent;
use crate::protocol::lemma_step_consistent;
use crate::protocol::run;
use crate::protocol::step;
use crate::protocol::valid;
use crate::protocol::Event;
use crate::protocol::World;
use crate::protocol::FREE;
use crate::protocol::HELD;
use crate::spin::Spinlock;
use vstd::prelude::*;

verus! {

/// The flag has two states and two ways between them: a successful attempt
/// takes it from `FREE` to `HELD`, a release takes it from `HELD` to `FREE`,
/// and nothing else changes it.
pub proof fn law_two_transitions(w: World, event: Event)
    requires
        consistent(w),
        enabled(w, event),
    ensures
        w.flag == FREE || w.flag == HELD,
        step(w, event).flag != w.flag ==> (w.flag == FREE && event is Attempt) || (w.flag == HELD
            && event is Release),
        event is Attempt ==> (acquires(exchange_outcome(w.flag)) <==> w.flag == FREE),
        event is Attempt ==> step(w, event).flag == HELD,
        event is Release ==> w.flag == HELD && step(w, event).flag == FREE,
{
    if let Event::Release(party) = event {
        lemma_one_holder(w, party, party);
    }
}

/// A new lock is free and holds the value it was made with: whoever
/// attempts first gets it. A lock that was made unlocked starts where the
/// protocol starts, so the first compare-and-set on the flag that it was
/// made with takes it.
pub proof fn law_new_lock_is_free<T>(lock: Spinlock<T>, value: int, party: nat)
    requires
        lock.starts_free(),
    ensures
        consistent(init(value)),
        init(value).flag == lock.first_flag(),
        init(value).flag == FREE,
        init(value).value == value,
        acquires(exchange_outcome(lock.first_flag())),
        step(init(value), Event::Attempt(party)).holders.contains(party),
{
}

/// What a compare-and-set reports tells what the flag held: it hands the
/// lock over exactly where it reports what the protocol reports of a
/// `FREE` flag, and refuses exactly where it reports what the protocol
/// reports of a `HELD` one.
pub proof fn law_report_tells_the_flag(outcome: Result<bool, bool>)
    requires
        outcome == exchange_outcome(FREE) || outcome == exchange_outcome(HELD),
    ensures
        acquires(outcome) <==> outcome == exchange_outcome(FREE),
        !acquires(outcome) <==> outcome == exchange_outcome(HELD),
{
}

/// A run that can happen can happen up to any of its points.
pub proof fn lemma_valid_prefix(w: World, trace: Seq<Event>, point: int)
    requires
        valid(w, trace),
        0 <= point <= trace.len(),
    ensures
        valid(w, trace.take(point)),
    decreases trace.len(),
{
    if point == trace.len() {
        assert(trace.take(point) == trace);
    } else {
        lemma_valid_prefix(w, trace.drop_last(), point);
        assert(trace.drop_last().take(point) == trace.take(point));
    }
}

/// At no point of any run from a new lock do two parties hold a guard, and
/// the flag is `HELD` exactly while one does.
pub proof fn law_single_holder(value: int, trace: Seq<Event>, point: int)
    requires
        valid(init(value), trace),
        0 <= point <= trace.len(),
    ensures
        run(init(value), trace.take(point)).holders.finite(),
        run(init(value), trace.take(point)).holders.len() <= 1,
        run(init(value), trace.take(point)).holders.len() == 1 <==> run(
            init(value),
            trace.take(point),
        ).flag == HELD,
        forall|p: nat, q: nat|
            run(init(value), trace.take(point)).holders.contains(p) && run(
                init(value),
                trace.take(point),
            ).holders.contains(q) ==> p == q,
{
    let w = run(init(value), trace.take(point));
    lemma_valid_prefix(init(value), trace, point);
    lemma_run_consistent(init(value), trace.take(point));
    assert forall|p: nat, q: nat| w.holders.contains(p) && w.holders.contains(q) implies p
        == q by {
        lemma_one_holder(w, p, q);
    }
}

/// While `holder` has the lock, an attempt fails and changes nothing,
/// whoever makes it.
pub proof fn law_held_lock_refuses(w: World, holder: nat, other: nat)
    requires
        consistent(w),
        w.holders.contains(holder),
    ensures
        !acquires(exchange_outcome(w.flag)),
        step(w, Event::Attempt(other)) == w,
{
    lemma_one_holder(w, holder, holder);
}

/// The trace of `count` attempts by `party`, one after the other.
pub open spec fn attempts(party: nat, count: nat) -> Seq<Event> {
    Seq::new(count, |i: int| Event::Attempt(party))
}

/// While the holder keeps its guard, no number of attempts takes the lock.
/// That holds of the holder's own attempts too: the lock is not reentrant,
/// and a holder that waits for its own lock waits for ever.
pub proof fn law_held_lock_outlasts_attempts(w: World, holder: nat, other: nat, count: nat)
    requires
        consistent(w),
        w.holders.contains(holder),
    ensures
        run(w, attempts(other, count)) == w,
    decreases count,
{
    if count > 0 {
        let shorter: nat = (count - 1) as nat;
        assert(attempts(other, count).drop_last() == attempts(other, shorter));
        law_held_lock_outlasts_attempts(w, holder, other, shorter);
        law_held_lock_refuses(w, holder, other);
    }
}

/// Once the holder has dropped its guard, the lock is free and has no
/// holder, nothing can happen but an attempt, and the next attempt
/// succeeds, whoever makes it.
pub proof fn law_released_lock_admits(w: World, holder: nat, next: nat)
    requires
        consistent(w),
        w.holders.contains(holder),
    ensures
        step(w, Event::Release(holder)).flag == FREE,
        step(w, Event::Release(holder)).holders == Set::<nat>::empty(),
        forall|event: Event| enabled(step(w, Event::Release(holder)), event) ==> event is Attempt,
        acquires(exchange_outcome(step(w, Event::Release(holder)).flag)),
        step(step(w, Event::Release(holder)), Event::Attempt(next)).holders == Set::<
            nat,
        >::empty().insert(next),
{
    lemma_step_consistent(w, Event::Release(holder));
}

/// However a run went, after a release the lock is free: a party that then
/// waits for the lock gets it at its first attempt.
pub proof fn law_no_lock_lost(value: int, trace: Seq<Event>, holder: nat, next: nat)
    requires
        valid(init(value), trace.push(Event::Release(holder))),
    ensures
        run(init(value), trace.push(Event::Release(holder))).flag == FREE,
        run(
            init(value),
            trace.push(Event::Release(holder)).push(Event::Attempt(next)),
        ).holders.contains(next),
{
    let release = Event::Release(holder);
    let attempt = Event::Attempt(next);
    let before = run(init(value), trace);
    assert(trace.push(release).drop_last() == trace);
    assert(trace.push(release).push(attempt).drop_last() == trace.push(release));
    assert(run(init(value), trace.push(release)) == step(before, release));
    lemma_run_consistent(init(value), trace);
    law_released_lock_admits(before, holder, next);
}

/// The number of writes in `trace`.
pub open spec fn writes(trace: Seq<Event>) -> nat
    decreases trace.len(),
{
    if trace.len() == 0 {
        0
    } else {
        writes(trace.drop_last()) + (if trace.last() is Write { 1nat } else { 0nat })
    }
}

/// Whether `event`, made in `w`, is no write or writes one more than its
/// party has seen.
pub open spec fn adds_one(w: World, event: Event) -> bool {
    event matches Event::Write(party, value) ==> w.seen.dom().contains(party) && value
        == w.seen[party] + 1
}

/// Whether every write of `trace` is the second half of an increment.
pub open spec fn counts_up(w: World, trace: Seq<Event>) -> bool
    decreases trace.len(),
{
    trace.len() == 0 || (counts_up(w, trace.drop_last()) && adds_one(
        run(w, trace.drop_last()),
        trace.last(),
    ))
}

/// No update is lost: where every write is the second half of an
/// increment, the payload ends at its first value plus the number of
/// writes, however many parties took turns and however often.
pub proof fn law_no_lost_update(value: int, trace: Seq<Event>)
    requires
        valid(init(value), trace),
        counts_up(init(value), trace),
    ensures
        run(init(value), trace).value == value + writes(trace),
    decreases trace.len(),
{
    if trace.len() > 0 {
        law_no_lost_update(value, trace.drop_last());
        lemma_run_consistent(init(value), trace.drop_last());
    }
}

/// Whether `event` is a write by `party`.
pub open spec fn is_write_by(event: Event, party: nat) -> bool {
    event matches Event::Write(writer, value) && writer == party
}

/// The number of writes that `party` makes in `trace`.
pub open spec fn writes_by(trace: Seq<Event>, party: nat) -> nat
    decreases trace.len(),
{
    if trace.len() == 0 {
        0
    } else {
        writes_by(trace.drop_last(), party) + (if is_write_by(trace.last(), party) {
            1nat
        } else {
            0nat
        })
    }
}

/// The number of writes that the parties of `parties` make in `trace`, all
/// together.
pub open spec fn writes_by_all(trace: Seq<Event>, parties: Set<nat>) -> nat
    decreases parties.len(),
{
    if parties.finite() && parties.len() > 0 {
        let party: nat = parties.choose();
        writes_by(trace, party) + writes_by_all(trace, parties.remove(party))
    } else {
        0
    }
}

/// Two traces in which each of `parties` writes equally often have equally
/// many writes by all of them.
proof fn lemma_same_shares(shorter: Seq<Event>, longer: Seq<Event>, parties: Set<nat>)
    requires
        parties.finite(),
        forall|p: nat| parties.contains(p) ==> writes_by(longer, p) == writes_by(shorter, p),
    ensures
        writes_by_all(longer, parties) == writes_by_all(shorter, parties),
    decreases parties.len(),
{
    if parties.len() > 0 {
        lemma_same_shares(shorter, longer, parties.remove(parties.choose()));
    }
}

/// One more write by one of `parties` is one more write by all of them.
proof fn lemma_one_more_share(
    shorter: Seq<Event>,
    longer: Seq<Event>,
    parties: Set<nat>,
    writer: nat,
)
    requires
        parties.finite(),
        parties.contains(writer),
        writes_by(longer, writer) == writes_by(shorter, writer) + 1,
        forall|p: nat|
            parties.contains(p) && p != writer ==> writes_by(longer, p) == writes_by(shorter, p),
    ensures
        writes_by_all(longer, parties) == writes_by_all(shorter, parties) + 1,
    decreases parties.len(),
{
    let party: nat = parties.choose();
    if party == writer {
        lemma_same_shares(shorter, longer, parties.remove(party));
    } else {
        lemma_one_more_share(shorter, longer, parties.remove(party), writer);
    }
}

/// No trace has writes by nobody.
proof fn lemma_no_shares(trace: Seq<Event>, parties: Set<nat>)
    requires
        trace.len() == 0,
    ensures
        writes_by_all(trace, parties) == 0,
    decreases parties.len(),
{
    if parties.finite() && parties.len() > 0 {
        lemma_no_shares(trace, parties.remove(parties.choose()));
    }
}

/// Where nobody outside `parties` writes, the writes of a trace are the
/// writes by all of `parties`.
proof fn lemma_writes_are_shared(trace: Seq<Event>, parties: Set<nat>)
    requires
        parties.finite(),
        forall|p: nat| !parties.contains(p) ==> writes_by(trace, p) == 0,
    ensures
        writes(trace) == writes_by_all(trace, parties),
    decreases trace.len(),
{
    if trace.len() == 0 {
        lemma_no_shares(trace, parties);
    } else {
        let shorter = trace.drop_last();
        lemma_writes_are_shared(shorter, parties);
        match trace.last() {
            Event::Write(party, value) => {
                lemma_one_more_share(shorter, trace, parties, party);
            },
            _ => {
                lemma_same_shares(shorter, trace, parties);
            },
        }
    }
}

/// Where each of `parties` writes `each` times, all of them write `each`
/// times their number.
proof fn lemma_equal_shares(trace: Seq<Event>, parties: Set<nat>, each: nat)
    requires
        parties.finite(),
        forall|p: nat| parties.contains(p) ==> writes_by(trace, p) == each,
    ensures
        writes_by_all(trace, parties) == parties.len() * each,
    decreases parties.len(),
{
    if parties.len() > 0 {
        let rest = parties.remove(parties.choose());
        lemma_equal_shares(trace, rest, each);
        assert((rest.len() + 1) * each == rest.len() * each + each) by (nonlinear_arith);
    }
}

/// Mutual exclusion, counted: where any number of parties take the lock
/// and increment the payload under it, the payload ends at its first value
/// plus the increments of all of them; where each of them increments
/// `each` times, at its first value plus `each` times their number.
pub proof fn law_increments_add_up(
    value: int,
    trace: Seq<Event>,
    parties: Set<nat>,
    each: nat,
)
    requires
        valid(init(value), trace),
        counts_up(init(value), trace),
        parties.finite(),
        forall|p: nat| !parties.contains(p) ==> writes_by(trace, p) == 0,
    ensures
        run(init(value), trace).value == value + writes_by_all(trace, parties),
        (forall|p: nat| parties.contains(p) ==> writes_by(trace, p) == each) ==> run(
            init(value),
            trace,
        ).value == value + parties.len() * each,
{
    law_no_lost_update(value, trace);
    lemma_writes_are_shared(trace, parties);
    if forall|p: nat| parties.contains(p) ==> writes_by(trace, p) == each {
        lemma_equal_shares(trace, parties, each);
    }
}

/// What the holder wrote before it dropped its guard is what the next
/// holder reads. Between the drop and the next holder's attempt nothing
/// can happen: a free lock admits attempts only, and the first succeeds.
pub proof fn law_write_is_seen_by_next_holder(w: World, writer: nat, reader: nat, value: int)
    requires
        consistent(w),
        w.holders.contains(writer),
    ensures
        step(w, Event::Write(writer, value)).value == value,
        step(step(w, Event::Write(writer, value)), Event::Release(writer)).value == value,
        step(
            step(step(w, Event::Write(writer, value)), Event::Release(writer)),
            Event::Attempt(reader),
        ).holders.contains(reader),
        step(
            step(
                step(step(w, Event::Write(writer, value)), Event::Release(writer)),
                Event::Attempt(reader),
            ),
            Event::Load(reader),
        ).seen[reader] == value,
{
    let written = step(w, Event::Write(writer, value));
    lemma_step_consistent(w, Event::Write(writer, value));
    law_released_lock_admits(written, writer, reader);
}

} // verus!
