//! Laws of the runtime timers.

use vstd::prelude::*;

use crate::runtime::timer::{
    armed_count, lemma_worn_out, worn_out_slots, RuntimeTimerError, RuntimeTimerEvent,
    RuntimeTimerKind, RuntimeTimerQueue, RuntimeTimerToken, TimerEntry, TimerOwner,
};

verus! {

proof fn lemma_armed_timers(entries: Seq<Option<TimerEntry>>)
    ensures
        armed_count(entries) == entries.filter(|entry: Option<TimerEntry>| entry is Some).len(),
        armed_count(entries) <= entries.len(),
        armed_count(entries) == entries.len() <==> forall|i: int|
            0 <= i < entries.len() ==> #[trigger] entries[i] is Some,
        armed_count(entries) == 0 <==> forall|i: int|
            0 <= i < entries.len() ==> #[trigger] entries[i] is None,
    decreases entries.len(),
{
    reveal(Seq::filter);
    if entries.len() > 0 {
        let before = entries.drop_last();
        let last = entries.len() - 1;
        lemma_armed_timers(before);
        assert forall|i: int| 0 <= i < before.len() implies before[i]
            == #[trigger] entries[i] by {}
        assert(entries.last() == entries[last]);
        if armed_count(entries) == entries.len() {
            assert forall|i: int| 0 <= i < entries.len() implies #[trigger] entries[i] is Some by {
                if i < last {
                    assert(before[i] is Some);
                }
            }
        }
        if forall|i: int| 0 <= i < entries.len() ==> #[trigger] entries[i] is Some {
            assert forall|i: int| 0 <= i < before.len() implies #[trigger] before[i] is Some by {
                assert(entries[i] is Some);
            }
        }
        if armed_count(entries) == 0 {
            assert forall|i: int| 0 <= i < entries.len() implies #[trigger] entries[i] is None by {
                if i < last {
                    assert(before[i] is None);
                }
            }
        }
        if forall|i: int| 0 <= i < entries.len() ==> #[trigger] entries[i] is None {
            assert forall|i: int| 0 <= i < before.len() implies #[trigger] before[i] is None by {
                assert(entries[i] is None);
            }
        }
    }
}

/// Arming puts a timer into a free slot under the slot's next generation and the next place in the
/// order of arming, and changes no other timer. The token names that slot and generation.
pub proof fn lemma_armed_timers_are_kept<const TIMERS: usize>(
    owner: TimerOwner,
    kind: RuntimeTimerKind,
    deadline: u64,
    armed: Result<RuntimeTimerToken, RuntimeTimerError>,
)
    ensures
        forall|timers: &mut RuntimeTimerQueue<TIMERS>|
            timers.well_formed() && #[trigger] call_ensures(
                RuntimeTimerQueue::<TIMERS>::arm,
                (timers, owner, kind, deadline),
                armed,
            ) ==> {
                let before = timers@;
                let after = final(timers)@;
                &&& after.identity == before.identity
                &&& after.last_poll_micros == before.last_poll_micros
                &&& after.entries.len() == before.entries.len()
                &&& armed matches Ok(token) ==> {
                    let slot = token.slot();
                    &&& token.queue() == before.identity
                    &&& 0 <= slot < before.entries.len()
                    &&& before.entries[slot] is None
                    &&& token.slot_generation() == before.generations[slot] + 1
                    &&& after.entries[slot] == Some(
                        TimerEntry {
                            owner,
                            kind,
                            deadline_micros: deadline,
                            insertion_order: before.next_insertion_order,
                            generation: token.slot_generation(),
                        },
                    )
                    &&& after.generations[slot] == token.slot_generation()
                    &&& after.next_insertion_order == before.next_insertion_order + 1
                    &&& forall|i: int|
                        0 <= i < before.entries.len() && i != slot ==> #[trigger] after.entries[i]
                            == before.entries[i]
                    &&& forall|i: int|
                        0 <= i < before.generations.len() && i != slot
                            ==> #[trigger] after.generations[i] == before.generations[i]
                }
                &&& armed matches Err(error) ==> {
                    let full = forall|i: int|
                        0 <= i < before.entries.len() ==> #[trigger] before.entries[i] is Some;
                    &&& after.entries == before.entries
                    &&& after.generations == before.generations
                    &&& after.next_insertion_order == before.next_insertion_order
                    &&& error is CounterExhausted <==> before.next_insertion_order == u64::MAX
                    &&& error is CapacityExhausted <==> before.next_insertion_order < u64::MAX
                        && before.entries.len() > 0 && full
                    &&& error is CounterExhausted || error is CapacityExhausted
                        || error is GenerationExhausted
                    &&& error is GenerationExhausted ==> forall|k: int|
                        0 <= k < before.free.len() ==> before.generations[#[trigger] before.free[k]]
                            == u32::MAX
                }
            },
{
    assert forall|timers: &mut RuntimeTimerQueue<TIMERS>|
        timers.well_formed() && #[trigger] call_ensures(
            RuntimeTimerQueue::<TIMERS>::arm,
            (timers, owner, kind, deadline),
            armed,
        ) implies {
        let before = timers@;
        let worn = worn_out_slots(before.generations, before.free);
        &&& before.free.len() == 0 <==> forall|i: int|
            0 <= i < before.entries.len() ==> #[trigger] before.entries[i] is Some
        &&& worn <= before.free.len()
        &&& worn == before.free.len() ==> forall|k: int|
            0 <= k < before.free.len() ==> before.generations[#[trigger] before.free[k]]
                == u32::MAX
        &&& worn < before.free.len() ==> before.generations[before.next_slot()] < u32::MAX
            && before.entries[before.next_slot()] is None && 0 <= before.next_slot()
            < before.entries.len()
    } by {
        lemma_armed_timers(timers@.entries);
        lemma_worn_out(timers@.generations, timers@.free);
    }
}

/// A token cancels the timer that it was given for, while that is armed in its own queue, and only
/// that one.
pub proof fn lemma_tokens_cancel_their_own_timer<const TIMERS: usize>(
    token: RuntimeTimerToken,
    cancelled: bool,
)
    ensures
        forall|timers: &mut RuntimeTimerQueue<TIMERS>|
            timers.well_formed() && #[trigger] call_ensures(
                RuntimeTimerQueue::<TIMERS>::cancel,
                (timers, token),
                cancelled,
            ) ==> {
                let before = timers@;
                let after = final(timers)@;
                let slot = token.slot();
                &&& cancelled <==> {
                    &&& token.queue() == before.identity
                    &&& 0 <= slot < before.entries.len()
                    &&& before.entries[slot] is Some
                    &&& before.entries[slot]->0.generation == token.slot_generation()
                }
                &&& cancelled ==> after.entries[slot] is None
                &&& after.entries.len() == before.entries.len()
                &&& forall|i: int|
                    0 <= i < before.entries.len() && !(cancelled && i == slot)
                        ==> #[trigger] after.entries[i] == before.entries[i]
                &&& after.generations == before.generations
                &&& after.next_insertion_order == before.next_insertion_order
                &&& after.last_poll_micros == before.last_poll_micros
            },
{
}

/// Whether a timer is due next: it is armed, and every other armed timer has a later deadline, or
/// the same and was armed later.
pub open spec fn is_due_next(entries: Seq<Option<TimerEntry>>, slot: int) -> bool {
    &&& 0 <= slot < entries.len()
    &&& entries[slot] is Some
    &&& forall|i: int|
        0 <= i < entries.len() && i != slot && (#[trigger] entries[i]) is Some ==> {
            ||| entries[slot]->0.deadline_micros < entries[i]->0.deadline_micros
            ||| entries[slot]->0.deadline_micros == entries[i]->0.deadline_micros
                && entries[slot]->0.insertion_order < entries[i]->0.insertion_order
        }
}

/// Timers fire in the order of their deadlines, and of arming among equals, none before its time.
/// A fired timer is gone, and the others stay. The clock of the queue never runs backwards.
pub proof fn lemma_timers_fire_in_order<const TIMERS: usize>(
    now: u64,
    popped: Result<Option<RuntimeTimerEvent>, RuntimeTimerError>,
)
    ensures
        forall|timers: &mut RuntimeTimerQueue<TIMERS>|
            timers.well_formed() && #[trigger] call_ensures(
                RuntimeTimerQueue::<TIMERS>::pop_expired,
                (timers, now),
                popped,
            ) ==> {
                let before = timers@;
                let after = final(timers)@;
                &&& popped is Err <==> now < before.last_poll_micros
                &&& popped is Err ==> after == before
                &&& popped is Ok ==> after.last_poll_micros == now
                &&& popped is Ok && popped->Ok_0 is None ==> {
                    &&& after.entries == before.entries
                    &&& forall|i: int|
                        0 <= i < before.entries.len() && (#[trigger] before.entries[i]) is Some
                            ==> now < before.entries[i]->0.deadline_micros
                }
                &&& popped is Ok && popped->Ok_0 is Some ==> exists|slot: int| #[trigger]
                    is_due_next(before.entries, slot) && {
                        let entry = before.entries[slot]->0;
                        let event = popped->Ok_0->0;
                        &&& entry.deadline_micros <= now
                        &&& event.owner == entry.owner
                        &&& event.kind == entry.kind
                        &&& event.deadline_micros == entry.deadline_micros
                        &&& after.entries == before.entries.update(slot, None)
                        &&& after.generations == before.generations
                        &&& after.next_insertion_order == before.next_insertion_order
                    }
            },
{
    assert forall|timers: &mut RuntimeTimerQueue<TIMERS>|
        timers.well_formed() && #[trigger] call_ensures(
            RuntimeTimerQueue::<TIMERS>::pop_expired,
            (timers, now),
            popped,
        ) && popped is Ok && popped->Ok_0 is Some implies exists|slot: int| #[trigger]
        is_due_next(timers@.entries, slot) && {
            let entry = timers@.entries[slot]->0;
            let event = popped->Ok_0->0;
            &&& entry.deadline_micros <= now
            &&& event.owner == entry.owner
            &&& event.kind == entry.kind
            &&& event.deadline_micros == entry.deadline_micros
            &&& final(timers)@.entries == timers@.entries.update(slot, None)
            &&& final(timers)@.generations == timers@.generations
            &&& final(timers)@.next_insertion_order == timers@.next_insertion_order
        } by {
        let before = timers@;
        let slot = choose|slot: int|
            #![trigger before.is_earliest(slot)]
            {
                &&& before.is_earliest(slot)
                &&& before.entries[slot]->0.deadline_micros <= now
                &&& popped->Ok_0->0 == before.entries[slot]->0.event()
                &&& final(timers)@ == (crate::runtime::timer::TimersView {
                    last_poll_micros: now,
                    ..before.without(slot)
                })
            };
        assert(is_due_next(before.entries, slot));
    }
}

/// The next deadline is the smallest one of all armed timers, and there is none exactly if none is
/// armed. The length is the number of armed timers.
pub proof fn lemma_next_deadline_is_the_smallest<const TIMERS: usize>(
    timers: &RuntimeTimerQueue<TIMERS>,
    deadline: Option<u64>,
    length: usize,
    empty: bool,
)
    requires
        timers.well_formed(),
        call_ensures(RuntimeTimerQueue::<TIMERS>::next_deadline_micros, (timers,), deadline),
        call_ensures(RuntimeTimerQueue::<TIMERS>::len, (timers,), length),
        call_ensures(RuntimeTimerQueue::<TIMERS>::is_empty, (timers,), empty),
    ensures
        deadline matches Some(deadline) ==> {
            &&& exists|i: int|
                0 <= i < timers@.entries.len() && (#[trigger] timers@.entries[i]) is Some
                    && timers@.entries[i]->0.deadline_micros == deadline
            &&& forall|i: int|
                0 <= i < timers@.entries.len() && (#[trigger] timers@.entries[i]) is Some
                    ==> deadline <= timers@.entries[i]->0.deadline_micros
        },
        deadline is None <==> forall|i: int|
            0 <= i < timers@.entries.len() ==> #[trigger] timers@.entries[i] is None,
        empty <==> deadline is None,
        length == timers@.entries.filter(|entry: Option<TimerEntry>| entry is Some).len(),
{
    lemma_armed_timers(timers@.entries);
    if deadline is Some {
        let slot = choose|slot: int|
            #![trigger timers@.is_earliest(slot)]
            timers@.is_earliest(slot) && timers@.entries[slot]->0.deadline_micros == deadline->0;
        assert(timers@.entries[slot] is Some);
    }
}

} // verus!
