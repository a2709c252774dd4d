//! Bounded monotonic timer queue.

use vstd::prelude::*;

use crate::runtime::identity::QueueIdentity;
use crate::runtime::index_queue::IndexQueue;
use crate::runtime::pool::{lemma_rotated, rotated};
use crate::text::{decimal, fixed, with_two_numbers};

verus! {

/// Opaque event-loop owner used to bind timers to connection/path state.
#[derive(Clone, Copy, Debug, PartialEq, Eq, Hash, Structural)]
pub struct TimerOwner(pub u64);

/// Runtime deadlines sharing one bounded monotonic timer queue.
#[derive(Clone, Copy, Debug, PartialEq, Eq, Structural)]
pub enum RuntimeTimerKind {
    HandshakeDeadline,
    IdleTimeout,
    Ack,
    LossDetection,
    Pacing,
    PathValidation,
    TransferControl,
    Application(u16),
}

/// Cancellation capability for one armed timer.
#[derive(Clone, Copy, PartialEq, Eq, Structural)]
#[must_use]
pub struct RuntimeTimerToken {
    queue: QueueIdentity,
    index: usize,
    generation: u32,
}

impl RuntimeTimerToken {
    /// The queue that armed the timer.
    pub closed spec fn queue(self) -> QueueIdentity {
        self.queue
    }

    /// The slot that the token names.
    pub closed spec fn slot(self) -> int {
        self.index as int
    }

    /// The generation that the token names.
    pub closed spec fn slot_generation(self) -> u32 {
        self.generation
    }

    /// Returns a text for diagnostics that shows nothing of the timer.
    pub fn debug_text(&self) -> (text: String)
        ensures
            text@ == "RuntimeTimerToken(<redacted>)"@,
    {
        fixed("RuntimeTimerToken(<redacted>)")
    }
}

/// One timer removed from the queue after its monotonic deadline.
#[derive(Clone, Copy, Debug, PartialEq, Eq, Structural)]
pub struct RuntimeTimerEvent {
    pub owner: TimerOwner,
    pub kind: RuntimeTimerKind,
    pub deadline_micros: u64,
}

/// One armed timer.
#[derive(Clone, Copy, Debug, PartialEq, Eq, Structural)]
pub struct TimerEntry {
    pub owner: TimerOwner,
    pub kind: RuntimeTimerKind,
    pub deadline_micros: u64,
    pub insertion_order: u64,
    pub generation: u32,
}

impl TimerEntry {
    /// Whether this timer fires before another: by deadline, and by insertion where deadlines are
    /// equal.
    pub open spec fn precedes(self, other: TimerEntry) -> bool {
        self.deadline_micros < other.deadline_micros || self.deadline_micros
            == other.deadline_micros && self.insertion_order < other.insertion_order
    }

    /// The event that this timer fires.
    pub open spec fn event(self) -> RuntimeTimerEvent {
        RuntimeTimerEvent {
            owner: self.owner,
            kind: self.kind,
            deadline_micros: self.deadline_micros,
        }
    }
}

/// Number of armed timers.
pub open spec fn armed_count(entries: Seq<Option<TimerEntry>>) -> nat
    decreases entries.len(),
{
    if entries.len() == 0 {
        0
    } else {
        armed_count(entries.drop_last()) + if entries.last() is Some {
            1nat
        } else {
            0nat
        }
    }
}

/// Number of slots at the front of a queue that can never be used again.
pub open spec fn worn_out_slots(generations: Seq<u32>, queue: Seq<int>) -> nat
    decreases queue.len(),
{
    if queue.len() == 0 || generations[queue[0]] < u32::MAX {
        0
    } else {
        1 + worn_out_slots(generations, queue.skip(1))
    }
}

/// What a timer queue holds.
pub struct TimersView {
    pub identity: QueueIdentity,
    pub entries: Seq<Option<TimerEntry>>,
    pub generations: Seq<u32>,
    pub free: Seq<int>,
    pub next_insertion_order: u64,
    pub last_poll_micros: u64,
}

impl TimersView {
    /// A queue without timers at monotonic time zero.
    pub open spec fn unused(identity: QueueIdentity, timers: nat) -> TimersView {
        TimersView {
            identity,
            entries: Seq::new(timers, |i: int| None::<TimerEntry>),
            generations: Seq::new(timers, |i: int| 0u32),
            free: Seq::new(timers, |i: int| i),
            next_insertion_order: 0,
            last_poll_micros: 0,
        }
    }

    /// What every queue keeps.
    pub open spec fn well_formed(self) -> bool {
        &&& self.generations.len() == self.entries.len()
        &&& self.free_is_listed()
        &&& forall|i: int|
            0 <= i < self.entries.len() ==> (#[trigger] self.entries[i] matches Some(entry)
                ==> entry.generation == self.generations[i] && entry.insertion_order
                < self.next_insertion_order)
        &&& forall|i: int, j: int|
            0 <= i < j < self.entries.len() ==> (#[trigger] self.entries[i] matches Some(left) ==> (
            #[trigger] self.entries[j] matches Some(right) ==> left.insertion_order
                != right.insertion_order))
    }

    /// Whether the free slots are listed, each once.
    pub open spec fn free_is_listed(self) -> bool {
        &&& forall|k: int|
            0 <= k < self.free.len() ==> 0 <= #[trigger] self.free[k] < self.entries.len()
                && self.entries[self.free[k]] is None
        &&& forall|k: int, l: int|
            0 <= k < l < self.free.len() ==> #[trigger] self.free[k] != #[trigger] self.free[l]
        &&& self.free.len() + armed_count(self.entries) == self.entries.len()
    }

    /// Whether a token names an armed timer.
    pub open spec fn is_armed(self, slot: int, generation: u32) -> bool {
        &&& 0 <= slot < self.entries.len()
        &&& self.entries[slot] matches Some(entry)
        &&& entry.generation == generation
    }

    /// Whether the timer in a slot fires before every other one.
    pub open spec fn is_earliest(self, slot: int) -> bool {
        &&& 0 <= slot < self.entries.len()
        &&& self.entries[slot] is Some
        &&& forall|other: int|
            0 <= other < self.entries.len() && other != slot ==> (
            #[trigger] self.entries[other] matches Some(entry) ==> self.entries[slot]->0.precedes(
                entry,
            ))
    }

    /// The failure of arming a timer, if any.
    pub open spec fn arm_failure(self) -> Option<RuntimeTimerError> {
        if self.next_insertion_order == u64::MAX {
            Some(RuntimeTimerError::CounterExhausted)
        } else if self.entries.len() == 0 {
            Some(RuntimeTimerError::GenerationExhausted)
        } else if self.free.len() == 0 {
            Some(RuntimeTimerError::CapacityExhausted)
        } else if worn_out_slots(self.generations, self.free) == self.free.len() {
            Some(RuntimeTimerError::GenerationExhausted)
        } else {
            None
        }
    }

    /// The queue after a failure to arm a timer.
    pub open spec fn not_armed(self) -> TimersView {
        if self.next_insertion_order == u64::MAX || self.free.len() == 0 {
            self
        } else {
            TimersView { free: rotated(self.free, self.entries.len()), ..self }
        }
    }

    /// The slot of the next timer: the longest free one that can still be used.
    pub open spec fn next_slot(self) -> int {
        self.free[worn_out_slots(self.generations, self.free) as int]
    }

    /// The queue after a timer has been armed.
    pub open spec fn armed(
        self,
        owner: TimerOwner,
        kind: RuntimeTimerKind,
        deadline_micros: u64,
    ) -> TimersView {
        let slot = self.next_slot();
        let generation = (self.generations[slot] + 1) as u32;
        TimersView {
            entries: self.entries.update(
                slot,
                Some(
                    TimerEntry {
                        owner,
                        kind,
                        deadline_micros,
                        insertion_order: self.next_insertion_order,
                        generation,
                    },
                ),
            ),
            generations: self.generations.update(slot, generation),
            free: rotated(self.free, worn_out_slots(self.generations, self.free)).skip(1),
            next_insertion_order: (self.next_insertion_order + 1) as u64,
            ..self
        }
    }

    /// The queue without the timer in a slot.
    pub open spec fn without(self, slot: int) -> TimersView {
        TimersView {
            entries: self.entries.update(slot, None),
            free: self.free.push(slot),
            ..self
        }
    }
}

proof fn lemma_count_bound(entries: Seq<Option<TimerEntry>>)
    ensures
        armed_count(entries) <= entries.len(),
    decreases entries.len(),
{
    if entries.len() > 0 {
        lemma_count_bound(entries.drop_last());
    }
}

proof fn lemma_count_update(entries: Seq<Option<TimerEntry>>, at: int, entry: Option<TimerEntry>)
    requires
        0 <= at < entries.len(),
    ensures
        armed_count(entries.update(at, entry)) + if entries[at] is Some {
            1nat
        } else {
            0nat
        } == armed_count(entries) + if entry is Some {
            1nat
        } else {
            0nat
        },
    decreases entries.len(),
{
    let updated = entries.update(at, entry);
    if at == entries.len() - 1 {
        assert(updated.drop_last() =~= entries.drop_last());
    } else {
        lemma_count_update(entries.drop_last(), at, entry);
        assert(updated.drop_last() =~= entries.drop_last().update(at, entry));
        assert(updated.last() == entries.last());
    }
}

proof fn lemma_nothing_armed(entries: Seq<Option<TimerEntry>>)
    requires
        forall|i: int| 0 <= i < entries.len() ==> #[trigger] entries[i] is None,
    ensures
        armed_count(entries) == 0,
    decreases entries.len(),
{
    if entries.len() > 0 {
        lemma_nothing_armed(entries.drop_last());
        assert(entries.last() is None);
    }
}

pub(crate) proof fn lemma_worn_out(generations: Seq<u32>, queue: Seq<int>)
    ensures
        worn_out_slots(generations, queue) <= queue.len(),
        forall|k: int|
            0 <= k < worn_out_slots(generations, queue) ==> generations[#[trigger] queue[k]]
                == u32::MAX,
        worn_out_slots(generations, queue) < queue.len() ==> generations[queue[worn_out_slots(
            generations,
            queue,
        ) as int]] < u32::MAX,
    decreases queue.len(),
{
    if queue.len() > 0 && generations[queue[0]] == u32::MAX {
        let rest = queue.skip(1);
        lemma_worn_out(generations, rest);
        assert forall|k: int| 0 <= k < worn_out_slots(generations, queue) implies generations[
            #[trigger] queue[k]] == u32::MAX by {
            if k > 0 {
                assert(rest[k - 1] == queue[k]);
            }
        }
    }
}

proof fn lemma_turn_keeps_free_list(timers: TimersView)
    requires
        timers.free_is_listed(),
        timers.free.len() > 0,
    ensures
        (TimersView {
            free: timers.free.skip(1).push(timers.free[0]),
            ..timers
        }).free_is_listed(),
{
    let free = timers.free;
    let turned = free.skip(1).push(free[0]);
    assert forall|k: int| 0 <= k < turned.len() implies 0 <= #[trigger] turned[k]
        < timers.entries.len() && timers.entries[turned[k]] is None by {
        if k < free.len() - 1 {
            assert(turned[k] == free[k + 1]);
        } else {
            assert(turned[k] == free[0]);
        }
    }
    assert forall|k: int, l: int| 0 <= k < l < turned.len() implies #[trigger] turned[k]
        != #[trigger] turned[l] by {
        assert(turned[k] == free[k + 1]);
        if l < free.len() - 1 {
            assert(turned[l] == free[l + 1]);
        } else {
            assert(turned[l] == free[0]);
        }
    }
}

/// The slots that the first `length` heap positions name.
spec fn members(heap: Seq<usize>, length: int) -> Set<int> {
    Set::new(|slot: int| exists|p: int| 0 <= p < length && #[trigger] heap[p] == slot)
}

/// Whether every heap position names an armed timer, and no two name the same one.
spec fn names_timers(heap: Seq<usize>, length: int, entries: Seq<Option<TimerEntry>>) -> bool {
    &&& 0 <= length <= heap.len()
    &&& forall|p: int|
        0 <= p < length ==> (#[trigger] heap[p]) < entries.len() && entries[heap[p] as int] is Some
    &&& forall|p: int, q: int| 0 <= p < q < length ==> #[trigger] heap[p] != #[trigger] heap[q]
}

spec fn parent_of(position: int) -> int {
    (position - 1) / 2
}

/// Whether the timer in one slot fires no later than that in another.
spec fn in_order(entries: Seq<Option<TimerEntry>>, first: int, second: int) -> bool {
    !entries[second]->0.precedes(entries[first]->0)
}

/// Whether a heap position fires no earlier than its parent.
spec fn edge(
    heap: Seq<usize>,
    entries: Seq<Option<TimerEntry>>,
    position: int,
) -> bool {
    in_order(entries, heap[parent_of(position)] as int, heap[position] as int)
}

/// Whether every heap position fires no earlier than its parent.
spec fn is_heap(heap: Seq<usize>, length: int, entries: Seq<Option<TimerEntry>>) -> bool {
    forall|p: int| 0 < p < length ==> #[trigger] edge(heap, entries, p)
}

spec fn swapped(heap: Seq<usize>, first: int, second: int) -> Seq<usize> {
    heap.update(first, heap[second]).update(second, heap[first])
}

proof fn lemma_swap_keeps_members(
    heap: Seq<usize>,
    length: int,
    entries: Seq<Option<TimerEntry>>,
    first: int,
    second: int,
)
    requires
        names_timers(heap, length, entries),
        0 <= first < length,
        0 <= second < length,
    ensures
        names_timers(swapped(heap, first, second), length, entries),
        members(swapped(heap, first, second), length) == members(heap, length),
{
    let after = swapped(heap, first, second);
    assert forall|slot: int|
        members(heap, length).contains(slot) implies #[trigger] members(after, length).contains(
        slot,
    ) by {
        let p = choose|p: int| 0 <= p < length && #[trigger] heap[p] == slot;
        if p == first {
            assert(after[second] == slot);
        } else if p == second {
            assert(after[first] == slot);
        } else {
            assert(after[p] == slot);
        }
    }
    assert forall|slot: int|
        members(after, length).contains(slot) implies #[trigger] members(heap, length).contains(
        slot,
    ) by {
        let p = choose|p: int| 0 <= p < length && #[trigger] after[p] == slot;
        if p == first {
            assert(heap[second] == slot);
        } else if p == second {
            assert(heap[first] == slot);
        } else {
            assert(heap[p] == slot);
        }
    }
    assert(members(after, length) =~= members(heap, length));
}

proof fn lemma_root_is_least(
    heap: Seq<usize>,
    length: int,
    entries: Seq<Option<TimerEntry>>,
    position: int,
)
    requires
        is_heap(heap, length, entries),
        0 <= position < length,
    ensures
        in_order(entries, heap[0] as int, heap[position] as int),
    decreases position,
{
    if position > 0 {
        lemma_root_is_least(heap, length, entries, parent_of(position));
        assert(edge(heap, entries, position));
    }
}

/// Fixed-capacity stable min-heap for all event-loop deadlines.
pub struct RuntimeTimerQueue<const TIMERS: usize> {
    identity: QueueIdentity,
    entries: [Option<TimerEntry>; TIMERS],
    generations: [u32; TIMERS],
    heap: [usize; TIMERS],
    heap_len: usize,
    free: IndexQueue<TIMERS>,
    next_insertion_order: u64,
    last_poll_micros: u64,
}

impl<const TIMERS: usize> View for RuntimeTimerQueue<TIMERS> {
    type V = TimersView;

    closed spec fn view(&self) -> TimersView {
        TimersView {
            identity: self.identity,
            entries: self.entries@,
            generations: self.generations@,
            free: self.free@,
            next_insertion_order: self.next_insertion_order,
            last_poll_micros: self.last_poll_micros,
        }
    }
}

impl<const TIMERS: usize> RuntimeTimerQueue<TIMERS> {
    /// What every queue keeps.
    pub open spec fn well_formed(&self) -> bool {
        &&& self@.well_formed()
        &&& self.heap_orders_timers()
    }

    /// Whether the heap holds exactly the armed timers, none of them before its parent.
    pub closed spec fn heap_orders_timers(&self) -> bool {
        &&& self.free.well_formed()
        &&& self.heap_len == armed_count(self.entries@)
        &&& names_timers(self.heap@, self.heap_len as int, self.entries@)
        &&& is_heap(self.heap@, self.heap_len as int, self.entries@)
        &&& forall|slot: int|
            0 <= slot < TIMERS && (#[trigger] self.entries@[slot]) is Some ==> members(
                self.heap@,
                self.heap_len as int,
            ).contains(slot)
    }

    /// Creates an empty timer queue at monotonic time zero.
    pub fn new() -> (timers: RuntimeTimerQueue<TIMERS>)
        ensures
            timers.well_formed(),
            timers@ == TimersView::unused(timers@.identity, TIMERS as nat),
    {
        let unarmed: Option<TimerEntry> = None;
        let timers = RuntimeTimerQueue {
            identity: QueueIdentity::draw(),
            entries: [unarmed;TIMERS],
            generations: [0u32; TIMERS],
            heap: [0usize; TIMERS],
            heap_len: 0,
            free: IndexQueue::with_all_indices(),
            next_insertion_order: 0,
            last_poll_micros: 0,
        };
        proof {
            let expected = TimersView::unused(timers@.identity, TIMERS as nat);
            assert(timers@.entries =~= expected.entries);
            assert(timers@.generations =~= expected.generations);
            lemma_nothing_armed(timers@.entries);
        }
        timers
    }

    /// Arms one deadline and returns its cancellation capability.
    ///
    /// Equal deadlines fire in insertion order.
    ///
    /// # Errors
    ///
    /// Returns capacity, counter, generation, or invariant failure without overwriting an existing
    /// timer.
    pub fn arm(&mut self, owner: TimerOwner, kind: RuntimeTimerKind, deadline_micros: u64) -> (armed:
        Result<RuntimeTimerToken, RuntimeTimerError>)
        requires
            old(self).well_formed(),
        ensures
            final(self).well_formed(),
            match old(self)@.arm_failure() {
                Some(error) => {
                    &&& armed == Err::<RuntimeTimerToken, RuntimeTimerError>(error)
                    &&& final(self)@ == old(self)@.not_armed()
                },
                None => {
                    &&& armed matches Ok(token)
                    &&& token.queue() == old(self)@.identity
                    &&& token.slot() == old(self)@.next_slot()
                    &&& final(self)@ == old(self)@.armed(owner, kind, deadline_micros)
                    &&& final(self)@.is_armed(token.slot(), token.slot_generation())
                },
            },
    {
        let next_order: u64 = match self.next_insertion_order.checked_add(1) {
            Some(next) => next,
            None => {
                return Err(RuntimeTimerError::CounterExhausted);
            },
        };
        let ghost before = self@;
        let ghost usable = worn_out_slots(before.generations, before.free);
        proof {
            lemma_worn_out(before.generations, before.free);
            lemma_count_bound(before.entries);
        }
        let mut turn: usize = 0;
        while turn < TIMERS
            invariant
                turn <= TIMERS,
                before == old(self)@,
                old(self).well_formed(),
                next_order == before.next_insertion_order + 1,
                usable == worn_out_slots(before.generations, before.free),
                usable <= before.free.len() <= TIMERS,
                forall|k: int|
                    0 <= k < usable ==> before.generations[#[trigger] before.free[k]] == u32::MAX,
                usable < before.free.len() ==> before.generations[before.free[usable as int]]
                    < u32::MAX,
                self.well_formed(),
                self@ == (TimersView { free: self@.free, ..before }),
                self@.free.len() == before.free.len(),
                before.free.len() == 0 ==> turn == 0,
                before.free.len() > 0 ==> self@.free == rotated(before.free, turn as nat),
                before.free.len() == 0 ==> self@.free == before.free,
                usable < before.free.len() ==> turn <= usable,
                usable == before.free.len() ==> forall|k: int|
                    0 <= k < self@.free.len() ==> before.generations[#[trigger] self@.free[k]]
                        == u32::MAX,
            decreases TIMERS - turn,
        {
            let ghost turned = self@;
            let index: usize = match self.free.pop() {
                Some(index) => index,
                None => {
                    return Err(RuntimeTimerError::CapacityExhausted);
                },
            };
            proof {
                assert(index == turned.free[0]);
                if usable < before.free.len() {
                    lemma_rotated(before.free, turn as nat);
                    assert(turned.free[0] == before.free[turn as int]);
                }
            }
            let generation: u32 = match self.generations[index].checked_add(1) {
                Some(generation) => generation,
                None => {
                    let restored: bool = self.free.push(index);
                    proof {
                        assert(self@.free == turned.free.skip(1).push(turned.free[0]));
                        lemma_turn_keeps_free_list(turned);
                        assert forall|k: int| 0 <= k < self@.free.len() && usable
                            == before.free.len() implies before.generations[
                            #[trigger] self@.free[k]] == u32::MAX by {
                            if k < turned.free.len() - 1 {
                                assert(self@.free[k] == turned.free[k + 1]);
                            } else {
                                assert(self@.free[k] == turned.free[0]);
                            }
                        }
                    }
                    turn = turn + 1;
                    continue;
                },
            };
            self.entries[index] = Some(
                TimerEntry {
                    owner,
                    kind,
                    deadline_micros,
                    insertion_order: self.next_insertion_order,
                    generation,
                },
            );
            self.generations[index] = generation;
            self.next_insertion_order = next_order;
            proof {
                lemma_armed_is_well_formed(
                    turned,
                    self@,
                    index as int,
                );
                lemma_count_update(turned.entries, index as int, self@.entries[index as int]);
                lemma_count_bound(self@.entries);
                assert forall|p: int| 0 < p < self.heap_len implies #[trigger] edge(
                    self.heap@,
                    self.entries@,
                    p,
                ) by {
                    assert(edge(self.heap@, turned.entries, p));
                    assert(self.heap@[p] != index);
                    assert(self.heap@[parent_of(p)] != index);
                }
            }
            self.heap_push(index);
            return Ok(RuntimeTimerToken { queue: self.identity, index, generation });
        }
        Err(RuntimeTimerError::GenerationExhausted)
    }

    /// Cancels exactly the timer named by `token`.
    ///
    /// Returns `false` for an expired, already cancelled, or foreign token.
    pub fn cancel(&mut self, token: RuntimeTimerToken) -> (cancelled: bool)
        requires
            old(self).well_formed(),
        ensures
            final(self).well_formed(),
            token.queue() != old(self)@.identity ==> !cancelled && final(self)@ == old(self)@,
            cancelled == (token.queue() == old(self)@.identity && old(self)@.is_armed(
                token.slot(),
                token.slot_generation(),
            )),
            final(self)@ == if cancelled {
                old(self)@.without(token.slot())
            } else {
                old(self)@
            },
    {
        if token.queue != self.identity || token.index >= TIMERS {
            return false;
        }
        match self.entries[token.index] {
            Some(entry) => {
                if entry.generation != token.generation {
                    return false;
                }
            },
            None => {
                return false;
            },
        }
        let mut position: usize = 0;
        while position < self.heap_len && self.heap[position] != token.index
            invariant
                position <= self.heap_len <= TIMERS,
                forall|p: int| 0 <= p < position ==> #[trigger] self.heap@[p] != token.index,
            decreases self.heap_len - position,
        {
            position = position + 1;
        }
        proof {
            assert(members(self.heap@, self.heap_len as int).contains(token.index as int));
            let found = choose|p: int|
                0 <= p < self.heap_len && #[trigger] self.heap@[p] == token.index as int;
            assert(position <= found);
        }
        self.disarm(position);
        true
    }

    /// Removes the earliest timer if it has expired at `now_micros`.
    ///
    /// # Errors
    ///
    /// Returns `ClockWentBackwards` without modifying the queue when the event loop supplies a
    /// decreasing monotonic timestamp.
    pub fn pop_expired(&mut self, now_micros: u64) -> (popped: Result<
        Option<RuntimeTimerEvent>,
        RuntimeTimerError,
    >)
        requires
            old(self).well_formed(),
        ensures
            final(self).well_formed(),
            match popped {
                Err(error) => {
                    &&& now_micros < old(self)@.last_poll_micros
                    &&& error == RuntimeTimerError::ClockWentBackwards {
                        previous: old(self)@.last_poll_micros,
                        current: now_micros,
                    }
                    &&& final(self)@ == old(self)@
                },
                Ok(None) => {
                    &&& now_micros >= old(self)@.last_poll_micros
                    &&& forall|i: int|
                        0 <= i < old(self)@.entries.len() ==> (
                        #[trigger] old(self)@.entries[i] matches Some(entry) ==> now_micros
                            < entry.deadline_micros)
                    &&& final(self)@ == (TimersView { last_poll_micros: now_micros, ..old(self)@ })
                },
                Ok(Some(event)) => {
                    &&& now_micros >= old(self)@.last_poll_micros
                    &&& exists|slot: int|
                        #![trigger old(self)@.is_earliest(slot)]
                        {
                            &&& old(self)@.is_earliest(slot)
                            &&& old(self)@.entries[slot]->0.deadline_micros <= now_micros
                            &&& event == old(self)@.entries[slot]->0.event()
                            &&& final(self)@ == (TimersView {
                                last_poll_micros: now_micros,
                                ..old(self)@.without(slot)
                            })
                        }
                },
            },
    {
        if now_micros < self.last_poll_micros {
            return Err(
                RuntimeTimerError::ClockWentBackwards {
                    previous: self.last_poll_micros,
                    current: now_micros,
                },
            );
        }
        self.last_poll_micros = now_micros;
        if self.heap_len == 0 {
            proof {
                assert forall|i: int| 0 <= i < old(self)@.entries.len() implies (
                #[trigger] old(self)@.entries[i] matches Some(entry) ==> now_micros
                    < entry.deadline_micros) by {
                    if old(self)@.entries[i] is Some {
                        assert(members(old(self).heap@, 0).contains(i));
                    }
                }
            }
            return Ok(None);
        }
        let index: usize = self.heap[0];
        proof {
            self.lemma_root_is_earliest();
        }
        match self.entries[index] {
            Some(entry) => {
                if entry.deadline_micros > now_micros {
                    proof {
                        assert forall|i: int| 0 <= i < old(self)@.entries.len() implies (
                        #[trigger] old(self)@.entries[i] matches Some(other) ==> now_micros
                            < other.deadline_micros) by {
                            if i != index {
                                assert(self@.entries[i] is Some ==> entry.precedes(
                                    self@.entries[i]->0,
                                ));
                            }
                        }
                    }
                    return Ok(None);
                }
                self.disarm(0);
                assert(old(self)@.is_earliest(index as int));
                Ok(
                    Some(
                        RuntimeTimerEvent {
                            owner: entry.owner,
                            kind: entry.kind,
                            deadline_micros: entry.deadline_micros,
                        },
                    ),
                )
            },
            None => Err(RuntimeTimerError::InvariantViolation),
        }
    }

    /// Returns the earliest armed deadline.
    pub fn next_deadline_micros(&self) -> (deadline: Option<u64>)
        requires
            self.well_formed(),
        ensures
            match deadline {
                Some(deadline) => exists|slot: int|
                    #![trigger self@.is_earliest(slot)]
                    self@.is_earliest(slot) && self@.entries[slot]->0.deadline_micros == deadline,
                None => armed_count(self@.entries) == 0,
            },
    {
        if self.heap_len == 0 {
            return None;
        }
        let index: usize = self.heap[0];
        proof {
            self.lemma_root_is_earliest();
        }
        match self.entries[index] {
            Some(entry) => {
                assert(self@.is_earliest(index as int));
                Some(entry.deadline_micros)
            },
            None => None,
        }
    }

    /// Returns the number of armed timers.
    pub fn len(&self) -> (length: usize)
        requires
            self.well_formed(),
        ensures
            length == armed_count(self@.entries),
    {
        self.heap_len
    }

    /// Returns whether no timer is armed.
    pub fn is_empty(&self) -> (empty: bool)
        requires
            self.well_formed(),
        ensures
            empty == (armed_count(self@.entries) == 0),
    {
        self.heap_len == 0
    }

    proof fn lemma_root_is_earliest(&self)
        requires
            self.well_formed(),
            self.heap_len > 0,
        ensures
            self@.is_earliest(self.heap@[0] as int),
    {
        let root = self.heap@[0] as int;
        assert forall|other: int| 0 <= other < self@.entries.len() && other != root implies (
        #[trigger] self@.entries[other] matches Some(entry) ==> self@.entries[root]->0.precedes(
            entry,
        )) by {
            if self@.entries[other] is Some {
                assert(members(self.heap@, self.heap_len as int).contains(other));
                let p = choose|p: int| 0 <= p < self.heap_len && #[trigger] self.heap@[p] == other;
                lemma_root_is_least(self.heap@, self.heap_len as int, self.entries@, p);
                if root < other {
                    assert(self@.entries[root] is Some);
                } else {
                    assert(self@.entries[other] is Some);
                }
            }
        }
    }

    /// Takes the timer at a heap position out of the queue.
    fn disarm(&mut self, position: usize)
        requires
            old(self).well_formed(),
            position < old(self).heap_len,
        ensures
            final(self).well_formed(),
            final(self)@ == old(self)@.without(old(self).heap@[position as int] as int),
    {
        let index: usize = self.heap[position];
        let ghost before = self@;
        self.heap_remove(position);
        let ghost heap = self.heap@;
        let ghost length = self.heap_len as int;
        self.entries[index] = None;
        proof {
            lemma_count_update(before.entries, index as int, None);
            lemma_count_bound(self@.entries);
            lemma_count_bound(before.entries);
        }
        let restored: bool = self.free.push(index);
        proof {
            assert(self@.entries =~= before.entries.update(index as int, None));
            assert(!members(heap, length).contains(index as int));
            assert forall|p: int| 0 <= p < length implies (#[trigger] heap[p]) < TIMERS
                && self.entries@[heap[p] as int] is Some by {
                assert(members(heap, length).contains(heap[p] as int));
            }
            assert forall|p: int| 0 < p < length implies #[trigger] edge(
                heap,
                self.entries@,
                p,
            ) by {
                assert(edge(heap, before.entries, p));
                assert(members(heap, length).contains(heap[p] as int));
                assert(members(heap, length).contains(heap[parent_of(p)] as int));
            }
            assert forall|slot: int| 0 <= slot < TIMERS && (
            #[trigger] self.entries@[slot]) is Some implies members(heap, length).contains(
                slot,
            ) by {
                assert(before.entries[slot] is Some);
                assert(members(old(self).heap@, old(self).heap_len as int).contains(slot));
            }
            assert(self@.free_is_listed());
        }
    }

    /// Adds a timer to the heap.
    fn heap_push(&mut self, index: usize)
        requires
            old(self)@.well_formed(),
            old(self).free.well_formed(),
            index < TIMERS,
            old(self).entries@[index as int] is Some,
            old(self).heap_len + 1 == armed_count(old(self).entries@) <= TIMERS,
            names_timers(old(self).heap@, old(self).heap_len as int, old(self).entries@),
            is_heap(old(self).heap@, old(self).heap_len as int, old(self).entries@),
            forall|p: int| 0 <= p < old(self).heap_len ==> #[trigger] old(self).heap@[p] != index,
            forall|slot: int|
                0 <= slot < TIMERS && slot != index && (
                #[trigger] old(self).entries@[slot]) is Some ==> members(
                    old(self).heap@,
                    old(self).heap_len as int,
                ).contains(slot),
        ensures
            final(self).well_formed(),
            final(self)@ == old(self)@,
    {
        let ghost before = self.heap@;
        let ghost length = self.heap_len as int;
        let start: usize = self.heap_len;
        self.heap[start] = index;
        self.heap_len = self.heap_len + 1;
        proof {
            let heap = self.heap@;
            assert forall|p: int| 0 < p < length + 1 && p != start implies #[trigger] edge(
                heap,
                self.entries@,
                p,
            ) by {
                assert(edge(before, self.entries@, p));
            }
            assert forall|slot: int| 0 <= slot < TIMERS && (
            #[trigger] self.entries@[slot]) is Some implies members(heap, length + 1).contains(
                slot,
            ) by {
                if slot == index {
                    assert(heap[length] == slot);
                } else {
                    assert(members(before, length).contains(slot));
                    let p = choose|p: int| 0 <= p < length && #[trigger] before[p] == slot;
                    assert(heap[p] == slot);
                }
            }
        }
        self.sift_up(start);
    }

    /// Moves a timer towards the root until it fires no earlier than its parent.
    fn sift_up(&mut self, start: usize)
        requires
            start < old(self).heap_len,
            names_timers(old(self).heap@, old(self).heap_len as int, old(self).entries@),
            forall|p: int|
                0 < p < old(self).heap_len && p != start ==> #[trigger] edge(
                    old(self).heap@,
                    old(self).entries@,
                    p,
                ),
            start > 0 ==> forall|p: int|
                0 < p < old(self).heap_len && parent_of(p) == start ==> in_order(
                    old(self).entries@,
                    old(self).heap@[parent_of(start as int)] as int,
                    #[trigger] old(self).heap@[p] as int,
                ),
        ensures
            *final(self) == (RuntimeTimerQueue { heap: final(self).heap, ..*old(self) }),
            names_timers(final(self).heap@, final(self).heap_len as int, final(self).entries@),
            is_heap(final(self).heap@, final(self).heap_len as int, final(self).entries@),
            members(final(self).heap@, final(self).heap_len as int) == members(
                old(self).heap@,
                old(self).heap_len as int,
            ),
    {
        let mut position: usize = start;
        while position != 0
            invariant_except_break
                position < self.heap_len,
                names_timers(self.heap@, self.heap_len as int, self.entries@),
                *self == (RuntimeTimerQueue { heap: self.heap, ..*old(self) }),
                members(self.heap@, self.heap_len as int) == members(
                    old(self).heap@,
                    old(self).heap_len as int,
                ),
                forall|p: int|
                    0 < p < self.heap_len && p != position ==> #[trigger] edge(
                        self.heap@,
                        self.entries@,
                        p,
                    ),
                position > 0 ==> forall|p: int|
                    0 < p < self.heap_len && parent_of(p) == position ==> in_order(
                        self.entries@,
                        self.heap@[parent_of(position as int)] as int,
                        #[trigger] self.heap@[p] as int,
                    ),
            ensures
                names_timers(self.heap@, self.heap_len as int, self.entries@),
                *self == (RuntimeTimerQueue { heap: self.heap, ..*old(self) }),
                members(self.heap@, self.heap_len as int) == members(
                    old(self).heap@,
                    old(self).heap_len as int,
                ),
                is_heap(self.heap@, self.heap_len as int, self.entries@),
            decreases position,
        {
            let parent: usize = (position - 1) / 2;
            let ghost heap = self.heap@;
            let ghost length = self.heap_len as int;
            let ghost entries = self.entries@;
            let upper: usize = self.heap[parent];
            let lower: usize = self.heap[position];
            assert(heap[parent as int] == upper && heap[position as int] == lower);
            if !self.timer_precedes(lower, upper) {
                assert(edge(heap, entries, position as int));
                break;
            }
            self.heap[position] = upper;
            self.heap[parent] = lower;
            proof {
                let after = self.heap@;
                assert(after =~= swapped(heap, position as int, parent as int));
                lemma_swap_keeps_members(heap, length, entries, position as int, parent as int);
                assert forall|p: int| 0 < p < length && p != parent implies #[trigger] edge(
                    after,
                    entries,
                    p,
                ) by {
                    if p != position {
                        assert(edge(heap, entries, p));
                        if parent_of(p) == position {
                            assert(in_order(entries, upper as int, heap[p] as int));
                        }
                    }
                }
                if parent > 0 {
                    assert(edge(heap, entries, parent as int));
                    assert forall|p: int| 0 < p < length && parent_of(p) == parent implies in_order(
                        entries,
                        after[parent_of(parent as int)] as int,
                        #[trigger] after[p] as int,
                    ) by {
                        if p != position {
                            assert(edge(heap, entries, p));
                        }
                    }
                }
            }
            position = parent;
        }
    }

    /// Moves a timer away from the root until it fires no later than its children.
    fn sift_down(&mut self, start: usize)
        requires
            start < old(self).heap_len,
            names_timers(old(self).heap@, old(self).heap_len as int, old(self).entries@),
            forall|p: int|
                0 < p < old(self).heap_len && parent_of(p) != start ==> #[trigger] edge(
                    old(self).heap@,
                    old(self).entries@,
                    p,
                ),
            start > 0 ==> forall|p: int|
                0 < p < old(self).heap_len && parent_of(p) == start ==> in_order(
                    old(self).entries@,
                    old(self).heap@[parent_of(start as int)] as int,
                    #[trigger] old(self).heap@[p] as int,
                ),
        ensures
            *final(self) == (RuntimeTimerQueue { heap: final(self).heap, ..*old(self) }),
            names_timers(final(self).heap@, final(self).heap_len as int, final(self).entries@),
            is_heap(final(self).heap@, final(self).heap_len as int, final(self).entries@),
            members(final(self).heap@, final(self).heap_len as int) == members(
                old(self).heap@,
                old(self).heap_len as int,
            ),
    {
        let mut current: usize = start;
        while current < self.heap_len / 2
            invariant_except_break
                current < self.heap_len,
                names_timers(self.heap@, self.heap_len as int, self.entries@),
                *self == (RuntimeTimerQueue { heap: self.heap, ..*old(self) }),
                members(self.heap@, self.heap_len as int) == members(
                    old(self).heap@,
                    old(self).heap_len as int,
                ),
                forall|p: int|
                    0 < p < self.heap_len && parent_of(p) != current ==> #[trigger] edge(
                        self.heap@,
                        self.entries@,
                        p,
                    ),
                current > 0 ==> forall|p: int|
                    0 < p < self.heap_len && parent_of(p) == current ==> in_order(
                        self.entries@,
                        self.heap@[parent_of(current as int)] as int,
                        #[trigger] self.heap@[p] as int,
                    ),
            ensures
                names_timers(self.heap@, self.heap_len as int, self.entries@),
                *self == (RuntimeTimerQueue { heap: self.heap, ..*old(self) }),
                members(self.heap@, self.heap_len as int) == members(
                    old(self).heap@,
                    old(self).heap_len as int,
                ),
                is_heap(self.heap@, self.heap_len as int, self.entries@),
            decreases self.heap_len - current,
        {
            let left: usize = 2 * current + 1;
            let ghost heap = self.heap@;
            let ghost length = self.heap_len as int;
            let ghost entries = self.entries@;
            let mut smallest: usize = left;
            assert(heap[left as int] < TIMERS);
            if left + 1 < self.heap_len {
                assert(heap[left + 1] < TIMERS);
                if self.timer_precedes(self.heap[left + 1], self.heap[left]) {
                    smallest = left + 1;
                }
            }
            let upper: usize = self.heap[current];
            let lower: usize = self.heap[smallest];
            assert(heap[current as int] == upper && heap[smallest as int] == lower);
            proof {
                assert forall|p: int| 0 < p < length && parent_of(p) == current implies in_order(
                    entries,
                    lower as int,
                    #[trigger] heap[p] as int,
                ) by {
                    assert(p == left || p == left + 1);
                }
            }
            if !self.timer_precedes(lower, upper) {
                proof {
                    assert forall|p: int| 0 < p < length implies #[trigger] edge(
                        heap,
                        entries,
                        p,
                    ) by {
                        if parent_of(p) == current {
                            assert(in_order(entries, lower as int, heap[p] as int));
                        }
                    }
                }
                break;
            }
            self.heap[current] = lower;
            self.heap[smallest] = upper;
            proof {
                let after = self.heap@;
                assert(after =~= swapped(heap, current as int, smallest as int));
                lemma_swap_keeps_members(heap, length, entries, current as int, smallest as int);
                assert forall|p: int| 0 < p < length && parent_of(
                    p,
                ) != smallest implies #[trigger] edge(after, entries, p) by {
                    if parent_of(p) == current {
                        if p != smallest {
                            assert(in_order(entries, lower as int, heap[p] as int));
                        }
                    } else {
                        assert(edge(heap, entries, p));
                        if p == current {
                            assert(in_order(
                                entries,
                                heap[parent_of(current as int)] as int,
                                heap[smallest as int] as int,
                            ));
                        }
                    }
                }
                assert forall|p: int| 0 < p < length && parent_of(p) == smallest implies in_order(
                    entries,
                    after[parent_of(smallest as int)] as int,
                    #[trigger] after[p] as int,
                ) by {
                    assert(edge(heap, entries, p));
                    assert(after[p] == heap[p]);
                    assert(parent_of(smallest as int) == current);
                }
            }
            current = smallest;
        }
    }

    /// Takes a position out of the heap.
    fn heap_remove(&mut self, position: usize)
        requires
            old(self).well_formed(),
            position < old(self).heap_len,
        ensures
            *final(self) == (RuntimeTimerQueue {
                heap: final(self).heap,
                heap_len: final(self).heap_len,
                ..*old(self)
            }),
            final(self).heap_len + 1 == old(self).heap_len,
            names_timers(final(self).heap@, final(self).heap_len as int, final(self).entries@),
            is_heap(final(self).heap@, final(self).heap_len as int, final(self).entries@),
            members(final(self).heap@, final(self).heap_len as int) == members(
                old(self).heap@,
                old(self).heap_len as int,
            ).remove(old(self).heap@[position as int] as int),
    {
        let ghost heap = self.heap@;
        let ghost length = self.heap_len as int;
        let ghost entries = self.entries@;
        let last: usize = self.heap_len - 1;
        self.heap_len = last;
        if position == last {
            proof {
                lemma_removed_last(heap, length, entries);
                assert forall|p: int| 0 < p < last implies #[trigger] edge(heap, entries, p) by {}
            }
            return;
        }
        let moved: usize = self.heap[last];
        self.heap[position] = moved;
        let ghost after = self.heap@;
        proof {
            lemma_removed_inside(heap, length, entries, position as int);
            assert(after =~= heap.update(position as int, heap[last as int]));
            assert forall|p: int| 0 < p < last && p != position && parent_of(
                p,
            ) != position implies #[trigger] edge(after, entries, p) by {
                assert(edge(heap, entries, p));
            }
            if position > 0 {
                assert(edge(heap, entries, position as int));
                assert forall|p: int| 0 < p < last && parent_of(p) == position implies in_order(
                    entries,
                    after[parent_of(position as int)] as int,
                    #[trigger] after[p] as int,
                ) by {
                    assert(edge(heap, entries, p));
                    assert(after[p] == heap[p]);
                }
            }
        }
        if position != 0 {
            let parent: usize = (position - 1) / 2;
            assert(after[parent as int] < TIMERS && after[position as int] < TIMERS);
            if self.timer_precedes(self.heap[position], self.heap[parent]) {
                proof {
                    assert forall|p: int| 0 < p < last && p != position implies #[trigger] edge(
                        after,
                        entries,
                        p,
                    ) by {
                        if parent_of(p) == position {
                            assert(in_order(
                                entries,
                                after[parent as int] as int,
                                after[p] as int,
                            ));
                        }
                    }
                }
                self.sift_up(position);
                return;
            }
        }
        proof {
            assert forall|p: int| 0 < p < last && parent_of(p) != position implies #[trigger] edge(
                after,
                entries,
                p,
            ) by {
                if p == position {
                    assert(parent_of(p) == parent_of(position as int));
                }
            }
        }
        self.sift_down(position);
    }

    fn timer_precedes(&self, left: usize, right: usize) -> (precedes: bool)
        requires
            left < TIMERS,
            right < TIMERS,
            self.entries@[left as int] is Some,
            self.entries@[right as int] is Some,
        ensures
            precedes == self.entries@[left as int]->0.precedes(self.entries@[right as int]->0),
    {
        match (self.entries[left], self.entries[right]) {
            (Some(left), Some(right)) => left.deadline_micros < right.deadline_micros
                || left.deadline_micros == right.deadline_micros && left.insertion_order
                < right.insertion_order,
            _ => false,
        }
    }

    /// Returns a text for diagnostics that shows no deadline.
    pub fn debug_text(&self) -> (text: String)
        requires
            self.well_formed(),
        ensures
            text@ == "RuntimeTimerQueue { armed: "@ + decimal(armed_count(self@.entries))
                + ", capacity: "@ + decimal(TIMERS as nat) + ", deadlines: \"<redacted>\", .. }"@,
    {
        with_two_numbers(
            "RuntimeTimerQueue { armed: ",
            self.heap_len as u64,
            ", capacity: ",
            TIMERS as u64,
            ", deadlines: \"<redacted>\", .. }",
        )
    }
}

proof fn lemma_armed_is_well_formed(before: TimersView, after: TimersView, slot: int)
    requires
        before.well_formed(),
        before.free.len() > 0,
        slot == before.free[0],
        before.next_insertion_order < u64::MAX,
        after.entries[slot] is Some,
        after.entries == before.entries.update(slot, after.entries[slot]),
        after.generations == before.generations.update(slot, after.entries[slot]->0.generation),
        after.free == before.free.skip(1),
        after.next_insertion_order == before.next_insertion_order + 1,
        after.entries[slot]->0.insertion_order == before.next_insertion_order,
    ensures
        after.well_formed(),
{
    lemma_count_update(before.entries, slot, after.entries[slot]);
    assert forall|k: int| 0 <= k < after.free.len() implies 0 <= #[trigger] after.free[k]
        < after.entries.len() && after.entries[after.free[k]] is None by {
        assert(after.free[k] == before.free[k + 1]);
        assert(before.free[0] != before.free[k + 1]);
    }
    assert forall|k: int, l: int| 0 <= k < l < after.free.len() implies #[trigger] after.free[k]
        != #[trigger] after.free[l] by {
        assert(after.free[k] == before.free[k + 1]);
        assert(after.free[l] == before.free[l + 1]);
    }
    assert forall|i: int| 0 <= i < after.entries.len() implies (
    #[trigger] after.entries[i] matches Some(entry) ==> entry.generation == after.generations[i]
        && entry.insertion_order < after.next_insertion_order) by {
        if i != slot {
            assert(after.entries[i] == before.entries[i]);
        }
    }
    assert forall|i: int, j: int| 0 <= i < j < after.entries.len() implies (
    #[trigger] after.entries[i] matches Some(left) ==> (#[trigger] after.entries[j] matches Some(
        right,
    ) ==> left.insertion_order != right.insertion_order)) by {
        if i != slot {
            assert(after.entries[i] == before.entries[i]);
        }
        if j != slot {
            assert(after.entries[j] == before.entries[j]);
        }
    }
}

proof fn lemma_removed_last(heap: Seq<usize>, length: int, entries: Seq<Option<TimerEntry>>)
    requires
        names_timers(heap, length, entries),
        length > 0,
    ensures
        names_timers(heap, length - 1, entries),
        members(heap, length - 1) == members(heap, length).remove(heap[length - 1] as int),
{
    let removed = heap[length - 1] as int;
    assert forall|slot: int| #[trigger]
        members(heap, length - 1).contains(slot) == members(heap, length).remove(
            removed,
        ).contains(slot) by {
        if members(heap, length - 1).contains(slot) {
            let p = choose|p: int| 0 <= p < length - 1 && #[trigger] heap[p] == slot;
            assert(heap[p] != heap[length - 1]);
        }
        if members(heap, length).contains(slot) && slot != removed {
            let p = choose|p: int| 0 <= p < length && #[trigger] heap[p] == slot;
            assert(p < length - 1);
        }
    }
    assert(members(heap, length - 1) =~= members(heap, length).remove(removed));
}

proof fn lemma_removed_inside(
    heap: Seq<usize>,
    length: int,
    entries: Seq<Option<TimerEntry>>,
    position: int,
)
    requires
        names_timers(heap, length, entries),
        0 <= position < length - 1,
    ensures
        names_timers(heap.update(position, heap[length - 1]), length - 1, entries),
        members(heap.update(position, heap[length - 1]), length - 1) == members(
            heap,
            length,
        ).remove(heap[position] as int),
{
    let after = heap.update(position, heap[length - 1]);
    let removed = heap[position] as int;
    assert forall|slot: int| #[trigger]
        members(after, length - 1).contains(slot) == members(heap, length).remove(
            removed,
        ).contains(slot) by {
        if members(after, length - 1).contains(slot) {
            let p = choose|p: int| 0 <= p < length - 1 && #[trigger] after[p] == slot;
            if p == position {
                assert(heap[length - 1] == slot);
                assert(heap[position] != heap[length - 1]);
            } else {
                assert(heap[p] == slot);
                assert(heap[p] != heap[position]);
            }
        }
        if members(heap, length).contains(slot) && slot != removed {
            let p = choose|p: int| 0 <= p < length && #[trigger] heap[p] == slot;
            if p == length - 1 {
                assert(after[position] == slot);
            } else {
                assert(after[p] == slot);
            }
        }
    }
    assert(members(after, length - 1) =~= members(heap, length).remove(removed));
}

impl<const TIMERS: usize> Default for RuntimeTimerQueue<TIMERS> {
    fn default() -> (timers: RuntimeTimerQueue<TIMERS>)
        ensures
            timers.well_formed(),
            timers@ == TimersView::unused(timers@.identity, TIMERS as nat),
    {
        RuntimeTimerQueue::new()
    }
}

/// Bounded timer-queue failure.
#[derive(Clone, Copy, Debug, PartialEq, Eq, Structural)]
pub enum RuntimeTimerError {
    CapacityExhausted,
    CounterExhausted,
    GenerationExhausted,
    ClockWentBackwards { previous: u64, current: u64 },
    InvariantViolation,
}

impl RuntimeTimerError {
    /// The diagnostic text of a failure.
    pub open spec fn message_text(self) -> Seq<char> {
        match self {
            RuntimeTimerError::CapacityExhausted => "fixed timer capacity exhausted"@,
            RuntimeTimerError::CounterExhausted => "timer insertion counter exhausted"@,
            RuntimeTimerError::GenerationExhausted => "timer generation exhausted"@,
            RuntimeTimerError::ClockWentBackwards { previous, current } =>
            "monotonic clock moved backwards from "@ + decimal(previous as nat) + " to "@ + decimal(
                current as nat,
            ) + " microseconds"@,
            RuntimeTimerError::InvariantViolation => "timer queue invariant violation"@,
        }
    }

    /// Returns the diagnostic text of this failure.
    pub fn message(&self) -> (text: String)
        ensures
            text@ == self.message_text(),
    {
        match *self {
            RuntimeTimerError::CapacityExhausted => fixed("fixed timer capacity exhausted"),
            RuntimeTimerError::CounterExhausted => fixed("timer insertion counter exhausted"),
            RuntimeTimerError::GenerationExhausted => fixed("timer generation exhausted"),
            RuntimeTimerError::ClockWentBackwards { previous, current } => with_two_numbers(
                "monotonic clock moved backwards from ",
                previous,
                " to ",
                current,
                " microseconds",
            ),
            RuntimeTimerError::InvariantViolation => fixed("timer queue invariant violation"),
        }
    }
}

/// Timers fire in one order only: at most one timer is the earliest.
pub proof fn lemma_earliest_is_unique(timers: TimersView, left: int, right: int)
    requires
        timers.is_earliest(left),
        timers.is_earliest(right),
    ensures
        left == right,
{
    if left != right {
        assert(timers.entries[right] is Some);
        assert(timers.entries[left] is Some);
    }
}

/// Of two timers with equal deadlines, the one armed first fires first.
pub proof fn lemma_equal_deadlines_fire_in_insertion_order(
    timers: TimersView,
    owner: TimerOwner,
    kind: RuntimeTimerKind,
    deadline_micros: u64,
    earlier: int,
)
    requires
        timers.well_formed(),
        timers.arm_failure() is None,
        0 <= earlier < timers.entries.len(),
        timers.entries[earlier] is Some,
        timers.entries[earlier]->0.deadline_micros == deadline_micros,
        timers.next_slot() != earlier,
    ensures
        ({
            let after = timers.armed(owner, kind, deadline_micros);
            after.entries[earlier]->0.precedes(after.entries[timers.next_slot()]->0)
        }),
{
    lemma_worn_out(timers.generations, timers.free);
    let slot = timers.next_slot();
    assert(0 <= slot < timers.entries.len());
}

/// A token never names another timer: cancelling with it does nothing once its timer is gone, even
/// if the slot is armed again.
pub proof fn lemma_stale_tokens_cancel_nothing(
    timers: TimersView,
    slot: int,
    generation: u32,
    later: TimersView,
    owner: TimerOwner,
    kind: RuntimeTimerKind,
    deadline_micros: u64,
)
    requires
        timers.well_formed(),
        timers.is_armed(slot, generation),
        later.well_formed(),
        later.entries.len() == timers.entries.len(),
        later.generations[slot] == timers.generations[slot],
        later.entries[slot] is None,
        later.arm_failure() is None,
    ensures
        !timers.without(slot).is_armed(slot, generation),
        !later.armed(owner, kind, deadline_micros).is_armed(slot, generation),
{
    lemma_worn_out(later.generations, later.free);
    assert(timers.entries[slot]->0.generation == timers.generations[slot]);
    let armed = later.next_slot();
    assert(0 <= armed < later.entries.len());
}

} // verus!
