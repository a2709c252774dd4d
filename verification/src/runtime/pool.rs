//! Fixed datagram arena with explicit buffer ownership.

use vstd::prelude::*;
use zeroize::Zeroize;

use crate::bytes::{clear_prefix, overwrite_prefix, part, zeroes};
use crate::runtime::identity::QueueIdentity;
use crate::runtime::index_queue::IndexQueue;
use crate::runtime::{NonZeroU16, RuntimeQueueError};

verus! {

/// Owner of one buffer.
#[derive(Clone, Copy, Debug, PartialEq, Eq, Structural)]
pub enum SlotState {
    Free,
    Reserved,
    Ready,
    Held,
    KernelOwned,
}

/// What one slot of an arena holds.
pub struct SlotView<M> {
    pub state: SlotState,
    pub generation: u32,
    pub bytes: Seq<u8>,
    pub length: nat,
    pub metadata: Option<M>,
}

impl<M> SlotView<M> {
    /// Whether a slot is free and nothing is left in it.
    pub open spec fn is_erased(self, buffer_size: nat) -> bool {
        &&& self.state == SlotState::Free
        &&& self.bytes == zeroes(buffer_size)
        &&& self.length == 0
        &&& self.metadata is None
    }
}

/// Whether one of the tokens names a buffer.
pub open spec fn names(tokens: Seq<PoolToken>, index: int) -> bool {
    exists|i: int| 0 <= i < tokens.len() && (#[trigger] tokens[i]).index == index
}

/// What an arena holds: its slots, and the order in which free and ready ones are handed out.
pub struct PoolView<M> {
    pub identity: QueueIdentity,
    pub slots: Seq<SlotView<M>>,
    pub free: Seq<int>,
    pub ready: Seq<int>,
}

/// Number of slots in a state.
pub open spec fn count_in<M>(slots: Seq<SlotView<M>>, state: SlotState) -> nat
    decreases slots.len(),
{
    if slots.len() == 0 {
        0
    } else {
        count_in(slots.drop_last(), state) + if slots.last().state == state {
            1nat
        } else {
            0nat
        }
    }
}

/// Whether a queue lists exactly the slots in a state, each once.
pub open spec fn lists<M>(slots: Seq<SlotView<M>>, queue: Seq<int>, state: SlotState) -> bool {
    &&& forall|k: int|
        0 <= k < queue.len() ==> 0 <= #[trigger] queue[k] < slots.len() && slots[queue[k]].state
            == state
    &&& forall|k: int, l: int|
        0 <= k < l < queue.len() ==> #[trigger] queue[k] != #[trigger] queue[l]
    &&& queue.len() == count_in(slots, state)
}

/// A queue whose first `turns` entries have been moved to its end one after the other.
pub open spec fn rotated(queue: Seq<int>, turns: nat) -> Seq<int>
    decreases turns,
{
    if turns == 0 {
        queue
    } else {
        let before = rotated(queue, (turns - 1) as nat);
        before.skip(1).push(before[0])
    }
}

/// Number of slots at the front of a queue that can never be used again.
pub open spec fn worn_out_prefix<M>(slots: Seq<SlotView<M>>, queue: Seq<int>) -> nat
    decreases queue.len(),
{
    if queue.len() == 0 || slots[queue[0]].generation < u32::MAX {
        0
    } else {
        1 + worn_out_prefix(slots, queue.skip(1))
    }
}

/// The failure of a datagram's length and segment size, if any: the checks in order.
pub open spec fn datagram_shape_failure(
    length: nat,
    segment_size: Option<NonZeroU16>,
    capacity: nat,
) -> Option<RuntimeQueueError> {
    if length == 0 {
        Some(RuntimeQueueError::EmptyDatagram)
    } else if length > capacity {
        Some(
            RuntimeQueueError::DatagramTooLarge {
                length: length as usize,
                capacity: capacity as usize,
            },
        )
    } else if segment_size is Some && segment_size->0.number() > length {
        Some(
            RuntimeQueueError::InvalidSegmentSize {
                segment_size: segment_size->0.number() as usize,
                length: length as usize,
            },
        )
    } else {
        None
    }
}

impl<M> PoolView<M> {
    /// An arena with every slot free and zeroed.
    pub open spec fn unused(
        identity: QueueIdentity,
        slots: nat,
        buffer_size: nat,
    ) -> PoolView<M> {
        PoolView {
            identity,
            slots: Seq::new(
                slots,
                |i: int|
                    SlotView {
                        state: SlotState::Free,
                        generation: 0u32,
                        bytes: zeroes(buffer_size),
                        length: 0nat,
                        metadata: None::<M>,
                    },
            ),
            free: Seq::new(slots, |i: int| i),
            ready: Seq::empty(),
        }
    }

    /// What every arena keeps.
    pub open spec fn well_formed(self, buffer_size: nat) -> bool {
        &&& forall|i: int|
            0 <= i < self.slots.len() ==> (#[trigger] self.slots[i]).bytes.len() == buffer_size
                && self.slots[i].length <= buffer_size
        &&& forall|i: int|
            0 <= i < self.slots.len() ==> ((#[trigger] self.slots[i]).metadata is Some <==> (
            self.slots[i].state is Ready || self.slots[i].state is Held
                || self.slots[i].state is KernelOwned))
        &&& forall|i: int|
            0 <= i < self.slots.len() ==> ((#[trigger] self.slots[i]).metadata is Some
                <==> self.slots[i].length > 0)
        &&& lists(self.slots, self.free, SlotState::Free)
        &&& lists(self.slots, self.ready, SlotState::Ready)
    }

    /// Whether a token names a buffer in a state.
    pub open spec fn owns(self, index: int, generation: u32, state: SlotState) -> bool {
        &&& 0 <= index < self.slots.len()
        &&& self.slots[index].generation == generation
        &&& self.slots[index].state == state
    }

    /// The arena with another state of a slot.
    pub open spec fn moved(self, index: int, state: SlotState) -> PoolView<M> {
        PoolView {
            slots: self.slots.update(index, SlotView { state, ..self.slots[index] }),
            ..self
        }
    }

    /// The failure of reserving a buffer, if any.
    pub open spec fn reserve_failure(self) -> Option<RuntimeQueueError> {
        if self.slots.len() == 0 {
            Some(RuntimeQueueError::GenerationExhausted)
        } else if self.free.len() == 0 {
            Some(RuntimeQueueError::PoolExhausted)
        } else if worn_out_prefix(self.slots, self.free) == self.free.len() {
            Some(RuntimeQueueError::GenerationExhausted)
        } else {
            None
        }
    }

    /// The slot that is reserved next: the longest free one that can still be used.
    pub open spec fn next_reserved(self) -> int {
        self.free[worn_out_prefix(self.slots, self.free) as int]
    }

    /// The arena after a failure to reserve.
    pub open spec fn not_reserved(self) -> PoolView<M> {
        if self.free.len() == 0 {
            self
        } else {
            PoolView { free: rotated(self.free, self.slots.len()), ..self }
        }
    }

    /// The arena after the next buffer has been reserved.
    pub open spec fn reserved(self) -> PoolView<M> {
        let index = self.next_reserved();
        PoolView {
            slots: self.slots.update(
                index,
                SlotView {
                    state: SlotState::Reserved,
                    generation: (self.slots[index].generation + 1) as u32,
                    ..self.slots[index]
                },
            ),
            free: rotated(self.free, worn_out_prefix(self.slots, self.free)).skip(1),
            ..self
        }
    }

    /// The arena with other bytes in a buffer.
    pub open spec fn written(self, index: int, bytes: Seq<u8>) -> PoolView<M> {
        PoolView {
            slots: self.slots.update(index, SlotView { bytes, ..self.slots[index] }),
            ..self
        }
    }

    /// Whether tokens name different reserved buffers.
    pub open spec fn owns_batch(self, tokens: Seq<PoolToken>) -> bool {
        &&& forall|i: int|
            0 <= i < tokens.len() ==> self.owns(
                (#[trigger] tokens[i]).index as int,
                tokens[i].generation,
                SlotState::Reserved,
            )
        &&& forall|i: int, j: int|
            0 <= i < j < tokens.len() ==> (#[trigger] tokens[i]).index != (
            #[trigger] tokens[j]).index
    }

    /// Whether `after` is the arena with other bytes in the buffers that tokens name, and with
    /// nothing else changed.
    pub open spec fn has_written(
        self,
        after: PoolView<M>,
        tokens: Seq<PoolToken>,
        bytes: Seq<Seq<u8>>,
    ) -> bool {
        &&& after == (PoolView { slots: after.slots, ..self })
        &&& after.slots.len() == self.slots.len()
        &&& forall|i: int|
            0 <= i < tokens.len() ==> after.slots[(#[trigger] tokens[i]).index as int] == (
            SlotView { bytes: bytes[i], ..self.slots[tokens[i].index as int] })
        &&& forall|k: int|
            0 <= k < self.slots.len() && !names(tokens, k) ==> #[trigger] after.slots[k]
                == self.slots[k]
    }

    /// The arena after a reserved buffer has become ready.
    pub open spec fn committed(self, index: int, length: nat, metadata: M) -> PoolView<M> {
        PoolView {
            slots: self.slots.update(
                index,
                SlotView {
                    state: SlotState::Ready,
                    length,
                    metadata: Some(metadata),
                    ..self.slots[index]
                },
            ),
            ready: self.ready.push(index),
            ..self
        }
    }

    /// The arena after the first `erased` bytes of a buffer have been erased and the buffer has
    /// become free.
    pub open spec fn released(self, index: int, erased: nat) -> PoolView<M> {
        PoolView {
            slots: self.slots.update(
                index,
                SlotView {
                    state: SlotState::Free,
                    generation: self.slots[index].generation,
                    bytes: overwrite_prefix(self.slots[index].bytes, zeroes(erased)),
                    length: 0,
                    metadata: None,
                },
            ),
            free: self.free.push(index),
            ..self
        }
    }

    /// The arena after the oldest ready buffer has been handed out.
    pub open spec fn popped(self) -> PoolView<M> {
        PoolView { ready: self.ready.skip(1), ..self.moved(self.ready[0], SlotState::Held) }
    }

    /// The arena after a buffer that was handed out has become ready again.
    pub open spec fn requeued(self, index: int) -> PoolView<M> {
        PoolView { ready: self.ready.push(index), ..self.moved(index, SlotState::Ready) }
    }
}

proof fn lemma_count_bound<M>(slots: Seq<SlotView<M>>, state: SlotState)
    ensures
        count_in(slots, state) <= slots.len(),
    decreases slots.len(),
{
    if slots.len() > 0 {
        lemma_count_bound(slots.drop_last(), state);
    }
}

proof fn lemma_count_update<M>(
    slots: Seq<SlotView<M>>,
    state: SlotState,
    at: int,
    slot: SlotView<M>,
)
    requires
        0 <= at < slots.len(),
    ensures
        count_in(slots.update(at, slot), state) + if slots[at].state == state {
            1nat
        } else {
            0nat
        } == count_in(slots, state) + if slot.state == state {
            1nat
        } else {
            0nat
        },
    decreases slots.len(),
{
    let updated = slots.update(at, slot);
    if at == slots.len() - 1 {
        assert(updated.drop_last() =~= slots.drop_last());
    } else {
        lemma_count_update(slots.drop_last(), state, at, slot);
        assert(updated.drop_last() =~= slots.drop_last().update(at, slot));
        assert(updated.last() == slots.last());
    }
}

proof fn lemma_count_take<M>(slots: Seq<SlotView<M>>, state: SlotState, at: int)
    requires
        0 <= at < slots.len(),
    ensures
        count_in(slots.take(at + 1), state) == count_in(slots.take(at), state)
            + if slots[at].state == state {
            1nat
        } else {
            0nat
        },
{
    assert(slots.take(at + 1).drop_last() =~= slots.take(at));
}

proof fn lemma_count_all<M>(slots: Seq<SlotView<M>>, state: SlotState, other: SlotState)
    requires
        forall|i: int| 0 <= i < slots.len() ==> (#[trigger] slots[i]).state == state,
    ensures
        count_in(slots, state) == slots.len(),
        other != state ==> count_in(slots, other) == 0,
    decreases slots.len(),
{
    if slots.len() > 0 {
        lemma_count_all(slots.drop_last(), state, other);
        assert(slots.last().state == state);
    }
}

/// No buffer is lost or counted twice: every one is free, reserved, ready, handed out or owned by
/// the kernel.
pub proof fn lemma_every_buffer_has_one_owner<M>(slots: Seq<SlotView<M>>)
    ensures
        count_in(slots, SlotState::Free) + count_in(slots, SlotState::Reserved) + count_in(
            slots,
            SlotState::Ready,
        ) + count_in(slots, SlotState::Held) + count_in(slots, SlotState::KernelOwned)
            == slots.len(),
    decreases slots.len(),
{
    if slots.len() > 0 {
        lemma_every_buffer_has_one_owner(slots.drop_last());
    }
}

/// Turning a queue part of the way round splits it.
pub proof fn lemma_rotated(queue: Seq<int>, turns: nat)
    requires
        turns <= queue.len(),
    ensures
        rotated(queue, turns) == queue.skip(turns as int) + queue.take(turns as int),
    decreases turns,
{
    if turns == 0 {
        assert(queue.skip(0) + queue.take(0) =~= queue);
    } else {
        lemma_rotated(queue, (turns - 1) as nat);
        let before = rotated(queue, (turns - 1) as nat);
        assert(before[0] == queue[turns - 1]);
        assert(before.skip(1).push(before[0]) =~= queue.skip(turns as int) + queue.take(
            turns as int,
        ));
    }
}

proof fn lemma_turn_keeps_list<M>(slots: Seq<SlotView<M>>, queue: Seq<int>, state: SlotState)
    requires
        lists(slots, queue, state),
        queue.len() > 0,
    ensures
        lists(slots, queue.skip(1).push(queue[0]), state),
{
    let turned = queue.skip(1).push(queue[0]);
    assert forall|k: int| 0 <= k < turned.len() implies 0 <= #[trigger] turned[k] < slots.len()
        && slots[turned[k]].state == state by {
        if k < queue.len() - 1 {
            assert(turned[k] == queue[k + 1]);
        } else {
            assert(turned[k] == queue[0]);
        }
    }
    assert forall|k: int, l: int| 0 <= k < l < turned.len() implies #[trigger] turned[k]
        != #[trigger] turned[l] by {
        assert(turned[k] == queue[k + 1]);
        if l < queue.len() - 1 {
            assert(turned[l] == queue[l + 1]);
        } else {
            assert(turned[l] == queue[0]);
        }
    }
}

pub(crate) proof fn lemma_worn_out<M>(slots: Seq<SlotView<M>>, queue: Seq<int>)
    ensures
        worn_out_prefix(slots, queue) <= queue.len(),
        forall|k: int|
            0 <= k < worn_out_prefix(slots, queue) ==> slots[#[trigger] queue[k]].generation
                == u32::MAX,
        worn_out_prefix(slots, queue) < queue.len() ==> slots[queue[worn_out_prefix(
            slots,
            queue,
        ) as int]].generation < u32::MAX,
    decreases queue.len(),
{
    if queue.len() > 0 && slots[queue[0]].generation == u32::MAX {
        let rest = queue.skip(1);
        lemma_worn_out(slots, rest);
        assert forall|k: int| 0 <= k < worn_out_prefix(slots, queue) implies slots[
            #[trigger] queue[k]].generation == u32::MAX by {
            if k > 0 {
                assert(rest[k - 1] == queue[k]);
            }
        }
    }
}

/// Replacing a slot by one in another state takes it off the list of its old state.
proof fn lemma_list_without_front<M>(
    slots: Seq<SlotView<M>>,
    queue: Seq<int>,
    state: SlotState,
    slot: SlotView<M>,
)
    requires
        lists(slots, queue, state),
        queue.len() > 0,
        slot.state != state,
    ensures
        lists(slots.update(queue[0], slot), queue.skip(1), state),
{
    let rest = queue.skip(1);
    lemma_count_update(slots, state, queue[0], slot);
    assert forall|k: int| 0 <= k < rest.len() implies 0 <= #[trigger] rest[k] < slots.len()
        && slots.update(queue[0], slot)[rest[k]].state == state by {
        assert(rest[k] == queue[k + 1]);
        assert(queue[0] != queue[k + 1]);
    }
    assert forall|k: int, l: int| 0 <= k < l < rest.len() implies #[trigger] rest[k]
        != #[trigger] rest[l] by {
        assert(rest[k] == queue[k + 1]);
        assert(rest[l] == queue[l + 1]);
    }
}

/// Replacing a slot by one in a state puts it on the list of that state.
proof fn lemma_list_with_back<M>(
    slots: Seq<SlotView<M>>,
    queue: Seq<int>,
    state: SlotState,
    index: int,
    slot: SlotView<M>,
)
    requires
        lists(slots, queue, state),
        0 <= index < slots.len(),
        slots[index].state != state,
        slot.state == state,
    ensures
        lists(slots.update(index, slot), queue.push(index), state),
        queue.len() < slots.len(),
{
    lemma_count_update(slots, state, index, slot);
    lemma_count_bound(slots.update(index, slot), state);
}

/// Replacing a slot changes no list that neither state belongs to.
proof fn lemma_list_untouched<M>(
    slots: Seq<SlotView<M>>,
    queue: Seq<int>,
    state: SlotState,
    index: int,
    slot: SlotView<M>,
)
    requires
        lists(slots, queue, state),
        0 <= index < slots.len(),
        (slots[index].state == state) == (slot.state == state),
    ensures
        lists(slots.update(index, slot), queue, state),
{
    lemma_count_update(slots, state, index, slot);
}

proof fn lemma_same_states_are_counted<M>(
    left: Seq<SlotView<M>>,
    right: Seq<SlotView<M>>,
    state: SlotState,
)
    requires
        left.len() == right.len(),
        forall|i: int| 0 <= i < left.len() ==> (#[trigger] left[i]).state == right[i].state,
    ensures
        count_in(left, state) == count_in(right, state),
    decreases left.len(),
{
    if left.len() > 0 {
        assert(left.last() == left[left.len() - 1]);
        assert forall|i: int| 0 <= i < left.drop_last().len() implies (
        #[trigger] left.drop_last()[i]).state == right.drop_last()[i].state by {
            assert(left[i].state == right[i].state);
        }
        lemma_same_states_are_counted(left.drop_last(), right.drop_last(), state);
    }
}

proof fn lemma_same_states_are_listed<M>(
    left: Seq<SlotView<M>>,
    right: Seq<SlotView<M>>,
    queue: Seq<int>,
    state: SlotState,
)
    requires
        left.len() == right.len(),
        forall|i: int| 0 <= i < left.len() ==> (#[trigger] left[i]).state == right[i].state,
        lists(left, queue, state),
    ensures
        lists(right, queue, state),
{
    lemma_same_states_are_counted(left, right, state);
    assert forall|j: int| 0 <= j < queue.len() implies 0 <= #[trigger] queue[j] < right.len()
        && right[queue[j]].state == state by {
        assert(left[queue[j]].state == state);
    }
}

/// The buffer that is reserved next is free.
pub proof fn lemma_next_reserved_is_free<M>(pool: PoolView<M>)
    requires
        lists(pool.slots, pool.free, SlotState::Free),
        pool.reserve_failure() is None,
    ensures
        0 <= pool.next_reserved() < pool.slots.len(),
        pool.slots[pool.next_reserved()].state == SlotState::Free,
{
    lemma_worn_out(pool.slots, pool.free);
}

/// A token is good for one use of a buffer: once the buffer has been released, the token names it
/// in no owned state again, not even after the buffer has been reserved anew.
pub proof fn lemma_tokens_are_single_use<M>(
    pool: PoolView<M>,
    index: int,
    generation: u32,
    state: SlotState,
    erased: nat,
    later: PoolView<M>,
)
    requires
        pool.owns(index, generation, state),
        later.slots.len() == pool.slots.len(),
        later.slots[index].generation == pool.slots[index].generation,
        later.reserve_failure() is None,
    ensures
        forall|other: SlotState|
            other != SlotState::Free ==> !#[trigger] pool.released(index, erased).owns(
                index,
                generation,
                other,
            ),
        later.next_reserved() == index ==> forall|other: SlotState| !#[trigger]
            later.reserved().owns(index, generation, other),
{
    lemma_worn_out(later.slots, later.free);
}

/// Erases a byte array for good.
///
/// Calls `zeroize::Zeroize::zeroize`, which for an array of bytes writes zero to every byte, in a
/// way that is not optimised away, and never panics.
#[verifier::external_body]
fn zeroize_bytes<const N: usize>(bytes: &mut [u8; N])
    ensures
        final(bytes)@ == zeroes(N as nat),
    opens_invariants none
    no_unwind
{
    bytes.zeroize();
}

#[derive(Clone, Copy)]
struct PoolSlot<M: Copy, const BUFFER_SIZE: usize> {
    bytes: [u8; BUFFER_SIZE],
    length: usize,
    metadata: Option<M>,
    generation: u32,
    state: SlotState,
}

impl<M: Copy, const BUFFER_SIZE: usize> PoolSlot<M, BUFFER_SIZE> {
    spec fn content(self) -> SlotView<M> {
        SlotView {
            state: self.state,
            generation: self.generation,
            bytes: self.bytes@,
            length: self.length as nat,
            metadata: self.metadata,
        }
    }
}

/// Name of one buffer at one time: reusing the buffer makes every earlier name stale.
#[derive(Clone, Copy, PartialEq, Eq, Structural)]
pub struct PoolToken {
    pub index: usize,
    pub generation: u32,
}

/// Fixed arena of datagram buffers.
pub struct DatagramPool<M: Copy, const SLOTS: usize, const BUFFER_SIZE: usize> {
    identity: QueueIdentity,
    slots: [PoolSlot<M, BUFFER_SIZE>; SLOTS],
    free: IndexQueue<SLOTS>,
    ready: IndexQueue<SLOTS>,
}

impl<M: Copy, const SLOTS: usize, const BUFFER_SIZE: usize> View for DatagramPool<
    M,
    SLOTS,
    BUFFER_SIZE,
> {
    type V = PoolView<M>;

    closed spec fn view(&self) -> PoolView<M> {
        PoolView {
            identity: self.identity,
            slots: Seq::new(SLOTS as nat, |i: int| self.slots@[i].content()),
            free: self.free@,
            ready: self.ready@,
        }
    }
}

impl<M: Copy, const SLOTS: usize, const BUFFER_SIZE: usize> DatagramPool<M, SLOTS, BUFFER_SIZE> {
    /// Whether both index queues are sound.
    pub closed spec fn has_sound_queues(&self) -> bool {
        &&& self.free.well_formed()
        &&& self.ready.well_formed()
    }

    /// What every arena keeps.
    pub open spec fn well_formed(&self) -> bool {
        &&& self@.well_formed(BUFFER_SIZE as nat)
        &&& self@.slots.len() == SLOTS
        &&& self.has_sound_queues()
    }

    /// Creates an arena with every slot free and zeroed.
    pub fn new() -> (pool: DatagramPool<M, SLOTS, BUFFER_SIZE>)
        ensures
            pool.well_formed(),
            pool@ == PoolView::<M>::unused(pool@.identity, SLOTS as nat, BUFFER_SIZE as nat),
    {
        let slot: PoolSlot<M, BUFFER_SIZE> = PoolSlot {
            bytes: [0u8; BUFFER_SIZE],
            length: 0,
            metadata: None,
            generation: 0,
            state: SlotState::Free,
        };
        assert(slot.bytes@ =~= zeroes(BUFFER_SIZE as nat));
        let pool = DatagramPool {
            identity: QueueIdentity::draw(),
            slots: [slot;SLOTS],
            free: IndexQueue::with_all_indices(),
            ready: IndexQueue::new(),
        };
        proof {
            let expected = PoolView::<M>::unused(pool@.identity, SLOTS as nat, BUFFER_SIZE as nat);
            assert(pool@.slots =~= expected.slots);
            lemma_count_all(pool@.slots, SlotState::Free, SlotState::Ready);
        }
        pool
    }

    /// Returns what tells this arena from every other.
    pub fn identity(&self) -> (identity: QueueIdentity)
        ensures
            identity == self@.identity,
    {
        self.identity
    }

    /// Reserves one stable buffer.
    ///
    /// # Errors
    ///
    /// Returns pool exhaustion or generation exhaustion without modifying any occupied slot.
    pub fn reserve(&mut self) -> (reserved: Result<PoolToken, RuntimeQueueError>)
        requires
            old(self).well_formed(),
        ensures
            final(self).well_formed(),
            match old(self)@.reserve_failure() {
                Some(error) => {
                    &&& reserved == Err::<PoolToken, RuntimeQueueError>(error)
                    &&& final(self)@ == old(self)@.not_reserved()
                },
                None => {
                    &&& reserved matches Ok(token)
                    &&& token.index == old(self)@.next_reserved()
                    &&& final(self)@ == old(self)@.reserved()
                    &&& final(self)@.owns(
                        token.index as int,
                        token.generation,
                        SlotState::Reserved,
                    )
                },
            },
    {
        let ghost slots = self@.slots;
        let ghost free = self@.free;
        let ghost usable = worn_out_prefix(slots, free);
        proof {
            lemma_worn_out(slots, free);
            lemma_count_bound(slots, SlotState::Free);
        }
        let mut turn: usize = 0;
        while turn < SLOTS
            invariant
                turn <= SLOTS,
                slots == old(self)@.slots,
                free == old(self)@.free,
                usable == worn_out_prefix(slots, free),
                usable <= free.len() <= SLOTS,
                forall|k: int| 0 <= k < usable ==> slots[#[trigger] free[k]].generation == u32::MAX,
                usable < free.len() ==> slots[free[usable as int]].generation < u32::MAX,
                old(self).well_formed(),
                self.well_formed(),
                self@.slots == slots,
                self@.ready == old(self)@.ready,
                self@.identity == old(self)@.identity,
                self@.free.len() == free.len(),
                free.len() == 0 ==> turn == 0,
                free.len() > 0 ==> self@.free == rotated(free, turn as nat),
                free.len() == 0 ==> self@.free == free,
                usable < free.len() ==> turn <= usable,
                usable == free.len() ==> forall|k: int|
                    0 <= k < self@.free.len() ==> slots[#[trigger] self@.free[k]].generation
                        == u32::MAX,
            decreases SLOTS - turn,
        {
            let ghost before = self@.free;
            let index: usize = match self.free.pop() {
                Some(index) => index,
                None => {
                    return Err(RuntimeQueueError::PoolExhausted);
                },
            };
            proof {
                assert(index == before[0]);
                assert(slots[index as int] == self.slots@[index as int].content());
                if usable < free.len() {
                    lemma_rotated(free, turn as nat);
                    assert(before[0] == free[turn as int]);
                }
            }
            let generation: u32 = match self.slots[index].generation.checked_add(1) {
                Some(generation) => generation,
                None => {
                    let restored: bool = self.free.push(index);
                    proof {
                        assert(before.skip(1).push(before[0]) == self@.free);
                        lemma_turn_keeps_list(slots, before, SlotState::Free);
                        assert forall|k: int| 0 <= k < self@.free.len() && usable
                            == free.len() implies slots[#[trigger] self@.free[k]].generation
                            == u32::MAX by {
                            if k < before.len() - 1 {
                                assert(self@.free[k] == before[k + 1]);
                            } else {
                                assert(self@.free[k] == before[0]);
                            }
                        }
                        assert(self@.slots =~= slots);
                    }
                    turn = turn + 1;
                    continue;
                },
            };
            self.slots[index].generation = generation;
            self.slots[index].state = SlotState::Reserved;
            proof {
                let slot = self.slots@[index as int].content();
                assert(self@.slots =~= slots.update(index as int, slot));
                lemma_list_without_front(slots, before, SlotState::Free, slot);
                lemma_list_untouched(
                    slots,
                    self@.ready,
                    SlotState::Ready,
                    index as int,
                    slot,
                );
            }
            return Ok(PoolToken { index, generation });
        }
        Err(RuntimeQueueError::GenerationExhausted)
    }

    /// Returns a buffer in a state that a token names.
    fn check(&self, token: PoolToken, state: SlotState) -> (owned: bool)
        ensures
            owned == self@.owns(token.index as int, token.generation, state),
    {
        if token.index >= SLOTS {
            return false;
        }
        assert(self@.slots[token.index as int] == self.slots@[token.index as int].content());
        self.slots[token.index].generation == token.generation && self.slots[token.index].state
            == state
    }

    /// Returns the complete buffer of a reservation.
    ///
    /// # Errors
    ///
    /// Returns `InvalidOwnership` for a stale, released, or wrong-state token.
    pub fn buffer_mut(&mut self, token: PoolToken) -> (buffer: Result<
        &mut [u8; BUFFER_SIZE],
        RuntimeQueueError,
    >)
        requires
            old(self).well_formed(),
        ensures
            final(self).well_formed(),
            match buffer {
                Ok(buffer) => {
                    &&& old(self)@.owns(token.index as int, token.generation, SlotState::Reserved)
                    &&& buffer@ == old(self)@.slots[token.index as int].bytes
                    &&& final(self)@ == old(self)@.written(token.index as int, final(buffer)@)
                },
                Err(error) => {
                    &&& !old(self)@.owns(token.index as int, token.generation, SlotState::Reserved)
                    &&& error == RuntimeQueueError::InvalidOwnership
                    &&& final(self)@ == old(self)@
                },
            },
    {
        if !self.check(token, SlotState::Reserved) {
            return Err(RuntimeQueueError::InvalidOwnership);
        }
        let ghost before = self@;
        let ghost index = token.index as int;
        assert(before.slots[index] == self.slots@[index].content());
        let buffer: &mut [u8; BUFFER_SIZE] = &mut self.slots[token.index].bytes;
        proof {
            let slot = SlotView { bytes: final(buffer)@, ..before.slots[index] };
            assert(after_borrow(self)@.slots =~= before.slots.update(index, slot));
            lemma_list_untouched(before.slots, before.free, SlotState::Free, index, slot);
            lemma_list_untouched(before.slots, before.ready, SlotState::Ready, index, slot);
        }
        Ok(buffer)
    }

    /// Returns the complete buffers of several reservations at once, in their order.
    ///
    /// # Errors
    ///
    /// Returns `InvalidOwnership` for a stale, released, or wrong-state token, and for two tokens
    /// of one buffer.
    pub fn batch_buffers_mut(&mut self, tokens: &[PoolToken]) -> (buffers: Result<
        Vec<&mut [u8; BUFFER_SIZE]>,
        RuntimeQueueError,
    >)
        requires
            old(self).well_formed(),
        ensures
            final(self).well_formed(),
            match buffers {
                Ok(buffers) => {
                    &&& old(self)@.owns_batch(tokens@)
                    &&& buffers@.len() == tokens@.len()
                    &&& forall|i: int|
                        0 <= i < tokens@.len() ==> buffers@[i]@
                            == old(self)@.slots[(#[trigger] tokens@[i]).index as int].bytes
                    &&& old(self)@.has_written(
                        final(self)@,
                        tokens@,
                        Seq::new(tokens@.len(), |i: int| final(buffers@[i])@),
                    )
                },
                Err(error) => {
                    &&& !old(self)@.owns_batch(tokens@)
                    &&& error == RuntimeQueueError::InvalidOwnership
                    &&& final(self)@ == old(self)@
                },
            },
    {
        if !self.check_batch(tokens) {
            return Err(RuntimeQueueError::InvalidOwnership);
        }
        let ghost before = self@;
        let ghost slots = self.slots@;
        assert(forall|k: int| 0 <= k < SLOTS ==> before.slots[k] == slots[k].content());
        let all = slot_buffers(&mut self.slots);
        let ghost lent = all@;
        let buffers = picked_buffers(all, tokens);
        proof {
            let after = after_borrow(self)@;
            let written = Seq::new(tokens@.len(), |i: int| final(buffers@[i])@);
            assert forall|k: int| 0 <= k < SLOTS implies #[trigger] after.slots[k] == (SlotView {
                bytes: final(lent[k]->0)@,
                ..before.slots[k]
            }) by {
                assert(before.slots[k] == slots[k].content());
            }
            assert forall|k: int|
                0 <= k < SLOTS && !names(tokens@, k) implies #[trigger] after.slots[k]
                == before.slots[k] by {
                assert(lent[k] is Some);
            }
            assert(before.has_written(after, tokens@, written));
            lemma_same_states_are_listed(before.slots, after.slots, before.free, SlotState::Free);
            lemma_same_states_are_listed(before.slots, after.slots, before.ready, SlotState::Ready);
        }
        Ok(buffers)
    }

    /// Whether tokens name different reserved buffers.
    fn check_batch(&self, tokens: &[PoolToken]) -> (owned: bool)
        ensures
            owned == self@.owns_batch(tokens@),
    {
        let mut i: usize = 0;
        while i < tokens.len()
            invariant
                i <= tokens@.len(),
                forall|k: int|
                    0 <= k < i ==> self@.owns(
                        (#[trigger] tokens@[k]).index as int,
                        tokens@[k].generation,
                        SlotState::Reserved,
                    ),
                forall|j: int, k: int|
                    0 <= j < k < i ==> (#[trigger] tokens@[j]).index != (
                    #[trigger] tokens@[k]).index,
            decreases tokens@.len() - i,
        {
            if !self.check(tokens[i], SlotState::Reserved) {
                return false;
            }
            let mut j: usize = 0;
            while j < i
                invariant
                    j <= i < tokens@.len(),
                    forall|k: int|
                        0 <= k < j ==> (#[trigger] tokens@[k]).index != tokens@[i as int].index,
                decreases i - j,
            {
                if tokens[j].index == tokens[i].index {
                    return false;
                }
                j = j + 1;
            }
            i = i + 1;
        }
        true
    }

    /// Commits the bytes and metadata of a reservation.
    ///
    /// Invalid length or segment metadata releases and clears the reservation.
    ///
    /// # Errors
    ///
    /// Returns an ownership, empty-datagram, length, or segment error.
    pub fn commit(
        &mut self,
        token: PoolToken,
        length: usize,
        metadata: M,
        segment_size: Option<NonZeroU16>,
    ) -> (outcome: Result<(), RuntimeQueueError>)
        requires
            old(self).well_formed(),
        ensures
            final(self).well_formed(),
            if !old(self)@.owns(token.index as int, token.generation, SlotState::Reserved) {
                &&& outcome == Err::<(), RuntimeQueueError>(RuntimeQueueError::InvalidOwnership)
                &&& final(self)@ == old(self)@
            } else {
                match datagram_shape_failure(length as nat, segment_size, BUFFER_SIZE as nat) {
                    Some(error) => {
                        &&& outcome == Err::<(), RuntimeQueueError>(error)
                        &&& final(self)@ == old(self)@.released(
                            token.index as int,
                            BUFFER_SIZE as nat,
                        )
                    },
                    None => {
                        &&& outcome == Ok::<(), RuntimeQueueError>(())
                        &&& final(self)@ == old(self)@.committed(
                            token.index as int,
                            length as nat,
                            metadata,
                        )
                    },
                }
            },
    {
        if !self.check(token, SlotState::Reserved) {
            return Err(RuntimeQueueError::InvalidOwnership);
        }
        match validate_datagram_shape::<BUFFER_SIZE>(length, segment_size) {
            Ok(()) => {},
            Err(error) => {
                self.clear(token.index, BUFFER_SIZE);
                return Err(error);
            },
        }
        let ghost slots = self@.slots;
        let ghost index = token.index as int;
        self.slots[token.index].length = length;
        self.slots[token.index].metadata = Some(metadata);
        self.slots[token.index].state = SlotState::Ready;
        let pushed: bool = self.ready.push(token.index);
        proof {
            let slot = self.slots@[index].content();
            assert(self@.slots =~= slots.update(index, slot));
            lemma_list_with_back(slots, old(self)@.ready, SlotState::Ready, index, slot);
            lemma_list_untouched(slots, self@.free, SlotState::Free, index, slot);
            assert(self@.slots =~= old(self)@.committed(index, length as nat, metadata).slots);
        }
        Ok(())
    }

    /// Erases the first bytes of a buffer and makes it free.
    fn clear(&mut self, index: usize, erased: usize)
        requires
            old(self).well_formed(),
            index < SLOTS,
            erased <= BUFFER_SIZE,
            old(self)@.slots[index as int].state != SlotState::Free,
            old(self)@.slots[index as int].state != SlotState::Ready,
        ensures
            final(self).well_formed(),
            final(self)@ == old(self)@.released(index as int, erased as nat),
    {
        let ghost slots = self@.slots;
        assert(slots[index as int] == self.slots@[index as int].content());
        clear_prefix(&mut self.slots[index].bytes, erased);
        self.slots[index].length = 0;
        self.slots[index].metadata = None;
        self.slots[index].state = SlotState::Free;
        let restored: bool = self.free.push(index);
        proof {
            let slot = self.slots@[index as int].content();
            assert(self@.slots =~= slots.update(index as int, slot));
            lemma_list_with_back(slots, old(self)@.free, SlotState::Free, index as int, slot);
            lemma_list_untouched(slots, self@.ready, SlotState::Ready, index as int, slot);
        }
    }

    /// Cancels and clears a reservation.
    ///
    /// # Errors
    ///
    /// Returns `InvalidOwnership` for a stale or wrong-state reservation.
    pub fn cancel(&mut self, token: PoolToken) -> (outcome: Result<(), RuntimeQueueError>)
        requires
            old(self).well_formed(),
        ensures
            final(self).well_formed(),
            if old(self)@.owns(token.index as int, token.generation, SlotState::Reserved) {
                &&& outcome == Ok::<(), RuntimeQueueError>(())
                &&& final(self)@ == old(self)@.released(token.index as int, BUFFER_SIZE as nat)
            } else {
                &&& outcome == Err::<(), RuntimeQueueError>(RuntimeQueueError::InvalidOwnership)
                &&& final(self)@ == old(self)@
            },
    {
        if !self.check(token, SlotState::Reserved) {
            return Err(RuntimeQueueError::InvalidOwnership);
        }
        self.clear(token.index, BUFFER_SIZE);
        Ok(())
    }

    /// Gives back a reservation whose buffer was not written to.
    ///
    /// # Errors
    ///
    /// Returns `InvalidOwnership` for a stale or wrong-state reservation.
    pub fn give_back(&mut self, token: PoolToken) -> (outcome: Result<(), RuntimeQueueError>)
        requires
            old(self).well_formed(),
        ensures
            final(self).well_formed(),
            if old(self)@.owns(token.index as int, token.generation, SlotState::Reserved) {
                &&& outcome == Ok::<(), RuntimeQueueError>(())
                &&& final(self)@ == old(self)@.released(token.index as int, 0)
            } else {
                &&& outcome == Err::<(), RuntimeQueueError>(RuntimeQueueError::InvalidOwnership)
                &&& final(self)@ == old(self)@
            },
    {
        if !self.check(token, SlotState::Reserved) {
            return Err(RuntimeQueueError::InvalidOwnership);
        }
        self.clear(token.index, 0);
        Ok(())
    }

    /// Hands out the oldest ready buffer.
    pub fn pop(&mut self) -> (popped: Option<PoolToken>)
        requires
            old(self).well_formed(),
        ensures
            final(self).well_formed(),
            match popped {
                Some(token) => {
                    &&& old(self)@.ready.len() > 0
                    &&& token.index == old(self)@.ready[0]
                    &&& final(self)@ == old(self)@.popped()
                    &&& final(self)@.owns(token.index as int, token.generation, SlotState::Held)
                },
                None => old(self)@.ready.len() == 0 && final(self)@ == old(self)@,
            },
    {
        let ghost slots = self@.slots;
        let ghost ready = self@.ready;
        let index: usize = match self.ready.pop() {
            Some(index) => index,
            None => {
                return None;
            },
        };
        assert(slots[index as int] == self.slots@[index as int].content());
        self.slots[index].state = SlotState::Held;
        proof {
            let slot = self.slots@[index as int].content();
            assert(self@.slots =~= slots.update(index as int, slot));
            lemma_list_without_front(slots, ready, SlotState::Ready, slot);
            lemma_list_untouched(slots, self@.free, SlotState::Free, index as int, slot);
            assert(self@.slots =~= old(self)@.popped().slots);
        }
        Some(PoolToken { index, generation: self.slots[index].generation })
    }

    /// Borrows the used bytes and the metadata of a buffer that was handed out.
    ///
    /// # Errors
    ///
    /// Returns `InvalidOwnership` for a stale, released, or wrong-state token.
    pub fn held(&self, token: PoolToken) -> (held: Result<(&[u8], M), RuntimeQueueError>)
        requires
            self.well_formed(),
        ensures
            match held {
                Ok((payload, metadata)) => {
                    let slot = self@.slots[token.index as int];
                    &&& self@.owns(token.index as int, token.generation, SlotState::Held)
                    &&& payload@ == slot.bytes.take(slot.length as int)
                    &&& payload@.len() > 0
                    &&& slot.metadata == Some(metadata)
                },
                Err(error) => {
                    &&& !self@.owns(token.index as int, token.generation, SlotState::Held)
                    &&& error == RuntimeQueueError::InvalidOwnership
                },
            },
    {
        if !self.check(token, SlotState::Held) {
            return Err(RuntimeQueueError::InvalidOwnership);
        }
        let slot: &PoolSlot<M, BUFFER_SIZE> = &self.slots[token.index];
        assert(self@.slots[token.index as int] == slot.content());
        match slot.metadata {
            Some(metadata) => {
                let payload: &[u8] = part(&slot.bytes, 0, slot.length);
                assert(payload@ =~= slot.bytes@.take(slot.length as int));
                Ok((payload, metadata))
            },
            None => Err(RuntimeQueueError::InvariantViolation),
        }
    }

    /// Releases a buffer in a state and clears its used bytes.
    ///
    /// # Errors
    ///
    /// Returns `InvalidOwnership` for a stale or wrong-state token.
    pub fn release(&mut self, token: PoolToken, state: SlotState) -> (outcome: Result<
        (),
        RuntimeQueueError,
    >)
        requires
            old(self).well_formed(),
            state == SlotState::Held || state == SlotState::KernelOwned,
        ensures
            final(self).well_formed(),
            if old(self)@.owns(token.index as int, token.generation, state) {
                &&& outcome == Ok::<(), RuntimeQueueError>(())
                &&& final(self)@ == old(self)@.released(
                    token.index as int,
                    old(self)@.slots[token.index as int].length,
                )
            } else {
                &&& outcome == Err::<(), RuntimeQueueError>(RuntimeQueueError::InvalidOwnership)
                &&& final(self)@ == old(self)@
            },
    {
        if !self.check(token, state) {
            return Err(RuntimeQueueError::InvalidOwnership);
        }
        assert(self@.slots[token.index as int] == self.slots@[token.index as int].content());
        self.clear(token.index, self.slots[token.index].length);
        Ok(())
    }

    /// Puts a buffer that was handed out behind the ready ones.
    ///
    /// # Errors
    ///
    /// Returns `InvalidOwnership` for a stale or wrong-state token.
    pub fn requeue(&mut self, token: PoolToken) -> (outcome: Result<(), RuntimeQueueError>)
        requires
            old(self).well_formed(),
        ensures
            final(self).well_formed(),
            if old(self)@.owns(token.index as int, token.generation, SlotState::Held) {
                &&& outcome == Ok::<(), RuntimeQueueError>(())
                &&& final(self)@ == old(self)@.requeued(token.index as int)
            } else {
                &&& outcome == Err::<(), RuntimeQueueError>(RuntimeQueueError::InvalidOwnership)
                &&& final(self)@ == old(self)@
            },
    {
        if !self.check(token, SlotState::Held) {
            return Err(RuntimeQueueError::InvalidOwnership);
        }
        let ghost slots = self@.slots;
        let ghost index = token.index as int;
        assert(slots[index] == self.slots@[index].content());
        let pushed: bool = self.ready.push(token.index);
        self.slots[token.index].state = SlotState::Ready;
        proof {
            let slot = self.slots@[index].content();
            assert(self@.slots =~= slots.update(index, slot));
            lemma_list_with_back(slots, old(self)@.ready, SlotState::Ready, index, slot);
            lemma_list_untouched(slots, self@.free, SlotState::Free, index, slot);
            assert(self@.slots =~= old(self)@.requeued(index).slots);
        }
        Ok(())
    }

    /// Hands a buffer over to the kernel.
    ///
    /// # Errors
    ///
    /// Returns `InvalidOwnership` for a stale or wrong-state token.
    pub fn defer(&mut self, token: PoolToken) -> (outcome: Result<(), RuntimeQueueError>)
        requires
            old(self).well_formed(),
        ensures
            final(self).well_formed(),
            if old(self)@.owns(token.index as int, token.generation, SlotState::Held) {
                &&& outcome == Ok::<(), RuntimeQueueError>(())
                &&& final(self)@ == old(self)@.moved(token.index as int, SlotState::KernelOwned)
            } else {
                &&& outcome == Err::<(), RuntimeQueueError>(RuntimeQueueError::InvalidOwnership)
                &&& final(self)@ == old(self)@
            },
    {
        if !self.check(token, SlotState::Held) {
            return Err(RuntimeQueueError::InvalidOwnership);
        }
        let ghost slots = self@.slots;
        let ghost index = token.index as int;
        assert(slots[index] == self.slots@[index].content());
        self.slots[token.index].state = SlotState::KernelOwned;
        proof {
            let slot = self.slots@[index].content();
            assert(self@.slots =~= slots.update(index, slot));
            lemma_list_untouched(slots, self@.ready, SlotState::Ready, index, slot);
            lemma_list_untouched(slots, self@.free, SlotState::Free, index, slot);
            assert(self@.slots =~= old(self)@.moved(index, SlotState::KernelOwned).slots);
        }
        Ok(())
    }

    /// Returns the number of slots in a state.
    pub fn count(&self, state: SlotState) -> (count: usize)
        ensures
            count == count_in(self@.slots, state),
    {
        let mut count: usize = 0;
        let mut i: usize = 0;
        while i < SLOTS
            invariant
                i <= SLOTS,
                count <= i,
                count == count_in(self@.slots.take(i as int), state),
            decreases SLOTS - i,
        {
            proof {
                lemma_count_take(self@.slots, state, i as int);
                assert(self@.slots[i as int] == self.slots@[i as int].content());
            }
            if self.slots[i].state == state {
                count = count + 1;
            }
            i = i + 1;
        }
        assert(self@.slots.take(SLOTS as int) =~= self@.slots);
        count
    }

    /// Returns the number of free buffers.
    pub fn free_len(&self) -> (length: usize)
        ensures
            length == self@.free.len(),
    {
        self.free.len()
    }

    /// Returns the number of ready buffers.
    pub fn ready_len(&self) -> (length: usize)
        ensures
            length == self@.ready.len(),
    {
        self.ready.len()
    }
}

impl<M: Copy, const SLOTS: usize, const BUFFER_SIZE: usize> Drop for DatagramPool<
    M,
    SLOTS,
    BUFFER_SIZE,
> {
    fn drop(&mut self)
        ensures
            final(self)@.slots.len() == SLOTS,
            forall|i: int|
                0 <= i < SLOTS ==> (#[trigger] final(self)@.slots[i]).is_erased(
                    BUFFER_SIZE as nat,
                ),
        opens_invariants none
        no_unwind
    {
        let mut i: usize = 0;
        while i < SLOTS
            invariant
                i <= SLOTS,
                forall|k: int|
                    0 <= k < i ==> (#[trigger] self.slots@[k]).content().is_erased(
                        BUFFER_SIZE as nat,
                    ),
            decreases SLOTS - i,
        {
            zeroize_bytes(&mut self.slots[i].bytes);
            self.slots[i].length = 0;
            self.slots[i].metadata = None;
            self.slots[i].state = SlotState::Free;
            i = i + 1;
        }
    }
}

/// Lends out the buffer of a single slot.
fn first_buffer<M: Copy, const BUFFER_SIZE: usize>(
    slots: &mut [PoolSlot<M, BUFFER_SIZE>],
) -> (buffer: &mut [u8; BUFFER_SIZE])
    requires
        old(slots)@.len() == 1,
    ensures
        *buffer == old(slots)@[0].bytes,
        final(slots)@ == seq![PoolSlot { bytes: *final(buffer), ..old(slots)@[0] }],
{
    &mut slots[0].bytes
}

/// Lends out the buffers of a row of slots.
fn slot_buffers<'a, M: Copy, const BUFFER_SIZE: usize>(
    slots: &'a mut [PoolSlot<M, BUFFER_SIZE>],
) -> (buffers: Vec<Option<&'a mut [u8; BUFFER_SIZE]>>)
    ensures
        buffers@.len() == old(slots)@.len(),
        final(slots)@.len() == old(slots)@.len(),
        forall|i: int|
            0 <= i < old(slots)@.len() ==> (#[trigger] buffers@[i] matches Some(buffer) && *buffer
                == old(slots)@[i].bytes),
        forall|i: int|
            0 <= i < old(slots)@.len() ==> #[trigger] final(slots)@[i] == (PoolSlot {
                bytes: *final(buffers@[i]->0),
                ..old(slots)@[i]
            }),
{
    let mut buffers: Vec<Option<&'a mut [u8; BUFFER_SIZE]>> = Vec::new();
    let ghost before = slots@;
    let mut rest: &'a mut [PoolSlot<M, BUFFER_SIZE>] = slots;
    assert(rest@ =~= before.skip(0));
    while rest.len() > 0
        invariant
            buffers@.len() <= before.len(),
            rest@ == before.skip(buffers@.len() as int),
            buffers@.len() <= after_borrow(slots)@.len(),
            after_borrow(slots)@.skip(buffers@.len() as int) == final(rest)@,
            forall|i: int|
                0 <= i < buffers@.len() ==> (#[trigger] buffers@[i] matches Some(buffer) && *buffer
                    == before[i].bytes),
            forall|i: int|
                0 <= i < buffers@.len() ==> #[trigger] after_borrow(slots)@[i] == (PoolSlot {
                    bytes: *final(buffers@[i]->0),
                    ..before[i]
                }),
        decreases rest@.len(),
    {
        let ghost done = buffers@.len() as int;
        let (head, tail) = rest.split_at_mut(1);
        assert(tail@ =~= before.skip(done + 1));
        assert(head@[0] == before[done]);
        assert(after_borrow(slots)@.skip(done) == final(head)@ + final(tail)@);
        let buffer = first_buffer(head);
        proof {
            let whole = after_borrow(slots)@;
            let slot = PoolSlot { bytes: *final(buffer), ..before[done] };
            assert(whole.skip(done) == seq![slot] + final(tail)@);
            assert(whole.skip(done)[0] == slot);
            assert(whole.skip(done + 1) =~= whole.skip(done).skip(1));
            assert(whole.skip(done).skip(1) =~= final(tail)@);
        }
        buffers.push(Some(buffer));
        rest = tail;
    }
    buffers
}

/// Picks the buffers that tokens name, in the order of the tokens, and gives the others back.
fn picked_buffers<'a, const BUFFER_SIZE: usize>(
    buffers: Vec<Option<&'a mut [u8; BUFFER_SIZE]>>,
    tokens: &[PoolToken],
) -> (picked: Vec<&'a mut [u8; BUFFER_SIZE]>)
    requires
        forall|i: int| 0 <= i < tokens@.len() ==> (#[trigger] tokens@[i]).index < buffers@.len(),
        forall|i: int, j: int|
            0 <= i < j < tokens@.len() ==> (#[trigger] tokens@[i]).index != (
            #[trigger] tokens@[j]).index,
        forall|k: int| 0 <= k < buffers@.len() ==> #[trigger] buffers@[k] is Some,
    ensures
        picked@.len() == tokens@.len(),
        forall|i: int|
            0 <= i < tokens@.len() ==> {
                let buffer = buffers@[(#[trigger] tokens@[i]).index as int]->0;
                *picked@[i] == *buffer && *final(picked@[i]) == *final(buffer)
            },
        forall|k: int|
            0 <= k < buffers@.len() && !names(tokens@, k) ==> *(#[trigger] buffers@[k]->0)
                == *final(buffers@[k]->0),
{
    let ghost all = buffers@;
    let mut rest: Vec<Option<&'a mut [u8; BUFFER_SIZE]>> = buffers;
    let mut picked: Vec<&'a mut [u8; BUFFER_SIZE]> = Vec::new();
    let mut i: usize = 0;
    while i < tokens.len()
        invariant
            i <= tokens@.len(),
            picked@.len() == i,
            rest@.len() == all.len(),
            forall|k: int| 0 <= k < all.len() ==> #[trigger] all[k] is Some,
            forall|j: int| 0 <= j < tokens@.len() ==> (#[trigger] tokens@[j]).index < all.len(),
            forall|j: int, k: int|
                0 <= j < k < tokens@.len() ==> (#[trigger] tokens@[j]).index != (
                #[trigger] tokens@[k]).index,
            forall|j: int|
                0 <= j < i ==> {
                    let buffer = all[(#[trigger] tokens@[j]).index as int]->0;
                    *picked@[j] == *buffer && *final(picked@[j]) == *final(buffer)
                },
            forall|j: int|
                i <= j < tokens@.len() ==> rest@[(#[trigger] tokens@[j]).index as int]
                    == all[tokens@[j].index as int],
            forall|k: int|
                0 <= k < all.len() && !names(tokens@, k) ==> #[trigger] rest@[k] == all[k],
        decreases tokens@.len() - i,
    {
        let index: usize = tokens[i].index;
        assert(rest@[index as int] == all[index as int] && all[index as int] is Some);
        let taken = rest[index].take();
        assert(taken == all[index as int]);
        match taken {
            Some(buffer) => {
                picked.push(buffer);
            },
            None => {},
        }
        i = i + 1;
    }
    proof {
        assert(has_resolved(rest));
        assert forall|k: int| 0 <= k < all.len() && !names(tokens@, k) implies *(
        #[trigger] all[k]->0) == *final(all[k]->0) by {
            assert(rest@[k] == all[k]);
            assert(has_resolved(rest@[k]));
        }
    }
    picked
}

fn validate_datagram_shape<const BUFFER_SIZE: usize>(
    length: usize,
    segment_size: Option<NonZeroU16>,
) -> (outcome: Result<(), RuntimeQueueError>)
    ensures
        match datagram_shape_failure(length as nat, segment_size, BUFFER_SIZE as nat) {
            Some(error) => outcome == Err::<(), RuntimeQueueError>(error),
            None => outcome == Ok::<(), RuntimeQueueError>(()),
        },
{
    if length == 0 {
        return Err(RuntimeQueueError::EmptyDatagram);
    }
    if length > BUFFER_SIZE {
        return Err(RuntimeQueueError::DatagramTooLarge { length, capacity: BUFFER_SIZE });
    }
    match segment_size {
        Some(size) => {
            let segment_size: usize = size.get() as usize;
            if segment_size > length {
                return Err(RuntimeQueueError::InvalidSegmentSize { segment_size, length });
            }
        },
        None => {},
    }
    Ok(())
}

} // verus!
