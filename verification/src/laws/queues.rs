//! Laws of the datagram queues.

use vstd::prelude::*;

use crate::runtime::pool::{
    count_in, lemma_worn_out, DatagramPool, PoolToken, PoolView, SlotState, SlotView,
};
use crate::runtime::receive::{
    segments_of, DatagramSegments, ReceiveQueue, ReceiveReservation, ReceivedDatagram,
    ReceivedDatagramView,
};
use crate::runtime::transmit::{
    TransmitCompletionTag, TransmitDatagram, TransmitDatagramView, TransmitQueue,
    TransmitReservation,
};
use crate::runtime::{BufferMetadata, BufferQueueStats, NonZeroU16, RuntimeQueueError};

verus! {

/// Whether at most one slot has changed.
pub open spec fn others_stay<M>(before: PoolView<M>, after: PoolView<M>, slot: int) -> bool {
    &&& 0 <= slot < before.slots.len()
    &&& after.identity == before.identity
    &&& after.slots.len() == before.slots.len()
    &&& forall|i: int|
        0 <= i < before.slots.len() && i != slot ==> #[trigger] after.slots[i] == before.slots[i]
}

/// Whether a slot is in a state, in the generation that a token names.
pub open spec fn is_in<M>(pool: PoolView<M>, slot: int, generation: u32, state: SlotState) -> bool {
    &&& 0 <= slot < pool.slots.len()
    &&& pool.slots[slot].generation == generation
    &&& pool.slots[slot].state == state
}

/// Whether a free slot is handed out, under its next generation and with its buffer as it was.
pub open spec fn hands_out<M>(
    before: PoolView<M>,
    after: PoolView<M>,
    slot: int,
    generation: u32,
) -> bool {
    &&& others_stay(before, after, slot)
    &&& before.slots[slot].state is Free
    &&& generation == before.slots[slot].generation + 1
    &&& after.slots[slot].state is Reserved
    &&& after.slots[slot].generation == generation
    &&& after.slots[slot].bytes == before.slots[slot].bytes
    &&& after.ready == before.ready
}

/// Whether a datagram is put behind all others that are ready.
pub open spec fn becomes_ready<M>(
    before: PoolView<M>,
    after: PoolView<M>,
    slot: int,
    length: nat,
    metadata: M,
) -> bool {
    &&& others_stay(before, after, slot)
    &&& after.slots[slot].state is Ready
    &&& after.slots[slot].generation == before.slots[slot].generation
    &&& after.slots[slot].bytes == before.slots[slot].bytes
    &&& after.slots[slot].length == length
    &&& after.slots[slot].metadata == Some(metadata)
    &&& after.ready == before.ready.push(slot)
    &&& after.free == before.free
}

/// Whether a slot becomes free, with its first `wiped` bytes zeroed and the others as they were.
pub open spec fn is_freed<M>(
    before: PoolView<M>,
    after: PoolView<M>,
    slot: int,
    wiped: nat,
) -> bool {
    &&& others_stay(before, after, slot)
    &&& after.slots[slot].state is Free
    &&& after.slots[slot].generation == before.slots[slot].generation
    &&& after.slots[slot].length == 0
    &&& after.slots[slot].metadata is None
    &&& after.slots[slot].bytes.len() == before.slots[slot].bytes.len()
    &&& forall|i: int|
        0 <= i < before.slots[slot].bytes.len() ==> #[trigger] after.slots[slot].bytes[i] == if i
            < wiped {
            0
        } else {
            before.slots[slot].bytes[i]
        }
    &&& after.free == before.free.push(slot)
    &&& after.ready == before.ready
}

/// Whether a slot changes hands and nothing in it changes.
pub open spec fn changes_hands<M>(
    before: PoolView<M>,
    after: PoolView<M>,
    slot: int,
    state: SlotState,
) -> bool {
    &&& others_stay(before, after, slot)
    &&& after.slots[slot] == (SlotView { state, ..before.slots[slot] })
    &&& after.free == before.free
}

proof fn lemma_is_freed<M>(before: PoolView<M>, slot: int, wiped: nat)
    requires
        0 <= slot < before.slots.len(),
        wiped <= before.slots[slot].bytes.len(),
    ensures
        is_freed(before, before.released(slot, wiped), slot, wiped),
{
}

proof fn lemma_hands_out<M>(before: PoolView<M>, buffer_size: nat)
    requires
        before.well_formed(buffer_size),
        before.reserve_failure() is None,
    ensures
        ({
            let slot = before.next_reserved();
            hands_out(before, before.reserved(), slot, before.reserved().slots[slot].generation)
        }),
{
    lemma_worn_out(before.slots, before.free);
}

proof fn lemma_exhausted<M>(before: PoolView<M>, buffer_size: nat)
    requires
        before.well_formed(buffer_size),
    ensures
        before.free.len() == 0 <==> forall|i: int|
            0 <= i < before.slots.len() ==> !((#[trigger] before.slots[i]).state is Free),
{
    lemma_no_slot_in(before.slots, SlotState::Free);
}

proof fn lemma_no_slot_in<M>(slots: Seq<SlotView<M>>, state: SlotState)
    ensures
        count_in(slots, state) == 0 <==> forall|i: int|
            0 <= i < slots.len() ==> (#[trigger] slots[i]).state != state,
        count_in(slots, state) == slots.filter(|slot: SlotView<M>| slot.state == state).len(),
    decreases slots.len(),
{
    reveal(Seq::filter);
    if slots.len() > 0 {
        let before = slots.drop_last();
        let last = slots.len() - 1;
        lemma_no_slot_in(before, state);
        if count_in(slots, state) == 0 {
            assert forall|i: int| 0 <= i < slots.len() implies (#[trigger] slots[i]).state
                != state by {
                if i < last {
                    assert(before[i].state != state);
                }
            }
        }
        if forall|i: int| 0 <= i < slots.len() ==> (#[trigger] slots[i]).state != state {
            assert forall|i: int| 0 <= i < before.len() implies (#[trigger] before[i]).state
                != state by {
                assert(slots[i].state != state);
            }
            assert(slots[last].state != state);
        }
    }
}

/// A pool hands out a free slot under its next generation. It fails for want of a free slot, or of
/// one that has a generation left.
pub proof fn lemma_pool_reservations<M: Copy, const SLOTS: usize, const BUFFER_SIZE: usize>(
    reserved: Result<PoolToken, RuntimeQueueError>,
)
    ensures
        forall|queue: &mut DatagramPool<M, SLOTS, BUFFER_SIZE>|
            queue.well_formed() && #[trigger] call_ensures(
                DatagramPool::<M, SLOTS, BUFFER_SIZE>::reserve,
                (queue,),
                reserved,
            ) ==> {
                let before = queue@;
                let after = final(queue)@;
                &&& reserved matches Ok(token) ==> hands_out(
                    before,
                    after,
                    token.index as int,
                    token.generation,
                )
                &&& reserved matches Err(error) ==> {
                    &&& after.slots == before.slots
                    &&& after.ready == before.ready
                    &&& error is PoolExhausted || error is GenerationExhausted
                    &&& error is PoolExhausted <==> before.slots.len() > 0 && forall|i: int|
                        0 <= i < before.slots.len() ==> !((
                        #[trigger] before.slots[i]).state is Free)
                }
            },
{
    assert forall|queue: &mut DatagramPool<M, SLOTS, BUFFER_SIZE>|
        queue.well_formed() && #[trigger] call_ensures(
            DatagramPool::<M, SLOTS, BUFFER_SIZE>::reserve,
            (queue,),
            reserved,
        ) implies {
        let before = queue@;
        let after = final(queue)@;
        &&& reserved matches Ok(token) ==> hands_out(
            before,
            after,
            token.index as int,
            token.generation,
        )
        &&& reserved matches Err(error) ==> {
            &&& after.slots == before.slots
            &&& after.ready == before.ready
            &&& error is PoolExhausted || error is GenerationExhausted
            &&& error is PoolExhausted <==> before.slots.len() > 0 && forall|i: int|
                0 <= i < before.slots.len() ==> !((
                #[trigger] before.slots[i]).state is Free)
        }
    } by {
        let before = queue@;
        lemma_exhausted(before, BUFFER_SIZE as nat);
        if reserved is Ok {
            lemma_hands_out(before, BUFFER_SIZE as nat);
        }
    }
}

/// A pool queues a datagram behind the others exactly if its slot is reserved under its token, and
/// it is not empty, fits the buffer and is no shorter than one segment. A datagram that does not
/// fit is wiped.
pub proof fn lemma_pool_commits<M: Copy, const SLOTS: usize, const BUFFER_SIZE: usize>(
    token: PoolToken,
    length: usize,
    metadata: M,
    segments: Option<NonZeroU16>,
    outcome: Result<(), RuntimeQueueError>,
)
    ensures
        forall|queue: &mut DatagramPool<M, SLOTS, BUFFER_SIZE>|
            queue.well_formed() && #[trigger] call_ensures(
                DatagramPool::<M, SLOTS, BUFFER_SIZE>::commit,
                (queue, token, length, metadata, segments),
                outcome,
            ) ==> {
                let before = queue@;
                let after = final(queue)@;
                let owned = is_in(
                    before,
                    token.index as int,
                    token.generation,
                    SlotState::Reserved,
                );
                let fits = 0 < length <= BUFFER_SIZE && (segments is Some ==> segments->0.number()
                    <= length);
                &&& outcome is Ok <==> owned && fits
                &&& outcome is Ok ==> becomes_ready(
                    before,
                    after,
                    token.index as int,
                    length as nat,
                    metadata,
                )
                &&& !owned ==> after == before && outcome == Err::<(), RuntimeQueueError>(
                    RuntimeQueueError::InvalidOwnership,
                )
                &&& owned && !fits ==> is_freed(
                    before,
                    after,
                    token.index as int,
                    BUFFER_SIZE as nat,
                )
                &&& owned && !fits ==> (outcome matches Err(error) ==> {
                    &&& error is EmptyDatagram <==> length == 0
                    &&& error is DatagramTooLarge <==> length > BUFFER_SIZE
                    &&& error is InvalidSegmentSize <==> 0 < length <= BUFFER_SIZE
                })
            },
{
    assert forall|queue: &mut DatagramPool<M, SLOTS, BUFFER_SIZE>|
        queue.well_formed() && #[trigger] call_ensures(
            DatagramPool::<M, SLOTS, BUFFER_SIZE>::commit,
            (queue, token, length, metadata, segments),
            outcome,
        ) implies {
        let before = queue@;
        let after = final(queue)@;
        let owned = is_in(before, token.index as int, token.generation, SlotState::Reserved);
        let fits = 0 < length <= BUFFER_SIZE && (segments is Some ==> segments->0.number()
            <= length);
        &&& outcome is Ok <==> owned && fits
        &&& outcome is Ok ==> becomes_ready(
            before,
            after,
            token.index as int,
            length as nat,
            metadata,
        )
        &&& !owned ==> after == before && outcome == Err::<(), RuntimeQueueError>(
            RuntimeQueueError::InvalidOwnership,
        )
        &&& owned && !fits ==> is_freed(
            before,
            after,
            token.index as int,
            BUFFER_SIZE as nat,
        )
        &&& owned && !fits ==> (outcome matches Err(error) ==> {
            &&& error is EmptyDatagram <==> length == 0
            &&& error is DatagramTooLarge <==> length > BUFFER_SIZE
            &&& error is InvalidSegmentSize <==> 0 < length <= BUFFER_SIZE
        })
    } by {
        let before = queue@;
        if is_in(before, token.index as int, token.generation, SlotState::Reserved) {
            lemma_is_freed(before, token.index as int, BUFFER_SIZE as nat);
        }
    }
}

/// A cancelled reservation is wiped whole. Nothing happens to a slot that the
/// token does not name.
pub proof fn lemma_pool_cancellations<M: Copy, const SLOTS: usize, const BUFFER_SIZE: usize>(
    token: PoolToken,
    outcome: Result<(), RuntimeQueueError>,
)
    ensures
        forall|queue: &mut DatagramPool<M, SLOTS, BUFFER_SIZE>|
            queue.well_formed() && #[trigger] call_ensures(
                DatagramPool::<M, SLOTS, BUFFER_SIZE>::cancel,
                (queue, token),
                outcome,
            ) ==> {
                let before = queue@;
                let after = final(queue)@;
                let owned = is_in(
                    before,
                    token.index as int,
                    token.generation,
                    SlotState::Reserved,
                );
                &&& outcome is Ok <==> owned
                &&& owned ==> is_freed(before, after, token.index as int, BUFFER_SIZE as nat)
                &&& !owned ==> after == before && outcome == Err::<(), RuntimeQueueError>(
                    RuntimeQueueError::InvalidOwnership,
                )
            },
{
    assert forall|queue: &mut DatagramPool<M, SLOTS, BUFFER_SIZE>|
        queue.well_formed() && #[trigger] call_ensures(
            DatagramPool::<M, SLOTS, BUFFER_SIZE>::cancel,
            (queue, token),
            outcome,
        ) implies {
        let before = queue@;
        let after = final(queue)@;
        let owned = is_in(before, token.index as int, token.generation, SlotState::Reserved);
        &&& outcome is Ok <==> owned
        &&& owned ==> is_freed(before, after, token.index as int, BUFFER_SIZE as nat)
        &&& !owned ==> after == before && outcome == Err::<(), RuntimeQueueError>(
            RuntimeQueueError::InvalidOwnership,
        )
    } by {
        let before = queue@;
        if is_in(before, token.index as int, token.generation, SlotState::Reserved) {
            lemma_is_freed(before, token.index as int, BUFFER_SIZE as nat);
        }
    }
}

/// A reservation that was not written to is freed as it is. Nothing happens to a slot that the
/// token does not name.
pub proof fn lemma_pool_returns<M: Copy, const SLOTS: usize, const BUFFER_SIZE: usize>(
    token: PoolToken,
    outcome: Result<(), RuntimeQueueError>,
)
    ensures
        forall|queue: &mut DatagramPool<M, SLOTS, BUFFER_SIZE>|
            queue.well_formed() && #[trigger] call_ensures(
                DatagramPool::<M, SLOTS, BUFFER_SIZE>::give_back,
                (queue, token),
                outcome,
            ) ==> {
                let before = queue@;
                let after = final(queue)@;
                let owned = is_in(
                    before,
                    token.index as int,
                    token.generation,
                    SlotState::Reserved,
                );
                &&& outcome is Ok <==> owned
                &&& owned ==> is_freed(before, after, token.index as int, 0nat)
                &&& !owned ==> after == before && outcome == Err::<(), RuntimeQueueError>(
                    RuntimeQueueError::InvalidOwnership,
                )
            },
{
    assert forall|queue: &mut DatagramPool<M, SLOTS, BUFFER_SIZE>|
        queue.well_formed() && #[trigger] call_ensures(
            DatagramPool::<M, SLOTS, BUFFER_SIZE>::give_back,
            (queue, token),
            outcome,
        ) implies {
        let before = queue@;
        let after = final(queue)@;
        let owned = is_in(before, token.index as int, token.generation, SlotState::Reserved);
        &&& outcome is Ok <==> owned
        &&& owned ==> is_freed(before, after, token.index as int, 0nat)
        &&& !owned ==> after == before && outcome == Err::<(), RuntimeQueueError>(
            RuntimeQueueError::InvalidOwnership,
        )
    } by {
        let before = queue@;
        if is_in(before, token.index as int, token.generation, SlotState::Reserved) {
            lemma_is_freed(before, token.index as int, 0nat);
        }
    }
}

/// A pool gives out datagrams in the order in which they became ready.
pub proof fn lemma_pool_order<M: Copy, const SLOTS: usize, const BUFFER_SIZE: usize>(
    popped: Option<PoolToken>,
)
    ensures
        forall|queue: &mut DatagramPool<M, SLOTS, BUFFER_SIZE>|
            queue.well_formed() && #[trigger] call_ensures(
                DatagramPool::<M, SLOTS, BUFFER_SIZE>::pop,
                (queue,),
                popped,
            ) ==> {
                let before = queue@;
                let after = final(queue)@;
                &&& popped is None <==> before.ready.len() == 0
                &&& popped is None ==> after == before
                &&& popped matches Some(token) ==> {
                    &&& token.index as int == before.ready[0]
                    &&& token.generation == before.slots[token.index as int].generation
                    &&& changes_hands(before, after, token.index as int, SlotState::Held)
                    &&& after.ready == before.ready.subrange(1, before.ready.len() as int)
                }
            },
{
}

/// A requeued datagram goes behind all others that are ready, with what it holds.
pub proof fn lemma_pool_requeues<M: Copy, const SLOTS: usize, const BUFFER_SIZE: usize>(
    token: PoolToken,
    outcome: Result<(), RuntimeQueueError>,
)
    ensures
        forall|queue: &mut DatagramPool<M, SLOTS, BUFFER_SIZE>|
            queue.well_formed() && #[trigger] call_ensures(
                DatagramPool::<M, SLOTS, BUFFER_SIZE>::requeue,
                (queue, token),
                outcome,
            ) ==> {
                let before = queue@;
                let after = final(queue)@;
                let owned = is_in(before, token.index as int, token.generation, SlotState::Held);
                &&& outcome is Ok <==> owned
                &&& !owned ==> after == before
                &&& owned ==> changes_hands(before, after, token.index as int, SlotState::Ready)
                    && after.ready == before.ready.push(token.index as int)
            },
{
}

/// A deferred datagram is the kernel's, with what it holds.
pub proof fn lemma_pool_deferrals<M: Copy, const SLOTS: usize, const BUFFER_SIZE: usize>(
    token: PoolToken,
    outcome: Result<(), RuntimeQueueError>,
)
    ensures
        forall|queue: &mut DatagramPool<M, SLOTS, BUFFER_SIZE>|
            queue.well_formed() && #[trigger] call_ensures(
                DatagramPool::<M, SLOTS, BUFFER_SIZE>::defer,
                (queue, token),
                outcome,
            ) ==> {
                let before = queue@;
                let after = final(queue)@;
                let owned = is_in(before, token.index as int, token.generation, SlotState::Held);
                &&& outcome is Ok <==> owned
                &&& !owned ==> after == before
                &&& owned ==> changes_hands(
                    before,
                    after,
                    token.index as int,
                    SlotState::KernelOwned,
                ) && after.ready == before.ready
            },
{
}

/// The receive queue hands out a free slot under its next generation. It fails for want of a free
/// slot, or of one that has a generation left.
pub proof fn lemma_receive_reservations<
    const SLOTS: usize,
    const BUFFER_SIZE: usize,
    M: BufferMetadata,
>(
    reserved: Result<ReceiveReservation, RuntimeQueueError>,
)
    ensures
        forall|queue: &mut ReceiveQueue<SLOTS, BUFFER_SIZE, M>|
            queue.well_formed() && #[trigger] call_ensures(
                ReceiveQueue::<SLOTS, BUFFER_SIZE, M>::reserve,
                (queue,),
                reserved,
            ) ==> {
                let before = queue.contents();
                let after = final(queue).contents();
                &&& reserved matches Ok(token) ==> hands_out(
                    before,
                    after,
                    token.slot(),
                    token.generation(),
                )
                &&& reserved matches Err(error) ==> {
                    &&& after.slots == before.slots
                    &&& after.ready == before.ready
                    &&& error is PoolExhausted || error is GenerationExhausted
                    &&& error is PoolExhausted <==> before.slots.len() > 0 && forall|i: int|
                        0 <= i < before.slots.len() ==> !((
                        #[trigger] before.slots[i]).state is Free)
                }
            },
{
    assert forall|queue: &mut ReceiveQueue<SLOTS, BUFFER_SIZE, M>|
        queue.well_formed() && #[trigger] call_ensures(
            ReceiveQueue::<SLOTS, BUFFER_SIZE, M>::reserve,
            (queue,),
            reserved,
        ) implies {
        let before = queue.contents();
        let after = final(queue).contents();
        &&& reserved matches Ok(token) ==> hands_out(
            before,
            after,
            token.slot(),
            token.generation(),
        )
        &&& reserved matches Err(error) ==> {
            &&& after.slots == before.slots
            &&& after.ready == before.ready
            &&& error is PoolExhausted || error is GenerationExhausted
            &&& error is PoolExhausted <==> before.slots.len() > 0 && forall|i: int|
                0 <= i < before.slots.len() ==> !((
                #[trigger] before.slots[i]).state is Free)
        }
    } by {
        let before = queue.contents();
        lemma_exhausted(before, BUFFER_SIZE as nat);
        if reserved is Ok {
            lemma_hands_out(before, BUFFER_SIZE as nat);
        }
    }
}

/// The receive queue queues a datagram behind the others exactly if its slot is reserved under its
/// token, and it is not empty, fits the buffer and is no shorter than one segment. A datagram that
/// does not fit is wiped.
pub proof fn lemma_receive_commits<const SLOTS: usize, const BUFFER_SIZE: usize, M: BufferMetadata>(
    token: ReceiveReservation,
    length: usize,
    metadata: M,
    outcome: Result<(), RuntimeQueueError>,
)
    ensures
        forall|queue: &mut ReceiveQueue<SLOTS, BUFFER_SIZE, M>|
            queue.well_formed() && #[trigger] call_ensures(
                ReceiveQueue::<SLOTS, BUFFER_SIZE, M>::commit,
                (queue, token, length, metadata),
                outcome,
            ) ==> {
                let before = queue.contents();
                let after = final(queue).contents();
                let owned = is_in(before, token.slot(), token.generation(), SlotState::Reserved);
                let fits = 0 < length <= BUFFER_SIZE && (metadata.segments() is Some
                    ==> metadata.segments()->0.number() <= length);
                &&& outcome is Ok <==> owned && fits
                &&& outcome is Ok ==> becomes_ready(
                    before,
                    after,
                    token.slot(),
                    length as nat,
                    metadata,
                )
                &&& !owned ==> after == before && outcome == Err::<(), RuntimeQueueError>(
                    RuntimeQueueError::InvalidOwnership,
                )
                &&& owned && !fits ==> is_freed(
                    before,
                    after,
                    token.slot(),
                    BUFFER_SIZE as nat,
                )
                &&& owned && !fits ==> (outcome matches Err(error) ==> {
                    &&& error is EmptyDatagram <==> length == 0
                    &&& error is DatagramTooLarge <==> length > BUFFER_SIZE
                    &&& error is InvalidSegmentSize <==> 0 < length <= BUFFER_SIZE
                })
            },
{
    assert forall|queue: &mut ReceiveQueue<SLOTS, BUFFER_SIZE, M>|
        queue.well_formed() && #[trigger] call_ensures(
            ReceiveQueue::<SLOTS, BUFFER_SIZE, M>::commit,
            (queue, token, length, metadata),
            outcome,
        ) implies {
        let before = queue.contents();
        let after = final(queue).contents();
        let owned = is_in(before, token.slot(), token.generation(), SlotState::Reserved);
        let fits = 0 < length <= BUFFER_SIZE && (metadata.segments() is Some
            ==> metadata.segments()->0.number() <= length);
        &&& outcome is Ok <==> owned && fits
        &&& outcome is Ok ==> becomes_ready(
            before,
            after,
            token.slot(),
            length as nat,
            metadata,
        )
        &&& !owned ==> after == before && outcome == Err::<(), RuntimeQueueError>(
            RuntimeQueueError::InvalidOwnership,
        )
        &&& owned && !fits ==> is_freed(
            before,
            after,
            token.slot(),
            BUFFER_SIZE as nat,
        )
        &&& owned && !fits ==> (outcome matches Err(error) ==> {
            &&& error is EmptyDatagram <==> length == 0
            &&& error is DatagramTooLarge <==> length > BUFFER_SIZE
            &&& error is InvalidSegmentSize <==> 0 < length <= BUFFER_SIZE
        })
    } by {
        let before = queue.contents();
        if is_in(before, token.slot(), token.generation(), SlotState::Reserved) {
            lemma_is_freed(before, token.slot(), BUFFER_SIZE as nat);
        }
    }
}

/// A cancelled reservation is wiped whole. Nothing happens to a slot that the
/// token does not name.
pub proof fn lemma_receive_cancellations<
    const SLOTS: usize,
    const BUFFER_SIZE: usize,
    M: BufferMetadata,
>(
    token: ReceiveReservation,
    outcome: Result<(), RuntimeQueueError>,
)
    ensures
        forall|queue: &mut ReceiveQueue<SLOTS, BUFFER_SIZE, M>|
            queue.well_formed() && #[trigger] call_ensures(
                ReceiveQueue::<SLOTS, BUFFER_SIZE, M>::cancel,
                (queue, token),
                outcome,
            ) ==> {
                let before = queue.contents();
                let after = final(queue).contents();
                let owned = is_in(before, token.slot(), token.generation(), SlotState::Reserved);
                &&& outcome is Ok <==> owned
                &&& owned ==> is_freed(before, after, token.slot(), BUFFER_SIZE as nat)
                &&& !owned ==> after == before && outcome == Err::<(), RuntimeQueueError>(
                    RuntimeQueueError::InvalidOwnership,
                )
            },
{
    assert forall|queue: &mut ReceiveQueue<SLOTS, BUFFER_SIZE, M>|
        queue.well_formed() && #[trigger] call_ensures(
            ReceiveQueue::<SLOTS, BUFFER_SIZE, M>::cancel,
            (queue, token),
            outcome,
        ) implies {
        let before = queue.contents();
        let after = final(queue).contents();
        let owned = is_in(before, token.slot(), token.generation(), SlotState::Reserved);
        &&& outcome is Ok <==> owned
        &&& owned ==> is_freed(before, after, token.slot(), BUFFER_SIZE as nat)
        &&& !owned ==> after == before && outcome == Err::<(), RuntimeQueueError>(
            RuntimeQueueError::InvalidOwnership,
        )
    } by {
        let before = queue.contents();
        if is_in(before, token.slot(), token.generation(), SlotState::Reserved) {
            lemma_is_freed(before, token.slot(), BUFFER_SIZE as nat);
        }
    }
}

/// A reservation that was not written to is freed as it is. Nothing happens to a slot that the
/// token does not name.
pub proof fn lemma_receive_returns<const SLOTS: usize, const BUFFER_SIZE: usize, M: BufferMetadata>(
    token: ReceiveReservation,
    outcome: Result<(), RuntimeQueueError>,
)
    ensures
        forall|queue: &mut ReceiveQueue<SLOTS, BUFFER_SIZE, M>|
            queue.well_formed() && #[trigger] call_ensures(
                ReceiveQueue::<SLOTS, BUFFER_SIZE, M>::release_unwritten_receive_reservation,
                (queue, token),
                outcome,
            ) ==> {
                let before = queue.contents();
                let after = final(queue).contents();
                let owned = is_in(before, token.slot(), token.generation(), SlotState::Reserved);
                &&& outcome is Ok <==> owned
                &&& owned ==> is_freed(before, after, token.slot(), 0nat)
                &&& !owned ==> after == before && outcome == Err::<(), RuntimeQueueError>(
                    RuntimeQueueError::InvalidOwnership,
                )
            },
{
    assert forall|queue: &mut ReceiveQueue<SLOTS, BUFFER_SIZE, M>|
        queue.well_formed() && #[trigger] call_ensures(
            ReceiveQueue::<SLOTS, BUFFER_SIZE, M>::release_unwritten_receive_reservation,
            (queue, token),
            outcome,
        ) implies {
        let before = queue.contents();
        let after = final(queue).contents();
        let owned = is_in(before, token.slot(), token.generation(), SlotState::Reserved);
        &&& outcome is Ok <==> owned
        &&& owned ==> is_freed(before, after, token.slot(), 0nat)
        &&& !owned ==> after == before && outcome == Err::<(), RuntimeQueueError>(
            RuntimeQueueError::InvalidOwnership,
        )
    } by {
        let before = queue.contents();
        if is_in(before, token.slot(), token.generation(), SlotState::Reserved) {
            lemma_is_freed(before, token.slot(), 0nat);
        }
    }
}

/// A released datagram is wiped. Nothing happens to a slot that the
/// token does not name.
pub proof fn lemma_receive_releases<
    const SLOTS: usize,
    const BUFFER_SIZE: usize,
    M: BufferMetadata,
>(
    token: ReceivedDatagram,
    outcome: Result<(), RuntimeQueueError>,
)
    ensures
        forall|queue: &mut ReceiveQueue<SLOTS, BUFFER_SIZE, M>|
            queue.well_formed() && #[trigger] call_ensures(
                ReceiveQueue::<SLOTS, BUFFER_SIZE, M>::release,
                (queue, token),
                outcome,
            ) ==> {
                let before = queue.contents();
                let after = final(queue).contents();
                let owned = is_in(before, token.slot(), token.generation(), SlotState::Held);
                &&& outcome is Ok <==> owned
                &&& owned ==> is_freed(
                    before,
                    after,
                    token.slot(),
                    before.slots[token.slot()].length,
                )
                &&& !owned ==> after == before && outcome == Err::<(), RuntimeQueueError>(
                    RuntimeQueueError::InvalidOwnership,
                )
            },
{
    assert forall|queue: &mut ReceiveQueue<SLOTS, BUFFER_SIZE, M>|
        queue.well_formed() && #[trigger] call_ensures(
            ReceiveQueue::<SLOTS, BUFFER_SIZE, M>::release,
            (queue, token),
            outcome,
        ) implies {
        let before = queue.contents();
        let after = final(queue).contents();
        let owned = is_in(before, token.slot(), token.generation(), SlotState::Held);
        &&& outcome is Ok <==> owned
        &&& owned ==> is_freed(before, after, token.slot(), before.slots[token.slot()].length)
        &&& !owned ==> after == before && outcome == Err::<(), RuntimeQueueError>(
            RuntimeQueueError::InvalidOwnership,
        )
    } by {
        let before = queue.contents();
        if is_in(before, token.slot(), token.generation(), SlotState::Held) {
            lemma_is_freed(before, token.slot(), before.slots[token.slot()].length);
        }
    }
}

/// The receive queue gives out datagrams in the order in which they became ready.
pub proof fn lemma_receive_order<const SLOTS: usize, const BUFFER_SIZE: usize, M: BufferMetadata>(
    popped: Option<ReceivedDatagram>,
)
    ensures
        forall|queue: &mut ReceiveQueue<SLOTS, BUFFER_SIZE, M>|
            queue.well_formed() && #[trigger] call_ensures(
                ReceiveQueue::<SLOTS, BUFFER_SIZE, M>::pop,
                (queue,),
                popped,
            ) ==> {
                let before = queue.contents();
                let after = final(queue).contents();
                &&& popped is None <==> before.ready.len() == 0
                &&& popped is None ==> after == before
                &&& popped matches Some(token) ==> {
                    &&& token.slot() == before.ready[0]
                    &&& token.generation() == before.slots[token.slot()].generation
                    &&& changes_hands(before, after, token.slot(), SlotState::Held)
                    &&& after.ready == before.ready.subrange(1, before.ready.len() as int)
                }
            },
{
}

/// The transmit queue hands out a free slot under its next generation. It fails for want of a free
/// slot, or of one that has a generation left.
pub proof fn lemma_transmit_reservations<
    const SLOTS: usize,
    const BUFFER_SIZE: usize,
    M: BufferMetadata,
>(
    reserved: Result<TransmitReservation, RuntimeQueueError>,
)
    ensures
        forall|queue: &mut TransmitQueue<SLOTS, BUFFER_SIZE, M>|
            queue.well_formed() && #[trigger] call_ensures(
                TransmitQueue::<SLOTS, BUFFER_SIZE, M>::reserve,
                (queue,),
                reserved,
            ) ==> {
                let before = queue.contents();
                let after = final(queue).contents();
                &&& reserved matches Ok(token) ==> hands_out(
                    before,
                    after,
                    token.slot(),
                    token.generation(),
                )
                &&& reserved matches Err(error) ==> {
                    &&& after.slots == before.slots
                    &&& after.ready == before.ready
                    &&& error is PoolExhausted || error is GenerationExhausted
                    &&& error is PoolExhausted <==> before.slots.len() > 0 && forall|i: int|
                        0 <= i < before.slots.len() ==> !((
                        #[trigger] before.slots[i]).state is Free)
                }
            },
{
    assert forall|queue: &mut TransmitQueue<SLOTS, BUFFER_SIZE, M>|
        queue.well_formed() && #[trigger] call_ensures(
            TransmitQueue::<SLOTS, BUFFER_SIZE, M>::reserve,
            (queue,),
            reserved,
        ) implies {
        let before = queue.contents();
        let after = final(queue).contents();
        &&& reserved matches Ok(token) ==> hands_out(
            before,
            after,
            token.slot(),
            token.generation(),
        )
        &&& reserved matches Err(error) ==> {
            &&& after.slots == before.slots
            &&& after.ready == before.ready
            &&& error is PoolExhausted || error is GenerationExhausted
            &&& error is PoolExhausted <==> before.slots.len() > 0 && forall|i: int|
                0 <= i < before.slots.len() ==> !((
                #[trigger] before.slots[i]).state is Free)
        }
    } by {
        let before = queue.contents();
        lemma_exhausted(before, BUFFER_SIZE as nat);
        if reserved is Ok {
            lemma_hands_out(before, BUFFER_SIZE as nat);
        }
    }
}

/// The transmit queue queues a datagram behind the others exactly if its slot is reserved under its
/// token, and it is not empty, fits the buffer and is no shorter than one segment. A datagram that
/// does not fit is wiped.
pub proof fn lemma_transmit_commits<
    const SLOTS: usize,
    const BUFFER_SIZE: usize,
    M: BufferMetadata,
>(
    token: TransmitReservation,
    length: usize,
    metadata: M,
    outcome: Result<(), RuntimeQueueError>,
)
    ensures
        forall|queue: &mut TransmitQueue<SLOTS, BUFFER_SIZE, M>|
            queue.well_formed() && #[trigger] call_ensures(
                TransmitQueue::<SLOTS, BUFFER_SIZE, M>::commit,
                (queue, token, length, metadata),
                outcome,
            ) ==> {
                let before = queue.contents();
                let after = final(queue).contents();
                let owned = is_in(before, token.slot(), token.generation(), SlotState::Reserved);
                let fits = 0 < length <= BUFFER_SIZE && (metadata.segments() is Some
                    ==> metadata.segments()->0.number() <= length);
                &&& outcome is Ok <==> owned && fits
                &&& outcome is Ok ==> becomes_ready(
                    before,
                    after,
                    token.slot(),
                    length as nat,
                    metadata,
                )
                &&& !owned ==> after == before && outcome == Err::<(), RuntimeQueueError>(
                    RuntimeQueueError::InvalidOwnership,
                )
                &&& owned && !fits ==> is_freed(
                    before,
                    after,
                    token.slot(),
                    BUFFER_SIZE as nat,
                )
                &&& owned && !fits ==> (outcome matches Err(error) ==> {
                    &&& error is EmptyDatagram <==> length == 0
                    &&& error is DatagramTooLarge <==> length > BUFFER_SIZE
                    &&& error is InvalidSegmentSize <==> 0 < length <= BUFFER_SIZE
                })
            },
{
    assert forall|queue: &mut TransmitQueue<SLOTS, BUFFER_SIZE, M>|
        queue.well_formed() && #[trigger] call_ensures(
            TransmitQueue::<SLOTS, BUFFER_SIZE, M>::commit,
            (queue, token, length, metadata),
            outcome,
        ) implies {
        let before = queue.contents();
        let after = final(queue).contents();
        let owned = is_in(before, token.slot(), token.generation(), SlotState::Reserved);
        let fits = 0 < length <= BUFFER_SIZE && (metadata.segments() is Some
            ==> metadata.segments()->0.number() <= length);
        &&& outcome is Ok <==> owned && fits
        &&& outcome is Ok ==> becomes_ready(
            before,
            after,
            token.slot(),
            length as nat,
            metadata,
        )
        &&& !owned ==> after == before && outcome == Err::<(), RuntimeQueueError>(
            RuntimeQueueError::InvalidOwnership,
        )
        &&& owned && !fits ==> is_freed(
            before,
            after,
            token.slot(),
            BUFFER_SIZE as nat,
        )
        &&& owned && !fits ==> (outcome matches Err(error) ==> {
            &&& error is EmptyDatagram <==> length == 0
            &&& error is DatagramTooLarge <==> length > BUFFER_SIZE
            &&& error is InvalidSegmentSize <==> 0 < length <= BUFFER_SIZE
        })
    } by {
        let before = queue.contents();
        if is_in(before, token.slot(), token.generation(), SlotState::Reserved) {
            lemma_is_freed(before, token.slot(), BUFFER_SIZE as nat);
        }
    }
}

/// A cancelled reservation is wiped whole. Nothing happens to a slot that the
/// token does not name.
pub proof fn lemma_transmit_cancellations<
    const SLOTS: usize,
    const BUFFER_SIZE: usize,
    M: BufferMetadata,
>(
    token: TransmitReservation,
    outcome: Result<(), RuntimeQueueError>,
)
    ensures
        forall|queue: &mut TransmitQueue<SLOTS, BUFFER_SIZE, M>|
            queue.well_formed() && #[trigger] call_ensures(
                TransmitQueue::<SLOTS, BUFFER_SIZE, M>::cancel,
                (queue, token),
                outcome,
            ) ==> {
                let before = queue.contents();
                let after = final(queue).contents();
                let owned = is_in(before, token.slot(), token.generation(), SlotState::Reserved);
                &&& outcome is Ok <==> owned
                &&& owned ==> is_freed(before, after, token.slot(), BUFFER_SIZE as nat)
                &&& !owned ==> after == before && outcome == Err::<(), RuntimeQueueError>(
                    RuntimeQueueError::InvalidOwnership,
                )
            },
{
    assert forall|queue: &mut TransmitQueue<SLOTS, BUFFER_SIZE, M>|
        queue.well_formed() && #[trigger] call_ensures(
            TransmitQueue::<SLOTS, BUFFER_SIZE, M>::cancel,
            (queue, token),
            outcome,
        ) implies {
        let before = queue.contents();
        let after = final(queue).contents();
        let owned = is_in(before, token.slot(), token.generation(), SlotState::Reserved);
        &&& outcome is Ok <==> owned
        &&& owned ==> is_freed(before, after, token.slot(), BUFFER_SIZE as nat)
        &&& !owned ==> after == before && outcome == Err::<(), RuntimeQueueError>(
            RuntimeQueueError::InvalidOwnership,
        )
    } by {
        let before = queue.contents();
        if is_in(before, token.slot(), token.generation(), SlotState::Reserved) {
            lemma_is_freed(before, token.slot(), BUFFER_SIZE as nat);
        }
    }
}

/// A completed datagram is wiped. Nothing happens to a slot that the
/// token does not name.
pub proof fn lemma_transmit_completions<
    const SLOTS: usize,
    const BUFFER_SIZE: usize,
    M: BufferMetadata,
>(
    token: TransmitDatagram,
    outcome: Result<(), RuntimeQueueError>,
)
    ensures
        forall|queue: &mut TransmitQueue<SLOTS, BUFFER_SIZE, M>|
            queue.well_formed() && #[trigger] call_ensures(
                TransmitQueue::<SLOTS, BUFFER_SIZE, M>::complete,
                (queue, token),
                outcome,
            ) ==> {
                let before = queue.contents();
                let after = final(queue).contents();
                let owned = is_in(before, token.slot(), token.generation(), SlotState::Held);
                &&& outcome is Ok <==> owned
                &&& owned ==> is_freed(
                    before,
                    after,
                    token.slot(),
                    before.slots[token.slot()].length,
                )
                &&& !owned ==> after == before && outcome == Err::<(), RuntimeQueueError>(
                    RuntimeQueueError::InvalidOwnership,
                )
            },
{
    assert forall|queue: &mut TransmitQueue<SLOTS, BUFFER_SIZE, M>|
        queue.well_formed() && #[trigger] call_ensures(
            TransmitQueue::<SLOTS, BUFFER_SIZE, M>::complete,
            (queue, token),
            outcome,
        ) implies {
        let before = queue.contents();
        let after = final(queue).contents();
        let owned = is_in(before, token.slot(), token.generation(), SlotState::Held);
        &&& outcome is Ok <==> owned
        &&& owned ==> is_freed(before, after, token.slot(), before.slots[token.slot()].length)
        &&& !owned ==> after == before && outcome == Err::<(), RuntimeQueueError>(
            RuntimeQueueError::InvalidOwnership,
        )
    } by {
        let before = queue.contents();
        if is_in(before, token.slot(), token.generation(), SlotState::Held) {
            lemma_is_freed(before, token.slot(), before.slots[token.slot()].length);
        }
    }
}

/// A discarded datagram is wiped. Nothing happens to a slot that the
/// token does not name.
pub proof fn lemma_transmit_discards<
    const SLOTS: usize,
    const BUFFER_SIZE: usize,
    M: BufferMetadata,
>(
    token: TransmitDatagram,
    outcome: Result<(), RuntimeQueueError>,
)
    ensures
        forall|queue: &mut TransmitQueue<SLOTS, BUFFER_SIZE, M>|
            queue.well_formed() && #[trigger] call_ensures(
                TransmitQueue::<SLOTS, BUFFER_SIZE, M>::discard,
                (queue, token),
                outcome,
            ) ==> {
                let before = queue.contents();
                let after = final(queue).contents();
                let owned = is_in(before, token.slot(), token.generation(), SlotState::Held);
                &&& outcome is Ok <==> owned
                &&& owned ==> is_freed(
                    before,
                    after,
                    token.slot(),
                    before.slots[token.slot()].length,
                )
                &&& !owned ==> after == before && outcome == Err::<(), RuntimeQueueError>(
                    RuntimeQueueError::InvalidOwnership,
                )
            },
{
    assert forall|queue: &mut TransmitQueue<SLOTS, BUFFER_SIZE, M>|
        queue.well_formed() && #[trigger] call_ensures(
            TransmitQueue::<SLOTS, BUFFER_SIZE, M>::discard,
            (queue, token),
            outcome,
        ) implies {
        let before = queue.contents();
        let after = final(queue).contents();
        let owned = is_in(before, token.slot(), token.generation(), SlotState::Held);
        &&& outcome is Ok <==> owned
        &&& owned ==> is_freed(before, after, token.slot(), before.slots[token.slot()].length)
        &&& !owned ==> after == before && outcome == Err::<(), RuntimeQueueError>(
            RuntimeQueueError::InvalidOwnership,
        )
    } by {
        let before = queue.contents();
        if is_in(before, token.slot(), token.generation(), SlotState::Held) {
            lemma_is_freed(before, token.slot(), before.slots[token.slot()].length);
        }
    }
}

/// The transmit queue gives out datagrams in the order in which they became ready.
pub proof fn lemma_transmit_order<const SLOTS: usize, const BUFFER_SIZE: usize, M: BufferMetadata>(
    popped: Option<TransmitDatagram>,
)
    ensures
        forall|queue: &mut TransmitQueue<SLOTS, BUFFER_SIZE, M>|
            queue.well_formed() && #[trigger] call_ensures(
                TransmitQueue::<SLOTS, BUFFER_SIZE, M>::pop,
                (queue,),
                popped,
            ) ==> {
                let before = queue.contents();
                let after = final(queue).contents();
                &&& popped is None <==> before.ready.len() == 0
                &&& popped is None ==> after == before
                &&& popped matches Some(token) ==> {
                    &&& token.slot() == before.ready[0]
                    &&& token.generation() == before.slots[token.slot()].generation
                    &&& changes_hands(before, after, token.slot(), SlotState::Held)
                    &&& after.ready == before.ready.subrange(1, before.ready.len() as int)
                }
            },
{
}

/// A requeued datagram goes behind all others that are ready, with what it holds.
pub proof fn lemma_transmit_requeues<
    const SLOTS: usize,
    const BUFFER_SIZE: usize,
    M: BufferMetadata,
>(
    token: TransmitDatagram,
    outcome: Result<(), RuntimeQueueError>,
)
    ensures
        forall|queue: &mut TransmitQueue<SLOTS, BUFFER_SIZE, M>|
            queue.well_formed() && #[trigger] call_ensures(
                TransmitQueue::<SLOTS, BUFFER_SIZE, M>::requeue,
                (queue, token),
                outcome,
            ) ==> {
                let before = queue.contents();
                let after = final(queue).contents();
                let owned = is_in(before, token.slot(), token.generation(), SlotState::Held);
                &&& outcome is Ok <==> owned
                &&& !owned ==> after == before
                &&& owned ==> changes_hands(before, after, token.slot(), SlotState::Ready)
                    && after.ready == before.ready.push(token.slot())
            },
{
}

/// A deferred datagram is the kernel's, and its tag names the queue, the slot and the generation.
pub proof fn lemma_transmit_deferrals<
    const SLOTS: usize,
    const BUFFER_SIZE: usize,
    M: BufferMetadata,
>(
    token: TransmitDatagram,
    deferred: Result<TransmitCompletionTag, RuntimeQueueError>,
)
    ensures
        forall|queue: &mut TransmitQueue<SLOTS, BUFFER_SIZE, M>|
            queue.well_formed() && #[trigger] call_ensures(
                TransmitQueue::<SLOTS, BUFFER_SIZE, M>::defer_completion,
                (queue, token),
                deferred,
            ) ==> {
                let before = queue.contents();
                let after = final(queue).contents();
                let owned = is_in(before, token.slot(), token.generation(), SlotState::Held);
                &&& deferred is Ok <==> owned
                &&& !owned ==> after == before
                &&& owned ==> changes_hands(before, after, token.slot(), SlotState::KernelOwned)
                    && after.ready == before.ready
                &&& deferred matches Ok(tag) ==> tag.queue() == before.identity && tag.slot()
                    == token.slot() && tag.generation() == token.generation()
            },
{
}

/// A tag completes the datagram that it was given for, once, and only in its own queue.
pub proof fn lemma_transmit_deferred_completions<
    const SLOTS: usize,
    const BUFFER_SIZE: usize,
    M: BufferMetadata,
>(
    tag: TransmitCompletionTag,
    outcome: Result<(), RuntimeQueueError>,
)
    ensures
        forall|queue: &mut TransmitQueue<SLOTS, BUFFER_SIZE, M>|
            queue.well_formed() && #[trigger] call_ensures(
                TransmitQueue::<SLOTS, BUFFER_SIZE, M>::complete_deferred,
                (queue, tag),
                outcome,
            ) ==> {
                let before = queue.contents();
                let after = final(queue).contents();
                let owned = tag.queue() == before.identity && is_in(
                    before,
                    tag.slot(),
                    tag.generation(),
                    SlotState::KernelOwned,
                );
                &&& outcome is Ok <==> owned
                &&& owned ==> is_freed(
                    before,
                    after,
                    tag.slot(),
                    before.slots[tag.slot()].length,
                )
                &&& !owned ==> after == before
            },
{
    assert forall|queue: &mut TransmitQueue<SLOTS, BUFFER_SIZE, M>|
        queue.well_formed() && #[trigger] call_ensures(
            TransmitQueue::<SLOTS, BUFFER_SIZE, M>::complete_deferred,
            (queue, tag),
            outcome,
        ) implies {
        let before = queue.contents();
        let after = final(queue).contents();
        let owned = tag.queue() == before.identity && is_in(
            before,
            tag.slot(),
            tag.generation(),
            SlotState::KernelOwned,
        );
        &&& outcome is Ok <==> owned
        &&& owned ==> is_freed(
            before,
            after,
            tag.slot(),
            before.slots[tag.slot()].length,
        )
        &&& !owned ==> after == before
    } by {
        let before = queue.contents();
        if is_in(before, tag.slot(), tag.generation(), SlotState::KernelOwned) {
            lemma_is_freed(before, tag.slot(), before.slots[tag.slot()].length);
        }
    }
}

/// A datagram in hand is shown with its own bytes and metadata, and only while its token names it.
pub proof fn lemma_received_views<const SLOTS: usize, const BUFFER_SIZE: usize, M: BufferMetadata>(
    queue: &ReceiveQueue<SLOTS, BUFFER_SIZE, M>,
    datagram: &ReceivedDatagram,
    view: Result<ReceivedDatagramView<'_, M>, RuntimeQueueError>,
)
    requires
        queue.well_formed(),
        call_ensures(ReceiveQueue::<SLOTS, BUFFER_SIZE, M>::view, (queue, datagram), view),
    ensures
        view is Ok <==> is_in(
            queue.contents(),
            datagram.slot(),
            datagram.generation(),
            SlotState::Held,
        ),
        view matches Ok(view) ==> {
            let slot = queue.contents().slots[datagram.slot()];
            &&& view.bytes() == slot.bytes.subrange(0, slot.length as int)
            &&& slot.metadata == Some(view.ancillary())
        },
{
}

/// A datagram in hand is shown with its own bytes and metadata, and only while its token names it.
pub proof fn lemma_transmit_views<const SLOTS: usize, const BUFFER_SIZE: usize, M: BufferMetadata>(
    queue: &TransmitQueue<SLOTS, BUFFER_SIZE, M>,
    datagram: &TransmitDatagram,
    view: Result<TransmitDatagramView<'_, M>, RuntimeQueueError>,
)
    requires
        queue.well_formed(),
        call_ensures(TransmitQueue::<SLOTS, BUFFER_SIZE, M>::view, (queue, datagram), view),
    ensures
        view is Ok <==> is_in(
            queue.contents(),
            datagram.slot(),
            datagram.generation(),
            SlotState::Held,
        ),
        view matches Ok(view) ==> {
            let slot = queue.contents().slots[datagram.slot()];
            &&& view.bytes() == slot.bytes.subrange(0, slot.length as int)
            &&& slot.metadata == Some(view.routing())
        },
{
}

/// The statistics count every slot once, by its state.
pub proof fn lemma_statistics_count_every_slot<
    const SLOTS: usize,
    const BUFFER_SIZE: usize,
    M: BufferMetadata,
>(
    received: &ReceiveQueue<SLOTS, BUFFER_SIZE, M>,
    transmitted: &TransmitQueue<SLOTS, BUFFER_SIZE, M>,
    receive: BufferQueueStats,
    transmit: BufferQueueStats,
)
    requires
        received.well_formed(),
        transmitted.well_formed(),
        call_ensures(ReceiveQueue::<SLOTS, BUFFER_SIZE, M>::stats, (received,), receive),
        call_ensures(TransmitQueue::<SLOTS, BUFFER_SIZE, M>::stats, (transmitted,), transmit),
    ensures
        receive.capacity == SLOTS && transmit.capacity == SLOTS,
        receive.kernel_owned == 0,
        receive.free == in_state(received.contents(), SlotState::Free),
        receive.ready == in_state(received.contents(), SlotState::Ready),
        receive.reserved_or_delivered == in_state(received.contents(), SlotState::Reserved)
            + in_state(received.contents(), SlotState::Held),
        transmit.free == in_state(transmitted.contents(), SlotState::Free),
        transmit.ready == in_state(transmitted.contents(), SlotState::Ready),
        transmit.reserved_or_delivered == in_state(transmitted.contents(), SlotState::Reserved)
            + in_state(transmitted.contents(), SlotState::Held),
        transmit.kernel_owned == in_state(transmitted.contents(), SlotState::KernelOwned),
        transmit.free + transmit.ready + transmit.reserved_or_delivered + transmit.kernel_owned
            == transmit.capacity,
{
    let left = received.contents().slots;
    let right = transmitted.contents().slots;
    lemma_no_slot_in(left, SlotState::Free);
    lemma_no_slot_in(left, SlotState::Ready);
    lemma_no_slot_in(left, SlotState::Reserved);
    lemma_no_slot_in(left, SlotState::Held);
    lemma_no_slot_in(right, SlotState::Free);
    lemma_no_slot_in(right, SlotState::Ready);
    lemma_no_slot_in(right, SlotState::Reserved);
    lemma_no_slot_in(right, SlotState::Held);
    lemma_no_slot_in(right, SlotState::KernelOwned);
    crate::runtime::pool::lemma_every_buffer_has_one_owner(right);
}

/// The slots in a state.
pub open spec fn in_state<M>(pool: PoolView<M>, state: SlotState) -> nat {
    pool.slots.filter(|slot: SlotView<M>| slot.state == state).len()
}

/// A payload falls into segments of one size, in order, and only the last one may be shorter. A
/// payload without a segment size is one segment.
pub proof fn lemma_segments_cut_the_payload<'a, M: BufferMetadata>(
    view: &ReceivedDatagramView<'a, M>,
    segments: DatagramSegments<'a>,
    pieces: Vec<&'a [u8]>,
)
    requires
        view.bytes().len() > 0,
        call_ensures(ReceivedDatagramView::<'a, M>::segments, (view,), segments),
        call_ensures(DatagramSegments::<'a>::to_vec, (segments,), pieces),
    ensures
        ({
            let payload = view.bytes();
            let size = match view.ancillary().segments() {
                Some(size) => size.number() as int,
                None => payload.len() as int,
            };
            size > 0 ==> {
                &&& (pieces@.len() - 1) * size < payload.len() <= pieces@.len() * size
                &&& forall|i: int|
                    0 <= i < pieces@.len() ==> (#[trigger] pieces@[i])@ == payload.subrange(
                        i * size,
                        if (i + 1) * size <= payload.len() {
                            (i + 1) * size
                        } else {
                            payload.len() as int
                        },
                    )
            }
        }),
{
    let payload = view.bytes();
    let size = view.segment_size();
    if size > 0 {
        lemma_cut(payload, size);
        assert forall|i: int| 0 <= i < pieces@.len() implies (#[trigger] pieces@[i])@
            == payload.subrange(
            i * size,
            if (i + 1) * size <= payload.len() {
                (i + 1) * size
            } else {
                payload.len() as int
            },
        ) by {
            assert(pieces@[i]@ == segments_of(payload, size)[i]);
        }
    }
}

proof fn lemma_cut(payload: Seq<u8>, size: nat)
    requires
        size > 0,
        payload.len() > 0,
    ensures
        ({
            let pieces = segments_of(payload, size);
            &&& (pieces.len() - 1) * size < payload.len() <= pieces.len() * size
            &&& forall|i: int|
                0 <= i < pieces.len() ==> #[trigger] pieces[i] == payload.subrange(
                    i * size,
                    if (i + 1) * size <= payload.len() {
                        (i + 1) * size
                    } else {
                        payload.len() as int
                    },
                )
        }),
    decreases payload.len(),
{
    let pieces = segments_of(payload, size);
    if payload.len() <= size {
        assert(payload.subrange(0, payload.len() as int) =~= payload);
        assert(1 * size == size);
        assert(0 * size == 0);
    } else {
        let rest = payload.skip(size as int);
        let others = segments_of(rest, size);
        lemma_cut(rest, size);
        assert(pieces.len() == others.len() + 1);
        assert((pieces.len() - 1) * size == (others.len() - 1) * size + size) by (nonlinear_arith)
            requires
                pieces.len() == others.len() + 1,
        ;
        assert(pieces.len() * size == others.len() * size + size) by (nonlinear_arith)
            requires
                pieces.len() == others.len() + 1,
        ;
        assert forall|i: int| 0 <= i < pieces.len() implies #[trigger] pieces[i]
            == payload.subrange(
            i * size,
            if (i + 1) * size <= payload.len() {
                (i + 1) * size
            } else {
                payload.len() as int
            },
        ) by {
            if i == 0 {
                assert(0 * size == 0);
                assert(1 * size == size);
                assert(pieces[0] == payload.take(size as int));
                assert(payload.take(size as int) =~= payload.subrange(0, size as int));
            } else {
                assert(pieces[i] == others[i - 1]);
                assert((i - 1) * size == i * size - size) by (nonlinear_arith);
                assert((i + 1) * size == i * size + size) by (nonlinear_arith);
                assert(0 <= (i - 1) * size) by (nonlinear_arith)
                    requires
                        i >= 1,
                        size > 0,
                ;
                assert(i * size <= payload.len()) by {
                    assert(i * size <= (pieces.len() - 1) * size) by (nonlinear_arith)
                        requires
                            i <= pieces.len() - 1,
                            size > 0,
                    ;
                }
                let end = if i * size <= rest.len() {
                    i * size
                } else {
                    rest.len() as int
                };
                assert(others[i - 1] == rest.subrange((i - 1) * size, end));
                assert(rest.subrange((i - 1) * size, end) =~= payload.subrange(
                    i * size,
                    end + size,
                ));
            }
        }
    }
}

} // verus!
