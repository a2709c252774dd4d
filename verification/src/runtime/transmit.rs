//! Fixed transmit arena with retry and kernel-completion ownership.

use vstd::prelude::*;
use vstd::string::*;

use crate::runtime::identity::QueueIdentity;
use crate::runtime::pool::{
    count_in, datagram_shape_failure, DatagramPool, PoolToken, PoolView, SlotState,
};
use crate::runtime::{BufferMetadata, BufferQueueStats, RuntimeQueueError, TransmitMetadata};
use crate::text::{decimal, fixed, with_number};

verus! {

/// Transmit-buffer reservation owned by the protocol event loop.
#[must_use]
pub struct TransmitReservation {
    token: PoolToken,
}

impl TransmitReservation {
    /// The slot that the reservation names.
    pub closed spec fn slot(&self) -> int {
        self.token.index as int
    }

    /// The generation that the reservation names.
    pub closed spec fn generation(&self) -> u32 {
        self.token.generation
    }

    /// Returns a text for diagnostics that shows nothing of the buffer.
    pub fn debug_text(&self) -> (text: String)
        ensures
            text@ == "TransmitReservation(<redacted>)"@,
    {
        fixed("TransmitReservation(<redacted>)")
    }
}

/// Ready transmit-buffer ownership returned to a socket adapter.
#[must_use]
pub struct TransmitDatagram {
    token: PoolToken,
}

impl TransmitDatagram {
    /// The slot that the datagram names.
    pub closed spec fn slot(&self) -> int {
        self.token.index as int
    }

    /// The generation that the datagram names.
    pub closed spec fn generation(&self) -> u32 {
        self.token.generation
    }

    /// Returns a text for diagnostics that shows nothing of the buffer.
    pub fn debug_text(&self) -> (text: String)
        ensures
            text@ == "TransmitDatagram(<redacted>)"@,
    {
        fixed("TransmitDatagram(<redacted>)")
    }
}

/// Stable tag retained until the kernel releases a zero-copy transmit buffer.
#[must_use]
#[derive(Clone, Copy, PartialEq, Eq, Structural)]
pub struct TransmitCompletionTag {
    queue: QueueIdentity,
    token: PoolToken,
}

impl TransmitCompletionTag {
    /// The queue that handed the buffer over.
    pub closed spec fn queue(&self) -> QueueIdentity {
        self.queue
    }

    /// The slot that the tag names.
    pub closed spec fn slot(&self) -> int {
        self.token.index as int
    }

    /// The generation that the tag names.
    pub closed spec fn generation(&self) -> u32 {
        self.token.generation
    }

    /// Returns a text for diagnostics that shows nothing of the buffer.
    pub fn debug_text(&self) -> (text: String)
        ensures
            text@ == "TransmitCompletionTag(<redacted>)"@,
    {
        fixed("TransmitCompletionTag(<redacted>)")
    }
}

/// Borrowed outgoing bytes and routing metadata.
pub struct TransmitDatagramView<'a, M: BufferMetadata = TransmitMetadata> {
    payload: &'a [u8],
    metadata: M,
}

impl<'a, M: BufferMetadata> TransmitDatagramView<'a, M> {
    /// The outgoing bytes.
    pub closed spec fn bytes(&self) -> Seq<u8> {
        self.payload@
    }

    /// The routing metadata.
    pub closed spec fn routing(&self) -> M {
        self.metadata
    }

    /// Returns the exact bytes to submit to the socket adapter.
    pub fn payload(&self) -> (payload: &'a [u8])
        ensures
            payload@ == self.bytes(),
    {
        self.payload
    }

    /// Returns the routing and ancillary metadata for this submission.
    pub fn metadata(&self) -> (metadata: M)
        ensures
            metadata == self.routing(),
    {
        self.metadata
    }

    /// Returns a text for diagnostics that shows neither the bytes nor the metadata.
    pub fn debug_text(&self) -> (text: String)
        ensures
            text@ == "TransmitDatagramView { payload: <redacted, "@ + decimal(self.bytes().len())
                + " bytes>, metadata: \"<redacted>\" }"@,
    {
        with_number(
            "TransmitDatagramView { payload: <redacted, ",
            self.payload.len() as u64,
            " bytes>, metadata: \"<redacted>\" }",
        )
    }
}

/// Separate fixed transmit arena with retry and kernel-completion ownership.
pub struct TransmitQueue<
    const SLOTS: usize,
    const BUFFER_SIZE: usize,
    M: BufferMetadata = TransmitMetadata,
> {
    pool: DatagramPool<M, SLOTS, BUFFER_SIZE>,
}

impl<const SLOTS: usize, const BUFFER_SIZE: usize> TransmitQueue<SLOTS, BUFFER_SIZE> {
    /// Creates a queue with every slot free and zeroed.
    pub fn new() -> (queue: TransmitQueue<SLOTS, BUFFER_SIZE>)
        ensures
            queue.well_formed(),
            queue.contents() == PoolView::<TransmitMetadata>::unused(
                queue.contents().identity,
                SLOTS as nat,
                BUFFER_SIZE as nat,
            ),
    {
        TransmitQueue::unused()
    }
}

impl<const SLOTS: usize, const BUFFER_SIZE: usize, M: BufferMetadata> TransmitQueue<
    SLOTS,
    BUFFER_SIZE,
    M,
> {
    /// The buffers of the queue.
    pub closed spec fn contents(&self) -> PoolView<M> {
        self.pool@
    }

    /// Whether the arena's own bookkeeping is sound.
    pub closed spec fn has_sound_arena(&self) -> bool {
        self.pool.has_sound_queues()
    }

    /// What every queue keeps.
    pub open spec fn well_formed(&self) -> bool {
        &&& self.contents().well_formed(BUFFER_SIZE as nat)
        &&& self.contents().slots.len() == SLOTS
        &&& self.has_sound_arena()
    }

    /// Creates a queue for any kind of metadata with every slot free and zeroed.
    pub fn unused() -> (queue: TransmitQueue<SLOTS, BUFFER_SIZE, M>)
        ensures
            queue.well_formed(),
            queue.contents() == PoolView::<M>::unused(
                queue.contents().identity,
                SLOTS as nat,
                BUFFER_SIZE as nat,
            ),
    {
        TransmitQueue { pool: DatagramPool::new() }
    }

    /// Reserves one stable outgoing buffer.
    ///
    /// # Errors
    ///
    /// Returns pool exhaustion or generation exhaustion.
    pub fn reserve(&mut self) -> (reserved: Result<TransmitReservation, RuntimeQueueError>)
        requires
            old(self).well_formed(),
        ensures
            final(self).well_formed(),
            match old(self).contents().reserve_failure() {
                Some(error) => {
                    &&& reserved == Err::<TransmitReservation, RuntimeQueueError>(error)
                    &&& final(self).contents() == old(self).contents().not_reserved()
                },
                None => {
                    &&& reserved matches Ok(reservation)
                    &&& reservation.slot() == old(self).contents().next_reserved()
                    &&& final(self).contents() == old(self).contents().reserved()
                    &&& final(self).contents().owns(
                        reservation.slot(),
                        reservation.generation(),
                        SlotState::Reserved,
                    )
                },
            },
    {
        match self.pool.reserve() {
            Ok(token) => Ok(TransmitReservation { token }),
            Err(error) => Err(error),
        }
    }

    /// Returns the complete stable buffer for packet encoding and protection.
    ///
    /// # Errors
    ///
    /// Returns `InvalidOwnership` for a stale or wrong-state reservation.
    pub fn buffer_mut(&mut self, reservation: &TransmitReservation) -> (buffer: Result<
        &mut [u8; BUFFER_SIZE],
        RuntimeQueueError,
    >)
        requires
            old(self).well_formed(),
        ensures
            final(self).well_formed(),
            match buffer {
                Ok(buffer) => {
                    &&& old(self).contents().owns(
                        reservation.slot(),
                        reservation.generation(),
                        SlotState::Reserved,
                    )
                    &&& buffer@ == old(self).contents().slots[reservation.slot()].bytes
                    &&& final(self).contents() == old(self).contents().written(
                        reservation.slot(),
                        final(buffer)@,
                    )
                },
                Err(error) => {
                    &&& !old(self).contents().owns(
                        reservation.slot(),
                        reservation.generation(),
                        SlotState::Reserved,
                    )
                    &&& error == RuntimeQueueError::InvalidOwnership
                    &&& final(self).contents() == old(self).contents()
                },
            },
    {
        self.pool.buffer_mut(reservation.token)
    }

    /// Commits an encoded datagram or GSO batch to the transmit queue.
    ///
    /// Invalid length or GSO metadata releases and clears the reservation.
    ///
    /// # Errors
    ///
    /// Returns an ownership, empty-datagram, length, segment, or internal invariant error.
    pub fn commit(&mut self, reservation: TransmitReservation, length: usize, metadata: M) -> (
        outcome: Result<(), RuntimeQueueError>)
        requires
            old(self).well_formed(),
        ensures
            final(self).well_formed(),
            if !old(self).contents().owns(
                reservation.slot(),
                reservation.generation(),
                SlotState::Reserved,
            ) {
                &&& outcome == Err::<(), RuntimeQueueError>(RuntimeQueueError::InvalidOwnership)
                &&& final(self).contents() == old(self).contents()
            } else {
                match datagram_shape_failure(
                    length as nat,
                    metadata.segments(),
                    BUFFER_SIZE as nat,
                ) {
                    Some(error) => {
                        &&& outcome == Err::<(), RuntimeQueueError>(error)
                        &&& final(self).contents() == old(self).contents().released(
                            reservation.slot(),
                            BUFFER_SIZE as nat,
                        )
                    },
                    None => {
                        &&& outcome == Ok::<(), RuntimeQueueError>(())
                        &&& final(self).contents() == old(self).contents().committed(
                            reservation.slot(),
                            length as nat,
                            metadata,
                        )
                    },
                }
            },
    {
        let segment_size = metadata.segment_size();
        self.pool.commit(reservation.token, length, metadata, segment_size)
    }

    /// Cancels and clears an outstanding transmit reservation.
    ///
    /// # Errors
    ///
    /// Returns `InvalidOwnership` for a stale or wrong-state reservation.
    pub fn cancel(&mut self, reservation: TransmitReservation) -> (outcome: Result<
        (),
        RuntimeQueueError,
    >)
        requires
            old(self).well_formed(),
        ensures
            final(self).well_formed(),
            if old(self).contents().owns(
                reservation.slot(),
                reservation.generation(),
                SlotState::Reserved,
            ) {
                &&& outcome == Ok::<(), RuntimeQueueError>(())
                &&& final(self).contents() == old(self).contents().released(
                    reservation.slot(),
                    BUFFER_SIZE as nat,
                )
            } else {
                &&& outcome == Err::<(), RuntimeQueueError>(RuntimeQueueError::InvalidOwnership)
                &&& final(self).contents() == old(self).contents()
            },
    {
        self.pool.cancel(reservation.token)
    }

    /// Pops the next buffer ready for a send operation.
    pub fn pop(&mut self) -> (popped: Option<TransmitDatagram>)
        requires
            old(self).well_formed(),
        ensures
            final(self).well_formed(),
            match popped {
                Some(datagram) => {
                    &&& old(self).contents().ready.len() > 0
                    &&& datagram.slot() == old(self).contents().ready[0]
                    &&& final(self).contents() == old(self).contents().popped()
                    &&& final(self).contents().owns(
                        datagram.slot(),
                        datagram.generation(),
                        SlotState::Held,
                    )
                },
                None => {
                    &&& old(self).contents().ready.len() == 0
                    &&& final(self).contents() == old(self).contents()
                },
            },
    {
        match self.pool.pop() {
            Some(token) => Some(TransmitDatagram { token }),
            None => None,
        }
    }

    /// Borrows the exact outgoing bytes and routing metadata.
    ///
    /// # Errors
    ///
    /// Returns `InvalidOwnership` for a stale or wrong-state token.
    pub fn view(&self, datagram: &TransmitDatagram) -> (view: Result<
        TransmitDatagramView<'_, M>,
        RuntimeQueueError,
    >)
        requires
            self.well_formed(),
        ensures
            match view {
                Ok(view) => {
                    let slot = self.contents().slots[datagram.slot()];
                    &&& self.contents().owns(
                        datagram.slot(),
                        datagram.generation(),
                        SlotState::Held,
                    )
                    &&& view.bytes() == slot.bytes.take(slot.length as int)
                    &&& view.bytes().len() > 0
                    &&& slot.metadata == Some(view.routing())
                },
                Err(error) => {
                    &&& !self.contents().owns(
                        datagram.slot(),
                        datagram.generation(),
                        SlotState::Held,
                    )
                    &&& error == RuntimeQueueError::InvalidOwnership
                },
            },
    {
        match self.pool.held(datagram.token) {
            Ok((payload, metadata)) => Ok(TransmitDatagramView { payload, metadata }),
            Err(error) => Err(error),
        }
    }

    /// Releases a synchronously submitted datagram and clears its used bytes.
    ///
    /// # Errors
    ///
    /// Returns `InvalidOwnership` for a stale or wrong-state token.
    pub fn complete(&mut self, datagram: TransmitDatagram) -> (outcome: Result<(), RuntimeQueueError>)
        requires
            old(self).well_formed(),
        ensures
            final(self).well_formed(),
            if old(self).contents().owns(datagram.slot(), datagram.generation(), SlotState::Held) {
                &&& outcome == Ok::<(), RuntimeQueueError>(())
                &&& final(self).contents() == old(self).contents().released(
                    datagram.slot(),
                    old(self).contents().slots[datagram.slot()].length,
                )
            } else {
                &&& outcome == Err::<(), RuntimeQueueError>(RuntimeQueueError::InvalidOwnership)
                &&& final(self).contents() == old(self).contents()
            },
    {
        self.pool.release(datagram.token, SlotState::Held)
    }

    /// Releases a datagram that will not be submitted and clears its used bytes.
    ///
    /// # Errors
    ///
    /// Returns `InvalidOwnership` for a stale or wrong-state token.
    pub fn discard(&mut self, datagram: TransmitDatagram) -> (outcome: Result<(), RuntimeQueueError>)
        requires
            old(self).well_formed(),
        ensures
            final(self).well_formed(),
            if old(self).contents().owns(datagram.slot(), datagram.generation(), SlotState::Held) {
                &&& outcome == Ok::<(), RuntimeQueueError>(())
                &&& final(self).contents() == old(self).contents().released(
                    datagram.slot(),
                    old(self).contents().slots[datagram.slot()].length,
                )
            } else {
                &&& outcome == Err::<(), RuntimeQueueError>(RuntimeQueueError::InvalidOwnership)
                &&& final(self).contents() == old(self).contents()
            },
    {
        self.pool.release(datagram.token, SlotState::Held)
    }

    /// Requeues a datagram after transient socket backpressure.
    ///
    /// # Errors
    ///
    /// Returns `InvalidOwnership` or an internal queue invariant failure.
    pub fn requeue(&mut self, datagram: TransmitDatagram) -> (outcome: Result<
        (),
        RuntimeQueueError,
    >)
        requires
            old(self).well_formed(),
        ensures
            final(self).well_formed(),
            if old(self).contents().owns(datagram.slot(), datagram.generation(), SlotState::Held) {
                &&& outcome == Ok::<(), RuntimeQueueError>(())
                &&& final(self).contents() == old(self).contents().requeued(datagram.slot())
            } else {
                &&& outcome == Err::<(), RuntimeQueueError>(RuntimeQueueError::InvalidOwnership)
                &&& final(self).contents() == old(self).contents()
            },
    {
        self.pool.requeue(datagram.token)
    }

    /// Transfers ownership to a kernel zero-copy operation.
    ///
    /// The returned tag, not successful syscall submission, releases the buffer when its matching
    /// kernel completion arrives.
    ///
    /// # Errors
    ///
    /// Returns `InvalidOwnership` for a stale or wrong-state token.
    pub fn defer_completion(&mut self, datagram: TransmitDatagram) -> (deferred: Result<
        TransmitCompletionTag,
        RuntimeQueueError,
    >)
        requires
            old(self).well_formed(),
        ensures
            final(self).well_formed(),
            if old(self).contents().owns(datagram.slot(), datagram.generation(), SlotState::Held) {
                &&& deferred matches Ok(tag)
                &&& tag.queue() == old(self).contents().identity
                &&& tag.slot() == datagram.slot()
                &&& tag.generation() == datagram.generation()
                &&& final(self).contents() == old(self).contents().moved(
                    datagram.slot(),
                    SlotState::KernelOwned,
                )
            } else {
                &&& deferred == Err::<TransmitCompletionTag, RuntimeQueueError>(
                    RuntimeQueueError::InvalidOwnership,
                )
                &&& final(self).contents() == old(self).contents()
            },
    {
        match self.pool.defer(datagram.token) {
            Ok(()) => Ok(
                TransmitCompletionTag { queue: self.pool.identity(), token: datagram.token },
            ),
            Err(error) => Err(error),
        }
    }

    /// Releases a buffer after its exact kernel completion tag arrives.
    ///
    /// # Errors
    ///
    /// Returns `InvalidOwnership` for a duplicate, stale, or foreign tag.
    pub fn complete_deferred(&mut self, tag: TransmitCompletionTag) -> (outcome: Result<
        (),
        RuntimeQueueError,
    >)
        requires
            old(self).well_formed(),
        ensures
            final(self).well_formed(),
            if tag.queue() == old(self).contents().identity && old(self).contents().owns(
                tag.slot(),
                tag.generation(),
                SlotState::KernelOwned,
            ) {
                &&& outcome == Ok::<(), RuntimeQueueError>(())
                &&& final(self).contents() == old(self).contents().released(
                    tag.slot(),
                    old(self).contents().slots[tag.slot()].length,
                )
            } else {
                &&& outcome == Err::<(), RuntimeQueueError>(RuntimeQueueError::InvalidOwnership)
                &&& final(self).contents() == old(self).contents()
            },
    {
        if tag.queue != self.pool.identity() {
            return Err(RuntimeQueueError::InvalidOwnership);
        }
        self.pool.release(tag.token, SlotState::KernelOwned)
    }

    /// Returns current fixed-resource counters.
    pub fn stats(&self) -> (stats: BufferQueueStats)
        requires
            self.well_formed(),
        ensures
            stats.capacity == SLOTS,
            stats.free == self.contents().free.len(),
            stats.ready == self.contents().ready.len(),
            stats.reserved_or_delivered == count_in(self.contents().slots, SlotState::Reserved)
                + count_in(self.contents().slots, SlotState::Held),
            stats.kernel_owned == count_in(self.contents().slots, SlotState::KernelOwned),
    {
        proof {
            crate::runtime::pool::lemma_every_buffer_has_one_owner(self.contents().slots);
        }
        BufferQueueStats {
            capacity: SLOTS,
            free: self.pool.free_len(),
            ready: self.pool.ready_len(),
            reserved_or_delivered: self.pool.count(SlotState::Reserved) + self.pool.count(
                SlotState::Held,
            ),
            kernel_owned: self.pool.count(SlotState::KernelOwned),
        }
    }

    /// Returns a text for diagnostics that shows the counters and no buffer.
    pub fn debug_text(&self) -> (text: String)
        requires
            self.well_formed(),
        ensures
            exists|stats: BufferQueueStats|
                text@ == "TransmitQueue { stats: "@ + #[trigger] stats.text()
                    + ", buffers: \"<redacted>\" }"@ && stats.capacity == SLOTS && stats.free
                    == self.contents().free.len() && stats.ready == self.contents().ready.len()
                    && stats.reserved_or_delivered == count_in(
                    self.contents().slots,
                    SlotState::Reserved,
                ) + count_in(self.contents().slots, SlotState::Held) && stats.kernel_owned
                    == count_in(self.contents().slots, SlotState::KernelOwned),
    {
        let stats = self.stats();
        let text: String = fixed("TransmitQueue { stats: ").concat(
            stats.debug_text().as_str(),
        ).concat(", buffers: \"<redacted>\" }");
        assert(text@ == "TransmitQueue { stats: "@ + stats.text()
            + ", buffers: \"<redacted>\" }"@);
        text
    }
}

impl<const SLOTS: usize, const BUFFER_SIZE: usize> Default for TransmitQueue<SLOTS, BUFFER_SIZE> {
    fn default() -> (queue: TransmitQueue<SLOTS, BUFFER_SIZE>)
        ensures
            queue.well_formed(),
            queue.contents() == PoolView::<TransmitMetadata>::unused(
                queue.contents().identity,
                SLOTS as nat,
                BUFFER_SIZE as nat,
            ),
    {
        TransmitQueue::new()
    }
}

} // verus!
