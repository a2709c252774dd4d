//! Fixed receive arena and completion-order queue.

use vstd::prelude::*;
use vstd::string::*;

use crate::bytes::part;
use crate::runtime::pool::{
    count_in, datagram_shape_failure, DatagramPool, PoolToken, PoolView, SlotState,
};
use crate::runtime::{BufferMetadata, BufferQueueStats, ReceiveMetadata, RuntimeQueueError};
use crate::text::{decimal, fixed, with_number};

verus! {

/// Receive-buffer reservation owned by a socket adapter.
#[must_use]
pub struct ReceiveReservation {
    token: PoolToken,
}

impl ReceiveReservation {
    /// The name of the reserved buffer.
    pub closed spec fn name(&self) -> PoolToken {
        self.token
    }

    /// The slot that the reservation names.
    pub open spec fn slot(&self) -> int {
        self.name().index as int
    }

    /// The generation that the reservation names.
    pub open spec fn generation(&self) -> u32 {
        self.name().generation
    }

    /// Returns a text for diagnostics that shows nothing of the buffer.
    pub fn debug_text(&self) -> (text: String)
        ensures
            text@ == "ReceiveReservation(<redacted>)"@,
    {
        fixed("ReceiveReservation(<redacted>)")
    }
}

/// The names of the buffers of several reservations.
pub open spec fn names_of(reservations: Seq<ReceiveReservation>) -> Seq<PoolToken> {
    Seq::new(reservations.len(), |i: int| reservations[i].name())
}

/// Completed receive-buffer ownership returned to the event loop.
#[must_use]
pub struct ReceivedDatagram {
    token: PoolToken,
}

impl ReceivedDatagram {
    /// The slot that the datagram lies in.
    pub closed spec fn slot(&self) -> int {
        self.token.index as int
    }

    /// The generation of the datagram.
    pub closed spec fn generation(&self) -> u32 {
        self.token.generation
    }

    /// Returns a text for diagnostics that shows nothing of the buffer.
    pub fn debug_text(&self) -> (text: String)
        ensures
            text@ == "ReceivedDatagram(<redacted>)"@,
    {
        fixed("ReceivedDatagram(<redacted>)")
    }
}

/// Borrowed untrusted datagram and kernel-supplied metadata.
pub struct ReceivedDatagramView<'a, M: BufferMetadata = ReceiveMetadata> {
    payload: &'a [u8],
    metadata: M,
}

/// The parts of a payload that is cut into segments of one size; the last one may be shorter.
pub open spec fn segments_of(payload: Seq<u8>, segment_size: nat) -> Seq<Seq<u8>>
    decreases payload.len(),
{
    if payload.len() == 0 || segment_size == 0 {
        Seq::empty()
    } else if payload.len() <= segment_size {
        seq![payload]
    } else {
        seq![payload.take(segment_size as int)] + segments_of(
            payload.skip(segment_size as int),
            segment_size,
        )
    }
}

/// Segments put together again are the payload.
pub proof fn lemma_segments_partition_the_payload(payload: Seq<u8>, segment_size: nat)
    requires
        segment_size > 0,
    ensures
        segments_of(payload, segment_size).flatten() == payload,
    decreases payload.len(),
{
    let segments = segments_of(payload, segment_size);
    if payload.len() == 0 {
        assert(segments.flatten() =~= payload);
    } else if payload.len() <= segment_size {
        assert(segments.drop_first() =~= Seq::<Seq<u8>>::empty());
        assert(segments.drop_first().flatten() =~= Seq::<u8>::empty());
        assert(segments.flatten() =~= payload);
    } else {
        let rest = payload.skip(segment_size as int);
        lemma_segments_partition_the_payload(rest, segment_size);
        assert(segments.drop_first() =~= segments_of(rest, segment_size));
        assert(segments.first() == payload.take(segment_size as int));
        assert(segments.flatten() =~= payload.take(segment_size as int) + rest);
        assert(payload.take(segment_size as int) + rest =~= payload);
    }
}

impl<'a, M: BufferMetadata> ReceivedDatagramView<'a, M> {
    #[verifier::type_invariant]
    closed spec fn has_payload(self) -> bool {
        self.payload@.len() > 0
    }

    /// The received bytes.
    pub closed spec fn bytes(&self) -> Seq<u8> {
        self.payload@
    }

    /// The ancillary metadata.
    pub closed spec fn ancillary(&self) -> M {
        self.metadata
    }

    /// The size of a segment: the whole payload unless datagrams were coalesced.
    pub open spec fn segment_size(&self) -> nat {
        match self.ancillary().segments() {
            Some(size) => size.number() as nat,
            None => self.bytes().len(),
        }
    }

    /// Returns the exact bytes received from the socket adapter.
    pub fn payload(&self) -> (payload: &'a [u8])
        ensures
            payload@ == self.bytes(),
    {
        self.payload
    }

    /// Returns the ancillary metadata captured with the buffer.
    pub fn metadata(&self) -> (metadata: M)
        ensures
            metadata == self.ancillary(),
    {
        self.metadata
    }

    /// Cuts one datagram or the individual datagrams coalesced by UDP GRO.
    pub fn segments(&self) -> (segments: DatagramSegments<'a>)
        ensures
            segments.remaining() == segments_of(self.bytes(), self.segment_size()),
    {
        proof {
            use_type_invariant(self);
        }
        let segment_size: usize = match self.metadata.segment_size() {
            Some(size) => size.get() as usize,
            None => self.payload.len(),
        };
        let segments = DatagramSegments { payload: self.payload, segment_size, offset: 0 };
        assert(segments.rest() =~= self.payload@);
        segments
    }

    /// Returns a text for diagnostics that shows neither the bytes nor the metadata.
    pub fn debug_text(&self) -> (text: String)
        ensures
            text@ == "ReceivedDatagramView { payload: <redacted, "@ + decimal(self.bytes().len())
                + " bytes>, metadata: \"<redacted>\" }"@,
    {
        with_number(
            "ReceivedDatagramView { payload: <redacted, ",
            self.payload.len() as u64,
            " bytes>, metadata: \"<redacted>\" }",
        )
    }
}

/// Walk over one ordinary datagram or one UDP GRO buffer.
pub struct DatagramSegments<'a> {
    payload: &'a [u8],
    segment_size: usize,
    offset: usize,
}

impl<'a> DatagramSegments<'a> {
    #[verifier::type_invariant]
    closed spec fn advances(self) -> bool {
        &&& self.segment_size > 0
        &&& self.offset <= self.payload@.len()
    }

    spec fn rest(self) -> Seq<u8> {
        self.payload@.skip(self.offset as int)
    }

    /// The segments that are still to come.
    pub closed spec fn remaining(&self) -> Seq<Seq<u8>> {
        segments_of(self.rest(), self.segment_size as nat)
    }

    /// Returns the next segment.
    pub fn next(&mut self) -> (segment: Option<&'a [u8]>)
        ensures
            match segment {
                Some(segment) => {
                    &&& old(self).remaining().len() > 0
                    &&& segment@ == old(self).remaining()[0]
                    &&& final(self).remaining() == old(self).remaining().skip(1)
                },
                None => {
                    &&& old(self).remaining().len() == 0
                    &&& *final(self) == *old(self)
                },
            },
    {
        proof {
            use_type_invariant(&*self);
        }
        if self.offset >= self.payload.len() {
            return None;
        }
        let left: usize = self.payload.len() - self.offset;
        let end: usize = if self.segment_size < left {
            self.offset + self.segment_size
        } else {
            self.payload.len()
        };
        let segment: &'a [u8] = part(self.payload, self.offset, end);
        let ghost before = self.rest();
        let ghost size = self.segment_size as nat;
        self.offset = end;
        proof {
            if size < left {
                assert(segment@ =~= before.take(size as int));
                assert(self.rest() =~= before.skip(size as int));
                assert(segments_of(before, size).skip(1) =~= segments_of(
                    before.skip(size as int),
                    size,
                ));
            } else {
                assert(segment@ =~= before);
                assert(self.rest().len() == 0);
                assert(segments_of(before, size).skip(1) =~= segments_of(self.rest(), size));
            }
        }
        Some(segment)
    }

    /// Returns the exact number of segments that are still to come, as both bounds.
    pub fn size_hint(&self) -> (bounds: (usize, Option<usize>))
        ensures
            bounds.0 == self.remaining().len(),
            bounds.1 == Some(bounds.0),
    {
        proof {
            use_type_invariant(self);
            lemma_segment_count(self.rest(), self.segment_size as nat);
        }
        let remaining: usize = self.payload.len() - self.offset;
        let whole: usize = remaining / self.segment_size;
        let count: usize = if remaining % self.segment_size == 0 {
            whole
        } else {
            proof {
                let left = remaining as int;
                let size = self.segment_size as int;
                vstd::arithmetic::div_mod::lemma_fundamental_div_mod(left, size);
                assert(left / size < left) by (nonlinear_arith)
                    requires
                        left > 0,
                        size > 0,
                        left % size != 0,
                ;
            }
            whole + 1
        };
        (count, Some(count))
    }

    /// Returns all segments that are still to come.
    pub fn to_vec(self) -> (segments: Vec<&'a [u8]>)
        ensures
            segments@.len() == self.remaining().len(),
            forall|i: int|
                0 <= i < segments@.len() ==> (#[trigger] segments@[i])@ == self.remaining()[i],
    {
        let ghost all = self.remaining();
        let mut walk = self;
        let mut segments: Vec<&'a [u8]> = Vec::new();
        let mut left: usize = walk.size_hint().0;
        while left > 0
            invariant
                segments@.len() + left == all.len(),
                walk.remaining() == all.skip(segments@.len() as int),
                forall|i: int| 0 <= i < segments@.len() ==> (#[trigger] segments@[i])@ == all[i],
            decreases left,
        {
            match walk.next() {
                Some(segment) => {
                    segments.push(segment);
                    assert(walk.remaining() =~= all.skip(segments@.len() as int));
                },
                None => {},
            }
            left = left - 1;
        }
        segments
    }
}

proof fn lemma_segment_count(payload: Seq<u8>, segment_size: nat)
    requires
        segment_size > 0,
    ensures
        segments_of(payload, segment_size).len() == payload.len() / segment_size + if payload.len()
            % segment_size == 0 {
            0nat
        } else {
            1nat
        },
    decreases payload.len(),
{
    let length = payload.len() as int;
    let size = segment_size as int;
    if payload.len() == 0 {
        assert(0int / size == 0 && 0int % size == 0) by (nonlinear_arith)
            requires
                size > 0,
        ;
    } else if payload.len() <= segment_size {
        if length == size {
            assert(length / size == 1 && length % size == 0) by (nonlinear_arith)
                requires
                    length == size,
                    size > 0,
            ;
        } else {
            assert(length / size == 0 && length % size == length) by (nonlinear_arith)
                requires
                    0 < length < size,
            ;
        }
    } else {
        let rest = payload.skip(size);
        lemma_segment_count(rest, segment_size);
        assert(length / size == (length - size) / size + 1 && length % size == (length - size)
            % size) by (nonlinear_arith)
            requires
                length > size > 0,
        ;
    }
}

/// Separate fixed receive arena and completion-order queue.
///
/// Construction allocates no heap storage. A caller may place the whole arena in a preallocated box
/// or connection-owner region during startup.
pub struct ReceiveQueue<
    const SLOTS: usize,
    const BUFFER_SIZE: usize,
    M: BufferMetadata = ReceiveMetadata,
> {
    pool: DatagramPool<M, SLOTS, BUFFER_SIZE>,
}

impl<const SLOTS: usize, const BUFFER_SIZE: usize> ReceiveQueue<SLOTS, BUFFER_SIZE> {
    /// Creates a queue with every slot free and zeroed.
    pub fn new() -> (queue: ReceiveQueue<SLOTS, BUFFER_SIZE>)
        ensures
            queue.well_formed(),
            queue.contents() == PoolView::<ReceiveMetadata>::unused(
                queue.contents().identity,
                SLOTS as nat,
                BUFFER_SIZE as nat,
            ),
    {
        ReceiveQueue::unused()
    }
}

impl<const SLOTS: usize, const BUFFER_SIZE: usize, M: BufferMetadata> ReceiveQueue<
    SLOTS,
    BUFFER_SIZE,
    M,
> {
    /// The buffers of the queue.
    pub closed spec fn contents(&self) -> PoolView<M> {
        self.pool@
    }

    /// Whether the arena's own bookkeeping is sound.
    pub closed spec fn has_sound_arena(&self) -> bool {
        self.pool.has_sound_queues()
    }

    /// What every queue keeps.
    pub open spec fn well_formed(&self) -> bool {
        &&& self.contents().well_formed(BUFFER_SIZE as nat)
        &&& self.contents().slots.len() == SLOTS
        &&& self.has_sound_arena()
    }

    /// Creates a queue for any kind of metadata with every slot free and zeroed.
    pub fn unused() -> (queue: ReceiveQueue<SLOTS, BUFFER_SIZE, M>)
        ensures
            queue.well_formed(),
            queue.contents() == PoolView::<M>::unused(
                queue.contents().identity,
                SLOTS as nat,
                BUFFER_SIZE as nat,
            ),
    {
        ReceiveQueue { pool: DatagramPool::new() }
    }

    /// Reserves one stable receive buffer for a socket operation.
    ///
    /// # Errors
    ///
    /// Returns pool exhaustion or generation exhaustion without modifying any occupied slot.
    pub fn reserve(&mut self) -> (reserved: Result<ReceiveReservation, RuntimeQueueError>)
        requires
            old(self).well_formed(),
        ensures
            final(self).well_formed(),
            match old(self).contents().reserve_failure() {
                Some(error) => {
                    &&& reserved == Err::<ReceiveReservation, RuntimeQueueError>(error)
                    &&& final(self).contents() == old(self).contents().not_reserved()
                },
                None => {
                    &&& reserved matches Ok(reservation)
                    &&& reservation.slot() == old(self).contents().next_reserved()
                    &&& final(self).contents() == old(self).contents().reserved()
                    &&& final(self).contents().owns(
                        reservation.slot(),
                        reservation.generation(),
                        SlotState::Reserved,
                    )
                },
            },
    {
        match self.pool.reserve() {
            Ok(token) => Ok(ReceiveReservation { token }),
            Err(error) => Err(error),
        }
    }

    /// Returns the complete stable buffer for one outstanding receive.
    ///
    /// # Errors
    ///
    /// Returns `InvalidOwnership` for a stale, released, or wrong-state token.
    pub fn buffer_mut(&mut self, reservation: &ReceiveReservation) -> (buffer: Result<
        &mut [u8; BUFFER_SIZE],
        RuntimeQueueError,
    >)
        requires
            old(self).well_formed(),
        ensures
            final(self).well_formed(),
            match buffer {
                Ok(buffer) => {
                    &&& old(self).contents().owns(
                        reservation.slot(),
                        reservation.generation(),
                        SlotState::Reserved,
                    )
                    &&& buffer@ == old(self).contents().slots[reservation.slot()].bytes
                    &&& final(self).contents() == old(self).contents().written(
                        reservation.slot(),
                        final(buffer)@,
                    )
                },
                Err(error) => {
                    &&& !old(self).contents().owns(
                        reservation.slot(),
                        reservation.generation(),
                        SlotState::Reserved,
                    )
                    &&& error == RuntimeQueueError::InvalidOwnership
                    &&& final(self).contents() == old(self).contents()
                },
            },
    {
        self.pool.buffer_mut(reservation.token)
    }

    /// Returns the complete stable buffers of several outstanding receives at once, in their order.
    ///
    /// # Errors
    ///
    /// Returns `InvalidOwnership` for a stale, released, or wrong-state token, and for two tokens
    /// of one buffer.
    pub fn batch_buffers_mut(&mut self, reservations: &[ReceiveReservation]) -> (buffers: Result<
        Vec<&mut [u8; BUFFER_SIZE]>,
        RuntimeQueueError,
    >)
        requires
            old(self).well_formed(),
        ensures
            final(self).well_formed(),
            ({
                let names = names_of(reservations@);
                let before = old(self).contents();
                match buffers {
                    Ok(buffers) => {
                        &&& before.owns_batch(names)
                        &&& buffers@.len() == reservations@.len()
                        &&& forall|i: int|
                            0 <= i < reservations@.len() ==> buffers@[i]@
                                == before.slots[(#[trigger] reservations@[i]).slot()].bytes
                        &&& before.has_written(
                            final(self).contents(),
                            names,
                            Seq::new(reservations@.len(), |i: int| final(buffers@[i])@),
                        )
                    },
                    Err(error) => {
                        &&& !before.owns_batch(names)
                        &&& error == RuntimeQueueError::InvalidOwnership
                        &&& final(self).contents() == before
                    },
                }
            }),
    {
        let mut tokens: Vec<PoolToken> = Vec::with_capacity(reservations.len());
        let mut i: usize = 0;
        while i < reservations.len()
            invariant
                i <= reservations@.len(),
                tokens@.len() == i,
                forall|k: int| 0 <= k < i ==> tokens@[k] == (#[trigger] reservations@[k]).name(),
            decreases reservations@.len() - i,
        {
            tokens.push(reservations[i].token);
            i = i + 1;
        }
        assert(tokens@ =~= names_of(reservations@));
        let buffers = self.pool.batch_buffers_mut(tokens.as_slice());
        proof {
            if buffers is Ok {
                assert forall|k: int| 0 <= k < reservations@.len() implies buffers->Ok_0@[k]@
                    == old(self).contents().slots[(#[trigger] reservations@[k]).slot()].bytes by {
                    assert(tokens@[k] == reservations@[k].name());
                }
            }
        }
        buffers
    }

    /// Commits the bytes and ancillary metadata produced by one receive.
    ///
    /// Invalid length or GRO metadata releases and clears the reservation.
    ///
    /// # Errors
    ///
    /// Returns an ownership, empty-datagram, length, segment, or internal invariant error.
    pub fn commit(&mut self, reservation: ReceiveReservation, length: usize, metadata: M) -> (
        outcome: Result<(), RuntimeQueueError>)
        requires
            old(self).well_formed(),
        ensures
            final(self).well_formed(),
            if !old(self).contents().owns(
                reservation.slot(),
                reservation.generation(),
                SlotState::Reserved,
            ) {
                &&& outcome == Err::<(), RuntimeQueueError>(RuntimeQueueError::InvalidOwnership)
                &&& final(self).contents() == old(self).contents()
            } else {
                match datagram_shape_failure(
                    length as nat,
                    metadata.segments(),
                    BUFFER_SIZE as nat,
                ) {
                    Some(error) => {
                        &&& outcome == Err::<(), RuntimeQueueError>(error)
                        &&& final(self).contents() == old(self).contents().released(
                            reservation.slot(),
                            BUFFER_SIZE as nat,
                        )
                    },
                    None => {
                        &&& outcome == Ok::<(), RuntimeQueueError>(())
                        &&& final(self).contents() == old(self).contents().committed(
                            reservation.slot(),
                            length as nat,
                            metadata,
                        )
                    },
                }
            },
    {
        let segment_size = metadata.segment_size();
        self.pool.commit(reservation.token, length, metadata, segment_size)
    }

    /// Cancels and clears an outstanding receive reservation.
    ///
    /// # Errors
    ///
    /// Returns `InvalidOwnership` for a stale or wrong-state reservation.
    pub fn cancel(&mut self, reservation: ReceiveReservation) -> (outcome: Result<
        (),
        RuntimeQueueError,
    >)
        requires
            old(self).well_formed(),
        ensures
            final(self).well_formed(),
            if old(self).contents().owns(
                reservation.slot(),
                reservation.generation(),
                SlotState::Reserved,
            ) {
                &&& outcome == Ok::<(), RuntimeQueueError>(())
                &&& final(self).contents() == old(self).contents().released(
                    reservation.slot(),
                    BUFFER_SIZE as nat,
                )
            } else {
                &&& outcome == Err::<(), RuntimeQueueError>(RuntimeQueueError::InvalidOwnership)
                &&& final(self).contents() == old(self).contents()
            },
    {
        self.pool.cancel(reservation.token)
    }

    /// Returns a reservation whose buffer was not written to.
    ///
    /// # Errors
    ///
    /// Returns `InvalidOwnership` for a stale or wrong-state reservation.
    pub fn release_unwritten_receive_reservation(&mut self, reservation: ReceiveReservation) -> (
        outcome: Result<(), RuntimeQueueError>)
        requires
            old(self).well_formed(),
        ensures
            final(self).well_formed(),
            if old(self).contents().owns(
                reservation.slot(),
                reservation.generation(),
                SlotState::Reserved,
            ) {
                &&& outcome == Ok::<(), RuntimeQueueError>(())
                &&& final(self).contents() == old(self).contents().released(reservation.slot(), 0)
            } else {
                &&& outcome == Err::<(), RuntimeQueueError>(RuntimeQueueError::InvalidOwnership)
                &&& final(self).contents() == old(self).contents()
            },
    {
        self.pool.give_back(reservation.token)
    }

    /// Pops the next completed buffer in receive-completion order.
    pub fn pop(&mut self) -> (popped: Option<ReceivedDatagram>)
        requires
            old(self).well_formed(),
        ensures
            final(self).well_formed(),
            match popped {
                Some(datagram) => {
                    &&& old(self).contents().ready.len() > 0
                    &&& datagram.slot() == old(self).contents().ready[0]
                    &&& final(self).contents() == old(self).contents().popped()
                    &&& final(self).contents().owns(
                        datagram.slot(),
                        datagram.generation(),
                        SlotState::Held,
                    )
                },
                None => {
                    &&& old(self).contents().ready.len() == 0
                    &&& final(self).contents() == old(self).contents()
                },
            },
    {
        match self.pool.pop() {
            Some(token) => Some(ReceivedDatagram { token }),
            None => None,
        }
    }

    /// Borrows the exact received bytes and metadata.
    ///
    /// # Errors
    ///
    /// Returns `InvalidOwnership` for a stale, released, or wrong-state token.
    pub fn view(&self, datagram: &ReceivedDatagram) -> (view: Result<
        ReceivedDatagramView<'_, M>,
        RuntimeQueueError,
    >)
        requires
            self.well_formed(),
        ensures
            match view {
                Ok(view) => {
                    let slot = self.contents().slots[datagram.slot()];
                    &&& self.contents().owns(
                        datagram.slot(),
                        datagram.generation(),
                        SlotState::Held,
                    )
                    &&& view.bytes() == slot.bytes.take(slot.length as int)
                    &&& slot.metadata == Some(view.ancillary())
                },
                Err(error) => {
                    &&& !self.contents().owns(
                        datagram.slot(),
                        datagram.generation(),
                        SlotState::Held,
                    )
                    &&& error == RuntimeQueueError::InvalidOwnership
                },
            },
    {
        match self.pool.held(datagram.token) {
            Ok((payload, metadata)) => Ok(ReceivedDatagramView { payload, metadata }),
            Err(error) => Err(error),
        }
    }

    /// Releases a delivered datagram and clears its used bytes.
    ///
    /// # Errors
    ///
    /// Returns `InvalidOwnership` for a stale or wrong-state token.
    pub fn release(&mut self, datagram: ReceivedDatagram) -> (outcome: Result<
        (),
        RuntimeQueueError,
    >)
        requires
            old(self).well_formed(),
        ensures
            final(self).well_formed(),
            if old(self).contents().owns(datagram.slot(), datagram.generation(), SlotState::Held) {
                &&& outcome == Ok::<(), RuntimeQueueError>(())
                &&& final(self).contents() == old(self).contents().released(
                    datagram.slot(),
                    old(self).contents().slots[datagram.slot()].length,
                )
            } else {
                &&& outcome == Err::<(), RuntimeQueueError>(RuntimeQueueError::InvalidOwnership)
                &&& final(self).contents() == old(self).contents()
            },
    {
        self.pool.release(datagram.token, SlotState::Held)
    }

    /// Returns current fixed-resource counters.
    pub fn stats(&self) -> (stats: BufferQueueStats)
        requires
            self.well_formed(),
        ensures
            stats.capacity == SLOTS,
            stats.free == self.contents().free.len(),
            stats.ready == self.contents().ready.len(),
            stats.reserved_or_delivered == count_in(self.contents().slots, SlotState::Reserved) + count_in(
                self.contents().slots,
                SlotState::Held,
            ),
            stats.kernel_owned == 0,
    {
        proof {
            crate::runtime::pool::lemma_every_buffer_has_one_owner(self.contents().slots);
        }
        BufferQueueStats {
            capacity: SLOTS,
            free: self.pool.free_len(),
            ready: self.pool.ready_len(),
            reserved_or_delivered: self.pool.count(SlotState::Reserved) + self.pool.count(
                SlotState::Held,
            ),
            kernel_owned: 0,
        }
    }

    /// Returns a text for diagnostics that shows the counters and no buffer.
    pub fn debug_text(&self) -> (text: String)
        requires
            self.well_formed(),
        ensures
            exists|stats: BufferQueueStats|
                text@ == "ReceiveQueue { stats: "@ + #[trigger] stats.text()
                    + ", buffers: \"<redacted>\" }"@ && stats.capacity == SLOTS && stats.free
                    == self.contents().free.len() && stats.ready == self.contents().ready.len()
                    && stats.reserved_or_delivered == count_in(self.contents().slots, SlotState::Reserved)
                    + count_in(self.contents().slots, SlotState::Held) && stats.kernel_owned == 0,
    {
        let stats = self.stats();
        let text: String = fixed("ReceiveQueue { stats: ").concat(
            stats.debug_text().as_str(),
        ).concat(", buffers: \"<redacted>\" }");
        assert(text@ == "ReceiveQueue { stats: "@ + stats.text() + ", buffers: \"<redacted>\" }"@);
        text
    }
}

impl<const SLOTS: usize, const BUFFER_SIZE: usize> Default for ReceiveQueue<SLOTS, BUFFER_SIZE> {
    fn default() -> (queue: ReceiveQueue<SLOTS, BUFFER_SIZE>)
        ensures
            queue.well_formed(),
            queue.contents() == PoolView::<ReceiveMetadata>::unused(
                queue.contents().identity,
                SLOTS as nat,
                BUFFER_SIZE as nat,
            ),
    {
        ReceiveQueue::new()
    }
}

} // verus!
