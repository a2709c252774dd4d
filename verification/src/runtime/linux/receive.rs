//! Decisions of one batched receive.

use vstd::prelude::*;

use crate::ecn::EcnCodepoint;
use crate::runtime::linux::{
    ecn_from_bits, LinuxReceiveBatchOutcome, LinuxUdpError, LinuxUdpProfile,
};
use crate::runtime::pool::{
    datagram_shape_failure, lemma_next_reserved_is_free, PoolView, SlotState,
};
use crate::runtime::socket::{endpoints_equal, ScopedEndpoint, SocketReceiveMetadata};
use crate::runtime::{
    IpAddress, NonZeroU16, ReceiveQueue, ReceiveReservation, RuntimeQueueError,
};

verus! {

/// One ancillary message of a received datagram.
#[derive(Clone, Copy, Debug, PartialEq, Eq)]
#[allow(inconsistent_fields)]
pub enum ReceivedControl {
    Ipv4PacketInfo { address: [u8; 4], interface_index: i32 },
    Ipv6PacketInfo { address: [u8; 16], interface_index: u32 },
    /// The IPv4 type of service.
    Ipv4Tos(u8),
    /// The low eight bits of the IPv6 traffic class.
    Ipv6TrafficClass(u8),
    Timestamp { seconds: i64, nanoseconds: i64 },
    DropCount(u32),
    GroSegmentSize(i32),
    Other,
}

/// What the kernel reported of one received datagram.
pub struct ReceivedMessage {
    pub bytes: usize,
    /// Whether the payload or the ancillary data was cut off.
    pub truncated: bool,
    pub source: Option<ScopedEndpoint>,
    /// The ancillary messages, unless they could not be read.
    pub controls: Option<Vec<ReceivedControl>>,
}

/// What judging a received datagram depends on.
#[derive(Clone, Copy)]
pub struct ReceiveContext {
    pub socket_id: u16,
    pub local_endpoint: ScopedEndpoint,
    pub exact_local_endpoint: bool,
    pub maximum_datagram_size: usize,
    pub buffer_size: usize,
    pub now_micros: u64,
}

/// What is to become of one buffer of a batch.
#[derive(Clone, Copy)]
pub enum ReceiveRecord {
    Unused,
    Dropped,
    Accepted { length: usize, metadata: SocketReceiveMetadata },
}

/// Ancillary data gathered from the messages of one datagram.
#[derive(Clone, Copy)]
pub struct AncillaryData {
    pub destination: Option<ScopedEndpoint>,
    pub interface_index: Option<u32>,
    pub ecn: Option<EcnCodepoint>,
    pub kernel_timestamp_unix_nanos: Option<u64>,
    pub socket_drop_count: Option<u32>,
    pub gro_segment_size: Option<NonZeroU16>,
    /// Whether two messages contradicted each other, or one made no sense.
    pub conflict: bool,
}

/// A slot after a value has been merged into it: the first value stays.
pub open spec fn merged<T>(slot: Option<T>, value: T) -> Option<T> {
    match slot {
        Some(existing) => Some(existing),
        None => Some(value),
    }
}

/// Whether a slot already holds another value.
pub open spec fn contradicts<T>(slot: Option<T>, value: T) -> bool {
    slot is Some && slot->0 != value
}

/// Nanoseconds since the epoch, unless the timestamp lies before it or is out of range.
pub open spec fn unix_nanos(seconds: i64, nanoseconds: i64) -> Option<u64> {
    if seconds < 0 || nanoseconds < 0 || nanoseconds >= 1_000_000_000 {
        None
    } else if seconds * 1_000_000_000 + nanoseconds > u64::MAX {
        None
    } else {
        Some((seconds * 1_000_000_000 + nanoseconds) as u64)
    }
}

/// Returns the nanoseconds since the epoch of a timestamp.
pub fn timestamp_to_unix_nanos(seconds: i64, nanoseconds: i64) -> (nanos: Option<u64>)
    ensures
        nanos == unix_nanos(seconds, nanoseconds),
{
    if seconds < 0 || nanoseconds < 0 || nanoseconds >= 1_000_000_000 {
        return None;
    }
    match (seconds as u64).checked_mul(1_000_000_000) {
        Some(whole) => whole.checked_add(nanoseconds as u64),
        None => None,
    }
}

/// The codepoint in the low two bits of a traffic class.
pub open spec fn codepoint_of(value: u8) -> EcnCodepoint {
    if value % 4 == 0 {
        EcnCodepoint::NotEct
    } else if value % 4 == 1 {
        EcnCodepoint::Ect1
    } else if value % 4 == 2 {
        EcnCodepoint::Ect0
    } else {
        EcnCodepoint::Ce
    }
}

impl AncillaryData {
    /// Nothing gathered.
    pub open spec fn nothing() -> AncillaryData {
        AncillaryData {
            destination: None,
            interface_index: None,
            ecn: None,
            kernel_timestamp_unix_nanos: None,
            socket_drop_count: None,
            gro_segment_size: None,
            conflict: false,
        }
    }

    /// The data after a contradiction.
    pub open spec fn refused(self) -> AncillaryData {
        AncillaryData { conflict: true, ..self }
    }

    /// The data with a destination and, where it is known, an interface.
    pub open spec fn with_packet_info(
        self,
        destination: ScopedEndpoint,
        interface_index: Option<u32>,
    ) -> AncillaryData {
        AncillaryData {
            destination: merged(self.destination, destination),
            interface_index: match interface_index {
                Some(index) => merged(self.interface_index, index),
                None => self.interface_index,
            },
            conflict: self.conflict || contradicts(self.destination, destination) || (
            interface_index is Some && contradicts(self.interface_index, interface_index->0)),
            ..self
        }
    }

    /// The data with a codepoint.
    pub open spec fn with_ecn(self, ecn: EcnCodepoint) -> AncillaryData {
        AncillaryData {
            ecn: merged(self.ecn, ecn),
            conflict: self.conflict || contradicts(self.ecn, ecn),
            ..self
        }
    }

    /// The data with a kernel timestamp.
    pub open spec fn with_timestamp(self, nanos: u64) -> AncillaryData {
        AncillaryData {
            kernel_timestamp_unix_nanos: merged(self.kernel_timestamp_unix_nanos, nanos),
            conflict: self.conflict || contradicts(self.kernel_timestamp_unix_nanos, nanos),
            ..self
        }
    }

    /// The data with a drop counter.
    pub open spec fn with_drop_count(self, count: u32) -> AncillaryData {
        AncillaryData {
            socket_drop_count: merged(self.socket_drop_count, count),
            conflict: self.conflict || contradicts(self.socket_drop_count, count),
            ..self
        }
    }

    /// Whether gathering a message gives other data.
    pub open spec fn becomes(
        self,
        control: ReceivedControl,
        local_port: u16,
        after: AncillaryData,
    ) -> bool {
        match control {
            ReceivedControl::Ipv4PacketInfo { address, interface_index } => after
                == self.with_packet_info(
                ScopedEndpoint { address: IpAddress::V4(address), port: local_port, scope_id: 0 },
                if interface_index > 0 {
                    Some(interface_index as u32)
                } else {
                    None
                },
            ),
            ReceivedControl::Ipv6PacketInfo { address, interface_index } => after
                == self.with_packet_info(
                ScopedEndpoint {
                    address: IpAddress::V6(address),
                    port: local_port,
                    scope_id: interface_index,
                },
                if interface_index != 0 {
                    Some(interface_index)
                } else {
                    None
                },
            ),
            ReceivedControl::Ipv4Tos(value) => after == self.with_ecn(codepoint_of(value)),
            ReceivedControl::Ipv6TrafficClass(value) => after == self.with_ecn(
                codepoint_of(value),
            ),
            ReceivedControl::Timestamp { seconds, nanoseconds } => after == match unix_nanos(
                seconds,
                nanoseconds,
            ) {
                Some(nanos) => self.with_timestamp(nanos),
                None => self.refused(),
            },
            ReceivedControl::DropCount(count) => after == self.with_drop_count(count),
            ReceivedControl::GroSegmentSize(size) => if 0 < size <= u16::MAX {
                &&& after.gro_segment_size is Some
                &&& self.gro_segment_size is None ==> after.gro_segment_size->0.number() == size
                &&& self.gro_segment_size is Some ==> after.gro_segment_size
                    == self.gro_segment_size
                &&& after == (AncillaryData {
                    gro_segment_size: after.gro_segment_size,
                    conflict: self.conflict || (self.gro_segment_size is Some
                        && self.gro_segment_size->0.number() != size),
                    ..self
                })
            } else {
                after == self.refused()
            },
            ReceivedControl::Other => after == self,
        }
    }

    /// Adds one ancillary message.
    pub fn apply_control_message(&mut self, control: &ReceivedControl, local_port: u16)
        ensures
            old(self).becomes(*control, local_port, *final(self)),
    {
        match *control {
            ReceivedControl::Ipv4PacketInfo { address, interface_index } => {
                let destination = ScopedEndpoint {
                    address: IpAddress::V4(address),
                    port: local_port,
                    scope_id: 0,
                };
                let interface: Option<u32> = if interface_index > 0 {
                    Some(interface_index as u32)
                } else {
                    None
                };
                self.merge_packet_info(destination, interface);
            },
            ReceivedControl::Ipv6PacketInfo { address, interface_index } => {
                let destination = ScopedEndpoint {
                    address: IpAddress::V6(address),
                    port: local_port,
                    scope_id: interface_index,
                };
                let interface: Option<u32> = if interface_index != 0 {
                    Some(interface_index)
                } else {
                    None
                };
                self.merge_packet_info(destination, interface);
            },
            ReceivedControl::Ipv4Tos(value) => {
                self.merge_ecn(ecn_from_bits(value));
            },
            ReceivedControl::Ipv6TrafficClass(value) => {
                self.merge_ecn(ecn_from_bits(value));
            },
            ReceivedControl::Timestamp { seconds, nanoseconds } => {
                match timestamp_to_unix_nanos(seconds, nanoseconds) {
                    Some(nanos) => {
                        match self.kernel_timestamp_unix_nanos {
                            Some(existing) => {
                                if existing != nanos {
                                    self.conflict = true;
                                }
                            },
                            None => {
                                self.kernel_timestamp_unix_nanos = Some(nanos);
                            },
                        }
                    },
                    None => {
                        self.conflict = true;
                    },
                }
            },
            ReceivedControl::DropCount(count) => {
                match self.socket_drop_count {
                    Some(existing) => {
                        if existing != count {
                            self.conflict = true;
                        }
                    },
                    None => {
                        self.socket_drop_count = Some(count);
                    },
                }
            },
            ReceivedControl::GroSegmentSize(size) => {
                if size < 0 || size > u16::MAX as i32 {
                    self.conflict = true;
                    return;
                }
                match NonZeroU16::new(size as u16) {
                    Some(size) => {
                        match self.gro_segment_size {
                            Some(existing) => {
                                if existing.get() != size.get() {
                                    self.conflict = true;
                                }
                            },
                            None => {
                                self.gro_segment_size = Some(size);
                            },
                        }
                    },
                    None => {
                        self.conflict = true;
                    },
                }
            },
            ReceivedControl::Other => {},
        }
    }

    fn merge_packet_info(&mut self, destination: ScopedEndpoint, interface: Option<u32>)
        ensures
            *final(self) == old(self).with_packet_info(destination, interface),
    {
        match self.destination {
            Some(existing) => {
                if !endpoints_equal(&existing, &destination) {
                    self.conflict = true;
                }
            },
            None => {
                self.destination = Some(destination);
            },
        }
        match interface {
            Some(index) => {
                match self.interface_index {
                    Some(existing) => {
                        if existing != index {
                            self.conflict = true;
                        }
                    },
                    None => {
                        self.interface_index = Some(index);
                    },
                }
            },
            None => {},
        }
    }

    fn merge_ecn(&mut self, ecn: EcnCodepoint)
        ensures
            *final(self) == old(self).with_ecn(ecn),
    {
        match self.ecn {
            Some(existing) => {
                if existing != ecn {
                    self.conflict = true;
                }
            },
            None => {
                self.ecn = Some(ecn);
            },
        }
    }
}

impl Default for AncillaryData {
    fn default() -> (data: AncillaryData)
        ensures
            data == AncillaryData::nothing(),
    {
        AncillaryData {
            destination: None,
            interface_index: None,
            ecn: None,
            kernel_timestamp_unix_nanos: None,
            socket_drop_count: None,
            gro_segment_size: None,
            conflict: false,
        }
    }
}

/// Whether gathering messages in order gives data.
pub open spec fn gathers(controls: Seq<ReceivedControl>, local_port: u16, data: AncillaryData) -> bool
    decreases controls.len(),
{
    if controls.len() == 0 {
        data == AncillaryData::nothing()
    } else {
        exists|before: AncillaryData|
            gathers(controls.drop_last(), local_port, before) && #[trigger] before.becomes(
                controls.last(),
                local_port,
                data,
            )
    }
}

/// Whether a datagram is to be dropped whatever its ancillary data says.
pub open spec fn is_unusable(message: ReceivedMessage, context: ReceiveContext) -> bool {
    ||| message.bytes == 0
    ||| message.bytes > context.buffer_size
    ||| message.truncated
    ||| message.source is None
    ||| message.controls is None
}

/// Whether a datagram is to be dropped for its ancillary data or its size.
pub open spec fn is_refused(bytes: usize, data: AncillaryData, context: ReceiveContext) -> bool {
    let segment_size = match data.gro_segment_size {
        Some(size) => size.number() as int,
        None => bytes as int,
    };
    ||| data.conflict
    ||| segment_size > context.maximum_datagram_size
    ||| segment_size > bytes
}

/// The metadata of an accepted datagram.
pub open spec fn accepted_metadata(
    source: ScopedEndpoint,
    data: AncillaryData,
    context: ReceiveContext,
) -> SocketReceiveMetadata {
    SocketReceiveMetadata {
        source,
        destination: if data.destination is Some {
            data.destination
        } else if context.exact_local_endpoint {
            Some(context.local_endpoint)
        } else {
            None
        },
        socket_id: context.socket_id,
        interface_index: data.interface_index,
        ecn: data.ecn,
        received_at_micros: context.now_micros,
        kernel_timestamp_unix_nanos: data.kernel_timestamp_unix_nanos,
        socket_drop_count: data.socket_drop_count,
        gro_segment_size: data.gro_segment_size,
    }
}

/// Judges one received datagram.
pub fn parse_receive_message(message: &ReceivedMessage, context: ReceiveContext) -> (record:
    ReceiveRecord)
    ensures
        if is_unusable(*message, context) {
            record is Dropped
        } else {
            exists|data: AncillaryData| #[trigger]
                gathers(message.controls->0@, context.local_endpoint.port, data) && (if is_refused(
                    message.bytes,
                    data,
                    context,
                ) {
                    record is Dropped
                } else {
                    record == ReceiveRecord::Accepted {
                        length: message.bytes,
                        metadata: accepted_metadata(message.source->0, data, context),
                    }
                })
        },
{
    if message.bytes == 0 || message.bytes > context.buffer_size || message.truncated {
        return ReceiveRecord::Dropped;
    }
    let source = match message.source {
        Some(source) => source,
        None => {
            return ReceiveRecord::Dropped;
        },
    };
    let controls: &Vec<ReceivedControl> = match &message.controls {
        Some(controls) => controls,
        None => {
            return ReceiveRecord::Dropped;
        },
    };
    let mut data = AncillaryData::default();
    let mut i: usize = 0;
    let port: u16 = context.local_endpoint.port;
    assert(controls@.take(0) =~= Seq::<ReceivedControl>::empty());
    while i < controls.len()
        invariant
            i <= controls@.len(),
            gathers(controls@.take(i as int), port, data),
        decreases controls@.len() - i,
    {
        let ghost before = data;
        let ghost next = controls@.take(i + 1);
        data.apply_control_message(&controls[i], port);
        proof {
            assert(next.drop_last() =~= controls@.take(i as int));
            assert(next.last() == controls@[i as int]);
            assert(before.becomes(next.last(), port, data));
        }
        i = i + 1;
    }
    assert(controls@.take(controls@.len() as int) =~= controls@);
    assert(gathers(message.controls->0@, context.local_endpoint.port, data));
    let segment_size: usize = match data.gro_segment_size {
        Some(size) => size.get() as usize,
        None => message.bytes,
    };
    if data.conflict || segment_size > context.maximum_datagram_size || segment_size
        > message.bytes {
        return ReceiveRecord::Dropped;
    }
    let destination: Option<ScopedEndpoint> = match data.destination {
        Some(destination) => Some(destination),
        None => if context.exact_local_endpoint {
            Some(context.local_endpoint)
        } else {
            None
        },
    };
    ReceiveRecord::Accepted {
        length: message.bytes,
        metadata: SocketReceiveMetadata {
            source,
            destination,
            socket_id: context.socket_id,
            interface_index: data.interface_index,
            ecn: data.ecn,
            received_at_micros: context.now_micros,
            kernel_timestamp_unix_nanos: data.kernel_timestamp_unix_nanos,
            socket_drop_count: data.socket_drop_count,
            gro_segment_size: data.gro_segment_size,
        },
    }
}

/// A contradiction is never forgotten: once ancillary messages conflict, the datagram is dropped
/// whatever follows.
pub proof fn lemma_conflicts_stand(
    before: AncillaryData,
    control: ReceivedControl,
    local_port: u16,
    after: AncillaryData,
    bytes: usize,
    context: ReceiveContext,
)
    requires
        before.conflict,
        before.becomes(control, local_port, after),
    ensures
        after.conflict,
        is_refused(bytes, after, context),
{
}

/// The pool after one buffer of a batch has been settled.
pub open spec fn settled(
    pool: PoolView<SocketReceiveMetadata>,
    slot: int,
    generation: u32,
    record: ReceiveRecord,
    buffer_size: nat,
) -> PoolView<SocketReceiveMetadata> {
    if !pool.owns(slot, generation, SlotState::Reserved) {
        pool
    } else {
        match record {
            ReceiveRecord::Accepted { length, metadata } => if datagram_shape_failure(
                length as nat,
                metadata.gro_segment_size,
                buffer_size,
            ) is Some {
                pool.released(slot, buffer_size)
            } else {
                pool.committed(slot, length as nat, metadata)
            },
            ReceiveRecord::Dropped => pool.released(slot, buffer_size),
            ReceiveRecord::Unused => pool.released(slot, 0),
        }
    }
}

/// The failure of settling one buffer of a batch, if any.
pub open spec fn settle_failure(
    pool: PoolView<SocketReceiveMetadata>,
    slot: int,
    generation: u32,
    record: ReceiveRecord,
    buffer_size: nat,
) -> Option<RuntimeQueueError> {
    if !pool.owns(slot, generation, SlotState::Reserved) {
        Some(RuntimeQueueError::InvalidOwnership)
    } else {
        match record {
            ReceiveRecord::Accepted { length, metadata } => datagram_shape_failure(
                length as nat,
                metadata.gro_segment_size,
                buffer_size,
            ),
            _ => None,
        }
    }
}

/// The pool after the first buffers of a batch have been settled.
pub open spec fn settled_all(
    pool: PoolView<SocketReceiveMetadata>,
    reservations: Seq<ReceiveReservation>,
    records: Seq<ReceiveRecord>,
    buffer_size: nat,
    count: nat,
) -> PoolView<SocketReceiveMetadata>
    decreases count,
{
    if count == 0 {
        pool
    } else {
        let last = count - 1;
        settled(
            settled_all(pool, reservations, records, buffer_size, last as nat),
            reservations[last].slot(),
            reservations[last].generation(),
            records[last],
            buffer_size,
        )
    }
}

/// The first failure of settling the first buffers of a batch, if any.
pub open spec fn first_settle_failure(
    pool: PoolView<SocketReceiveMetadata>,
    reservations: Seq<ReceiveReservation>,
    records: Seq<ReceiveRecord>,
    buffer_size: nat,
    count: nat,
) -> Option<RuntimeQueueError>
    decreases count,
{
    if count == 0 {
        None
    } else {
        let last = count - 1;
        let earlier = first_settle_failure(pool, reservations, records, buffer_size, last as nat);
        if earlier is Some {
            earlier
        } else {
            settle_failure(
                settled_all(pool, reservations, records, buffer_size, last as nat),
                reservations[last].slot(),
                reservations[last].generation(),
                records[last],
                buffer_size,
            )
        }
    }
}

/// Number of accepted datagrams.
pub open spec fn accepted_count(records: Seq<ReceiveRecord>) -> nat
    decreases records.len(),
{
    if records.len() == 0 {
        0
    } else {
        accepted_count(records.drop_last()) + if records.last() is Accepted {
            1nat
        } else {
            0nat
        }
    }
}

/// Number of bytes of accepted datagrams.
pub open spec fn accepted_bytes(records: Seq<ReceiveRecord>) -> nat
    decreases records.len(),
{
    if records.len() == 0 {
        0
    } else {
        accepted_bytes(records.drop_last()) + match records.last() {
            ReceiveRecord::Accepted { length, .. } => length as nat,
            _ => 0nat,
        }
    }
}

/// Number of dropped datagrams.
pub open spec fn dropped_count(records: Seq<ReceiveRecord>) -> nat
    decreases records.len(),
{
    if records.len() == 0 {
        0
    } else {
        dropped_count(records.drop_last()) + if records.last() is Dropped {
            1nat
        } else {
            0nat
        }
    }
}

proof fn lemma_bytes_grow(records: Seq<ReceiveRecord>, count: int)
    requires
        0 <= count <= records.len(),
    ensures
        accepted_bytes(records.take(count)) <= accepted_bytes(records),
    decreases records.len() - count,
{
    if count < records.len() {
        let next = records.take(count + 1);
        assert(next.drop_last() =~= records.take(count));
        lemma_bytes_grow(records, count + 1);
    } else {
        assert(records.take(count) =~= records);
    }
}

/// Settles every buffer of a batch that the kernel has answered: accepted datagrams are committed
/// in kernel order, dropped ones are erased, and untouched buffers are given back.
///
/// # Errors
///
/// Returns the first queue failure, after every buffer has been settled.
pub fn resolve_received_batch<const SLOTS: usize, const BUFFER_SIZE: usize, I>(
    queue: &mut ReceiveQueue<SLOTS, BUFFER_SIZE, SocketReceiveMetadata>,
    reservations: Vec<ReceiveReservation>,
    records: &[ReceiveRecord],
) -> (outcome: Result<LinuxReceiveBatchOutcome, LinuxUdpError<I>>)
    requires
        old(queue).well_formed(),
        reservations@.len() == records@.len(),
        accepted_bytes(records@) <= usize::MAX,
    ensures
        final(queue).well_formed(),
        final(queue).contents() == settled_all(
            old(queue).contents(),
            reservations@,
            records@,
            BUFFER_SIZE as nat,
            records@.len(),
        ),
        outcome == match first_settle_failure(
            old(queue).contents(),
            reservations@,
            records@,
            BUFFER_SIZE as nat,
            records@.len(),
        ) {
            Some(error) => Err::<LinuxReceiveBatchOutcome, LinuxUdpError<I>>(
                LinuxUdpError::Queue(error),
            ),
            None => Ok(
                LinuxReceiveBatchOutcome::Received {
                    committed_datagrams: accepted_count(records@) as usize,
                    committed_bytes: accepted_bytes(records@) as usize,
                    dropped_datagrams: dropped_count(records@) as usize,
                },
            ),
        },
{
    let mut committed_datagrams: usize = 0;
    let mut committed_bytes: usize = 0;
    let mut dropped_datagrams: usize = 0;
    let mut first_error: Option<RuntimeQueueError> = None;
    let mut waiting: Vec<ReceiveReservation> = reservations;
    let ghost all = reservations@;
    let mut position: usize = 0;
    assert(waiting@ =~= all.skip(0));
    assert(records@.take(0) =~= Seq::<ReceiveRecord>::empty());
    while position < records.len()
        invariant
            position <= records@.len(),
            all.len() == records@.len(),
            waiting@ == all.skip(position as int),
            queue.well_formed(),
            accepted_bytes(records@) <= usize::MAX,
            committed_datagrams <= position,
            dropped_datagrams <= position,
            committed_datagrams == accepted_count(records@.take(position as int)),
            committed_bytes == accepted_bytes(records@.take(position as int)),
            dropped_datagrams == dropped_count(records@.take(position as int)),
            queue.contents() == settled_all(
                old(queue).contents(),
                all,
                records@,
                BUFFER_SIZE as nat,
                position as nat,
            ),
            first_error == first_settle_failure(
                old(queue).contents(),
                all,
                records@,
                BUFFER_SIZE as nat,
                position as nat,
            ),
        decreases records@.len() - position,
    {
        let reservation: ReceiveReservation = waiting.remove(0);
        proof {
            assert(reservation == all[position as int]);
            assert(waiting@ =~= all.skip(position + 1));
            let next = records@.take(position + 1);
            assert(next.drop_last() =~= records@.take(position as int));
            assert(next.last() == records@[position as int]);
            lemma_bytes_grow(records@, position + 1);
        }
        let result: Result<(), RuntimeQueueError> = match records[position] {
            ReceiveRecord::Accepted { length, metadata } => {
                committed_datagrams = committed_datagrams + 1;
                committed_bytes = committed_bytes + length;
                queue.commit(reservation, length, metadata)
            },
            ReceiveRecord::Dropped => {
                dropped_datagrams = dropped_datagrams + 1;
                queue.cancel(reservation)
            },
            ReceiveRecord::Unused => queue.release_unwritten_receive_reservation(reservation),
        };
        if first_error.is_none() {
            match result {
                Ok(()) => {},
                Err(error) => {
                    first_error = Some(error);
                },
            }
        }
        position = position + 1;
    }
    assert(records@.take(records@.len() as int) =~= records@);
    match first_error {
        Some(error) => Err(LinuxUdpError::Queue(error)),
        None => Ok(
            LinuxReceiveBatchOutcome::Received {
                committed_datagrams,
                committed_bytes,
                dropped_datagrams,
            },
        ),
    }
}

/// How a batched receive failed.
pub enum ReceiveFailure<I> {
    WouldBlock,
    Failed(I),
}

/// The record of every buffer after a failed receive: buffers may have been written to unless the
/// socket had nothing to deliver.
pub open spec fn failure_record<I>(failure: ReceiveFailure<I>) -> ReceiveRecord {
    if failure is WouldBlock {
        ReceiveRecord::Unused
    } else {
        ReceiveRecord::Dropped
    }
}

/// Settles every buffer of a batch whose receive failed.
///
/// # Errors
///
/// Returns the first queue failure, or the socket's own failure.
pub fn resolve_failed_receive<const SLOTS: usize, const BUFFER_SIZE: usize, I>(
    queue: &mut ReceiveQueue<SLOTS, BUFFER_SIZE, SocketReceiveMetadata>,
    reservations: Vec<ReceiveReservation>,
    failure: ReceiveFailure<I>,
) -> (outcome: Result<LinuxReceiveBatchOutcome, LinuxUdpError<I>>)
    requires
        old(queue).well_formed(),
    ensures
        final(queue).well_formed(),
        ({
            let records = Seq::new(reservations@.len(), |i: int| failure_record(failure));
            &&& final(queue).contents() == settled_all(
                old(queue).contents(),
                reservations@,
                records,
                BUFFER_SIZE as nat,
                records.len(),
            )
            &&& outcome == match first_settle_failure(
                old(queue).contents(),
                reservations@,
                records,
                BUFFER_SIZE as nat,
                records.len(),
            ) {
                Some(error) => Err::<LinuxReceiveBatchOutcome, LinuxUdpError<I>>(
                    LinuxUdpError::Queue(error),
                ),
                None => match failure {
                    ReceiveFailure::WouldBlock => Ok(LinuxReceiveBatchOutcome::WouldBlock),
                    ReceiveFailure::Failed(error) => Err(LinuxUdpError::Io(error)),
                },
            }
        }),
{
    let would_block: bool = match &failure {
        ReceiveFailure::WouldBlock => true,
        ReceiveFailure::Failed(_) => false,
    };
    let ghost all = reservations@;
    let ghost records = Seq::new(all.len(), |i: int| failure_record(failure));
    let mut first_error: Option<RuntimeQueueError> = None;
    let mut waiting: Vec<ReceiveReservation> = reservations;
    let total: usize = waiting.len();
    let mut position: usize = 0;
    assert(waiting@ =~= all.skip(0));
    while position < total
        invariant
            position <= total,
            total == all.len(),
            records == Seq::new(all.len(), |i: int| failure_record(failure)),
            would_block == (failure is WouldBlock),
            waiting@ == all.skip(position as int),
            queue.well_formed(),
            queue.contents() == settled_all(
                old(queue).contents(),
                all,
                records,
                BUFFER_SIZE as nat,
                position as nat,
            ),
            first_error == first_settle_failure(
                old(queue).contents(),
                all,
                records,
                BUFFER_SIZE as nat,
                position as nat,
            ),
        decreases total - position,
    {
        let reservation: ReceiveReservation = waiting.remove(0);
        assert(reservation == all[position as int]);
        assert(waiting@ =~= all.skip(position + 1));
        assert(records[position as int] == failure_record(failure));
        let result: Result<(), RuntimeQueueError> = if would_block {
            queue.release_unwritten_receive_reservation(reservation)
        } else {
            queue.cancel(reservation)
        };
        if first_error.is_none() {
            match result {
                Ok(()) => {},
                Err(error) => {
                    first_error = Some(error);
                },
            }
        }
        position = position + 1;
    }
    match first_error {
        Some(error) => Err(LinuxUdpError::Queue(error)),
        None => match failure {
            ReceiveFailure::WouldBlock => Ok(LinuxReceiveBatchOutcome::WouldBlock),
            ReceiveFailure::Failed(error) => Err(LinuxUdpError::Io(error)),
        },
    }
}

/// What one batched receive asks for next.
pub enum LinuxReceiveStep {
    /// The attempt is over.
    Done(LinuxReceiveBatchOutcome),
    /// Receive one datagram into each reserved buffer.
    Receive { reservations: Vec<ReceiveReservation> },
}

/// The pool after buffers have been reserved one after the other.
pub open spec fn reserved_times(
    pool: PoolView<SocketReceiveMetadata>,
    count: nat,
) -> PoolView<SocketReceiveMetadata>
    decreases count,
{
    if count == 0 {
        pool
    } else {
        reserved_times(pool, (count - 1) as nat).reserved()
    }
}

/// Number of buffers that can be reserved one after the other, up to a limit.
pub open spec fn reservable(pool: PoolView<SocketReceiveMetadata>, limit: nat) -> nat
    decreases limit,
{
    if limit == 0 {
        0
    } else {
        let fewer = reservable(pool, (limit - 1) as nat);
        if fewer == limit - 1 && reserved_times(pool, fewer).reserve_failure() is None {
            limit
        } else {
            fewer
        }
    }
}

/// The pool after the first of several reserved buffers have been given back.
pub open spec fn given_back(
    pool: PoolView<SocketReceiveMetadata>,
    reserved: PoolView<SocketReceiveMetadata>,
    count: nat,
) -> PoolView<SocketReceiveMetadata>
    decreases count,
{
    if count == 0 {
        reserved
    } else {
        let last = (count - 1) as nat;
        given_back(pool, reserved, last).released(reserved_times(pool, last).next_reserved(), 0)
    }
}

proof fn lemma_reservable(pool: PoolView<SocketReceiveMetadata>, limit: nat)
    ensures
        reservable(pool, limit) <= limit,
        forall|k: nat|
            k < reservable(pool, limit) ==> (#[trigger] reserved_times(
                pool,
                k,
            )).reserve_failure() is None,
        reservable(pool, limit) < limit ==> reserved_times(
            pool,
            reservable(pool, limit),
        ).reserve_failure() is Some,
    decreases limit,
{
    if limit > 0 {
        lemma_reservable(pool, (limit - 1) as nat);
    }
}

proof fn lemma_reservable_is(pool: PoolView<SocketReceiveMetadata>, limit: nat, count: nat)
    requires
        count <= limit,
        forall|k: nat|
            k < count ==> (#[trigger] reserved_times(pool, k)).reserve_failure() is None,
        count < limit ==> reserved_times(pool, count).reserve_failure() is Some,
    ensures
        reservable(pool, limit) == count,
{
    lemma_reservable(pool, limit);
    let found = reservable(pool, limit);
    if found < count {
        assert(reserved_times(pool, found).reserve_failure() is None);
    }
    if count < found {
        assert(reserved_times(pool, count).reserve_failure() is None);
    }
}

impl LinuxUdpProfile {
    /// Starts a receive of up to `batch` datagrams directly into fixed queue buffers.
    ///
    /// # Errors
    ///
    /// Returns queue or buffer-configuration errors. On every result but a request to receive, no
    /// buffer stays reserved.
    pub fn begin_receive_batch<const SLOTS: usize, const BUFFER_SIZE: usize, I>(
        &self,
        queue: &mut ReceiveQueue<SLOTS, BUFFER_SIZE, SocketReceiveMetadata>,
        batch: usize,
    ) -> (step: Result<LinuxReceiveStep, LinuxUdpError<I>>)
        requires
            old(queue).well_formed(),
        ensures
            final(queue).well_formed(),
            ({
                let before = old(queue).contents();
                let after = final(queue).contents();
                if batch == 0 {
                    &&& step matches Ok(LinuxReceiveStep::Done(LinuxReceiveBatchOutcome::Idle))
                    &&& after == before
                } else if BUFFER_SIZE < self.maximum_datagram_size {
                    &&& step == Err::<LinuxReceiveStep, LinuxUdpError<I>>(
                        LinuxUdpError::ReceiveBufferTooSmall {
                            capacity: BUFFER_SIZE,
                            required: self.maximum_datagram_size,
                        },
                    )
                    &&& after == before
                } else {
                    let got = reservable(before, batch as nat);
                    if got == batch {
                        &&& step matches Ok(LinuxReceiveStep::Receive { reservations })
                        &&& reservations@.len() == batch
                        &&& after == reserved_times(before, batch as nat)
                        &&& forall|i: int|
                            0 <= i < batch ==> (#[trigger] reservations@[i]).slot()
                                == reserved_times(before, i as nat).next_reserved() && after.owns(
                                reservations@[i].slot(),
                                reservations@[i].generation(),
                                SlotState::Reserved,
                            )
                    } else {
                        let failed = reserved_times(before, got);
                        &&& after == given_back(before, failed.not_reserved(), got)
                        &&& match failed.reserve_failure() {
                            Some(RuntimeQueueError::PoolExhausted) => step matches Ok(
                                LinuxReceiveStep::Done(LinuxReceiveBatchOutcome::PoolExhausted),
                            ),
                            Some(error) => step == Err::<LinuxReceiveStep, LinuxUdpError<I>>(
                                LinuxUdpError::Queue(error),
                            ),
                            None => false,
                        }
                    }
                }
            }),
    {
        if batch == 0 {
            return Ok(LinuxReceiveStep::Done(LinuxReceiveBatchOutcome::Idle));
        }
        if BUFFER_SIZE < self.maximum_datagram_size {
            return Err(
                LinuxUdpError::ReceiveBufferTooSmall {
                    capacity: BUFFER_SIZE,
                    required: self.maximum_datagram_size,
                },
            );
        }
        let ghost before = queue.contents();
        let mut reservations: Vec<ReceiveReservation> = Vec::new();
        while reservations.len() < batch
            invariant
                reservations@.len() <= batch,
                before == old(queue).contents(),
                batch > 0,
                BUFFER_SIZE >= self.maximum_datagram_size,
                queue.well_formed(),
                queue.contents() == reserved_times(before, reservations@.len()),
                forall|k: nat|
                    k < reservations@.len() ==> (#[trigger] reserved_times(
                        before,
                        k,
                    )).reserve_failure() is None,
                forall|i: int|
                    0 <= i < reservations@.len() ==> (#[trigger] reservations@[i]).slot()
                        == reserved_times(before, i as nat).next_reserved()
                        && queue.contents().owns(
                        reservations@[i].slot(),
                        reservations@[i].generation(),
                        SlotState::Reserved,
                    ),
                forall|i: int, j: int|
                    0 <= i < j < reservations@.len() ==> (#[trigger] reservations@[i]).slot() != (
                    #[trigger] reservations@[j]).slot(),
            decreases batch - reservations@.len(),
        {
            let ghost pool = queue.contents();
            let ghost got = reservations@.len();
            match queue.reserve() {
                Ok(reservation) => {
                    proof {
                        lemma_next_reserved_is_free(pool);
                    }
                    reservations.push(reservation);
                },
                Err(error) => {
                    proof {
                        lemma_reservable_is(before, batch as nat, got);
                    }
                    self.return_reservations(
                        queue,
                        reservations,
                        Ghost(before),
                        Ghost(queue.contents()),
                    );
                    return match error {
                        RuntimeQueueError::PoolExhausted => Ok(
                            LinuxReceiveStep::Done(LinuxReceiveBatchOutcome::PoolExhausted),
                        ),
                        other => Err(LinuxUdpError::Queue(other)),
                    };
                },
            }
        }
        proof {
            lemma_reservable_is(before, batch as nat, batch as nat);
        }
        Ok(LinuxReceiveStep::Receive { reservations })
    }

    fn return_reservations<const SLOTS: usize, const BUFFER_SIZE: usize>(
        &self,
        queue: &mut ReceiveQueue<SLOTS, BUFFER_SIZE, SocketReceiveMetadata>,
        reservations: Vec<ReceiveReservation>,
        before: Ghost<PoolView<SocketReceiveMetadata>>,
        reserved: Ghost<PoolView<SocketReceiveMetadata>>,
    )
        requires
            old(queue).well_formed(),
            old(queue).contents() == reserved@,
            forall|i: int|
                0 <= i < reservations@.len() ==> (#[trigger] reservations@[i]).slot()
                    == reserved_times(before@, i as nat).next_reserved() && reserved@.owns(
                    reservations@[i].slot(),
                    reservations@[i].generation(),
                    SlotState::Reserved,
                ),
            forall|i: int, j: int|
                0 <= i < j < reservations@.len() ==> (#[trigger] reservations@[i]).slot() != (
                #[trigger] reservations@[j]).slot(),
        ensures
            final(queue).well_formed(),
            final(queue).contents() == given_back(before@, reserved@, reservations@.len()),
    {
        let ghost all = reservations@;
        let mut waiting: Vec<ReceiveReservation> = reservations;
        let total: usize = waiting.len();
        let mut position: usize = 0;
        assert(waiting@ =~= all.skip(0));
        while position < total
            invariant
                position <= total,
                total == all.len(),
                waiting@ == all.skip(position as int),
                queue.well_formed(),
                queue.contents() == given_back(before@, reserved@, position as nat),
                queue.contents().slots.len() == reserved@.slots.len(),
                forall|i: int|
                    0 <= i < all.len() ==> (#[trigger] all[i]).slot() == reserved_times(
                        before@,
                        i as nat,
                    ).next_reserved(),
                forall|i: int|
                    position <= i < all.len() ==> queue.contents().owns(
                        (#[trigger] all[i]).slot(),
                        all[i].generation(),
                        SlotState::Reserved,
                    ),
                forall|i: int, j: int|
                    0 <= i < j < all.len() ==> (#[trigger] all[i]).slot() != (
                    #[trigger] all[j]).slot(),
            decreases total - position,
        {
            let reservation: ReceiveReservation = waiting.remove(0);
            assert(reservation == all[position as int]);
            assert(waiting@ =~= all.skip(position + 1));
            let _ = queue.release_unwritten_receive_reservation(reservation);
            position = position + 1;
        }
    }
}

} // verus!
