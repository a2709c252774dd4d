//! Laws of batched sends and receives.

use vstd::prelude::*;

use crate::laws::linux::{mark_bits, same_family};
use crate::laws::multipath::total;
use crate::laws::queues::is_in;
use crate::runtime::linux::control::IpVersion;
use crate::runtime::linux::receive::{
    accepted_bytes, accepted_count, dropped_count, first_settle_failure, reserved_times,
    resolve_failed_receive, resolve_received_batch, LinuxReceiveStep, ReceiveFailure,
    ReceiveRecord,
};
use crate::runtime::linux::transmit::{
    all_owned, earliest_future, finish_transmit_batch, lemma_pacing_is_honoured, popped_times,
    ready_items, resolve_transmit_datagrams, sent_bytes, settled_all, validate_destination_scope,
    validate_endpoint, validate_homogeneous_metadata, validate_transmit_shape, LinuxTransmitEvent,
    LinuxTransmitStep, PreparedTransmit, PreparedTransmitBatch, TransmitSubmission,
};
use crate::runtime::linux::{
    LinuxReceiveBatchOutcome, LinuxTransmitBatchOutcome, LinuxTransmitRejection, LinuxUdpError,
    LinuxUdpProfile,
};
use crate::runtime::pool::{PoolView, SlotState, SlotView};
use crate::runtime::socket::{
    ScopedEndpoint, SocketReceiveMetadata, SocketTransmitMetadata, UdpCapability,
};
use crate::runtime::{
    IpAddress, NonZeroU16, ReceiveQueue, ReceiveReservation, RuntimeQueueError, TransmitDatagram,
    TransmitQueue,
};

verus! {

/// Whether an endpoint can be sent to: it has a port, and a scope only if it is an IPv6 one.
pub open spec fn is_reachable(endpoint: ScopedEndpoint) -> bool {
    endpoint.port != 0 && (endpoint.address is V6 || endpoint.scope_id == 0)
}

/// Whether a datagram has a shape that can be sent: one no larger than the largest size, or one
/// that is cut into at most 64 segments of at most that size.
pub open spec fn has_sendable_shape(
    length: int,
    segment_size: Option<NonZeroU16>,
    maximum: int,
) -> bool {
    match segment_size {
        None => length <= maximum,
        Some(size) => size.number() <= maximum && size.number() <= length && length <= 64
            * size.number(),
    }
}

/// Whether a scoped IPv6 endpoint contradicts the interface that is asked for.
pub open spec fn contradicts_scope(endpoint: ScopedEndpoint, interface: Option<u32>) -> bool {
    &&& endpoint.address is V6
    &&& endpoint.scope_id != 0
    &&& interface is Some
    &&& interface->0 != endpoint.scope_id
}

/// Endpoints, shapes and scopes are refused exactly if they are not as described above.
pub proof fn lemma_endpoints_shapes_and_scopes_are_checked(
    endpoint: ScopedEndpoint,
    reachable: Result<(), LinuxTransmitRejection>,
    length: usize,
    segment_size: Option<NonZeroU16>,
    maximum: usize,
    shaped: Result<(), LinuxTransmitRejection>,
    interface: Option<u32>,
    scoped: Result<(), LinuxTransmitRejection>,
)
    requires
        call_ensures(validate_endpoint, (endpoint,), reachable),
        segment_size is Some ==> segment_size->0.number() > 0,
        call_ensures(validate_transmit_shape, (length, segment_size, maximum), shaped),
        call_ensures(validate_destination_scope, (endpoint, interface), scoped),
    ensures
        reachable is Ok <==> is_reachable(endpoint),
        reachable matches Err(rejection) ==> {
            &&& rejection is ZeroDestinationPort <==> endpoint.port == 0
            &&& rejection is InvalidIpv4Scope <==> endpoint.port != 0
        },
        shaped is Ok <==> has_sendable_shape(length as int, segment_size, maximum as int),
        shaped matches Err(rejection) ==> {
            &&& rejection is DatagramTooLarge <==> segment_size is None
            &&& rejection is TooManyGsoSegments ==> segment_size is Some && length > 64
                * segment_size->0.number()
            &&& rejection matches LinuxTransmitRejection::TooManyGsoSegments { segments, maximum }
                ==> maximum == 64 && (segments - 1) * segment_size->0.number() < length <= segments
                * segment_size->0.number()
        },
        scoped is Err <==> contradicts_scope(endpoint, interface),
        scoped matches Err(rejection) ==> rejection is InterfaceScopeConflict,
{
    if segment_size is Some {
        lemma_segments(length as int, segment_size->0.number() as int);
    }
}

proof fn lemma_segments(length: int, size: int)
    requires
        0 <= length,
        0 < size,
    ensures
        ({
            let segments = crate::arith::ceil_div(length, size);
            &&& segments >= 0
            &&& segments <= length
            &&& (segments - 1) * size < length <= segments * size
            &&& segments > 64 <==> length > 64 * size
        }),
{
    let whole = length / size;
    let segments = crate::arith::ceil_div(length, size);
    vstd::arithmetic::div_mod::lemma_fundamental_div_mod(length, size);
    vstd::arithmetic::div_mod::lemma_div_pos_is_pos(length, size);
    assert(size * whole == whole * size) by (nonlinear_arith);
    assert((whole - 1) * size == whole * size - size) by (nonlinear_arith);
    assert((whole + 1) * size == whole * size + size) by (nonlinear_arith);
    assert((segments - 1) * size < length <= segments * size);
    if segments > 64 {
        assert(64 * size <= (segments - 1) * size) by (nonlinear_arith)
            requires
                segments - 1 >= 64,
                size > 0,
        ;
    } else {
        assert(segments * size <= 64 * size) by (nonlinear_arith)
            requires
                segments <= 64,
                size > 0,
        ;
    }
    if segments >= 1 {
        assert(segments - 1 <= (segments - 1) * size) by (nonlinear_arith)
            requires
                segments >= 1,
                size >= 1,
        ;
    }
}

/// A datagram belongs to a batch of the socket exactly if it shares the source, the interface, the
/// mark and the segment size of the first one.
pub proof fn lemma_batch_mates_share_their_controls(
    metadata: SocketTransmitMetadata,
    first: SocketTransmitMetadata,
    socket_id: u16,
    outcome: Result<(), LinuxTransmitRejection>,
)
    requires
        call_ensures(validate_homogeneous_metadata, (metadata, first, socket_id), outcome),
    ensures
        outcome is Ok <==> {
            &&& metadata.socket_id == socket_id
            &&& metadata.source == first.source
            &&& metadata.interface_index == first.interface_index
            &&& metadata.ecn == first.ecn
            &&& metadata.gso_segment_size == first.gso_segment_size
        },
        outcome matches Err(rejection) ==> {
            &&& rejection is WrongSocket <==> metadata.socket_id != socket_id
            &&& rejection is HeterogeneousBatch <==> metadata.socket_id == socket_id
        },
{
}

/// The interface that a datagram asks for: the scope of its IPv6 source, or else the one that it
/// names.
pub open spec fn asked_interface(metadata: SocketTransmitMetadata) -> Option<u32> {
    if metadata.source is Some && metadata.source->0.address is V6 && metadata.source->0.scope_id
        != 0 {
        Some(metadata.source->0.scope_id)
    } else {
        metadata.interface_index
    }
}

/// Whether a source can be used: it has the socket's port, is of the family, contradicts no
/// interface, and can be selected if it is not the socket's own.
pub open spec fn is_usable_source(
    profile: LinuxUdpProfile,
    metadata: SocketTransmitMetadata,
    family: IpVersion,
) -> bool {
    let source = metadata.source->0;
    &&& metadata.source is Some ==> {
        &&& source.port == profile.local_endpoint.port
        &&& is_reachable(source)
        &&& same_family(source.address, family)
        &&& !contradicts_scope(source, metadata.interface_index)
        &&& source == profile.local_endpoint || profile.capabilities.has(
            UdpCapability::SourceSelection,
        )
    }
    &&& asked_interface(metadata) is Some ==> profile.capabilities.has(
        UdpCapability::TransmitInterface,
    )
}

/// The source is selected only where it is not the socket's own, and the interface as it is asked
/// for.
pub proof fn lemma_sources_are_selected_where_needed(
    profile: &LinuxUdpProfile,
    metadata: SocketTransmitMetadata,
    family: IpVersion,
    prepared: Result<(Option<IpAddress>, Option<u32>), LinuxTransmitRejection>,
)
    requires
        call_ensures(
            LinuxUdpProfile::prepare_source_control,
            (profile, metadata, family),
            prepared,
        ),
    ensures
        prepared is Ok <==> is_usable_source(*profile, metadata, family),
        prepared matches Ok((source, interface)) ==> {
            &&& source is Some <==> metadata.source is Some && metadata.source->0
                != profile.local_endpoint
            &&& source is Some ==> source->0 == metadata.source->0.address
            &&& interface == asked_interface(metadata)
        },
{
}

/// Whether a datagram can go with the first one of a batch: same socket, source, interface, mark
/// and segment size, a reachable destination of the same family whose scope does not contradict the
/// interface, and a shape that can be sent.
pub open spec fn goes_with(
    profile: LinuxUdpProfile,
    first: SocketTransmitMetadata,
    item: TransmitSubmission,
) -> bool {
    let metadata = item.metadata;
    &&& metadata.socket_id == profile.socket_id
    &&& metadata.source == first.source
    &&& metadata.interface_index == first.interface_index
    &&& metadata.ecn == first.ecn
    &&& metadata.gso_segment_size == first.gso_segment_size
    &&& is_reachable(metadata.destination)
    &&& metadata.destination.address is V4 <==> first.destination.address is V4
    &&& !contradicts_scope(metadata.destination, asked_interface(first))
    &&& has_sendable_shape(
        item.length as int,
        metadata.gso_segment_size,
        profile.maximum_datagram_size as int,
    )
}

/// Whether a profile can send a batch.
pub open spec fn can_send_batch(profile: LinuxUdpProfile, items: Seq<TransmitSubmission>) -> bool {
    let first = items[0].metadata;
    let family = if first.destination.address is V4 {
        IpVersion::V4
    } else {
        IpVersion::V6
    };
    &&& is_reachable(first.destination)
    &&& first.destination.address is V4 <==> profile.local_endpoint.address is V4
    &&& is_usable_source(profile, first, family)
    &&& first.ecn is NotEct || profile.capabilities.has(UdpCapability::TransmitEcn)
    &&& first.gso_segment_size is None || profile.capabilities.has(UdpCapability::UdpGso)
    &&& forall|i: int| 0 <= i < items.len() ==> goes_with(profile, first, #[trigger] items[i])
}

proof fn lemma_batch_is_judged(profile: LinuxUdpProfile, items: Seq<TransmitSubmission>)
    requires
        items.len() > 0,
        forall|i: int|
            0 <= i < items.len() && (#[trigger] items[i]).metadata.gso_segment_size is Some
                ==> items[i].metadata.gso_segment_size->0.number() > 0,
    ensures
        profile.batch_rejection(items) is None <==> can_send_batch(profile, items),
{
    lemma_items_are_judged(profile, items, items.len());
}

proof fn lemma_items_are_judged(
    profile: LinuxUdpProfile,
    items: Seq<TransmitSubmission>,
    count: nat,
)
    requires
        count <= items.len(),
        forall|i: int|
            0 <= i < items.len() && (#[trigger] items[i]).metadata.gso_segment_size is Some
                ==> items[i].metadata.gso_segment_size->0.number() > 0,
    ensures
        profile.items_rejection(items, count) is None <==> forall|i: int|
            0 <= i < count ==> goes_with(profile, items[0].metadata, #[trigger] items[i]),
    decreases count,
{
    if count > 0 {
        let last = count - 1;
        lemma_items_are_judged(profile, items, last as nat);
        let item = items[last];
        if item.metadata.gso_segment_size is Some {
            lemma_segments(
                item.length as int,
                item.metadata.gso_segment_size->0.number() as int,
            );
        }
        assert(profile.item_rejection(items[0].metadata, item) is None <==> goes_with(
            profile,
            items[0].metadata,
            item,
        ));
    }
}

/// Whether a prepared batch is what was asked for: every datagram's destination and length, and the
/// source, interface, mark and segment size that all share.
pub open spec fn is_prepared(
    profile: LinuxUdpProfile,
    items: Seq<TransmitSubmission>,
    batch: PreparedTransmitBatch,
) -> bool {
    let first = items[0].metadata;
    let control = batch.control;
    &&& batch.destinations@.len() == items.len()
    &&& batch.expected_lengths@.len() == items.len()
    &&& forall|i: int|
        0 <= i < items.len() ==> #[trigger] batch.destinations@[i] == items[i].metadata.destination
    &&& forall|i: int|
        0 <= i < items.len() ==> #[trigger] batch.expected_lengths@[i] == items[i].length
    &&& control.family is V4 <==> first.destination.address is V4
    &&& control.source is Some <==> first.source is Some && first.source->0
        != profile.local_endpoint
    &&& control.source is Some ==> control.source->0 == first.source->0.address
    &&& control.interface_index == asked_interface(first)
    &&& control.ecn is Some <==> profile.capabilities.has(UdpCapability::TransmitEcn)
    &&& control.ecn is Some ==> control.ecn->0 == mark_bits(first.ecn)
    &&& control.gso_segment_size is Some <==> first.gso_segment_size is Some
    &&& control.gso_segment_size is Some ==> control.gso_segment_size->0
        == first.gso_segment_size->0.number()
}

/// Whether a time is the first one that a batch waits for: the earliest of those that have not
/// come.
pub open spec fn is_waited_for(items: Seq<TransmitSubmission>, now: u64, deadline: u64) -> bool {
    &&& now < deadline
    &&& exists|i: int|
        0 <= i < items.len() && #[trigger] items[i].metadata.send_not_before_micros == deadline
    &&& forall|i: int|
        0 <= i < items.len() && now < #[trigger] items[i].metadata.send_not_before_micros
            ==> deadline <= items[i].metadata.send_not_before_micros
}

/// A batch is prepared exactly if it can be sent and the time of every datagram has come. One that
/// has to wait names the earliest time to come.
pub proof fn lemma_batches_are_prepared_when_due(
    profile: &LinuxUdpProfile,
    items: &[TransmitSubmission],
    now: u64,
    prepared: Result<PreparedTransmit, LinuxTransmitRejection>,
)
    requires
        items@.len() > 0,
        forall|i: int|
            0 <= i < items@.len() && (#[trigger] items@[i]).metadata.gso_segment_size is Some
                ==> items@[i].metadata.gso_segment_size->0.number() > 0,
        call_ensures(LinuxUdpProfile::prepare_transmit_batch, (profile, items, now), prepared),
    ensures
        prepared is Ok <==> can_send_batch(*profile, items@),
        prepared matches Ok(PreparedTransmit::NotReady { send_not_before_micros })
            ==> is_waited_for(items@, now, send_not_before_micros),
        prepared matches Ok(PreparedTransmit::Ready(batch)) ==> is_prepared(*profile, items@, batch)
            && forall|i: int|
            0 <= i < items@.len() ==> #[trigger] items@[i].metadata.send_not_before_micros <= now,
{
    lemma_batch_is_judged(*profile, items@);
    lemma_pacing_is_honoured(items@, now, items@.len());
}

/// Datagrams of one batch are held in slots of their own.
pub open spec fn are_held(
    pool: PoolView<SocketTransmitMetadata>,
    datagrams: Seq<TransmitDatagram>,
) -> bool {
    &&& forall|i: int|
        0 <= i < datagrams.len() ==> is_in(
            pool,
            (#[trigger] datagrams[i]).slot(),
            datagrams[i].generation(),
            SlotState::Held,
        )
    &&& forall|i: int, j: int|
        0 <= i < j < datagrams.len() ==> (#[trigger] datagrams[i]).slot() != (
        #[trigger] datagrams[j]).slot()
}

/// Whether the first `completed` datagrams of a batch are wiped and freed, and the others go behind
/// all that are ready, in their order and as they are. No other slot changes.
pub open spec fn is_settled(
    before: PoolView<SocketTransmitMetadata>,
    after: PoolView<SocketTransmitMetadata>,
    datagrams: Seq<TransmitDatagram>,
    completed: int,
    count: int,
) -> bool {
    &&& after.slots.len() == before.slots.len()
    &&& forall|i: int|
        0 <= i < count ==> {
            let slot = (#[trigger] datagrams[i]).slot();
            if i < completed {
                is_wiped(before.slots[slot], after.slots[slot])
            } else {
                after.slots[slot] == (SlotView { state: SlotState::Ready, ..before.slots[slot] })
            }
        }
    &&& forall|k: int|
        0 <= k < before.slots.len() && (forall|i: int|
            0 <= i < count ==> (#[trigger] datagrams[i]).slot() != k) ==> #[trigger] after.slots[k]
            == before.slots[k]
    &&& after.ready == before.ready + Seq::new(
        if completed < count {
            (count - completed) as nat
        } else {
            0
        },
        |i: int| datagrams[completed + i].slot(),
    )
}

/// Whether a slot is freed and its datagram wiped.
pub open spec fn is_wiped(
    before: SlotView<SocketTransmitMetadata>,
    after: SlotView<SocketTransmitMetadata>,
) -> bool {
    &&& after.state is Free
    &&& after.generation == before.generation
    &&& after.length == 0
    &&& after.metadata is None
    &&& forall|i: int| 0 <= i < before.length ==> #[trigger] after.bytes[i] == 0
}

proof fn lemma_settled(
    pool: PoolView<SocketTransmitMetadata>,
    datagrams: Seq<TransmitDatagram>,
    completed: nat,
    count: nat,
)
    requires
        count <= datagrams.len(),
        are_held(pool, datagrams),
    ensures
        all_owned(pool, datagrams, completed, count),
        is_settled(
            pool,
            settled_all(pool, datagrams, completed, count),
            datagrams,
            completed as int,
            count as int,
        ),
    decreases count,
{
    if count == 0 {
        assert(pool.ready =~= pool.ready + Seq::new(
            0,
            |i: int| datagrams[completed + i].slot(),
        ));
    } else {
        let last = count - 1;
        let before = settled_all(pool, datagrams, completed, last as nat);
        let after = settled_all(pool, datagrams, completed, count);
        lemma_settled(pool, datagrams, completed, last as nat);
        let slot = datagrams[last].slot();
        assert(before.slots[slot] == pool.slots[slot]);
        assert(before.owns(slot, datagrams[last].generation(), SlotState::Held));
        assert forall|i: int| 0 <= i < count implies {
            let at = (#[trigger] datagrams[i]).slot();
            if i < completed {
                is_wiped(pool.slots[at], after.slots[at])
            } else {
                after.slots[at] == (SlotView { state: SlotState::Ready, ..pool.slots[at] })
            }
        } by {
            if i < last {
                assert(datagrams[i].slot() != datagrams[last].slot());
            }
        }
        assert forall|k: int|
            0 <= k < pool.slots.len() && (forall|i: int|
                0 <= i < count ==> (#[trigger] datagrams[i]).slot() != k) implies
            #[trigger] after.slots[k] == pool.slots[k] by {
            assert(datagrams[last].slot() != k);
            assert(before.slots[k] == pool.slots[k]);
        }
        let earlier = Seq::new(
            if completed < last {
                (last - completed) as nat
            } else {
                0
            },
            |i: int| datagrams[completed + i].slot(),
        );
        let all = Seq::new(
            if completed < count {
                (count - completed) as nat
            } else {
                0
            },
            |i: int| datagrams[completed + i].slot(),
        );
        if last < completed {
            assert(all =~= earlier);
        } else {
            assert(all =~= earlier.push(slot));
            assert((pool.ready + earlier).push(slot) =~= pool.ready + all);
        }
    }
}

/// A batch is settled as a whole: what was sent is wiped, and the rest goes back.
pub proof fn lemma_batches_are_settled<const SLOTS: usize, const BUFFER_SIZE: usize>(
    datagrams: Vec<TransmitDatagram>,
    completed: usize,
    first_error: Option<RuntimeQueueError>,
)
    ensures
        forall|queue: &mut TransmitQueue<SLOTS, BUFFER_SIZE, SocketTransmitMetadata>|
            queue.well_formed() && are_held(queue.contents(), datagrams@)
                && #[trigger] call_ensures(
                resolve_transmit_datagrams::<SLOTS, BUFFER_SIZE>,
                (queue, datagrams, completed),
                first_error,
            ) ==> first_error is None && is_settled(
                queue.contents(),
                final(queue).contents(),
                datagrams@,
                completed as int,
                datagrams@.len() as int,
            ),
{
    assert forall|queue: &mut TransmitQueue<SLOTS, BUFFER_SIZE, SocketTransmitMetadata>|
        queue.well_formed() && are_held(queue.contents(), datagrams@) && #[trigger] call_ensures(
            resolve_transmit_datagrams::<SLOTS, BUFFER_SIZE>,
            (queue, datagrams, completed),
            first_error,
        ) implies first_error is None && is_settled(
        queue.contents(),
        final(queue).contents(),
        datagrams@,
        completed as int,
        datagrams@.len() as int,
    ) by {
        lemma_settled(queue.contents(), datagrams@, completed as nat, datagrams@.len());
    }
}

/// The first `count` lengths together.
pub open spec fn sum_of_first(lengths: Seq<usize>, count: int) -> int {
    total(lengths.take(count).map_values(|length: usize| length as int))
}

proof fn lemma_sum_of_first(lengths: Seq<usize>, count: nat)
    requires
        count <= lengths.len(),
    ensures
        sent_bytes(lengths, count) == sum_of_first(lengths, count as int),
    decreases count,
{
    let values = lengths.take(count as int).map_values(|length: usize| length as int);
    if count > 0 {
        lemma_sum_of_first(lengths, (count - 1) as nat);
        assert(values.drop_last() =~= lengths.take(count - 1).map_values(
            |length: usize| length as int,
        ));
    }
}

/// What comes of a batch. A prefix that was sent is counted and wiped, and the rest goes back. A
/// batch that would block goes back whole, and a failed one is wiped whole. A prefix that is empty
/// or holds a datagram of another length is an error.
pub proof fn lemma_sent_batches<const SLOTS: usize, const BUFFER_SIZE: usize, I>(
    datagrams: Vec<TransmitDatagram>,
    expected: &[usize],
    event: LinuxTransmitEvent<'_, I>,
    outcome: Result<LinuxTransmitBatchOutcome, LinuxUdpError<I>>,
)
    requires
        expected@.len() == datagrams@.len(),
        event matches LinuxTransmitEvent::Sent { sent, lengths } ==> sent <= datagrams@.len()
            && lengths@.len() == datagrams@.len(),
    ensures
        forall|queue: &mut TransmitQueue<SLOTS, BUFFER_SIZE, SocketTransmitMetadata>|
            queue.well_formed() && are_held(queue.contents(), datagrams@)
                && #[trigger] call_ensures(
                finish_transmit_batch::<SLOTS, BUFFER_SIZE, I>,
                (queue, datagrams, expected, event),
                outcome,
            ) ==> {
                let count = datagrams@.len() as int;
                let completed = match event {
                    LinuxTransmitEvent::Sent { sent, .. } => sent as int,
                    LinuxTransmitEvent::WouldBlock => 0,
                    LinuxTransmitEvent::Failed(_) => count,
                };
                &&& is_settled(
                    queue.contents(),
                    final(queue).contents(),
                    datagrams@,
                    completed,
                    count,
                )
                &&& event is WouldBlock ==> outcome is Ok && outcome->Ok_0 is WouldBlock
                &&& event matches LinuxTransmitEvent::Failed(error) ==> outcome == Err::<
                    LinuxTransmitBatchOutcome,
                    LinuxUdpError<I>,
                >(LinuxUdpError::Io(error))
                &&& event matches LinuxTransmitEvent::Sent { sent, lengths } ==> {
                    let bytes = sum_of_first(lengths@, sent as int);
                    let whole = forall|i: int|
                        0 <= i < sent ==> #[trigger] lengths@[i] == expected@[i];
                    &&& outcome is Ok <==> sent > 0 && whole && bytes <= usize::MAX
                    &&& outcome is Ok ==> (outcome->Ok_0 matches LinuxTransmitBatchOutcome::Sent {
                        sent_datagrams,
                        sent_bytes,
                        requeued_datagrams,
                    } && sent_datagrams == sent && sent_bytes == bytes && requeued_datagrams
                        == count - sent)
                    &&& sent == 0 ==> outcome is Err && outcome->Err_0 is EmptyPrefix
                    &&& sent > 0 && bytes <= usize::MAX && !whole ==> outcome is Err
                        && outcome->Err_0 is PartialDatagram
                }
            },
{
    match event {
        LinuxTransmitEvent::Sent { sent, lengths } => {
            assert(lengths@.len() == lengths.len());
            lemma_sum_of_first(lengths@, sent as nat);
        },
        _ => {},
    }
    assert forall|queue: &mut TransmitQueue<SLOTS, BUFFER_SIZE, SocketTransmitMetadata>|
        queue.well_formed() && are_held(queue.contents(), datagrams@) && #[trigger] call_ensures(
            finish_transmit_batch::<SLOTS, BUFFER_SIZE, I>,
            (queue, datagrams, expected, event),
            outcome,
        ) implies {
        let count = datagrams@.len();
        let completed = match event {
            LinuxTransmitEvent::Sent { sent, .. } => sent as nat,
            LinuxTransmitEvent::WouldBlock => 0,
            LinuxTransmitEvent::Failed(_) => count,
        };
        &&& all_owned(queue.contents(), datagrams@, completed, count)
        &&& is_settled(
            queue.contents(),
            final(queue).contents(),
            datagrams@,
            completed as int,
            count as int,
        )
    } by {
        let count = datagrams@.len();
        let completed = match event {
            LinuxTransmitEvent::Sent { sent, .. } => sent as nat,
            LinuxTransmitEvent::WouldBlock => 0,
            LinuxTransmitEvent::Failed(_) => count,
        };
        lemma_settled(queue.contents(), datagrams@, completed, count);
    }
}

/// Whether the first `count` ready datagrams are taken out of the queue in their order.
pub open spec fn takes_first_ready(
    before: PoolView<SocketTransmitMetadata>,
    after: PoolView<SocketTransmitMetadata>,
    count: int,
) -> bool {
    &&& after.slots.len() == before.slots.len()
    &&& after.ready == before.ready.skip(count)
    &&& forall|i: int|
        0 <= i < count ==> after.slots[#[trigger] before.ready[i]] == (SlotView {
            state: SlotState::Held,
            ..before.slots[before.ready[i]]
        })
    &&& forall|k: int|
        0 <= k < before.slots.len() && (forall|i: int|
            0 <= i < count ==> #[trigger] before.ready[i] != k) ==> #[trigger] after.slots[k]
            == before.slots[k]
}

proof fn lemma_popped(pool: PoolView<SocketTransmitMetadata>, count: nat)
    requires
        count <= pool.ready.len(),
        forall|k: int|
            0 <= k < pool.ready.len() ==> 0 <= #[trigger] pool.ready[k] < pool.slots.len(),
        forall|k: int, l: int|
            0 <= k < l < pool.ready.len() ==> #[trigger] pool.ready[k] != #[trigger] pool.ready[l],
    ensures
        takes_first_ready(pool, popped_times(pool, count), count as int),
    decreases count,
{
    if count == 0 {
        assert(pool.ready.skip(0) =~= pool.ready);
    } else {
        let last = count - 1;
        let before = popped_times(pool, last as nat);
        let after = popped_times(pool, count);
        lemma_popped(pool, last as nat);
        assert(before.ready[0] == pool.ready[last]);
        assert(before.ready.skip(1) =~= pool.ready.skip(count as int));
        assert(before.slots[pool.ready[last]] == pool.slots[pool.ready[last]]);
        assert forall|i: int| 0 <= i < count implies after.slots[#[trigger] pool.ready[i]] == (
        SlotView { state: SlotState::Held, ..pool.slots[pool.ready[i]] }) by {
            if i < last {
                assert(pool.ready[i] != pool.ready[last]);
            }
        }
        assert forall|k: int|
            0 <= k < pool.slots.len() && (forall|i: int|
                0 <= i < count ==> #[trigger] pool.ready[i] != k) implies #[trigger] after.slots[k]
            == pool.slots[k] by {
            assert(pool.ready[last] != k);
            assert(before.slots[k] == pool.slots[k]);
        }
    }
}

/// A batch is made of the first ready datagrams, in their order, and only if there are enough of
/// them. It is submitted exactly if it can be sent and all of it is due. A batch that has to wait,
/// or that cannot be sent, goes back behind the others with what it holds.
pub proof fn lemma_batches_are_submitted_when_due<
    const SLOTS: usize,
    const BUFFER_SIZE: usize,
    I,
>(
    profile: &LinuxUdpProfile,
    batch: usize,
    now: u64,
    step: Result<LinuxTransmitStep, LinuxUdpError<I>>,
)
    ensures
        forall|queue: &mut TransmitQueue<SLOTS, BUFFER_SIZE, SocketTransmitMetadata>|
            queue.well_formed() && are_sized(queue.contents()) && #[trigger] call_ensures(
                LinuxUdpProfile::begin_transmit_batch::<SLOTS, BUFFER_SIZE, I>,
                (profile, queue, batch, now),
                step,
            ) ==> {
                let before = queue.contents();
                let after = final(queue).contents();
                let items = first_ready(before, batch as nat);
                &&& batch == 0 || before.ready.len() == 0 ==> after == before && step is Ok && (
                step->Ok_0 matches LinuxTransmitStep::Done(outcome) && outcome is Idle)
                &&& 0 < before.ready.len() < batch ==> after == before && step is Ok && (
                step->Ok_0 matches LinuxTransmitStep::Done(outcome) && (
                outcome matches LinuxTransmitBatchOutcome::IncompleteBatch { ready_datagrams }
                    && ready_datagrams == before.ready.len()))
                &&& 0 < batch <= before.ready.len() ==> {
                    &&& step is Ok <==> can_send_batch(*profile, items)
                    &&& step is Err ==> step->Err_0 is UnsupportedTransmit
                    &&& step is Ok ==> match step->Ok_0 {
                        LinuxTransmitStep::Submit { datagrams, batch: prepared } => {
                            &&& datagrams@.len() == batch
                            &&& forall|i: int|
                                0 <= i < batch ==> (#[trigger] datagrams@[i]).slot()
                                    == before.ready[i]
                            &&& takes_first_ready(before, after, batch as int)
                            &&& is_prepared(*profile, items, prepared)
                            &&& forall|i: int|
                                0 <= i < batch
                                    ==> #[trigger] items[i].metadata.send_not_before_micros <= now
                        },
                        LinuxTransmitStep::Done(outcome) => {
                            &&& outcome matches LinuxTransmitBatchOutcome::NotReady {
                                send_not_before_micros,
                            }
                            &&& is_waited_for(items, now, send_not_before_micros)
                        },
                    }
                    &&& !(step is Ok && step->Ok_0 is Submit) ==> {
                        &&& after.slots == before.slots
                        &&& after.ready == before.ready.skip(batch as int) + before.ready.take(
                            batch as int,
                        )
                    }
                }
            },
{
    assert forall|queue: &mut TransmitQueue<SLOTS, BUFFER_SIZE, SocketTransmitMetadata>|
        queue.well_formed() && are_sized(queue.contents()) && #[trigger] call_ensures(
            LinuxUdpProfile::begin_transmit_batch::<SLOTS, BUFFER_SIZE, I>,
            (profile, queue, batch, now),
            step,
        ) && 0 < batch <= queue.contents().ready.len() implies {
        let before = queue.contents();
        let after = final(queue).contents();
        let items = ready_items(before, batch as nat);
        &&& items == first_ready(before, batch as nat)
        &&& profile.batch_rejection(items) is None <==> can_send_batch(*profile, items)
        &&& match earliest_future(items, now, items.len()) {
            Some(deadline) => is_waited_for(items, now, deadline),
            None => forall|i: int|
                0 <= i < items.len() ==> #[trigger] items[i].metadata.send_not_before_micros
                    <= now,
        }
        &&& takes_first_ready(before, popped_times(before, batch as nat), batch as int)
        &&& !(step is Ok && step->Ok_0 is Submit) ==> {
            &&& after.slots == before.slots
            &&& after.ready == before.ready.skip(batch as int) + before.ready.take(batch as int)
        }
    } by {
        let before = queue.contents();
        let after = final(queue).contents();
        let items = ready_items(before, batch as nat);
        assert(items =~= first_ready(before, batch as nat));
        assert forall|i: int|
            0 <= i < items.len() && (#[trigger] items[i]).metadata.gso_segment_size is Some implies
            items[i].metadata.gso_segment_size->0.number() > 0 by {
            let slot = before.ready[i];
            assert(before.slots[slot].metadata is Some);
        }
        lemma_batch_is_judged(*profile, items);
        lemma_pacing_is_honoured(items, now, items.len());
        lemma_popped(before, batch as nat);
        if !(step is Ok && step->Ok_0 is Submit) {
            let popped = popped_times(before, batch as nat);
            let datagrams = choose|datagrams: Seq<TransmitDatagram>|
                datagrams.len() == batch
                    && #[trigger] crate::runtime::linux::transmit::are_first_ready(
                    before,
                    popped,
                    datagrams,
                ) && after == settled_all(popped, datagrams, 0, batch as nat);
            lemma_put_back(before, popped, datagrams, batch as nat);
        }
    }
}

proof fn lemma_put_back(
    before: PoolView<SocketTransmitMetadata>,
    popped: PoolView<SocketTransmitMetadata>,
    datagrams: Seq<TransmitDatagram>,
    count: nat,
)
    requires
        count <= before.ready.len(),
        datagrams.len() == count,
        crate::runtime::linux::transmit::are_first_ready(before, popped, datagrams),
        takes_first_ready(before, popped, count as int),
        forall|k: int|
            0 <= k < before.ready.len() ==> 0 <= #[trigger] before.ready[k] < before.slots.len()
                && before.slots[before.ready[k]].state == SlotState::Ready,
        forall|k: int, l: int|
            0 <= k < l < before.ready.len() ==> #[trigger] before.ready[k]
                != #[trigger] before.ready[l],
    ensures
        ({
            let after = settled_all(popped, datagrams, 0, count);
            &&& after.slots == before.slots
            &&& after.ready == before.ready.skip(count as int) + before.ready.take(count as int)
        }),
{
    let after = settled_all(popped, datagrams, 0, count);
    assert forall|i: int, j: int| 0 <= i < j < datagrams.len() implies (
    #[trigger] datagrams[i]).slot() != (#[trigger] datagrams[j]).slot() by {
        assert(before.ready[i] != before.ready[j]);
    }
    lemma_settled(popped, datagrams, 0, count);
    assert forall|k: int| 0 <= k < before.slots.len() implies #[trigger] after.slots[k]
        == before.slots[k] by {
        if exists|i: int| 0 <= i < count && #[trigger] before.ready[i] == k {
            let i = choose|i: int| 0 <= i < count && #[trigger] before.ready[i] == k;
            assert(datagrams[i].slot() == k);
            assert(popped.slots[before.ready[i]] == (SlotView {
                state: SlotState::Held,
                ..before.slots[k]
            }));
            assert(after.slots[k] == (SlotView { state: SlotState::Ready, ..popped.slots[k] }));
        } else {
            assert forall|i: int| 0 <= i < count implies (#[trigger] datagrams[i]).slot() != k by {
                assert(before.ready[i] != k);
            }
            assert(after.slots[k] == popped.slots[k]);
        }
    }
    assert(after.slots =~= before.slots);
    assert(Seq::new(count, |i: int| datagrams[0 + i].slot()) =~= before.ready.take(count as int));
}

/// Whether every segment size in a queue is positive, as one that is made of a positive number is.
pub open spec fn are_sized(pool: PoolView<SocketTransmitMetadata>) -> bool {
    forall|k: int|
        0 <= k < pool.slots.len() && (#[trigger] pool.slots[k]).metadata is Some
            && pool.slots[k].metadata->0.gso_segment_size is Some
            ==> pool.slots[k].metadata->0.gso_segment_size->0.number() > 0
}

/// The first ready datagrams, as they are submitted.
pub open spec fn first_ready(pool: PoolView<SocketTransmitMetadata>, count: nat) -> Seq<
    TransmitSubmission,
> {
    Seq::new(
        count,
        |i: int|
            {
                let slot = pool.slots[pool.ready[i]];
                TransmitSubmission { metadata: slot.metadata->0, length: slot.length as usize }
            },
    )
}

/// The bytes of the accepted datagrams of a batch.
pub open spec fn bytes_of(records: Seq<ReceiveRecord>) -> int {
    total(
        records.map_values(
            |record: ReceiveRecord|
                match record {
                    ReceiveRecord::Accepted { length, .. } => length as int,
                    _ => 0,
                },
        ),
    )
}

proof fn lemma_records_are_counted(records: Seq<ReceiveRecord>)
    ensures
        accepted_count(records) == records.filter(|record: ReceiveRecord| record is Accepted).len(),
        dropped_count(records) == records.filter(|record: ReceiveRecord| record is Dropped).len(),
        accepted_bytes(records) == bytes_of(records),
        accepted_count(records) <= records.len(),
        dropped_count(records) <= records.len(),
    decreases records.len(),
{
    reveal(Seq::filter);
    if records.len() > 0 {
        let earlier = records.drop_last();
        lemma_records_are_counted(earlier);
        let value = |record: ReceiveRecord|
            match record {
                ReceiveRecord::Accepted { length, .. } => length as int,
                _ => 0,
            };
        assert(records.map_values(value).drop_last() =~= earlier.map_values(value));
    }
}

/// Reservations of one batch are held in slots of their own.
pub open spec fn are_reserved(
    pool: PoolView<SocketReceiveMetadata>,
    reservations: Seq<ReceiveReservation>,
) -> bool {
    &&& forall|i: int|
        0 <= i < reservations.len() ==> is_in(
            pool,
            (#[trigger] reservations[i]).slot(),
            reservations[i].generation(),
            SlotState::Reserved,
        )
    &&& forall|i: int, j: int|
        0 <= i < j < reservations.len() ==> (#[trigger] reservations[i]).slot() != (
        #[trigger] reservations[j]).slot()
}

/// What becomes of a reserved slot: an accepted datagram is ready with its length and metadata, a
/// dropped one is wiped whole, and an unused slot is freed as it is.
pub open spec fn is_resolved(
    before: SlotView<SocketReceiveMetadata>,
    after: SlotView<SocketReceiveMetadata>,
    record: ReceiveRecord,
) -> bool {
    &&& after.generation == before.generation
    &&& match record {
        ReceiveRecord::Accepted { length, metadata } => {
            &&& after.state is Ready
            &&& after.bytes == before.bytes
            &&& after.length == length
            &&& after.metadata == Some(metadata)
        },
        ReceiveRecord::Dropped => {
            &&& after.state is Free
            &&& after.length == 0
            &&& after.metadata is None
            &&& forall|i: int| 0 <= i < before.bytes.len() ==> #[trigger] after.bytes[i] == 0
        },
        ReceiveRecord::Unused => {
            &&& after.state is Free
            &&& after.length == 0
            &&& after.metadata is None
            &&& forall|i: int|
                0 <= i < before.bytes.len() ==> #[trigger] after.bytes[i] == before.bytes[i]
        },
    }
}

/// Whether every record's datagram fits its buffer and is no shorter than one segment.
pub open spec fn all_fit(records: Seq<ReceiveRecord>, buffer_size: nat) -> bool {
    forall|i: int|
        0 <= i < records.len() ==> match #[trigger] records[i] {
            ReceiveRecord::Accepted { length, metadata } => 0 < length <= buffer_size && (
            metadata.gro_segment_size is Some ==> metadata.gro_segment_size->0.number() <= length),
            _ => true,
        }
}

proof fn lemma_resolved(
    pool: PoolView<SocketReceiveMetadata>,
    reservations: Seq<ReceiveReservation>,
    records: Seq<ReceiveRecord>,
    buffer_size: nat,
    count: nat,
)
    requires
        count <= reservations.len(),
        reservations.len() == records.len(),
        are_reserved(pool, reservations),
        all_fit(records, buffer_size),
        forall|k: int|
            0 <= k < pool.slots.len() ==> (#[trigger] pool.slots[k]).bytes.len() == buffer_size,
    ensures
        ({
            let after = crate::runtime::linux::receive::settled_all(
                pool,
                reservations,
                records,
                buffer_size,
                count,
            );
            &&& first_settle_failure(pool, reservations, records, buffer_size, count) is None
            &&& after.slots.len() == pool.slots.len()
            &&& forall|i: int|
                0 <= i < count ==> is_resolved(
                    pool.slots[(#[trigger] reservations[i]).slot()],
                    after.slots[reservations[i].slot()],
                    records[i],
                )
            &&& forall|k: int|
                0 <= k < pool.slots.len() && (forall|i: int|
                    0 <= i < count ==> (#[trigger] reservations[i]).slot() != k)
                    ==> #[trigger] after.slots[k] == pool.slots[k]
        }),
    decreases count,
{
    if count > 0 {
        let last = count - 1;
        let before = crate::runtime::linux::receive::settled_all(
            pool,
            reservations,
            records,
            buffer_size,
            last as nat,
        );
        let after = crate::runtime::linux::receive::settled_all(
            pool,
            reservations,
            records,
            buffer_size,
            count,
        );
        lemma_resolved(pool, reservations, records, buffer_size, last as nat);
        let slot = reservations[last].slot();
        assert(before.slots[slot] == pool.slots[slot]);
        assert(before.owns(slot, reservations[last].generation(), SlotState::Reserved));
        assert(records[last] is Accepted ==> 0 < records[last]->length <= buffer_size);
        assert(is_resolved(pool.slots[slot], after.slots[slot], records[last]));
        assert forall|i: int| 0 <= i < count implies is_resolved(
            pool.slots[(#[trigger] reservations[i]).slot()],
            after.slots[reservations[i].slot()],
            records[i],
        ) by {
            if i < last {
                assert(reservations[i].slot() != reservations[last].slot());
            }
        }
        assert forall|k: int|
            0 <= k < pool.slots.len() && (forall|i: int|
                0 <= i < count ==> (#[trigger] reservations[i]).slot() != k) implies
            #[trigger] after.slots[k] == pool.slots[k] by {
            assert(reservations[last].slot() != k);
            assert(before.slots[k] == pool.slots[k]);
        }
    }
}

/// A received batch is resolved record by record, each in the slot of its own reservation, and what
/// was accepted and dropped is counted.
pub proof fn lemma_received_batches<const SLOTS: usize, const BUFFER_SIZE: usize, I>(
    reservations: Vec<ReceiveReservation>,
    records: &[ReceiveRecord],
    outcome: Result<LinuxReceiveBatchOutcome, LinuxUdpError<I>>,
)
    requires
        reservations@.len() == records@.len(),
        accepted_bytes(records@) <= usize::MAX,
        all_fit(records@, BUFFER_SIZE as nat),
    ensures
        forall|queue: &mut ReceiveQueue<SLOTS, BUFFER_SIZE, SocketReceiveMetadata>|
            queue.well_formed() && are_reserved(queue.contents(), reservations@)
                && #[trigger] call_ensures(
                resolve_received_batch::<SLOTS, BUFFER_SIZE, I>,
                (queue, reservations, records),
                outcome,
            ) ==> {
                let before = queue.contents();
                let after = final(queue).contents();
                &&& forall|i: int|
                    0 <= i < records@.len() ==> is_resolved(
                        before.slots[(#[trigger] reservations@[i]).slot()],
                        after.slots[reservations@[i].slot()],
                        records@[i],
                    )
                &&& outcome is Ok
                &&& outcome->Ok_0 matches LinuxReceiveBatchOutcome::Received {
                    committed_datagrams,
                    committed_bytes,
                    dropped_datagrams,
                }
                &&& committed_datagrams == records@.filter(
                    |record: ReceiveRecord| record is Accepted,
                ).len()
                &&& committed_bytes == bytes_of(records@)
                &&& dropped_datagrams == records@.filter(
                    |record: ReceiveRecord| record is Dropped,
                ).len()
            },
{
    lemma_records_are_counted(records@);
    assert(records@.len() == records.len());
    assert forall|queue: &mut ReceiveQueue<SLOTS, BUFFER_SIZE, SocketReceiveMetadata>|
        queue.well_formed() && are_reserved(queue.contents(), reservations@)
            && #[trigger] call_ensures(
            resolve_received_batch::<SLOTS, BUFFER_SIZE, I>,
            (queue, reservations, records),
            outcome,
        ) implies {
        let before = queue.contents();
        let after = final(queue).contents();
        &&& first_settle_failure(
            before,
            reservations@,
            records@,
            BUFFER_SIZE as nat,
            records@.len(),
        ) is None
        &&& forall|i: int|
            0 <= i < records@.len() ==> is_resolved(
                before.slots[(#[trigger] reservations@[i]).slot()],
                after.slots[reservations@[i].slot()],
                records@[i],
            )
    } by {
        lemma_resolved(
            queue.contents(),
            reservations@,
            records@,
            BUFFER_SIZE as nat,
            records@.len(),
        );
    }
}

/// A receive that would block frees its slots as they are, and a failed one wipes them.
pub proof fn lemma_failed_receives<const SLOTS: usize, const BUFFER_SIZE: usize, I>(
    reservations: Vec<ReceiveReservation>,
    failure: ReceiveFailure<I>,
    outcome: Result<LinuxReceiveBatchOutcome, LinuxUdpError<I>>,
)
    ensures
        forall|queue: &mut ReceiveQueue<SLOTS, BUFFER_SIZE, SocketReceiveMetadata>|
            queue.well_formed() && are_reserved(queue.contents(), reservations@)
                && #[trigger] call_ensures(
                resolve_failed_receive::<SLOTS, BUFFER_SIZE, I>,
                (queue, reservations, failure),
                outcome,
            ) ==> {
                let before = queue.contents();
                let after = final(queue).contents();
                &&& forall|i: int|
                    0 <= i < reservations@.len() ==> is_resolved(
                        before.slots[(#[trigger] reservations@[i]).slot()],
                        after.slots[reservations@[i].slot()],
                        if failure is WouldBlock {
                            ReceiveRecord::Unused
                        } else {
                            ReceiveRecord::Dropped
                        },
                    )
                &&& failure is WouldBlock ==> outcome is Ok && outcome->Ok_0 is WouldBlock
                &&& failure matches ReceiveFailure::Failed(error) ==> outcome == Err::<
                    LinuxReceiveBatchOutcome,
                    LinuxUdpError<I>,
                >(LinuxUdpError::Io(error))
            },
{
    assert forall|queue: &mut ReceiveQueue<SLOTS, BUFFER_SIZE, SocketReceiveMetadata>|
        queue.well_formed() && are_reserved(queue.contents(), reservations@)
            && #[trigger] call_ensures(
            resolve_failed_receive::<SLOTS, BUFFER_SIZE, I>,
            (queue, reservations, failure),
            outcome,
        ) implies {
        let before = queue.contents();
        let after = final(queue).contents();
        let records = Seq::new(
            reservations@.len(),
            |i: int| crate::runtime::linux::receive::failure_record(failure),
        );
        &&& first_settle_failure(
            before,
            reservations@,
            records,
            BUFFER_SIZE as nat,
            records.len(),
        ) is None
        &&& forall|i: int|
            0 <= i < reservations@.len() ==> is_resolved(
                before.slots[(#[trigger] reservations@[i]).slot()],
                after.slots[reservations@[i].slot()],
                if failure is WouldBlock {
                    ReceiveRecord::Unused
                } else {
                    ReceiveRecord::Dropped
                },
            )
    } by {
        let records = Seq::new(
            reservations@.len(),
            |i: int| crate::runtime::linux::receive::failure_record(failure),
        );
        lemma_resolved(
            queue.contents(),
            reservations@,
            records,
            BUFFER_SIZE as nat,
            records.len(),
        );
    }
}

/// A batch of receives reserves as many slots as it asks for, or none. It needs buffers that hold
/// the largest datagram. What is ready is not touched.
pub proof fn lemma_receive_batches_are_reserved_whole<
    const SLOTS: usize,
    const BUFFER_SIZE: usize,
    I,
>(
    profile: &LinuxUdpProfile,
    batch: usize,
    step: Result<LinuxReceiveStep, LinuxUdpError<I>>,
)
    ensures
        forall|queue: &mut ReceiveQueue<SLOTS, BUFFER_SIZE, SocketReceiveMetadata>|
            queue.well_formed() && #[trigger] call_ensures(
                LinuxUdpProfile::begin_receive_batch::<SLOTS, BUFFER_SIZE, I>,
                (profile, queue, batch),
                step,
            ) ==> {
                let before = queue.contents();
                let after = final(queue).contents();
                &&& batch == 0 ==> after == before && step is Ok && (
                step->Ok_0 matches LinuxReceiveStep::Done(outcome) && outcome is Idle)
                &&& batch > 0 ==> (BUFFER_SIZE < profile.maximum_datagram_size <==> step is Err
                    && step->Err_0 is ReceiveBufferTooSmall)
                &&& after.ready == before.ready
                &&& step is Ok ==> (step->Ok_0 matches LinuxReceiveStep::Receive { reservations }
                    ==> {
                    &&& reservations@.len() == batch
                    &&& forall|i: int|
                        0 <= i < batch ==> is_in(
                            after,
                            (#[trigger] reservations@[i]).slot(),
                            reservations@[i].generation(),
                            SlotState::Reserved,
                        )
                })
            },
{
    assert forall|queue: &mut ReceiveQueue<SLOTS, BUFFER_SIZE, SocketReceiveMetadata>|
        queue.well_formed() && #[trigger] call_ensures(
            LinuxUdpProfile::begin_receive_batch::<SLOTS, BUFFER_SIZE, I>,
            (profile, queue, batch),
            step,
        ) implies final(queue).contents().ready == queue.contents().ready by {
        let before = queue.contents();
        let got = crate::runtime::linux::receive::reservable(before, batch as nat);
        lemma_reserving_leaves_ready(before, batch as nat);
        lemma_reserving_leaves_ready(before, got);
        lemma_giving_back_leaves_ready(before, reserved_times(before, got).not_reserved(), got);
    }
}

proof fn lemma_reserving_leaves_ready(pool: PoolView<SocketReceiveMetadata>, count: nat)
    ensures
        reserved_times(pool, count).ready == pool.ready,
    decreases count,
{
    if count > 0 {
        lemma_reserving_leaves_ready(pool, (count - 1) as nat);
    }
}

proof fn lemma_giving_back_leaves_ready(
    pool: PoolView<SocketReceiveMetadata>,
    reserved: PoolView<SocketReceiveMetadata>,
    count: nat,
)
    ensures
        crate::runtime::linux::receive::given_back(pool, reserved, count).ready == reserved.ready,
    decreases count,
{
    if count > 0 {
        lemma_giving_back_leaves_ready(pool, reserved, (count - 1) as nat);
    }
}

} // verus!
