//! Laws of the portable socket profile.

use vstd::prelude::*;

use crate::laws::queues::{becomes_ready, changes_hands, hands_out, is_freed, is_in};
use crate::runtime::pool::{lemma_worn_out, PoolView, SlotState};
use crate::runtime::portable::{
    finish_transmit, validate_endpoint, PortableReceiveEvent, PortableReceiveOutcome,
    PortableReceiveStep, PortableTransmitEvent, PortableTransmitOutcome,
    PortableTransmitRejection, PortableTransmitStep, PortableUdpCapabilities,
    PortableUdpCapability, PortableUdpError, PortableUdpProfile,
};
use crate::runtime::socket::{ScopedEndpoint, SocketReceiveMetadata, SocketTransmitMetadata};
use crate::runtime::{ReceiveQueue, ReceiveReservation, TransmitDatagram, TransmitQueue};

verus! {

/// A profile keeps what it was made with, and takes datagrams of 1 to 65,527 bytes. It offers at
/// most the exact destination, if it is bound to one address.
pub proof fn lemma_profiles_bound_their_datagrams<I>(
    socket_id: u16,
    local: ScopedEndpoint,
    exact: bool,
    maximum: usize,
    profile: Result<PortableUdpProfile, PortableUdpError<I>>,
    given: &PortableUdpProfile,
    capabilities: PortableUdpCapabilities,
    capability: PortableUdpCapability,
)
    requires
        call_ensures(PortableUdpProfile::new::<I>, (socket_id, local, exact, maximum), profile),
        call_ensures(PortableUdpProfile::capabilities, (given,), capabilities),
    ensures
        profile is Ok <==> 1 <= maximum && maximum <= 65_527,
        profile matches Ok(profile) ==> {
            &&& profile.socket_id == socket_id
            &&& profile.local_endpoint == local
            &&& profile.exact_local_endpoint == exact
            &&& profile.maximum_datagram_size == maximum
        },
        capabilities.has(capability) <==> given.exact_local_endpoint
            && capability is ExactReceiveDestination,
{
}

/// A scope belongs to IPv6 addresses only.
pub proof fn lemma_scopes_belong_to_ipv6(
    endpoint: ScopedEndpoint,
    outcome: Result<(), PortableTransmitRejection>,
)
    requires
        call_ensures(validate_endpoint, (endpoint,), outcome),
    ensures
        outcome is Ok <==> endpoint.address is V6 || endpoint.scope_id == 0,
        outcome matches Err(rejection) ==> rejection is InvalidIpv4Scope,
{
}

/// Whether a profile can do what a datagram asks for: it is for its socket, from its own address if
/// from any, and asks for no interface, mark or segmentation.
pub open spec fn asks_for_nothing_more(
    profile: PortableUdpProfile,
    metadata: SocketTransmitMetadata,
) -> bool {
    &&& metadata.socket_id == profile.socket_id
    &&& metadata.source is Some ==> profile.exact_local_endpoint && metadata.source
        == Some(profile.local_endpoint)
    &&& metadata.interface_index is None
    &&& metadata.ecn is NotEct
    &&& metadata.gso_segment_size is None
}

/// A profile refuses a datagram for the first thing that it cannot do.
pub proof fn lemma_unsupported_requests_are_refused(
    profile: &PortableUdpProfile,
    metadata: SocketTransmitMetadata,
    outcome: Result<(), PortableTransmitRejection>,
)
    requires
        call_ensures(PortableUdpProfile::validate_transmit_metadata, (profile, metadata), outcome),
    ensures
        outcome is Ok <==> asks_for_nothing_more(*profile, metadata),
        outcome matches Err(rejection) ==> {
            let own = metadata.socket_id == profile.socket_id;
            let placed = metadata.source is Some ==> profile.exact_local_endpoint
                && metadata.source == Some(profile.local_endpoint);
            &&& rejection is WrongSocket <==> !own
            &&& rejection is SourceSelectionUnavailable <==> own && !placed
            &&& rejection is InterfaceSelectionUnavailable <==> own && placed
                && metadata.interface_index is Some
            &&& rejection is EcnUnavailable <==> own && placed && metadata.interface_index is None
                && !(metadata.ecn is NotEct)
            &&& rejection is GsoUnavailable <==> own && placed && metadata.interface_index is None
                && metadata.ecn is NotEct
        },
{
}

/// A receive asks for one byte more than the largest datagram, so that a larger one is noticed, and
/// needs a buffer that holds that.
pub proof fn lemma_receives_notice_larger_datagrams<
    const SLOTS: usize,
    const BUFFER_SIZE: usize,
    I,
>(profile: &PortableUdpProfile, step: Result<PortableReceiveStep, PortableUdpError<I>>)
    ensures
        forall|queue: &mut ReceiveQueue<SLOTS, BUFFER_SIZE, SocketReceiveMetadata>|
            queue.well_formed() && profile.maximum_datagram_size < usize::MAX
                && #[trigger] call_ensures(
                PortableUdpProfile::begin_receive::<SLOTS, BUFFER_SIZE, I>,
                (profile, queue),
                step,
            ) ==> {
                let before = queue.contents();
                let after = final(queue).contents();
                &&& BUFFER_SIZE <= profile.maximum_datagram_size <==> step is Err
                    && step->Err_0 is ReceiveBufferTooSmall
                &&& step matches Ok(PortableReceiveStep::Receive { reservation, limit }) ==> limit
                    == profile.maximum_datagram_size + 1 && hands_out(
                    before,
                    after,
                    reservation.slot(),
                    reservation.generation(),
                )
                &&& !(step matches Ok(PortableReceiveStep::Receive { .. })) ==> after.slots
                    == before.slots && after.ready == before.ready
            },
{
    assert forall|queue: &mut ReceiveQueue<SLOTS, BUFFER_SIZE, SocketReceiveMetadata>|
        queue.well_formed() && profile.maximum_datagram_size < usize::MAX
            && #[trigger] call_ensures(
            PortableUdpProfile::begin_receive::<SLOTS, BUFFER_SIZE, I>,
            (profile, queue),
            step,
        ) implies (step matches Ok(PortableReceiveStep::Receive { reservation, limit })
        ==> hands_out(
        queue.contents(),
        final(queue).contents(),
        reservation.slot(),
        reservation.generation(),
    )) by {
        lemma_worn_out(queue.contents().slots, queue.contents().free);
    }
}

proof fn lemma_freed<M>(before: PoolView<M>, slot: int, wiped: nat)
    requires
        0 <= slot < before.slots.len(),
        wiped <= before.slots[slot].bytes.len(),
    ensures
        is_freed(before, before.released(slot, wiped), slot, wiped),
{
}

/// What comes of a receive. A datagram of 1 byte up to the largest size is queued with its source,
/// the time, and the local endpoint where that is exact. An empty or a larger one is dropped and
/// wiped. A receive that would block leaves its buffer, and a failed one wipes it. An interrupted
/// one is tried again.
pub proof fn lemma_received_datagrams<const SLOTS: usize, const BUFFER_SIZE: usize, I>(
    profile: &PortableUdpProfile,
    reservation: ReceiveReservation,
    event: PortableReceiveEvent<I>,
    now: u64,
    step: Result<PortableReceiveStep, PortableUdpError<I>>,
)
    ensures
        forall|queue: &mut ReceiveQueue<SLOTS, BUFFER_SIZE, SocketReceiveMetadata>|
            queue.well_formed() && profile.maximum_datagram_size < usize::MAX
                && #[trigger] call_ensures(
                PortableUdpProfile::finish_receive::<SLOTS, BUFFER_SIZE, I>,
                (profile, queue, reservation, event, now),
                step,
            ) ==> {
                let before = queue.contents();
                let after = final(queue).contents();
                let slot = reservation.slot();
                let owned = is_in(before, slot, reservation.generation(), SlotState::Reserved);
                let maximum = profile.maximum_datagram_size;
                &&& event is Interrupted ==> after == before && (step matches Ok(
                    PortableReceiveStep::Receive { reservation: again, limit },
                ) && again == reservation && limit == maximum + 1)
                &&& !(event is Interrupted) && !owned ==> after == before && step is Err
                &&& event is WouldBlock && owned ==> is_freed(before, after, slot, 0) && (
                step matches Ok(PortableReceiveStep::Done(outcome)) && outcome is WouldBlock)
                &&& owned ==> (event matches PortableReceiveEvent::Failed(error) ==> is_freed(
                    before,
                    after,
                    slot,
                    BUFFER_SIZE as nat,
                ) && step == Err::<PortableReceiveStep, PortableUdpError<I>>(
                    PortableUdpError::Io(error),
                ))
                &&& owned ==> (event matches PortableReceiveEvent::Received { length, source } ==> {
                    &&& 0 < length && length <= maximum && length <= BUFFER_SIZE ==> {
                        &&& step matches Ok(PortableReceiveStep::Done(outcome))
                        &&& outcome matches PortableReceiveOutcome::Received { bytes }
                        &&& bytes == length
                        &&& after.slots[slot].metadata is Some
                        &&& becomes_ready(
                            before,
                            after,
                            slot,
                            length as nat,
                            after.slots[slot].metadata->0,
                        )
                        &&& describes_receive(
                            *profile,
                            source,
                            now,
                            after.slots[slot].metadata->0,
                        )
                    }
                    &&& length == 0 || length > maximum || length > BUFFER_SIZE ==> is_freed(
                        before,
                        after,
                        slot,
                        BUFFER_SIZE as nat,
                    )
                    &&& length == 0 ==> (step matches Ok(PortableReceiveStep::Done(outcome))
                        && outcome is DroppedEmpty)
                    &&& length > maximum && length > 0 ==> (step matches Ok(
                        PortableReceiveStep::Done(outcome),
                    ) && (outcome matches PortableReceiveOutcome::DroppedOversized {
                        configured_limit,
                        observed_at_least,
                    } && configured_limit == maximum && observed_at_least == length))
                })
            },
{
    assert forall|queue: &mut ReceiveQueue<SLOTS, BUFFER_SIZE, SocketReceiveMetadata>|
        queue.well_formed() && profile.maximum_datagram_size < usize::MAX
            && #[trigger] call_ensures(
            PortableUdpProfile::finish_receive::<SLOTS, BUFFER_SIZE, I>,
            (profile, queue, reservation, event, now),
            step,
        ) && is_in(
            queue.contents(),
            reservation.slot(),
            reservation.generation(),
            SlotState::Reserved,
        ) implies {
        let before = queue.contents();
        let slot = reservation.slot();
        &&& is_freed(before, before.released(slot, 0), slot, 0)
        &&& is_freed(
            before,
            before.released(slot, BUFFER_SIZE as nat),
            slot,
            BUFFER_SIZE as nat,
        )
    } by {
        lemma_freed(queue.contents(), reservation.slot(), 0);
        lemma_freed(queue.contents(), reservation.slot(), BUFFER_SIZE as nat);
    }
}

/// Whether metadata is what the profile knows of a received datagram.
pub open spec fn describes_receive(
    profile: PortableUdpProfile,
    source: ScopedEndpoint,
    now: u64,
    metadata: SocketReceiveMetadata,
) -> bool {
    &&& metadata.source == source
    &&& metadata.destination is Some <==> profile.exact_local_endpoint
    &&& metadata.destination is Some ==> metadata.destination->0 == profile.local_endpoint
    &&& metadata.socket_id == profile.socket_id
    &&& metadata.received_at_micros == now
    &&& metadata.interface_index is None
    &&& metadata.ecn is None
    &&& metadata.kernel_timestamp_unix_nanos is None
    &&& metadata.socket_drop_count is None
    &&& metadata.gro_segment_size is None
}

/// The first ready datagram is sent if its time has come and the profile can do what it asks for.
/// One whose time has not come goes behind the others as it is, and one that asks for more is
/// wiped.
pub proof fn lemma_datagrams_wait_for_their_time<
    const SLOTS: usize,
    const BUFFER_SIZE: usize,
    I,
>(
    profile: &PortableUdpProfile,
    now: u64,
    step: Result<PortableTransmitStep, PortableUdpError<I>>,
)
    ensures
        forall|queue: &mut TransmitQueue<SLOTS, BUFFER_SIZE, SocketTransmitMetadata>|
            queue.well_formed() && #[trigger] call_ensures(
                PortableUdpProfile::begin_transmit::<SLOTS, BUFFER_SIZE, I>,
                (profile, queue, now),
                step,
            ) ==> {
                let before = queue.contents();
                let after = final(queue).contents();
                let slot = before.ready[0];
                let metadata = before.slots[slot].metadata->0;
                let rest = before.ready.subrange(1, before.ready.len() as int);
                let early = now < metadata.send_not_before_micros;
                let possible = asks_for_nothing_more(*profile, metadata)
                    && (metadata.destination.address is V6 || metadata.destination.scope_id == 0);
                &&& before.ready.len() == 0 ==> after == before && (step matches Ok(
                    PortableTransmitStep::Done(outcome),
                ) && outcome is Idle)
                &&& before.ready.len() > 0 && early ==> {
                    &&& step matches Ok(PortableTransmitStep::Done(outcome))
                    &&& outcome matches PortableTransmitOutcome::NotReady {
                        send_not_before_micros,
                    }
                    &&& send_not_before_micros == metadata.send_not_before_micros
                    &&& after.slots == before.slots
                    &&& after.ready == rest.push(slot)
                    &&& after.free == before.free
                }
                &&& before.ready.len() > 0 && !early && possible ==> {
                    &&& step matches Ok(PortableTransmitStep::Send { datagram, destination })
                    &&& datagram.slot() == slot
                    &&& datagram.generation() == before.slots[slot].generation
                    &&& destination == metadata.destination
                    &&& changes_hands(before, after, slot, SlotState::Held)
                    &&& after.ready == rest
                }
                &&& before.ready.len() > 0 && !early && !possible ==> {
                    &&& step is Err && step->Err_0 is UnsupportedTransmit
                    &&& after.slots[slot].state is Free
                    &&& after.slots[slot].metadata is None
                    &&& forall|i: int|
                        0 <= i < before.slots[slot].length ==> #[trigger] after.slots[slot].bytes[i]
                            == 0
                    &&& after.ready == rest
                    &&& forall|i: int|
                        0 <= i < before.slots.len() && i != slot ==> #[trigger] after.slots[i]
                            == before.slots[i]
                }
            },
{
    assert forall|queue: &mut TransmitQueue<SLOTS, BUFFER_SIZE, SocketTransmitMetadata>|
        queue.well_formed() && #[trigger] call_ensures(
            PortableUdpProfile::begin_transmit::<SLOTS, BUFFER_SIZE, I>,
            (profile, queue, now),
            step,
        ) && queue.contents().ready.len() > 0 implies {
        let before = queue.contents();
        let slot = before.ready[0];
        &&& 0 <= slot < before.slots.len()
        &&& before.slots[slot].state is Ready
        &&& before.popped().requeued(slot).slots == before.slots
    } by {
        let before = queue.contents();
        assert(before.popped().requeued(before.ready[0]).slots =~= before.slots);
    }
}

/// What comes of a send. A whole datagram that was sent is wiped, one that was sent in part or
/// failed is wiped and reported, one that would block goes behind the others, and an interrupted
/// one is tried again.
pub proof fn lemma_sent_datagrams<const SLOTS: usize, const BUFFER_SIZE: usize, I>(
    datagram: TransmitDatagram,
    destination: ScopedEndpoint,
    event: PortableTransmitEvent<I>,
    step: Result<PortableTransmitStep, PortableUdpError<I>>,
)
    ensures
        forall|queue: &mut TransmitQueue<SLOTS, BUFFER_SIZE, SocketTransmitMetadata>|
            queue.well_formed() && #[trigger] call_ensures(
                finish_transmit::<SLOTS, BUFFER_SIZE, I>,
                (queue, datagram, destination, event),
                step,
            ) ==> {
                let before = queue.contents();
                let after = final(queue).contents();
                let slot = datagram.slot();
                let owned = is_in(before, slot, datagram.generation(), SlotState::Held);
                let used = before.slots[slot].length;
                &&& event is Interrupted ==> after == before && (step matches Ok(
                    PortableTransmitStep::Send { datagram: again, destination: target },
                ) && again == datagram && target == destination)
                &&& !(event is Interrupted) && !owned ==> after == before && step is Err
                &&& owned ==> (event matches PortableTransmitEvent::Sent { length } ==> {
                    &&& is_freed(before, after, slot, used)
                    &&& length == used ==> (step matches Ok(PortableTransmitStep::Done(outcome))
                        && (outcome matches PortableTransmitOutcome::Sent { bytes } && bytes
                        == length))
                    &&& length != used ==> step is Err && step->Err_0 is PartialSend
                })
                &&& owned && event is WouldBlock ==> changes_hands(
                    before,
                    after,
                    slot,
                    SlotState::Ready,
                ) && after.ready == before.ready.push(slot) && (step matches Ok(
                    PortableTransmitStep::Done(outcome),
                ) && outcome is WouldBlock)
                &&& owned ==> (event matches PortableTransmitEvent::Failed(error) ==> is_freed(
                    before,
                    after,
                    slot,
                    used,
                ) && step == Err::<PortableTransmitStep, PortableUdpError<I>>(
                    PortableUdpError::Io(error),
                ))
            },
{
    assert forall|queue: &mut TransmitQueue<SLOTS, BUFFER_SIZE, SocketTransmitMetadata>|
        queue.well_formed() && #[trigger] call_ensures(
            finish_transmit::<SLOTS, BUFFER_SIZE, I>,
            (queue, datagram, destination, event),
            step,
        ) && is_in(
            queue.contents(),
            datagram.slot(),
            datagram.generation(),
            SlotState::Held,
        ) implies {
        let before = queue.contents();
        let slot = datagram.slot();
        is_freed(
            before,
            before.released(slot, before.slots[slot].length),
            slot,
            before.slots[slot].length,
        )
    } by {
        let before = queue.contents();
        lemma_freed(before, datagram.slot(), before.slots[datagram.slot()].length);
    }
}

} // verus!
