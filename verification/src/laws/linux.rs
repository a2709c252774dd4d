//! Laws of the Linux socket profile: control messages, in and out.

use vstd::prelude::*;

use crate::ecn::EcnCodepoint;
use crate::runtime::linux::control::{
    control_values, prepare_send, validate_control, validate_destination, ControlValue, IpVersion,
    SendBatchResult, SendControl, SendInputError,
};
use crate::runtime::linux::receive::{
    gathers, parse_receive_message, timestamp_to_unix_nanos, AncillaryData, ReceiveContext,
    ReceiveRecord, ReceivedControl, ReceivedMessage,
};
use crate::runtime::linux::{
    ecn_from_bits, ecn_to_bits, LinuxUdpConfig, LinuxUdpError, LinuxUdpFeature, LinuxUdpProfile,
};
use crate::runtime::socket::{ScopedEndpoint, UdpCapability};
use crate::runtime::IpAddress;

verus! {

/// A profile takes datagrams of 1 to 65,527 bytes. Packet information gives it both ends and the
/// interface of a datagram, ECN gives it marks in both directions, and the other features one
/// capability each. A socket that is bound to one address knows its destination in any case, system
/// calls are always batched, and no completion is deferred.
pub proof fn lemma_capabilities_follow_the_features<I>(
    socket_id: u16,
    local: ScopedEndpoint,
    exact: bool,
    maximum: usize,
    config: LinuxUdpConfig,
    profile: Result<LinuxUdpProfile, LinuxUdpError<I>>,
)
    requires
        call_ensures(
            LinuxUdpProfile::new::<I>,
            (socket_id, local, exact, maximum, config),
            profile,
        ),
    ensures
        profile is Ok <==> 1 <= maximum && maximum <= 65_527,
        profile matches Ok(profile) ==> {
            let given = profile.capabilities;
            let info = config.has(LinuxUdpFeature::PacketInfo);
            let ecn = config.has(LinuxUdpFeature::Ecn);
            &&& profile.socket_id == socket_id
            &&& profile.local_endpoint == local
            &&& profile.exact_local_endpoint == exact
            &&& profile.maximum_datagram_size == maximum
            &&& given.has(UdpCapability::ExactReceiveDestination) == (info || exact)
            &&& given.has(UdpCapability::ReceiveInterface) == info
            &&& given.has(UdpCapability::SourceSelection) == info
            &&& given.has(UdpCapability::TransmitInterface) == info
            &&& given.has(UdpCapability::ReceiveEcn) == ecn
            &&& given.has(UdpCapability::TransmitEcn) == ecn
            &&& given.has(UdpCapability::KernelReceiveTimestamp) == config.has(
                LinuxUdpFeature::ReceiveKernelTimestamp,
            )
            &&& given.has(UdpCapability::ReceiveDropCounter) == config.has(
                LinuxUdpFeature::ReceiveDropCounter,
            )
            &&& given.has(UdpCapability::UdpGro) == config.has(LinuxUdpFeature::UdpGro)
            &&& given.has(UdpCapability::UdpGso) == config.has(LinuxUdpFeature::UdpGso)
            &&& given.has(UdpCapability::BatchedSyscalls)
            &&& !given.has(UdpCapability::DeferredCompletion)
        },
{
}

/// The two bits of a mark: ECT(1) is the low one, ECT(0) the high one, and CE is both.
pub open spec fn mark_bits(ecn: EcnCodepoint) -> int {
    match ecn {
        EcnCodepoint::NotEct => 0,
        EcnCodepoint::Ect1 => 1,
        EcnCodepoint::Ect0 => 2,
        EcnCodepoint::Ce => 3,
    }
}

/// A mark is written as its two bits, and read from the low two bits of a byte.
pub proof fn lemma_marks_are_two_bits(ecn: EcnCodepoint, bits: u8, value: u8, read: EcnCodepoint)
    requires
        call_ensures(ecn_to_bits, (ecn,), bits),
        call_ensures(ecn_from_bits, (value,), read),
    ensures
        bits == mark_bits(ecn),
        mark_bits(read) == value % 4,
        value == bits ==> read == ecn,
{
}

/// A timestamp counts nanoseconds, if neither part is negative, the second one is below a second,
/// and the count fits.
pub proof fn lemma_timestamps_count_nanoseconds(
    seconds: i64,
    nanoseconds: i64,
    nanos: Option<u64>,
)
    requires
        call_ensures(timestamp_to_unix_nanos, (seconds, nanoseconds), nanos),
    ensures
        nanos is Some <==> seconds >= 0 && 0 <= nanoseconds < 1_000_000_000 && seconds
            * 1_000_000_000 + nanoseconds <= u64::MAX,
        nanos matches Some(nanos) ==> nanos == seconds * 1_000_000_000 + nanoseconds,
{
}

/// Whether what is known of a datagram agrees with one control message.
pub open spec fn agrees(control: ReceivedControl, local_port: u16, data: AncillaryData) -> bool {
    match control {
        ReceivedControl::Ipv4PacketInfo { address, interface_index } => {
            &&& data.destination == Some(
                ScopedEndpoint { address: IpAddress::V4(address), port: local_port, scope_id: 0 },
            )
            &&& interface_index > 0 ==> data.interface_index == Some(interface_index as u32)
        },
        ReceivedControl::Ipv6PacketInfo { address, interface_index } => {
            &&& data.destination == Some(
                ScopedEndpoint {
                    address: IpAddress::V6(address),
                    port: local_port,
                    scope_id: interface_index,
                },
            )
            &&& interface_index > 0 ==> data.interface_index == Some(interface_index)
        },
        ReceivedControl::Ipv4Tos(value) => data.ecn is Some && mark_bits(data.ecn->0) == value % 4,
        ReceivedControl::Ipv6TrafficClass(value) => data.ecn is Some && mark_bits(data.ecn->0)
            == value % 4,
        ReceivedControl::Timestamp { seconds, nanoseconds } => {
            &&& seconds >= 0
            &&& 0 <= nanoseconds < 1_000_000_000
            &&& data.kernel_timestamp_unix_nanos is Some
            &&& data.kernel_timestamp_unix_nanos->0 == seconds * 1_000_000_000 + nanoseconds
        },
        ReceivedControl::DropCount(count) => data.socket_drop_count == Some(count),
        ReceivedControl::GroSegmentSize(size) => 0 < size && data.gro_segment_size is Some
            && data.gro_segment_size->0.number() == size,
        ReceivedControl::Other => true,
    }
}

/// Whether a control message says something of a field: the destination, the interface, the mark,
/// the timestamp, the drop count or the segment size.
pub open spec fn speaks_of_destination(control: ReceivedControl) -> bool {
    control is Ipv4PacketInfo || control is Ipv6PacketInfo
}

/// Whether a control message carries a mark.
pub open spec fn speaks_of_ecn(control: ReceivedControl) -> bool {
    control is Ipv4Tos || control is Ipv6TrafficClass
}

/// What is gathered from control messages without a conflict agrees with every one of them, and
/// holds nothing that none of them says.
pub proof fn lemma_gathered_data_agrees(
    controls: Seq<ReceivedControl>,
    local_port: u16,
    data: AncillaryData,
)
    requires
        gathers(controls, local_port, data),
        !data.conflict,
    ensures
        forall|i: int|
            0 <= i < controls.len() ==> agrees(#[trigger] controls[i], local_port, data),
        data.destination is Some ==> exists|i: int|
            0 <= i < controls.len() && speaks_of_destination(#[trigger] controls[i]),
        data.interface_index is Some ==> exists|i: int|
            0 <= i < controls.len() && speaks_of_destination(#[trigger] controls[i]),
        data.ecn is Some ==> exists|i: int|
            0 <= i < controls.len() && speaks_of_ecn(#[trigger] controls[i]),
        data.kernel_timestamp_unix_nanos is Some ==> exists|i: int|
            0 <= i < controls.len() && (#[trigger] controls[i]) is Timestamp,
        data.socket_drop_count is Some ==> exists|i: int|
            0 <= i < controls.len() && (#[trigger] controls[i]) is DropCount,
        data.gro_segment_size is Some ==> exists|i: int|
            0 <= i < controls.len() && (#[trigger] controls[i]) is GroSegmentSize,
    decreases controls.len(),
{
    if controls.len() > 0 {
        let earlier = controls.drop_last();
        let last = controls.len() - 1;
        let before = choose|before: AncillaryData|
            gathers(earlier, local_port, before) && #[trigger] before.becomes(
                controls.last(),
                local_port,
                data,
            );
        lemma_gathered_data_agrees(earlier, local_port, before);
        assert forall|i: int| 0 <= i < controls.len() implies agrees(
            #[trigger] controls[i],
            local_port,
            data,
        ) by {
            if i < last {
                assert(earlier[i] == controls[i]);
                assert(agrees(earlier[i], local_port, before));
            }
        }
        assert forall|i: int| 0 <= i < earlier.len() implies #[trigger] earlier[i]
            == controls[i] by {}
        assert(controls[last] == controls.last());
        if before.destination is Some {
            let i = choose|i: int|
                0 <= i < earlier.len() && speaks_of_destination(#[trigger] earlier[i]);
            assert(speaks_of_destination(controls[i]));
        }
        if before.interface_index is Some {
            let i = choose|i: int|
                0 <= i < earlier.len() && speaks_of_destination(#[trigger] earlier[i]);
            assert(speaks_of_destination(controls[i]));
        }
        if before.ecn is Some {
            let i = choose|i: int| 0 <= i < earlier.len() && speaks_of_ecn(#[trigger] earlier[i]);
            assert(speaks_of_ecn(controls[i]));
        }
        if before.kernel_timestamp_unix_nanos is Some {
            let i = choose|i: int| 0 <= i < earlier.len() && (#[trigger] earlier[i]) is Timestamp;
            assert(controls[i] is Timestamp);
        }
        if before.socket_drop_count is Some {
            let i = choose|i: int| 0 <= i < earlier.len() && (#[trigger] earlier[i]) is DropCount;
            assert(controls[i] is DropCount);
        }
        if before.gro_segment_size is Some {
            let i = choose|i: int|
                0 <= i < earlier.len() && (#[trigger] earlier[i]) is GroSegmentSize;
            assert(controls[i] is GroSegmentSize);
        }
    }
}

/// A control message that agrees with what is known adds what it says and raises no conflict, and
/// one that contradicts it raises one.
pub proof fn lemma_control_messages_are_gathered(control: &ReceivedControl, local_port: u16)
    ensures
        forall|data: &mut AncillaryData| #[trigger]
            call_ensures(
                AncillaryData::apply_control_message,
                (data, control, local_port),
                (),
            ) ==> {
                let before = *data;
                let after = *final(data);
                &&& before.conflict ==> after.conflict
                &&& !after.conflict ==> agrees(*control, local_port, after)
                &&& after.conflict && !before.conflict ==> !agrees(*control, local_port, after)
                &&& before.destination is Some ==> after.destination == before.destination
                &&& before.interface_index is Some ==> after.interface_index
                    == before.interface_index
                &&& before.ecn is Some ==> after.ecn == before.ecn
                &&& before.kernel_timestamp_unix_nanos is Some
                    ==> after.kernel_timestamp_unix_nanos == before.kernel_timestamp_unix_nanos
                &&& before.socket_drop_count is Some ==> after.socket_drop_count
                    == before.socket_drop_count
                &&& before.gro_segment_size is Some ==> after.gro_segment_size
                    == before.gro_segment_size
            },
{
}

/// An accepted datagram arrived whole, in a buffer that holds it and from a known source. What is
/// known of it agrees with every control message that came with it. Its segments, or the datagram
/// itself, are no larger than the configured size.
pub proof fn lemma_accepted_datagrams_agree_with_their_controls(
    message: &ReceivedMessage,
    context: ReceiveContext,
    record: ReceiveRecord,
)
    requires
        call_ensures(parse_receive_message, (message, context), record),
    ensures
        record is Accepted || record is Dropped,
        record matches ReceiveRecord::Accepted { length, metadata } ==> {
            &&& 0 < message.bytes <= context.buffer_size
            &&& !message.truncated
            &&& message.source == Some(metadata.source)
            &&& message.controls is Some
            &&& length == message.bytes
            &&& metadata.socket_id == context.socket_id
            &&& metadata.received_at_micros == context.now_micros
            &&& metadata.gro_segment_size is None ==> length <= context.maximum_datagram_size
            &&& metadata.gro_segment_size is Some ==> metadata.gro_segment_size->0.number()
                <= context.maximum_datagram_size && metadata.gro_segment_size->0.number() <= length
            &&& exists|data: AncillaryData| #[trigger]
                gathers(message.controls->0@, context.local_endpoint.port, data) && {
                    &&& !data.conflict
                    &&& forall|i: int|
                        0 <= i < message.controls->0@.len() ==> agrees(
                            #[trigger] message.controls->0@[i],
                            context.local_endpoint.port,
                            data,
                        )
                    &&& metadata.interface_index == data.interface_index
                    &&& metadata.ecn == data.ecn
                    &&& metadata.kernel_timestamp_unix_nanos == data.kernel_timestamp_unix_nanos
                    &&& metadata.socket_drop_count == data.socket_drop_count
                    &&& metadata.gro_segment_size == data.gro_segment_size
                    &&& data.destination is Some ==> metadata.destination == data.destination
                    &&& data.destination is None && context.exact_local_endpoint
                        ==> metadata.destination == Some(context.local_endpoint)
                    &&& data.destination is None && !context.exact_local_endpoint
                        ==> metadata.destination is None
                }
        },
        record is Dropped && 0 < message.bytes <= context.buffer_size && !message.truncated
            && message.source is Some && message.controls is Some ==> exists|data: AncillaryData|
            #[trigger] gathers(message.controls->0@, context.local_endpoint.port, data) && {
                let size = match data.gro_segment_size {
                    Some(size) => size.number() as int,
                    None => message.bytes as int,
                };
                data.conflict || size > context.maximum_datagram_size || size > message.bytes
            },
{
    if record is Accepted {
        let data = choose|data: AncillaryData| #[trigger]
            gathers(message.controls->0@, context.local_endpoint.port, data)
                && !crate::runtime::linux::receive::is_refused(message.bytes, data, context)
                && record == (ReceiveRecord::Accepted {
                length: message.bytes,
                metadata: crate::runtime::linux::receive::accepted_metadata(
                    message.source->0,
                    data,
                    context,
                ),
            });
        lemma_gathered_data_agrees(message.controls->0@, context.local_endpoint.port, data);
    }
}

/// What may be asked of a send: a mark of two bits, segments that are not empty, and addresses of
/// one family.
pub proof fn lemma_send_controls_are_checked(
    control: SendControl,
    outcome: Result<(), SendInputError>,
    destination: ScopedEndpoint,
    family: IpVersion,
    reachable: Result<(), SendInputError>,
)
    requires
        call_ensures(validate_control, (control,), outcome),
        call_ensures(validate_destination, (destination, family), reachable),
    ensures
        outcome is Ok <==> acceptable(control),
        outcome matches Err(error) ==> {
            let marked = control.ecn is Some ==> control.ecn->0 < 4;
            let sized = control.gso_segment_size is Some ==> control.gso_segment_size->0 > 0;
            &&& error is EcnExceedsTwoBits <==> !marked
            &&& error is ZeroSegmentSize <==> marked && !sized
            &&& error is SourceFamilyMismatch <==> marked && sized
        },
        reachable is Ok <==> same_family(destination.address, family),
        reachable matches Err(error) ==> error is DestinationFamilyMismatch,
{
}

/// Whether an address is of a family.
pub open spec fn same_family(address: IpAddress, family: IpVersion) -> bool {
    address is V4 <==> family is V4
}

/// Whether what a send asks for can be asked for.
pub open spec fn acceptable(control: SendControl) -> bool {
    &&& control.ecn is Some ==> control.ecn->0 < 4
    &&& control.gso_segment_size is Some ==> control.gso_segment_size->0 > 0
    &&& control.source is Some ==> same_family(control.source->0, control.family)
}

/// Whether control values carry what a send asks for: the source or the interface in packet
/// information of its family, then the mark, then the segment size. What is not asked for takes no
/// value, but an unset half of the packet information is zero.
pub open spec fn carries(control: SendControl, values: Seq<ControlValue>) -> bool {
    let placed = control.source is Some || control.interface_index is Some;
    let interface = match control.interface_index {
        Some(index) => index as int,
        None => 0,
    };
    let at_ecn = if placed {
        1int
    } else {
        0
    };
    let at_gso = at_ecn + if control.ecn is Some {
        1int
    } else {
        0
    };
    let end = at_gso + if control.gso_segment_size is Some {
        1int
    } else {
        0
    };
    &&& values.len() == end
    &&& placed ==> match values[0] {
        ControlValue::Ipv4PacketInfo { source, interface_index } => {
            &&& control.family is V4
            &&& interface_index == interface
            &&& control.source is None ==> forall|i: int| 0 <= i < 4 ==> #[trigger] source@[i] == 0
            &&& control.source matches Some(IpAddress::V4(address)) ==> source@ == address@
        },
        ControlValue::Ipv6PacketInfo { source, interface_index } => {
            &&& control.family is V6
            &&& interface_index == interface
            &&& control.source is None ==> forall|i: int|
                0 <= i < 16 ==> #[trigger] source@[i] == 0
            &&& control.source matches Some(IpAddress::V6(address)) ==> source@ == address@
        },
        _ => false,
    }
    &&& control.ecn is Some ==> match values[at_ecn] {
        ControlValue::Ipv4Tos(mark) => control.family is V4 && mark == control.ecn->0,
        ControlValue::Ipv6TrafficClass(mark) => control.family is V6 && mark == control.ecn->0,
        _ => false,
    }
    &&& control.gso_segment_size is Some ==> match values[at_gso] {
        ControlValue::UdpSegment(size) => size == control.gso_segment_size->0,
        _ => false,
    }
}

proof fn lemma_carries(control: SendControl, values: Seq<ControlValue>)
    requires
        crate::runtime::linux::control::are_values_of(control, values),
    ensures
        carries(control, values),
{
    let later = crate::runtime::linux::control::later_values(control);
    if control.source is Some || control.interface_index is Some {
        assert(values.len() == later.len() + 1);
        assert forall|i: int| 0 <= i < later.len() implies values[i + 1] == #[trigger] later[i] by {
            assert(values.skip(1)[i] == values[i + 1]);
        }
        if control.ecn is Some {
            assert(values[1] == later[0]);
            if control.gso_segment_size is Some {
                assert(values[2] == later[1]);
            }
        } else if control.gso_segment_size is Some {
            assert(values[1] == later[0]);
        }
    }
}

/// Control values carry what a send asks for. Only an IPv4 interface beyond the range of its field
/// cannot be carried.
pub proof fn lemma_control_values_carry_the_request(
    control: SendControl,
    values: Result<Vec<ControlValue>, SendInputError>,
)
    requires
        call_ensures(control_values, (control,), values),
    ensures
        values is Err <==> control.family is V4 && control.interface_index is Some
            && control.interface_index->0 > 0x7fff_ffff,
        values matches Err(error) ==> error is InterfaceIndexTooLarge,
        values matches Ok(values) ==> carries(control, values@),
{
    if values is Ok {
        lemma_carries(control, values->Ok_0@);
    }
}

/// A batch is sent only if it can be asked for, no payload is empty, and every destination is of
/// the family.
pub proof fn lemma_prepared_sends_are_checked(
    lengths: &[usize],
    destinations: &[ScopedEndpoint],
    control: SendControl,
    values: Result<Vec<ControlValue>, SendInputError>,
)
    requires
        lengths@.len() == destinations@.len(),
        call_ensures(prepare_send, (lengths, destinations, control), values),
    ensures
        values is Ok <==> {
            &&& acceptable(control)
            &&& !(control.family is V4 && control.interface_index is Some
                && control.interface_index->0 > 0x7fff_ffff)
            &&& forall|i: int| 0 <= i < lengths@.len() ==> #[trigger] lengths@[i] > 0
            &&& forall|i: int|
                0 <= i < destinations@.len() ==> same_family(
                    (#[trigger] destinations@[i]).address,
                    control.family,
                )
        },
        values matches Ok(values) ==> carries(control, values@),
{
    lemma_batch_checked(lengths@, destinations@, control.family, lengths@.len());
    if values is Ok {
        lemma_carries(control, values->Ok_0@);
    }
}

proof fn lemma_batch_checked(
    lengths: Seq<usize>,
    destinations: Seq<ScopedEndpoint>,
    family: IpVersion,
    checked: nat,
)
    requires
        checked <= lengths.len(),
        lengths.len() == destinations.len(),
    ensures
        crate::runtime::linux::control::batch_failure(
            lengths,
            destinations,
            family,
            checked,
        ) is None <==> {
            &&& forall|i: int| 0 <= i < checked ==> #[trigger] lengths[i] > 0
            &&& forall|i: int|
                0 <= i < checked ==> same_family((#[trigger] destinations[i]).address, family)
        },
    decreases checked,
{
    if checked > 0 {
        lemma_batch_checked(lengths, destinations, family, (checked - 1) as nat);
    }
}

/// What the kernel reports of a batch is taken for the datagrams that it accepted, and for no more
/// than the batch holds.
pub proof fn lemma_reports_cover_the_accepted_prefix<const BATCH: usize>(
    sent: usize,
    reported: &[usize; BATCH],
    result: Option<SendBatchResult<BATCH>>,
)
    requires
        call_ensures(SendBatchResult::<BATCH>::from_kernel, (sent, reported), result),
    ensures
        result is Some <==> sent <= BATCH,
        result matches Some(result) ==> {
            &&& result.accepted() == sent
            &&& result.byte_counts().len() == BATCH
            &&& forall|i: int|
                0 <= i < sent ==> #[trigger] result.byte_counts()[i] == reported@[i]
            &&& forall|i: int| sent <= i < BATCH ==> #[trigger] result.byte_counts()[i] == 0
        },
{
}

} // verus!
