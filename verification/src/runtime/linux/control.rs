//! Ancillary settings of one batched send.

use vstd::prelude::*;

use crate::runtime::socket::ScopedEndpoint;
use crate::runtime::IpAddress;
use crate::text::fixed;

verus! {

/// IP control-message family shared by one batched submission.
#[derive(Clone, Copy, Debug, PartialEq, Eq, Structural)]
pub enum IpVersion {
    V4,
    V6,
}

/// The family of an address.
pub open spec fn family_of(address: IpAddress) -> IpVersion {
    match address {
        IpAddress::V4(_) => IpVersion::V4,
        IpAddress::V6(_) => IpVersion::V6,
    }
}

/// Returns the family of an address.
pub fn address_family(address: &IpAddress) -> (family: IpVersion)
    ensures
        family == family_of(*address),
{
    match address {
        IpAddress::V4(_) => IpVersion::V4,
        IpAddress::V6(_) => IpVersion::V6,
    }
}

/// Ancillary settings shared by every datagram in one submission.
#[derive(Clone, Copy, Debug, PartialEq, Eq)]
pub struct SendControl {
    pub family: IpVersion,
    pub source: Option<IpAddress>,
    pub interface_index: Option<u32>,
    /// Low two ECN bits. `None` omits the per-datagram traffic-class message.
    pub ecn: Option<u8>,
    pub gso_segment_size: Option<u16>,
}

/// Invalid input of one batched submission.
#[derive(Clone, Copy, Debug, PartialEq, Eq, Structural)]
pub enum SendInputError {
    EcnExceedsTwoBits,
    ZeroSegmentSize,
    SourceFamilyMismatch,
    DestinationFamilyMismatch,
    EmptyPayload,
    InterfaceIndexTooLarge,
}

impl SendInputError {
    /// The diagnostic text of a failure.
    pub open spec fn message_text(self) -> Seq<char> {
        match self {
            SendInputError::EcnExceedsTwoBits => "ECN value exceeds two bits"@,
            SendInputError::ZeroSegmentSize => "UDP GSO segment size is zero"@,
            SendInputError::SourceFamilyMismatch => "source and control families differ"@,
            SendInputError::DestinationFamilyMismatch =>
            "destination and control families differ"@,
            SendInputError::EmptyPayload => "sendmmsg payload is empty"@,
            SendInputError::InterfaceIndexTooLarge => "IPv4 interface index exceeds c_int"@,
        }
    }

    /// Returns the diagnostic text of this failure.
    pub fn message(&self) -> (text: String)
        ensures
            text@ == self.message_text(),
    {
        match *self {
            SendInputError::EcnExceedsTwoBits => fixed("ECN value exceeds two bits"),
            SendInputError::ZeroSegmentSize => fixed("UDP GSO segment size is zero"),
            SendInputError::SourceFamilyMismatch => fixed("source and control families differ"),
            SendInputError::DestinationFamilyMismatch => fixed(
                "destination and control families differ",
            ),
            SendInputError::EmptyPayload => fixed("sendmmsg payload is empty"),
            SendInputError::InterfaceIndexTooLarge => fixed("IPv4 interface index exceeds c_int"),
        }
    }
}

/// The failure of ancillary settings, if any: the checks in order.
pub open spec fn control_failure(control: SendControl) -> Option<SendInputError> {
    if control.ecn is Some && control.ecn->0 > 3 {
        Some(SendInputError::EcnExceedsTwoBits)
    } else if control.gso_segment_size == Some(0u16) {
        Some(SendInputError::ZeroSegmentSize)
    } else if control.source is Some && family_of(control.source->0) != control.family {
        Some(SendInputError::SourceFamilyMismatch)
    } else {
        None
    }
}

/// Checks ancillary settings.
///
/// # Errors
///
/// Returns an error for an ECN value above two bits, a zero segment size, or a source of another
/// family.
pub fn validate_control(control: SendControl) -> (outcome: Result<(), SendInputError>)
    ensures
        outcome == match control_failure(control) {
            Some(error) => Err::<(), SendInputError>(error),
            None => Ok(()),
        },
{
    match control.ecn {
        Some(ecn) => {
            if ecn > 3 {
                return Err(SendInputError::EcnExceedsTwoBits);
            }
        },
        None => {},
    }
    match control.gso_segment_size {
        Some(size) => {
            if size == 0 {
                return Err(SendInputError::ZeroSegmentSize);
            }
        },
        None => {},
    }
    match control.source {
        Some(source) => {
            if address_family(&source) != control.family {
                return Err(SendInputError::SourceFamilyMismatch);
            }
        },
        None => {},
    }
    Ok(())
}

/// Checks that a destination belongs to a family.
///
/// # Errors
///
/// Returns an error for a destination of another family.
pub fn validate_destination(destination: ScopedEndpoint, family: IpVersion) -> (outcome: Result<
    (),
    SendInputError,
>)
    ensures
        outcome == if family_of(destination.address) == family {
            Ok::<(), SendInputError>(())
        } else {
            Err(SendInputError::DestinationFamilyMismatch)
        },
{
    if address_family(&destination.address) != family {
        return Err(SendInputError::DestinationFamilyMismatch);
    }
    Ok(())
}

/// One ancillary message of a submission.
#[derive(Clone, Copy, Debug, PartialEq, Eq)]
#[allow(inconsistent_fields)]
pub enum ControlValue {
    Ipv4PacketInfo { source: [u8; 4], interface_index: i32 },
    Ipv6PacketInfo { source: [u8; 16], interface_index: u32 },
    Ipv4Tos(u8),
    Ipv6TrafficClass(i32),
    UdpSegment(u16),
}

/// The source address that IPv4 packet information names; all zero leaves it to the socket.
pub open spec fn ipv4_source(source: Option<IpAddress>) -> Seq<u8> {
    match source {
        Some(IpAddress::V4(address)) => address@,
        _ => crate::bytes::zeroes(4),
    }
}

/// The source address that IPv6 packet information names; all zero leaves it to the socket.
pub open spec fn ipv6_source(source: Option<IpAddress>) -> Seq<u8> {
    match source {
        Some(IpAddress::V6(address)) => address@,
        _ => crate::bytes::zeroes(16),
    }
}

/// The interface that packet information names; zero leaves it to the socket.
pub open spec fn interface_of(control: SendControl) -> u32 {
    match control.interface_index {
        Some(index) => index,
        None => 0,
    }
}

/// Whether settings ask for packet information.
pub open spec fn wants_packet_info(control: SendControl) -> bool {
    control.source is Some || control.interface_index is Some
}

/// Whether a message is the packet information that settings ask for.
pub open spec fn is_packet_info(control: SendControl, value: ControlValue) -> bool {
    match value {
        ControlValue::Ipv4PacketInfo { source, interface_index } => {
            &&& control.family == IpVersion::V4
            &&& source@ == ipv4_source(control.source)
            &&& interface_index == interface_of(control)
        },
        ControlValue::Ipv6PacketInfo { source, interface_index } => {
            &&& control.family == IpVersion::V6
            &&& source@ == ipv6_source(control.source)
            &&& interface_index == interface_of(control)
        },
        _ => false,
    }
}

/// The messages after the packet information.
pub open spec fn later_values(control: SendControl) -> Seq<ControlValue> {
    let ecn = match control.ecn {
        Some(ecn) => seq![
            match control.family {
                IpVersion::V4 => ControlValue::Ipv4Tos(ecn),
                IpVersion::V6 => ControlValue::Ipv6TrafficClass(ecn as i32),
            },
        ],
        None => Seq::empty(),
    };
    let segment = match control.gso_segment_size {
        Some(size) => seq![ControlValue::UdpSegment(size)],
        None => Seq::empty(),
    };
    ecn + segment
}

/// The failure of writing the ancillary messages of settings, if any.
pub open spec fn values_failure(control: SendControl) -> Option<SendInputError> {
    if wants_packet_info(control) && control.family == IpVersion::V4 && interface_of(control)
        > i32::MAX {
        Some(SendInputError::InterfaceIndexTooLarge)
    } else {
        None
    }
}

/// Whether a list is the ancillary messages of settings.
pub open spec fn are_values_of(control: SendControl, values: Seq<ControlValue>) -> bool {
    if wants_packet_info(control) {
        &&& values.len() > 0
        &&& is_packet_info(control, values[0])
        &&& values.skip(1) == later_values(control)
    } else {
        values == later_values(control)
    }
}

/// Lists the ancillary messages that settings ask for, in the order in which they are written.
///
/// # Errors
///
/// Returns an error for an IPv4 interface index that does not fit its field.
pub fn control_values(control: SendControl) -> (values: Result<Vec<ControlValue>, SendInputError>)
    ensures
        match values_failure(control) {
            Some(error) => values == Err::<Vec<ControlValue>, SendInputError>(error),
            None => values matches Ok(values) && are_values_of(control, values@),
        },
{
    let mut values: Vec<ControlValue> = Vec::new();
    let packet_info: bool = control.source.is_some() || control.interface_index.is_some();
    if packet_info {
        let interface_index: u32 = match control.interface_index {
            Some(index) => index,
            None => 0,
        };
        match control.family {
            IpVersion::V4 => {
                let source: [u8; 4] = match control.source {
                    Some(IpAddress::V4(address)) => address,
                    _ => [0u8; 4],
                };
                if interface_index > i32::MAX as u32 {
                    return Err(SendInputError::InterfaceIndexTooLarge);
                }
                assert(source@ =~= ipv4_source(control.source));
                values.push(
                    ControlValue::Ipv4PacketInfo { source, interface_index: interface_index as i32 },
                );
            },
            IpVersion::V6 => {
                let source: [u8; 16] = match control.source {
                    Some(IpAddress::V6(address)) => address,
                    _ => [0u8; 16],
                };
                assert(source@ =~= ipv6_source(control.source));
                values.push(ControlValue::Ipv6PacketInfo { source, interface_index });
            },
        }
    }
    let ghost information = values@;
    match control.ecn {
        Some(ecn) => match control.family {
            IpVersion::V4 => {
                values.push(ControlValue::Ipv4Tos(ecn));
            },
            IpVersion::V6 => {
                values.push(ControlValue::Ipv6TrafficClass(ecn as i32));
            },
        },
        None => {},
    }
    match control.gso_segment_size {
        Some(size) => {
            values.push(ControlValue::UdpSegment(size));
        },
        None => {},
    }
    assert(values@ =~= information + later_values(control));
    proof {
        if packet_info {
            assert(values@.skip(1) =~= later_values(control));
        }
    }
    Ok(values)
}

/// The failure of the first payloads and destinations of a submission, if any.
pub open spec fn batch_failure(
    lengths: Seq<usize>,
    destinations: Seq<ScopedEndpoint>,
    family: IpVersion,
    checked: nat,
) -> Option<SendInputError>
    decreases checked,
{
    if checked == 0 {
        None
    } else {
        let earlier = batch_failure(lengths, destinations, family, (checked - 1) as nat);
        let last = checked - 1;
        if earlier is Some {
            earlier
        } else if lengths[last] == 0 {
            Some(SendInputError::EmptyPayload)
        } else if family_of(destinations[last].address) != family {
            Some(SendInputError::DestinationFamilyMismatch)
        } else {
            None
        }
    }
}

/// Checks a whole submission and lists the ancillary messages that it carries.
///
/// # Errors
///
/// Returns an error for inconsistent families, empty payloads, invalid ECN/GSO values, or an IPv4
/// interface index that does not fit its field.
pub fn prepare_send(
    payload_lengths: &[usize],
    destinations: &[ScopedEndpoint],
    control: SendControl,
) -> (values: Result<Vec<ControlValue>, SendInputError>)
    requires
        payload_lengths@.len() == destinations@.len(),
    ensures
        ({
            let failure = if control_failure(control) is Some {
                control_failure(control)
            } else if values_failure(control) is Some {
                values_failure(control)
            } else {
                batch_failure(
                    payload_lengths@,
                    destinations@,
                    control.family,
                    payload_lengths@.len(),
                )
            };
            match failure {
                Some(error) => values == Err::<Vec<ControlValue>, SendInputError>(error),
                None => values matches Ok(values) && are_values_of(control, values@),
            }
        }),
{
    match validate_control(control) {
        Ok(()) => {},
        Err(error) => {
            return Err(error);
        },
    }
    let values: Vec<ControlValue> = match control_values(control) {
        Ok(values) => values,
        Err(error) => {
            return Err(error);
        },
    };
    let mut position: usize = 0;
    while position < payload_lengths.len()
        invariant
            position <= payload_lengths@.len(),
            payload_lengths@.len() == destinations@.len(),
            control_failure(control) is None,
            values_failure(control) is None,
            are_values_of(control, values@),
            batch_failure(
                payload_lengths@,
                destinations@,
                control.family,
                position as nat,
            ) is None,
        decreases payload_lengths@.len() - position,
    {
        let failure: Option<SendInputError> = if payload_lengths[position] == 0 {
            Some(SendInputError::EmptyPayload)
        } else {
            match validate_destination(destinations[position], control.family) {
                Ok(()) => None,
                Err(error) => Some(error),
            }
        };
        assert(batch_failure(
            payload_lengths@,
            destinations@,
            control.family,
            (position + 1) as nat,
        ) == failure);
        match failure {
            Some(error) => {
                proof {
                    lemma_failure_stands(
                        payload_lengths@,
                        destinations@,
                        control.family,
                        (position + 1) as nat,
                        payload_lengths@.len(),
                    );
                }
                return Err(error);
            },
            None => {},
        }
        position = position + 1;
    }
    Ok(values)
}

proof fn lemma_failure_stands(
    lengths: Seq<usize>,
    destinations: Seq<ScopedEndpoint>,
    family: IpVersion,
    checked: nat,
    more: nat,
)
    requires
        batch_failure(lengths, destinations, family, checked) is Some,
        checked <= more,
    ensures
        batch_failure(lengths, destinations, family, more) == batch_failure(
            lengths,
            destinations,
            family,
            checked,
        ),
    decreases more,
{
    if checked < more {
        lemma_failure_stands(lengths, destinations, family, checked, (more - 1) as nat);
    }
}

/// Synchronous kernel result for one fixed batch.
#[derive(Clone, Copy, Debug, PartialEq, Eq)]
pub struct SendBatchResult<const BATCH: usize> {
    sent: usize,
    lengths: [usize; BATCH],
}

impl<const BATCH: usize> SendBatchResult<BATCH> {
    #[verifier::type_invariant]
    closed spec fn accepts_a_prefix(self) -> bool {
        self.sent <= BATCH
    }

    /// The accepted prefix length.
    pub closed spec fn accepted(self) -> nat {
        self.sent as nat
    }

    /// The accepted byte counts.
    pub closed spec fn byte_counts(self) -> Seq<usize> {
        self.lengths@
    }

    /// Takes over what the kernel reported of a batch: byte counts behind the accepted prefix are
    /// replaced by zeroes. A prefix longer than the batch gives nothing.
    pub fn from_kernel(sent: usize, reported: &[usize; BATCH]) -> (result: Option<
        SendBatchResult<BATCH>,
    >)
        ensures
            match result {
                Some(result) => {
                    &&& sent <= BATCH
                    &&& result.accepted() == sent
                    &&& result.byte_counts() == Seq::new(
                        BATCH as nat,
                        |i: int|
                            if i < sent {
                                reported@[i]
                            } else {
                                0usize
                            },
                    )
                },
                None => sent > BATCH,
            },
    {
        if sent > BATCH {
            return None;
        }
        let mut lengths: [usize; BATCH] = [0usize; BATCH];
        let mut i: usize = 0;
        while i < sent
            invariant
                i <= sent <= BATCH,
                forall|k: int| 0 <= k < i ==> lengths@[k] == reported@[k],
                forall|k: int| i <= k < BATCH ==> lengths@[k] == 0,
            decreases sent - i,
        {
            lengths[i] = reported[i];
            i = i + 1;
        }
        assert(lengths@ =~= Seq::new(
            BATCH as nat,
            |i: int|
                if i < sent {
                    reported@[i]
                } else {
                    0usize
                },
        ));
        Some(SendBatchResult { sent, lengths })
    }

    /// Returns the accepted prefix length.
    pub fn sent(&self) -> (sent: usize)
        ensures
            sent == self.accepted(),
            sent <= BATCH,
    {
        proof {
            use_type_invariant(self);
        }
        self.sent
    }

    /// Returns accepted byte counts followed by zeroes for unsubmitted slots.
    pub fn lengths(&self) -> (lengths: &[usize; BATCH])
        ensures
            lengths@ == self.byte_counts(),
    {
        &self.lengths
    }
}

} // verus!
