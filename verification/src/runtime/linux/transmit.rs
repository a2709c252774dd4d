//! Decisions of one batched transmit.

use vstd::prelude::*;

use crate::ecn::EcnCodepoint;
use crate::runtime::linux::control::{address_family, family_of, IpVersion, SendControl};
use crate::runtime::linux::{
    ecn_bits, ecn_to_bits, LinuxTransmitBatchOutcome, LinuxTransmitRejection, LinuxUdpError,
    LinuxUdpProfile, MAX_LINUX_GSO_SEGMENTS,
};
use crate::runtime::pool::{PoolView, SlotState};
use crate::runtime::socket::{
    endpoints_equal, ScopedEndpoint, SocketTransmitMetadata, UdpCapability,
};
use crate::runtime::{
    IpAddress, NonZeroU16, RuntimeQueueError, TransmitDatagram, TransmitQueue,
};

verus! {

/// What a batched send depends on of one datagram.
#[derive(Clone, Copy)]
pub struct TransmitSubmission {
    pub metadata: SocketTransmitMetadata,
    pub length: usize,
}

/// A batch that is ready for the kernel.
pub struct PreparedTransmitBatch {
    pub destinations: Vec<ScopedEndpoint>,
    pub expected_lengths: Vec<usize>,
    pub control: SendControl,
}

/// What preparing a batch has found.
pub enum PreparedTransmit {
    Ready(PreparedTransmitBatch),
    NotReady { send_not_before_micros: u64 },
}

/// The failure of an endpoint that cannot be addressed, if any.
pub open spec fn endpoint_rejection(endpoint: ScopedEndpoint) -> Option<LinuxTransmitRejection> {
    if endpoint.port == 0 {
        Some(LinuxTransmitRejection::ZeroDestinationPort)
    } else if endpoint.address is V4 && endpoint.scope_id != 0 {
        Some(LinuxTransmitRejection::InvalidIpv4Scope)
    } else {
        None
    }
}

/// Checks that an endpoint can be addressed.
///
/// # Errors
///
/// Returns an error for a zero port, or an IPv4 address with a scope.
pub fn validate_endpoint(endpoint: ScopedEndpoint) -> (outcome: Result<(), LinuxTransmitRejection>)
    ensures
        outcome == match endpoint_rejection(endpoint) {
            Some(rejection) => Err::<(), LinuxTransmitRejection>(rejection),
            None => Ok(()),
        },
{
    if endpoint.port == 0 {
        return Err(LinuxTransmitRejection::ZeroDestinationPort);
    }
    match endpoint.address {
        IpAddress::V4(_) => {
            if endpoint.scope_id != 0 {
                return Err(LinuxTransmitRejection::InvalidIpv4Scope);
            }
            Ok(())
        },
        IpAddress::V6(_) => Ok(()),
    }
}

/// The reason to reject a payload's length or segment size, if any.
pub open spec fn shape_rejection(
    length: usize,
    segment_size: Option<NonZeroU16>,
    maximum_datagram_size: usize,
) -> Option<LinuxTransmitRejection> {
    match segment_size {
        None => if length <= maximum_datagram_size {
            None
        } else {
            Some(
                LinuxTransmitRejection::DatagramTooLarge { length, maximum: maximum_datagram_size },
            )
        },
        Some(size) => if size.number() > maximum_datagram_size || size.number() > length {
            Some(
                LinuxTransmitRejection::InvalidGsoSegment { size: size.number() as usize, length },
            )
        } else if crate::arith::ceil_div(length as int, size.number() as int)
            > MAX_LINUX_GSO_SEGMENTS {
            Some(
                LinuxTransmitRejection::TooManyGsoSegments {
                    segments: crate::arith::ceil_div(
                        length as int,
                        size.number() as int,
                    ) as usize,
                    maximum: MAX_LINUX_GSO_SEGMENTS,
                },
            )
        } else {
            None
        },
    }
}

/// Checks a payload's length and segment size against the datagram and aggregate limits.
///
/// # Errors
///
/// Returns the limit that is exceeded.
pub fn validate_transmit_shape(
    length: usize,
    segment_size: Option<NonZeroU16>,
    maximum_datagram_size: usize,
) -> (outcome: Result<(), LinuxTransmitRejection>)
    ensures
        outcome == match shape_rejection(length, segment_size, maximum_datagram_size) {
            Some(rejection) => Err::<(), LinuxTransmitRejection>(rejection),
            None => Ok(()),
        },
{
    let size: usize = match segment_size {
        Some(size) => size.get() as usize,
        None => {
            return if length <= maximum_datagram_size {
                Ok(())
            } else {
                Err(
                    LinuxTransmitRejection::DatagramTooLarge {
                        length,
                        maximum: maximum_datagram_size,
                    },
                )
            };
        },
    };
    if size > maximum_datagram_size || size > length {
        return Err(LinuxTransmitRejection::InvalidGsoSegment { size, length });
    }
    let segments: usize = segment_count(length, size);
    if segments > MAX_LINUX_GSO_SEGMENTS {
        return Err(
            LinuxTransmitRejection::TooManyGsoSegments {
                segments,
                maximum: MAX_LINUX_GSO_SEGMENTS,
            },
        );
    }
    Ok(())
}

fn segment_count(length: usize, size: usize) -> (segments: usize)
    requires
        0 < size <= length,
    ensures
        segments == crate::arith::ceil_div(length as int, size as int),
{
    let whole: usize = length / size;
    let rest: usize = length % size;
    proof {
        let l = length as int;
        let s = size as int;
        vstd::arithmetic::div_mod::lemma_fundamental_div_mod(l, s);
        let w = l / s;
        let r = l % s;
        if r != 0 {
            assert(w < l) by (nonlinear_arith)
                requires
                    l == s * w + r,
                    0 < r < s,
                    w >= 0,
            ;
        }
    }
    if rest == 0 {
        whole
    } else {
        whole + 1
    }
}

/// Whether the scope of an IPv6 destination and a requested interface differ.
pub open spec fn scope_conflicts(endpoint: ScopedEndpoint, interface_index: Option<u32>) -> bool {
    endpoint.address is V6 && endpoint.scope_id != 0 && interface_index is Some
        && interface_index->0 != endpoint.scope_id
}

/// Checks the scope of a destination against a requested interface.
///
/// # Errors
///
/// Returns an error if both are given and differ.
pub fn validate_destination_scope(destination: ScopedEndpoint, interface_index: Option<u32>) -> (
    outcome: Result<(), LinuxTransmitRejection>)
    ensures
        outcome == if scope_conflicts(destination, interface_index) {
            Err::<(), LinuxTransmitRejection>(LinuxTransmitRejection::InterfaceScopeConflict)
        } else {
            Ok(())
        },
{
    match destination.address {
        IpAddress::V6(_) => {
            if destination.scope_id != 0 {
                match interface_index {
                    Some(index) => {
                        if index != destination.scope_id {
                            return Err(LinuxTransmitRejection::InterfaceScopeConflict);
                        }
                    },
                    None => {},
                }
            }
            Ok(())
        },
        IpAddress::V4(_) => Ok(()),
    }
}

/// The reason to reject the metadata of a datagram that cannot share a batch, if any.
pub open spec fn batch_mate_rejection(
    metadata: SocketTransmitMetadata,
    first: SocketTransmitMetadata,
    socket_id: u16,
) -> Option<LinuxTransmitRejection> {
    if metadata.socket_id != socket_id {
        Some(
            LinuxTransmitRejection::WrongSocket {
                expected: socket_id,
                actual: metadata.socket_id,
            },
        )
    } else if metadata.source != first.source || metadata.interface_index != first.interface_index
        || metadata.ecn != first.ecn || metadata.gso_segment_size != first.gso_segment_size {
        Some(LinuxTransmitRejection::HeterogeneousBatch)
    } else {
        None
    }
}

/// Checks that a datagram can share a batch with the first one.
///
/// # Errors
///
/// Returns an error for another socket, or other ancillary metadata.
pub fn validate_homogeneous_metadata(
    metadata: SocketTransmitMetadata,
    first: SocketTransmitMetadata,
    socket_id: u16,
) -> (outcome: Result<(), LinuxTransmitRejection>)
    ensures
        outcome == match batch_mate_rejection(metadata, first, socket_id) {
            Some(rejection) => Err::<(), LinuxTransmitRejection>(rejection),
            None => Ok(()),
        },
{
    if metadata.socket_id != socket_id {
        return Err(
            LinuxTransmitRejection::WrongSocket {
                expected: socket_id,
                actual: metadata.socket_id,
            },
        );
    }
    let same_source: bool = match (metadata.source, first.source) {
        (Some(left), Some(right)) => endpoints_equal(&left, &right),
        (None, None) => true,
        _ => false,
    };
    let same_interface: bool = match (metadata.interface_index, first.interface_index) {
        (Some(left), Some(right)) => left == right,
        (None, None) => true,
        _ => false,
    };
    let same_segments: bool = match (metadata.gso_segment_size, first.gso_segment_size) {
        (Some(left), Some(right)) => left == right,
        (None, None) => true,
        _ => false,
    };
    if !same_source || !same_interface || metadata.ecn != first.ecn || !same_segments {
        return Err(LinuxTransmitRejection::HeterogeneousBatch);
    }
    Ok(())
}

impl LinuxUdpProfile {
    /// The interface that a datagram is to leave by: its own, or the scope of its source.
    pub open spec fn wanted_interface(self, metadata: SocketTransmitMetadata) -> Option<u32> {
        match metadata.source {
            Some(source) => if source.address is V6 && source.scope_id != 0 {
                Some(source.scope_id)
            } else {
                metadata.interface_index
            },
            None => metadata.interface_index,
        }
    }

    /// The source address that has to be asked for, if any.
    pub open spec fn wanted_source(self, metadata: SocketTransmitMetadata) -> Option<IpAddress> {
        match metadata.source {
            Some(source) => if source != self.local_endpoint {
                Some(source.address)
            } else {
                None
            },
            None => None,
        }
    }

    /// The reason to reject a datagram's source or interface, if any: the checks in order.
    pub open spec fn source_rejection(
        self,
        metadata: SocketTransmitMetadata,
        family: IpVersion,
    ) -> Option<LinuxTransmitRejection> {
        let source = metadata.source->0;
        if metadata.source is Some && source.port != self.local_endpoint.port {
            Some(
                LinuxTransmitRejection::SourcePortMismatch {
                    expected: self.local_endpoint.port,
                    actual: source.port,
                },
            )
        } else if metadata.source is Some && endpoint_rejection(source) is Some {
            endpoint_rejection(source)
        } else if metadata.source is Some && family_of(source.address) != family {
            Some(LinuxTransmitRejection::AddressFamilyMismatch)
        } else if metadata.source is Some && scope_conflicts(source, metadata.interface_index) {
            Some(LinuxTransmitRejection::InterfaceScopeConflict)
        } else if self.wanted_source(metadata) is Some && !self.capabilities.has(
            UdpCapability::SourceSelection,
        ) {
            Some(LinuxTransmitRejection::SourceSelectionUnavailable)
        } else if self.wanted_interface(metadata) is Some && !self.capabilities.has(
            UdpCapability::TransmitInterface,
        ) {
            Some(LinuxTransmitRejection::InterfaceSelectionUnavailable)
        } else {
            None
        }
    }

    /// Works out which source and interface have to be asked for.
    ///
    /// # Errors
    ///
    /// Returns an error for a source or interface that the socket cannot provide.
    pub fn prepare_source_control(
        &self,
        metadata: SocketTransmitMetadata,
        family: IpVersion,
    ) -> (prepared: Result<(Option<IpAddress>, Option<u32>), LinuxTransmitRejection>)
        ensures
            match self.source_rejection(metadata, family) {
                Some(rejection) => prepared == Err::<
                    (Option<IpAddress>, Option<u32>),
                    LinuxTransmitRejection,
                >(rejection),
                None => prepared == Ok::<(Option<IpAddress>, Option<u32>), LinuxTransmitRejection>(
                    (self.wanted_source(metadata), self.wanted_interface(metadata)),
                ),
            },
    {
        let mut interface_index: Option<u32> = metadata.interface_index;
        let mut control_source: Option<IpAddress> = None;
        match metadata.source {
            Some(source) => {
                if source.port != self.local_endpoint.port {
                    return Err(
                        LinuxTransmitRejection::SourcePortMismatch {
                            expected: self.local_endpoint.port,
                            actual: source.port,
                        },
                    );
                }
                match validate_endpoint(source) {
                    Ok(()) => {},
                    Err(rejection) => {
                        return Err(rejection);
                    },
                }
                if address_family(&source.address) != family {
                    return Err(LinuxTransmitRejection::AddressFamilyMismatch);
                }
                match validate_destination_scope(source, interface_index) {
                    Ok(()) => {},
                    Err(rejection) => {
                        return Err(rejection);
                    },
                }
                match source.address {
                    IpAddress::V6(_) => {
                        if source.scope_id != 0 {
                            interface_index = Some(source.scope_id);
                        }
                    },
                    IpAddress::V4(_) => {},
                }
                if !endpoints_equal(&source, &self.local_endpoint) {
                    if !self.capabilities.contains(UdpCapability::SourceSelection) {
                        return Err(LinuxTransmitRejection::SourceSelectionUnavailable);
                    }
                    control_source = Some(source.address);
                }
            },
            None => {},
        }
        if interface_index.is_some() && !self.capabilities.contains(
            UdpCapability::TransmitInterface,
        ) {
            return Err(LinuxTransmitRejection::InterfaceSelectionUnavailable);
        }
        Ok((control_source, interface_index))
    }

    /// The reason to reject the settings that a whole batch shares, if any: the checks in order.
    pub open spec fn profile_rejection(self, first: SocketTransmitMetadata) -> Option<
        LinuxTransmitRejection,
    > {
        let family = family_of(first.destination.address);
        if endpoint_rejection(first.destination) is Some {
            endpoint_rejection(first.destination)
        } else if family != family_of(self.local_endpoint.address) {
            Some(LinuxTransmitRejection::AddressFamilyMismatch)
        } else if self.source_rejection(first, family) is Some {
            self.source_rejection(first, family)
        } else if first.ecn != EcnCodepoint::NotEct && !self.capabilities.has(
            UdpCapability::TransmitEcn,
        ) {
            Some(LinuxTransmitRejection::EcnUnavailable)
        } else if first.gso_segment_size is Some && !self.capabilities.has(UdpCapability::UdpGso) {
            Some(LinuxTransmitRejection::GsoUnavailable)
        } else {
            None
        }
    }

    /// The reason to reject one datagram of a batch, if any: the checks in order.
    pub open spec fn item_rejection(
        self,
        first: SocketTransmitMetadata,
        item: TransmitSubmission,
    ) -> Option<LinuxTransmitRejection> {
        let metadata = item.metadata;
        if batch_mate_rejection(metadata, first, self.socket_id) is Some {
            batch_mate_rejection(metadata, first, self.socket_id)
        } else if endpoint_rejection(metadata.destination) is Some {
            endpoint_rejection(metadata.destination)
        } else if family_of(metadata.destination.address) != family_of(
            first.destination.address,
        ) {
            Some(LinuxTransmitRejection::AddressFamilyMismatch)
        } else if scope_conflicts(metadata.destination, self.wanted_interface(first)) {
            Some(LinuxTransmitRejection::InterfaceScopeConflict)
        } else {
            shape_rejection(item.length, metadata.gso_segment_size, self.maximum_datagram_size)
        }
    }

    /// The first reason to reject one of the first datagrams of a batch, if any.
    pub open spec fn items_rejection(
        self,
        items: Seq<TransmitSubmission>,
        count: nat,
    ) -> Option<LinuxTransmitRejection>
        decreases count,
    {
        if count == 0 {
            None
        } else {
            let earlier = self.items_rejection(items, (count - 1) as nat);
            if earlier is Some {
                earlier
            } else {
                self.item_rejection(items[0].metadata, items[count - 1])
            }
        }
    }

    /// The reason to reject a batch, if any.
    pub open spec fn batch_rejection(self, items: Seq<TransmitSubmission>) -> Option<
        LinuxTransmitRejection,
    > {
        if self.profile_rejection(items[0].metadata) is Some {
            self.profile_rejection(items[0].metadata)
        } else {
            self.items_rejection(items, items.len())
        }
    }

    /// The ancillary settings of a batch.
    pub open spec fn batch_control(self, first: SocketTransmitMetadata) -> SendControl {
        SendControl {
            family: family_of(first.destination.address),
            source: self.wanted_source(first),
            interface_index: self.wanted_interface(first),
            ecn: if self.capabilities.has(UdpCapability::TransmitEcn) {
                Some(ecn_bits(first.ecn))
            } else {
                None
            },
            gso_segment_size: match first.gso_segment_size {
                Some(size) => Some(size.number()),
                None => None,
            },
        }
    }

    proof fn lemma_rejection_stands(
        self,
        items: Seq<TransmitSubmission>,
        count: nat,
        more: nat,
    )
        requires
            self.items_rejection(items, count) is Some,
            count <= more,
        ensures
            self.items_rejection(items, more) == self.items_rejection(items, count),
        decreases more,
    {
        if count < more {
            self.lemma_rejection_stands(items, count, (more - 1) as nat);
        }
    }

    /// Prepares a batch for the kernel.
    ///
    /// # Errors
    ///
    /// Returns the first reason to reject the batch.
    pub fn prepare_transmit_batch(&self, items: &[TransmitSubmission], now_micros: u64) -> (
        prepared: Result<PreparedTransmit, LinuxTransmitRejection>)
        requires
            items@.len() > 0,
        ensures
            match self.batch_rejection(items@) {
                Some(rejection) => prepared == Err::<PreparedTransmit, LinuxTransmitRejection>(
                    rejection,
                ),
                None => match earliest_future(items@, now_micros, items@.len()) {
                    Some(deadline) => prepared == Ok::<PreparedTransmit, LinuxTransmitRejection>(
                        PreparedTransmit::NotReady { send_not_before_micros: deadline },
                    ),
                    None => {
                        &&& prepared matches Ok(PreparedTransmit::Ready(batch))
                        &&& batch.destinations@ == Seq::new(
                            items@.len(),
                            |i: int| items@[i].metadata.destination,
                        )
                        &&& batch.expected_lengths@ == Seq::new(
                            items@.len(),
                            |i: int| items@[i].length,
                        )
                        &&& batch.control == self.batch_control(items@[0].metadata)
                    },
                },
            },
    {
        let first: SocketTransmitMetadata = items[0].metadata;
        match validate_endpoint(first.destination) {
            Ok(()) => {},
            Err(rejection) => {
                return Err(rejection);
            },
        }
        let family = address_family(&first.destination.address);
        if family != address_family(&self.local_endpoint.address) {
            return Err(LinuxTransmitRejection::AddressFamilyMismatch);
        }
        let (source, interface_index) = match self.prepare_source_control(first, family) {
            Ok(prepared) => prepared,
            Err(rejection) => {
                return Err(rejection);
            },
        };
        let ecn: Option<u8> = if self.capabilities.contains(UdpCapability::TransmitEcn) {
            Some(ecn_to_bits(first.ecn))
        } else if first.ecn == EcnCodepoint::NotEct {
            None
        } else {
            return Err(LinuxTransmitRejection::EcnUnavailable);
        };
        if first.gso_segment_size.is_some() && !self.capabilities.contains(UdpCapability::UdpGso) {
            return Err(LinuxTransmitRejection::GsoUnavailable);
        }
        let gso_segment_size: Option<u16> = match first.gso_segment_size {
            Some(size) => Some(size.get()),
            None => None,
        };
        let mut destinations: Vec<ScopedEndpoint> = Vec::new();
        let mut expected_lengths: Vec<usize> = Vec::new();
        let mut future_deadline: Option<u64> = None;
        let mut position: usize = 0;
        while position < items.len()
            invariant
                position <= items@.len(),
                items@.len() > 0,
                first == items@[0].metadata,
                family == family_of(first.destination.address),
                interface_index == self.wanted_interface(first),
                self.profile_rejection(first) is None,
                self.items_rejection(items@, position as nat) is None,
                destinations@.len() == position,
                expected_lengths@.len() == position,
                forall|i: int|
                    0 <= i < position ==> #[trigger] destinations@[i]
                        == items@[i].metadata.destination,
                forall|i: int|
                    0 <= i < position ==> #[trigger] expected_lengths@[i] == items@[i].length,
                future_deadline == earliest_future(items@, now_micros, position as nat),
            decreases items@.len() - position,
        {
            let item: TransmitSubmission = items[position];
            match self.check_item(first, family, interface_index, item) {
                Ok(()) => {},
                Err(rejection) => {
                    proof {
                        assert(self.items_rejection(items@, (position + 1) as nat) == Some(
                            rejection,
                        ));
                        self.lemma_rejection_stands(
                            items@,
                            (position + 1) as nat,
                            items@.len(),
                        );
                    }
                    return Err(rejection);
                },
            }
            let deadline: u64 = item.metadata.send_not_before_micros;
            if deadline > now_micros {
                future_deadline = match future_deadline {
                    Some(earlier) => if earlier < deadline {
                        Some(earlier)
                    } else {
                        Some(deadline)
                    },
                    None => Some(deadline),
                };
            }
            destinations.push(item.metadata.destination);
            expected_lengths.push(item.length);
            position = position + 1;
        }
        match future_deadline {
            Some(deadline) => Ok(PreparedTransmit::NotReady { send_not_before_micros: deadline }),
            None => {
                proof {
                    assert(destinations@ =~= Seq::new(
                        items@.len(),
                        |i: int| items@[i].metadata.destination,
                    ));
                    assert(expected_lengths@ =~= Seq::new(
                        items@.len(),
                        |i: int| items@[i].length,
                    ));
                }
                Ok(
                    PreparedTransmit::Ready(
                        PreparedTransmitBatch {
                            destinations,
                            expected_lengths,
                            control: SendControl {
                                family,
                                source,
                                interface_index,
                                ecn,
                                gso_segment_size,
                            },
                        },
                    ),
                )
            },
        }
    }

    fn check_item(
        &self,
        first: SocketTransmitMetadata,
        family: IpVersion,
        interface_index: Option<u32>,
        item: TransmitSubmission,
    ) -> (outcome: Result<(), LinuxTransmitRejection>)
        requires
            family == family_of(first.destination.address),
            interface_index == self.wanted_interface(first),
        ensures
            outcome == match self.item_rejection(first, item) {
                Some(rejection) => Err::<(), LinuxTransmitRejection>(rejection),
                None => Ok(()),
            },
    {
        match validate_homogeneous_metadata(item.metadata, first, self.socket_id) {
            Ok(()) => {},
            Err(rejection) => {
                return Err(rejection);
            },
        }
        match validate_endpoint(item.metadata.destination) {
            Ok(()) => {},
            Err(rejection) => {
                return Err(rejection);
            },
        }
        if address_family(&item.metadata.destination.address) != family {
            return Err(LinuxTransmitRejection::AddressFamilyMismatch);
        }
        match validate_destination_scope(item.metadata.destination, interface_index) {
            Ok(()) => {},
            Err(rejection) => {
                return Err(rejection);
            },
        }
        validate_transmit_shape(
            item.length,
            item.metadata.gso_segment_size,
            self.maximum_datagram_size,
        )
    }
}

/// The earliest pacing deadline of the first datagrams that lies in the future, if any.
pub open spec fn earliest_future(
    items: Seq<TransmitSubmission>,
    now_micros: u64,
    count: nat,
) -> Option<u64>
    decreases count,
{
    if count == 0 {
        None
    } else {
        let earlier = earliest_future(items, now_micros, (count - 1) as nat);
        let deadline = items[count - 1].metadata.send_not_before_micros;
        if deadline <= now_micros {
            earlier
        } else if earlier is Some && earlier->0 < deadline {
            earlier
        } else {
            Some(deadline)
        }
    }
}

/// No batch is sent before its time: a deadline is reported exactly if some datagram's deadline
/// lies in the future, and then it is the earliest of those.
pub proof fn lemma_pacing_is_honoured(items: Seq<TransmitSubmission>, now_micros: u64, count: nat)
    requires
        count <= items.len(),
    ensures
        match earliest_future(items, now_micros, count) {
            Some(deadline) => {
                &&& deadline > now_micros
                &&& exists|i: int|
                    0 <= i < count && #[trigger] items[i].metadata.send_not_before_micros
                        == deadline
                &&& forall|i: int|
                    0 <= i < count && #[trigger] items[i].metadata.send_not_before_micros
                        > now_micros ==> deadline <= items[i].metadata.send_not_before_micros
            },
            None => forall|i: int|
                0 <= i < count ==> #[trigger] items[i].metadata.send_not_before_micros
                    <= now_micros,
        },
    decreases count,
{
    if count > 0 {
        lemma_pacing_is_honoured(items, now_micros, (count - 1) as nat);
        let last = items[count - 1].metadata.send_not_before_micros;
        assert(items[count - 1].metadata.send_not_before_micros == last);
    }
}

/// The pool after one datagram of a batch has been completed or requeued.
pub open spec fn settled(
    pool: PoolView<SocketTransmitMetadata>,
    slot: int,
    generation: u32,
    completed: bool,
) -> PoolView<SocketTransmitMetadata> {
    if !pool.owns(slot, generation, SlotState::Held) {
        pool
    } else if completed {
        pool.released(slot, pool.slots[slot].length)
    } else {
        pool.requeued(slot)
    }
}

/// The pool after the first datagrams of a batch have been settled: those of a prefix are
/// completed, the others requeued.
pub open spec fn settled_all(
    pool: PoolView<SocketTransmitMetadata>,
    datagrams: Seq<TransmitDatagram>,
    completed: nat,
    count: nat,
) -> PoolView<SocketTransmitMetadata>
    decreases count,
{
    if count == 0 {
        pool
    } else {
        let last = count - 1;
        settled(
            settled_all(pool, datagrams, completed, last as nat),
            datagrams[last].slot(),
            datagrams[last].generation(),
            last < completed,
        )
    }
}

/// Whether every one of the first datagrams of a batch is owned when its turn comes.
pub open spec fn all_owned(
    pool: PoolView<SocketTransmitMetadata>,
    datagrams: Seq<TransmitDatagram>,
    completed: nat,
    count: nat,
) -> bool
    decreases count,
{
    if count == 0 {
        true
    } else {
        let last = count - 1;
        all_owned(pool, datagrams, completed, last as nat) && settled_all(
            pool,
            datagrams,
            completed,
            last as nat,
        ).owns(datagrams[last].slot(), datagrams[last].generation(), SlotState::Held)
    }
}

/// Completes a prefix of a batch and requeues the rest, in order. Returns the first queue failure.
pub fn resolve_transmit_datagrams<const SLOTS: usize, const BUFFER_SIZE: usize>(
    queue: &mut TransmitQueue<SLOTS, BUFFER_SIZE, SocketTransmitMetadata>,
    datagrams: Vec<TransmitDatagram>,
    completed: usize,
) -> (first_error: Option<RuntimeQueueError>)
    requires
        old(queue).well_formed(),
    ensures
        final(queue).well_formed(),
        final(queue).contents() == settled_all(
            old(queue).contents(),
            datagrams@,
            completed as nat,
            datagrams@.len(),
        ),
        first_error == if all_owned(
            old(queue).contents(),
            datagrams@,
            completed as nat,
            datagrams@.len(),
        ) {
            None
        } else {
            Some(RuntimeQueueError::InvalidOwnership)
        },
{
    let ghost all = datagrams@;
    let mut first_error: Option<RuntimeQueueError> = None;
    let mut waiting: Vec<TransmitDatagram> = datagrams;
    let total: usize = waiting.len();
    let mut position: usize = 0;
    assert(waiting@ =~= all.skip(0));
    while position < total
        invariant
            position <= total,
            total == all.len(),
            waiting@ == all.skip(position as int),
            queue.well_formed(),
            queue.contents() == settled_all(
                old(queue).contents(),
                all,
                completed as nat,
                position as nat,
            ),
            first_error == if all_owned(
                old(queue).contents(),
                all,
                completed as nat,
                position as nat,
            ) {
                None
            } else {
                Some(RuntimeQueueError::InvalidOwnership)
            },
        decreases total - position,
    {
        let datagram: TransmitDatagram = waiting.remove(0);
        assert(datagram == all[position as int]);
        assert(waiting@ =~= all.skip(position + 1));
        let result: Result<(), RuntimeQueueError> = if position < completed {
            queue.complete(datagram)
        } else {
            queue.requeue(datagram)
        };
        if first_error.is_none() {
            match result {
                Ok(()) => {},
                Err(error) => {
                    first_error = Some(error);
                },
            }
        }
        position = position + 1;
    }
    first_error
}

/// What one batched transmit asks for next.
pub enum LinuxTransmitStep {
    /// The attempt is over.
    Done(LinuxTransmitBatchOutcome),
    /// Submit the datagrams with one system call.
    Submit { datagrams: Vec<TransmitDatagram>, batch: PreparedTransmitBatch },
}

/// The pool after ready datagrams have been handed out one after the other.
pub open spec fn popped_times(
    pool: PoolView<SocketTransmitMetadata>,
    count: nat,
) -> PoolView<SocketTransmitMetadata>
    decreases count,
{
    if count == 0 {
        pool
    } else {
        popped_times(pool, (count - 1) as nat).popped()
    }
}

/// What a batched send depends on of the first ready datagrams.
pub open spec fn ready_items(pool: PoolView<SocketTransmitMetadata>, count: nat) -> Seq<
    TransmitSubmission,
> {
    Seq::new(
        count,
        |i: int|
            TransmitSubmission {
                metadata: pool.slots[pool.ready[i]].metadata->0,
                length: pool.slots[pool.ready[i]].length as usize,
            },
    )
}

/// Whether datagrams are those that stood first in a queue.
pub open spec fn are_first_ready(
    pool: PoolView<SocketTransmitMetadata>,
    after: PoolView<SocketTransmitMetadata>,
    datagrams: Seq<TransmitDatagram>,
) -> bool {
    forall|i: int|
        0 <= i < datagrams.len() ==> (#[trigger] datagrams[i]).slot() == pool.ready[i]
            && after.owns(datagrams[i].slot(), datagrams[i].generation(), SlotState::Held)
}

impl LinuxUdpProfile {
    /// Starts a transmit of exactly `batch` ready datagrams.
    ///
    /// One ancillary set applies to the complete multi-message call, so source, interface, ECN, GSO
    /// size, and address family must be homogeneous across the batch. Destinations and payload
    /// lengths may differ. Callers should group the ready queue by this profile before using the
    /// method. Pacing and metadata rejection requeue the whole batch.
    ///
    /// # Errors
    ///
    /// Returns a queue or metadata error after every popped datagram has been requeued.
    pub fn begin_transmit_batch<const SLOTS: usize, const BUFFER_SIZE: usize, I>(
        &self,
        queue: &mut TransmitQueue<SLOTS, BUFFER_SIZE, SocketTransmitMetadata>,
        batch: usize,
        now_micros: u64,
    ) -> (step: Result<LinuxTransmitStep, LinuxUdpError<I>>)
        requires
            old(queue).well_formed(),
        ensures
            final(queue).well_formed(),
            ({
                let before = old(queue).contents();
                let after = final(queue).contents();
                if batch == 0 || before.ready.len() == 0 {
                    &&& step matches Ok(LinuxTransmitStep::Done(LinuxTransmitBatchOutcome::Idle))
                    &&& after == before
                } else if before.ready.len() < batch {
                    &&& step matches Ok(LinuxTransmitStep::Done(outcome))
                    &&& outcome == LinuxTransmitBatchOutcome::IncompleteBatch {
                        ready_datagrams: before.ready.len() as usize,
                    }
                    &&& after == before
                } else {
                    let items = ready_items(before, batch as nat);
                    let popped = popped_times(before, batch as nat);
                    if self.batch_rejection(items) is Some {
                        &&& step == Err::<LinuxTransmitStep, LinuxUdpError<I>>(
                            LinuxUdpError::UnsupportedTransmit(self.batch_rejection(items)->0),
                        )
                        &&& exists|datagrams: Seq<TransmitDatagram>|
                            datagrams.len() == batch && #[trigger] are_first_ready(
                                before,
                                popped,
                                datagrams,
                            ) && after == settled_all(popped, datagrams, 0, batch as nat)
                    } else {
                        match earliest_future(items, now_micros, items.len()) {
                            Some(deadline) => {
                                &&& step matches Ok(LinuxTransmitStep::Done(outcome))
                                &&& outcome == LinuxTransmitBatchOutcome::NotReady {
                                    send_not_before_micros: deadline,
                                }
                                &&& exists|datagrams: Seq<TransmitDatagram>|
                                    datagrams.len() == batch && #[trigger] are_first_ready(
                                        before,
                                        popped,
                                        datagrams,
                                    ) && after == settled_all(popped, datagrams, 0, batch as nat)
                            },
                            None => {
                                &&& step matches Ok(
                                    LinuxTransmitStep::Submit { datagrams, batch: prepared },
                                )
                                &&& datagrams@.len() == batch
                                &&& are_first_ready(before, after, datagrams@)
                                &&& after == popped
                                &&& prepared.destinations@ == Seq::new(
                                    batch as nat,
                                    |i: int| items[i].metadata.destination,
                                )
                                &&& prepared.expected_lengths@ == Seq::new(
                                    batch as nat,
                                    |i: int| items[i].length,
                                )
                                &&& prepared.control == self.batch_control(items[0].metadata)
                            },
                        }
                    }
                }
            }),
    {
        if batch == 0 {
            return Ok(LinuxTransmitStep::Done(LinuxTransmitBatchOutcome::Idle));
        }
        let ready_datagrams: usize = queue.stats().ready;
        if ready_datagrams < batch {
            return if ready_datagrams == 0 {
                Ok(LinuxTransmitStep::Done(LinuxTransmitBatchOutcome::Idle))
            } else {
                Ok(
                    LinuxTransmitStep::Done(
                        LinuxTransmitBatchOutcome::IncompleteBatch { ready_datagrams },
                    ),
                )
            };
        }
        let ghost before = queue.contents();
        let mut datagrams: Vec<TransmitDatagram> = Vec::new();
        let mut items: Vec<TransmitSubmission> = Vec::new();
        while datagrams.len() < batch
            invariant
                datagrams@.len() <= batch <= before.ready.len(),
                items@.len() == datagrams@.len(),
                before == old(queue).contents(),
                before.well_formed(BUFFER_SIZE as nat),
                before.slots.len() == SLOTS,
                queue.well_formed(),
                queue.contents() == popped_times(before, datagrams@.len()),
                queue.contents().ready == before.ready.skip(datagrams@.len() as int),
                are_first_ready(before, queue.contents(), datagrams@),
                forall|i: int|
                    0 <= i < SLOTS ==> (#[trigger] queue.contents().slots[i]).metadata
                        == before.slots[i].metadata && queue.contents().slots[i].length
                        == before.slots[i].length,
                forall|i: int|
                    0 <= i < items@.len() ==> #[trigger] items@[i] == ready_items(
                        before,
                        batch as nat,
                    )[i],
            decreases batch - datagrams@.len(),
        {
            let ghost pool = queue.contents();
            let ghost taken = datagrams@.len() as int;
            let datagram: TransmitDatagram = match queue.pop() {
                Some(datagram) => datagram,
                None => {
                    return Err(LinuxUdpError::Queue(RuntimeQueueError::InvariantViolation));
                },
            };
            let submission: TransmitSubmission = match queue.view(&datagram) {
                Ok(view) => TransmitSubmission {
                    metadata: view.metadata(),
                    length: view.payload().len(),
                },
                Err(error) => {
                    return Err(LinuxUdpError::Queue(error));
                },
            };
            proof {
                let slot = before.ready[taken];
                assert(pool.ready[0] == slot);
                assert(queue.contents().ready =~= before.ready.skip(taken + 1));
                assert(pool.slots[slot].metadata == before.slots[slot].metadata);
                assert forall|i: int| 0 <= i < taken implies (#[trigger] datagrams@[i]).slot()
                    == before.ready[i] && queue.contents().owns(
                    datagrams@[i].slot(),
                    datagrams@[i].generation(),
                    SlotState::Held,
                ) by {
                    assert(before.ready[i] != before.ready[taken]);
                }
            }
            datagrams.push(datagram);
            items.push(submission);
        }
        proof {
            assert(items@ =~= ready_items(before, batch as nat));
        }
        match self.prepare_transmit_batch(items.as_slice(), now_micros) {
            Ok(PreparedTransmit::Ready(prepared)) => Ok(
                LinuxTransmitStep::Submit { datagrams, batch: prepared },
            ),
            Ok(PreparedTransmit::NotReady { send_not_before_micros }) => {
                proof {
                    lemma_requeue_owns_all(before, queue.contents(), datagrams@, batch as nat);
                }
                match resolve_transmit_datagrams(queue, datagrams, 0) {
                    Some(error) => Err(LinuxUdpError::Queue(error)),
                    None => Ok(
                        LinuxTransmitStep::Done(
                            LinuxTransmitBatchOutcome::NotReady { send_not_before_micros },
                        ),
                    ),
                }
            },
            Err(rejection) => {
                proof {
                    lemma_requeue_owns_all(before, queue.contents(), datagrams@, batch as nat);
                }
                match resolve_transmit_datagrams(queue, datagrams, 0) {
                    Some(error) => Err(LinuxUdpError::Queue(error)),
                    None => Err(LinuxUdpError::UnsupportedTransmit(rejection)),
                }
            },
        }
    }
}

/// Settling datagrams in different slots finds each one owned.
pub proof fn lemma_settling_owns_all(
    pool: PoolView<SocketTransmitMetadata>,
    datagrams: Seq<TransmitDatagram>,
    completed: nat,
    count: nat,
)
    requires
        count <= datagrams.len(),
        forall|i: int|
            0 <= i < datagrams.len() ==> pool.owns(
                (#[trigger] datagrams[i]).slot(),
                datagrams[i].generation(),
                SlotState::Held,
            ),
        forall|i: int, j: int|
            0 <= i < j < datagrams.len() ==> (#[trigger] datagrams[i]).slot() != (
            #[trigger] datagrams[j]).slot(),
    ensures
        all_owned(pool, datagrams, completed, count),
        settled_all(pool, datagrams, completed, count).slots.len() == pool.slots.len(),
        forall|i: int|
            count <= i < datagrams.len() ==> settled_all(pool, datagrams, completed, count).owns(
                (#[trigger] datagrams[i]).slot(),
                datagrams[i].generation(),
                SlotState::Held,
            ),
    decreases count,
{
    if count > 0 {
        lemma_settling_owns_all(pool, datagrams, completed, (count - 1) as nat);
        assert(datagrams[count - 1].slot() == datagrams[count - 1].slot());
    }
}

proof fn lemma_requeue_owns_all(
    before: PoolView<SocketTransmitMetadata>,
    popped: PoolView<SocketTransmitMetadata>,
    datagrams: Seq<TransmitDatagram>,
    count: nat,
)
    requires
        are_first_ready(before, popped, datagrams),
        datagrams.len() == count <= before.ready.len(),
        forall|k: int, l: int|
            0 <= k < l < before.ready.len() ==> #[trigger] before.ready[k]
                != #[trigger] before.ready[l],
    ensures
        all_owned(popped, datagrams, 0, count),
{
    assert forall|i: int, j: int| 0 <= i < j < datagrams.len() implies (
    #[trigger] datagrams[i]).slot() != (#[trigger] datagrams[j]).slot() by {
        assert(before.ready[i] != before.ready[j]);
    }
    lemma_settling_owns_all(popped, datagrams, 0, count);
}

/// What the kernel made of one batch.
pub enum LinuxTransmitEvent<'a, I> {
    /// A prefix was accepted, with these byte counts.
    Sent { sent: usize, lengths: &'a [usize] },
    WouldBlock,
    Failed(I),
}

/// Number of bytes of an accepted prefix.
pub open spec fn sent_bytes(lengths: Seq<usize>, sent: nat) -> nat
    decreases sent,
{
    if sent == 0 {
        0
    } else {
        sent_bytes(lengths, (sent - 1) as nat) + lengths[sent - 1] as nat
    }
}

/// Whether the kernel accepted whole datagrams only.
pub open spec fn lengths_agree(lengths: Seq<usize>, expected: Seq<usize>, sent: nat) -> bool {
    forall|i: int| 0 <= i < sent ==> #[trigger] lengths[i] == expected[i]
}

fn total_sent(lengths: &[usize], sent: usize) -> (total: Option<usize>)
    requires
        sent <= lengths@.len(),
    ensures
        match total {
            Some(total) => total == sent_bytes(lengths@, sent as nat),
            None => sent_bytes(lengths@, sent as nat) > usize::MAX,
        },
{
    let mut total: usize = 0;
    let mut i: usize = 0;
    while i < sent
        invariant
            i <= sent <= lengths@.len(),
            total == sent_bytes(lengths@, i as nat),
        decreases sent - i,
    {
        total =
        match total.checked_add(lengths[i]) {
            Some(total) => total,
            None => {
                proof {
                    lemma_sent_bytes_grow(lengths@, (i + 1) as nat, sent as nat);
                }
                return None;
            },
        };
        i = i + 1;
    }
    Some(total)
}

proof fn lemma_sent_bytes_grow(lengths: Seq<usize>, fewer: nat, more: nat)
    requires
        fewer <= more,
    ensures
        sent_bytes(lengths, fewer) <= sent_bytes(lengths, more),
    decreases more,
{
    if fewer < more {
        lemma_sent_bytes_grow(lengths, fewer, (more - 1) as nat);
    }
}

fn check_lengths(lengths: &[usize], expected: &[usize], sent: usize) -> (agree: bool)
    requires
        sent <= lengths@.len(),
        sent <= expected@.len(),
    ensures
        agree == lengths_agree(lengths@, expected@, sent as nat),
{
    let mut i: usize = 0;
    while i < sent
        invariant
            i <= sent <= lengths@.len(),
            sent <= expected@.len(),
            forall|k: int| 0 <= k < i ==> #[trigger] lengths@[k] == expected@[k],
        decreases sent - i,
    {
        if lengths[i] != expected[i] {
            return false;
        }
        i = i + 1;
    }
    true
}

/// Finishes a batched transmit once the kernel has answered.
///
/// A partial kernel result completes only its accepted prefix and requeues the suffix. A full
/// socket requeues everything. A permanent socket error discards the encoded batch so protocol
/// recovery can reschedule it without a local spin loop.
///
/// # Errors
///
/// Returns a queue or socket error after every datagram has been completed, requeued, or discarded
/// exactly once.
pub fn finish_transmit_batch<const SLOTS: usize, const BUFFER_SIZE: usize, I>(
    queue: &mut TransmitQueue<SLOTS, BUFFER_SIZE, SocketTransmitMetadata>,
    datagrams: Vec<TransmitDatagram>,
    expected_lengths: &[usize],
    event: LinuxTransmitEvent<'_, I>,
) -> (outcome: Result<LinuxTransmitBatchOutcome, LinuxUdpError<I>>)
    requires
        old(queue).well_formed(),
        expected_lengths@.len() == datagrams@.len(),
        event matches LinuxTransmitEvent::Sent { sent, lengths } ==> sent <= datagrams@.len()
            && lengths@.len() == datagrams@.len(),
    ensures
        final(queue).well_formed(),
        ({
            let total = datagrams@.len();
            let completed = match event {
                LinuxTransmitEvent::Sent { sent, .. } => sent as nat,
                LinuxTransmitEvent::WouldBlock => 0,
                LinuxTransmitEvent::Failed(_) => total,
            };
            &&& final(queue).contents() == settled_all(
                old(queue).contents(),
                datagrams@,
                completed,
                total,
            )
            &&& if !all_owned(old(queue).contents(), datagrams@, completed, total) {
                outcome == Err::<LinuxTransmitBatchOutcome, LinuxUdpError<I>>(
                    LinuxUdpError::Queue(RuntimeQueueError::InvalidOwnership),
                )
            } else {
                match event {
                    LinuxTransmitEvent::Sent { sent, lengths } => outcome == if sent == 0 {
                        Err::<LinuxTransmitBatchOutcome, LinuxUdpError<I>>(
                            LinuxUdpError::EmptyPrefix,
                        )
                    } else if sent_bytes(lengths@, sent as nat) > usize::MAX {
                        Err(LinuxUdpError::Queue(RuntimeQueueError::InvariantViolation))
                    } else if !lengths_agree(lengths@, expected_lengths@, sent as nat) {
                        Err(LinuxUdpError::PartialDatagram)
                    } else {
                        Ok(
                            LinuxTransmitBatchOutcome::Sent {
                                sent_datagrams: sent,
                                sent_bytes: sent_bytes(lengths@, sent as nat) as usize,
                                requeued_datagrams: (total - sent) as usize,
                            },
                        )
                    },
                    LinuxTransmitEvent::WouldBlock => outcome == Ok::<
                        LinuxTransmitBatchOutcome,
                        LinuxUdpError<I>,
                    >(LinuxTransmitBatchOutcome::WouldBlock),
                    LinuxTransmitEvent::Failed(error) => outcome == Err::<
                        LinuxTransmitBatchOutcome,
                        LinuxUdpError<I>,
                    >(LinuxUdpError::Io(error)),
                }
            }
        }),
{
    let total: usize = datagrams.len();
    match event {
        LinuxTransmitEvent::Sent { sent, lengths } => {
            match resolve_transmit_datagrams(queue, datagrams, sent) {
                Some(error) => {
                    return Err(LinuxUdpError::Queue(error));
                },
                None => {},
            }
            if sent == 0 {
                return Err(LinuxUdpError::EmptyPrefix);
            }
            let sent_bytes: usize = match total_sent(lengths, sent) {
                Some(total) => total,
                None => {
                    return Err(LinuxUdpError::Queue(RuntimeQueueError::InvariantViolation));
                },
            };
            if !check_lengths(lengths, expected_lengths, sent) {
                return Err(LinuxUdpError::PartialDatagram);
            }
            Ok(
                LinuxTransmitBatchOutcome::Sent {
                    sent_datagrams: sent,
                    sent_bytes,
                    requeued_datagrams: total - sent,
                },
            )
        },
        LinuxTransmitEvent::WouldBlock => match resolve_transmit_datagrams(queue, datagrams, 0) {
            Some(error) => Err(LinuxUdpError::Queue(error)),
            None => Ok(LinuxTransmitBatchOutcome::WouldBlock),
        },
        LinuxTransmitEvent::Failed(error) => match resolve_transmit_datagrams(
            queue,
            datagrams,
            total,
        ) {
            Some(queue_error) => Err(LinuxUdpError::Queue(queue_error)),
            None => Err(LinuxUdpError::Io(error)),
        },
    }
}

} // verus!
