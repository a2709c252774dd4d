//! Decisions of the portable nonblocking UDP adapter.
//!
//! This backend deliberately exposes its missing capabilities. A plain socket provides no
//! destination/interface/ECN ancillary data, UDP GRO/GSO, batched syscalls, or asynchronous
//! completion. Platform backends can add those features while preserving the queue ownership
//! contract.
//!
//! Nothing here touches a socket: each attempt is a first decision, one socket operation that the
//! caller performs, and a second decision on what came back.

use vstd::prelude::*;
use vstd::string::*;

use crate::ecn::EcnCodepoint;
use crate::runtime::pool::SlotState;
use crate::runtime::socket::{
    endpoints_equal, has_bit, lemma_set_bit, lemma_single_bits, ScopedEndpoint,
    SocketReceiveMetadata, SocketTransmitMetadata,
};
use crate::runtime::{
    IpAddress, ReceiveQueue, ReceiveReservation, RuntimeQueueError, TransmitDatagram, TransmitQueue,
};
use crate::text::{decimal, fixed, with_item, with_item_text, with_number, with_two_numbers};

verus! {

/// Largest ordinary UDP payload accepted by this portable adapter.
///
/// The extra byte used to detect a datagram above the configured limit is not included. IPv6
/// jumbograms are outside the portable profile.
pub const MAX_PORTABLE_DATAGRAM_SIZE: usize = 65_527;

/// One socket-adapter feature that callers must negotiate explicitly.
#[derive(Clone, Copy, Debug, PartialEq, Eq, Structural)]
pub enum PortableUdpCapability {
    ExactReceiveDestination,
    ReceiveInterface,
    ReceiveEcn,
    KernelReceiveTimestamp,
    UdpGro,
    SourceSelection,
    TransmitInterface,
    TransmitEcn,
    UdpGso,
    BatchedSyscalls,
    DeferredCompletion,
}

impl PortableUdpCapability {
    /// The bit of a capability.
    pub open spec fn bit(self) -> u16 {
        match self {
            PortableUdpCapability::ExactReceiveDestination => 0x001,
            PortableUdpCapability::ReceiveInterface => 0x002,
            PortableUdpCapability::ReceiveEcn => 0x004,
            PortableUdpCapability::KernelReceiveTimestamp => 0x008,
            PortableUdpCapability::UdpGro => 0x010,
            PortableUdpCapability::SourceSelection => 0x020,
            PortableUdpCapability::TransmitInterface => 0x040,
            PortableUdpCapability::TransmitEcn => 0x080,
            PortableUdpCapability::UdpGso => 0x100,
            PortableUdpCapability::BatchedSyscalls => 0x200,
            PortableUdpCapability::DeferredCompletion => 0x400,
        }
    }

    fn mask(self) -> (mask: u16)
        ensures
            mask == self.bit(),
    {
        match self {
            PortableUdpCapability::ExactReceiveDestination => 0x001,
            PortableUdpCapability::ReceiveInterface => 0x002,
            PortableUdpCapability::ReceiveEcn => 0x004,
            PortableUdpCapability::KernelReceiveTimestamp => 0x008,
            PortableUdpCapability::UdpGro => 0x010,
            PortableUdpCapability::SourceSelection => 0x020,
            PortableUdpCapability::TransmitInterface => 0x040,
            PortableUdpCapability::TransmitEcn => 0x080,
            PortableUdpCapability::UdpGso => 0x100,
            PortableUdpCapability::BatchedSyscalls => 0x200,
            PortableUdpCapability::DeferredCompletion => 0x400,
        }
    }
}

/// Compact set of features observable through one adapter instance.
#[derive(Clone, Copy, PartialEq, Eq, Structural)]
pub struct PortableUdpCapabilities {
    bits: u16,
}

impl PortableUdpCapabilities {
    /// Whether a capability is in the set.
    pub closed spec fn has(self, capability: PortableUdpCapability) -> bool {
        has_bit(self.bits, capability.bit())
    }

    fn empty() -> (capabilities: PortableUdpCapabilities)
        ensures
            forall|capability: PortableUdpCapability| !#[trigger] capabilities.has(capability),
    {
        let capabilities = PortableUdpCapabilities { bits: 0 };
        assert forall|capability: PortableUdpCapability| !#[trigger] capabilities.has(
            capability,
        ) by {
            let bit = capability.bit();
            assert(0u16 & bit == 0) by (bit_vector);
        }
        capabilities
    }

    fn with(self, capability: PortableUdpCapability) -> (extended: PortableUdpCapabilities)
        ensures
            forall|other: PortableUdpCapability| #[trigger]
                extended.has(other) == (self.has(other) || other == capability),
    {
        let extended = PortableUdpCapabilities { bits: self.bits | capability.mask() };
        assert forall|other: PortableUdpCapability| #[trigger]
            extended.has(other) == (self.has(other) || other == capability) by {
            lemma_single_bits(capability.bit(), other.bit());
            lemma_set_bit(self.bits, capability.bit(), other.bit());
        }
        extended
    }

    /// Returns whether this adapter supports `capability`.
    pub fn contains(self, capability: PortableUdpCapability) -> (contained: bool)
        ensures
            contained == self.has(capability),
    {
        self.bits & capability.mask() != 0
    }

    /// The text of the set for diagnostics.
    pub open spec fn text(self) -> Seq<char> {
        let t0 = ""@;
        let t1 = with_item(
            t0,
            self.has(PortableUdpCapability::ExactReceiveDestination),
            "ExactReceiveDestination"@,
        );
        let t2 = with_item(
            t1,
            self.has(PortableUdpCapability::ReceiveInterface),
            "ReceiveInterface"@,
        );
        let t3 = with_item(t2, self.has(PortableUdpCapability::ReceiveEcn), "ReceiveEcn"@);
        let t4 = with_item(
            t3,
            self.has(PortableUdpCapability::KernelReceiveTimestamp),
            "KernelReceiveTimestamp"@,
        );
        let t5 = with_item(t4, self.has(PortableUdpCapability::UdpGro), "UdpGro"@);
        let t6 = with_item(
            t5,
            self.has(PortableUdpCapability::SourceSelection),
            "SourceSelection"@,
        );
        let t7 = with_item(
            t6,
            self.has(PortableUdpCapability::TransmitInterface),
            "TransmitInterface"@,
        );
        let t8 = with_item(t7, self.has(PortableUdpCapability::TransmitEcn), "TransmitEcn"@);
        let t9 = with_item(t8, self.has(PortableUdpCapability::UdpGso), "UdpGso"@);
        let t10 = with_item(
            t9,
            self.has(PortableUdpCapability::BatchedSyscalls),
            "BatchedSyscalls"@,
        );
        let t11 = with_item(
            t10,
            self.has(PortableUdpCapability::DeferredCompletion),
            "DeferredCompletion"@,
        );
        "{"@ + t11 + "}"@
    }

    /// Returns the text of the set for diagnostics.
    pub fn debug_text(&self) -> (text: String)
        ensures
            text@ == self.text(),
    {
        let mut text: String = fixed("");
        text = with_item_text(
            text,
            self.contains(PortableUdpCapability::ExactReceiveDestination),
            "ExactReceiveDestination",
        );
        text = with_item_text(
            text,
            self.contains(PortableUdpCapability::ReceiveInterface),
            "ReceiveInterface",
        );
        text = with_item_text(text, self.contains(PortableUdpCapability::ReceiveEcn), "ReceiveEcn");
        text = with_item_text(
            text,
            self.contains(PortableUdpCapability::KernelReceiveTimestamp),
            "KernelReceiveTimestamp",
        );
        text = with_item_text(text, self.contains(PortableUdpCapability::UdpGro), "UdpGro");
        text = with_item_text(
            text,
            self.contains(PortableUdpCapability::SourceSelection),
            "SourceSelection",
        );
        text = with_item_text(
            text,
            self.contains(PortableUdpCapability::TransmitInterface),
            "TransmitInterface",
        );
        text = with_item_text(
            text,
            self.contains(PortableUdpCapability::TransmitEcn),
            "TransmitEcn",
        );
        text = with_item_text(text, self.contains(PortableUdpCapability::UdpGso), "UdpGso");
        text = with_item_text(
            text,
            self.contains(PortableUdpCapability::BatchedSyscalls),
            "BatchedSyscalls",
        );
        text = with_item_text(
            text,
            self.contains(PortableUdpCapability::DeferredCompletion),
            "DeferredCompletion",
        );
        fixed("{").concat(text.as_str()).concat("}")
    }
}

/// One nonblocking receive attempt.
#[derive(Clone, Copy, Debug, PartialEq, Eq, Structural)]
#[must_use]
pub enum PortableReceiveOutcome {
    Received { bytes: usize },
    WouldBlock,
    PoolExhausted,
    DroppedEmpty,
    DroppedOversized { configured_limit: usize, observed_at_least: usize },
}

/// One nonblocking transmit attempt.
#[derive(Clone, Copy, Debug, PartialEq, Eq, Structural)]
#[must_use]
pub enum PortableTransmitOutcome {
    Idle,
    Sent { bytes: usize },
    WouldBlock,
    NotReady { send_not_before_micros: u64 },
}

/// Unsupported routing or offload request rejected before transmission.
#[derive(Clone, Copy, Debug, PartialEq, Eq, Structural)]
pub enum PortableTransmitRejection {
    WrongSocket { expected: u16, actual: u16 },
    SourceSelectionUnavailable,
    InterfaceSelectionUnavailable,
    EcnUnavailable,
    GsoUnavailable,
    InvalidIpv4Scope,
}

impl PortableTransmitRejection {
    /// The diagnostic text of a rejection.
    pub open spec fn message_text(self) -> Seq<char> {
        match self {
            PortableTransmitRejection::WrongSocket { expected, actual } => "socket ID "@ + decimal(
                actual as nat,
            ) + " does not match adapter "@ + decimal(expected as nat) + ""@,
            PortableTransmitRejection::SourceSelectionUnavailable =>
            "per-datagram source selection is unavailable"@,
            PortableTransmitRejection::InterfaceSelectionUnavailable =>
            "per-datagram interface selection is unavailable"@,
            PortableTransmitRejection::EcnUnavailable => "per-datagram ECN is unavailable"@,
            PortableTransmitRejection::GsoUnavailable => "UDP GSO is unavailable"@,
            PortableTransmitRejection::InvalidIpv4Scope =>
            "IPv4 endpoint has a non-zero scope ID"@,
        }
    }

    /// Returns the diagnostic text of this rejection.
    pub fn message(&self) -> (text: String)
        ensures
            text@ == self.message_text(),
    {
        match *self {
            PortableTransmitRejection::WrongSocket { expected, actual } => with_two_numbers(
                "socket ID ",
                actual as u64,
                " does not match adapter ",
                expected as u64,
                "",
            ),
            PortableTransmitRejection::SourceSelectionUnavailable => fixed(
                "per-datagram source selection is unavailable",
            ),
            PortableTransmitRejection::InterfaceSelectionUnavailable => fixed(
                "per-datagram interface selection is unavailable",
            ),
            PortableTransmitRejection::EcnUnavailable => fixed("per-datagram ECN is unavailable"),
            PortableTransmitRejection::GsoUnavailable => fixed("UDP GSO is unavailable"),
            PortableTransmitRejection::InvalidIpv4Scope => fixed(
                "IPv4 endpoint has a non-zero scope ID",
            ),
        }
    }
}

/// Safe portable-adapter failure. `I` is the socket's own failure.
#[derive(Clone, Copy, Debug, PartialEq, Eq)]
pub enum PortableUdpError<I> {
    Io(I),
    /// The socket accepted only part of one datagram.
    PartialSend,
    Queue(RuntimeQueueError),
    InvalidMaximumDatagramSize { size: usize },
    ReceiveBufferTooSmall { capacity: usize, required: usize },
    UnsupportedTransmit(PortableTransmitRejection),
}

impl<I> PortableUdpError<I> {
    /// The diagnostic text of a failure, given the text of a socket's own failure.
    pub open spec fn message_text(self, socket_text: Seq<char>) -> Seq<char> {
        match self {
            PortableUdpError::Io(_) => "UDP socket failure: "@ + socket_text,
            PortableUdpError::PartialSend =>
            "UDP socket failure: UDP send accepted only part of one datagram"@,
            PortableUdpError::Queue(error) => "UDP queue failure: "@ + error.message_text(),
            PortableUdpError::InvalidMaximumDatagramSize { size } =>
            "portable UDP maximum datagram size "@ + decimal(size as nat)
                + " is outside 1..=65527"@,
            PortableUdpError::ReceiveBufferTooSmall { capacity, required } =>
            "receive buffer capacity "@ + decimal(capacity as nat)
                + " is smaller than required probe size "@ + decimal(required as nat) + ""@,
            PortableUdpError::UnsupportedTransmit(reason) =>
            "portable UDP transmit metadata is unsupported: "@ + reason.message_text(),
        }
    }

    /// Returns the diagnostic text of this failure, given the text of a socket's own failure.
    pub fn message(&self, socket_text: &str) -> (text: String)
        ensures
            text@ == self.message_text(socket_text@),
    {
        match self {
            PortableUdpError::Io(_) => fixed("UDP socket failure: ").concat(socket_text),
            PortableUdpError::PartialSend => fixed(
                "UDP socket failure: UDP send accepted only part of one datagram",
            ),
            PortableUdpError::Queue(error) => fixed("UDP queue failure: ").concat(
                error.message().as_str(),
            ),
            PortableUdpError::InvalidMaximumDatagramSize { size } => with_number(
                "portable UDP maximum datagram size ",
                *size as u64,
                " is outside 1..=65527",
            ),
            PortableUdpError::ReceiveBufferTooSmall { capacity, required } => with_two_numbers(
                "receive buffer capacity ",
                *capacity as u64,
                " is smaller than required probe size ",
                *required as u64,
                "",
            ),
            PortableUdpError::UnsupportedTransmit(reason) => fixed(
                "portable UDP transmit metadata is unsupported: ",
            ).concat(reason.message().as_str()),
        }
    }
}

/// What the decisions of one socket depend on.
#[derive(Clone, Copy, Debug, PartialEq, Eq)]
pub struct PortableUdpProfile {
    pub socket_id: u16,
    pub local_endpoint: ScopedEndpoint,
    pub exact_local_endpoint: bool,
    pub maximum_datagram_size: usize,
}

/// What one receive attempt asks for next.
pub enum PortableReceiveStep {
    /// The attempt is over.
    Done(PortableReceiveOutcome),
    /// Receive at most `limit` bytes into the reserved buffer.
    Receive { reservation: ReceiveReservation, limit: usize },
}

/// What a socket made of one receive.
pub enum PortableReceiveEvent<I> {
    Received { length: usize, source: ScopedEndpoint },
    Interrupted,
    WouldBlock,
    Failed(I),
}

/// What one transmit attempt asks for next.
pub enum PortableTransmitStep {
    /// The attempt is over.
    Done(PortableTransmitOutcome),
    /// Send the datagram to a destination.
    Send { datagram: TransmitDatagram, destination: ScopedEndpoint },
}

/// What a socket made of one send.
pub enum PortableTransmitEvent<I> {
    Sent { length: usize },
    Interrupted,
    WouldBlock,
    Failed(I),
}

/// The failure of an endpoint that cannot be addressed, if any.
pub open spec fn endpoint_rejection(endpoint: ScopedEndpoint) -> Option<PortableTransmitRejection> {
    if endpoint.address is V4 && endpoint.scope_id != 0 {
        Some(PortableTransmitRejection::InvalidIpv4Scope)
    } else {
        None
    }
}

impl PortableUdpProfile {
    /// Describes a bound socket.
    ///
    /// # Errors
    ///
    /// Returns an error for an invalid maximum. It must leave one receive-buffer byte available for
    /// oversize detection.
    pub fn new<I>(
        socket_id: u16,
        local_endpoint: ScopedEndpoint,
        exact_local_endpoint: bool,
        maximum_datagram_size: usize,
    ) -> (profile: Result<PortableUdpProfile, PortableUdpError<I>>)
        ensures
            profile == if 1 <= maximum_datagram_size <= MAX_PORTABLE_DATAGRAM_SIZE {
                Ok::<PortableUdpProfile, PortableUdpError<I>>(
                    PortableUdpProfile {
                        socket_id,
                        local_endpoint,
                        exact_local_endpoint,
                        maximum_datagram_size,
                    },
                )
            } else {
                Err(
                    PortableUdpError::InvalidMaximumDatagramSize { size: maximum_datagram_size },
                )
            },
    {
        if maximum_datagram_size < 1 || maximum_datagram_size > MAX_PORTABLE_DATAGRAM_SIZE {
            return Err(
                PortableUdpError::InvalidMaximumDatagramSize { size: maximum_datagram_size },
            );
        }
        Ok(
            PortableUdpProfile {
                socket_id,
                local_endpoint,
                exact_local_endpoint,
                maximum_datagram_size,
            },
        )
    }

    /// Reports which metadata and acceleration features this backend exposes.
    pub fn capabilities(&self) -> (capabilities: PortableUdpCapabilities)
        ensures
            forall|capability: PortableUdpCapability| #[trigger]
                capabilities.has(capability) == (self.exact_local_endpoint && capability
                    == PortableUdpCapability::ExactReceiveDestination),
    {
        let capabilities = PortableUdpCapabilities::empty();
        if self.exact_local_endpoint {
            capabilities.with(PortableUdpCapability::ExactReceiveDestination)
        } else {
            capabilities
        }
    }

    /// Starts one receive directly into a fixed queue reservation.
    ///
    /// An extra byte is always offered to the socket so a datagram above the configured protocol
    /// limit cannot be accepted as a valid truncated prefix.
    ///
    /// # Errors
    ///
    /// Returns queue or buffer-configuration errors.
    pub fn begin_receive<const SLOTS: usize, const BUFFER_SIZE: usize, I>(
        &self,
        queue: &mut ReceiveQueue<SLOTS, BUFFER_SIZE, SocketReceiveMetadata>,
    ) -> (step: Result<PortableReceiveStep, PortableUdpError<I>>)
        requires
            old(queue).well_formed(),
            self.maximum_datagram_size < usize::MAX,
        ensures
            final(queue).well_formed(),
            if BUFFER_SIZE < self.maximum_datagram_size + 1 {
                &&& step == Err::<PortableReceiveStep, PortableUdpError<I>>(
                    PortableUdpError::ReceiveBufferTooSmall {
                        capacity: BUFFER_SIZE,
                        required: (self.maximum_datagram_size + 1) as usize,
                    },
                )
                &&& final(queue).contents() == old(queue).contents()
            } else {
                match old(queue).contents().reserve_failure() {
                    Some(error) => {
                        &&& step == if error == RuntimeQueueError::PoolExhausted {
                            Ok::<PortableReceiveStep, PortableUdpError<I>>(
                                PortableReceiveStep::Done(PortableReceiveOutcome::PoolExhausted),
                            )
                        } else {
                            Err(PortableUdpError::Queue(error))
                        }
                        &&& final(queue).contents() == old(queue).contents().not_reserved()
                    },
                    None => {
                        &&& step matches Ok(PortableReceiveStep::Receive { reservation, limit })
                        &&& limit == self.maximum_datagram_size + 1
                        &&& reservation.slot() == old(queue).contents().next_reserved()
                        &&& final(queue).contents() == old(queue).contents().reserved()
                        &&& final(queue).contents().owns(
                            reservation.slot(),
                            reservation.generation(),
                            SlotState::Reserved,
                        )
                    },
                }
            },
    {
        let required: usize = self.maximum_datagram_size + 1;
        if BUFFER_SIZE < required {
            return Err(
                PortableUdpError::ReceiveBufferTooSmall { capacity: BUFFER_SIZE, required },
            );
        }
        match queue.reserve() {
            Ok(reservation) => Ok(PortableReceiveStep::Receive { reservation, limit: required }),
            Err(RuntimeQueueError::PoolExhausted) => Ok(
                PortableReceiveStep::Done(PortableReceiveOutcome::PoolExhausted),
            ),
            Err(error) => Err(PortableUdpError::Queue(error)),
        }
    }

    /// The metadata of a received datagram.
    pub open spec fn received_metadata(self, source: ScopedEndpoint, now_micros: u64) ->
        SocketReceiveMetadata {
        SocketReceiveMetadata {
            source,
            destination: if self.exact_local_endpoint {
                Some(self.local_endpoint)
            } else {
                None
            },
            socket_id: self.socket_id,
            interface_index: None,
            ecn: None,
            received_at_micros: now_micros,
            kernel_timestamp_unix_nanos: None,
            socket_drop_count: None,
            gro_segment_size: None,
        }
    }

    /// Finishes one receive once the socket has answered.
    ///
    /// `now_micros` must come from the event loop's monotonic clock. An interrupted receive is asked
    /// for again. Every other answer commits the reservation or returns it exactly once.
    ///
    /// # Errors
    ///
    /// Returns socket or queue errors.
    pub fn finish_receive<const SLOTS: usize, const BUFFER_SIZE: usize, I>(
        &self,
        queue: &mut ReceiveQueue<SLOTS, BUFFER_SIZE, SocketReceiveMetadata>,
        reservation: ReceiveReservation,
        event: PortableReceiveEvent<I>,
        now_micros: u64,
    ) -> (step: Result<PortableReceiveStep, PortableUdpError<I>>)
        requires
            old(queue).well_formed(),
            self.maximum_datagram_size < usize::MAX,
        ensures
            final(queue).well_formed(),
            ({
                let before = old(queue).contents();
                let after = final(queue).contents();
                let slot = reservation.slot();
                if event is Interrupted {
                    &&& step == Ok::<PortableReceiveStep, PortableUdpError<I>>(
                        PortableReceiveStep::Receive {
                            reservation,
                            limit: (self.maximum_datagram_size + 1) as usize,
                        },
                    )
                    &&& after == before
                } else if !before.owns(slot, reservation.generation(), SlotState::Reserved) {
                    &&& step == Err::<PortableReceiveStep, PortableUdpError<I>>(
                        PortableUdpError::Queue(RuntimeQueueError::InvalidOwnership),
                    )
                    &&& after == before
                } else {
                    match event {
                        PortableReceiveEvent::WouldBlock => {
                            &&& step == Ok::<PortableReceiveStep, PortableUdpError<I>>(
                                PortableReceiveStep::Done(PortableReceiveOutcome::WouldBlock),
                            )
                            &&& after == before.released(slot, 0)
                        },
                        PortableReceiveEvent::Failed(error) => {
                            &&& step == Err::<PortableReceiveStep, PortableUdpError<I>>(
                                PortableUdpError::Io(error),
                            )
                            &&& after == before.released(slot, BUFFER_SIZE as nat)
                        },
                        PortableReceiveEvent::Received { length, source } => if length == 0 {
                            &&& step == Ok::<PortableReceiveStep, PortableUdpError<I>>(
                                PortableReceiveStep::Done(PortableReceiveOutcome::DroppedEmpty),
                            )
                            &&& after == before.released(slot, BUFFER_SIZE as nat)
                        } else if length > self.maximum_datagram_size {
                            &&& step == Ok::<PortableReceiveStep, PortableUdpError<I>>(
                                PortableReceiveStep::Done(
                                    PortableReceiveOutcome::DroppedOversized {
                                        configured_limit: self.maximum_datagram_size,
                                        observed_at_least: length,
                                    },
                                ),
                            )
                            &&& after == before.released(slot, BUFFER_SIZE as nat)
                        } else if length > BUFFER_SIZE {
                            &&& step == Err::<PortableReceiveStep, PortableUdpError<I>>(
                                PortableUdpError::Queue(
                                    RuntimeQueueError::DatagramTooLarge {
                                        length,
                                        capacity: BUFFER_SIZE,
                                    },
                                ),
                            )
                            &&& after == before.released(slot, BUFFER_SIZE as nat)
                        } else {
                            &&& step == Ok::<PortableReceiveStep, PortableUdpError<I>>(
                                PortableReceiveStep::Done(
                                    PortableReceiveOutcome::Received { bytes: length },
                                ),
                            )
                            &&& after == before.committed(
                                slot,
                                length as nat,
                                self.received_metadata(source, now_micros),
                            )
                        },
                        PortableReceiveEvent::Interrupted => true,
                    }
                }
            }),
    {
        let (length, source): (usize, ScopedEndpoint) = match event {
            PortableReceiveEvent::Received { length, source } => (length, source),
            PortableReceiveEvent::Interrupted => {
                return Ok(
                    PortableReceiveStep::Receive {
                        reservation,
                        limit: self.maximum_datagram_size + 1,
                    },
                );
            },
            PortableReceiveEvent::WouldBlock => {
                return match queue.release_unwritten_receive_reservation(reservation) {
                    Ok(()) => Ok(PortableReceiveStep::Done(PortableReceiveOutcome::WouldBlock)),
                    Err(error) => Err(PortableUdpError::Queue(error)),
                };
            },
            PortableReceiveEvent::Failed(error) => {
                // A truncated datagram may have been copied before the failure was reported, so
                // the whole buffer is cleared.
                return match queue.cancel(reservation) {
                    Ok(()) => Err(PortableUdpError::Io(error)),
                    Err(error) => Err(PortableUdpError::Queue(error)),
                };
            },
        };
        if length == 0 {
            return match queue.cancel(reservation) {
                Ok(()) => Ok(PortableReceiveStep::Done(PortableReceiveOutcome::DroppedEmpty)),
                Err(error) => Err(PortableUdpError::Queue(error)),
            };
        }
        if length > self.maximum_datagram_size {
            return match queue.cancel(reservation) {
                Ok(()) => Ok(
                    PortableReceiveStep::Done(
                        PortableReceiveOutcome::DroppedOversized {
                            configured_limit: self.maximum_datagram_size,
                            observed_at_least: length,
                        },
                    ),
                ),
                Err(error) => Err(PortableUdpError::Queue(error)),
            };
        }
        let metadata = SocketReceiveMetadata {
            source,
            destination: if self.exact_local_endpoint {
                Some(self.local_endpoint)
            } else {
                None
            },
            socket_id: self.socket_id,
            interface_index: None,
            ecn: None,
            received_at_micros: now_micros,
            kernel_timestamp_unix_nanos: None,
            socket_drop_count: None,
            gro_segment_size: None,
        };
        match queue.commit(reservation, length, metadata) {
            Ok(()) => Ok(
                PortableReceiveStep::Done(PortableReceiveOutcome::Received { bytes: length }),
            ),
            Err(error) => Err(PortableUdpError::Queue(error)),
        }
    }

    /// The reason to reject the metadata of a datagram, if any: the checks in order.
    pub open spec fn rejection(self, metadata: SocketTransmitMetadata) -> Option<
        PortableTransmitRejection,
    > {
        if metadata.socket_id != self.socket_id {
            Some(
                PortableTransmitRejection::WrongSocket {
                    expected: self.socket_id,
                    actual: metadata.socket_id,
                },
            )
        } else if metadata.source is Some && !(self.exact_local_endpoint && metadata.source->0
            == self.local_endpoint) {
            Some(PortableTransmitRejection::SourceSelectionUnavailable)
        } else if metadata.interface_index is Some {
            Some(PortableTransmitRejection::InterfaceSelectionUnavailable)
        } else if metadata.ecn != EcnCodepoint::NotEct {
            Some(PortableTransmitRejection::EcnUnavailable)
        } else if metadata.gso_segment_size is Some {
            Some(PortableTransmitRejection::GsoUnavailable)
        } else {
            None
        }
    }

    /// Checks that a plain socket can honour the metadata of a datagram.
    ///
    /// # Errors
    ///
    /// Returns the first request that it cannot honour.
    pub fn validate_transmit_metadata(&self, metadata: SocketTransmitMetadata) -> (outcome: Result<
        (),
        PortableTransmitRejection,
    >)
        ensures
            outcome == match self.rejection(metadata) {
                Some(rejection) => Err::<(), PortableTransmitRejection>(rejection),
                None => Ok(()),
            },
    {
        if metadata.socket_id != self.socket_id {
            return Err(
                PortableTransmitRejection::WrongSocket {
                    expected: self.socket_id,
                    actual: metadata.socket_id,
                },
            );
        }
        match metadata.source {
            Some(source) => {
                if !self.exact_local_endpoint || !endpoints_equal(&source, &self.local_endpoint) {
                    return Err(PortableTransmitRejection::SourceSelectionUnavailable);
                }
            },
            None => {},
        }
        if metadata.interface_index.is_some() {
            return Err(PortableTransmitRejection::InterfaceSelectionUnavailable);
        }
        if metadata.ecn != EcnCodepoint::NotEct {
            return Err(PortableTransmitRejection::EcnUnavailable);
        }
        if metadata.gso_segment_size.is_some() {
            return Err(PortableTransmitRejection::GsoUnavailable);
        }
        Ok(())
    }

    /// Starts one ready transmit without blocking.
    ///
    /// A pacing deadline requeues the datagram. Unsupported metadata discards the encoded datagram;
    /// the protocol recovery record remains responsible for reliable rescheduling.
    ///
    /// # Errors
    ///
    /// Returns a metadata or queue error after resolving buffer ownership exactly once.
    pub fn begin_transmit<const SLOTS: usize, const BUFFER_SIZE: usize, I>(
        &self,
        queue: &mut TransmitQueue<SLOTS, BUFFER_SIZE, SocketTransmitMetadata>,
        now_micros: u64,
    ) -> (step: Result<PortableTransmitStep, PortableUdpError<I>>)
        requires
            old(queue).well_formed(),
        ensures
            final(queue).well_formed(),
            ({
                let before = old(queue).contents();
                let after = final(queue).contents();
                if before.ready.len() == 0 {
                    &&& step == Ok::<PortableTransmitStep, PortableUdpError<I>>(
                        PortableTransmitStep::Done(PortableTransmitOutcome::Idle),
                    )
                    &&& after == before
                } else {
                    let slot = before.ready[0];
                    let metadata = before.slots[slot].metadata->0;
                    let used = before.slots[slot].length;
                    let rejection = if self.rejection(metadata) is Some {
                        self.rejection(metadata)
                    } else {
                        endpoint_rejection(metadata.destination)
                    };
                    if metadata.send_not_before_micros > now_micros {
                        &&& step == Ok::<PortableTransmitStep, PortableUdpError<I>>(
                            PortableTransmitStep::Done(
                                PortableTransmitOutcome::NotReady {
                                    send_not_before_micros: metadata.send_not_before_micros,
                                },
                            ),
                        )
                        &&& after == before.popped().requeued(slot)
                    } else if rejection is Some {
                        &&& step == Err::<PortableTransmitStep, PortableUdpError<I>>(
                            PortableUdpError::UnsupportedTransmit(rejection->0),
                        )
                        &&& after == before.popped().released(slot, used)
                    } else {
                        &&& step matches Ok(PortableTransmitStep::Send { datagram, destination })
                        &&& datagram.slot() == slot
                        &&& destination == metadata.destination
                        &&& after == before.popped()
                        &&& after.owns(slot, datagram.generation(), SlotState::Held)
                    }
                }
            }),
    {
        let datagram = match queue.pop() {
            Some(datagram) => datagram,
            None => {
                return Ok(PortableTransmitStep::Done(PortableTransmitOutcome::Idle));
            },
        };
        let metadata = match queue.view(&datagram) {
            Ok(view) => view.metadata(),
            Err(error) => {
                return Err(PortableUdpError::Queue(error));
            },
        };
        if metadata.send_not_before_micros > now_micros {
            return match queue.requeue(datagram) {
                Ok(()) => Ok(
                    PortableTransmitStep::Done(
                        PortableTransmitOutcome::NotReady {
                            send_not_before_micros: metadata.send_not_before_micros,
                        },
                    ),
                ),
                Err(error) => Err(PortableUdpError::Queue(error)),
            };
        }
        match self.validate_transmit_metadata(metadata) {
            Ok(()) => {},
            Err(rejection) => {
                return match queue.discard(datagram) {
                    Ok(()) => Err(PortableUdpError::UnsupportedTransmit(rejection)),
                    Err(error) => Err(PortableUdpError::Queue(error)),
                };
            },
        }
        match validate_endpoint(metadata.destination) {
            Ok(()) => Ok(
                PortableTransmitStep::Send { datagram, destination: metadata.destination },
            ),
            Err(rejection) => match queue.discard(datagram) {
                Ok(()) => Err(PortableUdpError::UnsupportedTransmit(rejection)),
                Err(error) => Err(PortableUdpError::Queue(error)),
            },
        }
    }
}

/// Finishes one transmit once the socket has answered.
///
/// An interrupted send is asked for again, and `WouldBlock` requeues the datagram. Permanent socket
/// errors discard the encoded datagram.
///
/// # Errors
///
/// Returns a socket or queue error after resolving buffer ownership exactly once.
pub fn finish_transmit<const SLOTS: usize, const BUFFER_SIZE: usize, I>(
    queue: &mut TransmitQueue<SLOTS, BUFFER_SIZE, SocketTransmitMetadata>,
    datagram: TransmitDatagram,
    destination: ScopedEndpoint,
    event: PortableTransmitEvent<I>,
) -> (step: Result<PortableTransmitStep, PortableUdpError<I>>)
    requires
        old(queue).well_formed(),
    ensures
        final(queue).well_formed(),
        ({
            let before = old(queue).contents();
            let after = final(queue).contents();
            let slot = datagram.slot();
            let used = before.slots[slot].length;
            if event is Interrupted {
                &&& step == Ok::<PortableTransmitStep, PortableUdpError<I>>(
                    PortableTransmitStep::Send { datagram, destination },
                )
                &&& after == before
            } else if !before.owns(slot, datagram.generation(), SlotState::Held) {
                &&& step == Err::<PortableTransmitStep, PortableUdpError<I>>(
                    PortableUdpError::Queue(RuntimeQueueError::InvalidOwnership),
                )
                &&& after == before
            } else {
                match event {
                    PortableTransmitEvent::Sent { length } => {
                        &&& step == if length == used {
                            Ok::<PortableTransmitStep, PortableUdpError<I>>(
                                PortableTransmitStep::Done(
                                    PortableTransmitOutcome::Sent { bytes: length },
                                ),
                            )
                        } else {
                            Err(PortableUdpError::PartialSend)
                        }
                        &&& after == before.released(slot, used)
                    },
                    PortableTransmitEvent::WouldBlock => {
                        &&& step == Ok::<PortableTransmitStep, PortableUdpError<I>>(
                            PortableTransmitStep::Done(PortableTransmitOutcome::WouldBlock),
                        )
                        &&& after == before.requeued(slot)
                    },
                    PortableTransmitEvent::Failed(error) => {
                        &&& step == Err::<PortableTransmitStep, PortableUdpError<I>>(
                            PortableUdpError::Io(error),
                        )
                        &&& after == before.released(slot, used)
                    },
                    PortableTransmitEvent::Interrupted => true,
                }
            }
        }),
{
    match event {
        PortableTransmitEvent::Sent { length } => {
            let expected: usize = match queue.view(&datagram) {
                Ok(view) => view.payload().len(),
                Err(error) => {
                    return Err(PortableUdpError::Queue(error));
                },
            };
            if length != expected {
                return match queue.discard(datagram) {
                    Ok(()) => Err(PortableUdpError::PartialSend),
                    Err(error) => Err(PortableUdpError::Queue(error)),
                };
            }
            match queue.complete(datagram) {
                Ok(()) => Ok(
                    PortableTransmitStep::Done(PortableTransmitOutcome::Sent { bytes: length }),
                ),
                Err(error) => Err(PortableUdpError::Queue(error)),
            }
        },
        PortableTransmitEvent::Interrupted => Ok(
            PortableTransmitStep::Send { datagram, destination },
        ),
        PortableTransmitEvent::WouldBlock => match queue.requeue(datagram) {
            Ok(()) => Ok(PortableTransmitStep::Done(PortableTransmitOutcome::WouldBlock)),
            Err(error) => Err(PortableUdpError::Queue(error)),
        },
        PortableTransmitEvent::Failed(error) => match queue.discard(datagram) {
            Ok(()) => Err(PortableUdpError::Io(error)),
            Err(error) => Err(PortableUdpError::Queue(error)),
        },
    }
}

/// Checks that an endpoint can be addressed.
///
/// # Errors
///
/// Returns an error for an IPv4 address with a scope.
pub fn validate_endpoint(endpoint: ScopedEndpoint) -> (outcome: Result<
    (),
    PortableTransmitRejection,
>)
    ensures
        outcome == match endpoint_rejection(endpoint) {
            Some(rejection) => Err::<(), PortableTransmitRejection>(rejection),
            None => Ok(()),
        },
{
    match endpoint.address {
        IpAddress::V4(_) => {
            if endpoint.scope_id != 0 {
                return Err(PortableTransmitRejection::InvalidIpv4Scope);
            }
            Ok(())
        },
        IpAddress::V6(_) => Ok(()),
    }
}

} // verus!
