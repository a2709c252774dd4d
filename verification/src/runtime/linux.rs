//! Decisions of the Linux batched UDP adapter with ancillary metadata.
//!
//! Nothing here touches a socket: each attempt is a first decision, one system call that the caller
//! performs on a whole batch, and a second decision on what came back.

pub mod control;
pub mod receive;
pub mod transmit;

use vstd::prelude::*;
use vstd::string::*;

use crate::ecn::EcnCodepoint;
use crate::runtime::socket::{
    has_bit, lemma_set_bit, lemma_single_bits, ScopedEndpoint, UdpCapabilities, UdpCapability,
};
use crate::runtime::RuntimeQueueError;
use crate::text::{decimal, fixed, with_item, with_item_text, with_number, with_two_numbers};

verus! {

/// Largest non-jumbogram UDP payload supported by the Linux profile.
pub const MAX_LINUX_DATAGRAM_SIZE: usize = 65_527;

/// Conservative Linux UDP GSO segment-count ceiling per aggregate.
pub const MAX_LINUX_GSO_SEGMENTS: usize = 64;

/// Linux socket features enabled before the adapter enters its event loop.
///
/// Requested options are strict: construction fails if the running kernel or socket family rejects
/// one. This prevents a deployment from silently losing metadata that its congestion control or
/// multipath policy expects.
#[derive(Clone, Copy, Debug, PartialEq, Eq, Structural)]
pub enum LinuxUdpFeature {
    PacketInfo,
    Ecn,
    ReceiveKernelTimestamp,
    ReceiveDropCounter,
    UdpGro,
    UdpGso,
}

impl LinuxUdpFeature {
    /// The bit of a feature.
    pub open spec fn bit(self) -> u16 {
        match self {
            LinuxUdpFeature::PacketInfo => 0x001,
            LinuxUdpFeature::Ecn => 0x002,
            LinuxUdpFeature::ReceiveKernelTimestamp => 0x004,
            LinuxUdpFeature::ReceiveDropCounter => 0x008,
            LinuxUdpFeature::UdpGro => 0x010,
            LinuxUdpFeature::UdpGso => 0x020,
        }
    }

    fn mask(self) -> (mask: u16)
        ensures
            mask == self.bit(),
    {
        match self {
            LinuxUdpFeature::PacketInfo => 0x001,
            LinuxUdpFeature::Ecn => 0x002,
            LinuxUdpFeature::ReceiveKernelTimestamp => 0x004,
            LinuxUdpFeature::ReceiveDropCounter => 0x008,
            LinuxUdpFeature::UdpGro => 0x010,
            LinuxUdpFeature::UdpGso => 0x020,
        }
    }
}

/// Compact set of Linux socket features selected at construction.
#[derive(Clone, Copy, PartialEq, Eq, Structural)]
pub struct LinuxUdpConfig {
    bits: u16,
}

impl LinuxUdpConfig {
    /// Whether a feature is in the set.
    pub closed spec fn has(self, feature: LinuxUdpFeature) -> bool {
        has_bit(self.bits, feature.bit())
    }

    /// Creates a configuration with no optional socket feature.
    pub fn empty() -> (config: LinuxUdpConfig)
        ensures
            forall|feature: LinuxUdpFeature| !#[trigger] config.has(feature),
    {
        let config = LinuxUdpConfig { bits: 0 };
        assert forall|feature: LinuxUdpFeature| !#[trigger] config.has(feature) by {
            let bit = feature.bit();
            assert(0u16 & bit == 0) by (bit_vector);
        }
        config
    }

    /// Returns a configuration with `feature` enabled.
    pub fn with(self, feature: LinuxUdpFeature) -> (extended: LinuxUdpConfig)
        ensures
            forall|other: LinuxUdpFeature| #[trigger]
                extended.has(other) == (self.has(other) || other == feature),
    {
        let extended = LinuxUdpConfig { bits: self.bits | feature.mask() };
        assert forall|other: LinuxUdpFeature| #[trigger]
            extended.has(other) == (self.has(other) || other == feature) by {
            lemma_single_bits(feature.bit(), other.bit());
            lemma_set_bit(self.bits, feature.bit(), other.bit());
        }
        extended
    }

    /// Returns whether `feature` is enabled.
    pub fn contains(self, feature: LinuxUdpFeature) -> (contained: bool)
        ensures
            contained == self.has(feature),
    {
        self.bits & feature.mask() != 0
    }

    /// The text of the set for diagnostics.
    pub open spec fn text(self) -> Seq<char> {
        let t0 = ""@;
        let t1 = with_item(t0, self.has(LinuxUdpFeature::PacketInfo), "PacketInfo"@);
        let t2 = with_item(t1, self.has(LinuxUdpFeature::Ecn), "Ecn"@);
        let t3 = with_item(
            t2,
            self.has(LinuxUdpFeature::ReceiveKernelTimestamp),
            "ReceiveKernelTimestamp"@,
        );
        let t4 = with_item(
            t3,
            self.has(LinuxUdpFeature::ReceiveDropCounter),
            "ReceiveDropCounter"@,
        );
        let t5 = with_item(t4, self.has(LinuxUdpFeature::UdpGro), "UdpGro"@);
        let t6 = with_item(t5, self.has(LinuxUdpFeature::UdpGso), "UdpGso"@);
        "{"@ + t6 + "}"@
    }

    /// Returns the text of the set for diagnostics.
    pub fn debug_text(&self) -> (text: String)
        ensures
            text@ == self.text(),
    {
        let mut text: String = fixed("");
        text = with_item_text(text, self.contains(LinuxUdpFeature::PacketInfo), "PacketInfo");
        text = with_item_text(text, self.contains(LinuxUdpFeature::Ecn), "Ecn");
        text = with_item_text(
            text,
            self.contains(LinuxUdpFeature::ReceiveKernelTimestamp),
            "ReceiveKernelTimestamp",
        );
        text = with_item_text(
            text,
            self.contains(LinuxUdpFeature::ReceiveDropCounter),
            "ReceiveDropCounter",
        );
        text = with_item_text(text, self.contains(LinuxUdpFeature::UdpGro), "UdpGro");
        text = with_item_text(text, self.contains(LinuxUdpFeature::UdpGso), "UdpGso");
        fixed("{").concat(text.as_str()).concat("}")
    }
}

impl Default for LinuxUdpConfig {
    fn default() -> (config: LinuxUdpConfig)
        ensures
            forall|feature: LinuxUdpFeature| #[trigger] config.has(feature),
    {
        LinuxUdpConfig::empty().with(LinuxUdpFeature::PacketInfo).with(LinuxUdpFeature::Ecn).with(
            LinuxUdpFeature::ReceiveKernelTimestamp,
        ).with(LinuxUdpFeature::ReceiveDropCounter).with(LinuxUdpFeature::UdpGro).with(
            LinuxUdpFeature::UdpGso,
        )
    }
}

/// Result of one nonblocking batched receive attempt.
#[derive(Clone, Copy, Debug, PartialEq, Eq, Structural)]
#[must_use]
pub enum LinuxReceiveBatchOutcome {
    /// A zero-size batch performed no work.
    Idle,
    /// The kernel returned one or more datagrams.
    Received { committed_datagrams: usize, committed_bytes: usize, dropped_datagrams: usize },
    /// The socket had no datagram ready.
    WouldBlock,
    /// The fixed receive pool could not supply the entire requested batch.
    PoolExhausted,
}

/// Result of one nonblocking fixed-size transmit attempt.
#[derive(Clone, Copy, Debug, PartialEq, Eq, Structural)]
#[must_use]
pub enum LinuxTransmitBatchOutcome {
    /// No datagram was ready, or a zero-size batch performed no work.
    Idle,
    /// Some datagrams are ready, but fewer than the batch size.
    IncompleteBatch { ready_datagrams: usize },
    /// A kernel-accepted prefix completed synchronously; the suffix was requeued in its original
    /// order.
    Sent { sent_datagrams: usize, sent_bytes: usize, requeued_datagrams: usize },
    /// The socket was full and the whole batch was requeued.
    WouldBlock,
    /// At least one pacing deadline is in the future; the whole batch was requeued without entering
    /// the kernel.
    NotReady { send_not_before_micros: u64 },
}

/// Invalid or unsupported Linux transmit metadata.
#[derive(Clone, Copy, Debug, PartialEq, Eq, Structural)]
pub enum LinuxTransmitRejection {
    WrongSocket { expected: u16, actual: u16 },
    InvalidIpv4Scope,
    ZeroDestinationPort,
    SourcePortMismatch { expected: u16, actual: u16 },
    AddressFamilyMismatch,
    HeterogeneousBatch,
    InterfaceScopeConflict,
    SourceSelectionUnavailable,
    InterfaceSelectionUnavailable,
    EcnUnavailable,
    GsoUnavailable,
    DatagramTooLarge { length: usize, maximum: usize },
    InvalidGsoSegment { size: usize, length: usize },
    TooManyGsoSegments { segments: usize, maximum: usize },
}

impl LinuxTransmitRejection {
    /// The diagnostic text of a rejection.
    pub open spec fn message_text(self) -> Seq<char> {
        match self {
            LinuxTransmitRejection::WrongSocket { expected, actual } => "socket ID "@ + decimal(
                actual as nat,
            ) + " does not match adapter "@ + decimal(expected as nat) + ""@,
            LinuxTransmitRejection::InvalidIpv4Scope => "IPv4 endpoint has a non-zero scope ID"@,
            LinuxTransmitRejection::ZeroDestinationPort => "destination port is zero"@,
            LinuxTransmitRejection::SourcePortMismatch { expected, actual } => "source port "@
                + decimal(actual as nat) + " does not match bound port "@ + decimal(expected as nat)
                + ""@,
            LinuxTransmitRejection::AddressFamilyMismatch =>
            "source, destination, and socket address families differ"@,
            LinuxTransmitRejection::HeterogeneousBatch =>
            "batch source, interface, ECN, or GSO metadata is not homogeneous"@,
            LinuxTransmitRejection::InterfaceScopeConflict =>
            "IPv6 scope and requested interface conflict"@,
            LinuxTransmitRejection::SourceSelectionUnavailable =>
            "per-datagram source selection is unavailable"@,
            LinuxTransmitRejection::InterfaceSelectionUnavailable =>
            "per-datagram interface selection is unavailable"@,
            LinuxTransmitRejection::EcnUnavailable => "per-datagram ECN is unavailable"@,
            LinuxTransmitRejection::GsoUnavailable => "UDP GSO is unavailable"@,
            LinuxTransmitRejection::DatagramTooLarge { length, maximum } => "datagram length "@
                + decimal(length as nat) + " exceeds maximum "@ + decimal(maximum as nat) + ""@,
            LinuxTransmitRejection::InvalidGsoSegment { size, length } =>
            "UDP GSO segment size "@ + decimal(size as nat) + " is invalid for payload length "@
                + decimal(length as nat) + ""@,
            LinuxTransmitRejection::TooManyGsoSegments { segments, maximum } =>
            "UDP GSO aggregate has "@ + decimal(segments as nat) + " segments, above maximum "@
                + decimal(maximum as nat) + ""@,
        }
    }

    /// Returns the diagnostic text of this rejection.
    pub fn message(&self) -> (text: String)
        ensures
            text@ == self.message_text(),
    {
        match *self {
            LinuxTransmitRejection::WrongSocket { expected, actual } => with_two_numbers(
                "socket ID ",
                actual as u64,
                " does not match adapter ",
                expected as u64,
                "",
            ),
            LinuxTransmitRejection::InvalidIpv4Scope => fixed(
                "IPv4 endpoint has a non-zero scope ID",
            ),
            LinuxTransmitRejection::ZeroDestinationPort => fixed("destination port is zero"),
            LinuxTransmitRejection::SourcePortMismatch { expected, actual } => with_two_numbers(
                "source port ",
                actual as u64,
                " does not match bound port ",
                expected as u64,
                "",
            ),
            LinuxTransmitRejection::AddressFamilyMismatch => fixed(
                "source, destination, and socket address families differ",
            ),
            LinuxTransmitRejection::HeterogeneousBatch => fixed(
                "batch source, interface, ECN, or GSO metadata is not homogeneous",
            ),
            LinuxTransmitRejection::InterfaceScopeConflict => fixed(
                "IPv6 scope and requested interface conflict",
            ),
            LinuxTransmitRejection::SourceSelectionUnavailable => fixed(
                "per-datagram source selection is unavailable",
            ),
            LinuxTransmitRejection::InterfaceSelectionUnavailable => fixed(
                "per-datagram interface selection is unavailable",
            ),
            LinuxTransmitRejection::EcnUnavailable => fixed("per-datagram ECN is unavailable"),
            LinuxTransmitRejection::GsoUnavailable => fixed("UDP GSO is unavailable"),
            LinuxTransmitRejection::DatagramTooLarge { length, maximum } => with_two_numbers(
                "datagram length ",
                length as u64,
                " exceeds maximum ",
                maximum as u64,
                "",
            ),
            LinuxTransmitRejection::InvalidGsoSegment { size, length } => with_two_numbers(
                "UDP GSO segment size ",
                size as u64,
                " is invalid for payload length ",
                length as u64,
                "",
            ),
            LinuxTransmitRejection::TooManyGsoSegments { segments, maximum } => with_two_numbers(
                "UDP GSO aggregate has ",
                segments as u64,
                " segments, above maximum ",
                maximum as u64,
                "",
            ),
        }
    }
}

/// Safe Linux adapter failure. `I` is the socket's own failure.
#[derive(Clone, Copy, Debug, PartialEq, Eq)]
pub enum LinuxUdpError<I> {
    Io(I),
    /// The kernel accepted an empty prefix of a batch.
    EmptyPrefix,
    /// The kernel reported a partial datagram.
    PartialDatagram,
    Queue(RuntimeQueueError),
    InvalidMaximumDatagramSize { size: usize },
    ReceiveBufferTooSmall { capacity: usize, required: usize },
    UnsupportedTransmit(LinuxTransmitRejection),
}

impl<I> LinuxUdpError<I> {
    /// The diagnostic text of a failure, given the text of a socket's own failure.
    pub open spec fn message_text(self, socket_text: Seq<char>) -> Seq<char> {
        match self {
            LinuxUdpError::Io(_) => "Linux UDP socket failure: "@ + socket_text,
            LinuxUdpError::EmptyPrefix =>
            "Linux UDP socket failure: sendmmsg accepted an empty prefix"@,
            LinuxUdpError::PartialDatagram =>
            "Linux UDP socket failure: sendmmsg reported a partial UDP datagram"@,
            LinuxUdpError::Queue(error) => "Linux UDP queue failure: "@ + error.message_text(),
            LinuxUdpError::InvalidMaximumDatagramSize { size } =>
            "Linux UDP maximum datagram size "@ + decimal(size as nat) + " is outside 1..=65527"@,
            LinuxUdpError::ReceiveBufferTooSmall { capacity, required } =>
            "receive buffer capacity "@ + decimal(capacity as nat)
                + " is smaller than configured datagram size "@ + decimal(required as nat) + ""@,
            LinuxUdpError::UnsupportedTransmit(reason) =>
            "Linux UDP transmit metadata is unsupported: "@ + reason.message_text(),
        }
    }

    /// Returns the diagnostic text of this failure, given the text of a socket's own failure.
    pub fn message(&self, socket_text: &str) -> (text: String)
        ensures
            text@ == self.message_text(socket_text@),
    {
        match self {
            LinuxUdpError::Io(_) => fixed("Linux UDP socket failure: ").concat(socket_text),
            LinuxUdpError::EmptyPrefix => fixed(
                "Linux UDP socket failure: sendmmsg accepted an empty prefix",
            ),
            LinuxUdpError::PartialDatagram => fixed(
                "Linux UDP socket failure: sendmmsg reported a partial UDP datagram",
            ),
            LinuxUdpError::Queue(error) => fixed("Linux UDP queue failure: ").concat(
                error.message().as_str(),
            ),
            LinuxUdpError::InvalidMaximumDatagramSize { size } => with_number(
                "Linux UDP maximum datagram size ",
                *size as u64,
                " is outside 1..=65527",
            ),
            LinuxUdpError::ReceiveBufferTooSmall { capacity, required } => with_two_numbers(
                "receive buffer capacity ",
                *capacity as u64,
                " is smaller than configured datagram size ",
                *required as u64,
                "",
            ),
            LinuxUdpError::UnsupportedTransmit(reason) => fixed(
                "Linux UDP transmit metadata is unsupported: ",
            ).concat(reason.message().as_str()),
        }
    }
}

/// Whether a capability follows from a configuration and an exactly known local endpoint.
pub open spec fn is_enabled(
    config: LinuxUdpConfig,
    exact_local_endpoint: bool,
    capability: UdpCapability,
) -> bool {
    match capability {
        UdpCapability::BatchedSyscalls => true,
        UdpCapability::ExactReceiveDestination => config.has(LinuxUdpFeature::PacketInfo)
            || exact_local_endpoint,
        UdpCapability::ReceiveInterface => config.has(LinuxUdpFeature::PacketInfo),
        UdpCapability::SourceSelection => config.has(LinuxUdpFeature::PacketInfo),
        UdpCapability::TransmitInterface => config.has(LinuxUdpFeature::PacketInfo),
        UdpCapability::ReceiveEcn => config.has(LinuxUdpFeature::Ecn),
        UdpCapability::TransmitEcn => config.has(LinuxUdpFeature::Ecn),
        UdpCapability::KernelReceiveTimestamp => config.has(
            LinuxUdpFeature::ReceiveKernelTimestamp,
        ),
        UdpCapability::ReceiveDropCounter => config.has(LinuxUdpFeature::ReceiveDropCounter),
        UdpCapability::UdpGro => config.has(LinuxUdpFeature::UdpGro),
        UdpCapability::UdpGso => config.has(LinuxUdpFeature::UdpGso),
        UdpCapability::DeferredCompletion => false,
    }
}

/// What the decisions of one socket depend on.
#[derive(Clone, Copy, PartialEq, Eq)]
pub struct LinuxUdpProfile {
    pub socket_id: u16,
    pub local_endpoint: ScopedEndpoint,
    pub exact_local_endpoint: bool,
    pub maximum_datagram_size: usize,
    pub capabilities: UdpCapabilities,
}

impl LinuxUdpProfile {
    /// Describes a bound and configured socket.
    ///
    /// # Errors
    ///
    /// Returns an error when the maximum is invalid.
    pub fn new<I>(
        socket_id: u16,
        local_endpoint: ScopedEndpoint,
        exact_local_endpoint: bool,
        maximum_datagram_size: usize,
        config: LinuxUdpConfig,
    ) -> (profile: Result<LinuxUdpProfile, LinuxUdpError<I>>)
        ensures
            match profile {
                Ok(profile) => {
                    &&& 1 <= maximum_datagram_size <= MAX_LINUX_DATAGRAM_SIZE
                    &&& profile.socket_id == socket_id
                    &&& profile.local_endpoint == local_endpoint
                    &&& profile.exact_local_endpoint == exact_local_endpoint
                    &&& profile.maximum_datagram_size == maximum_datagram_size
                    &&& forall|capability: UdpCapability| #[trigger]
                        profile.capabilities.has(capability) == is_enabled(
                            config,
                            exact_local_endpoint,
                            capability,
                        )
                },
                Err(error) => {
                    &&& !(1 <= maximum_datagram_size <= MAX_LINUX_DATAGRAM_SIZE)
                    &&& error == LinuxUdpError::<I>::InvalidMaximumDatagramSize {
                        size: maximum_datagram_size,
                    }
                },
            },
    {
        if maximum_datagram_size < 1 || maximum_datagram_size > MAX_LINUX_DATAGRAM_SIZE {
            return Err(LinuxUdpError::InvalidMaximumDatagramSize { size: maximum_datagram_size });
        }
        let mut capabilities = UdpCapabilities::empty().with(UdpCapability::BatchedSyscalls);
        if config.contains(LinuxUdpFeature::PacketInfo) {
            capabilities =
            capabilities.with(UdpCapability::ExactReceiveDestination).with(
                UdpCapability::ReceiveInterface,
            ).with(UdpCapability::SourceSelection).with(UdpCapability::TransmitInterface);
        } else if exact_local_endpoint {
            capabilities = capabilities.with(UdpCapability::ExactReceiveDestination);
        }
        if config.contains(LinuxUdpFeature::Ecn) {
            capabilities =
            capabilities.with(UdpCapability::ReceiveEcn).with(UdpCapability::TransmitEcn);
        }
        if config.contains(LinuxUdpFeature::ReceiveKernelTimestamp) {
            capabilities = capabilities.with(UdpCapability::KernelReceiveTimestamp);
        }
        if config.contains(LinuxUdpFeature::ReceiveDropCounter) {
            capabilities = capabilities.with(UdpCapability::ReceiveDropCounter);
        }
        if config.contains(LinuxUdpFeature::UdpGro) {
            capabilities = capabilities.with(UdpCapability::UdpGro);
        }
        if config.contains(LinuxUdpFeature::UdpGso) {
            capabilities = capabilities.with(UdpCapability::UdpGso);
        }
        Ok(
            LinuxUdpProfile {
                socket_id,
                local_endpoint,
                exact_local_endpoint,
                maximum_datagram_size,
                capabilities,
            },
        )
    }
}

/// The two ECN bits of a codepoint.
pub open spec fn ecn_bits(ecn: EcnCodepoint) -> u8 {
    match ecn {
        EcnCodepoint::NotEct => 0,
        EcnCodepoint::Ect1 => 1,
        EcnCodepoint::Ect0 => 2,
        EcnCodepoint::Ce => 3,
    }
}

/// Returns the two ECN bits of a codepoint.
pub fn ecn_to_bits(ecn: EcnCodepoint) -> (bits: u8)
    ensures
        bits == ecn_bits(ecn),
{
    match ecn {
        EcnCodepoint::NotEct => 0,
        EcnCodepoint::Ect1 => 1,
        EcnCodepoint::Ect0 => 2,
        EcnCodepoint::Ce => 3,
    }
}

/// Returns the codepoint in the low two bits of a traffic class.
pub fn ecn_from_bits(value: u8) -> (ecn: EcnCodepoint)
    ensures
        ecn_bits(ecn) == value % 4,
{
    match value % 4 {
        0 => EcnCodepoint::NotEct,
        1 => EcnCodepoint::Ect1,
        2 => EcnCodepoint::Ect0,
        _ => EcnCodepoint::Ce,
    }
}

/// A codepoint read from the bits it was written as is the codepoint.
pub proof fn lemma_ecn_bits_are_injective(left: EcnCodepoint, right: EcnCodepoint)
    ensures
        ecn_bits(left) < 4,
        ecn_bits(left) == ecn_bits(right) ==> left == right,
{
}

} // verus!
