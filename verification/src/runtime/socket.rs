//! Endpoints, metadata and capabilities that socket adapters exchange with the event loop.

use vstd::prelude::*;

use crate::bytes::bytes_equal;
use crate::ecn::EcnCodepoint;
use crate::runtime::{BufferMetadata, IpAddress, NonZeroU16};

verus! {

/// UDP endpoint with the scope of an IPv6 address; the scope of an IPv4 address is zero.
#[derive(Clone, Copy, Debug, PartialEq, Eq, Hash)]
pub struct ScopedEndpoint {
    pub address: IpAddress,
    pub port: u16,
    pub scope_id: u32,
}

/// Whether two addresses are equal.
pub fn addresses_equal(left: &IpAddress, right: &IpAddress) -> (equal: bool)
    ensures
        equal == (*left == *right),
{
    match (left, right) {
        (IpAddress::V4(a), IpAddress::V4(b)) => {
            let equal: bool = bytes_equal(a, b);
            proof {
                if equal {
                    assert(a =~= b);
                }
            }
            equal
        },
        (IpAddress::V6(a), IpAddress::V6(b)) => {
            let equal: bool = bytes_equal(a, b);
            proof {
                if equal {
                    assert(a =~= b);
                }
            }
            equal
        },
        _ => false,
    }
}

/// Whether two endpoints are equal.
pub fn endpoints_equal(left: &ScopedEndpoint, right: &ScopedEndpoint) -> (equal: bool)
    ensures
        equal == (*left == *right),
{
    left.port == right.port && left.scope_id == right.scope_id && addresses_equal(
        &left.address,
        &right.address,
    )
}

/// Ancillary metadata that a socket adapter attaches to one received buffer. What the adapter could
/// not learn is absent.
#[derive(Clone, Copy, Debug, PartialEq, Eq)]
pub struct SocketReceiveMetadata {
    pub source: ScopedEndpoint,
    pub destination: Option<ScopedEndpoint>,
    pub socket_id: u16,
    pub interface_index: Option<u32>,
    pub ecn: Option<EcnCodepoint>,
    pub received_at_micros: u64,
    pub kernel_timestamp_unix_nanos: Option<u64>,
    pub socket_drop_count: Option<u32>,
    pub gro_segment_size: Option<NonZeroU16>,
}

/// Routing and ancillary metadata that a socket adapter applies to one outgoing buffer. What is
/// absent is left to the socket.
#[derive(Clone, Copy, Debug, PartialEq, Eq)]
pub struct SocketTransmitMetadata {
    pub source: Option<ScopedEndpoint>,
    pub destination: ScopedEndpoint,
    pub socket_id: u16,
    pub interface_index: Option<u32>,
    pub ecn: EcnCodepoint,
    pub send_not_before_micros: u64,
    pub gso_segment_size: Option<NonZeroU16>,
}

impl BufferMetadata for SocketReceiveMetadata {
    open spec fn segments(&self) -> Option<NonZeroU16> {
        self.gro_segment_size
    }

    fn segment_size(&self) -> (size: Option<NonZeroU16>) {
        self.gro_segment_size
    }
}

impl BufferMetadata for SocketTransmitMetadata {
    open spec fn segments(&self) -> Option<NonZeroU16> {
        self.gso_segment_size
    }

    fn segment_size(&self) -> (size: Option<NonZeroU16>) {
        self.gso_segment_size
    }
}

/// One socket-adapter feature.
#[derive(Clone, Copy, Debug, PartialEq, Eq, Structural)]
pub enum UdpCapability {
    ExactReceiveDestination,
    ReceiveInterface,
    ReceiveEcn,
    KernelReceiveTimestamp,
    ReceiveDropCounter,
    UdpGro,
    SourceSelection,
    TransmitInterface,
    TransmitEcn,
    UdpGso,
    BatchedSyscalls,
    DeferredCompletion,
}

impl UdpCapability {
    /// The bit of a capability.
    pub open spec fn bit(self) -> u16 {
        match self {
            UdpCapability::ExactReceiveDestination => 0x001,
            UdpCapability::ReceiveInterface => 0x002,
            UdpCapability::ReceiveEcn => 0x004,
            UdpCapability::KernelReceiveTimestamp => 0x008,
            UdpCapability::ReceiveDropCounter => 0x010,
            UdpCapability::UdpGro => 0x020,
            UdpCapability::SourceSelection => 0x040,
            UdpCapability::TransmitInterface => 0x080,
            UdpCapability::TransmitEcn => 0x100,
            UdpCapability::UdpGso => 0x200,
            UdpCapability::BatchedSyscalls => 0x400,
            UdpCapability::DeferredCompletion => 0x800,
        }
    }

    fn mask(self) -> (mask: u16)
        ensures
            mask == self.bit(),
    {
        match self {
            UdpCapability::ExactReceiveDestination => 0x001,
            UdpCapability::ReceiveInterface => 0x002,
            UdpCapability::ReceiveEcn => 0x004,
            UdpCapability::KernelReceiveTimestamp => 0x008,
            UdpCapability::ReceiveDropCounter => 0x010,
            UdpCapability::UdpGro => 0x020,
            UdpCapability::SourceSelection => 0x040,
            UdpCapability::TransmitInterface => 0x080,
            UdpCapability::TransmitEcn => 0x100,
            UdpCapability::UdpGso => 0x200,
            UdpCapability::BatchedSyscalls => 0x400,
            UdpCapability::DeferredCompletion => 0x800,
        }
    }
}

/// Whether a bit is set in a set of bits.
pub open spec fn has_bit(bits: u16, bit: u16) -> bool {
    bits & bit != 0
}

/// Setting one of two bits changes the other only if they are the same.
pub proof fn lemma_set_bit(bits: u16, set: u16, asked: u16)
    requires
        set & asked == if set == asked {
            asked
        } else {
            0
        },
        asked != 0,
    ensures
        has_bit(bits | set, asked) == (has_bit(bits, asked) || set == asked),
{
    assert(((bits | set) & asked != 0) == (bits & asked != 0 || set & asked != 0)) by (bit_vector);
}

/// Capability bits are single and distinct.
pub proof fn lemma_capability_bits(left: UdpCapability, right: UdpCapability)
    ensures
        left.bit() != 0,
        left.bit() & right.bit() == if left.bit() == right.bit() {
            right.bit()
        } else {
            0
        },
        (left.bit() == right.bit()) == (left == right),
{
    lemma_single_bits(left.bit(), right.bit());
}

/// Two powers of two share a bit only if they are equal.
pub proof fn lemma_single_bits(left: u16, right: u16)
    requires
        is_single_bit(left),
        is_single_bit(right),
    ensures
        left & right == if left == right {
            right
        } else {
            0
        },
{
    assert(left & right == (if left == right {
        right
    } else {
        0
    })) by (bit_vector)
        requires
            left == 0x001 || left == 0x002 || left == 0x004 || left == 0x008 || left == 0x010
                || left == 0x020 || left == 0x040 || left == 0x080 || left == 0x100 || left == 0x200
                || left == 0x400 || left == 0x800,
            right == 0x001 || right == 0x002 || right == 0x004 || right == 0x008 || right == 0x010
                || right == 0x020 || right == 0x040 || right == 0x080 || right == 0x100 || right
                == 0x200 || right == 0x400 || right == 0x800,
    ;
}

/// Whether a number is one of the first twelve powers of two.
pub open spec fn is_single_bit(value: u16) -> bool {
    value == 0x001 || value == 0x002 || value == 0x004 || value == 0x008 || value == 0x010 || value
        == 0x020 || value == 0x040 || value == 0x080 || value == 0x100 || value == 0x200 || value
        == 0x400 || value == 0x800
}

/// Compact set of features observable through one adapter instance.
#[derive(Clone, Copy, Debug, PartialEq, Eq, Structural)]
pub struct UdpCapabilities {
    bits: u16,
}

impl UdpCapabilities {
    /// Whether a capability is in the set.
    pub closed spec fn has(self, capability: UdpCapability) -> bool {
        has_bit(self.bits, capability.bit())
    }

    /// Creates a set without capabilities.
    pub fn empty() -> (capabilities: UdpCapabilities)
        ensures
            forall|capability: UdpCapability| !#[trigger] capabilities.has(capability),
    {
        let capabilities = UdpCapabilities { bits: 0 };
        assert forall|capability: UdpCapability| !#[trigger] capabilities.has(capability) by {
            let bit = capability.bit();
            assert(0u16 & bit == 0) by (bit_vector);
        }
        capabilities
    }

    /// Returns the set with one more capability.
    pub fn with(self, capability: UdpCapability) -> (extended: UdpCapabilities)
        ensures
            forall|other: UdpCapability| #[trigger]
                extended.has(other) == (self.has(other) || other == capability),
    {
        let extended = UdpCapabilities { bits: self.bits | capability.mask() };
        assert forall|other: UdpCapability| #[trigger]
            extended.has(other) == (self.has(other) || other == capability) by {
            lemma_capability_bits(capability, other);
            lemma_capability_bits(other, other);
            lemma_set_bit(self.bits, capability.bit(), other.bit());
        }
        extended
    }

    /// Returns whether the set holds a capability.
    pub fn contains(self, capability: UdpCapability) -> (contained: bool)
        ensures
            contained == self.has(capability),
    {
        self.bits & capability.mask() != 0
    }
}

} // verus!
