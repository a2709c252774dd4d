//! Fixed-capacity building blocks for a single-owner UDP event loop.
//!
//! This module owns no socket and performs no system call. It provides the bounded buffer queues,
//! kernel-completion ownership, endpoint metadata, and monotonic timer queue needed by portable and
//! platform-specific adapters.

pub mod identity;
pub mod index_queue;
pub mod linux;
pub mod pool;
pub mod portable;
pub mod receive;
pub mod socket;
pub mod timer;
pub mod transmit;

pub use crate::runtime::receive::{
    DatagramSegments, ReceiveQueue, ReceiveReservation, ReceivedDatagram, ReceivedDatagramView,
};
pub use crate::runtime::timer::{
    RuntimeTimerError, RuntimeTimerEvent, RuntimeTimerKind, RuntimeTimerQueue, RuntimeTimerToken,
    TimerOwner,
};
pub use crate::runtime::transmit::{
    TransmitCompletionTag, TransmitDatagram, TransmitDatagramView, TransmitQueue,
    TransmitReservation,
};

use vstd::prelude::*;
use vstd::string::*;

use crate::ecn::EcnCodepoint;
use crate::text::{decimal, fixed, with_number, with_two_numbers};

verus! {

/// A 16-bit number other than zero.
#[derive(Clone, Copy, Debug, PartialEq, Eq, Hash, Structural)]
pub struct NonZeroU16 {
    value: u16,
}

impl NonZeroU16 {
    #[verifier::type_invariant]
    closed spec fn is_not_zero(self) -> bool {
        self.value != 0
    }

    /// The number.
    pub closed spec fn number(self) -> u16 {
        self.value
    }

    /// Returns the number unless it is zero.
    pub fn new(value: u16) -> (number: Option<NonZeroU16>)
        ensures
            match number {
                Some(number) => value != 0 && number.number() == value,
                None => value == 0,
            },
    {
        if value == 0 {
            None
        } else {
            Some(NonZeroU16 { value })
        }
    }

    /// Returns the number.
    pub fn get(self) -> (value: u16)
        ensures
            value == self.number(),
            value != 0,
    {
        proof {
            use_type_invariant(&self);
        }
        self.value
    }
}

/// IPv4 or IPv6 address stored without allocation.
#[derive(Clone, Copy, Debug, PartialEq, Eq, Hash)]
pub enum IpAddress {
    V4([u8; 4]),
    V6([u8; 16]),
}

/// UDP endpoint stored without allocation.
#[derive(Clone, Copy, Debug, PartialEq, Eq, Hash)]
pub struct UdpEndpoint {
    pub address: IpAddress,
    pub port: u16,
}

/// Ancillary metadata attached to one received UDP buffer.
#[derive(Clone, Copy, Debug, PartialEq, Eq)]
pub struct ReceiveMetadata {
    pub source: UdpEndpoint,
    pub destination: UdpEndpoint,
    pub socket_id: u16,
    pub interface_index: u32,
    pub ecn: EcnCodepoint,
    pub received_at_micros: u64,
    /// UDP GRO segment size. `None` means the buffer contains one datagram.
    pub gro_segment_size: Option<NonZeroU16>,
}

/// Routing and ancillary metadata for one outgoing UDP buffer.
#[derive(Clone, Copy, Debug, PartialEq, Eq)]
pub struct TransmitMetadata {
    pub source: UdpEndpoint,
    pub destination: UdpEndpoint,
    pub socket_id: u16,
    pub interface_index: u32,
    pub ecn: EcnCodepoint,
    pub send_not_before_micros: u64,
    /// UDP GSO segment size. `None` submits one datagram.
    pub gso_segment_size: Option<NonZeroU16>,
}

/// Metadata that travels with one buffer.
pub trait BufferMetadata: Copy {
    /// The segment size of a buffer that holds several datagrams.
    spec fn segments(&self) -> Option<NonZeroU16>;

    /// Returns the segment size of a buffer that holds several datagrams.
    fn segment_size(&self) -> (size: Option<NonZeroU16>)
        ensures
            size == self.segments(),
    ;
}

impl BufferMetadata for ReceiveMetadata {
    open spec fn segments(&self) -> Option<NonZeroU16> {
        self.gro_segment_size
    }

    fn segment_size(&self) -> (size: Option<NonZeroU16>) {
        self.gro_segment_size
    }
}

impl BufferMetadata for TransmitMetadata {
    open spec fn segments(&self) -> Option<NonZeroU16> {
        self.gso_segment_size
    }

    fn segment_size(&self) -> (size: Option<NonZeroU16>) {
        self.gso_segment_size
    }
}

/// Fixed queue resource counters.
#[derive(Clone, Copy, Debug, PartialEq, Eq, Structural)]
pub struct BufferQueueStats {
    pub capacity: usize,
    pub free: usize,
    pub ready: usize,
    pub reserved_or_delivered: usize,
    pub kernel_owned: usize,
}

impl BufferQueueStats {
    /// The text of the counters for diagnostics.
    pub open spec fn text(self) -> Seq<char> {
        ("BufferQueueStats { capacity: "@ + decimal(self.capacity as nat) + ", free: "@ + decimal(
            self.free as nat,
        ) + ", ready: "@) + (""@ + decimal(self.ready as nat) + ", reserved_or_delivered: "@
            + decimal(self.reserved_or_delivered as nat) + ", kernel_owned: "@) + (""@ + decimal(
            self.kernel_owned as nat,
        ) + " }"@)
    }

    /// Returns the text of the counters for diagnostics.
    pub fn debug_text(&self) -> (text: String)
        ensures
            text@ == self.text(),
    {
        with_two_numbers(
            "BufferQueueStats { capacity: ",
            self.capacity as u64,
            ", free: ",
            self.free as u64,
            ", ready: ",
        ).concat(
            with_two_numbers(
                "",
                self.ready as u64,
                ", reserved_or_delivered: ",
                self.reserved_or_delivered as u64,
                ", kernel_owned: ",
            ).as_str(),
        ).concat(with_number("", self.kernel_owned as u64, " }").as_str())
    }
}

/// Bounded datagram-queue failure.
#[derive(Clone, Copy, Debug, PartialEq, Eq, Structural)]
pub enum RuntimeQueueError {
    PoolExhausted,
    GenerationExhausted,
    InvalidOwnership,
    EmptyDatagram,
    DatagramTooLarge { length: usize, capacity: usize },
    InvalidSegmentSize { segment_size: usize, length: usize },
    InvariantViolation,
}

impl RuntimeQueueError {
    /// The diagnostic text of a failure.
    pub open spec fn message_text(self) -> Seq<char> {
        match self {
            RuntimeQueueError::PoolExhausted => "fixed datagram pool exhausted"@,
            RuntimeQueueError::GenerationExhausted => "datagram generation exhausted"@,
            RuntimeQueueError::InvalidOwnership => "invalid datagram buffer ownership"@,
            RuntimeQueueError::EmptyDatagram => "empty OGTP datagram"@,
            RuntimeQueueError::DatagramTooLarge { length, capacity } => "datagram length "@
                + decimal(length as nat) + " exceeds buffer capacity "@ + decimal(capacity as nat)
                + ""@,
            RuntimeQueueError::InvalidSegmentSize { segment_size, length } => "UDP segment size "@
                + decimal(segment_size as nat) + " is invalid for buffer length "@ + decimal(
                length as nat,
            ) + ""@,
            RuntimeQueueError::InvariantViolation => "datagram queue invariant violation"@,
        }
    }

    /// Returns the diagnostic text of this failure.
    pub fn message(&self) -> (text: String)
        ensures
            text@ == self.message_text(),
    {
        match *self {
            RuntimeQueueError::PoolExhausted => fixed("fixed datagram pool exhausted"),
            RuntimeQueueError::GenerationExhausted => fixed("datagram generation exhausted"),
            RuntimeQueueError::InvalidOwnership => fixed("invalid datagram buffer ownership"),
            RuntimeQueueError::EmptyDatagram => fixed("empty OGTP datagram"),
            RuntimeQueueError::DatagramTooLarge { length, capacity } => with_two_numbers(
                "datagram length ",
                length as u64,
                " exceeds buffer capacity ",
                capacity as u64,
                "",
            ),
            RuntimeQueueError::InvalidSegmentSize { segment_size, length } => with_two_numbers(
                "UDP segment size ",
                segment_size as u64,
                " is invalid for buffer length ",
                length as u64,
                "",
            ),
            RuntimeQueueError::InvariantViolation => fixed("datagram queue invariant violation"),
        }
    }
}

} // verus!
