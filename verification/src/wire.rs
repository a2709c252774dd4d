//! Packet-level constants, the short header, DATA frames and codec failures.

use vstd::prelude::*;

use crate::bytes::{be16, be16_at, be32, be32_at, be64_at, overwrite_prefix};
use crate::bytes::{get_array, get_u16, get_u32, get_u64, part, put, put_u16, put_u32, put_u8};
use crate::bytes::{
    group_buffer_writes, lemma_be16_inverse, lemma_be16_of_bytes, lemma_be32_inverse,
    lemma_be32_of_bytes,
};
use crate::text::{decimal, fixed, with_two_numbers};

pub mod ack;
pub mod long;

verus! {

/// Authentication tag size of every negotiable AEAD.
pub const AEAD_TAG_LEN: usize = 16;

/// Destination connection ID size in a short header.
pub const SHORT_CONNECTION_ID_LEN: usize = 8;

/// Size of a complete short header.
pub const SHORT_HEADER_LEN: usize = 13;

/// Size of the DATA metadata that precedes a fragment.
pub const DATA_METADATA_LEN: usize = 12;

/// Distance between two packet numbers with the same truncated form.
pub const PACKET_NUMBER_WINDOW: u64 = 0x1_0000_0000;

/// Wire codec failures.
#[derive(Clone, Copy, Debug, PartialEq, Eq, Structural)]
pub enum WireError {
    PacketTooShort { minimum: usize, actual: usize },
    BufferTooSmall { needed: usize, available: usize },
    LengthMismatch { expected: usize, actual: usize },
    LengthOverflow,
    InvalidFragmentBounds,
    FrameValueTooLarge { length: usize, maximum: usize },
    ConnectionIdTooLong { length: usize, maximum: usize },
    HandshakeMessageTooLarge { length: usize, maximum: usize },
    InvalidShortHeader(u8),
    InvalidAckRange,
}

impl WireError {
    /// The diagnostic text of a failure.
    pub open spec fn message_text(self) -> Seq<char> {
        match self {
            WireError::PacketTooShort { minimum, actual } => "packet too short: minimum "@
                + decimal(minimum as nat) + ", actual "@ + decimal(actual as nat) + ""@,
            WireError::BufferTooSmall { needed, available } => "output too small: needed "@
                + decimal(needed as nat) + ", available "@ + decimal(available as nat) + ""@,
            WireError::LengthMismatch { expected, actual } => "length mismatch: expected "@
                + decimal(expected as nat) + ", actual "@ + decimal(actual as nat) + ""@,
            WireError::LengthOverflow => "length overflow"@,
            WireError::InvalidFragmentBounds => "invalid fragment bounds"@,
            WireError::FrameValueTooLarge { length, maximum } => "frame value too large: length "@
                + decimal(length as nat) + ", maximum "@ + decimal(maximum as nat) + ""@,
            WireError::ConnectionIdTooLong { length, maximum } => "connection ID too long: length "@
                + decimal(length as nat) + ", maximum "@ + decimal(maximum as nat) + ""@,
            WireError::HandshakeMessageTooLarge { length, maximum } =>
            "handshake message too large: length "@ + decimal(length as nat) + ", maximum "@
                + decimal(maximum as nat) + ""@,
            WireError::InvalidShortHeader(flags) => "invalid short header flags"@,
            WireError::InvalidAckRange => "invalid acknowledgement range"@,
        }
    }

    /// Returns the diagnostic text of this failure.
    pub fn message(&self) -> (text: String)
        ensures
            text@ == self.message_text(),
    {
        match *self {
            WireError::PacketTooShort { minimum, actual } => with_two_numbers(
                "packet too short: minimum ",
                minimum as u64,
                ", actual ",
                actual as u64,
                "",
            ),
            WireError::BufferTooSmall { needed, available } => with_two_numbers(
                "output too small: needed ",
                needed as u64,
                ", available ",
                available as u64,
                "",
            ),
            WireError::LengthMismatch { expected, actual } => with_two_numbers(
                "length mismatch: expected ",
                expected as u64,
                ", actual ",
                actual as u64,
                "",
            ),
            WireError::LengthOverflow => fixed("length overflow"),
            WireError::InvalidFragmentBounds => fixed("invalid fragment bounds"),
            WireError::FrameValueTooLarge { length, maximum } => with_two_numbers(
                "frame value too large: length ",
                length as u64,
                ", maximum ",
                maximum as u64,
                "",
            ),
            WireError::ConnectionIdTooLong { length, maximum } => with_two_numbers(
                "connection ID too long: length ",
                length as u64,
                ", maximum ",
                maximum as u64,
                "",
            ),
            WireError::HandshakeMessageTooLarge { length, maximum } => with_two_numbers(
                "handshake message too large: length ",
                length as u64,
                ", maximum ",
                maximum as u64,
                "",
            ),
            WireError::InvalidShortHeader(_) => fixed("invalid short header flags"),
            WireError::InvalidAckRange => fixed("invalid acknowledgement range"),
        }
    }
}

/// The failure of reading `length` bytes at `offset` from `available` bytes, if any.
pub open spec fn read_failure(available: nat, offset: usize, length: nat) -> Option<WireError> {
    if offset + length > usize::MAX {
        Some(WireError::LengthOverflow)
    } else if offset + length > available {
        Some(
            WireError::PacketTooShort {
                minimum: (offset + length) as usize,
                actual: available as usize,
            },
        )
    } else {
        None
    }
}

fn check_read(available: usize, offset: usize, length: usize) -> (checked: Result<(), WireError>)
    ensures
        checked == match read_failure(available as nat, offset, length as nat) {
            Some(error) => Err::<(), WireError>(error),
            None => Ok(()),
        },
{
    match offset.checked_add(length) {
        None => Err(WireError::LengthOverflow),
        Some(end) => {
            if end > available {
                Err(WireError::PacketTooShort { minimum: end, actual: available })
            } else {
                Ok(())
            }
        },
    }
}

/// Reads a big-endian 16-bit integer at `offset`.
pub fn read_u16(input: &[u8], offset: usize) -> (value: Result<u16, WireError>)
    ensures
        value == match read_failure(input@.len(), offset, 2) {
            Some(error) => Err::<u16, WireError>(error),
            None => Ok(be16_at(input@, offset as int)),
        },
{
    match check_read(input.len(), offset, 2) {
        Ok(()) => Ok(get_u16(input, offset)),
        Err(error) => Err(error),
    }
}

/// Reads a big-endian 32-bit integer at `offset`.
pub fn read_u32(input: &[u8], offset: usize) -> (value: Result<u32, WireError>)
    ensures
        value == match read_failure(input@.len(), offset, 4) {
            Some(error) => Err::<u32, WireError>(error),
            None => Ok(be32_at(input@, offset as int)),
        },
{
    match check_read(input.len(), offset, 4) {
        Ok(()) => Ok(get_u32(input, offset)),
        Err(error) => Err(error),
    }
}

/// Reads a big-endian 64-bit integer at `offset`.
pub fn read_u64(input: &[u8], offset: usize) -> (value: Result<u64, WireError>)
    ensures
        value == match read_failure(input@.len(), offset, 8) {
            Some(error) => Err::<u64, WireError>(error),
            None => Ok(be64_at(input@, offset as int)),
        },
{
    match check_read(input.len(), offset, 8) {
        Ok(()) => Ok(get_u64(input, offset)),
        Err(error) => Err(error),
    }
}

/// Frame class carried by a short packet.
#[derive(Clone, Copy, Debug, PartialEq, Eq, Structural)]
pub enum PacketClass {
    Data,
    Ack,
    Control,
    Probe,
}

impl PacketClass {
    /// Flag bits of a class.
    pub open spec fn flag_bits(self) -> u8 {
        match self {
            PacketClass::Data => 0x00,
            PacketClass::Ack => 0x20,
            PacketClass::Control => 0x40,
            PacketClass::Probe => 0x60,
        }
    }
}

/// Unprotected short header.
#[derive(Clone, Copy, Debug, PartialEq, Eq)]
pub struct ShortHeader {
    pub class: PacketClass,
    pub key_phase: bool,
    pub destination_connection_id: [u8; SHORT_CONNECTION_ID_LEN],
    pub truncated_packet_number: u32,
}

impl ShortHeader {
    /// Flag byte: class, key phase, and a clear form bit.
    pub open spec fn flags(self) -> u8 {
        (self.class.flag_bits() + if self.key_phase {
            0x10int
        } else {
            0
        }) as u8
    }

    /// Canonical bytes of the header.
    pub open spec fn encoding(self) -> Seq<u8> {
        seq![self.flags()] + self.destination_connection_id@ + be32(self.truncated_packet_number)
    }

    /// Encodes the unprotected header.
    pub fn encode(self, output: &mut [u8]) -> (written: Result<usize, WireError>)
        ensures
            old(output)@.len() < SHORT_HEADER_LEN ==> {
                &&& written == Err::<usize, WireError>(
                    WireError::BufferTooSmall {
                        needed: SHORT_HEADER_LEN,
                        available: old(output)@.len() as usize,
                    },
                )
                &&& final(output)@ == old(output)@
            },
            old(output)@.len() >= SHORT_HEADER_LEN ==> {
                &&& written == Ok::<usize, WireError>(SHORT_HEADER_LEN)
                &&& final(output)@ == overwrite_prefix(old(output)@, self.encoding())
            },
    {
        broadcast use group_buffer_writes;

        if output.len() < SHORT_HEADER_LEN {
            return Err(
                WireError::BufferTooSmall { needed: SHORT_HEADER_LEN, available: output.len() },
            );
        }
        let class_bits: u8 = match self.class {
            PacketClass::Data => 0x00,
            PacketClass::Ack => 0x20,
            PacketClass::Control => 0x40,
            PacketClass::Probe => 0x60,
        };
        let flags: u8 = if self.key_phase {
            class_bits + 0x10
        } else {
            class_bits
        };
        let mut at: usize = put_u8(output, 0, flags);
        at = put(output, at, &self.destination_connection_id);
        at = put_u32(output, at, self.truncated_packet_number);
        Ok(at)
    }

    /// The header a flag byte describes, apart from its other fields.
    pub open spec fn class_of_flags(flags: u8) -> Option<(PacketClass, bool)> {
        if flags == 0x00 {
            Some((PacketClass::Data, false))
        } else if flags == 0x10 {
            Some((PacketClass::Data, true))
        } else if flags == 0x20 {
            Some((PacketClass::Ack, false))
        } else if flags == 0x30 {
            Some((PacketClass::Ack, true))
        } else if flags == 0x40 {
            Some((PacketClass::Control, false))
        } else if flags == 0x50 {
            Some((PacketClass::Control, true))
        } else if flags == 0x60 {
            Some((PacketClass::Probe, false))
        } else if flags == 0x70 {
            Some((PacketClass::Probe, true))
        } else {
            None
        }
    }

    /// Decodes a header whose protection has been removed.
    pub fn decode_unprotected(packet: &[u8]) -> (decoded: Result<ShortHeader, WireError>)
        ensures
            packet@.len() < SHORT_HEADER_LEN ==> decoded == Err::<ShortHeader, WireError>(
                WireError::PacketTooShort {
                    minimum: SHORT_HEADER_LEN,
                    actual: packet@.len() as usize,
                },
            ),
            packet@.len() >= SHORT_HEADER_LEN && Self::class_of_flags(packet@[0]) is None
                ==> decoded == Err::<ShortHeader, WireError>(
                WireError::InvalidShortHeader(packet@[0]),
            ),
            packet@.len() >= SHORT_HEADER_LEN && Self::class_of_flags(packet@[0]) is Some ==> {
                &&& decoded is Ok
                &&& decoded->Ok_0.encoding() == packet@.take(SHORT_HEADER_LEN as int)
            },
    {
        if packet.len() < SHORT_HEADER_LEN {
            return Err(
                WireError::PacketTooShort { minimum: SHORT_HEADER_LEN, actual: packet.len() },
            );
        }
        let flags: u8 = packet[0];
        let (class, key_phase) = match flags {
            0x00 => (PacketClass::Data, false),
            0x10 => (PacketClass::Data, true),
            0x20 => (PacketClass::Ack, false),
            0x30 => (PacketClass::Ack, true),
            0x40 => (PacketClass::Control, false),
            0x50 => (PacketClass::Control, true),
            0x60 => (PacketClass::Probe, false),
            0x70 => (PacketClass::Probe, true),
            _ => {
                return Err(WireError::InvalidShortHeader(flags));
            },
        };
        let header = ShortHeader {
            class,
            key_phase,
            destination_connection_id: get_array::<SHORT_CONNECTION_ID_LEN>(packet, 1),
            truncated_packet_number: get_u32(packet, 9),
        };
        proof {
            lemma_be32_of_bytes(packet@, 9);
            assert(header.encoding() =~= packet@.take(SHORT_HEADER_LEN as int));
        }
        Ok(header)
    }
}

/// Decoding an encoded short header gives that header back: equal encodings are equal headers,
/// and every encoding has flags that decode.
pub proof fn lemma_short_header_round_trip(left: ShortHeader, right: ShortHeader)
    ensures
        left.encoding().len() == SHORT_HEADER_LEN,
        ShortHeader::class_of_flags(left.encoding()[0]) == Some((left.class, left.key_phase)),
        left.encoding() == right.encoding() ==> left == right,
{
    if left.encoding() == right.encoding() {
        let bytes = left.encoding();
        assert(bytes[0] == left.flags());
        assert(bytes[0] == right.flags());
        assert(bytes.subrange(1, 9) =~= left.destination_connection_id@);
        assert(bytes.subrange(1, 9) =~= right.destination_connection_id@);
        assert(left.destination_connection_id =~= right.destination_connection_id);
        lemma_be32_inverse(left.truncated_packet_number);
        lemma_be32_inverse(right.truncated_packet_number);
        assert(bytes.subrange(9, 13) =~= be32(left.truncated_packet_number));
        assert(bytes.subrange(9, 13) =~= be32(right.truncated_packet_number));
        assert(left == right);
    }
}

/// The packet number a truncated form stands for when `expected` is the next one awaited.
pub open spec fn reconstructed(truncated: u32, expected: u64) -> int {
    let candidate = expected - expected % PACKET_NUMBER_WINDOW + truncated;
    if candidate + 0x8000_0000 <= expected && candidate + PACKET_NUMBER_WINDOW <= u64::MAX {
        candidate + PACKET_NUMBER_WINDOW
    } else if candidate > expected + 0x8000_0000 && candidate >= PACKET_NUMBER_WINDOW {
        candidate - PACKET_NUMBER_WINDOW
    } else {
        candidate
    }
}

/// Reconstructs a full packet number from its low 32 bits.
pub fn reconstruct_packet_number(truncated: u32, expected: u64) -> (number: u64)
    ensures
        number == reconstructed(truncated, expected),
{
    let candidate: u64 = expected - expected % PACKET_NUMBER_WINDOW + truncated as u64;
    if candidate < expected && expected - candidate >= 0x8000_0000 && candidate <= u64::MAX
        - PACKET_NUMBER_WINDOW {
        candidate + PACKET_NUMBER_WINDOW
    } else if candidate > expected && candidate - expected > 0x8000_0000 && candidate
        >= PACKET_NUMBER_WINDOW {
        candidate - PACKET_NUMBER_WINDOW
    } else {
        candidate
    }
}

/// A packet number less than half a window away from the expected one is recovered from its
/// truncated form.
pub proof fn lemma_reconstruction_recovers(number: u64, expected: u64)
    requires
        number < expected + 0x8000_0000,
        expected < number + 0x8000_0000,
    ensures
        reconstructed((number % PACKET_NUMBER_WINDOW) as u32, expected) == number,
{
}

/// Position of one DATA fragment inside its object.
#[derive(Clone, Copy, Debug, PartialEq, Eq, Structural)]
pub struct DataMetadata {
    pub object_slot: u16,
    pub chunk_index: u32,
    pub fragment_offset: u32,
    pub fragment_length: u16,
}

impl DataMetadata {
    /// Canonical bytes of the metadata.
    pub open spec fn encoding(self) -> Seq<u8> {
        be16(self.object_slot) + be32(self.chunk_index) + be32(self.fragment_offset) + be16(
            self.fragment_length,
        )
    }

    /// Encodes the metadata and its fragment as DATA plaintext.
    pub fn encode_with_fragment(self, fragment: &[u8], output: &mut [u8]) -> (written: Result<
        usize,
        WireError,
    >)
        ensures
            fragment@.len() != self.fragment_length ==> {
                &&& written == Err::<usize, WireError>(
                    WireError::LengthMismatch {
                        expected: self.fragment_length as usize,
                        actual: fragment@.len() as usize,
                    },
                )
                &&& final(output)@ == old(output)@
            },
            fragment@.len() == self.fragment_length && old(output)@.len() < DATA_METADATA_LEN
                + fragment@.len() ==> {
                &&& written == Err::<usize, WireError>(
                    WireError::BufferTooSmall {
                        needed: (DATA_METADATA_LEN + fragment@.len()) as usize,
                        available: old(output)@.len() as usize,
                    },
                )
                &&& final(output)@ == old(output)@
            },
            fragment@.len() == self.fragment_length && old(output)@.len() >= DATA_METADATA_LEN
                + fragment@.len() ==> {
                &&& written == Ok::<usize, WireError>(
                    (DATA_METADATA_LEN + fragment@.len()) as usize,
                )
                &&& final(output)@ == overwrite_prefix(old(output)@, self.encoding() + fragment@)
            },
    {
        broadcast use group_buffer_writes;

        if fragment.len() != self.fragment_length as usize {
            return Err(
                WireError::LengthMismatch {
                    expected: self.fragment_length as usize,
                    actual: fragment.len(),
                },
            );
        }
        let needed: usize = DATA_METADATA_LEN + fragment.len();
        if output.len() < needed {
            return Err(WireError::BufferTooSmall { needed, available: output.len() });
        }
        let mut at: usize = put_u16(output, 0, self.object_slot);
        at = put_u32(output, at, self.chunk_index);
        at = put_u32(output, at, self.fragment_offset);
        at = put_u16(output, at, self.fragment_length);
        at = put(output, at, fragment);
        Ok(at)
    }
}

/// Borrowed DATA plaintext.
#[derive(Clone, Copy, Debug, PartialEq, Eq)]
pub struct DataFrame<'a> {
    pub metadata: DataMetadata,
    pub fragment: &'a [u8],
}

impl<'a> DataFrame<'a> {
    /// Decodes exact DATA plaintext.
    pub fn decode_plaintext(input: &'a [u8]) -> (decoded: Result<DataFrame<'a>, WireError>)
        ensures
            input@.len() < DATA_METADATA_LEN ==> decoded == Err::<DataFrame<'a>, WireError>(
                WireError::PacketTooShort {
                    minimum: DATA_METADATA_LEN,
                    actual: input@.len() as usize,
                },
            ),
            input@.len() >= DATA_METADATA_LEN && be16_at(input@, 10) + DATA_METADATA_LEN
                != input@.len() ==> decoded == Err::<DataFrame<'a>, WireError>(
                WireError::LengthMismatch {
                    expected: (be16_at(input@, 10) + DATA_METADATA_LEN) as usize,
                    actual: input@.len() as usize,
                },
            ),
            input@.len() >= DATA_METADATA_LEN && be16_at(input@, 10) + DATA_METADATA_LEN
                == input@.len() ==> {
                &&& decoded is Ok
                &&& decoded->Ok_0.metadata.encoding() + decoded->Ok_0.fragment@ == input@
                &&& decoded->Ok_0.fragment@.len() == decoded->Ok_0.metadata.fragment_length
            },
    {
        if input.len() < DATA_METADATA_LEN {
            return Err(
                WireError::PacketTooShort { minimum: DATA_METADATA_LEN, actual: input.len() },
            );
        }
        let metadata = DataMetadata {
            object_slot: get_u16(input, 0),
            chunk_index: get_u32(input, 2),
            fragment_offset: get_u32(input, 6),
            fragment_length: get_u16(input, 10),
        };
        let expected: usize = DATA_METADATA_LEN + metadata.fragment_length as usize;
        if input.len() != expected {
            return Err(WireError::LengthMismatch { expected, actual: input.len() });
        }
        let fragment: &'a [u8] = part(input, DATA_METADATA_LEN, input.len());
        proof {
            lemma_be16_of_bytes(input@, 0);
            lemma_be32_of_bytes(input@, 2);
            lemma_be32_of_bytes(input@, 6);
            lemma_be16_of_bytes(input@, 10);
            assert(metadata.encoding() + fragment@ =~= input@);
        }
        Ok(DataFrame { metadata, fragment })
    }
}

/// A DATA plaintext determines its metadata and its fragment.
pub proof fn lemma_data_round_trip(
    left: DataMetadata,
    left_fragment: Seq<u8>,
    right: DataMetadata,
    right_fragment: Seq<u8>,
)
    requires
        left.encoding() + left_fragment == right.encoding() + right_fragment,
    ensures
        left == right,
        left_fragment == right_fragment,
{
    let bytes = left.encoding() + left_fragment;
    lemma_be16_inverse(left.object_slot);
    lemma_be16_inverse(right.object_slot);
    lemma_be32_inverse(left.chunk_index);
    lemma_be32_inverse(right.chunk_index);
    lemma_be32_inverse(left.fragment_offset);
    lemma_be32_inverse(right.fragment_offset);
    lemma_be16_inverse(left.fragment_length);
    lemma_be16_inverse(right.fragment_length);
    assert(bytes.subrange(0, 2) =~= be16(left.object_slot));
    assert(bytes.subrange(0, 2) =~= be16(right.object_slot));
    assert(bytes.subrange(2, 6) =~= be32(left.chunk_index));
    assert(bytes.subrange(2, 6) =~= be32(right.chunk_index));
    assert(bytes.subrange(6, 10) =~= be32(left.fragment_offset));
    assert(bytes.subrange(6, 10) =~= be32(right.fragment_offset));
    assert(bytes.subrange(10, 12) =~= be16(left.fragment_length));
    assert(bytes.subrange(10, 12) =~= be16(right.fragment_length));
    assert(bytes.skip(12) =~= left_fragment);
    assert(bytes.skip(12) =~= right_fragment);
}

} // verus!
