//! Long-header packets that carry fragments of handshake messages.

use vstd::prelude::*;

verus! {

/// Largest connection ID in a long header.
pub const MAX_LONG_CONNECTION_ID_LEN: usize = 20;

/// Long-header bytes apart from the two connection IDs.
pub const LONG_HEADER_FIXED_LEN: usize = 17;

/// Largest logical handshake message.
pub const MAX_HANDSHAKE_MESSAGE_LEN: usize = 16_384;

/// Handshake message carried by a long packet.
#[derive(Clone, Copy, Debug, PartialEq, Eq, Structural)]
pub enum LongPacketType {
    Hello,
    Retry,
    Init,
    Response,
    Finish,
    VersionNegotiation,
}

impl LongPacketType {
    /// The name of a packet type.
    pub open spec fn name_text(self) -> Seq<char> {
        match self {
            LongPacketType::Hello => "Hello"@,
            LongPacketType::Retry => "Retry"@,
            LongPacketType::Init => "Init"@,
            LongPacketType::Response => "Response"@,
            LongPacketType::Finish => "Finish"@,
            LongPacketType::VersionNegotiation => "VersionNegotiation"@,
        }
    }

    /// Returns the name of this packet type.
    pub fn name(self) -> (name: &'static str)
        ensures
            name@ == self.name_text(),
    {
        match self {
            LongPacketType::Hello => "Hello",
            LongPacketType::Retry => "Retry",
            LongPacketType::Init => "Init",
            LongPacketType::Response => "Response",
            LongPacketType::Finish => "Finish",
            LongPacketType::VersionNegotiation => "VersionNegotiation",
        }
    }
}

/// Borrowed fields of one long packet.
#[derive(Clone, Copy, Debug, PartialEq, Eq)]
pub struct LongPacket<'a> {
    pub packet_type: LongPacketType,
    pub version: u32,
    pub destination_connection_id: &'a [u8],
    pub source_connection_id: &'a [u8],
    pub message_id: u32,
    pub fragment_offset: u16,
    pub message_length: u16,
    pub fragment: &'a [u8],
}

} // verus!
