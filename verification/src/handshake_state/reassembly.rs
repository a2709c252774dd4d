//! Bounded reassembly of fragmented handshake messages.

use vstd::prelude::*;
use vstd::string::*;

use crate::bytes::{be16_at, bytes_equal, get_array, get_u16, part, put, zeroes};
use crate::handshake::{
    HandshakeError, Hello, Retry, FINISH_LEN, HELLO_LEN, INIT_FIXED_LEN, MAX_RETRY_COOKIE_LEN,
    MIN_RETRY_COOKIE_LEN, RANDOM_LEN, RESPONSE_LEN,
};
use crate::retry::HandshakeAdmissionLease;
use crate::text::{byte_list, byte_list_text, decimal, fixed, with_number, with_two_numbers};
use crate::wire::long::{
    LongPacket, LongPacketType, MAX_HANDSHAKE_MESSAGE_LEN, MAX_LONG_CONNECTION_ID_LEN,
};
use crate::wire::WireError;

verus! {

/// Bytes of a receipt bitmap with one bit per message byte.
const HANDSHAKE_RECEIPT_BITMAP_LEN: usize = 2_048;

/// Admission proof required before a fragmented logical message may reserve a reassembly slot.
#[derive(Clone, Copy, Debug, PartialEq, Eq, Structural)]
pub enum ReassemblyAdmission {
    /// The responder has validated the stateless RETRY cookie from the INIT prefix.
    CookieValidated(HandshakeAdmissionLease),
    /// The connection already owns state that expects RESPONSE or FINISH.
    ExistingHandshake,
}

/// Statelessly parsed INIT prefix needed to validate a RETRY cookie before allocating a full
/// reassembly slot.
#[derive(Clone, Copy, PartialEq, Eq)]
pub struct InitAdmissionView<'a> {
    pub hello: Hello,
    pub server_random: [u8; RANDOM_LEN],
    pub cookie: &'a [u8],
}

/// The text of a HELLO message for diagnostics.
pub open spec fn hello_text(hello: Hello) -> Seq<char> {
    "Hello { client_random: "@ + byte_list(hello.client_random@) + ", identity_fingerprint: "@
        + byte_list(hello.identity_fingerprint@) + (", cipher_suite_bitmap: "@ + decimal(
        hello.cipher_suite_bitmap as nat,
    ) + ", capabilities: "@ + decimal(hello.capabilities as nat) + ", max_udp_payload: "@) + (""@
        + decimal(hello.max_udp_payload as nat) + ", max_paths: "@ + decimal(hello.max_paths as nat)
        + " }"@)
}

fn hello_debug_text(hello: &Hello) -> (text: String)
    ensures
        text@ == hello_text(*hello),
{
    fixed("Hello { client_random: ").concat(byte_list_text(&hello.client_random).as_str()).concat(
        ", identity_fingerprint: ",
    ).concat(byte_list_text(&hello.identity_fingerprint).as_str()).concat(
        with_two_numbers(
            ", cipher_suite_bitmap: ",
            hello.cipher_suite_bitmap as u64,
            ", capabilities: ",
            hello.capabilities as u64,
            ", max_udp_payload: ",
        ).as_str(),
    ).concat(
        with_two_numbers(
            "",
            hello.max_udp_payload as u64,
            ", max_paths: ",
            hello.max_paths as u64,
            " }",
        ).as_str(),
    )
}

impl<'a> InitAdmissionView<'a> {
    /// Returns a text for diagnostics that shows neither the random nor the cookie.
    pub fn debug_text(&self) -> (text: String)
        ensures
            text@ == "InitAdmissionView { hello: "@ + hello_text(self.hello)
                + ", server_random: \"<redacted>\", cookie: \"<redacted>\" }"@,
    {
        fixed("InitAdmissionView { hello: ").concat(hello_debug_text(&self.hello).as_str()).concat(
            ", server_random: \"<redacted>\", cookie: \"<redacted>\" }",
        )
    }
}

/// The failure of a packet's shape, if any: the checks in order.
pub open spec fn shape_failure(packet: LongPacket) -> Option<HandshakeReassemblyError> {
    if packet.destination_connection_id@.len() > MAX_LONG_CONNECTION_ID_LEN {
        Some(
            HandshakeReassemblyError::Wire(
                WireError::ConnectionIdTooLong {
                    length: packet.destination_connection_id@.len() as usize,
                    maximum: MAX_LONG_CONNECTION_ID_LEN,
                },
            ),
        )
    } else if packet.source_connection_id@.len() > MAX_LONG_CONNECTION_ID_LEN {
        Some(
            HandshakeReassemblyError::Wire(
                WireError::ConnectionIdTooLong {
                    length: packet.source_connection_id@.len() as usize,
                    maximum: MAX_LONG_CONNECTION_ID_LEN,
                },
            ),
        )
    } else if packet.message_length > MAX_HANDSHAKE_MESSAGE_LEN {
        Some(
            HandshakeReassemblyError::Wire(
                WireError::HandshakeMessageTooLarge {
                    length: packet.message_length as usize,
                    maximum: MAX_HANDSHAKE_MESSAGE_LEN,
                },
            ),
        )
    } else if packet.fragment_offset + packet.fragment@.len() > usize::MAX {
        Some(HandshakeReassemblyError::Wire(WireError::LengthOverflow))
    } else if packet.fragment_offset + packet.fragment@.len() > packet.message_length {
        Some(HandshakeReassemblyError::Wire(WireError::InvalidFragmentBounds))
    } else {
        None
    }
}

/// The failure of parsing an INIT prefix, if any: the checks in order.
pub open spec fn init_prefix_failure(packet: LongPacket) -> Option<HandshakeReassemblyError> {
    let fragment = packet.fragment@;
    let cookie_length = be16_at(fragment, 122);
    if shape_failure(packet) is Some {
        shape_failure(packet)
    } else if packet.packet_type != LongPacketType::Init {
        Some(HandshakeReassemblyError::UnexpectedPacketType(packet.packet_type))
    } else if packet.fragment_offset != 0 {
        Some(HandshakeReassemblyError::InitPrefixMustStartAtZero)
    } else if fragment.len() < 124 {
        Some(
            HandshakeReassemblyError::InitPrefixTooShort {
                needed: 124,
                actual: fragment.len() as usize,
            },
        )
    } else if Hello::decode_failure(fragment.take(HELLO_LEN as int)) is Some {
        Some(
            HandshakeReassemblyError::Handshake(
                Hello::decode_failure(fragment.take(HELLO_LEN as int))->0,
            ),
        )
    } else if !(MIN_RETRY_COOKIE_LEN <= cookie_length <= MAX_RETRY_COOKIE_LEN) {
        Some(HandshakeReassemblyError::InvalidCookieLength(cookie_length as usize))
    } else if fragment.len() < 124 + cookie_length {
        Some(
            HandshakeReassemblyError::InitPrefixTooShort {
                needed: (124 + cookie_length) as usize,
                actual: fragment.len() as usize,
            },
        )
    } else if packet.message_length != INIT_FIXED_LEN + cookie_length {
        Some(
            HandshakeReassemblyError::InvalidDeclaredMessageLength {
                packet_type: LongPacketType::Init,
                length: packet.message_length as usize,
            },
        )
    } else {
        None
    }
}

/// Extracts the bounded cookie-bearing INIT prefix from fragment zero.
///
/// The caller validates `cookie`, admits the resulting capability through the fixed quota table,
/// and passes the returned lease through [`ReassemblyAdmission::CookieValidated`] to the pool.
///
/// # Errors
///
/// Returns an error for the wrong packet type, a non-zero offset, a short prefix, invalid
/// HELLO/cookie length, or inconsistent logical message length.
pub fn decode_init_admission_prefix<'a>(packet: &LongPacket<'a>) -> (view: Result<
    InitAdmissionView<'a>,
    HandshakeReassemblyError,
>)
    ensures
        match init_prefix_failure(*packet) {
            Some(error) => view == Err::<InitAdmissionView<'a>, HandshakeReassemblyError>(error),
            None => {
                &&& view matches Ok(view)
                &&& view.hello.encoding() == packet.fragment@.take(HELLO_LEN as int)
                &&& view.hello.field_failure() is None
                &&& view.server_random@ == packet.fragment@.subrange(90, 122)
                &&& view.cookie@ == packet.fragment@.subrange(
                    124,
                    124 + be16_at(packet.fragment@, 122),
                )
            },
        },
{
    match validate_long_packet_shape(packet) {
        Ok(()) => {},
        Err(error) => {
            return Err(error);
        },
    }
    if packet.packet_type != LongPacketType::Init {
        return Err(HandshakeReassemblyError::UnexpectedPacketType(packet.packet_type));
    }
    if packet.fragment_offset != 0 {
        return Err(HandshakeReassemblyError::InitPrefixMustStartAtZero);
    }
    let cookie_length_offset: usize = HELLO_LEN + RANDOM_LEN;
    let prefix_fixed: usize = cookie_length_offset + 2;
    if packet.fragment.len() < prefix_fixed {
        return Err(
            HandshakeReassemblyError::InitPrefixTooShort {
                needed: prefix_fixed,
                actual: packet.fragment.len(),
            },
        );
    }
    assert(packet.fragment@.subrange(0, HELLO_LEN as int) =~= packet.fragment@.take(
        HELLO_LEN as int,
    ));
    let hello = match Hello::decode(part(packet.fragment, 0, HELLO_LEN)) {
        Ok(hello) => hello,
        Err(error) => {
            return Err(HandshakeReassemblyError::Handshake(error));
        },
    };
    let server_random: [u8; RANDOM_LEN] = get_array::<RANDOM_LEN>(packet.fragment, HELLO_LEN);
    let cookie_length: usize = get_u16(packet.fragment, cookie_length_offset) as usize;
    if cookie_length < MIN_RETRY_COOKIE_LEN || cookie_length > MAX_RETRY_COOKIE_LEN {
        return Err(HandshakeReassemblyError::InvalidCookieLength(cookie_length));
    }
    let cookie_end: usize = prefix_fixed + cookie_length;
    if packet.fragment.len() < cookie_end {
        return Err(
            HandshakeReassemblyError::InitPrefixTooShort {
                needed: cookie_end,
                actual: packet.fragment.len(),
            },
        );
    }
    let expected_message_length: usize = INIT_FIXED_LEN + cookie_length;
    if packet.message_length as usize != expected_message_length {
        return Err(
            HandshakeReassemblyError::InvalidDeclaredMessageLength {
                packet_type: LongPacketType::Init,
                length: packet.message_length as usize,
            },
        );
    }
    Ok(
        InitAdmissionView {
            hello,
            server_random,
            cookie: part(packet.fragment, prefix_fixed, cookie_end),
        },
    )
}

/// Borrowed stateless HELLO, RETRY, or version-negotiation message.
#[derive(Clone, Copy, PartialEq, Eq)]
pub enum StatelessHandshakeMessage<'a> {
    Hello(Hello),
    Retry(Retry<'a>),
    VersionNegotiation(&'a [u8]),
}

impl<'a> StatelessHandshakeMessage<'a> {
    /// The text of a message for diagnostics.
    pub open spec fn text_of(self) -> Seq<char> {
        match self {
            StatelessHandshakeMessage::Hello(hello) => "Hello("@ + hello_text(hello) + ")"@,
            StatelessHandshakeMessage::Retry(_) => "Retry(\"<cookie redacted>\")"@,
            StatelessHandshakeMessage::VersionNegotiation(value) =>
            "VersionNegotiation { length: "@ + decimal(value@.len()) + " }"@,
        }
    }

    /// Returns a text for diagnostics that shows no cookie.
    pub fn debug_text(&self) -> (text: String)
        ensures
            text@ == self.text_of(),
    {
        match self {
            StatelessHandshakeMessage::Hello(hello) => fixed("Hello(").concat(
                hello_debug_text(hello).as_str(),
            ).concat(")"),
            StatelessHandshakeMessage::Retry(_) => fixed("Retry(\"<cookie redacted>\")"),
            StatelessHandshakeMessage::VersionNegotiation(value) => with_number(
                "VersionNegotiation { length: ",
                value.len() as u64,
                " }",
            ),
        }
    }
}

/// The failure of decoding a stateless message, if any: the checks in order.
pub open spec fn stateless_failure(packet: LongPacket) -> Option<HandshakeReassemblyError> {
    let fragment = packet.fragment@;
    if shape_failure(packet) is Some {
        shape_failure(packet)
    } else if packet.fragment_offset != 0 || fragment.len() == 0 || fragment.len()
        != packet.message_length {
        Some(HandshakeReassemblyError::StatelessMessageFragmented)
    } else {
        match packet.packet_type {
            LongPacketType::Hello => match Hello::decode_failure(fragment) {
                Some(error) => Some(HandshakeReassemblyError::Handshake(error)),
                None => None,
            },
            LongPacketType::Retry => match Retry::decode_failure(fragment) {
                Some(error) => Some(HandshakeReassemblyError::Handshake(error)),
                None => None,
            },
            LongPacketType::VersionNegotiation => None,
            other => Some(HandshakeReassemblyError::UnexpectedPacketType(other)),
        }
    }
}

/// Decodes a complete stateless long-header logical message without a pool.
///
/// # Errors
///
/// Returns an error unless the message is `HELLO`, `RETRY`, or `VERSION_NEGOTIATION` and the entire
/// non-empty logical value is in fragment zero.
pub fn decode_stateless_message<'a>(packet: &LongPacket<'a>) -> (message: Result<
    StatelessHandshakeMessage<'a>,
    HandshakeReassemblyError,
>)
    ensures
        match stateless_failure(*packet) {
            Some(error) => message == Err::<
                StatelessHandshakeMessage<'a>,
                HandshakeReassemblyError,
            >(error),
            None => match message {
                Ok(StatelessHandshakeMessage::Hello(hello)) => {
                    &&& packet.packet_type == LongPacketType::Hello
                    &&& hello.encoding() == packet.fragment@
                    &&& hello.field_failure() is None
                },
                Ok(StatelessHandshakeMessage::Retry(retry)) => {
                    &&& packet.packet_type == LongPacketType::Retry
                    &&& retry.encoding() == packet.fragment@
                },
                Ok(StatelessHandshakeMessage::VersionNegotiation(value)) => {
                    &&& packet.packet_type == LongPacketType::VersionNegotiation
                    &&& value@ == packet.fragment@
                },
                Err(_) => false,
            },
        },
{
    match validate_long_packet_shape(packet) {
        Ok(()) => {},
        Err(error) => {
            return Err(error);
        },
    }
    if packet.fragment_offset != 0 || packet.fragment.len() == 0 || packet.fragment.len()
        != packet.message_length as usize {
        return Err(HandshakeReassemblyError::StatelessMessageFragmented);
    }
    match packet.packet_type {
        LongPacketType::Hello => match Hello::decode(packet.fragment) {
            Ok(hello) => Ok(StatelessHandshakeMessage::Hello(hello)),
            Err(error) => Err(HandshakeReassemblyError::Handshake(error)),
        },
        LongPacketType::Retry => match Retry::decode(packet.fragment) {
            Ok(retry) => Ok(StatelessHandshakeMessage::Retry(retry)),
            Err(error) => Err(HandshakeReassemblyError::Handshake(error)),
        },
        LongPacketType::VersionNegotiation => Ok(
            StatelessHandshakeMessage::VersionNegotiation(packet.fragment),
        ),
        other => Err(HandshakeReassemblyError::UnexpectedPacketType(other)),
    }
}

/// Result of accepting one admitted long-header fragment.
#[derive(Clone, Copy, Debug, PartialEq, Eq, Structural)]
pub enum HandshakeAssemblyStatus {
    Incomplete {
        packet_type: LongPacketType,
        message_id: u32,
        received_bytes: usize,
        message_length: usize,
    },
    Complete { packet_type: LongPacketType, message_id: u32, message_length: usize },
}

/// One logical message under reassembly: its metadata, and each byte that has been received.
pub struct Assembly {
    pub packet_type: LongPacketType,
    pub version: u32,
    pub destination: Seq<u8>,
    pub source: Seq<u8>,
    pub message_id: u32,
    pub received: Seq<Option<u8>>,
}

/// Number of received bytes.
pub open spec fn received_count(received: Seq<Option<u8>>) -> nat
    decreases received.len(),
{
    if received.len() == 0 {
        0
    } else {
        received_count(received.drop_last()) + if received.last() is Some {
            1nat
        } else {
            0nat
        }
    }
}

/// The offset of the first byte of `fragment` that differs from one received before, if any.
pub open spec fn first_conflict(received: Seq<Option<u8>>, offset: int, fragment: Seq<u8>) -> Option<
    int,
>
    decreases fragment.len(),
{
    if fragment.len() == 0 {
        None
    } else {
        let earlier = first_conflict(received, offset, fragment.drop_last());
        let last = offset + fragment.len() - 1;
        if earlier is Some {
            earlier
        } else if received[last] is Some && received[last]->0 != fragment.last() {
            Some(last)
        } else {
            None
        }
    }
}

/// The received bytes together with those of a fragment.
pub open spec fn with_fragment(
    received: Seq<Option<u8>>,
    offset: int,
    fragment: Seq<u8>,
) -> Seq<Option<u8>> {
    Seq::new(
        received.len(),
        |i: int|
            if offset <= i < offset + fragment.len() {
                Some(fragment[i - offset])
            } else {
                received[i]
            },
    )
}

impl Assembly {
    /// A message of which nothing has been received yet.
    pub open spec fn fresh(packet: LongPacket) -> Assembly {
        Assembly {
            packet_type: packet.packet_type,
            version: packet.version,
            destination: packet.destination_connection_id@,
            source: packet.source_connection_id@,
            message_id: packet.message_id,
            received: Seq::new(packet.message_length as nat, |i: int| None::<u8>),
        }
    }

    /// Whether a packet repeats the metadata of this message.
    pub open spec fn agrees_with(self, packet: LongPacket) -> bool {
        &&& self.version == packet.version
        &&& self.received.len() == packet.message_length
        &&& self.destination == packet.destination_connection_id@
        &&& self.source == packet.source_connection_id@
    }

    /// The message after a fragment without conflict.
    pub open spec fn extended(self, packet: LongPacket) -> Assembly {
        Assembly {
            received: with_fragment(
                self.received,
                packet.fragment_offset as int,
                packet.fragment@,
            ),
            ..self
        }
    }

    /// Whether every byte has been received.
    pub open spec fn is_complete(self) -> bool {
        received_count(self.received) == self.received.len()
    }

    /// The value of a complete message.
    pub open spec fn value(self) -> Seq<u8> {
        Seq::new(self.received.len(), |i: int| self.received[i]->0)
    }

    /// How far the message has got.
    pub open spec fn status(self) -> HandshakeAssemblyStatus {
        if self.is_complete() {
            HandshakeAssemblyStatus::Complete {
                packet_type: self.packet_type,
                message_id: self.message_id,
                message_length: self.received.len() as usize,
            }
        } else {
            HandshakeAssemblyStatus::Incomplete {
                packet_type: self.packet_type,
                message_id: self.message_id,
                received_bytes: received_count(self.received) as usize,
                message_length: self.received.len() as usize,
            }
        }
    }
}

/// Whether a slot holds the message of a type and ID.
pub open spec fn holds(
    entry: Option<Assembly>,
    packet_type: LongPacketType,
    message_id: u32,
) -> bool {
    entry matches Some(assembly) && assembly.packet_type == packet_type && assembly.message_id
        == message_id
}

/// The first slot that holds the message of a type and ID.
pub open spec fn position_of(
    entries: Seq<Option<Assembly>>,
    packet_type: LongPacketType,
    message_id: u32,
) -> Option<int>
    decreases entries.len(),
{
    if entries.len() == 0 {
        None
    } else {
        let earlier = position_of(entries.drop_last(), packet_type, message_id);
        if earlier is Some {
            earlier
        } else if holds(entries.last(), packet_type, message_id) {
            Some(entries.len() - 1)
        } else {
            None
        }
    }
}

/// The first free slot.
pub open spec fn first_free(entries: Seq<Option<Assembly>>) -> Option<int>
    decreases entries.len(),
{
    if entries.len() == 0 {
        None
    } else {
        let earlier = first_free(entries.drop_last());
        if earlier is Some {
            earlier
        } else if entries.last() is None {
            Some(entries.len() - 1)
        } else {
            None
        }
    }
}

/// Number of slots in use.
pub open spec fn slots_in_use(entries: Seq<Option<Assembly>>) -> nat
    decreases entries.len(),
{
    if entries.len() == 0 {
        0
    } else {
        slots_in_use(entries.drop_last()) + if entries.last() is Some {
            1nat
        } else {
            0nat
        }
    }
}

/// The failure of a packet type without its admission, if any.
pub open spec fn admission_failure(
    packet_type: LongPacketType,
    admission: ReassemblyAdmission,
) -> Option<HandshakeReassemblyError> {
    match packet_type {
        LongPacketType::Init => if admission is CookieValidated {
            None
        } else {
            Some(HandshakeReassemblyError::AdmissionRequired(packet_type))
        },
        LongPacketType::Response | LongPacketType::Finish => if admission is ExistingHandshake {
            None
        } else {
            Some(HandshakeReassemblyError::AdmissionRequired(packet_type))
        },
        _ => Some(HandshakeReassemblyError::StatelessMessageDoesNotUsePool),
    }
}

/// Whether a message of a type can have a length.
pub open spec fn length_is_valid(packet_type: LongPacketType, length: int) -> bool {
    match packet_type {
        LongPacketType::Init => INIT_FIXED_LEN + MIN_RETRY_COOKIE_LEN <= length <= INIT_FIXED_LEN
            + MAX_RETRY_COOKIE_LEN,
        LongPacketType::Response => length == RESPONSE_LEN,
        LongPacketType::Finish => length == FINISH_LEN,
        _ => false,
    }
}

/// The failure of a fragment on its own, if any: the checks in order.
pub open spec fn fragment_failure(packet: LongPacket) -> Option<HandshakeReassemblyError> {
    if shape_failure(packet) is Some {
        shape_failure(packet)
    } else if packet.fragment@.len() == 0 {
        Some(HandshakeReassemblyError::EmptyFragment)
    } else if !length_is_valid(packet.packet_type, packet.message_length as int) {
        Some(
            HandshakeReassemblyError::InvalidDeclaredMessageLength {
                packet_type: packet.packet_type,
                length: packet.message_length as usize,
            },
        )
    } else {
        None
    }
}

/// Slots and result after a fragment has met a message in `slot`: a conflicting fragment erases the
/// message, any other one extends it.
pub open spec fn merged(
    entries: Seq<Option<Assembly>>,
    slot: int,
    assembly: Assembly,
    packet: LongPacket,
) -> (Seq<Option<Assembly>>, Result<HandshakeAssemblyStatus, HandshakeReassemblyError>) {
    match first_conflict(assembly.received, packet.fragment_offset as int, packet.fragment@) {
        Some(offset) => (
            entries.update(slot, None),
            Err(
                HandshakeReassemblyError::ConflictingOverlap {
                    packet_type: packet.packet_type,
                    message_id: packet.message_id,
                    offset: offset as usize,
                },
            ),
        ),
        None => (
            entries.update(slot, Some(assembly.extended(packet))),
            Ok(assembly.extended(packet).status()),
        ),
    }
}

/// Slots and result after a fragment.
pub open spec fn ingested(
    entries: Seq<Option<Assembly>>,
    packet: LongPacket,
    admission: ReassemblyAdmission,
) -> (Seq<Option<Assembly>>, Result<HandshakeAssemblyStatus, HandshakeReassemblyError>) {
    if admission_failure(packet.packet_type, admission) is Some {
        (entries, Err(admission_failure(packet.packet_type, admission)->0))
    } else if fragment_failure(packet) is Some {
        (entries, Err(fragment_failure(packet)->0))
    } else {
        match position_of(entries, packet.packet_type, packet.message_id) {
            Some(slot) => if entries[slot]->0.agrees_with(packet) {
                merged(entries, slot, entries[slot]->0, packet)
            } else {
                (
                    entries.update(slot, None),
                    Err(
                        HandshakeReassemblyError::MessageMetadataChanged {
                            packet_type: packet.packet_type,
                            message_id: packet.message_id,
                        },
                    ),
                )
            },
            None => match first_free(entries) {
                Some(slot) => merged(entries, slot, Assembly::fresh(packet), packet),
                None => (entries, Err(HandshakeReassemblyError::PoolExhausted)),
            },
        }
    }
}

pub(crate) proof fn lemma_position(
    entries: Seq<Option<Assembly>>,
    packet_type: LongPacketType,
    message_id: u32,
)
    ensures
        match position_of(entries, packet_type, message_id) {
            Some(slot) => 0 <= slot < entries.len() && holds(
                entries[slot],
                packet_type,
                message_id,
            ) && forall|i: int|
                0 <= i < slot ==> !holds(#[trigger] entries[i], packet_type, message_id),
            None => forall|i: int|
                0 <= i < entries.len() ==> !holds(#[trigger] entries[i], packet_type, message_id),
        },
    decreases entries.len(),
{
    if entries.len() > 0 {
        let shorter = entries.drop_last();
        lemma_position(shorter, packet_type, message_id);
        assert forall|i: int| 0 <= i < shorter.len() implies shorter[i] == #[trigger] entries[i] by {
        }
    }
}

proof fn lemma_position_is_first(
    entries: Seq<Option<Assembly>>,
    packet_type: LongPacketType,
    message_id: u32,
    slot: int,
)
    requires
        0 <= slot < entries.len(),
        holds(entries[slot], packet_type, message_id),
        forall|i: int| 0 <= i < slot ==> !holds(#[trigger] entries[i], packet_type, message_id),
    ensures
        position_of(entries, packet_type, message_id) == Some(slot),
{
    lemma_position(entries, packet_type, message_id);
    let found = position_of(entries, packet_type, message_id)->0;
    assert(holds(entries[found], packet_type, message_id));
}

pub(crate) proof fn lemma_free(entries: Seq<Option<Assembly>>)
    ensures
        match first_free(entries) {
            Some(slot) => 0 <= slot < entries.len() && entries[slot] is None && forall|i: int|
                0 <= i < slot ==> #[trigger] entries[i] is Some,
            None => forall|i: int| 0 <= i < entries.len() ==> #[trigger] entries[i] is Some,
        },
    decreases entries.len(),
{
    if entries.len() > 0 {
        let shorter = entries.drop_last();
        lemma_free(shorter);
        assert forall|i: int| 0 <= i < shorter.len() implies shorter[i] == #[trigger] entries[i] by {
        }
    }
}

pub(crate) proof fn lemma_count_bound(received: Seq<Option<u8>>)
    ensures
        received_count(received) <= received.len(),
        received_count(received) == received.len() <==> forall|i: int|
            0 <= i < received.len() ==> #[trigger] received[i] is Some,
    decreases received.len(),
{
    if received.len() > 0 {
        let shorter = received.drop_last();
        lemma_count_bound(shorter);
        assert forall|i: int| 0 <= i < shorter.len() implies shorter[i] == #[trigger] received[i] by {
        }
        if received_count(received) == received.len() {
            assert forall|i: int| 0 <= i < received.len() implies #[trigger] received[i] is Some by {
                if i < shorter.len() {
                    assert(shorter[i] is Some);
                }
            }
        }
        if forall|i: int| 0 <= i < received.len() ==> #[trigger] received[i] is Some {
            assert(received.last() is Some);
            assert forall|i: int| 0 <= i < shorter.len() implies #[trigger] shorter[i] is Some by {
                assert(received[i] is Some);
            }
        }
    }
}

proof fn lemma_count_update(received: Seq<Option<u8>>, at: int, byte: u8)
    requires
        0 <= at < received.len(),
    ensures
        received_count(received.update(at, Some(byte))) == received_count(received) + if received[at] is Some {
            0nat
        } else {
            1nat
        },
    decreases received.len(),
{
    let updated = received.update(at, Some(byte));
    if at == received.len() - 1 {
        assert(updated.drop_last() =~= received.drop_last());
    } else {
        lemma_count_update(received.drop_last(), at, byte);
        assert(updated.drop_last() =~= received.drop_last().update(at, Some(byte)));
        assert(updated.last() == received.last());
    }
}

proof fn lemma_nothing_received(received: Seq<Option<u8>>)
    requires
        forall|i: int| 0 <= i < received.len() ==> #[trigger] received[i] is None,
    ensures
        received_count(received) == 0,
    decreases received.len(),
{
    if received.len() > 0 {
        lemma_nothing_received(received.drop_last());
        assert(received.last() is None);
    }
}

pub(crate) proof fn lemma_conflict(received: Seq<Option<u8>>, offset: int, fragment: Seq<u8>)
    ensures
        match first_conflict(received, offset, fragment) {
            Some(at) => offset <= at < offset + fragment.len() && received[at] is Some
                && received[at]->0 != fragment[at - offset],
            None => forall|i: int|
                0 <= i < fragment.len() ==> (received[offset + i] is Some ==> received[offset + i]->0
                    == #[trigger] fragment[i]),
        },
    decreases fragment.len(),
{
    if fragment.len() > 0 {
        let shorter = fragment.drop_last();
        lemma_conflict(received, offset, shorter);
        assert forall|i: int| 0 <= i < shorter.len() implies shorter[i] == #[trigger] fragment[i] by {
        }
    }
}

proof fn lemma_no_conflict(received: Seq<Option<u8>>, offset: int, fragment: Seq<u8>)
    requires
        forall|i: int|
            0 <= i < fragment.len() ==> (received[offset + i] is Some ==> received[offset + i]->0
                == #[trigger] fragment[i]),
    ensures
        first_conflict(received, offset, fragment) is None,
{
    lemma_conflict(received, offset, fragment);
    if first_conflict(received, offset, fragment) is Some {
        let at = first_conflict(received, offset, fragment)->0;
        assert(fragment[at - offset] == received[offset + (at - offset)]->0);
    }
}

/// Bits of a receipt byte: setting one changes no other.
proof fn lemma_mark(byte: u8, marked: u8, asked: u8)
    requires
        marked < 8,
        asked < 8,
    ensures
        ((byte | (1u8 << marked)) & (1u8 << asked) != 0) == (byte & (1u8 << asked) != 0 || asked
            == marked),
{
    assert(((byte | (1u8 << marked)) & (1u8 << asked) != 0) == (byte & (1u8 << asked) != 0 || asked
        == marked)) by (bit_vector)
        requires
            marked < 8,
            asked < 8,
    ;
}

#[derive(Clone, Copy)]
struct ReassemblySlot {
    occupied: bool,
    packet_type: LongPacketType,
    version: u32,
    destination_connection_id: [u8; MAX_LONG_CONNECTION_ID_LEN],
    destination_length: usize,
    source_connection_id: [u8; MAX_LONG_CONNECTION_ID_LEN],
    source_length: usize,
    message_id: u32,
    message_length: usize,
    received_bytes: usize,
    bytes: [u8; MAX_HANDSHAKE_MESSAGE_LEN],
    receipt: [u8; HANDSHAKE_RECEIPT_BITMAP_LEN],
}

impl ReassemblySlot {
    spec fn has(self, at: int) -> bool {
        self.receipt@[at / 8] & (1u8 << ((at % 8) as u8)) != 0
    }

    spec fn received(self) -> Seq<Option<u8>> {
        Seq::new(
            self.message_length as nat,
            |i: int|
                if self.has(i) {
                    Some(self.bytes@[i])
                } else {
                    None
                },
        )
    }

    spec fn assembly(self) -> Assembly {
        Assembly {
            packet_type: self.packet_type,
            version: self.version,
            destination: self.destination_connection_id@.take(self.destination_length as int),
            source: self.source_connection_id@.take(self.source_length as int),
            message_id: self.message_id,
            received: self.received(),
        }
    }

    spec fn entry(self) -> Option<Assembly> {
        if self.occupied {
            Some(self.assembly())
        } else {
            None
        }
    }

    spec fn well_formed(self) -> bool {
        self.occupied ==> {
            &&& self.destination_length <= MAX_LONG_CONNECTION_ID_LEN
            &&& self.source_length <= MAX_LONG_CONNECTION_ID_LEN
            &&& self.message_length <= MAX_HANDSHAKE_MESSAGE_LEN
            &&& self.received_bytes == received_count(self.received())
        }
    }

    /// Whether the slot is unused and keeps nothing of an earlier message.
    spec fn is_blank(self) -> bool {
        &&& !self.occupied
        &&& self.packet_type == LongPacketType::Hello
        &&& self.version == 0
        &&& self.destination_connection_id@ == zeroes(MAX_LONG_CONNECTION_ID_LEN as nat)
        &&& self.destination_length == 0
        &&& self.source_connection_id@ == zeroes(MAX_LONG_CONNECTION_ID_LEN as nat)
        &&& self.source_length == 0
        &&& self.message_id == 0
        &&& self.message_length == 0
        &&& self.received_bytes == 0
        &&& self.bytes@ == zeroes(MAX_HANDSHAKE_MESSAGE_LEN as nat)
        &&& self.receipt@ == zeroes(HANDSHAKE_RECEIPT_BITMAP_LEN as nat)
    }

    fn new() -> (slot: ReassemblySlot)
        ensures
            slot.is_blank(),
            slot.entry() is None,
            slot.well_formed(),
    {
        let slot = ReassemblySlot {
            occupied: false,
            packet_type: LongPacketType::Hello,
            version: 0,
            destination_connection_id: [0u8; MAX_LONG_CONNECTION_ID_LEN],
            destination_length: 0,
            source_connection_id: [0u8; MAX_LONG_CONNECTION_ID_LEN],
            source_length: 0,
            message_id: 0,
            message_length: 0,
            received_bytes: 0,
            bytes: [0u8; MAX_HANDSHAKE_MESSAGE_LEN],
            receipt: [0u8; HANDSHAKE_RECEIPT_BITMAP_LEN],
        };
        assert(slot.destination_connection_id@ =~= zeroes(MAX_LONG_CONNECTION_ID_LEN as nat));
        assert(slot.source_connection_id@ =~= zeroes(MAX_LONG_CONNECTION_ID_LEN as nat));
        assert(slot.bytes@ =~= zeroes(MAX_HANDSHAKE_MESSAGE_LEN as nat));
        assert(slot.receipt@ =~= zeroes(HANDSHAKE_RECEIPT_BITMAP_LEN as nat));
        slot
    }

    fn begin(&mut self, packet: &LongPacket<'_>)
        requires
            shape_failure(*packet) is None,
        ensures
            final(self).well_formed(),
            final(self).entry() == Some(Assembly::fresh(*packet)),
    {
        self.occupied = true;
        self.packet_type = packet.packet_type;
        self.version = packet.version;
        self.destination_length = packet.destination_connection_id.len();
        let mut destination: [u8; MAX_LONG_CONNECTION_ID_LEN] = self.destination_connection_id;
        let _ = put(&mut destination, 0, packet.destination_connection_id);
        self.destination_connection_id = destination;
        self.source_length = packet.source_connection_id.len();
        let mut source: [u8; MAX_LONG_CONNECTION_ID_LEN] = self.source_connection_id;
        let _ = put(&mut source, 0, packet.source_connection_id);
        self.source_connection_id = source;
        self.message_id = packet.message_id;
        self.message_length = packet.message_length as usize;
        self.received_bytes = 0;
        self.receipt = [0u8; HANDSHAKE_RECEIPT_BITMAP_LEN];
        proof {
            assert(destination@.take(self.destination_length as int)
                =~= packet.destination_connection_id@);
            assert(source@.take(self.source_length as int) =~= packet.source_connection_id@);
            assert forall|i: int| 0 <= i < self.message_length implies !#[trigger] self.has(i) by {
                let bit: u8 = (i % 8) as u8;
                assert(0u8 & (1u8 << bit) == 0) by (bit_vector);
                assert(self.receipt@[i / 8] == 0);
            }
            assert(self.received() =~= Assembly::fresh(*packet).received);
            lemma_nothing_received(self.received());
        }
    }

    fn metadata_matches(&self, packet: &LongPacket<'_>) -> (matching: bool)
        requires
            self.occupied,
            self.well_formed(),
        ensures
            matching == self.assembly().agrees_with(*packet),
    {
        proof {
            assert(self.destination_connection_id@.subrange(0, self.destination_length as int)
                =~= self.assembly().destination);
            assert(self.source_connection_id@.subrange(0, self.source_length as int)
                =~= self.assembly().source);
        }
        self.version == packet.version && self.message_length == packet.message_length as usize
            && bytes_equal(
            part(&self.destination_connection_id, 0, self.destination_length),
            packet.destination_connection_id,
        ) && bytes_equal(
            part(&self.source_connection_id, 0, self.source_length),
            packet.source_connection_id,
        )
    }

    fn contains_byte(&self, offset: usize) -> (contained: bool)
        requires
            offset < MAX_HANDSHAKE_MESSAGE_LEN,
        ensures
            contained == self.has(offset as int),
    {
        let bit: u8 = (offset % 8) as u8;
        self.receipt[offset / 8] & (1u8 << bit) != 0
    }

    fn mark_byte(&mut self, offset: usize)
        requires
            offset < MAX_HANDSHAKE_MESSAGE_LEN,
        ensures
            *final(self) == (ReassemblySlot { receipt: final(self).receipt, ..*old(self) }),
            forall|i: int|
                0 <= i < MAX_HANDSHAKE_MESSAGE_LEN ==> #[trigger] final(self).has(i) == (old(
                    self,
                ).has(i) || i == offset),
    {
        let bit: u8 = (offset % 8) as u8;
        let byte: u8 = self.receipt[offset / 8];
        self.receipt[offset / 8] = byte | (1u8 << bit);
        proof {
            assert forall|i: int| 0 <= i < MAX_HANDSHAKE_MESSAGE_LEN implies #[trigger] self.has(i)
                == (old(self).has(i) || i == offset) by {
                if i / 8 == offset as int / 8 {
                    lemma_mark(byte, bit, (i % 8) as u8);
                }
            }
        }
    }
}

/// Complete logical handshake message borrowed from one fixed pool slot.
#[derive(Clone, Copy, PartialEq, Eq)]
pub struct ReassembledHandshakeMessage<'a> {
    pub packet_type: LongPacketType,
    pub version: u32,
    pub destination_connection_id: &'a [u8],
    pub source_connection_id: &'a [u8],
    pub message_id: u32,
    pub value: &'a [u8],
}

impl<'a> ReassembledHandshakeMessage<'a> {
    /// The text of a message for diagnostics.
    pub open spec fn text_of(self) -> Seq<char> {
        "ReassembledHandshakeMessage { packet_type: "@ + self.packet_type.name_text() + (
        ", version: "@ + decimal(self.version as nat) + ", destination_connection_id: <redacted, "@
            + decimal(self.destination_connection_id@.len())
            + " bytes>, source_connection_id: <redacted, "@) + (""@ + decimal(
            self.source_connection_id@.len(),
        ) + " bytes>, message_id: "@ + decimal(self.message_id as nat) + ", value: <redacted, "@)
            + (""@ + decimal(self.value@.len()) + " bytes> }"@)
    }

    /// Returns a text for diagnostics that shows neither connection IDs nor the value.
    pub fn debug_text(&self) -> (text: String)
        ensures
            text@ == self.text_of(),
    {
        fixed("ReassembledHandshakeMessage { packet_type: ").concat(
            self.packet_type.name(),
        ).concat(
            with_two_numbers(
                ", version: ",
                self.version as u64,
                ", destination_connection_id: <redacted, ",
                self.destination_connection_id.len() as u64,
                " bytes>, source_connection_id: <redacted, ",
            ).as_str(),
        ).concat(
            with_two_numbers(
                "",
                self.source_connection_id.len() as u64,
                " bytes>, message_id: ",
                self.message_id as u64,
                ", value: <redacted, ",
            ).as_str(),
        ).concat(with_number("", self.value.len() as u64, " bytes> }").as_str())
    }
}

/// Fixed pool for admitted INIT, RESPONSE, and FINISH logical messages.
pub struct HandshakeReassembler<const SLOTS: usize> {
    slots: [ReassemblySlot; SLOTS],
}

impl<const SLOTS: usize> View for HandshakeReassembler<SLOTS> {
    type V = Seq<Option<Assembly>>;

    closed spec fn view(&self) -> Seq<Option<Assembly>> {
        Seq::new(SLOTS as nat, |i: int| self.slots@[i].entry())
    }
}

impl<const SLOTS: usize> HandshakeReassembler<SLOTS> {
    /// What every pool keeps.
    pub open spec fn well_formed(&self) -> bool {
        &&& self.slots_are_sound()
        &&& self.free_slots_are_blank()
    }

    /// Whether every slot is in order by itself.
    pub closed spec fn slots_are_sound(&self) -> bool {
        forall|i: int| 0 <= i < SLOTS ==> (#[trigger] self.slots@[i]).well_formed()
    }

    /// Whether the storage of every free slot is erased: no byte, connection ID, identifier or
    /// length of an earlier message is left in it.
    pub closed spec fn free_slots_are_blank(&self) -> bool {
        forall|i: int|
            0 <= i < SLOTS ==> ((#[trigger] self.slots@[i]).occupied || self.slots@[i].is_blank())
    }

    /// Creates an empty fixed-capacity pool.
    pub fn new() -> (pool: HandshakeReassembler<SLOTS>)
        ensures
            pool.well_formed(),
            pool@ == Seq::new(SLOTS as nat, |i: int| None::<Assembly>),
    {
        let pool = HandshakeReassembler { slots: [ReassemblySlot::new();SLOTS] };
        assert(pool@ =~= Seq::new(SLOTS as nat, |i: int| None::<Assembly>));
        pool
    }

    /// Accepts one admitted fragment atomically.
    ///
    /// `HELLO`, `RETRY`, and `VERSION_NEGOTIATION` are rejected because they must use
    /// [`decode_stateless_message`] without allocating a slot.
    ///
    /// # Errors
    ///
    /// Returns an error for missing admission, invalid declared length, pool exhaustion, changed
    /// metadata, conflicting overlap, or accounting failure.
    pub fn ingest(&mut self, packet: &LongPacket<'_>, admission: ReassemblyAdmission) -> (outcome:
        Result<HandshakeAssemblyStatus, HandshakeReassemblyError>)
        requires
            old(self).well_formed(),
        ensures
            final(self).well_formed(),
            final(self)@ == ingested(old(self)@, *packet, admission).0,
            outcome == ingested(old(self)@, *packet, admission).1,
    {
        match validate_reassembly_admission(packet.packet_type, admission) {
            Ok(()) => {},
            Err(error) => {
                return Err(error);
            },
        }
        match validate_fragmented_message(packet) {
            Ok(()) => {},
            Err(error) => {
                return Err(error);
            },
        }
        let ghost entries = self@;
        let index: usize = match self.slot_index(packet.packet_type, packet.message_id) {
            Some(index) => {
                proof {
                    lemma_position(entries, packet.packet_type, packet.message_id);
                    assert(entries[index as int] == self.slots@[index as int].entry());
                }
                if !self.slots[index].metadata_matches(packet) {
                    self.erase(index);
                    return Err(
                        HandshakeReassemblyError::MessageMetadataChanged {
                            packet_type: packet.packet_type,
                            message_id: packet.message_id,
                        },
                    );
                }
                index
            },
            None => {
                let index: usize = match self.free_index() {
                    Some(index) => index,
                    None => {
                        return Err(HandshakeReassemblyError::PoolExhausted);
                    },
                };
                proof {
                    lemma_free(entries);
                }
                self.slots[index].begin(packet);
                index
            },
        };
        let ghost assembly = self.slots@[index as int].assembly();
        proof {
            assert(self.slots@[index as int].occupied);
            assert(assembly == match position_of(
                entries,
                packet.packet_type,
                packet.message_id,
            ) {
                Some(slot) => entries[slot]->0,
                None => Assembly::fresh(*packet),
            });
            assert(ingested(entries, *packet, admission) == merged(
                entries,
                index as int,
                assembly,
                *packet,
            ));
            assert(self@ =~= entries.update(index as int, Some(assembly)));
            assert forall|next: Option<Assembly>| #[trigger]
                self@.update(index as int, next) == entries.update(index as int, next) by {
                assert(self@.update(index as int, next) =~= entries.update(index as int, next));
            }
        }
        let offset: usize = packet.fragment_offset as usize;
        match conflicting_offset(&self.slots[index], offset, packet.fragment) {
            Some(conflict) => {
                self.erase(index);
                return Err(
                    HandshakeReassemblyError::ConflictingOverlap {
                        packet_type: packet.packet_type,
                        message_id: packet.message_id,
                        offset: conflict,
                    },
                );
            },
            None => {},
        }
        let newly_received: usize = count_new_bytes(&self.slots[index], offset, packet.fragment);
        proof {
            lemma_count_bound(self.slots@[index as int].received());
            lemma_count_bound(assembly.extended(*packet).received);
        }
        let total: usize = self.slots[index].message_length;
        let received_bytes: usize = self.slots[index].received_bytes + newly_received;
        let slot: &mut ReassemblySlot = &mut self.slots[index];
        write_new_bytes(slot, offset, packet.fragment);
        slot.received_bytes = received_bytes;
        assert(slot.received() == assembly.extended(*packet).received);
        assert(slot.assembly() == assembly.extended(*packet));
        assert(self@ =~= entries.update(index as int, Some(assembly.extended(*packet))));
        if received_bytes == total {
            Ok(
                HandshakeAssemblyStatus::Complete {
                    packet_type: packet.packet_type,
                    message_id: packet.message_id,
                    message_length: total,
                },
            )
        } else {
            Ok(
                HandshakeAssemblyStatus::Incomplete {
                    packet_type: packet.packet_type,
                    message_id: packet.message_id,
                    received_bytes,
                    message_length: total,
                },
            )
        }
    }

    fn erase(&mut self, index: usize)
        requires
            index < SLOTS,
            old(self).well_formed(),
        ensures
            final(self).well_formed(),
            final(self)@ == old(self)@.update(index as int, None),
    {
        self.slots[index] = ReassemblySlot::new();
        assert(self@ =~= old(self)@.update(index as int, None));
    }

    /// Borrows one complete logical message from the pool.
    ///
    /// # Errors
    ///
    /// Returns an error when the slot is unknown or incomplete.
    pub fn completed_message(&self, packet_type: LongPacketType, message_id: u32) -> (message:
        Result<ReassembledHandshakeMessage<'_>, HandshakeReassemblyError>)
        requires
            self.well_formed(),
        ensures
            match position_of(self@, packet_type, message_id) {
                None => message == Err::<ReassembledHandshakeMessage<'_>, HandshakeReassemblyError>(
                    HandshakeReassemblyError::UnknownMessage { packet_type, message_id },
                ),
                Some(slot) => {
                    let assembly = self@[slot]->0;
                    if assembly.is_complete() {
                        &&& message matches Ok(message)
                        &&& message.packet_type == packet_type
                        &&& message.version == assembly.version
                        &&& message.destination_connection_id@ == assembly.destination
                        &&& message.source_connection_id@ == assembly.source
                        &&& message.message_id == message_id
                        &&& message.value@ == assembly.value()
                    } else {
                        message == Err::<ReassembledHandshakeMessage<'_>, HandshakeReassemblyError>(
                            HandshakeReassemblyError::MessageIncomplete { packet_type, message_id },
                        )
                    }
                },
            },
    {
        let index: usize = match self.slot_index(packet_type, message_id) {
            Some(index) => index,
            None => {
                return Err(HandshakeReassemblyError::UnknownMessage { packet_type, message_id });
            },
        };
        let slot: &ReassemblySlot = &self.slots[index];
        proof {
            lemma_position(self@, packet_type, message_id);
            assert(self@[index as int] == self.slots@[index as int].entry());
            assert(slot.well_formed());
        }
        if slot.received_bytes != slot.message_length {
            return Err(HandshakeReassemblyError::MessageIncomplete { packet_type, message_id });
        }
        proof {
            lemma_count_bound(slot.received());
            assert forall|i: int| 0 <= i < slot.message_length implies #[trigger] slot.has(i) by {
                assert(slot.received()[i] is Some);
            }
            assert(slot.bytes@.subrange(0, slot.message_length as int)
                =~= slot.assembly().value());
            assert(slot.destination_connection_id@.subrange(0, slot.destination_length as int)
                =~= slot.assembly().destination);
            assert(slot.source_connection_id@.subrange(0, slot.source_length as int)
                =~= slot.assembly().source);
        }
        Ok(
            ReassembledHandshakeMessage {
                packet_type,
                version: slot.version,
                destination_connection_id: part(
                    &slot.destination_connection_id,
                    0,
                    slot.destination_length,
                ),
                source_connection_id: part(&slot.source_connection_id, 0, slot.source_length),
                message_id,
                value: part(&slot.bytes, 0, slot.message_length),
            },
        )
    }

    /// Erases and releases one logical-message slot.
    pub fn release(&mut self, packet_type: LongPacketType, message_id: u32) -> (released: bool)
        requires
            old(self).well_formed(),
        ensures
            final(self).well_formed(),
            match position_of(old(self)@, packet_type, message_id) {
                Some(slot) => released && final(self)@ == old(self)@.update(slot, None),
                None => !released && final(self)@ == old(self)@,
            },
    {
        match self.slot_index(packet_type, message_id) {
            Some(index) => {
                self.erase(index);
                true
            },
            None => false,
        }
    }

    /// Returns the number of occupied slots.
    pub fn active_slots(&self) -> (active: usize)
        ensures
            active == slots_in_use(self@),
    {
        let mut active: usize = 0;
        let mut i: usize = 0;
        while i < SLOTS
            invariant
                i <= SLOTS,
                active <= i,
                active == slots_in_use(self@.take(i as int)),
            decreases SLOTS - i,
        {
            proof {
                let next = self@.take(i + 1);
                assert(next.drop_last() =~= self@.take(i as int));
                assert(next.last() == self.slots@[i as int].entry());
            }
            if self.slots[i].occupied {
                active = active + 1;
            }
            i = i + 1;
        }
        assert(self@.take(SLOTS as int) =~= self@);
        active
    }

    fn slot_index(&self, packet_type: LongPacketType, message_id: u32) -> (found: Option<usize>)
        ensures
            match found {
                Some(index) => index < SLOTS && position_of(self@, packet_type, message_id) == Some(
                    index as int,
                ),
                None => position_of(self@, packet_type, message_id) is None,
            },
    {
        let mut i: usize = 0;
        while i < SLOTS
            invariant
                i <= SLOTS,
                forall|k: int| 0 <= k < i ==> !holds(#[trigger] self@[k], packet_type, message_id),
            decreases SLOTS - i,
        {
            assert(self@[i as int] == self.slots@[i as int].entry());
            if self.slots[i].occupied && self.slots[i].packet_type == packet_type
                && self.slots[i].message_id == message_id {
                proof {
                    lemma_position_is_first(self@, packet_type, message_id, i as int);
                }
                return Some(i);
            }
            i = i + 1;
        }
        proof {
            lemma_position(self@, packet_type, message_id);
        }
        None
    }

    fn free_index(&self) -> (found: Option<usize>)
        ensures
            match found {
                Some(index) => index < SLOTS && first_free(self@) == Some(index as int),
                None => first_free(self@) is None,
            },
    {
        let mut i: usize = 0;
        while i < SLOTS
            invariant
                i <= SLOTS,
                forall|k: int| 0 <= k < i ==> #[trigger] self@[k] is Some,
            decreases SLOTS - i,
        {
            assert(self@[i as int] == self.slots@[i as int].entry());
            if !self.slots[i].occupied {
                proof {
                    lemma_free(self@);
                }
                return Some(i);
            }
            i = i + 1;
        }
        proof {
            lemma_free(self@);
        }
        None
    }

    /// Returns a text for diagnostics that shows no message.
    pub fn debug_text(&self) -> (text: String)
        ensures
            text@ == "HandshakeReassembler { slots: \"<redacted>\", capacity: "@ + decimal(
                SLOTS as nat,
            ) + ", active_slots: "@ + decimal(slots_in_use(self@)) + " }"@,
    {
        with_two_numbers(
            "HandshakeReassembler { slots: \"<redacted>\", capacity: ",
            SLOTS as u64,
            ", active_slots: ",
            self.active_slots() as u64,
            " }",
        )
    }
}

impl<const SLOTS: usize> Default for HandshakeReassembler<SLOTS> {
    fn default() -> (pool: HandshakeReassembler<SLOTS>)
        ensures
            pool.well_formed(),
            pool@ == Seq::new(SLOTS as nat, |i: int| None::<Assembly>),
    {
        HandshakeReassembler::new()
    }
}

fn validate_reassembly_admission(
    packet_type: LongPacketType,
    admission: ReassemblyAdmission,
) -> (outcome: Result<(), HandshakeReassemblyError>)
    ensures
        match admission_failure(packet_type, admission) {
            Some(error) => outcome == Err::<(), HandshakeReassemblyError>(error),
            None => outcome == Ok::<(), HandshakeReassemblyError>(()),
        },
{
    match (packet_type, admission) {
        (LongPacketType::Init, ReassemblyAdmission::CookieValidated(_)) => Ok(()),
        (LongPacketType::Response, ReassemblyAdmission::ExistingHandshake) => Ok(()),
        (LongPacketType::Finish, ReassemblyAdmission::ExistingHandshake) => Ok(()),
        (LongPacketType::Hello, _) => Err(HandshakeReassemblyError::StatelessMessageDoesNotUsePool),
        (LongPacketType::Retry, _) => Err(HandshakeReassemblyError::StatelessMessageDoesNotUsePool),
        (LongPacketType::VersionNegotiation, _) => Err(
            HandshakeReassemblyError::StatelessMessageDoesNotUsePool,
        ),
        _ => Err(HandshakeReassemblyError::AdmissionRequired(packet_type)),
    }
}

fn validate_fragmented_message(packet: &LongPacket<'_>) -> (outcome: Result<
    (),
    HandshakeReassemblyError,
>)
    ensures
        match fragment_failure(*packet) {
            Some(error) => outcome == Err::<(), HandshakeReassemblyError>(error),
            None => outcome == Ok::<(), HandshakeReassemblyError>(()),
        },
{
    match validate_long_packet_shape(packet) {
        Ok(()) => {},
        Err(error) => {
            return Err(error);
        },
    }
    if packet.fragment.len() == 0 {
        return Err(HandshakeReassemblyError::EmptyFragment);
    }
    let length: usize = packet.message_length as usize;
    let valid: bool = match packet.packet_type {
        LongPacketType::Init => INIT_FIXED_LEN + MIN_RETRY_COOKIE_LEN <= length && length
            <= INIT_FIXED_LEN + MAX_RETRY_COOKIE_LEN,
        LongPacketType::Response => length == RESPONSE_LEN,
        LongPacketType::Finish => length == FINISH_LEN,
        _ => false,
    };
    if !valid {
        return Err(
            HandshakeReassemblyError::InvalidDeclaredMessageLength {
                packet_type: packet.packet_type,
                length,
            },
        );
    }
    Ok(())
}

fn validate_long_packet_shape(packet: &LongPacket<'_>) -> (outcome: Result<
    (),
    HandshakeReassemblyError,
>)
    ensures
        match shape_failure(*packet) {
            Some(error) => outcome == Err::<(), HandshakeReassemblyError>(error),
            None => outcome == Ok::<(), HandshakeReassemblyError>(()),
        },
{
    if packet.destination_connection_id.len() > MAX_LONG_CONNECTION_ID_LEN {
        return Err(
            HandshakeReassemblyError::Wire(
                WireError::ConnectionIdTooLong {
                    length: packet.destination_connection_id.len(),
                    maximum: MAX_LONG_CONNECTION_ID_LEN,
                },
            ),
        );
    }
    if packet.source_connection_id.len() > MAX_LONG_CONNECTION_ID_LEN {
        return Err(
            HandshakeReassemblyError::Wire(
                WireError::ConnectionIdTooLong {
                    length: packet.source_connection_id.len(),
                    maximum: MAX_LONG_CONNECTION_ID_LEN,
                },
            ),
        );
    }
    let message_length: usize = packet.message_length as usize;
    if message_length > MAX_HANDSHAKE_MESSAGE_LEN {
        return Err(
            HandshakeReassemblyError::Wire(
                WireError::HandshakeMessageTooLarge {
                    length: message_length,
                    maximum: MAX_HANDSHAKE_MESSAGE_LEN,
                },
            ),
        );
    }
    let fragment_end: usize = match (packet.fragment_offset as usize).checked_add(
        packet.fragment.len(),
    ) {
        Some(end) => end,
        None => {
            return Err(HandshakeReassemblyError::Wire(WireError::LengthOverflow));
        },
    };
    if fragment_end > message_length {
        return Err(HandshakeReassemblyError::Wire(WireError::InvalidFragmentBounds));
    }
    Ok(())
}

fn conflicting_offset(slot: &ReassemblySlot, offset: usize, bytes: &[u8]) -> (conflict: Option<
    usize,
>)
    requires
        offset + bytes@.len() <= slot.message_length,
        slot.message_length <= MAX_HANDSHAKE_MESSAGE_LEN,
    ensures
        match conflict {
            Some(at) => first_conflict(slot.received(), offset as int, bytes@) == Some(at as int),
            None => first_conflict(slot.received(), offset as int, bytes@) is None,
        },
{
    let mut i: usize = 0;
    while i < bytes.len()
        invariant
            i <= bytes@.len(),
            offset + bytes@.len() <= slot.message_length,
            slot.message_length <= MAX_HANDSHAKE_MESSAGE_LEN,
            first_conflict(slot.received(), offset as int, bytes@.take(i as int)) is None,
        decreases bytes@.len() - i,
    {
        let absolute: usize = offset + i;
        proof {
            let next = bytes@.take(i + 1);
            assert(next.drop_last() =~= bytes@.take(i as int));
            assert(next.last() == bytes@[i as int]);
        }
        if slot.contains_byte(absolute) && slot.bytes[absolute] != bytes[i] {
            proof {
                lemma_conflict_is_first(slot.received(), offset as int, bytes@, i as int);
            }
            return Some(absolute);
        }
        i = i + 1;
    }
    assert(bytes@.take(bytes@.len() as int) =~= bytes@);
    None
}

proof fn lemma_conflict_is_first(
    received: Seq<Option<u8>>,
    offset: int,
    fragment: Seq<u8>,
    at: int,
)
    requires
        0 <= at < fragment.len(),
        first_conflict(received, offset, fragment.take(at)) is None,
        received[offset + at] is Some,
        received[offset + at]->0 != fragment[at],
    ensures
        first_conflict(received, offset, fragment) == Some(offset + at),
    decreases fragment.len(),
{
    if at == fragment.len() - 1 {
        assert(fragment.drop_last() =~= fragment.take(at));
    } else {
        assert(fragment.drop_last().take(at) =~= fragment.take(at));
        lemma_conflict_is_first(received, offset, fragment.drop_last(), at);
    }
}

fn count_new_bytes(slot: &ReassemblySlot, offset: usize, bytes: &[u8]) -> (count: usize)
    requires
        offset + bytes@.len() <= slot.message_length,
        slot.message_length <= MAX_HANDSHAKE_MESSAGE_LEN,
    ensures
        received_count(slot.received()) + count == received_count(
            with_fragment(slot.received(), offset as int, bytes@),
        ),
{
    let mut count: usize = 0;
    let mut i: usize = 0;
    proof {
        assert(with_fragment(slot.received(), offset as int, bytes@.take(0)) =~= slot.received());
    }
    while i < bytes.len()
        invariant
            i <= bytes@.len(),
            count <= i,
            offset + bytes@.len() <= slot.message_length,
            slot.message_length <= MAX_HANDSHAKE_MESSAGE_LEN,
            received_count(slot.received()) + count == received_count(
                with_fragment(slot.received(), offset as int, bytes@.take(i as int)),
            ),
        decreases bytes@.len() - i,
    {
        proof {
            let before = with_fragment(slot.received(), offset as int, bytes@.take(i as int));
            let after = with_fragment(slot.received(), offset as int, bytes@.take(i + 1));
            lemma_count_update(before, offset + i, bytes@[i as int]);
            assert(after =~= before.update(offset + i, Some(bytes@[i as int])));
        }
        if !slot.contains_byte(offset + i) {
            count = count + 1;
        }
        i = i + 1;
    }
    assert(bytes@.take(bytes@.len() as int) =~= bytes@);
    count
}

fn write_new_bytes(slot: &mut ReassemblySlot, offset: usize, bytes: &[u8])
    requires
        offset + bytes@.len() <= old(slot).message_length,
        old(slot).message_length <= MAX_HANDSHAKE_MESSAGE_LEN,
        first_conflict(old(slot).received(), offset as int, bytes@) is None,
    ensures
        *final(slot) == (ReassemblySlot {
            bytes: final(slot).bytes,
            receipt: final(slot).receipt,
            ..*old(slot)
        }),
        final(slot).received() == with_fragment(old(slot).received(), offset as int, bytes@),
{
    let mut i: usize = 0;
    while i < bytes.len()
        invariant
            i <= bytes@.len(),
            offset + bytes@.len() <= slot.message_length,
            slot.message_length <= MAX_HANDSHAKE_MESSAGE_LEN,
            *slot == (ReassemblySlot { bytes: slot.bytes, receipt: slot.receipt, ..*old(slot) }),
            forall|k: int|
                0 <= k < slot.message_length ==> #[trigger] slot.has(k) == (old(slot).has(k)
                    || offset <= k < offset + i),
            forall|k: int|
                0 <= k < slot.message_length && old(slot).has(k) ==> #[trigger] slot.bytes@[k]
                    == old(slot).bytes@[k],
            forall|k: int|
                offset <= k < offset + i && !old(slot).has(k) ==> #[trigger] slot.bytes@[k]
                    == bytes@[k - offset],
        decreases bytes@.len() - i,
    {
        let absolute: usize = offset + i;
        let ghost before = *slot;
        if !slot.contains_byte(absolute) {
            slot.bytes[absolute] = bytes[i];
            let ghost written = *slot;
            slot.mark_byte(absolute);
            assert forall|k: int| 0 <= k < slot.message_length implies #[trigger] slot.has(k) == (
            before.has(k) || k == absolute) by {
                assert(written.has(k) == before.has(k));
            }
        }
        i = i + 1;
    }
    proof {
        let before = old(slot).received();
        let after = with_fragment(before, offset as int, bytes@);
        lemma_conflict(before, offset as int, bytes@);
        assert forall|k: int| 0 <= k < slot.message_length implies #[trigger] slot.received()[k]
            == after[k] by {
            assert(slot.has(k) == (old(slot).has(k) || offset <= k < offset + bytes@.len()));
            if offset <= k < offset + bytes@.len() {
                let at = k - offset;
                assert(before[offset + at] is Some ==> before[offset + at]->0 == bytes@[at]);
            }
        }
        assert(slot.received() =~= after);
    }
}

/// Handshake reassembly or admission failure.
#[derive(Clone, Copy, Debug, PartialEq, Eq)]
pub enum HandshakeReassemblyError {
    Wire(WireError),
    Handshake(HandshakeError),
    UnexpectedPacketType(LongPacketType),
    StatelessMessageFragmented,
    StatelessMessageDoesNotUsePool,
    InitPrefixMustStartAtZero,
    InitPrefixTooShort { needed: usize, actual: usize },
    InvalidCookieLength(usize),
    InvalidDeclaredMessageLength { packet_type: LongPacketType, length: usize },
    AdmissionRequired(LongPacketType),
    EmptyFragment,
    PoolExhausted,
    MessageMetadataChanged { packet_type: LongPacketType, message_id: u32 },
    ConflictingOverlap { packet_type: LongPacketType, message_id: u32, offset: usize },
    UnknownMessage { packet_type: LongPacketType, message_id: u32 },
    MessageIncomplete { packet_type: LongPacketType, message_id: u32 },
    AccountingOverflow,
    InvariantViolation,
}

impl From<WireError> for HandshakeReassemblyError {
    fn from(error: WireError) -> (wrapped: HandshakeReassemblyError) {
        HandshakeReassemblyError::Wire(error)
    }
}

impl vstd::std_specs::convert::FromSpecImpl<WireError> for HandshakeReassemblyError {
    open spec fn obeys_from_spec() -> bool {
        true
    }

    open spec fn from_spec(error: WireError) -> HandshakeReassemblyError {
        HandshakeReassemblyError::Wire(error)
    }
}

impl From<HandshakeError> for HandshakeReassemblyError {
    fn from(error: HandshakeError) -> (wrapped: HandshakeReassemblyError) {
        HandshakeReassemblyError::Handshake(error)
    }
}

impl vstd::std_specs::convert::FromSpecImpl<HandshakeError> for HandshakeReassemblyError {
    open spec fn obeys_from_spec() -> bool {
        true
    }

    open spec fn from_spec(error: HandshakeError) -> HandshakeReassemblyError {
        HandshakeReassemblyError::Handshake(error)
    }
}

impl HandshakeReassemblyError {
    /// The diagnostic text of a failure.
    pub open spec fn message_text(self) -> Seq<char> {
        match self {
            HandshakeReassemblyError::Wire(error) => error.message_text(),
            HandshakeReassemblyError::Handshake(error) => error.message_text(),
            HandshakeReassemblyError::UnexpectedPacketType(packet_type) =>
            "unexpected long packet type "@ + packet_type.name_text(),
            HandshakeReassemblyError::StatelessMessageFragmented =>
            "stateless handshake message is fragmented or empty"@,
            HandshakeReassemblyError::StatelessMessageDoesNotUsePool =>
            "stateless handshake message must not reserve a pool slot"@,
            HandshakeReassemblyError::InitPrefixMustStartAtZero =>
            "INIT admission prefix must start at offset zero"@,
            HandshakeReassemblyError::InitPrefixTooShort { needed, actual } =>
            "INIT admission prefix too short: need "@ + decimal(needed as nat) + ", got "@
                + decimal(actual as nat) + ""@,
            HandshakeReassemblyError::InvalidCookieLength(length) =>
            "invalid INIT cookie length "@ + decimal(length as nat) + ""@,
            HandshakeReassemblyError::InvalidDeclaredMessageLength { packet_type, length } =>
            "invalid declared "@ + packet_type.name_text() + (" message length "@ + decimal(
                length as nat,
            ) + ""@),
            HandshakeReassemblyError::AdmissionRequired(packet_type) =>
            "missing reassembly admission for "@ + packet_type.name_text(),
            HandshakeReassemblyError::EmptyFragment => "empty admitted handshake fragment"@,
            HandshakeReassemblyError::PoolExhausted => "handshake reassembly pool exhausted"@,
            HandshakeReassemblyError::MessageMetadataChanged { packet_type, message_id } =>
            "metadata changed for "@ + packet_type.name_text() + (" message "@ + decimal(
                message_id as nat,
            ) + ""@),
            HandshakeReassemblyError::ConflictingOverlap { packet_type, message_id, offset } =>
            "conflicting overlap in "@ + packet_type.name_text() + (" message "@ + decimal(
                message_id as nat,
            ) + " at byte "@ + decimal(offset as nat) + ""@),
            HandshakeReassemblyError::UnknownMessage { packet_type, message_id } => "unknown "@
                + packet_type.name_text() + (" message "@ + decimal(message_id as nat) + ""@),
            HandshakeReassemblyError::MessageIncomplete { packet_type, message_id } =>
            "incomplete "@ + packet_type.name_text() + (" message "@ + decimal(message_id as nat)
                + ""@),
            HandshakeReassemblyError::AccountingOverflow => "handshake accounting overflow"@,
            HandshakeReassemblyError::InvariantViolation =>
            "handshake reassembly invariant violation"@,
        }
    }

    /// Returns the diagnostic text of this failure.
    pub fn message(&self) -> (text: String)
        ensures
            text@ == self.message_text(),
    {
        match *self {
            HandshakeReassemblyError::Wire(error) => error.message(),
            HandshakeReassemblyError::Handshake(error) => error.message(),
            HandshakeReassemblyError::UnexpectedPacketType(packet_type) => fixed(
                "unexpected long packet type ",
            ).concat(packet_type.name()),
            HandshakeReassemblyError::StatelessMessageFragmented => fixed(
                "stateless handshake message is fragmented or empty",
            ),
            HandshakeReassemblyError::StatelessMessageDoesNotUsePool => fixed(
                "stateless handshake message must not reserve a pool slot",
            ),
            HandshakeReassemblyError::InitPrefixMustStartAtZero => fixed(
                "INIT admission prefix must start at offset zero",
            ),
            HandshakeReassemblyError::InitPrefixTooShort { needed, actual } => with_two_numbers(
                "INIT admission prefix too short: need ",
                needed as u64,
                ", got ",
                actual as u64,
                "",
            ),
            HandshakeReassemblyError::InvalidCookieLength(length) => with_number(
                "invalid INIT cookie length ",
                length as u64,
                "",
            ),
            HandshakeReassemblyError::InvalidDeclaredMessageLength { packet_type, length } => fixed(
                "invalid declared ",
            ).concat(packet_type.name()).concat(
                with_number(" message length ", length as u64, "").as_str(),
            ),
            HandshakeReassemblyError::AdmissionRequired(packet_type) => fixed(
                "missing reassembly admission for ",
            ).concat(packet_type.name()),
            HandshakeReassemblyError::EmptyFragment => fixed("empty admitted handshake fragment"),
            HandshakeReassemblyError::PoolExhausted => fixed("handshake reassembly pool exhausted"),
            HandshakeReassemblyError::MessageMetadataChanged { packet_type, message_id } => fixed(
                "metadata changed for ",
            ).concat(packet_type.name()).concat(
                with_number(" message ", message_id as u64, "").as_str(),
            ),
            HandshakeReassemblyError::ConflictingOverlap {
                packet_type,
                message_id,
                offset,
            } => fixed("conflicting overlap in ").concat(packet_type.name()).concat(
                with_two_numbers(
                    " message ",
                    message_id as u64,
                    " at byte ",
                    offset as u64,
                    "",
                ).as_str(),
            ),
            HandshakeReassemblyError::UnknownMessage { packet_type, message_id } => fixed(
                "unknown ",
            ).concat(packet_type.name()).concat(
                with_number(" message ", message_id as u64, "").as_str(),
            ),
            HandshakeReassemblyError::MessageIncomplete { packet_type, message_id } => fixed(
                "incomplete ",
            ).concat(packet_type.name()).concat(
                with_number(" message ", message_id as u64, "").as_str(),
            ),
            HandshakeReassemblyError::AccountingOverflow => fixed("handshake accounting overflow"),
            HandshakeReassemblyError::InvariantViolation => fixed(
                "handshake reassembly invariant violation",
            ),
        }
    }
}

/// Accepting a fragment twice is accepting it once: the second time nothing changes, and the same
/// status is reported.
pub proof fn lemma_ingest_is_idempotent(
    entries: Seq<Option<Assembly>>,
    packet: LongPacket,
    admission: ReassemblyAdmission,
)
    requires
        ingested(entries, packet, admission).1 is Ok,
    ensures
        ({
            let once = ingested(entries, packet, admission);
            ingested(once.0, packet, admission) == once
        }),
{
    let packet_type = packet.packet_type;
    let message_id = packet.message_id;
    let offset = packet.fragment_offset as int;
    let fragment = packet.fragment@;
    lemma_position(entries, packet_type, message_id);
    lemma_free(entries);
    let found = position_of(entries, packet_type, message_id);
    let slot = if found is Some {
        found->0
    } else {
        first_free(entries)->0
    };
    let assembly = if found is Some {
        entries[slot]->0
    } else {
        Assembly::fresh(packet)
    };
    let once = ingested(entries, packet, admission);
    let extended = assembly.extended(packet);
    assert(once.0 == entries.update(slot, Some(extended)));
    lemma_position_is_first(once.0, packet_type, message_id, slot);
    lemma_no_conflict(extended.received, offset, fragment);
    assert(with_fragment(extended.received, offset, fragment) =~= extended.received);
    assert(extended.extended(packet) == extended);
    assert(once.0.update(slot, Some(extended)) =~= once.0);
}

/// Fragments may arrive in any order: two that can be accepted one after the other can be accepted
/// the other way round, with the same bytes received.
pub proof fn lemma_order_of_fragments_is_irrelevant(
    received: Seq<Option<u8>>,
    left_offset: int,
    left: Seq<u8>,
    right_offset: int,
    right: Seq<u8>,
)
    requires
        0 <= left_offset,
        left_offset + left.len() <= received.len(),
        0 <= right_offset,
        right_offset + right.len() <= received.len(),
        first_conflict(received, left_offset, left) is None,
        first_conflict(with_fragment(received, left_offset, left), right_offset, right) is None,
    ensures
        first_conflict(received, right_offset, right) is None,
        first_conflict(with_fragment(received, right_offset, right), left_offset, left) is None,
        with_fragment(with_fragment(received, left_offset, left), right_offset, right)
            == with_fragment(with_fragment(received, right_offset, right), left_offset, left),
{
    let after_left = with_fragment(received, left_offset, left);
    let after_right = with_fragment(received, right_offset, right);
    lemma_conflict(received, left_offset, left);
    lemma_conflict(after_left, right_offset, right);
    assert forall|i: int| 0 <= i < right.len() implies (received[right_offset + i] is Some
        ==> received[right_offset + i]->0 == #[trigger] right[i]) by {
        let at = right_offset + i;
        assert(after_left[at] is Some ==> after_left[at]->0 == right[i]);
        if left_offset <= at < left_offset + left.len() {
            let k = at - left_offset;
            assert(received[left_offset + k] is Some ==> received[left_offset + k]->0 == left[k]);
        }
    }
    lemma_no_conflict(received, right_offset, right);
    assert forall|i: int| 0 <= i < left.len() implies (after_right[left_offset + i] is Some
        ==> after_right[left_offset + i]->0 == #[trigger] left[i]) by {
        let at = left_offset + i;
        assert(received[at] is Some ==> received[at]->0 == left[i]);
        if right_offset <= at < right_offset + right.len() {
            let k = at - right_offset;
            assert(after_left[right_offset + k] is Some ==> after_left[right_offset + k]->0
                == right[k]);
        }
    }
    lemma_no_conflict(after_right, left_offset, left);
    let both = with_fragment(after_left, right_offset, right);
    let swapped = with_fragment(after_right, left_offset, left);
    assert forall|at: int| 0 <= at < received.len() implies #[trigger] both[at] == swapped[at] by {
        if left_offset <= at < left_offset + left.len() && right_offset <= at < right_offset
            + right.len() {
            let k = at - right_offset;
            assert(after_left[right_offset + k] is Some ==> after_left[right_offset + k]->0
                == right[k]);
        }
    }
    assert(both =~= swapped);
}

/// Whether everything received agrees with a value.
pub open spec fn is_part_of(received: Seq<Option<u8>>, value: Seq<u8>) -> bool {
    &&& received.len() == value.len()
    &&& forall|i: int|
        0 <= i < value.len() ==> (#[trigger] received[i] is Some ==> received[i]->0 == value[i])
}

/// Fragments of one value never conflict, whatever their order, overlap or repetition.
pub proof fn lemma_fragments_of_one_value_never_conflict(
    received: Seq<Option<u8>>,
    value: Seq<u8>,
    offset: int,
    length: int,
)
    requires
        is_part_of(received, value),
        0 <= offset,
        0 <= length,
        offset + length <= value.len(),
    ensures
        first_conflict(received, offset, value.subrange(offset, offset + length)) is None,
        is_part_of(
            with_fragment(received, offset, value.subrange(offset, offset + length)),
            value,
        ),
{
    let fragment = value.subrange(offset, offset + length);
    assert forall|i: int| 0 <= i < fragment.len() implies (received[offset + i] is Some
        ==> received[offset + i]->0 == #[trigger] fragment[i]) by {
        assert(received[offset + i] is Some ==> received[offset + i]->0 == value[offset + i]);
    }
    lemma_no_conflict(received, offset, fragment);
}

/// A message put together from fragments of a value is that value once it is complete.
pub proof fn lemma_complete_message_is_the_value(assembly: Assembly, value: Seq<u8>)
    requires
        is_part_of(assembly.received, value),
        assembly.is_complete(),
    ensures
        assembly.value() == value,
{
    lemma_count_bound(assembly.received);
    assert forall|i: int| 0 <= i < value.len() implies #[trigger] assembly.value()[i]
        == value[i] by {
        assert(assembly.received[i] is Some);
    }
    assert(assembly.value() =~= value);
}

} // verus!
