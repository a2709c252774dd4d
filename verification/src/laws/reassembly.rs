//! Laws of handshake reassembly.

use vstd::prelude::*;

use crate::handshake_state::reassembly::{
    decode_init_admission_prefix, decode_stateless_message, first_conflict, first_free, holds,
    lemma_conflict, lemma_count_bound, lemma_free, lemma_position, position_of, received_count,
    slots_in_use, Assembly, HandshakeAssemblyStatus, HandshakeReassembler,
    HandshakeReassemblyError, InitAdmissionView, ReassembledHandshakeMessage, ReassemblyAdmission,
    StatelessHandshakeMessage,
};
use crate::laws::handshake::{is_hello_layout, offers_something};
use crate::laws::numbers::{lemma_readers_read_numbers, number_at};
use crate::wire::long::{LongPacket, LongPacketType};

verus! {

/// Whether an entry is the assembly of a packet's message.
pub open spec fn is_of(entry: Option<Assembly>, kind: LongPacketType, message_id: u32) -> bool {
    entry is Some && entry->0.packet_type == kind && entry->0.message_id == message_id
}

/// The lengths that a fragmented message can have: an INIT with a cookie of 16 to 256 bytes, a
/// RESPONSE or a FINISH.
pub open spec fn can_be_long(kind: LongPacketType, length: int) -> bool {
    ||| kind is Init && 1_356 <= length <= 1_596
    ||| kind is Response && length == 6_601
    ||| kind is Finish && length == 5_423
}

/// Whether an assembly's bytes are those of `before`, or none yet, together with a fragment's.
pub open spec fn takes_in(
    before: Option<Assembly>,
    after: Assembly,
    packet: LongPacket<'_>,
) -> bool {
    let start = packet.fragment_offset as int;
    let end = start + packet.fragment@.len();
    &&& after.received.len() == packet.message_length
    &&& end <= after.received.len()
    &&& forall|i: int|
        start <= i < end ==> #[trigger] after.received[i] == Some(packet.fragment@[i - start])
    &&& forall|i: int|
        0 <= i < after.received.len() && !(start <= i < end) ==> #[trigger] after.received[i]
            == match before {
            Some(before) => before.received[i],
            None => None,
        }
    &&& before is Some ==> forall|i: int|
        start <= i < end && (#[trigger] before->0.received[i]) is Some ==> before->0.received[i]
            == after.received[i]
}

/// The bytes that have arrived.
pub open spec fn arrived(received: Seq<Option<u8>>) -> nat {
    received.filter(|byte: Option<u8>| byte is Some).len()
}

/// An accepted fragment fits its message and goes to the one assembly of that message, which agrees
/// with it on version, connection IDs and length, or to a new one in the first free slot. It adds
/// its bytes to those that arrived before and contradicts none of them. The status counts the bytes
/// that have arrived and is complete exactly when none is missing.
pub proof fn lemma_accepted_fragments<const SLOTS: usize>(
    packet: &LongPacket<'_>,
    admission: ReassemblyAdmission,
    status: HandshakeAssemblyStatus,
)
    ensures
        forall|pool: &mut HandshakeReassembler<SLOTS>|
            pool.well_formed() && #[trigger] call_ensures(
                HandshakeReassembler::<SLOTS>::ingest,
                (pool, packet, admission),
                Ok(status),
            ) ==> {
                &&& packet.packet_type is Init ==> admission is CookieValidated
                &&& packet.packet_type is Response || packet.packet_type is Finish
                    ==> admission is ExistingHandshake
                &&& can_be_long(packet.packet_type, packet.message_length as int)
                &&& 0 < packet.fragment@.len()
                &&& packet.fragment_offset + packet.fragment@.len() <= packet.message_length
                &&& packet.destination_connection_id@.len() <= 20
                &&& packet.source_connection_id@.len() <= 20
                &&& exists|slot: int| #[trigger]
                    goes_to(pool@, final(pool)@, *packet, slot) && reports(
                        final(pool)@[slot]->0,
                        status,
                    )
            },
{
    assert forall|pool: &mut HandshakeReassembler<SLOTS>|
        pool.well_formed() && #[trigger] call_ensures(
            HandshakeReassembler::<SLOTS>::ingest,
            (pool, packet, admission),
            Ok(status),
        ) implies exists|slot: int| #[trigger]
        goes_to(pool@, final(pool)@, *packet, slot) && reports(final(pool)@[slot]->0, status) by {
        let entries = pool@;
        lemma_position(entries, packet.packet_type, packet.message_id);
        lemma_free(entries);
        let slot = match position_of(entries, packet.packet_type, packet.message_id) {
            Some(slot) => slot,
            None => first_free(entries)->0,
        };
        let assembly = match position_of(entries, packet.packet_type, packet.message_id) {
            Some(slot) => entries[slot]->0,
            None => Assembly::fresh(*packet),
        };
        lemma_conflict(assembly.received, packet.fragment_offset as int, packet.fragment@);
        let after = final(pool)@[slot]->0;
        assert(after == assembly.extended(*packet));
        lemma_takes_in(assembly, *packet);
        lemma_reports(after);
        assert(goes_to(pool@, final(pool)@, *packet, slot));
    }
}

proof fn lemma_takes_in(assembly: Assembly, packet: LongPacket<'_>)
    requires
        packet.fragment_offset + packet.fragment@.len() <= packet.message_length,
        assembly.received.len() == packet.message_length,
        first_conflict(
            assembly.received,
            packet.fragment_offset as int,
            packet.fragment@,
        ) is None,
    ensures
        takes_in(Some(assembly), assembly.extended(packet), packet),
        assembly.received == Seq::new(packet.message_length as nat, |i: int| None::<u8>)
            ==> takes_in(None, assembly.extended(packet), packet),
{
    let start = packet.fragment_offset as int;
    lemma_conflict(assembly.received, start, packet.fragment@);
    let after = assembly.extended(packet);
    assert forall|i: int|
        start <= i < start + packet.fragment@.len() && (#[trigger] assembly.received[i]) is Some
            implies assembly.received[i] == after.received[i] by {
        assert(assembly.received[start + (i - start)] is Some ==> assembly.received[start + (i
            - start)]->0 == packet.fragment@[i - start]);
    }
}

/// Whether a fragment goes to a slot and to no other.
pub open spec fn goes_to(
    before: Seq<Option<Assembly>>,
    after: Seq<Option<Assembly>>,
    packet: LongPacket<'_>,
    slot: int,
) -> bool {
    let known = exists|i: int|
        0 <= i < before.len() && is_of(
            #[trigger] before[i],
            packet.packet_type,
            packet.message_id,
        );
    &&& 0 <= slot < before.len()
    &&& after.len() == before.len()
    &&& forall|i: int| 0 <= i < before.len() && i != slot ==> #[trigger] after[i] == before[i]
    &&& is_of(after[slot], packet.packet_type, packet.message_id)
    &&& after[slot]->0.version == packet.version
    &&& after[slot]->0.destination == packet.destination_connection_id@
    &&& after[slot]->0.source == packet.source_connection_id@
    &&& known ==> is_of(before[slot], packet.packet_type, packet.message_id)
        && before[slot]->0.version == packet.version && before[slot]->0.destination
        == packet.destination_connection_id@ && before[slot]->0.source
        == packet.source_connection_id@ && before[slot]->0.received.len() == packet.message_length
    &&& !known ==> before[slot] is None
    &&& takes_in(before[slot], after[slot]->0, packet)
}

/// Whether a status reports an assembly as it is.
pub open spec fn reports(assembly: Assembly, status: HandshakeAssemblyStatus) -> bool {
    let whole = forall|i: int|
        0 <= i < assembly.received.len() ==> #[trigger] assembly.received[i] is Some;
    match status {
        HandshakeAssemblyStatus::Complete { packet_type, message_id, message_length } => {
            &&& whole
            &&& packet_type == assembly.packet_type
            &&& message_id == assembly.message_id
            &&& message_length == assembly.received.len()
        },
        HandshakeAssemblyStatus::Incomplete {
            packet_type,
            message_id,
            received_bytes,
            message_length,
        } => {
            &&& !whole
            &&& packet_type == assembly.packet_type
            &&& message_id == assembly.message_id
            &&& received_bytes == arrived(assembly.received)
            &&& message_length == assembly.received.len()
        },
    }
}

proof fn lemma_reports(assembly: Assembly)
    requires
        assembly.received.len() <= 0xffff,
    ensures
        reports(assembly, assembly.status()),
{
    lemma_count_bound(assembly.received);
    lemma_arrived(assembly.received);
}

proof fn lemma_arrived(received: Seq<Option<u8>>)
    ensures
        received_count(received) == arrived(received),
    decreases received.len(),
{
    reveal(Seq::filter);
    if received.len() > 0 {
        lemma_arrived(received.drop_last());
    }
}

/// A refused fragment changes nothing, unless it contradicts the assembly of its message: on
/// version, connection IDs or length, or in a byte. That assembly is then given up, and no other.
pub proof fn lemma_refused_fragments<const SLOTS: usize>(
    packet: &LongPacket<'_>,
    admission: ReassemblyAdmission,
    error: HandshakeReassemblyError,
)
    ensures
        forall|pool: &mut HandshakeReassembler<SLOTS>|
            pool.well_formed() && #[trigger] call_ensures(
                HandshakeReassembler::<SLOTS>::ingest,
                (pool, packet, admission),
                Err(error),
            ) ==> {
                let before = pool@;
                let after = final(pool)@;
                &&& !(error is MessageMetadataChanged) && !(error is ConflictingOverlap) ==> after
                    == before
                &&& error is PoolExhausted ==> forall|i: int|
                    0 <= i < before.len() ==> #[trigger] before[i] is Some
                &&& error is MessageMetadataChanged ==> exists|slot: int| #[trigger]
                    gives_up(before, after, *packet, slot) && {
                        let assembly = before[slot]->0;
                        ||| assembly.version != packet.version
                        ||| assembly.destination != packet.destination_connection_id@
                        ||| assembly.source != packet.source_connection_id@
                        ||| assembly.received.len() != packet.message_length
                    }
                &&& error matches HandshakeReassemblyError::ConflictingOverlap { offset, .. }
                    ==> exists|slot: int| #[trigger]
                    gives_up(before, after, *packet, slot) && {
                        let byte = before[slot]->0.received[offset as int];
                        &&& packet.fragment_offset <= offset < packet.fragment_offset
                            + packet.fragment@.len()
                        &&& byte is Some
                        &&& byte->0 != packet.fragment@[offset - packet.fragment_offset]
                    }
            },
{
    assert forall|pool: &mut HandshakeReassembler<SLOTS>|
        pool.well_formed() && #[trigger] call_ensures(
            HandshakeReassembler::<SLOTS>::ingest,
            (pool, packet, admission),
            Err(error),
        ) implies {
        let before = pool@;
        let after = final(pool)@;
        &&& error is PoolExhausted ==> forall|i: int|
            0 <= i < before.len() ==> #[trigger] before[i] is Some
        &&& error is MessageMetadataChanged ==> exists|slot: int| #[trigger]
            gives_up(before, after, *packet, slot) && {
                let assembly = before[slot]->0;
                ||| assembly.version != packet.version
                ||| assembly.destination != packet.destination_connection_id@
                ||| assembly.source != packet.source_connection_id@
                ||| assembly.received.len() != packet.message_length
            }
        &&& error matches HandshakeReassemblyError::ConflictingOverlap { offset, .. } ==> exists|
            slot: int,
        | #[trigger]
            gives_up(before, after, *packet, slot) && {
                let byte = before[slot]->0.received[offset as int];
                &&& packet.fragment_offset <= offset < packet.fragment_offset
                    + packet.fragment@.len()
                &&& byte is Some
                &&& byte->0 != packet.fragment@[offset - packet.fragment_offset]
            }
    } by {
        let entries = pool@;
        lemma_position(entries, packet.packet_type, packet.message_id);
        lemma_free(entries);
        match position_of(entries, packet.packet_type, packet.message_id) {
            Some(slot) => {
                lemma_conflict(
                    entries[slot]->0.received,
                    packet.fragment_offset as int,
                    packet.fragment@,
                );
                if error is MessageMetadataChanged || error is ConflictingOverlap {
                    assert(gives_up(entries, final(pool)@, *packet, slot));
                }
            },
            None => {
                lemma_conflict(
                    Assembly::fresh(*packet).received,
                    packet.fragment_offset as int,
                    packet.fragment@,
                );
            },
        }
    }
}

/// Whether the assembly of a packet's message is given up, and no other.
pub open spec fn gives_up(
    before: Seq<Option<Assembly>>,
    after: Seq<Option<Assembly>>,
    packet: LongPacket<'_>,
    slot: int,
) -> bool {
    &&& 0 <= slot < before.len()
    &&& after.len() == before.len()
    &&& is_of(before[slot], packet.packet_type, packet.message_id)
    &&& after[slot] is None
    &&& forall|i: int| 0 <= i < before.len() && i != slot ==> #[trigger] after[i] == before[i]
}

/// A message is handed out exactly once all of its bytes have arrived, with the metadata of its
/// fragments.
pub proof fn lemma_complete_messages_are_handed_out<const SLOTS: usize>(
    pool: &HandshakeReassembler<SLOTS>,
    kind: LongPacketType,
    message_id: u32,
    message: Result<ReassembledHandshakeMessage<'_>, HandshakeReassemblyError>,
)
    requires
        pool.well_formed(),
        call_ensures(
            HandshakeReassembler::<SLOTS>::completed_message,
            (pool, kind, message_id),
            message,
        ),
    ensures
        message matches Ok(message) ==> exists|slot: int|
            0 <= slot < pool@.len() && is_of(#[trigger] pool@[slot], kind, message_id) && {
                let assembly = pool@[slot]->0;
                &&& message.packet_type == kind
                &&& message.message_id == message_id
                &&& message.version == assembly.version
                &&& message.destination_connection_id@ == assembly.destination
                &&& message.source_connection_id@ == assembly.source
                &&& message.value@.len() == assembly.received.len()
                &&& forall|i: int|
                    0 <= i < assembly.received.len() ==> #[trigger] assembly.received[i] == Some(
                        message.value@[i],
                    )
            },
        message matches Err(error) ==> {
            &&& error is UnknownMessage || error is MessageIncomplete
            &&& error is UnknownMessage ==> forall|slot: int|
                0 <= slot < pool@.len() ==> !is_of(#[trigger] pool@[slot], kind, message_id)
            &&& error is MessageIncomplete ==> exists|slot: int, at: int|
                0 <= slot < pool@.len() && is_of(pool@[slot], kind, message_id) && 0 <= at
                    < pool@[slot]->0.received.len() && (
                #[trigger] pool@[slot]->0.received[at]) is None
        },
{
    lemma_position(pool@, kind, message_id);
    match position_of(pool@, kind, message_id) {
        Some(slot) => {
            let assembly = pool@[slot]->0;
            lemma_count_bound(assembly.received);
            assert(is_of(pool@[slot], kind, message_id));
            if message is Ok {
                assert forall|i: int| 0 <= i < assembly.received.len() implies
                    #[trigger] assembly.received[i] == Some(message->Ok_0.value@[i]) by {
                    assert(assembly.received[i] is Some);
                }
            } else {
                let at = choose|at: int|
                    0 <= at < assembly.received.len() && (#[trigger] assembly.received[at]) is None;
                assert(pool@[slot]->0.received[at] is None);
            }
        },
        None => {
            assert forall|slot: int| 0 <= slot < pool@.len() implies !is_of(
                #[trigger] pool@[slot],
                kind,
                message_id,
            ) by {
                assert(!holds(pool@[slot], kind, message_id));
            }
        },
    }
}

/// A release gives up one assembly of the message, if there is one, and nothing else. The slots in
/// use are those that hold an assembly.
pub proof fn lemma_releases_give_up_one_message<const SLOTS: usize>(
    kind: LongPacketType,
    message_id: u32,
    released: bool,
    pool: &HandshakeReassembler<SLOTS>,
    active: usize,
)
    requires
        call_ensures(HandshakeReassembler::<SLOTS>::active_slots, (pool,), active),
    ensures
        active == pool@.filter(|entry: Option<Assembly>| entry is Some).len(),
        forall|changed: &mut HandshakeReassembler<SLOTS>|
            changed.well_formed() && #[trigger] call_ensures(
                HandshakeReassembler::<SLOTS>::release,
                (changed, kind, message_id),
                released,
            ) ==> {
                let before = changed@;
                let after = final(changed)@;
                &&& after.len() == before.len()
                &&& !released ==> after == before && forall|i: int|
                    0 <= i < before.len() ==> !is_of(#[trigger] before[i], kind, message_id)
                &&& released ==> exists|slot: int|
                    0 <= slot < before.len() && is_of(#[trigger] before[slot], kind, message_id)
                        && after == before.update(slot, None)
            },
{
    lemma_slots_in_use(pool@);
    assert forall|changed: &mut HandshakeReassembler<SLOTS>|
        changed.well_formed() && #[trigger] call_ensures(
            HandshakeReassembler::<SLOTS>::release,
            (changed, kind, message_id),
            released,
        ) implies {
        let before = changed@;
        let after = final(changed)@;
        &&& after.len() == before.len()
        &&& !released ==> after == before && forall|i: int|
            0 <= i < before.len() ==> !is_of(#[trigger] before[i], kind, message_id)
        &&& released ==> exists|slot: int|
            0 <= slot < before.len() && is_of(#[trigger] before[slot], kind, message_id) && after
                == before.update(slot, None)
    } by {
        let before = changed@;
        lemma_position(before, kind, message_id);
        if released {
            let slot = position_of(before, kind, message_id)->0;
            assert(is_of(before[slot], kind, message_id));
        } else {
            assert forall|i: int| 0 <= i < before.len() implies !is_of(
                #[trigger] before[i],
                kind,
                message_id,
            ) by {
                assert(!holds(before[i], kind, message_id));
            }
        }
    }
}

proof fn lemma_slots_in_use(entries: Seq<Option<Assembly>>)
    ensures
        slots_in_use(entries) == entries.filter(|entry: Option<Assembly>| entry is Some).len(),
    decreases entries.len(),
{
    reveal(Seq::filter);
    if entries.len() > 0 {
        lemma_slots_in_use(entries.drop_last());
    }
}

/// An INIT is admitted from its first fragment alone, if that holds the HELLO, the server's random
/// and the whole cookie, and the declared length is the one that the cookie makes.
pub proof fn lemma_admission_needs_the_whole_cookie<'a>(
    packet: &LongPacket<'a>,
    view: Result<InitAdmissionView<'a>, HandshakeReassemblyError>,
)
    requires
        call_ensures(decode_init_admission_prefix, (packet,), view),
    ensures
        ({
            let fragment = packet.fragment@;
            let cookie = number_at(fragment, 122, 2);
            &&& view is Ok <==> {
                &&& packet.destination_connection_id@.len() <= 20
                &&& packet.source_connection_id@.len() <= 20
                &&& packet.packet_type is Init
                &&& packet.fragment_offset == 0
                &&& fragment.len() >= 124 + cookie
                &&& fragment.len() >= 124
                &&& fragment.len() <= packet.message_length
                &&& 16 <= cookie <= 256
                &&& packet.message_length == 1_340 + cookie
                &&& fragment[89] == 0
                &&& number_at(fragment, 80, 2) % 4 != 0
                &&& number_at(fragment, 86, 2) >= 1_200
                &&& 1 <= fragment[88] <= 16
            }
            &&& view matches Ok(view) ==> {
                &&& is_hello_layout(fragment, view.hello)
                &&& offers_something(view.hello)
                &&& view.server_random@ == fragment.subrange(90, 122)
                &&& view.cookie@ == fragment.subrange(124, 124 + cookie)
            }
        }),
{
    let fragment = packet.fragment@;
    lemma_readers_read_numbers(fragment, 80);
    lemma_readers_read_numbers(fragment, 86);
    lemma_readers_read_numbers(fragment, 122);
    assert(fragment.len() == packet.fragment.len());
    let bitmap = crate::bytes::be16_at(fragment, 80);
    assert((bitmap & 3 == 0) == (bitmap % 4 == 0)) by (bit_vector);
    if fragment.len() >= 90 {
        assert(crate::bytes::be16_at(fragment.take(90), 80) == bitmap);
        assert(crate::bytes::be16_at(fragment.take(90), 86) == crate::bytes::be16_at(fragment, 86));
    }
    if view is Ok {
        crate::laws::handshake::lemma_hello_prefix(view->Ok_0.hello, fragment);
    }
}

/// A stateless message comes in one piece, and is a HELLO, a RETRY or a version negotiation.
pub proof fn lemma_stateless_messages_come_in_one_piece<'a>(
    packet: &LongPacket<'a>,
    message: StatelessHandshakeMessage<'a>,
)
    requires
        call_ensures(decode_stateless_message, (packet,), Ok(message)),
    ensures
        packet.fragment_offset == 0,
        0 < packet.fragment@.len() == packet.message_length,
        packet.destination_connection_id@.len() <= 20,
        packet.source_connection_id@.len() <= 20,
        match message {
            StatelessHandshakeMessage::Hello(hello) => packet.packet_type is Hello
                && is_hello_layout(packet.fragment@, hello) && packet.fragment@.len() == 90,
            StatelessHandshakeMessage::Retry(retry) => packet.packet_type is Retry
                && retry.encoding() == packet.fragment@,
            StatelessHandshakeMessage::VersionNegotiation(value) =>
            packet.packet_type is VersionNegotiation && value@ == packet.fragment@,
        },
{
    if message is Hello {
        let hello = message->Hello_0;
        crate::handshake::lemma_hello_round_trip(hello, hello);
        assert(packet.fragment@.take(90) =~= packet.fragment@);
        crate::laws::handshake::lemma_hello_prefix(hello, packet.fragment@);
    }
}

} // verus!
