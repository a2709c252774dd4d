//! Laws of the packet formats.

use vstd::prelude::*;

use crate::bytes::{be16, be32, be64, overwrite_prefix};
use crate::laws::numbers::{
    lemma_readers_read_numbers, lemma_spells16, lemma_spells32, lemma_spells64, number_at,
};
use crate::wire::ack::{range_at, ranges_cover, ranges_encoding, ranges_valid, AckFrame, AckRange};
use crate::wire::{
    read_u16, read_u32, read_u64, reconstruct_packet_number, DataFrame, DataMetadata, PacketClass,
    ShortHeader, WireError,
};

verus! {

/// A reader returns the number that the bytes at its offset spell, and fails exactly if they are
/// not all there.
pub proof fn lemma_readers_need_their_bytes(
    input: &[u8],
    offset: usize,
    short: Result<u16, WireError>,
    word: Result<u32, WireError>,
    long: Result<u64, WireError>,
)
    requires
        call_ensures(read_u16, (input, offset), short),
        call_ensures(read_u32, (input, offset), word),
        call_ensures(read_u64, (input, offset), long),
    ensures
        short is Ok <==> offset + 2 <= input@.len(),
        word is Ok <==> offset + 4 <= input@.len(),
        long is Ok <==> offset + 8 <= input@.len(),
        short matches Ok(value) ==> value == number_at(input@, offset as int, 2),
        word matches Ok(value) ==> value == number_at(input@, offset as int, 4),
        long matches Ok(value) ==> value == number_at(input@, offset as int, 8),
        short matches Err(error) ==> (error is LengthOverflow <==> offset + 2 > usize::MAX),
        word matches Err(error) ==> (error is LengthOverflow <==> offset + 4 > usize::MAX),
        long matches Err(error) ==> (error is LengthOverflow <==> offset + 8 > usize::MAX),
        short matches Err(WireError::PacketTooShort { minimum, actual }) ==> minimum == offset + 2
            && actual == input@.len(),
        word matches Err(WireError::PacketTooShort { minimum, actual }) ==> minimum == offset + 4
            && actual == input@.len(),
        long matches Err(WireError::PacketTooShort { minimum, actual }) ==> minimum == offset + 8
            && actual == input@.len(),
{
    assert(input@.len() == input.len());
    lemma_readers_read_numbers(input@, offset as int);
}

/// The number of a packet class in a header.
pub open spec fn class_number(class: PacketClass) -> int {
    match class {
        PacketClass::Data => 0,
        PacketClass::Ack => 1,
        PacketClass::Control => 2,
        PacketClass::Probe => 3,
    }
}

/// A short header is 13 bytes: the class in bits 5 and 6 and the key phase in bit 4 of the first,
/// the connection ID in the next eight, and the packet number in the last four.
pub proof fn lemma_short_header_layout(header: ShortHeader, written: Result<usize, WireError>)
    ensures
        forall|output: &mut [u8]| #[trigger]
            call_ensures(ShortHeader::encode, (header, output), written) ==> {
                let after = final(output)@;
                &&& written is Ok <==> output@.len() >= 13
                &&& written is Err ==> after == output@
                &&& written matches Ok(length) ==> {
                    &&& length == 13
                    &&& after.len() == output@.len()
                    &&& after[0] == 32 * class_number(header.class) + if header.key_phase {
                        16int
                    } else {
                        0
                    }
                    &&& after.subrange(1, 9) == header.destination_connection_id@
                    &&& number_at(after, 9, 4) == header.truncated_packet_number
                    &&& after.skip(13) == output@.skip(13)
                }
            },
{
    assert forall|output: &mut [u8]| #[trigger]
        call_ensures(ShortHeader::encode, (header, output), written) && output@.len()
            >= 13 implies {
        let after = final(output)@;
        &&& after.len() == output@.len()
        &&& after[0] == 32 * class_number(header.class) + if header.key_phase {
            16int
        } else {
            0
        }
        &&& after.subrange(1, 9) == header.destination_connection_id@
        &&& number_at(after, 9, 4) == header.truncated_packet_number
        &&& after.skip(13) == output@.skip(13)
    } by {
        lemma_short_header_bytes(header, output@);
    }
}

proof fn lemma_short_header_bytes(header: ShortHeader, buffer: Seq<u8>)
    requires
        buffer.len() >= 13,
    ensures
        ({
            let after = overwrite_prefix(buffer, header.encoding());
            &&& after.len() == buffer.len()
            &&& after[0] == 32 * class_number(header.class) + if header.key_phase {
                16int
            } else {
                0
            }
            &&& after.subrange(1, 9) == header.destination_connection_id@
            &&& number_at(after, 9, 4) == header.truncated_packet_number
            &&& after.skip(13) == buffer.skip(13)
        }),
{
    let after = overwrite_prefix(buffer, header.encoding());
    assert(after.subrange(1, 9) =~= header.destination_connection_id@);
    assert(after.subrange(9, 13) =~= be32(header.truncated_packet_number));
    lemma_spells32(after, 9, header.truncated_packet_number);
    assert(after.skip(13) =~= buffer.skip(13));
}

/// A short header is read from the first 13 bytes, each field from where it is written. Bits 0 to 3
/// and bit 7 of the first byte are zero.
pub proof fn lemma_short_header_is_read_where_it_is_written(
    packet: &[u8],
    decoded: Result<ShortHeader, WireError>,
)
    requires
        call_ensures(ShortHeader::decode_unprotected, (packet,), decoded),
    ensures
        decoded is Ok <==> packet@.len() >= 13 && packet@[0] % 16 == 0 && packet@[0] < 128,
        decoded matches Ok(header) ==> {
            &&& class_number(header.class) == packet@[0] / 32
            &&& header.key_phase <==> (packet@[0] / 16) % 2 == 1
            &&& header.destination_connection_id@ == packet@.subrange(1, 9)
            &&& header.truncated_packet_number == number_at(packet@, 9, 4)
        },
        decoded matches Err(error) ==> {
            &&& error is PacketTooShort <==> packet@.len() < 13
            &&& error is InvalidShortHeader <==> packet@.len() >= 13
        },
{
    if decoded is Ok {
        let header = decoded->Ok_0;
        lemma_short_header_bytes(header, packet@);
        assert(overwrite_prefix(packet@, header.encoding()) =~= packet@) by {
            assert(header.encoding() == packet@.take(13));
        }
    }
}

/// A packet number is reconstructed to one that ends in the truncated bits. Where any such number
/// is within half a window of the expected one, that is the one, and a number exactly half a window
/// away goes to the upper side.
pub proof fn lemma_reconstruction_is_the_nearest(
    truncated: u32,
    expected: u64,
    number: u64,
    other: u64,
)
    requires
        call_ensures(reconstruct_packet_number, (truncated, expected), number),
        other as int % 0x1_0000_0000 == truncated,
    ensures
        number as int % 0x1_0000_0000 == truncated,
        -0x8000_0000 < other - expected <= 0x8000_0000 ==> number == other,
        number - expected <= 0x8000_0000 || number < 0x1_0000_0000,
{
    let low = expected as int % 0x1_0000_0000;
    let base = expected - low;
    assert((base + truncated) % 0x1_0000_0000 == truncated);
    assert((base + truncated + 0x1_0000_0000) % 0x1_0000_0000 == truncated);
    assert((base + truncated - 0x1_0000_0000) % 0x1_0000_0000 == truncated);
}

/// DATA plaintext is the object slot in two bytes, the chunk index in four, the fragment offset in
/// four, the fragment length in two, and the fragment.
pub proof fn lemma_data_layout(
    metadata: DataMetadata,
    fragment: &[u8],
    written: Result<usize, WireError>,
)
    ensures
        forall|output: &mut [u8]| #[trigger]
            call_ensures(
                DataMetadata::encode_with_fragment,
                (metadata, fragment, output),
                written,
            ) ==> {
                let after = final(output)@;
                let end = 12 + fragment@.len();
                &&& written is Ok <==> fragment@.len() == metadata.fragment_length && output@.len()
                    >= end
                &&& written is Err ==> after == output@
                &&& written matches Err(error) ==> (error is LengthMismatch <==> fragment@.len()
                    != metadata.fragment_length)
                &&& written matches Ok(length) ==> {
                    &&& length == end
                    &&& after.len() == output@.len()
                    &&& number_at(after, 0, 2) == metadata.object_slot
                    &&& number_at(after, 2, 4) == metadata.chunk_index
                    &&& number_at(after, 6, 4) == metadata.fragment_offset
                    &&& number_at(after, 10, 2) == metadata.fragment_length
                    &&& after.subrange(12, end as int) == fragment@
                    &&& after.skip(end as int) == output@.skip(end as int)
                }
            },
{
    assert forall|output: &mut [u8]| #[trigger]
        call_ensures(DataMetadata::encode_with_fragment, (metadata, fragment, output), written)
            && written is Ok implies {
        let after = final(output)@;
        let end = 12 + fragment@.len();
        &&& after.len() == output@.len()
        &&& number_at(after, 0, 2) == metadata.object_slot
        &&& number_at(after, 2, 4) == metadata.chunk_index
        &&& number_at(after, 6, 4) == metadata.fragment_offset
        &&& number_at(after, 10, 2) == metadata.fragment_length
        &&& after.subrange(12, end as int) == fragment@
        &&& after.skip(end as int) == output@.skip(end as int)
    } by {
        lemma_data_bytes(metadata, fragment@, output@);
    }
}

proof fn lemma_data_bytes(metadata: DataMetadata, fragment: Seq<u8>, buffer: Seq<u8>)
    requires
        buffer.len() >= 12 + fragment.len(),
    ensures
        ({
            let after = overwrite_prefix(buffer, metadata.encoding() + fragment);
            let end = 12 + fragment.len();
            &&& after.len() == buffer.len()
            &&& number_at(after, 0, 2) == metadata.object_slot
            &&& number_at(after, 2, 4) == metadata.chunk_index
            &&& number_at(after, 6, 4) == metadata.fragment_offset
            &&& number_at(after, 10, 2) == metadata.fragment_length
            &&& after.subrange(12, end as int) == fragment
            &&& after.skip(end as int) == buffer.skip(end as int)
        }),
{
    let after = overwrite_prefix(buffer, metadata.encoding() + fragment);
    let end = 12 + fragment.len();
    assert(after.subrange(0, 2) =~= be16(metadata.object_slot));
    assert(after.subrange(2, 6) =~= be32(metadata.chunk_index));
    assert(after.subrange(6, 10) =~= be32(metadata.fragment_offset));
    assert(after.subrange(10, 12) =~= be16(metadata.fragment_length));
    lemma_spells16(after, 0, metadata.object_slot);
    lemma_spells32(after, 2, metadata.chunk_index);
    lemma_spells32(after, 6, metadata.fragment_offset);
    lemma_spells16(after, 10, metadata.fragment_length);
    assert(after.subrange(12, end as int) =~= fragment);
    assert(after.skip(end as int) =~= buffer.skip(end as int));
}

/// DATA plaintext is accepted exactly if its length field is the length of the rest, and each field
/// is read from where it is written.
pub proof fn lemma_data_is_read_where_it_is_written(
    input: &[u8],
    decoded: Result<DataFrame<'_>, WireError>,
)
    requires
        call_ensures(DataFrame::decode_plaintext, (input,), decoded),
    ensures
        decoded is Ok <==> input@.len() >= 12 && number_at(input@, 10, 2) == input@.len() - 12,
        decoded matches Ok(frame) ==> {
            &&& frame.metadata.object_slot == number_at(input@, 0, 2)
            &&& frame.metadata.chunk_index == number_at(input@, 2, 4)
            &&& frame.metadata.fragment_offset == number_at(input@, 6, 4)
            &&& frame.metadata.fragment_length == number_at(input@, 10, 2)
            &&& frame.fragment@ == input@.skip(12)
        },
        decoded matches Err(error) ==> {
            &&& error is PacketTooShort <==> input@.len() < 12
            &&& error is LengthMismatch <==> input@.len() >= 12
        },
{
    lemma_readers_read_numbers(input@, 10);
    if decoded is Ok {
        let frame = decoded->Ok_0;
        let whole = frame.metadata.encoding() + frame.fragment@;
        assert(overwrite_prefix(input@, whole) =~= input@);
        lemma_data_bytes(frame.metadata, frame.fragment@, input@);
        assert(input@.skip(12) =~= frame.fragment@);
    }
}

/// An ACK frame is the largest packet number in eight bytes, the delay in four, the length of the
/// first range in four, and eight bytes for each further range: its gap and its length.
pub proof fn lemma_ack_layout(
    largest: u64,
    delay: u32,
    first: u32,
    ranges: &[AckRange],
    written: Result<usize, WireError>,
)
    ensures
        forall|output: &mut [u8]| #[trigger]
            call_ensures(AckFrame::encode, (largest, delay, first, ranges, output), written) ==> {
                let after = final(output)@;
                let end = 16 + 8 * ranges@.len();
                &&& written is Ok <==> end <= output@.len()
                &&& written is Err ==> after == output@
                &&& written matches Err(error) ==> (error is LengthOverflow <==> end > usize::MAX)
                &&& written matches Ok(length) ==> {
                    &&& length == end
                    &&& after.len() == output@.len()
                    &&& number_at(after, 0, 8) == largest
                    &&& number_at(after, 8, 4) == delay
                    &&& number_at(after, 12, 4) == first
                    &&& forall|index: int|
                        0 <= index < ranges@.len() ==> {
                            &&& number_at(after, 16 + 8 * index, 4) == (
                            #[trigger] ranges@[index]).gap
                            &&& number_at(after, 20 + 8 * index, 4) == ranges@[index].length
                        }
                    &&& after.skip(end as int) == output@.skip(end as int)
                }
            },
{
    assert forall|output: &mut [u8]| #[trigger]
        call_ensures(AckFrame::encode, (largest, delay, first, ranges, output), written) implies {
        let after = final(output)@;
        let end = 16 + 8 * ranges@.len();
        &&& written is Ok <==> end <= output@.len()
        &&& written is Ok ==> {
            &&& after.len() == output@.len()
            &&& number_at(after, 0, 8) == largest
            &&& number_at(after, 8, 4) == delay
            &&& number_at(after, 12, 4) == first
            &&& forall|index: int|
                0 <= index < ranges@.len() ==> {
                    &&& number_at(after, 16 + 8 * index, 4) == (#[trigger] ranges@[index]).gap
                    &&& number_at(after, 20 + 8 * index, 4) == ranges@[index].length
                }
            &&& after.skip(end as int) == output@.skip(end as int)
        }
    } by {
        assert(output@.len() == output.len());
        if written is Ok {
            lemma_ack_bytes(largest, delay, first, ranges@, output@);
        }
    }
}

proof fn lemma_ack_bytes(
    largest: u64,
    delay: u32,
    first: u32,
    ranges: Seq<AckRange>,
    buffer: Seq<u8>,
)
    requires
        16 + 8 * ranges.len() <= buffer.len(),
    ensures
        ({
            let end = 16 + 8 * ranges.len();
            let after = overwrite_prefix(
                buffer,
                be64(largest) + be32(delay) + be32(first) + ranges_encoding(ranges),
            );
            &&& after.len() == buffer.len()
            &&& number_at(after, 0, 8) == largest
            &&& number_at(after, 8, 4) == delay
            &&& number_at(after, 12, 4) == first
            &&& forall|index: int|
                0 <= index < ranges.len() ==> {
                    &&& number_at(after, 16 + 8 * index, 4) == (#[trigger] ranges[index]).gap
                    &&& number_at(after, 20 + 8 * index, 4) == ranges[index].length
                }
            &&& after.skip(end as int) == buffer.skip(end as int)
        }),
{
    let end = 16 + 8 * ranges.len();
    let further = ranges_encoding(ranges);
    let after = overwrite_prefix(buffer, be64(largest) + be32(delay) + be32(first) + further);
    lemma_ranges_are_laid_out(ranges);
    assert(after.subrange(0, 8) =~= be64(largest));
    assert(after.subrange(8, 12) =~= be32(delay));
    assert(after.subrange(12, 16) =~= be32(first));
    lemma_spells64(after, 0, largest);
    lemma_spells32(after, 8, delay);
    lemma_spells32(after, 12, first);
    assert forall|index: int| 0 <= index < ranges.len() implies {
        &&& number_at(after, 16 + 8 * index, 4) == (#[trigger] ranges[index]).gap
        &&& number_at(after, 20 + 8 * index, 4) == ranges[index].length
    } by {
        let range = ranges[index];
        let encoded = further.subrange(8 * index, 8 * index + 8);
        assert(encoded == range.encoding());
        assert(after.subrange(16 + 8 * index, 24 + 8 * index) =~= encoded);
        assert(after.subrange(16 + 8 * index, 20 + 8 * index) =~= encoded.subrange(0, 4));
        assert(after.subrange(20 + 8 * index, 24 + 8 * index) =~= encoded.subrange(4, 8));
        assert(encoded.subrange(0, 4) =~= be32(range.gap));
        assert(encoded.subrange(4, 8) =~= be32(range.length));
        lemma_spells32(after, 16 + 8 * index, range.gap);
        lemma_spells32(after, 20 + 8 * index, range.length);
    }
    assert(after.skip(end as int) =~= buffer.skip(end as int));
}

proof fn lemma_ranges_are_laid_out(ranges: Seq<AckRange>)
    ensures
        ranges_encoding(ranges).len() == 8 * ranges.len(),
        forall|index: int|
            0 <= index < ranges.len() ==> ranges_encoding(ranges).subrange(
                8 * index,
                8 * index + 8,
            ) == (#[trigger] ranges[index]).encoding(),
    decreases ranges.len(),
{
    if ranges.len() > 0 {
        let before = ranges.drop_last();
        lemma_ranges_are_laid_out(before);
        assert forall|index: int| 0 <= index < ranges.len() implies ranges_encoding(
            ranges,
        ).subrange(8 * index, 8 * index + 8) == (#[trigger] ranges[index]).encoding() by {
            if index < before.len() {
                assert(before[index] == ranges[index]);
                assert(ranges_encoding(ranges).subrange(8 * index, 8 * index + 8)
                    =~= ranges_encoding(before).subrange(8 * index, 8 * index + 8));
            } else {
                assert(ranges_encoding(ranges).subrange(8 * index, 8 * index + 8)
                    =~= ranges.last().encoding());
            }
        }
    }
}

/// Packet numbers that the first `count` further ranges of an ACK frame span, gaps and lengths
/// together.
pub open spec fn spanned(ranges: Seq<u8>, count: nat) -> int
    decreases count,
{
    if count == 0 {
        0
    } else {
        spanned(ranges, (count - 1) as nat) + number_at(ranges, 8 * (count - 1), 4) + number_at(
            ranges,
            8 * (count - 1) + 4,
            4,
        )
    }
}

/// Whether a further range of an ACK frame holds a packet number: its packets lie below all that
/// the ranges before it span, behind its own gap.
pub open spec fn range_holds(frame: AckFrame<'_>, index: int, number: u64) -> bool {
    let end = frame.largest_acked + 1 - frame.first_range_length - spanned(
        frame.ranges@,
        (index + 1) as nat,
    );
    &&& 0 <= index
    &&& 8 * (index + 1) <= frame.ranges@.len()
    &&& end <= number < end + number_at(frame.ranges@, 8 * index + 4, 4)
}

/// An ACK frame acknowledges the numbers of its first range, which ends with the largest one, and
/// those of its further ranges.
pub proof fn lemma_acknowledged_numbers(frame: &AckFrame<'_>, number: u64, covered: bool)
    requires
        call_ensures(AckFrame::acknowledges, (frame, number), covered),
    ensures
        covered <==> {
            ||| frame.largest_acked - frame.first_range_length < number <= frame.largest_acked
            ||| exists|index: int| #[trigger] range_holds(*frame, index, number)
        },
{
    lemma_further_ranges(*frame, 0, number);
    assert((exists|index: int| #[trigger] range_holds(*frame, index, number)) <==> exists|
        index: int,
    |
        0 <= index && #[trigger] range_holds(*frame, index, number));
}

proof fn lemma_further_ranges(frame: AckFrame<'_>, from: nat, number: u64)
    ensures
        ranges_cover(
            frame.ranges@,
            (8 * from) as int,
            frame.largest_acked + 1 - frame.first_range_length - spanned(frame.ranges@, from),
            number as int,
        ) <==> exists|index: int| from <= index && #[trigger] range_holds(frame, index, number),
    decreases frame.ranges@.len() - 8 * from,
{
    let bytes = frame.ranges@;
    if 8 * from + 8 <= bytes.len() {
        lemma_further_ranges(frame, from + 1, number);
        lemma_readers_read_numbers(bytes, (8 * from) as int);
        lemma_readers_read_numbers(bytes, (8 * from + 4) as int);
        let range = range_at(bytes, (8 * from) as int);
        assert(spanned(bytes, from + 1) == spanned(bytes, from) + range.gap + range.length);
        let here = range_holds(frame, from as int, number);
        let beyond = exists|index: int|
            from + 1 <= index && #[trigger] range_holds(frame, index, number);
        assert((exists|index: int| from <= index && #[trigger] range_holds(frame, index, number))
            <==> here || beyond) by {
            if exists|index: int| from <= index && #[trigger] range_holds(frame, index, number) {
                let index = choose|index: int|
                    from <= index && #[trigger] range_holds(frame, index, number);
                assert(index == from || from + 1 <= index);
            }
        }
    } else {
        assert forall|index: int| from <= index implies !#[trigger] range_holds(
            frame,
            index,
            number,
        ) by {}
    }
}

/// An ACK frame is accepted exactly if its ranges are whole, every range acknowledges a packet,
/// every further range lies behind a gap, and all of them together reach no further down than
/// packet number zero.
pub proof fn lemma_accepted_ack_ranges(
    input: &[u8],
    decoded: Result<AckFrame<'_>, WireError>,
)
    requires
        call_ensures(AckFrame::decode, (input,), decoded),
    ensures
        decoded matches Ok(frame) ==> {
            &&& frame.largest_acked == number_at(input@, 0, 8)
            &&& frame.ack_delay_micros == number_at(input@, 8, 4)
            &&& frame.first_range_length == number_at(input@, 12, 4)
            &&& frame.ranges@ == input@.skip(16)
        },
        decoded is Ok <==> {
            let largest = number_at(input@, 0, 8);
            let first = number_at(input@, 12, 4);
            let ranges = input@.skip(16);
            &&& input@.len() >= 16
            &&& input@.len() % 8 == 0
            &&& 1 <= first <= largest + 1
            &&& forall|index: nat|
                8 * (index + 1) <= ranges.len() ==> {
                    &&& #[trigger] spanned(ranges, index + 1) <= largest + 1 - first
                    &&& number_at(ranges, (8 * index) as int, 4) >= 1
                    &&& number_at(ranges, (8 * index + 4) as int, 4) >= 1
                }
        },
        decoded matches Err(error) ==> {
            &&& error is PacketTooShort <==> input@.len() < 16
            &&& error is InvalidAckRange <==> input@.len() >= 16
        },
{
    if input@.len() >= 16 {
        let frame = match decoded {
            Ok(frame) => frame,
            Err(_) => choose|frame: AckFrame<'_>| #[trigger] frame.encoding() == input@,
        };
        lemma_frame_validity(frame, input@);
    }
}

#[verifier::spinoff_prover]
#[verifier::rlimit(40)]
proof fn lemma_frame_validity(frame: AckFrame<'_>, bytes: Seq<u8>)
    requires
        frame.encoding() == bytes,
    ensures
        frame.largest_acked == number_at(bytes, 0, 8),
        frame.ack_delay_micros == number_at(bytes, 8, 4),
        frame.first_range_length == number_at(bytes, 12, 4),
        frame.ranges@ == bytes.skip(16),
        frame.well_formed() <==> {
            let largest = number_at(bytes, 0, 8);
            let first = number_at(bytes, 12, 4);
            let ranges = bytes.skip(16);
            &&& bytes.len() % 8 == 0
            &&& 1 <= first <= largest + 1
            &&& forall|index: nat|
                8 * (index + 1) <= ranges.len() ==> {
                    &&& #[trigger] spanned(ranges, index + 1) <= largest + 1 - first
                    &&& number_at(ranges, (8 * index) as int, 4) >= 1
                    &&& number_at(ranges, (8 * index + 4) as int, 4) >= 1
                }
        },
{
    lemma_ack_fields(
        frame.largest_acked,
        frame.ack_delay_micros,
        frame.first_range_length,
        frame.ranges@,
        bytes,
    );
    let ranges = frame.ranges@;
    let bottom = frame.largest_acked + 1 - frame.first_range_length;
    lemma_valid_ranges(ranges, 0, bottom);
    assert(spanned(ranges, 0) == 0);
    assert(bytes.len() == 16 + ranges.len());
    assert(bytes.len() % 8 == 0 <==> ranges.len() % 8 == 0);
    assert(frame.well_formed() <==> 1 <= frame.first_range_length <= frame.largest_acked + 1
        && ranges_valid(ranges, 0, bottom));
    let reaching = forall|index: nat|
        8 * (index + 1) <= ranges.len() ==> {
            &&& #[trigger] spanned(ranges, index + 1) <= bottom
            &&& number_at(ranges, (8 * index) as int, 4) >= 1
            &&& number_at(ranges, (8 * index + 4) as int, 4) >= 1
        };
    assert(ranges_valid(ranges, 0, bottom) <==> ranges.len() % 8 == 0 && reaching);
}

proof fn lemma_ack_fields(largest: u64, delay: u32, first: u32, ranges: Seq<u8>, bytes: Seq<u8>)
    requires
        bytes == be64(largest) + be32(delay) + be32(first) + ranges,
    ensures
        number_at(bytes, 0, 8) == largest,
        number_at(bytes, 8, 4) == delay,
        number_at(bytes, 12, 4) == first,
        bytes.skip(16) == ranges,
{
    assert(bytes.subrange(0, 8) =~= be64(largest));
    assert(bytes.subrange(8, 12) =~= be32(delay));
    assert(bytes.subrange(12, 16) =~= be32(first));
    lemma_spells64(bytes, 0, largest);
    lemma_spells32(bytes, 8, delay);
    lemma_spells32(bytes, 12, first);
    assert(bytes.skip(16) =~= ranges);
}

proof fn lemma_valid_ranges(ranges: Seq<u8>, from: nat, bottom: int)
    requires
        8 * from <= ranges.len(),
    ensures
        ranges_valid(ranges, (8 * from) as int, bottom - spanned(ranges, from)) <==> {
            &&& ranges.len() % 8 == 0
            &&& forall|index: nat|
                from <= index && 8 * (index + 1) <= ranges.len() ==> {
                    &&& #[trigger] spanned(ranges, index + 1) <= bottom
                    &&& number_at(ranges, (8 * index) as int, 4) >= 1
                    &&& number_at(ranges, (8 * index + 4) as int, 4) >= 1
                }
        },
    decreases ranges.len() - 8 * from,
{
    if 8 * from + 8 <= ranges.len() {
        lemma_valid_ranges(ranges, from + 1, bottom);
        lemma_readers_read_numbers(ranges, (8 * from) as int);
        lemma_readers_read_numbers(ranges, (8 * from + 4) as int);
        let range = range_at(ranges, (8 * from) as int);
        assert(spanned(ranges, from + 1) == spanned(ranges, from) + range.gap + range.length);
    }
}

} // verus!
