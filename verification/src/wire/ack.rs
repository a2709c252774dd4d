//! Acknowledgement frames.

use vstd::prelude::*;

use crate::bytes::{
    be32, be32_at, be64, get_u32, get_u64, group_buffer_writes, overwrite_prefix, part,
    put_u32, put_u64,
};
use crate::wire::WireError;

verus! {

/// Bytes of an acknowledgement frame in front of its additional ranges.
pub const ACK_FIXED_LEN: usize = 16;

/// Bytes of one additional range.
pub const ACK_RANGE_LEN: usize = 8;

/// One additional acknowledged run behind a gap of unacknowledged packets.
#[derive(Clone, Copy, Debug, PartialEq, Eq, Structural)]
pub struct AckRange {
    /// Number of packets between this run and the next newer one.
    pub gap: u32,
    /// Number of acknowledged packets.
    pub length: u32,
}

impl AckRange {
    /// Canonical bytes of the range.
    pub open spec fn encoding(self) -> Seq<u8> {
        be32(self.gap) + be32(self.length)
    }
}

/// Canonical bytes of a list of ranges.
pub open spec fn ranges_encoding(ranges: Seq<AckRange>) -> Seq<u8>
    decreases ranges.len(),
{
    if ranges.len() == 0 {
        Seq::<u8>::empty()
    } else {
        ranges_encoding(ranges.drop_last()) + ranges.last().encoding()
    }
}

/// The range whose bytes start at `at`.
pub open spec fn range_at(bytes: Seq<u8>, at: int) -> AckRange {
    AckRange { gap: be32_at(bytes, at), length: be32_at(bytes, at + 4) }
}

/// Whether the ranges in `bytes` from `at` on acknowledge `number`, when the oldest packet
/// acknowledged so far is `bottom`.
pub open spec fn ranges_cover(bytes: Seq<u8>, at: int, bottom: int, number: int) -> bool
    decreases bytes.len() - at,
{
    if at + ACK_RANGE_LEN > bytes.len() {
        false
    } else {
        let range = range_at(bytes, at);
        let top = bottom - range.gap - 1;
        let next_bottom = top - range.length + 1;
        ||| next_bottom <= number <= top
        ||| ranges_cover(bytes, at + ACK_RANGE_LEN as int, next_bottom, number)
    }
}

/// Whether every range in `bytes` from `at` on is nonempty, lies behind a nonempty gap and ends
/// at a packet number that exists.
pub open spec fn ranges_valid(bytes: Seq<u8>, at: int, bottom: int) -> bool
    decreases bytes.len() - at,
{
    if at + ACK_RANGE_LEN > bytes.len() {
        at == bytes.len()
    } else {
        let range = range_at(bytes, at);
        let next_bottom = bottom - range.gap - range.length;
        &&& range.gap >= 1
        &&& range.length >= 1
        &&& next_bottom >= 0
        &&& ranges_valid(bytes, at + ACK_RANGE_LEN as int, next_bottom)
    }
}

/// Borrowed acknowledgement frame.
#[derive(Clone, Copy, Debug, PartialEq, Eq)]
pub struct AckFrame<'a> {
    pub largest_acked: u64,
    pub ack_delay_micros: u32,
    pub first_range_length: u32,
    pub ranges: &'a [u8],
}

impl<'a> AckFrame<'a> {
    /// Whether a frame's runs stay inside the packet-number space.
    pub open spec fn well_formed(self) -> bool {
        &&& 1 <= self.first_range_length <= self.largest_acked + 1
        &&& ranges_valid(self.ranges@, 0, self.largest_acked - self.first_range_length + 1)
    }

    /// The packet numbers a frame acknowledges.
    pub open spec fn covers(self, number: u64) -> bool {
        let bottom = self.largest_acked - self.first_range_length + 1;
        ||| bottom <= number <= self.largest_acked
        ||| ranges_cover(self.ranges@, 0, bottom, number as int)
    }

    /// Canonical bytes of a frame.
    pub open spec fn encoding(self) -> Seq<u8> {
        be64(self.largest_acked) + be32(self.ack_delay_micros) + be32(self.first_range_length)
            + self.ranges@
    }

    /// Encodes a frame with the given ranges.
    ///
    /// # Errors
    ///
    /// Returns an error when the output is too small.
    pub fn encode(
        largest_acked: u64,
        ack_delay_micros: u32,
        first_range_length: u32,
        ranges: &[AckRange],
        output: &mut [u8],
    ) -> (written: Result<usize, WireError>)
        ensures
            ACK_FIXED_LEN + ranges@.len() * ACK_RANGE_LEN > usize::MAX ==> {
                &&& written == Err::<usize, WireError>(WireError::LengthOverflow)
                &&& final(output)@ == old(output)@
            },
            old(output)@.len() < ACK_FIXED_LEN + ranges@.len() * ACK_RANGE_LEN <= usize::MAX ==> {
                &&& written == Err::<usize, WireError>(
                    WireError::BufferTooSmall {
                        needed: (ACK_FIXED_LEN + ranges@.len() * ACK_RANGE_LEN) as usize,
                        available: old(output)@.len() as usize,
                    },
                )
                &&& final(output)@ == old(output)@
            },
            old(output)@.len() >= ACK_FIXED_LEN + ranges@.len() * ACK_RANGE_LEN ==> {
                &&& written == Ok::<usize, WireError>(
                    (ACK_FIXED_LEN + ranges@.len() * ACK_RANGE_LEN) as usize,
                )
                &&& final(output)@ == overwrite_prefix(
                    old(output)@,
                    be64(largest_acked) + be32(ack_delay_micros) + be32(first_range_length)
                        + ranges_encoding(ranges@),
                )
            },
    {
        broadcast use group_buffer_writes;

        let available: usize = output.len();
        let body: usize = match ranges.len().checked_mul(ACK_RANGE_LEN) {
            Some(body) => body,
            None => {
                return Err(WireError::LengthOverflow);
            },
        };
        let needed: usize = match body.checked_add(ACK_FIXED_LEN) {
            Some(needed) => needed,
            None => {
                return Err(WireError::LengthOverflow);
            },
        };
        if available < needed {
            return Err(WireError::BufferTooSmall { needed, available });
        }
        let mut at: usize = put_u64(output, 0, largest_acked);
        at = put_u32(output, at, ack_delay_micros);
        at = put_u32(output, at, first_range_length);
        let ghost fixed = be64(largest_acked) + be32(ack_delay_micros) + be32(first_range_length);
        assert(fixed + ranges_encoding(ranges@.take(0)) =~= fixed);
        let mut i: usize = 0;
        while i < ranges.len()
            invariant
                i <= ranges@.len(),
                needed == ACK_FIXED_LEN + ranges@.len() * ACK_RANGE_LEN,
                needed <= old(output)@.len(),
                at == ACK_FIXED_LEN + i * ACK_RANGE_LEN,
                fixed == be64(largest_acked) + be32(ack_delay_micros) + be32(first_range_length),
                (fixed + ranges_encoding(ranges@.take(i as int))).len() == at,
                output@.len() == old(output)@.len(),
                output@ == overwrite_prefix(
                    old(output)@,
                    fixed + ranges_encoding(ranges@.take(i as int)),
                ),
            decreases ranges@.len() - i,
        {
            let ghost before = fixed + ranges_encoding(ranges@.take(i as int));
            at = put_u32(output, at, ranges[i].gap);
            at = put_u32(output, at, ranges[i].length);
            proof {
                assert(ranges@.take(i + 1).drop_last() =~= ranges@.take(i as int));
                assert(before + be32(ranges@[i as int].gap) + be32(ranges@[i as int].length)
                    =~= fixed + ranges_encoding(ranges@.take(i + 1)));
            }
            i = i + 1;
        }
        assert(ranges@.take(i as int) =~= ranges@);
        Ok(at)
    }

    /// Decodes an exact frame.
    ///
    /// # Errors
    ///
    /// Returns an error for truncation or a run outside the packet-number space.
    pub fn decode(input: &'a [u8]) -> (decoded: Result<AckFrame<'a>, WireError>)
        ensures
            input@.len() < ACK_FIXED_LEN ==> decoded == Err::<AckFrame<'a>, WireError>(
                WireError::PacketTooShort { minimum: ACK_FIXED_LEN, actual: input@.len() as usize },
            ),
            input@.len() >= ACK_FIXED_LEN ==> match decoded {
                Ok(frame) => frame.encoding() == input@ && frame.well_formed(),
                Err(error) => {
                    &&& error == WireError::InvalidAckRange
                    &&& forall|other: AckFrame<'a>| #[trigger]
                        other.encoding() == input@ ==> !other.well_formed()
                },
            },
            input@.len() >= ACK_FIXED_LEN ==> exists|other: AckFrame<'a>| #[trigger]
                other.encoding() == input@,
    {
        if input.len() < ACK_FIXED_LEN {
            return Err(WireError::PacketTooShort { minimum: ACK_FIXED_LEN, actual: input.len() });
        }
        let frame = AckFrame {
            largest_acked: get_u64(input, 0),
            ack_delay_micros: get_u32(input, 8),
            first_range_length: get_u32(input, 12),
            ranges: part(input, ACK_FIXED_LEN, input.len()),
        };
        proof {
            crate::bytes::lemma_be64_of_bytes(input@, 0);
            crate::bytes::lemma_be32_of_bytes(input@, 8);
            crate::bytes::lemma_be32_of_bytes(input@, 12);
            assert(frame.encoding() =~= input@);
            assert forall|other: AckFrame<'a>| #[trigger]
                other.encoding() == input@ implies other.well_formed() == frame.well_formed() by {
                lemma_ack_round_trip(frame, other);
            }
        }
        if frame.first_range_length == 0 || frame.first_range_length as u64 - 1
            > frame.largest_acked {
            return Err(WireError::InvalidAckRange);
        }
        let mut bottom: u64 = frame.largest_acked - (frame.first_range_length as u64 - 1);
        let total: usize = frame.ranges.len();
        let mut at: usize = 0;
        while total - at >= ACK_RANGE_LEN
            invariant
                at <= total,
                total == frame.ranges@.len(),
                ranges_valid(frame.ranges@, 0, frame.largest_acked - frame.first_range_length + 1)
                    == ranges_valid(frame.ranges@, at as int, bottom as int),
                1 <= frame.first_range_length <= frame.largest_acked + 1,
                frame.encoding() == input@,
                input@.len() >= ACK_FIXED_LEN,
                forall|other: AckFrame<'a>| #[trigger]
                    other.encoding() == input@ ==> other.well_formed() == frame.well_formed(),
            decreases total - at,
        {
            let gap: u64 = get_u32(frame.ranges, at) as u64;
            let length: u64 = get_u32(frame.ranges, at + 4) as u64;
            if gap == 0 || length == 0 || gap + length > bottom {
                return Err(WireError::InvalidAckRange);
            }
            bottom = bottom - (gap + length);
            at = at + ACK_RANGE_LEN;
        }
        if at != total {
            return Err(WireError::InvalidAckRange);
        }
        Ok(frame)
    }

    /// Whether this frame acknowledges `packet_number`.
    pub fn acknowledges(&self, packet_number: u64) -> (covered: bool)
        ensures
            covered == self.covers(packet_number),
    {
        let number: i128 = packet_number as i128;
        let mut top: i128 = self.largest_acked as i128;
        let mut bottom: i128 = top - self.first_range_length as i128 + 1;
        if bottom <= number && number <= top {
            return true;
        }
        let total: usize = self.ranges.len();
        let mut at: usize = 0;
        let ghost mut steps: int = 0;
        while total - at >= ACK_RANGE_LEN
            invariant
                at <= total,
                total == self.ranges@.len(),
                number == packet_number,
                self.covers(packet_number) == ranges_cover(
                    self.ranges@,
                    at as int,
                    bottom as int,
                    number as int,
                ),
                0 <= steps <= at,
                bottom <= u64::MAX + 1,
                bottom >= -0x1_0000_0000 - steps * 0x2_0000_0000,
            decreases total - at,
        {
            proof {
                assert(at <= 0xffff_ffff_ffff_ffff);
                assert(steps * 0x2_0000_0000 <= 0xffff_ffff_ffff_ffff * 0x2_0000_0000);
            }
            let gap: i128 = get_u32(self.ranges, at) as i128;
            let length: i128 = get_u32(self.ranges, at + 4) as i128;
            top = bottom - gap - 1;
            bottom = top - length + 1;
            if bottom <= number && number <= top {
                return true;
            }
            at = at + ACK_RANGE_LEN;
            proof {
                steps = steps + 1;
            }
        }
        false
    }
}

/// A frame's canonical bytes determine its fields.
pub proof fn lemma_ack_round_trip(left: AckFrame, right: AckFrame)
    requires
        left.encoding() == right.encoding(),
    ensures
        left.largest_acked == right.largest_acked,
        left.ack_delay_micros == right.ack_delay_micros,
        left.first_range_length == right.first_range_length,
        left.ranges@ == right.ranges@,
{
    let bytes = left.encoding();
    crate::bytes::lemma_be64_inverse(left.largest_acked);
    crate::bytes::lemma_be64_inverse(right.largest_acked);
    crate::bytes::lemma_be32_inverse(left.ack_delay_micros);
    crate::bytes::lemma_be32_inverse(right.ack_delay_micros);
    crate::bytes::lemma_be32_inverse(left.first_range_length);
    crate::bytes::lemma_be32_inverse(right.first_range_length);
    assert(bytes.subrange(0, 8) =~= be64(left.largest_acked));
    assert(bytes.subrange(0, 8) =~= be64(right.largest_acked));
    assert(bytes.subrange(8, 12) =~= be32(left.ack_delay_micros));
    assert(bytes.subrange(8, 12) =~= be32(right.ack_delay_micros));
    assert(bytes.subrange(12, 16) =~= be32(left.first_range_length));
    assert(bytes.subrange(12, 16) =~= be32(right.first_range_length));
    assert(bytes.skip(16) =~= left.ranges@);
    assert(bytes.skip(16) =~= right.ranges@);
}

/// A frame acknowledges nothing above its largest acknowledged packet.
pub proof fn lemma_ack_covers_only_up_to_largest(frame: AckFrame, number: u64)
    requires
        frame.well_formed(),
        frame.covers(number),
    ensures
        number <= frame.largest_acked,
{
    lemma_ranges_cover_below(
        frame.ranges@,
        0,
        frame.largest_acked - frame.first_range_length + 1,
        number as int,
    );
}

proof fn lemma_ranges_cover_below(bytes: Seq<u8>, at: int, bottom: int, number: int)
    ensures
        ranges_cover(bytes, at, bottom, number) ==> number < bottom,
    decreases bytes.len() - at,
{
    if at + ACK_RANGE_LEN <= bytes.len() {
        let range = range_at(bytes, at);
        let next_bottom = bottom - range.gap - 1 - range.length + 1;
        lemma_ranges_cover_below(bytes, at + ACK_RANGE_LEN as int, next_bottom, number);
    }
}

} // verus!
