use ogtp::wire::ack::{AckFrame, AckRange};
use ogtp::wire::{
    read_u16, read_u32, read_u64, reconstruct_packet_number, DataFrame, DataMetadata,
    PacketClass, ShortHeader, WireError, DATA_METADATA_LEN, SHORT_HEADER_LEN,
};

#[test]
fn short_headers_round_trip_for_every_class_and_phase() {
    for class in [
        PacketClass::Data,
        PacketClass::Ack,
        PacketClass::Control,
        PacketClass::Probe,
    ] {
        for key_phase in [false, true] {
            let header = ShortHeader {
                class,
                key_phase,
                destination_connection_id: *b"path-007",
                truncated_packet_number: 0x0102_0304,
            };
            let mut packet = [0_u8; SHORT_HEADER_LEN];
            assert_eq!(header.encode(&mut packet), Ok(SHORT_HEADER_LEN));
            assert_eq!(packet[0] & 0x80, 0);
            assert_eq!(packet[9..], [1, 2, 3, 4]);
            assert_eq!(ShortHeader::decode_unprotected(&packet), Ok(header));
            packet[0] |= 0x80;
            assert_eq!(
                ShortHeader::decode_unprotected(&packet),
                Err(WireError::InvalidShortHeader(packet[0]))
            );
        }
    }
}

#[test]
fn short_headers_need_thirteen_bytes() {
    let header = ShortHeader {
        class: PacketClass::Data,
        key_phase: false,
        destination_connection_id: [0; 8],
        truncated_packet_number: 0,
    };
    assert_eq!(
        header.encode(&mut [0_u8; 12]),
        Err(WireError::BufferTooSmall {
            needed: 13,
            available: 12,
        })
    );
    assert_eq!(
        ShortHeader::decode_unprotected(&[0_u8; 12]),
        Err(WireError::PacketTooShort {
            minimum: 13,
            actual: 12,
        })
    );
}

#[test]
fn packet_numbers_are_recovered_around_the_expected_one() {
    for expected in [
        0_u64,
        1,
        0x7fff_ffff,
        0x8000_0000,
        0x1_0000_0000,
        0x1_7fff_ffff,
        0x5_ffff_fffe,
    ] {
        for distance in [0_u64, 1, 1_000, 0x7fff_ffff] {
            let above = expected + distance;
            let below = expected.saturating_sub(distance);
            for number in [above, below] {
                let truncated =
                    u32::try_from(number & 0xffff_ffff).expect("the low half fits");
                assert_eq!(reconstruct_packet_number(truncated, expected), number);
            }
        }
    }
}

#[test]
fn data_plaintext_round_trips_and_checks_its_length() {
    let metadata = DataMetadata {
        object_slot: 0x0102,
        chunk_index: 0x0304_0506,
        fragment_offset: 0x0708_090a,
        fragment_length: 3,
    };
    let mut output = [0_u8; 16];
    assert_eq!(metadata.encode_with_fragment(b"abc", &mut output), Ok(15));
    assert_eq!(
        output[..15],
        [1, 2, 3, 4, 5, 6, 7, 8, 9, 10, 0, 3, b'a', b'b', b'c']
    );
    let decoded = DataFrame::decode_plaintext(&output[..15]).expect("DATA decodes");
    assert_eq!(decoded.metadata, metadata);
    assert_eq!(decoded.fragment, b"abc");
    assert_eq!(
        DataFrame::decode_plaintext(&output),
        Err(WireError::LengthMismatch {
            expected: 15,
            actual: 16,
        })
    );
    assert_eq!(
        metadata.encode_with_fragment(b"ab", &mut output),
        Err(WireError::LengthMismatch {
            expected: 3,
            actual: 2,
        })
    );
    assert_eq!(
        metadata.encode_with_fragment(b"abc", &mut output[..14]),
        Err(WireError::BufferTooSmall {
            needed: DATA_METADATA_LEN + 3,
            available: 14,
        })
    );
}

#[test]
fn integer_reads_are_big_endian_and_bounded() {
    let bytes = [1, 2, 3, 4, 5, 6, 7, 8, 9];
    assert_eq!(read_u16(&bytes, 1), Ok(0x0203));
    assert_eq!(read_u32(&bytes, 1), Ok(0x0203_0405));
    assert_eq!(read_u64(&bytes, 1), Ok(0x0203_0405_0607_0809));
    assert!(read_u16(&bytes, 8).is_err());
    assert!(read_u32(&bytes, 6).is_err());
    assert!(read_u64(&bytes, 2).is_err());
    assert!(read_u16(&bytes, usize::MAX).is_err());
}

#[test]
fn acknowledgements_cover_exactly_their_ranges() {
    let mut encoded = [0_u8; 64];
    let length = AckFrame::encode(
        20,
        7,
        3,
        &[
            AckRange { gap: 2, length: 4 },
            AckRange { gap: 1, length: 1 },
        ],
        &mut encoded,
    )
    .expect("ACK encodes");
    let ack = AckFrame::decode(&encoded[..length]).expect("ACK decodes");
    assert_eq!(ack.largest_acked, 20);
    assert_eq!(ack.ack_delay_micros, 7);
    let covered: Vec<u64> = (0..30).filter(|number| ack.acknowledges(*number)).collect();
    assert_eq!(covered, vec![10, 12, 13, 14, 15, 18, 19, 20]);
}

#[test]
fn acknowledgements_below_packet_zero_are_rejected() {
    let mut encoded = [0_u8; 64];
    for first_range_length in [0, 3] {
        let length = AckFrame::encode(1, 0, first_range_length, &[], &mut encoded)
            .expect("ACK encodes");
        assert_eq!(
            AckFrame::decode(&encoded[..length]),
            Err(WireError::InvalidAckRange)
        );
    }
    let length = AckFrame::encode(5, 0, 1, &[AckRange { gap: 5, length: 1 }], &mut encoded)
        .expect("ACK encodes");
    assert_eq!(
        AckFrame::decode(&encoded[..length]),
        Err(WireError::InvalidAckRange)
    );
    assert_eq!(
        WireError::InvalidAckRange.message(),
        "invalid acknowledgement range"
    );
}
