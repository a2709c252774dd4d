use ogtp::ecn::EcnCodepoint;
use ogtp::runtime::linux::control::{
    control_values, prepare_send, validate_control, ControlValue, IpVersion, SendBatchResult,
    SendControl, SendInputError,
};
use ogtp::runtime::linux::receive::{
    parse_receive_message, resolve_failed_receive, resolve_received_batch,
    timestamp_to_unix_nanos, AncillaryData, LinuxReceiveStep, ReceiveContext, ReceiveFailure,
    ReceiveRecord, ReceivedControl, ReceivedMessage,
};
use ogtp::runtime::linux::transmit::{
    finish_transmit_batch, validate_transmit_shape, LinuxTransmitEvent, LinuxTransmitStep,
    PreparedTransmit, TransmitSubmission,
};
use ogtp::runtime::linux::{
    ecn_from_bits, ecn_to_bits, LinuxReceiveBatchOutcome, LinuxTransmitBatchOutcome,
    LinuxTransmitRejection, LinuxUdpConfig, LinuxUdpError, LinuxUdpFeature, LinuxUdpProfile,
    MAX_LINUX_GSO_SEGMENTS,
};
use ogtp::runtime::socket::{
    ScopedEndpoint, SocketReceiveMetadata, SocketTransmitMetadata, UdpCapability,
};
use ogtp::runtime::{IpAddress, NonZeroU16, ReceiveQueue, TransmitQueue};

#[test]
fn feature_set_is_explicit_and_compact() {
    let config = LinuxUdpConfig::empty()
        .with(LinuxUdpFeature::PacketInfo)
        .with(LinuxUdpFeature::UdpGro);
    assert!(config.contains(LinuxUdpFeature::PacketInfo));
    assert!(config.contains(LinuxUdpFeature::UdpGro));
    assert!(!config.contains(LinuxUdpFeature::Ecn));
}

#[test]
fn ecn_and_timestamp_conversion_are_fail_closed() {
    assert_eq!(ecn_from_bits(0xfc), EcnCodepoint::NotEct);
    assert_eq!(ecn_from_bits(0xfd), EcnCodepoint::Ect1);
    assert_eq!(ecn_from_bits(0xfe), EcnCodepoint::Ect0);
    assert_eq!(ecn_from_bits(0xff), EcnCodepoint::Ce);
    assert_eq!(
        timestamp_to_unix_nanos(7, 23),
        Some(7_000_000_023)
    );
    assert_eq!(timestamp_to_unix_nanos(-1, 0), None);
    assert_eq!(
        timestamp_to_unix_nanos(0, 1_000_000_000),
        None
    );
}

#[test]
fn gso_validation_enforces_datagram_and_aggregate_limits() {
    assert_eq!(
        validate_transmit_shape(1_201, None, 1_200),
        Err(LinuxTransmitRejection::DatagramTooLarge {
            length: 1_201,
            maximum: 1_200,
        })
    );
    assert_eq!(
        validate_transmit_shape(1_000, NonZeroU16::new(1_001), 1_200),
        Err(LinuxTransmitRejection::InvalidGsoSegment {
            size: 1_001,
            length: 1_000,
        })
    );
    assert_eq!(
        validate_transmit_shape(65, NonZeroU16::new(1), 1_200),
        Err(LinuxTransmitRejection::TooManyGsoSegments {
            segments: 65,
            maximum: MAX_LINUX_GSO_SEGMENTS,
        })
    );
}

#[test]
fn input_validation_rejects_cross_family_and_invalid_fields() {
    assert!(
        validate_control(SendControl {
            family: IpVersion::V4,
            source: Some(IpAddress::V6([0, 0, 0, 0, 0, 0, 0, 0, 0, 0, 0, 0, 0, 0, 0, 1])),
            interface_index: None,
            ecn: None,
            gso_segment_size: None,
        })
        .is_err()
    );
    assert!(
        validate_control(SendControl {
            family: IpVersion::V4,
            source: None,
            interface_index: None,
            ecn: Some(4),
            gso_segment_size: None,
        })
        .is_err()
    );
    assert!(
        validate_control(SendControl {
            family: IpVersion::V4,
            source: None,
            interface_index: None,
            ecn: None,
            gso_segment_size: Some(0),
        })
        .is_err()
    );
}

fn endpoint(last: u8, port: u16) -> ScopedEndpoint {
    ScopedEndpoint {
        address: IpAddress::V4([127, 0, 0, last]),
        port,
        scope_id: 0,
    }
}

fn profile(config: LinuxUdpConfig) -> LinuxUdpProfile {
    LinuxUdpProfile::new::<()>(9, endpoint(1, 44_000), true, 1_200, config).expect("valid profile")
}

fn context() -> ReceiveContext {
    ReceiveContext {
        socket_id: 9,
        local_endpoint: endpoint(1, 44_000),
        exact_local_endpoint: true,
        maximum_datagram_size: 1_200,
        buffer_size: 1_300,
        now_micros: 77,
    }
}

fn message(bytes: usize, controls: Vec<ReceivedControl>) -> ReceivedMessage {
    ReceivedMessage {
        bytes,
        truncated: false,
        source: Some(endpoint(2, 44_001)),
        controls: Some(controls),
    }
}

fn transmit_metadata() -> SocketTransmitMetadata {
    SocketTransmitMetadata {
        source: None,
        destination: endpoint(2, 44_001),
        socket_id: 9,
        interface_index: None,
        ecn: EcnCodepoint::NotEct,
        send_not_before_micros: 0,
        gso_segment_size: None,
    }
}

type Outgoing = TransmitQueue<3, 64, SocketTransmitMetadata>;
type Incoming = ReceiveQueue<3, 1_300, SocketReceiveMetadata>;

fn enqueue(queue: &mut Outgoing, payload: &[u8], metadata: SocketTransmitMetadata) {
    let reservation = queue.reserve().expect("reserve");
    queue.buffer_mut(&reservation).expect("buffer")[..payload.len()].copy_from_slice(payload);
    queue
        .commit(reservation, payload.len(), metadata)
        .expect("commit");
}

#[test]
fn codepoints_survive_their_two_bits() {
    for ecn in [
        EcnCodepoint::NotEct,
        EcnCodepoint::Ect1,
        EcnCodepoint::Ect0,
        EcnCodepoint::Ce,
    ] {
        assert_eq!(ecn_from_bits(ecn_to_bits(ecn)), ecn);
    }
    assert_eq!(timestamp_to_unix_nanos(i64::MAX, 0), None);
    assert_eq!(timestamp_to_unix_nanos(0, -1), None);
}

#[test]
fn control_messages_follow_family_source_ecn_and_segment() {
    let control = SendControl {
        family: IpVersion::V4,
        source: Some(IpAddress::V4([127, 0, 0, 1])),
        interface_index: Some(3),
        ecn: Some(2),
        gso_segment_size: Some(500),
    };
    let values = control_values(control).expect("valid control");
    assert_eq!(
        values,
        vec![
            ControlValue::Ipv4PacketInfo {
                source: [127, 0, 0, 1],
                interface_index: 3,
            },
            ControlValue::Ipv4Tos(2),
            ControlValue::UdpSegment(500),
        ]
    );
    let ipv6 = SendControl {
        family: IpVersion::V6,
        source: None,
        interface_index: Some(4),
        ecn: Some(1),
        gso_segment_size: None,
    };
    assert_eq!(
        control_values(ipv6).expect("valid control"),
        vec![
            ControlValue::Ipv6PacketInfo {
                source: [0; 16],
                interface_index: 4,
            },
            ControlValue::Ipv6TrafficClass(1),
        ]
    );
    assert_eq!(
        control_values(SendControl {
            interface_index: Some(u32::MAX),
            ..control
        })
        .err(),
        Some(SendInputError::InterfaceIndexTooLarge)
    );
    let plain = SendControl {
        source: None,
        interface_index: None,
        ecn: None,
        gso_segment_size: None,
        ..control
    };
    assert_eq!(control_values(plain).expect("valid control"), vec![]);
    assert_eq!(
        prepare_send(&[4, 0], &[endpoint(2, 1), endpoint(2, 1)], plain).err(),
        Some(SendInputError::EmptyPayload)
    );
    let mut other_family = endpoint(2, 1);
    other_family.address = IpAddress::V6([0; 16]);
    assert_eq!(
        prepare_send(&[4], &[other_family], plain).err(),
        Some(SendInputError::DestinationFamilyMismatch)
    );
}

#[test]
fn batch_results_keep_the_lengths_of_sent_messages_only() {
    let result = SendBatchResult::<3>::from_kernel(2, &[5, 6, 7]).expect("plausible count");
    assert_eq!(result.sent(), 2);
    assert_eq!(result.lengths()[..2], [5, 6]);
    assert!(SendBatchResult::<3>::from_kernel(4, &[5, 6, 7]).is_none());
}

#[test]
fn ancillary_data_reaches_the_metadata() {
    let controls = vec![
        ReceivedControl::Ipv4PacketInfo {
            address: [127, 0, 0, 7],
            interface_index: 5,
        },
        ReceivedControl::Ipv4Tos(0xfe),
        ReceivedControl::Timestamp {
            seconds: 1,
            nanoseconds: 2,
        },
        ReceivedControl::DropCount(3),
        ReceivedControl::GroSegmentSize(600),
        ReceivedControl::Other,
    ];
    let ReceiveRecord::Accepted { length, metadata } =
        parse_receive_message(&message(1_250, controls), context())
    else {
        panic!("the datagram is accepted");
    };
    assert_eq!(length, 1_250);
    assert!(metadata.source == endpoint(2, 44_001));
    assert!(metadata.destination == Some(endpoint(7, 44_000)));
    assert_eq!(metadata.interface_index, Some(5));
    assert_eq!(metadata.ecn, Some(EcnCodepoint::Ect0));
    assert_eq!(metadata.kernel_timestamp_unix_nanos, Some(1_000_000_002));
    assert_eq!(metadata.socket_drop_count, Some(3));
    assert_eq!(
        metadata.gro_segment_size.map(NonZeroU16::get),
        Some(600)
    );
    assert_eq!(metadata.received_at_micros, 77);
    let ReceiveRecord::Accepted { metadata, .. } =
        parse_receive_message(&message(4, vec![]), context())
    else {
        panic!("the datagram is accepted");
    };
    assert!(metadata.destination == Some(endpoint(1, 44_000)));
}

#[test]
fn contradictory_truncated_and_anonymous_datagrams_are_dropped() {
    let contradictory = message(
        4,
        vec![ReceivedControl::Ipv4Tos(1), ReceivedControl::Ipv4Tos(2)],
    );
    let agreeing = message(
        4,
        vec![ReceivedControl::Ipv4Tos(1), ReceivedControl::Ipv4Tos(0xfd)],
    );
    assert!(matches!(
        parse_receive_message(&contradictory, context()),
        ReceiveRecord::Dropped
    ));
    assert!(matches!(
        parse_receive_message(&agreeing, context()),
        ReceiveRecord::Accepted { length: 4, .. }
    ));
    let mut truncated = message(4, vec![]);
    truncated.truncated = true;
    let mut anonymous = message(4, vec![]);
    anonymous.source = None;
    let mut unreadable = message(4, vec![]);
    unreadable.controls = None;
    for dropped in [
        truncated,
        anonymous,
        unreadable,
        message(0, vec![]),
        message(1_201, vec![]),
        message(1_301, vec![]),
        message(4, vec![ReceivedControl::GroSegmentSize(-1)]),
        message(
            4,
            vec![ReceivedControl::Timestamp {
                seconds: -1,
                nanoseconds: 0,
            }],
        ),
    ] {
        assert!(matches!(
            parse_receive_message(&dropped, context()),
            ReceiveRecord::Dropped
        ));
    }
    let mut data = AncillaryData::default();
    data.apply_control_message(&ReceivedControl::DropCount(1), 1);
    data.apply_control_message(&ReceivedControl::DropCount(2), 1);
    assert!(data.conflict);
    data.apply_control_message(&ReceivedControl::DropCount(1), 1);
    assert!(data.conflict);
    assert_eq!(data.socket_drop_count, Some(1));
}

#[test]
fn received_batches_settle_every_reservation() {
    let profile = profile(LinuxUdpConfig::empty());
    let mut queue = Incoming::unused();
    assert!(matches!(
        profile.begin_receive_batch::<3, 1_300, ()>(&mut queue, 4),
        Ok(LinuxReceiveStep::Done(LinuxReceiveBatchOutcome::PoolExhausted))
    ));
    assert_eq!(queue.stats().free, 3);
    let Ok(LinuxReceiveStep::Receive { reservations }) =
        profile.begin_receive_batch::<3, 1_300, ()>(&mut queue, 3)
    else {
        panic!("buffers are free");
    };
    assert_eq!(reservations.len(), 3);
    queue.buffer_mut(&reservations[0]).expect("buffer")[..5].copy_from_slice(b"first");
    let records = [
        parse_receive_message(&message(5, vec![]), context()),
        ReceiveRecord::Dropped,
        ReceiveRecord::Unused,
    ];
    let outcome = resolve_received_batch::<3, 1_300, ()>(&mut queue, reservations, &records);
    assert!(matches!(
        outcome,
        Ok(LinuxReceiveBatchOutcome::Received {
            committed_datagrams: 1,
            committed_bytes: 5,
            dropped_datagrams: 1,
        })
    ));
    assert_eq!(queue.stats().free, 2);
    assert_eq!(queue.stats().ready, 1);
    let datagram = queue.pop().expect("completion");
    assert_eq!(queue.view(&datagram).expect("view").payload(), b"first");
    queue.release(datagram).expect("release");
    let Ok(LinuxReceiveStep::Receive { reservations }) =
        profile.begin_receive_batch::<3, 1_300, &str>(&mut queue, 2)
    else {
        panic!("buffers are free");
    };
    assert_eq!(reservations.len(), 2);
    assert!(matches!(
        resolve_failed_receive(&mut queue, reservations, ReceiveFailure::Failed("down")),
        Err(LinuxUdpError::Io("down"))
    ));
    assert_eq!(queue.stats().free, 3);
    assert!(matches!(
        profile.begin_receive_batch::<3, 1_300, ()>(&mut queue, 0),
        Ok(LinuxReceiveStep::Done(LinuxReceiveBatchOutcome::Idle))
    ));
}

#[test]
fn complete_batches_are_sent_in_order_and_partial_ones_requeued() {
    let profile = profile(LinuxUdpConfig::empty());
    let mut queue = Outgoing::unused();
    enqueue(&mut queue, b"one", transmit_metadata());
    assert!(matches!(
        profile.begin_transmit_batch::<3, 64, ()>(&mut queue, 2, 10),
        Ok(LinuxTransmitStep::Done(
            LinuxTransmitBatchOutcome::IncompleteBatch { ready_datagrams: 1 }
        ))
    ));
    assert_eq!(queue.stats().ready, 1);
    enqueue(&mut queue, b"second", transmit_metadata());
    let Ok(LinuxTransmitStep::Submit { datagrams, batch }) =
        profile.begin_transmit_batch::<3, 64, ()>(&mut queue, 2, 10)
    else {
        panic!("a complete batch is ready");
    };
    assert_eq!(batch.expected_lengths, vec![3, 6]);
    assert!(batch.destinations[0] == endpoint(2, 44_001));
    assert_eq!(
        queue.view(&datagrams[1]).expect("view").payload(),
        b"second"
    );
    let outcome = finish_transmit_batch::<3, 64, ()>(
        &mut queue,
        datagrams,
        &[3, 6],
        LinuxTransmitEvent::Sent {
            sent: 1,
            lengths: &[3, 0],
        },
    );
    assert!(matches!(
        outcome,
        Ok(LinuxTransmitBatchOutcome::Sent {
            sent_datagrams: 1,
            sent_bytes: 3,
            requeued_datagrams: 1,
        })
    ));
    assert_eq!(queue.stats().free, 2);
    assert_eq!(queue.stats().ready, 1);
}

#[test]
fn kernel_answers_to_a_batch_are_checked() {
    let profile = profile(LinuxUdpConfig::empty());
    for (event, name) in [
        (
            LinuxTransmitEvent::Sent {
                sent: 0,
                lengths: &[0],
            },
            "empty",
        ),
        (
            LinuxTransmitEvent::Sent {
                sent: 1,
                lengths: &[2],
            },
            "partial",
        ),
        (LinuxTransmitEvent::Failed("down"), "io"),
    ] {
        let mut queue = Outgoing::unused();
        enqueue(&mut queue, b"one", transmit_metadata());
        let Ok(LinuxTransmitStep::Submit { datagrams, batch }) =
            profile.begin_transmit_batch::<3, 64, &str>(&mut queue, 1, 10)
        else {
            panic!("a complete batch is ready");
        };
        let outcome =
            finish_transmit_batch(&mut queue, datagrams, &batch.expected_lengths, event);
        match outcome {
            Err(LinuxUdpError::EmptyPrefix) => assert_eq!(name, "empty"),
            Err(LinuxUdpError::PartialDatagram) => assert_eq!(name, "partial"),
            Err(LinuxUdpError::Io(text)) => {
                assert_eq!(name, "io");
                assert_eq!(text, "down");
            }
            _ => panic!("the answer is an error"),
        }
        let stats = queue.stats();
        assert_eq!(stats.free + stats.ready, 3);
    }
}

#[test]
fn paced_batches_wait_and_unsupported_ones_are_rejected() {
    let profile = profile(LinuxUdpConfig::empty());
    let mut paced = transmit_metadata();
    paced.send_not_before_micros = 50;
    let items = [
        TransmitSubmission {
            metadata: transmit_metadata(),
            length: 4,
        },
        TransmitSubmission {
            metadata: paced,
            length: 4,
        },
    ];
    assert!(matches!(
        profile.prepare_transmit_batch(&items, 49),
        Ok(PreparedTransmit::NotReady {
            send_not_before_micros: 50,
        })
    ));
    assert!(matches!(
        profile.prepare_transmit_batch(&items, 50),
        Ok(PreparedTransmit::Ready(_))
    ));
    let base = transmit_metadata();
    for (changed, expected) in [
        (
            SocketTransmitMetadata {
                socket_id: 8,
                ..base
            },
            LinuxTransmitRejection::WrongSocket {
                expected: 9,
                actual: 8,
            },
        ),
        (
            SocketTransmitMetadata {
                ecn: EcnCodepoint::Ect0,
                ..base
            },
            LinuxTransmitRejection::EcnUnavailable,
        ),
        (
            SocketTransmitMetadata {
                destination: endpoint(2, 0),
                ..base
            },
            LinuxTransmitRejection::ZeroDestinationPort,
        ),
        (
            SocketTransmitMetadata {
                interface_index: Some(2),
                ..base
            },
            LinuxTransmitRejection::InterfaceSelectionUnavailable,
        ),
        (
            SocketTransmitMetadata {
                gso_segment_size: NonZeroU16::new(2),
                ..base
            },
            LinuxTransmitRejection::GsoUnavailable,
        ),
        (
            SocketTransmitMetadata {
                destination: ScopedEndpoint {
                    scope_id: 4,
                    ..endpoint(2, 44_001)
                },
                ..base
            },
            LinuxTransmitRejection::InvalidIpv4Scope,
        ),
    ] {
        let item = TransmitSubmission {
            metadata: changed,
            length: 4,
        };
        assert_eq!(
            profile.prepare_transmit_batch(&[item], 50).err(),
            Some(expected)
        );
    }
    assert_eq!(
        profile
            .prepare_transmit_batch(
                &[
                    TransmitSubmission {
                        metadata: base,
                        length: 4,
                    },
                    TransmitSubmission {
                        metadata: SocketTransmitMetadata {
                            ecn: EcnCodepoint::Ect0,
                            ..base
                        },
                        length: 4,
                    },
                ],
                50
            )
            .err(),
        Some(LinuxTransmitRejection::HeterogeneousBatch)
    );
}

#[test]
fn packet_information_allows_source_and_interface_selection() {
    let profile = profile(LinuxUdpConfig::empty().with(LinuxUdpFeature::PacketInfo));
    assert!(profile
        .capabilities
        .contains(UdpCapability::SourceSelection));
    let mut selecting = transmit_metadata();
    selecting.source = Some(endpoint(1, 44_000));
    selecting.interface_index = Some(2);
    assert_eq!(
        profile.prepare_source_control(selecting, IpVersion::V4),
        Ok((None, Some(2)))
    );
    selecting.source = Some(endpoint(5, 44_000));
    assert_eq!(
        profile.prepare_source_control(selecting, IpVersion::V4),
        Ok((Some(IpAddress::V4([127, 0, 0, 5])), Some(2)))
    );
    assert_eq!(
        profile.prepare_source_control(selecting, IpVersion::V6),
        Err(LinuxTransmitRejection::AddressFamilyMismatch)
    );
    selecting.source = Some(endpoint(1, 44_001));
    assert_eq!(
        profile.prepare_source_control(selecting, IpVersion::V4),
        Err(LinuxTransmitRejection::SourcePortMismatch {
            expected: 44_000,
            actual: 44_001,
        })
    );
}

#[test]
fn linux_failures_have_texts() {
    let failure: LinuxUdpError<()> = LinuxUdpError::Io(());
    assert!(failure.message("unreachable").ends_with("unreachable"));
    assert!(matches!(
        LinuxUdpProfile::new::<()>(9, endpoint(1, 1), true, 0, LinuxUdpConfig::empty()),
        Err(LinuxUdpError::InvalidMaximumDatagramSize { size: 0 })
    ));
    assert_eq!(
        SendInputError::EcnExceedsTwoBits.message(),
        "ECN value exceeds two bits"
    );
    assert!(LinuxUdpConfig::empty()
        .with(LinuxUdpFeature::UdpGso)
        .debug_text()
        .contains("UdpGso"));
}
