use ogtp::ecn::EcnCodepoint;
use ogtp::runtime::portable::{
    finish_transmit, validate_endpoint, PortableReceiveEvent, PortableReceiveOutcome,
    PortableReceiveStep, PortableTransmitEvent, PortableTransmitOutcome,
    PortableTransmitRejection, PortableTransmitStep, PortableUdpCapability, PortableUdpError,
    PortableUdpProfile, MAX_PORTABLE_DATAGRAM_SIZE,
};
use ogtp::runtime::socket::{ScopedEndpoint, SocketReceiveMetadata, SocketTransmitMetadata};
use ogtp::runtime::{IpAddress, NonZeroU16, ReceiveQueue, RuntimeQueueError, TransmitQueue};

type Incoming<const SLOTS: usize, const SIZE: usize> =
    ReceiveQueue<SLOTS, SIZE, SocketReceiveMetadata>;
type Outgoing = TransmitQueue<2, 64, SocketTransmitMetadata>;

fn local() -> ScopedEndpoint {
    ScopedEndpoint {
        address: IpAddress::V4([127, 0, 0, 1]),
        port: 44_000,
        scope_id: 0,
    }
}

fn remote() -> ScopedEndpoint {
    ScopedEndpoint {
        address: IpAddress::V4([127, 0, 0, 1]),
        port: 44_001,
        scope_id: 0,
    }
}

fn profile(exact: bool) -> PortableUdpProfile {
    PortableUdpProfile::new::<()>(9, local(), exact, 32).expect("valid profile")
}

fn metadata() -> SocketTransmitMetadata {
    SocketTransmitMetadata {
        source: None,
        destination: remote(),
        socket_id: 9,
        interface_index: None,
        ecn: EcnCodepoint::NotEct,
        send_not_before_micros: 50,
        gso_segment_size: None,
    }
}

fn enqueue(queue: &mut Outgoing, payload: &[u8], metadata: SocketTransmitMetadata) {
    let reservation = queue.reserve().expect("reserve");
    queue.buffer_mut(&reservation).expect("buffer")[..payload.len()].copy_from_slice(payload);
    queue
        .commit(reservation, payload.len(), metadata)
        .expect("commit");
}

#[test]
fn datagram_limits_are_checked_at_construction() {
    for size in [0, MAX_PORTABLE_DATAGRAM_SIZE + 1] {
        assert!(matches!(
            PortableUdpProfile::new::<()>(9, local(), true, size),
            Err(PortableUdpError::InvalidMaximumDatagramSize { size: reported }) if reported == size
        ));
    }
}

#[test]
fn only_an_exact_binding_reports_the_destination() {
    let exact = profile(true).capabilities();
    assert!(exact.contains(PortableUdpCapability::ExactReceiveDestination));
    assert!(!exact.contains(PortableUdpCapability::UdpGso));
    let wildcard = profile(false).capabilities();
    assert!(!wildcard.contains(PortableUdpCapability::ExactReceiveDestination));
    assert!(exact.debug_text().contains("ExactReceiveDestination"));
}

#[test]
fn received_datagrams_are_committed_with_their_metadata() {
    let mut queue = Incoming::<1, 33>::unused();
    let profile = profile(true);
    let step = profile
        .begin_receive::<1, 33, ()>(&mut queue)
        .expect("receive begins");
    let PortableReceiveStep::Receive { reservation, limit } = step else {
        panic!("a buffer is free");
    };
    assert_eq!(limit, 33);
    queue.buffer_mut(&reservation).expect("buffer")[..3].copy_from_slice(b"abc");
    let step = profile
        .finish_receive::<1, 33, ()>(
            &mut queue,
            reservation,
            PortableReceiveEvent::Received {
                length: 3,
                source: remote(),
            },
            77,
        )
        .expect("receive finishes");
    assert!(matches!(
        step,
        PortableReceiveStep::Done(PortableReceiveOutcome::Received { bytes: 3 })
    ));
    assert!(matches!(
        profile.begin_receive::<1, 33, ()>(&mut queue),
        Ok(PortableReceiveStep::Done(PortableReceiveOutcome::PoolExhausted))
    ));
    let datagram = queue.pop().expect("completion");
    let view = queue.view(&datagram).expect("view");
    assert_eq!(view.payload(), b"abc");
    let metadata = view.metadata();
    assert!(metadata.source == remote());
    assert!(metadata.destination == Some(local()));
    assert_eq!(metadata.socket_id, 9);
    assert_eq!(metadata.received_at_micros, 77);
    assert!(metadata.ecn.is_none());
    assert!(metadata.interface_index.is_none());
    assert!(metadata.kernel_timestamp_unix_nanos.is_none());
}

#[test]
fn empty_oversized_and_blocked_receives_return_the_buffer() {
    let profile = profile(false);
    for (event, expected) in [
        (
            PortableReceiveEvent::Received {
                length: 0,
                source: remote(),
            },
            PortableReceiveOutcome::DroppedEmpty,
        ),
        (
            PortableReceiveEvent::Received {
                length: 33,
                source: remote(),
            },
            PortableReceiveOutcome::DroppedOversized {
                configured_limit: 32,
                observed_at_least: 33,
            },
        ),
        (
            PortableReceiveEvent::WouldBlock,
            PortableReceiveOutcome::WouldBlock,
        ),
    ] {
        let mut queue = Incoming::<1, 33>::unused();
        let Ok(PortableReceiveStep::Receive { reservation, .. }) =
            profile.begin_receive::<1, 33, ()>(&mut queue)
        else {
            panic!("a buffer is free");
        };
        let step = profile.finish_receive::<1, 33, ()>(&mut queue, reservation, event, 1);
        let Ok(PortableReceiveStep::Done(outcome)) = step else {
            panic!("the operation ends");
        };
        assert_eq!(outcome, expected);
        assert_eq!(queue.stats().free, 1);
    }
}

#[test]
fn interrupted_receives_are_tried_again_and_failures_are_reported() {
    let profile = profile(false);
    let mut queue = Incoming::<1, 33>::unused();
    let Ok(PortableReceiveStep::Receive { reservation, .. }) =
        profile.begin_receive::<1, 33, &str>(&mut queue)
    else {
        panic!("a buffer is free");
    };
    let Ok(PortableReceiveStep::Receive { reservation, .. }) = profile
        .finish_receive::<1, 33, &str>(
            &mut queue,
            reservation,
            PortableReceiveEvent::Interrupted,
            1,
        )
    else {
        panic!("the operation repeats");
    };
    let failed = profile.finish_receive(
        &mut queue,
        reservation,
        PortableReceiveEvent::Failed("unreachable"),
        1,
    );
    assert!(matches!(failed, Err(PortableUdpError::Io("unreachable"))));
    assert_eq!(queue.stats().free, 1);
}

#[test]
fn receive_buffers_must_hold_one_probe_byte_more_than_the_limit() {
    let mut queue = Incoming::<1, 32>::unused();
    assert!(matches!(
        profile(false).begin_receive::<1, 32, ()>(&mut queue),
        Err(PortableUdpError::ReceiveBufferTooSmall {
            capacity: 32,
            required: 33,
        })
    ));
    assert_eq!(queue.stats().free, 1);
}

#[test]
fn paced_datagrams_wait_for_their_departure() {
    let mut queue = Outgoing::unused();
    let profile = profile(false);
    assert!(matches!(
        profile.begin_transmit::<2, 64, ()>(&mut queue, 1),
        Ok(PortableTransmitStep::Done(PortableTransmitOutcome::Idle))
    ));
    enqueue(&mut queue, b"paced", metadata());
    assert!(matches!(
        profile.begin_transmit::<2, 64, ()>(&mut queue, 49),
        Ok(PortableTransmitStep::Done(PortableTransmitOutcome::NotReady {
            send_not_before_micros: 50,
        }))
    ));
    assert_eq!(queue.stats().ready, 1);
    let Ok(PortableTransmitStep::Send {
        datagram,
        destination,
    }) = profile.begin_transmit::<2, 64, ()>(&mut queue, 50)
    else {
        panic!("the datagram is due");
    };
    assert!(destination == remote());
    assert_eq!(queue.view(&datagram).expect("view").payload(), b"paced");
    let step = finish_transmit::<2, 64, ()>(
        &mut queue,
        datagram,
        destination,
        PortableTransmitEvent::Sent { length: 5 },
    );
    assert!(matches!(
        step,
        Ok(PortableTransmitStep::Done(PortableTransmitOutcome::Sent {
            bytes: 5
        }))
    ));
    assert_eq!(queue.stats().free, 2);
}

#[test]
fn blocked_sends_are_requeued_and_partial_sends_are_errors() {
    let profile = profile(false);
    let mut queue = Outgoing::unused();
    enqueue(&mut queue, b"data", metadata());
    let Ok(PortableTransmitStep::Send {
        datagram,
        destination,
    }) = profile.begin_transmit::<2, 64, ()>(&mut queue, 50)
    else {
        panic!("the datagram is due");
    };
    let step = finish_transmit::<2, 64, ()>(
        &mut queue,
        datagram,
        destination,
        PortableTransmitEvent::WouldBlock,
    );
    assert!(matches!(
        step,
        Ok(PortableTransmitStep::Done(PortableTransmitOutcome::WouldBlock))
    ));
    assert_eq!(queue.stats().ready, 1);
    let Ok(PortableTransmitStep::Send {
        datagram,
        destination,
    }) = profile.begin_transmit::<2, 64, ()>(&mut queue, 50)
    else {
        panic!("the datagram is due");
    };
    let step = finish_transmit::<2, 64, ()>(
        &mut queue,
        datagram,
        destination,
        PortableTransmitEvent::Sent { length: 3 },
    );
    assert!(matches!(step, Err(PortableUdpError::PartialSend)));
    assert_eq!(queue.stats().free, 2);
}

#[test]
fn unsupported_requests_are_named_and_release_the_buffer() {
    let base = metadata();
    for (changed, expected) in [
        (
            SocketTransmitMetadata {
                socket_id: 8,
                ..base
            },
            PortableTransmitRejection::WrongSocket {
                expected: 9,
                actual: 8,
            },
        ),
        (
            SocketTransmitMetadata {
                source: Some(local()),
                ..base
            },
            PortableTransmitRejection::SourceSelectionUnavailable,
        ),
        (
            SocketTransmitMetadata {
                interface_index: Some(1),
                ..base
            },
            PortableTransmitRejection::InterfaceSelectionUnavailable,
        ),
        (
            SocketTransmitMetadata {
                ecn: EcnCodepoint::Ect0,
                ..base
            },
            PortableTransmitRejection::EcnUnavailable,
        ),
        (
            SocketTransmitMetadata {
                gso_segment_size: NonZeroU16::new(2),
                ..base
            },
            PortableTransmitRejection::GsoUnavailable,
        ),
    ] {
        let mut queue = Outgoing::unused();
        enqueue(&mut queue, b"data", changed);
        let step = profile(false).begin_transmit::<2, 64, ()>(&mut queue, 50);
        assert!(
            matches!(step, Err(PortableUdpError::UnsupportedTransmit(rejection)) if rejection == expected)
        );
        assert_eq!(queue.stats().free, 2);
    }
}

#[test]
fn scoped_ipv4_endpoints_are_rejected() {
    let mut scoped = remote();
    scoped.scope_id = 3;
    assert_eq!(
        validate_endpoint(scoped),
        Err(PortableTransmitRejection::InvalidIpv4Scope)
    );
    scoped.address = IpAddress::V6([0; 16]);
    assert_eq!(validate_endpoint(scoped), Ok(()));
    let failure: PortableUdpError<()> = PortableUdpError::Queue(RuntimeQueueError::PoolExhausted);
    assert_eq!(
        failure.message(""),
        "UDP queue failure: fixed datagram pool exhausted"
    );
    let failure: PortableUdpError<()> = PortableUdpError::Io(());
    assert_eq!(
        failure.message("unreachable"),
        "UDP socket failure: unreachable"
    );
}
