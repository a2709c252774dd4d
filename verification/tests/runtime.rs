use ogtp::ecn::EcnCodepoint;
use ogtp::runtime::{
    IpAddress, NonZeroU16, ReceiveMetadata, ReceiveQueue, RuntimeQueueError,
    RuntimeTimerError, RuntimeTimerEvent, RuntimeTimerKind, RuntimeTimerQueue, TimerOwner,
    TransmitMetadata, TransmitQueue, UdpEndpoint,
};

fn endpoint(last: u8, port: u16) -> UdpEndpoint {
    UdpEndpoint {
        address: IpAddress::V4([192, 0, 2, last]),
        port,
    }
}

fn receive_metadata(segment_size: Option<u16>) -> ReceiveMetadata {
    ReceiveMetadata {
        source: endpoint(1, 44_000),
        destination: endpoint(2, 44_001),
        socket_id: 3,
        interface_index: 4,
        ecn: EcnCodepoint::Ect0,
        received_at_micros: 5,
        gro_segment_size: segment_size.and_then(NonZeroU16::new),
    }
}

fn transmit_metadata(segment_size: Option<u16>) -> TransmitMetadata {
    TransmitMetadata {
        source: endpoint(2, 44_001),
        destination: endpoint(1, 44_000),
        socket_id: 3,
        interface_index: 4,
        ecn: EcnCodepoint::Ect0,
        send_not_before_micros: 6,
        gso_segment_size: segment_size.and_then(NonZeroU16::new),
    }
}

#[test]
fn receive_pool_is_bounded_ordered_segmented_and_cleared() {
    let mut queue = ReceiveQueue::<2, 16>::new();
    let first = queue.reserve().expect("first reservation");
    let second = queue.reserve().expect("second reservation");
    assert!(matches!(
        queue.reserve(),
        Err(RuntimeQueueError::PoolExhausted)
    ));
    queue.buffer_mut(&first).expect("first buffer")[..10].copy_from_slice(b"abcdefghij");
    queue.buffer_mut(&second).expect("second buffer")[..4].copy_from_slice(b"WXYZ");
    queue
        .commit(first, 10, receive_metadata(Some(4)))
        .expect("first commit");
    queue
        .commit(second, 4, receive_metadata(None))
        .expect("second commit");

    let first = queue.pop().expect("first completion");
    let view = queue.view(&first).expect("first view");
    assert_eq!(
        view.segments().to_vec(),
        vec![&b"abcd"[..], &b"efgh"[..], &b"ij"[..]]
    );
    queue.release(first).expect("first release");

    let reused = queue.reserve().expect("released slot is reusable");
    assert!(
        queue
            .buffer_mut(&reused)
            .expect("reused buffer")
            .iter()
            .all(|byte| *byte == 0)
    );
    queue.cancel(reused).expect("cancel reused buffer");

    let second = queue.pop().expect("second completion");
    assert_eq!(queue.view(&second).expect("second view").payload(), b"WXYZ");
    queue.release(second).expect("second release");
    assert_eq!(queue.stats().free, 2);
}

#[test]
fn invalid_receive_shape_releases_the_reservation() {
    let mut queue = ReceiveQueue::<1, 8>::new();
    let empty = queue.reserve().expect("reservation");
    assert_eq!(
        queue.commit(empty, 0, receive_metadata(None)),
        Err(RuntimeQueueError::EmptyDatagram)
    );
    let invalid_gro = queue.reserve().expect("slot released after error");
    assert_eq!(
        queue.commit(invalid_gro, 4, receive_metadata(Some(5))),
        Err(RuntimeQueueError::InvalidSegmentSize {
            segment_size: 5,
            length: 4,
        })
    );
    assert_eq!(queue.stats().free, 1);
}

#[test]
fn transmit_backpressure_and_kernel_completion_preserve_ownership() {
    let mut queue = TransmitQueue::<1, 16>::new();
    let reservation = queue.reserve().expect("reservation");
    queue.buffer_mut(&reservation).expect("buffer")[..8].copy_from_slice(b"payload!");
    queue
        .commit(reservation, 8, transmit_metadata(Some(4)))
        .expect("commit");
    let submission = queue.pop().expect("submission");
    assert_eq!(
        queue.view(&submission).expect("view").payload(),
        b"payload!"
    );
    queue.requeue(submission).expect("EAGAIN requeue");
    let submission = queue.pop().expect("retried submission");
    let tag = queue
        .defer_completion(submission)
        .expect("kernel takes ownership");
    assert_eq!(queue.stats().kernel_owned, 1);
    assert!(matches!(
        queue.reserve(),
        Err(RuntimeQueueError::PoolExhausted)
    ));
    queue
        .complete_deferred(tag)
        .expect("matching kernel completion");
    assert_eq!(
        queue.complete_deferred(tag),
        Err(RuntimeQueueError::InvalidOwnership)
    );
    let reused = queue.reserve().expect("completion releases slot");
    assert!(
        queue
            .buffer_mut(&reused)
            .expect("cleared buffer")
            .iter()
            .all(|byte| *byte == 0)
    );
    queue.cancel(reused).expect("cancel");
}

#[test]
fn transmit_validation_and_synchronous_completion_release_the_slot() {
    let mut queue = TransmitQueue::<1, 8>::new();
    let invalid = queue.reserve().expect("invalid reservation");
    queue.buffer_mut(&invalid).expect("invalid buffer")[..4].copy_from_slice(b"test");
    assert_eq!(
        queue.commit(invalid, 4, transmit_metadata(Some(5))),
        Err(RuntimeQueueError::InvalidSegmentSize {
            segment_size: 5,
            length: 4,
        })
    );

    let valid = queue.reserve().expect("slot released after error");
    queue.buffer_mut(&valid).expect("valid buffer")[..4].copy_from_slice(b"safe");
    queue
        .commit(valid, 4, transmit_metadata(None))
        .expect("valid commit");
    let submission = queue.pop().expect("submission");
    assert_eq!(queue.view(&submission).expect("view").payload(), b"safe");
    queue.complete(submission).expect("synchronous completion");

    let reused = queue.reserve().expect("completed slot is reusable");
    assert!(
        queue
            .buffer_mut(&reused)
            .expect("cleared buffer")
            .iter()
            .all(|byte| *byte == 0)
    );
    queue.cancel(reused).expect("cancel");
}

#[test]
fn timer_queue_is_stable_cancellable_bounded_and_monotonic() {
    let mut timers = RuntimeTimerQueue::<3>::new();
    let late = timers
        .arm(TimerOwner(1), RuntimeTimerKind::IdleTimeout, 30)
        .expect("late timer");
    let first_equal = timers
        .arm(TimerOwner(2), RuntimeTimerKind::Ack, 20)
        .expect("first equal timer");
    let _second_equal = timers
        .arm(TimerOwner(3), RuntimeTimerKind::Pacing, 20)
        .expect("second equal timer");
    assert_eq!(
        timers
            .arm(TimerOwner(4), RuntimeTimerKind::TransferControl, 40)
            .err(),
        Some(RuntimeTimerError::CapacityExhausted)
    );
    assert!(timers.cancel(late));
    assert!(!timers.cancel(late));
    assert_eq!(timers.next_deadline_micros(), Some(20));
    assert_eq!(timers.pop_expired(19).expect("monotonic poll"), None);
    assert_eq!(
        timers.pop_expired(20).expect("first expiry"),
        Some(RuntimeTimerEvent {
            owner: TimerOwner(2),
            kind: RuntimeTimerKind::Ack,
            deadline_micros: 20,
        })
    );
    assert!(!timers.cancel(first_equal));
    assert_eq!(
        timers.pop_expired(20).expect("stable equal expiry"),
        Some(RuntimeTimerEvent {
            owner: TimerOwner(3),
            kind: RuntimeTimerKind::Pacing,
            deadline_micros: 20,
        })
    );
    assert_eq!(
        timers.pop_expired(19),
        Err(RuntimeTimerError::ClockWentBackwards {
            previous: 20,
            current: 19,
        })
    );
    assert!(timers.is_empty());
}

#[test]
fn stale_timer_token_cannot_cancel_a_reused_slot() {
    let mut timers = RuntimeTimerQueue::<1>::new();
    let stale = timers
        .arm(TimerOwner(1), RuntimeTimerKind::Ack, 10)
        .expect("first timer");
    assert!(timers.cancel(stale));

    let current = timers
        .arm(TimerOwner(2), RuntimeTimerKind::Pacing, 20)
        .expect("replacement timer");
    assert!(!timers.cancel(stale));
    assert!(timers.cancel(current));
    assert!(timers.is_empty());
}

#[test]
fn queue_and_token_debug_output_redacts_network_data() {
    let mut receive = ReceiveQueue::<1, 32>::new();
    let reservation = receive.reserve().expect("reservation");
    receive.buffer_mut(&reservation).expect("buffer")[..6].copy_from_slice(b"secret");
    assert!(!receive.debug_text().contains("secret"));
    assert!(!reservation.debug_text().contains("192"));
    receive.cancel(reservation).expect("cancel");

    let timers = RuntimeTimerQueue::<1>::new();
    assert!(timers.debug_text().contains("<redacted>"));
}

#[test]
fn segments_join_to_the_payload() {
    let mut queue = ReceiveQueue::<1, 16>::new();
    let reservation = queue.reserve().expect("reservation");
    queue.buffer_mut(&reservation).expect("buffer")[..7].copy_from_slice(b"abcdefg");
    queue
        .commit(reservation, 7, receive_metadata(Some(3)))
        .expect("commit");
    let datagram = queue.pop().expect("completion");
    let view = queue.view(&datagram).expect("view");
    let mut segments = view.segments();
    assert_eq!(segments.size_hint(), (3, Some(3)));
    assert_eq!(segments.next(), Some(&b"abc"[..]));
    assert_eq!(segments.size_hint(), (2, Some(2)));
    assert_eq!(segments.to_vec().concat(), b"defg");
    assert_eq!(view.segments().to_vec().concat(), view.payload());
    assert!(view.metadata() == receive_metadata(Some(3)));
    assert!(!view.debug_text().contains("abc"));
}

#[test]
fn oversized_commits_and_foreign_tokens_are_rejected() {
    let mut queue = ReceiveQueue::<1, 4>::new();
    let mut other = ReceiveQueue::<2, 4>::new();
    let reservation = queue.reserve().expect("reservation");
    assert_eq!(
        queue.commit(reservation, 5, receive_metadata(None)),
        Err(RuntimeQueueError::DatagramTooLarge {
            length: 5,
            capacity: 4,
        })
    );
    assert_eq!(queue.stats().free, 1);
    let _first = other.reserve().expect("reservation");
    let second = other.reserve().expect("reservation");
    assert_eq!(
        queue.buffer_mut(&second).err(),
        Some(RuntimeQueueError::InvalidOwnership)
    );
    assert_eq!(
        queue.cancel(second),
        Err(RuntimeQueueError::InvalidOwnership)
    );
    assert_eq!(
        RuntimeQueueError::PoolExhausted.message(),
        "fixed datagram pool exhausted"
    );
}

#[test]
fn every_buffer_is_counted_once() {
    let mut queue = TransmitQueue::<4, 8>::new();
    let first = queue.reserve().expect("first");
    let second = queue.reserve().expect("second");
    let _third = queue.reserve().expect("third");
    queue
        .commit(first, 1, transmit_metadata(None))
        .expect("commit");
    queue
        .commit(second, 1, transmit_metadata(None))
        .expect("commit");
    let datagram = queue.pop().expect("first in order");
    let _tag = queue.defer_completion(datagram).expect("deferred");
    let stats = queue.stats();
    assert_eq!(
        (
            stats.capacity,
            stats.free,
            stats.ready,
            stats.reserved_or_delivered,
            stats.kernel_owned
        ),
        (4, 1, 1, 1, 1)
    );
    let datagram = queue.pop().expect("second in order");
    queue.discard(datagram).expect("discarded");
    assert_eq!(queue.stats().free, 2);
    assert!(queue.pop().is_none());
}

#[test]
fn unwritten_reservations_return_to_the_pool() {
    let mut queue = ReceiveQueue::<1, 8>::default();
    let reservation = queue.reserve().expect("reservation");
    queue
        .release_unwritten_receive_reservation(reservation)
        .expect("returned");
    assert_eq!(queue.stats().free, 1);
}

#[test]
fn timers_fire_by_deadline_and_then_by_insertion() {
    let mut timers = RuntimeTimerQueue::<8>::new();
    for (owner, deadline) in [(0, 50), (1, 10), (2, 30), (3, 10), (4, 20), (5, 40), (6, 10)] {
        timers
            .arm(TimerOwner(owner), RuntimeTimerKind::Application(7), deadline)
            .expect("timer fits");
    }
    assert_eq!(timers.len(), 7);
    let mut order = Vec::new();
    while let Some(event) = timers.pop_expired(100).expect("monotonic poll") {
        order.push(event.owner.0);
    }
    assert_eq!(order, vec![1, 3, 6, 4, 2, 5, 0]);
    assert!(timers.is_empty());
    assert_eq!(timers.next_deadline_micros(), None);
}

#[test]
fn cancelling_inside_the_heap_keeps_the_order() {
    let mut timers = RuntimeTimerQueue::<16>::new();
    let mut tokens = Vec::new();
    for owner in 0..16_u64 {
        let deadline = (owner * 7) % 16;
        tokens.push(
            timers
                .arm(TimerOwner(deadline), RuntimeTimerKind::LossDetection, deadline)
                .expect("timer fits"),
        );
    }
    for index in [1, 4, 9, 15] {
        assert!(timers.cancel(tokens[index]));
    }
    let mut fired = Vec::new();
    while let Some(event) = timers.pop_expired(16).expect("monotonic poll") {
        fired.push(event.owner.0);
    }
    assert_eq!(fired, vec![0, 1, 2, 3, 4, 5, 6, 8, 10, 11, 13, 14]);
    assert_eq!(
        RuntimeTimerError::ClockWentBackwards {
            previous: 2,
            current: 1,
        }
        .message(),
        "monotonic clock moved backwards from 2 to 1 microseconds"
    );
}

#[test]
fn timer_tokens_of_another_queue_cancel_nothing() {
    let mut left = RuntimeTimerQueue::<1>::new();
    let mut right = RuntimeTimerQueue::<1>::new();
    let foreign = left
        .arm(TimerOwner(1), RuntimeTimerKind::Ack, 10)
        .expect("timer");
    let own = right
        .arm(TimerOwner(2), RuntimeTimerKind::Pacing, 20)
        .expect("timer");
    assert!(!right.cancel(foreign));
    assert_eq!(right.len(), 1);
    assert_eq!(right.next_deadline_micros(), Some(20));
    assert!(right.cancel(own));
    assert!(left.cancel(foreign));
}

#[test]
fn completion_tags_of_another_queue_complete_nothing() {
    let mut left = TransmitQueue::<1, 8>::new();
    let mut right = TransmitQueue::<1, 8>::new();
    let mut tags = Vec::new();
    for queue in [&mut left, &mut right] {
        let reservation = queue.reserve().expect("reservation");
        queue
            .commit(reservation, 4, transmit_metadata(None))
            .expect("commit");
        let submission = queue.pop().expect("submission");
        tags.push(queue.defer_completion(submission).expect("deferred"));
    }
    assert_eq!(
        right.complete_deferred(tags[0]),
        Err(RuntimeQueueError::InvalidOwnership)
    );
    assert_eq!(right.stats().kernel_owned, 1);
    assert_eq!(right.complete_deferred(tags[1]), Ok(()));
    assert_eq!(left.complete_deferred(tags[0]), Ok(()));
}

#[test]
fn a_batch_of_buffers_is_lent_out_in_the_order_of_its_reservations() {
    let mut queue = ReceiveQueue::<3, 4>::new();
    let mut reservations = vec![
        queue.reserve().expect("reservation"),
        queue.reserve().expect("reservation"),
        queue.reserve().expect("reservation"),
    ];
    reservations.swap(0, 2);
    let middle = reservations.remove(1);
    for (position, buffer) in queue
        .batch_buffers_mut(&reservations)
        .expect("owned reservations")
        .into_iter()
        .enumerate()
    {
        assert_eq!(buffer, &[0; 4]);
        buffer.fill(position as u8 + 7);
    }
    assert_eq!(queue.buffer_mut(&reservations[0]).expect("buffer"), &[7; 4]);
    assert_eq!(queue.buffer_mut(&reservations[1]).expect("buffer"), &[8; 4]);
    assert_eq!(queue.buffer_mut(&middle).expect("buffer"), &[0; 4]);
    let mut other = ReceiveQueue::<3, 4>::new();
    assert_eq!(
        other.batch_buffers_mut(&reservations).err(),
        Some(RuntimeQueueError::InvalidOwnership)
    );
    for reservation in reservations {
        queue.cancel(reservation).expect("cancel");
    }
    queue.cancel(middle).expect("cancel");
    assert_eq!(queue.stats().free, 3);
}
