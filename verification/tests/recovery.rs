use ogtp::recovery::{
    AckSummary, CongestionOutcome, LossReason, MAX_PTO_BACKOFF_EXPONENT, PathCandidate,
    PersistentCongestionTracker, ProbeAction, ProbeTimeoutState, RecoveryConfig,
    RecoveryError, RecoveryEvent, RecoveryTimer, RecoveryToken, ReinjectionDecision,
    RttEstimator, SentPacket, SentPacketTable, TIMER_GRANULARITY_MICROS,
    select_reinjection_path,
};
use ogtp::wire::ack::{AckFrame, AckRange};

fn sent(packet_number: u64, sent_at_micros: u64) -> SentPacket {
    SentPacket {
        packet_number,
        sent_at_micros,
        encoded_bytes: 1_200,
        recovery_token: Some(RecoveryToken::Control(packet_number)),
    }
}

#[test]
fn fixed_table_applies_backpressure_without_growing() {
    let mut table = SentPacketTable::with_capacity(2).expect("valid capacity");
    let free_stack_capacity = table.free_slots.capacity();
    table.record(sent(0, 0)).expect("first slot");
    table.record(sent(1, 0)).expect("second slot");
    assert_eq!(
        table.record(sent(2, 0)),
        Err(RecoveryError::CapacityExhausted {
            oldest_packet_number: 0
        })
    );
    assert_eq!(table.capacity(), 2);
    assert_eq!(table.outstanding_packets(), 2);
    assert_eq!(table.outstanding_bytes(), 2_400);

    let mut encoded = [0_u8; 32];
    let length = AckFrame::encode(0, 0, 1, &[], &mut encoded).expect("ACK encodes");
    let ack = AckFrame::decode(&encoded[..length]).expect("ACK decodes");
    table
        .on_ack(ack, 1, &mut RttEstimator::default(), &mut Vec::new())
        .expect("ACK applies");
    table.record(sent(2, 1)).expect("released slot is reused");
    assert_eq!(table.capacity(), 2);
    assert_eq!(table.free_slots.capacity(), free_stack_capacity);
}

#[test]
fn skipped_untracked_packet_numbers_do_not_collide() {
    let mut table = SentPacketTable::with_capacity(2).expect("valid capacity");
    table.record(sent(0, 0)).expect("first packet fits");
    table
        .record(sent(1_000_000, 1))
        .expect("packet-number gaps do not consume slots");
    assert_eq!(table.outstanding_packets(), 2);
}

#[test]
fn rtt_adjustment_is_bounded_by_minimum_and_configured_ack_delay() {
    let config = RecoveryConfig::new(333_000, 25_000).expect("valid timing");
    let mut rtt = RttEstimator::new(config);
    rtt.record_sample(100_000, 50_000);
    assert_eq!(rtt.minimum_rtt_micros(), Some(100_000));
    assert_eq!(rtt.smoothed_rtt_micros(), Some(100_000));

    rtt.record_sample(125_000, 50_000);
    assert_eq!(rtt.latest_rtt_micros(), Some(125_000));
    assert_eq!(rtt.minimum_rtt_micros(), Some(100_000));
    assert_eq!(rtt.smoothed_rtt_micros(), Some(100_000));
    assert_eq!(rtt.rtt_variance_micros(), Some(37_500));
    assert_eq!(rtt.loss_delay_micros(), 140_625);
    assert_eq!(rtt.probe_timeout_micros(), 275_000);
}

#[test]
fn pto_arms_backs_off_and_resets_without_declaring_loss() {
    let mut rtt = RttEstimator::new(
        RecoveryConfig::new(333_000, 25_000).expect("valid recovery configuration"),
    );
    rtt.record_sample(100_000, 0);
    let mut pto = ProbeTimeoutState::default();
    pto.on_ack_eliciting_sent(1_000).expect("clock advances");
    let base_duration = rtt.probe_timeout_micros();
    assert_eq!(
        pto.timer(rtt, None, true),
        Some(RecoveryTimer::ProbeTimeout {
            deadline_micros: 1_000 + base_duration
        })
    );
    assert!(matches!(
        pto.on_expiration(1_000, rtt, true),
        Err(RecoveryError::TimerNotExpired { .. })
    ));
    assert_eq!(
        pto.on_expiration(1_000 + base_duration, rtt, true),
        Ok(ProbeAction {
            probe_datagrams: 2,
            backoff_exponent: 1,
        })
    );
    assert_eq!(pto.duration_micros(rtt), base_duration * 2);
    pto.backoff_exponent = MAX_PTO_BACKOFF_EXPONENT;
    assert_eq!(pto.duration_micros(rtt), u64::MAX);
    pto.on_ack(true);
    assert_eq!(pto.backoff_exponent(), 0);
    assert_eq!(pto.timer(rtt, None, false), None);
    assert_eq!(
        pto.timer(rtt, Some(42), true),
        Some(RecoveryTimer::LossDetection {
            deadline_micros: 42
        })
    );
}

#[test]
fn persistent_congestion_requires_a_consecutive_timed_loss_run() {
    let mut tracker = PersistentCongestionTracker::default();
    assert_eq!(
        tracker.observe(0, CongestionOutcome::Lost, true, 300),
        Ok(false)
    );
    assert_eq!(
        tracker.observe(300, CongestionOutcome::Lost, true, 300),
        Ok(true)
    );

    tracker.reset();
    assert_eq!(
        tracker.observe(0, CongestionOutcome::Lost, true, 300),
        Ok(false)
    );
    assert_eq!(
        tracker.observe(100, CongestionOutcome::Acknowledged, true, 300),
        Ok(false)
    );
    assert_eq!(
        tracker.observe(400, CongestionOutcome::Lost, true, 300),
        Ok(false)
    );
    assert_eq!(
        tracker.observe(399, CongestionOutcome::Lost, true, 300),
        Err(RecoveryError::OutcomeTimeWentBackwards)
    );
}

#[test]
fn ack_ranges_release_packets_and_packet_threshold_declares_loss() {
    let mut table = SentPacketTable::with_capacity(8).expect("valid capacity");
    for packet_number in 0..6 {
        table
            .record(sent(packet_number, packet_number * 100))
            .expect("packet fits");
    }
    let mut encoded = [0_u8; 32];
    let length = AckFrame::encode(5, 0, 1, &[AckRange { gap: 2, length: 1 }], &mut encoded)
        .expect("ACK encodes");
    let ack = AckFrame::decode(&encoded[..length]).expect("ACK decodes");
    let mut events = Vec::new();
    let summary = table
        .on_ack(ack, 1_000, &mut RttEstimator::default(), &mut events)
        .expect("ACK applies");

    assert_eq!(summary.acknowledged_packets, 2);
    assert_eq!(summary.acknowledged_bytes, 2_400);
    assert_eq!(summary.lost_packets, 2);
    assert_eq!(summary.lost_bytes, 2_400);
    assert_eq!(summary.largest_newly_acknowledged, Some(5));
    assert_eq!(summary.raw_rtt_sample_micros, Some(500));
    assert_eq!(table.outstanding_packets(), 2);
    assert!(events.contains(&RecoveryEvent::Acknowledged(sent(2, 200))));
    assert!(events.contains(&RecoveryEvent::Acknowledged(sent(5, 500))));
    assert!(events.contains(&RecoveryEvent::Lost {
        packet: sent(0, 0),
        reason: LossReason::PacketThreshold,
    }));
    assert!(events.contains(&RecoveryEvent::Lost {
        packet: sent(1, 100),
        reason: LossReason::PacketThreshold,
    }));
}

#[test]
fn time_threshold_detects_loss_without_three_newer_packets() {
    let mut table = SentPacketTable::with_capacity(4).expect("valid capacity");
    table.record(sent(0, 0)).expect("packet fits");
    table.record(sent(1, 0)).expect("packet fits");
    let mut rtt = RttEstimator::new(
        RecoveryConfig::new(10_000, 0).expect("valid recovery configuration"),
    );
    let mut encoded = [0_u8; 32];
    let first_length = AckFrame::encode(1, 0, 1, &[], &mut encoded).expect("ACK encodes");
    let first_ack = AckFrame::decode(&encoded[..first_length]).expect("ACK decodes");
    let first = table
        .on_ack(first_ack, 2_000, &mut rtt, &mut Vec::new())
        .expect("ACK applies");
    assert_eq!(first.lost_packets, 0);

    table.record(sent(2, 2_000)).expect("packet fits");
    let second_length = AckFrame::encode(2, 0, 1, &[], &mut encoded).expect("ACK encodes");
    let second_ack = AckFrame::decode(&encoded[..second_length]).expect("ACK decodes");
    let mut events = Vec::new();
    let second = table
        .on_ack(second_ack, 5_000, &mut rtt, &mut events)
        .expect("ACK applies");
    let mut loss = None;
    for event in events {
        if let RecoveryEvent::Lost { packet, reason } = event {
            loss = Some((packet.packet_number, reason));
        }
    }

    assert_eq!(second.lost_packets, 1);
    assert_eq!(loss, Some((0, LossReason::TimeThreshold)));
    assert_eq!(table.outstanding_packets(), 0);
}

#[test]
fn reinjection_prefers_arrival_time_and_skips_failed_paths() {
    let token = RecoveryToken::Control(9);
    let candidates = [
        PathCandidate {
            path_id: 0,
            validated: true,
            sendable: false,
            smoothed_rtt_micros: 10_000,
            pacer_delay_micros: 0,
            queued_bytes: 0,
            estimated_rate_bytes_per_second: 1_000_000,
            loss_penalty_micros: 0,
        },
        PathCandidate {
            path_id: 1,
            validated: true,
            sendable: true,
            smoothed_rtt_micros: 50_000,
            pacer_delay_micros: 1_000,
            queued_bytes: 1_000,
            estimated_rate_bytes_per_second: 1_000_000,
            loss_penalty_micros: 2_000,
        },
        PathCandidate {
            path_id: 2,
            validated: true,
            sendable: true,
            smoothed_rtt_micros: 20_000,
            pacer_delay_micros: 0,
            queued_bytes: 100_000,
            estimated_rate_bytes_per_second: 1_000_000,
            loss_penalty_micros: 0,
        },
    ];

    assert_eq!(
        select_reinjection_path(token, 0, &candidates),
        Some(ReinjectionDecision {
            token,
            source_path_id: 0,
            target_path_id: 1,
            estimated_delivery_delay_micros: 29_000,
        })
    );
}

/// One path of the simulated network. Every `reorder_every`-th packet is delayed further.
struct SimulatedPath {
    base_delay_ticks: u64,
    reorder_every: u64,
    reorder_delay_ticks: u64,
    sent: u64,
    enabled: bool,
}

struct Delivery {
    delivery_tick: u64,
    path_id: u8,
    payload: RecoveryToken,
}

/// A network that delivers packets in the order of their arrival ticks.
struct SimulatedNetwork {
    now: u64,
    paths: [SimulatedPath; 2],
    pending: Vec<Delivery>,
}

impl SimulatedNetwork {
    fn now(&self) -> u64 {
        self.now
    }

    fn send(&mut self, path_id: u8, payload: RecoveryToken) -> Option<()> {
        let path = &mut self.paths[usize::from(path_id)];
        if !path.enabled {
            return None;
        }
        path.sent += 1;
        let mut delivery_tick = self.now + path.base_delay_ticks;
        if path.reorder_every != 0 && path.sent % path.reorder_every == 0 {
            delivery_tick += path.reorder_delay_ticks;
        }
        self.pending.push(Delivery {
            delivery_tick,
            path_id,
            payload,
        });
        Some(())
    }

    fn deliver_next(&mut self) -> Option<Delivery> {
        let earliest = self.pending.iter().map(|packet| packet.delivery_tick).min()?;
        let position = self
            .pending
            .iter()
            .position(|packet| packet.delivery_tick == earliest)?;
        let packet = self.pending.remove(position);
        self.now = packet.delivery_tick;
        Some(packet)
    }

    fn set_path_enabled(&mut self, path_id: u8, enabled: bool) -> Option<()> {
        self.paths.get_mut(usize::from(path_id))?.enabled = enabled;
        Some(())
    }
}

fn failover_network() -> SimulatedNetwork {
    SimulatedNetwork {
        now: 0,
        paths: [
            SimulatedPath {
                base_delay_ticks: 5,
                reorder_every: 2,
                reorder_delay_ticks: 20,
                sent: 0,
                enabled: true,
            },
            SimulatedPath {
                base_delay_ticks: 2,
                reorder_every: 0,
                reorder_delay_ticks: 0,
                sent: 0,
                enabled: true,
            },
        ],
        pending: Vec::new(),
    }
}

fn track_and_send(
    network: &mut SimulatedNetwork,
    table: &mut SentPacketTable,
    path_id: u8,
    packet_number: u64,
) {
    let packet = sent(packet_number, network.now());
    table.record(packet).expect("packet fits");
    network
        .send(path_id, packet.recovery_token.expect("test token exists"))
        .expect("network send succeeds");
}

fn apply_ack(
    table: &mut SentPacketTable,
    rtt: &mut RttEstimator,
    largest_acked: u64,
    ranges: &[AckRange],
    now_micros: u64,
    events: &mut Vec<RecoveryEvent>,
) -> AckSummary {
    let mut encoded = [0_u8; 160];
    let length =
        AckFrame::encode(largest_acked, 0, 1, ranges, &mut encoded).expect("ACK encodes");
    let ack = AckFrame::decode(&encoded[..length]).expect("ACK decodes");
    table
        .on_ack(ack, now_micros, rtt, events)
        .expect("ACK applies")
}

fn failover_candidates() -> [PathCandidate; 2] {
    [
        PathCandidate {
            path_id: 0,
            validated: true,
            sendable: false,
            smoothed_rtt_micros: 10,
            pacer_delay_micros: 0,
            queued_bytes: 0,
            estimated_rate_bytes_per_second: 1_000_000,
            loss_penalty_micros: 0,
        },
        PathCandidate {
            path_id: 1,
            validated: true,
            sendable: true,
            smoothed_rtt_micros: 4,
            pacer_delay_micros: 0,
            queued_bytes: 0,
            estimated_rate_bytes_per_second: 1_000_000,
            loss_penalty_micros: 0,
        },
    ]
}

#[test]
fn delayed_packet_is_reinjected_on_failover_and_can_arrive_late() {
    let mut network = failover_network();

    let mut source = SentPacketTable::with_capacity(8).expect("valid source table");
    for packet_number in 0..3 {
        track_and_send(&mut network, &mut source, 0, packet_number);
    }
    assert_eq!(
        network.deliver_next().expect("packet zero arrives").payload,
        RecoveryToken::Control(0)
    );
    assert_eq!(
        network.deliver_next().expect("packet two arrives").payload,
        RecoveryToken::Control(2)
    );

    let mut source_rtt = RttEstimator::default();
    let first = apply_ack(
        &mut source,
        &mut source_rtt,
        2,
        &[AckRange { gap: 1, length: 1 }],
        network.now(),
        &mut Vec::new(),
    );
    assert_eq!(first.acknowledged_packets, 2);
    assert_eq!(first.lost_packets, 0);

    for packet_number in 3..5 {
        track_and_send(&mut network, &mut source, 0, packet_number);
    }
    assert_eq!(
        network.deliver_next().expect("packet four arrives").payload,
        RecoveryToken::Control(4)
    );

    let mut events = Vec::new();
    let second = apply_ack(
        &mut source,
        &mut source_rtt,
        4,
        &[
            AckRange { gap: 1, length: 1 },
            AckRange { gap: 1, length: 1 },
        ],
        network.now(),
        &mut events,
    );
    let mut lost_token = None;
    for event in events {
        if let RecoveryEvent::Lost { packet, .. } = event {
            lost_token = packet.recovery_token;
        }
    }
    assert_eq!(second.lost_packets, 1);
    let token = lost_token.expect("delayed packet is declared lost");
    assert_eq!(token, RecoveryToken::Control(1));

    network
        .set_path_enabled(0, false)
        .expect("source path exists");
    let candidates = failover_candidates();
    let decision = select_reinjection_path(token, 0, &candidates)
        .expect("validated alternate path is available");
    assert_eq!(decision.target_path_id, 1);

    let mut target = SentPacketTable::with_capacity(4).expect("valid target table");
    target
        .record(SentPacket {
            packet_number: 0,
            sent_at_micros: network.now(),
            encoded_bytes: 1_200,
            recovery_token: Some(token),
        })
        .expect("target packet fits");
    network.send(1, token).expect("reinjection send succeeds");
    assert_eq!(
        network.deliver_next().expect("reinjection arrives").payload,
        token
    );

    let target_summary = apply_ack(
        &mut target,
        &mut RttEstimator::default(),
        0,
        &[],
        network.now(),
        &mut Vec::new(),
    );
    assert_eq!(target_summary.acknowledged_packets, 1);
    assert_eq!(target.outstanding_packets(), 0);

    let late_original = network.deliver_next().expect("original arrives late");
    assert_eq!(late_original.path_id, 0);
    assert_eq!(late_original.payload, token);
    assert_eq!(late_original.delivery_tick, 25);
}

fn acknowledge(
    table: &mut SentPacketTable,
    largest_acked: u64,
    first_range_length: u32,
    now_micros: u64,
    events: &mut Vec<RecoveryEvent>,
) -> Result<AckSummary, RecoveryError> {
    let mut encoded = [0_u8; 32];
    let length = AckFrame::encode(largest_acked, 0, first_range_length, &[], &mut encoded)
        .expect("ACK encodes");
    let ack = AckFrame::decode(&encoded[..length]).expect("ACK decodes");
    table.on_ack(ack, now_micros, &mut RttEstimator::default(), events)
}

#[test]
fn every_packet_is_resolved_exactly_once() {
    let mut table = SentPacketTable::with_capacity(8).expect("valid capacity");
    for packet_number in 0..6 {
        table
            .record(sent(packet_number, packet_number))
            .expect("packet fits");
    }
    let mut events = Vec::new();
    acknowledge(&mut table, 5, 1, 10, &mut events).expect("ACK applies");
    let first_events = events.len();
    let repeated = acknowledge(&mut table, 5, 1, 11, &mut events).expect("ACK repeats");
    assert_eq!(repeated, AckSummary::default());
    assert_eq!(events.len(), first_events);
    acknowledge(&mut table, 5, 6, 12, &mut events).expect("ACK applies");
    let mut resolved: Vec<u64> = events
        .iter()
        .map(|event| match event {
            RecoveryEvent::Acknowledged(packet) => packet.packet_number,
            RecoveryEvent::Lost { packet, .. } => packet.packet_number,
        })
        .collect();
    resolved.sort_unstable();
    assert_eq!(resolved, vec![0, 1, 2, 3, 4, 5]);
    assert_eq!(table.outstanding_packets(), 0);
    assert_eq!(table.outstanding_bytes(), 0);
    assert_eq!(table.largest_acknowledged(), Some(5));
}

#[test]
fn invalid_recovery_inputs_change_nothing() {
    assert_eq!(
        RecoveryConfig::new(0, 0),
        Err(RecoveryError::InvalidConfiguration)
    );
    assert_eq!(
        SentPacketTable::with_capacity(0).err(),
        Some(RecoveryError::InvalidCapacity)
    );
    let mut table = SentPacketTable::with_capacity(2).expect("valid capacity");
    table.record(sent(5, 50)).expect("packet fits");
    let mut empty = sent(6, 60);
    empty.encoded_bytes = 0;
    assert_eq!(table.record(empty), Err(RecoveryError::ZeroPacketSize));
    assert_eq!(
        table.record(sent(1 << 62, 60)),
        Err(RecoveryError::PacketNumberOutOfRange(1 << 62))
    );
    assert_eq!(
        table.record(sent(5, 60)),
        Err(RecoveryError::NonMonotonicPacketNumber)
    );
    assert_eq!(
        table.record(sent(6, 49)),
        Err(RecoveryError::ClockWentBackwards)
    );
    let mut events = Vec::new();
    assert_eq!(
        acknowledge(&mut table, 6, 1, 60, &mut events),
        Err(RecoveryError::AckForUnsentPacket { largest_acked: 6 })
    );
    assert_eq!(
        acknowledge(&mut table, 5, 1, 49, &mut events),
        Err(RecoveryError::ClockWentBackwards)
    );
    assert!(events.is_empty());
    assert_eq!(table.outstanding_packets(), 1);
    assert_eq!(table.largest_sent(), Some(5));
    assert_eq!(table.largest_acknowledged(), None);
    assert_eq!(
        RecoveryError::AckForUnsentPacket { largest_acked: 6 }.message(),
        "ACK covers unsent packet 6"
    );
}

#[test]
fn unsampled_paths_use_the_initial_rtt() {
    let rtt = RttEstimator::default();
    assert!(!rtt.has_sample());
    assert_eq!(rtt.effective_smoothed_rtt_micros(), 333_000);
    assert_eq!(rtt.loss_delay_micros(), 374_625);
    assert_eq!(rtt.probe_timeout_micros(), 333_000 + 4 * 166_500 + 25_000);
    assert_eq!(
        rtt.persistent_congestion_duration_micros(),
        3 * rtt.probe_timeout_micros()
    );
    let mut fast = RttEstimator::default();
    fast.record_sample(1, 0);
    assert_eq!(fast.loss_delay_micros(), TIMER_GRANULARITY_MICROS);
}

#[test]
fn probe_timeouts_need_an_armed_timer_and_saturate() {
    let rtt = RttEstimator::default();
    let mut pto = ProbeTimeoutState::default();
    assert_eq!(
        pto.on_expiration(0, rtt, true),
        Err(RecoveryError::ProbeTimeoutNotArmed)
    );
    pto.on_ack_eliciting_sent(10).expect("clock advances");
    assert_eq!(
        pto.on_ack_eliciting_sent(9),
        Err(RecoveryError::ClockWentBackwards)
    );
    assert_eq!(
        pto.on_expiration(u64::MAX, rtt, false),
        Err(RecoveryError::ProbeTimeoutNotArmed)
    );
    for exponent in 1..=70 {
        let action = pto
            .on_expiration(u64::MAX, rtt, true)
            .expect("timer expired");
        assert_eq!(action.probe_datagrams, 2);
        assert_eq!(action.backoff_exponent, exponent.min(MAX_PTO_BACKOFF_EXPONENT));
    }
    assert_eq!(pto.duration_micros(rtt), u64::MAX);
    pto.on_ack(false);
    assert_eq!(pto.backoff_exponent(), MAX_PTO_BACKOFF_EXPONENT);
}

#[test]
fn persistent_congestion_ignores_packets_sent_before_the_first_sample() {
    let mut tracker = PersistentCongestionTracker::default();
    assert_eq!(
        tracker.observe(0, CongestionOutcome::Lost, false, 300),
        Ok(false)
    );
    assert_eq!(
        tracker.observe(300, CongestionOutcome::Lost, true, 300),
        Ok(false)
    );
    assert_eq!(
        tracker.observe(599, CongestionOutcome::Lost, true, 300),
        Ok(false)
    );
    assert_eq!(
        tracker.observe(600, CongestionOutcome::Lost, true, 300),
        Ok(true)
    );
}

#[test]
fn reinjection_breaks_ties_by_path_and_may_find_no_path() {
    let token = RecoveryToken::Control(1);
    let candidate = PathCandidate {
        path_id: 4,
        validated: true,
        sendable: true,
        smoothed_rtt_micros: 10,
        pacer_delay_micros: 0,
        queued_bytes: 1,
        estimated_rate_bytes_per_second: 3,
        loss_penalty_micros: 0,
    };
    assert_eq!(
        candidate.estimated_delivery_delay_micros(),
        Some(5 + 333_334)
    );
    let lower = PathCandidate {
        path_id: 2,
        ..candidate
    };
    let chosen = select_reinjection_path(token, 2, &[candidate, lower]).expect("a path is usable");
    assert_eq!(chosen.target_path_id, 2);
    for unusable in [
        PathCandidate {
            validated: false,
            ..candidate
        },
        PathCandidate {
            sendable: false,
            ..candidate
        },
        PathCandidate {
            estimated_rate_bytes_per_second: 0,
            ..candidate
        },
    ] {
        assert_eq!(select_reinjection_path(token, 2, &[unusable]), None);
    }
    assert_eq!(select_reinjection_path(token, 2, &[]), None);
    let saturated = PathCandidate {
        queued_bytes: u64::MAX,
        estimated_rate_bytes_per_second: 1,
        ..candidate
    };
    assert_eq!(
        saturated.estimated_delivery_delay_micros(),
        Some(u64::MAX)
    );
}

#[test]
fn no_timer_is_armed_while_nothing_is_in_flight() {
    let rtt = RttEstimator::default();
    let mut pto = ProbeTimeoutState::default();
    pto.on_ack_eliciting_sent(10).expect("clock advances");
    assert_eq!(pto.timer(rtt, Some(500), false), None);
    assert_eq!(pto.timer(rtt, None, false), None);
    assert_eq!(
        pto.timer(rtt, Some(500), true),
        Some(RecoveryTimer::LossDetection {
            deadline_micros: 500
        })
    );
    assert_eq!(
        pto.timer(rtt, None, true),
        Some(RecoveryTimer::ProbeTimeout {
            deadline_micros: 10 + rtt.probe_timeout_micros()
        })
    );
}

#[test]
fn the_largest_sample_is_not_adjusted_below_the_minimum() {
    let mut rtt = RttEstimator::default();
    rtt.record_sample(u64::MAX, 25_000);
    assert_eq!(rtt.minimum_rtt_micros(), Some(u64::MAX));
    assert_eq!(rtt.smoothed_rtt_micros(), Some(u64::MAX));
    let mut lower = RttEstimator::default();
    lower.record_sample(100_000, 0);
    lower.record_sample(125_000, 30_000);
    assert_eq!(lower.smoothed_rtt_micros(), Some(100_000));
}
