use ogtp::congestion::{
    CongestionError, CongestionPhase, CubicConfig, CubicController, Pacer, integer_cube_root,
};
use ogtp::recovery::{
    ProbeTimeoutState, RecoveryConfig, RecoveryEvent, RttEstimator, SentPacket,
    SentPacketTable,
};
use ogtp::wire::ack::AckFrame;

fn sampled_rtt(micros: u64) -> RttEstimator {
    let mut rtt = RttEstimator::new(
        RecoveryConfig::new(micros, 0).expect("valid recovery configuration"),
    );
    rtt.record_sample(micros, 0);
    rtt
}

#[test]
fn initial_window_slow_start_and_normal_send_limit_are_bounded() {
    let mut controller = CubicController::new(CubicConfig::default());
    assert_eq!(controller.congestion_window(), 12_000);
    assert_eq!(controller.minimum_window(), 2_400);
    assert_eq!(controller.phase(), CongestionPhase::SlowStart);
    for _ in 0..10 {
        controller
            .on_packet_sent(1_200, false)
            .expect("window permits");
    }
    assert_eq!(
        controller.on_packet_sent(1_200, false),
        Err(CongestionError::CongestionWindowExceeded)
    );
    controller
        .on_packet_sent(1_200, true)
        .expect("PTO probe may exceed cwnd");
    assert_eq!(controller.bytes_in_flight(), 13_200);
}

#[test]
fn slow_start_grows_by_acknowledged_bytes() {
    let mut controller = CubicController::new(CubicConfig::default());
    controller
        .on_packet_sent(1_200, false)
        .expect("packet sends");
    controller
        .on_packet_acknowledged(1_200, 0, 100, sampled_rtt(100))
        .expect("ACK applies");
    assert_eq!(controller.congestion_window(), 13_200);
    assert_eq!(controller.bytes_in_flight(), 0);
}

#[test]
fn one_loss_epoch_reduces_once_and_persistent_loss_collapses_window() {
    let mut controller = CubicController::new(CubicConfig::default());
    for _ in 0..10 {
        controller
            .on_packet_sent(1_200, false)
            .expect("window permits");
    }
    let first = controller
        .on_packet_lost(1_200, 0, 10, false)
        .expect("loss applies");
    assert!(first.window_reduced);
    assert_eq!(controller.congestion_window(), 8_400);
    let second = controller
        .on_packet_lost(1_200, 5, 10, false)
        .expect("same epoch accounting applies");
    assert!(!second.window_reduced);
    assert_eq!(controller.congestion_window(), 8_400);
    let persistent = controller
        .on_packet_lost(1_200, 5, 10, true)
        .expect("persistent congestion applies");
    assert!(persistent.persistent_congestion);
    assert_eq!(controller.congestion_window(), 2_400);
}

#[test]
fn congestion_avoidance_growth_is_ack_clocked_and_bounded() {
    let mut controller = CubicController::new(CubicConfig::default());
    for _ in 0..10 {
        controller
            .on_packet_sent(1_200, false)
            .expect("window permits");
    }
    controller
        .on_packet_lost(1_200, 0, 10, false)
        .expect("loss applies");
    assert_eq!(controller.congestion_window(), 8_400);
    assert_eq!(controller.phase(), CongestionPhase::CongestionAvoidance);
    controller
        .on_packet_acknowledged(1_200, 11, 20, sampled_rtt(10_000))
        .expect("CUBIC ACK applies at the threshold");
    assert!(controller.congestion_window() >= 8_400);
    assert!(controller.congestion_window() < 9_600);
    controller
        .on_packet_acknowledged(1_200, 12, 30, sampled_rtt(10_000))
        .expect("CUBIC ACK applies");
    assert!(controller.congestion_window() >= 8_400);
    assert!(controller.congestion_window() <= 12_600);
    assert_eq!(controller.phase(), CongestionPhase::CongestionAvoidance);
}

#[test]
fn pacer_uses_nanosecond_spacing_and_slow_start_gain() {
    let mut pacer = Pacer::default();
    let first = pacer
        .schedule(0, 1_200, 12_000, 100_000, CongestionPhase::SlowStart)
        .expect("valid pacing input");
    assert_eq!(first.send_at_nanos, 0);
    assert_eq!(first.next_send_at_nanos, 8_000_000);
    let second = pacer
        .schedule(0, 1_200, 12_000, 100_000, CongestionPhase::SlowStart)
        .expect("valid pacing input");
    assert_eq!(second.send_at_nanos, 8_000_000);
    assert_eq!(second.queue_delay_nanos, 8_000_000);
}

#[test]
fn integer_cube_root_is_exact_at_boundaries() {
    assert_eq!(integer_cube_root(0), 0);
    assert_eq!(integer_cube_root(1), 1);
    assert_eq!(integer_cube_root(26), 2);
    assert_eq!(integer_cube_root(27), 3);
    assert_eq!(
        integer_cube_root(u128::from(1_000_000_u64).pow(3)),
        1_000_000
    );
}

#[test]
fn recovery_events_reduce_before_ack_growth_and_reset_pto() {
    let mut controller = CubicController::new(CubicConfig::default());
    let mut recovery = SentPacketTable::with_capacity(8).expect("valid recovery capacity");
    let mut pto = ProbeTimeoutState::default();
    for packet_number in 0..5 {
        let sent_at_micros = packet_number;
        controller
            .on_packet_sent(1_200, false)
            .expect("initial window permits packet");
        recovery
            .record(SentPacket {
                packet_number,
                sent_at_micros,
                encoded_bytes: 1_200,
                recovery_token: None,
            })
            .expect("recovery slot is available");
        pto.on_ack_eliciting_sent(sent_at_micros)
            .expect("clock advances");
    }

    let mut ack_bytes = [0_u8; 32];
    let ack_length = AckFrame::encode(4, 0, 1, &[], &mut ack_bytes).expect("ACK encodes");
    let ack = AckFrame::decode(&ack_bytes[..ack_length]).expect("ACK decodes");
    let mut rtt = RttEstimator::default();
    let event_rtt = rtt;
    let mut events = Vec::new();
    let summary = recovery
        .on_ack(ack, 10_000, &mut rtt, &mut events)
        .expect("recovery ACK applies");
    let mut event_kinds = Vec::new();
    for event in events {
        match event {
            RecoveryEvent::Lost { packet, .. } => {
                event_kinds.push("lost");
                controller
                    .on_packet_lost(packet.encoded_bytes, packet.sent_at_micros, 10_000, false)
                    .expect("loss accounting matches");
            }
            RecoveryEvent::Acknowledged(packet) => {
                event_kinds.push("acked");
                controller
                    .on_packet_acknowledged(
                        packet.encoded_bytes,
                        packet.sent_at_micros,
                        10_000,
                        event_rtt,
                    )
                    .expect("ACK accounting matches");
            }
        }
    }
    pto.on_ack(summary.acknowledged_packets != 0);

    assert_eq!(event_kinds, vec!["lost", "lost", "acked"]);
    assert_eq!(controller.congestion_window(), 4_200);
    assert_eq!(controller.bytes_in_flight(), 2_400);
    assert_eq!(pto.backoff_exponent(), 0);
}

fn filled_controller() -> CubicController {
    let mut controller = CubicController::new(CubicConfig::default());
    for _ in 0..10 {
        controller
            .on_packet_sent(1_200, false)
            .expect("window permits");
    }
    controller
}

#[test]
fn cubic_growth_has_exact_windows() {
    let mut controller = filled_controller();
    controller
        .on_packet_lost(1_200, 0, 10, false)
        .expect("loss applies");
    controller
        .on_packet_acknowledged(1_200, 11, 20, sampled_rtt(10_000))
        .expect("ACK applies");
    assert_eq!(controller.congestion_window(), 8_490);
    controller
        .on_packet_acknowledged(1_200, 12, 30, sampled_rtt(10_000))
        .expect("ACK applies");
    assert_eq!(controller.congestion_window(), 8_580);
    controller
        .on_packet_acknowledged(1_200, 13, 5_000_020, sampled_rtt(10_000))
        .expect("ACK applies");
    assert_eq!(controller.congestion_window(), 9_180);
    assert_eq!(controller.slow_start_threshold(), 8_400);
}

#[test]
fn acknowledgements_of_the_recovery_epoch_do_not_grow_the_window() {
    let mut controller = filled_controller();
    controller
        .on_packet_lost(1_200, 0, 10, false)
        .expect("loss applies");
    controller
        .on_packet_acknowledged(1_200, 10, 20, sampled_rtt(10_000))
        .expect("ACK applies");
    assert_eq!(controller.congestion_window(), 8_400);
    assert_eq!(controller.bytes_in_flight(), 9_600);
    assert_eq!(controller.available_window(), 0);
}

#[test]
fn fast_convergence_lowers_the_remembered_maximum() {
    for (fast_convergence, expected) in [(true, 7_140), (false, 8_400)] {
        let config = CubicConfig::new(1_200, fast_convergence).expect("valid configuration");
        let mut controller = CubicController::new(config);
        for _ in 0..10 {
            controller
                .on_packet_sent(1_200, false)
                .expect("window permits");
        }
        controller
            .on_packet_lost(1_200, 0, 10, false)
            .expect("first epoch");
        assert!(format!("{controller:?}").contains("maximum_window: 12000,"));
        controller
            .on_packet_lost(1_200, 11, 20, false)
            .expect("second epoch");
        assert!(format!("{controller:?}").contains(&format!("maximum_window: {expected},")));
        assert_eq!(controller.congestion_window(), 5_880);
    }
}

#[test]
fn application_limited_time_is_excluded_from_the_epoch() {
    let mut controller = filled_controller();
    controller
        .on_packet_lost(1_200, 0, 10, false)
        .expect("loss applies");
    controller
        .on_packet_acknowledged(1_200, 11, 20, sampled_rtt(10_000))
        .expect("ACK applies");
    assert!(format!("{controller:?}").contains("epoch_started_at_micros: Some(20)"));
    controller
        .set_application_limited(100, true)
        .expect("clock advances");
    controller
        .on_packet_acknowledged(1_200, 12, 200, sampled_rtt(10_000))
        .expect("ACK applies");
    assert_eq!(controller.congestion_window(), 8_490);
    controller
        .set_application_limited(600, false)
        .expect("clock advances");
    assert!(format!("{controller:?}").contains("epoch_started_at_micros: Some(520)"));
    assert_eq!(
        controller.set_application_limited(599, true),
        Err(CongestionError::ClockWentBackwards)
    );
}

#[test]
fn congestion_errors_are_distinct_and_change_nothing() {
    assert_eq!(
        CubicConfig::new(1_199, true),
        Err(CongestionError::InvalidMaxDatagramSize)
    );
    let mut controller = filled_controller();
    let before = format!("{controller:?}");
    assert_eq!(
        controller.on_packet_sent(0, false),
        Err(CongestionError::ZeroPacketSize)
    );
    assert_eq!(
        controller.on_packet_acknowledged(12_001, 0, 10, sampled_rtt(100)),
        Err(CongestionError::AcknowledgementExceedsFlight)
    );
    assert_eq!(
        controller.on_packet_acknowledged(1_200, 11, 10, sampled_rtt(100)),
        Err(CongestionError::ClockWentBackwards)
    );
    assert_eq!(
        controller.on_packet_lost(12_001, 0, 10, true),
        Err(CongestionError::LossExceedsFlight)
    );
    assert_eq!(
        controller.on_packet_lost(0, 0, 10, true),
        Err(CongestionError::LossExceedsFlight)
    );
    assert!(!controller.can_send(1));
    assert_eq!(format!("{controller:?}"), before);
    assert_eq!(
        CongestionError::AccountingOverflow.message(),
        "congestion accounting overflow"
    );
}

#[test]
fn pacing_in_congestion_avoidance_has_unit_gain_and_rounds_up() {
    let mut pacer = Pacer::default();
    let decision = pacer
        .schedule(7, 1, 3, 1, CongestionPhase::CongestionAvoidance)
        .expect("valid pacing input");
    assert_eq!(decision.send_at_nanos, 7);
    assert_eq!(decision.next_send_at_nanos, 7 + 334);
    pacer.reset(9);
    assert_eq!(pacer.next_send_at_nanos(), 9);
    for (bytes, window, rtt) in [(0, 1, 1), (1, 0, 1), (1, 1, 0)] {
        assert_eq!(
            pacer.schedule(0, bytes, window, rtt, CongestionPhase::SlowStart),
            Err(CongestionError::InvalidPacingInput)
        );
    }
    assert_eq!(pacer.next_send_at_nanos(), 9);
}

#[test]
fn cube_roots_bracket_their_radicand_up_to_the_widest_value() {
    for value in [u128::MAX, u128::MAX - 1, 1 << 126, (1 << 126) - 1, 7, 8, 9] {
        let root = u128::from(integer_cube_root(value));
        if root < 1 << 42 {
            assert!(root.pow(3) <= value);
            assert!((root + 1).pow(3) > value);
        } else {
            assert!(root == 1 << 42 || root * root <= value / root);
        }
    }
    assert_eq!(integer_cube_root(1 << 126), 1 << 42);
    assert_eq!(integer_cube_root((1 << 126) - 1), (1 << 42) - 1);
}

#[test]
fn departures_keep_their_spacing() {
    let mut pacer = Pacer::default();
    let mut earliest = 0;
    for now in [0, 10, 5_000_000, 5_000_001, 90_000_000] {
        let decision = pacer
            .schedule(now, 1_200, 12_000, 20_000, CongestionPhase::CongestionAvoidance)
            .expect("valid pacing input");
        assert!(decision.send_at_nanos >= now);
        assert!(decision.send_at_nanos >= earliest);
        assert_eq!(decision.queue_delay_nanos, decision.send_at_nanos - now);
        earliest = decision.send_at_nanos + 2_000_000;
        assert_eq!(decision.next_send_at_nanos, earliest);
    }
}
