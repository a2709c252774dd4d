use ogtp::multipath::{
    CoupledPathState, LIA_ALPHA_SCALE, LiaCoupler, LiaDecision, MAX_COUPLED_PATHS,
    MultipathError,
};

fn path(path_id: u8) -> CoupledPathState {
    CoupledPathState {
        path_id,
        active: true,
        congestion_window: 12_000,
        bytes_in_flight: 12_000,
        slow_start_threshold: 12_000,
        smoothed_rtt_micros: 100_000,
        max_datagram_size: 1_200,
        in_recovery: false,
        application_limited: false,
    }
}

#[test]
fn equal_paths_have_half_scaled_alpha_and_thirty_byte_growth() {
    let mut coupler = LiaCoupler::new();
    let decision = coupler
        .ack_growth_limit(0, 1_200, &[path(0), path(1)])
        .expect("equal path snapshot is valid");

    assert_eq!(decision.alpha_scaled, 256);
    assert_eq!(decision.aggregate_window, 24_000);
    assert_eq!(decision.acknowledged_path_window, 12_000);
    assert_eq!(decision.growth_limit_bytes, 30);
    assert_eq!(decision.reference_path_id, 0);
    assert_eq!(decision.participating_paths, 2);
}

#[test]
fn one_path_reduces_to_reno_growth() {
    let mut coupler = LiaCoupler::new();
    let decision = coupler
        .ack_growth_limit(7, 1_200, &[path(7)])
        .expect("single path snapshot is valid");

    assert_eq!(decision.alpha_scaled, LIA_ALPHA_SCALE);
    assert_eq!(decision.growth_limit_bytes, 120);
    assert_eq!(decision.participating_paths, 1);
}

#[test]
fn lower_rtt_path_is_the_deterministic_alpha_reference() {
    let slower = path(0);
    let mut faster = path(1);
    faster.smoothed_rtt_micros = 50_000;

    let decision = LiaCoupler::new()
        .ack_growth_limit(1, 1_200, &[slower, faster])
        .expect("unequal RTT snapshot is valid");

    assert_eq!(decision.reference_path_id, 1);
    assert_eq!(decision.alpha_scaled, 455);
    assert_eq!(decision.growth_limit_bytes, 53);
}

#[test]
fn application_limited_and_recovery_windows_are_effective() {
    let mut limited = path(0);
    limited.application_limited = true;
    limited.bytes_in_flight = 6_000;
    let mut recovering = path(1);
    recovering.congestion_window = 14_000;
    recovering.slow_start_threshold = 8_000;
    recovering.in_recovery = true;

    let decision = LiaCoupler::new()
        .ack_growth_limit(0, 1_200, &[limited, recovering])
        .expect("effective windows are valid");

    assert_eq!(limited.effective_window(), 6_000);
    assert_eq!(recovering.effective_window(), 8_000);
    assert_eq!(decision.aggregate_window, 14_000);
    assert_eq!(decision.acknowledged_path_window, 6_000);
}

#[test]
fn invalid_snapshots_fail_closed() {
    let mut coupler = LiaCoupler::new();
    assert_eq!(
        coupler.ack_growth_limit(0, 1_200, &[]),
        Err(MultipathError::EmptyPathSet)
    );
    assert_eq!(
        coupler.ack_growth_limit(0, 1_200, &[path(0), path(0)]),
        Err(MultipathError::DuplicatePathId(0))
    );
    let mut invalid_rtt = path(0);
    invalid_rtt.smoothed_rtt_micros = 0;
    assert_eq!(
        coupler.ack_growth_limit(0, 1_200, &[invalid_rtt]),
        Err(MultipathError::InvalidPathState(0))
    );
    let too_many = [path(0); MAX_COUPLED_PATHS + 1];
    assert_eq!(
        coupler.ack_growth_limit(0, 1_200, &too_many),
        Err(MultipathError::TooManyPaths)
    );
}

#[test]
fn fractional_credit_is_path_local_and_retirable() {
    let mut coupler = LiaCoupler::new();
    let first = coupler
        .ack_growth_limit(0, 3, &[path(0)])
        .expect("fractional growth is valid");
    let second = coupler
        .ack_growth_limit(0, 3, &[path(0)])
        .expect("fractional growth accumulates");
    assert_eq!(first.growth_limit_bytes, 0);
    assert_eq!(second.growth_limit_bytes, 0);
    assert!(coupler.retire_path(0));
    assert!(!coupler.retire_path(0));
    assert_eq!(
        coupler
            .ack_growth_limit(0, 3, &[path(0)])
            .expect("retired path can be reused")
            .growth_limit_bytes,
        0
    );
}

#[test]
fn credit_capacity_requires_explicit_path_retirement() {
    let mut coupler = LiaCoupler::new();
    for path_id in 0_u8..u8::try_from(MAX_COUPLED_PATHS).expect("capacity fits") {
        coupler
            .ack_growth_limit(path_id, 1_200, &[path(path_id)])
            .expect("credit slot is available");
    }
    let replacement_id = u8::try_from(MAX_COUPLED_PATHS).expect("capacity fits");
    assert_eq!(
        coupler.ack_growth_limit(replacement_id, 1_200, &[path(replacement_id)]),
        Err(MultipathError::CreditSlotsExhausted)
    );
    assert!(coupler.retire_path(0));
    assert!(
        coupler
            .ack_growth_limit(replacement_id, 1_200, &[path(replacement_id)])
            .is_ok()
    );
}

#[test]
fn growth_is_never_above_the_uncoupled_increase() {
    let mut wide = path(1);
    wide.congestion_window = 600_000;
    wide.bytes_in_flight = 600_000;
    wide.smoothed_rtt_micros = 10_000;
    let decision = LiaCoupler::new()
        .ack_growth_limit(0, 1_200, &[path(0), wide])
        .expect("valid snapshot");
    assert!(decision.growth_limit_bytes <= 120);
    assert_eq!(decision.reference_path_id, 1);
    assert_eq!(decision.aggregate_window, 612_000);
}

#[test]
fn fractions_of_a_byte_accumulate_to_whole_bytes() {
    let mut coupler = LiaCoupler::new();
    let mut grown = 0;
    for _ in 0..10 {
        grown += coupler
            .ack_growth_limit(0, 3, &[path(0)])
            .expect("valid snapshot")
            .growth_limit_bytes;
    }
    assert_eq!(grown, 2);
    grown += coupler
        .ack_growth_limit(0, 3, &[path(0)])
        .expect("valid snapshot")
        .growth_limit_bytes;
    assert_eq!(grown, 3);
}

#[test]
fn unavailable_paths_and_empty_acknowledgements_are_rejected() {
    let mut coupler = LiaCoupler::new();
    assert_eq!(
        coupler.ack_growth_limit(0, 0, &[path(0)]),
        Err(MultipathError::ZeroAcknowledgedBytes)
    );
    assert_eq!(
        coupler.ack_growth_limit(3, 1, &[path(0)]),
        Err(MultipathError::AckPathUnavailable)
    );
    let mut inactive = path(0);
    inactive.active = false;
    assert_eq!(
        coupler.ack_growth_limit(0, 1, &[inactive, path(1)]),
        Err(MultipathError::AckPathUnavailable)
    );
    let mut huge = path(0);
    huge.congestion_window = u64::MAX;
    huge.bytes_in_flight = u64::MAX;
    huge.slow_start_threshold = u64::MAX;
    let mut other = huge;
    other.path_id = 1;
    assert_eq!(
        coupler.ack_growth_limit(0, 1, &[huge, other]),
        Err(MultipathError::ArithmeticOverflow)
    );
    assert_eq!(
        MultipathError::EmptyPathSet.message(),
        "coupled path set is empty"
    );
}

#[test]
fn a_sole_participant_grows_uncoupled() {
    let mut idle = path(1);
    idle.active = false;
    let mut empty = path(2);
    empty.application_limited = true;
    empty.bytes_in_flight = 0;
    let mut coupled = path(0);
    coupled.congestion_window = 7_001;
    let decision = LiaCoupler::new()
        .ack_growth_limit(0, 1_300, &[idle, coupled, empty])
        .expect("valid snapshot");
    assert_eq!(decision.alpha_scaled, LIA_ALPHA_SCALE);
    assert_eq!(decision.participating_paths, 1);
    assert_eq!(decision.growth_limit_bytes, 1_300 * 1_200 / 7_001);
}

#[test]
fn paths_without_an_effective_window_are_not_judged() {
    let mut unsampled = path(8);
    unsampled.application_limited = true;
    unsampled.bytes_in_flight = 0;
    unsampled.smoothed_rtt_micros = 0;
    let mut coupler = LiaCoupler::new();
    assert_eq!(
        coupler.ack_growth_limit(7, 1_200, &[path(7), unsampled]),
        Ok(LiaDecision {
            growth_limit_bytes: 120,
            alpha_scaled: 512,
            aggregate_window: 12_000,
            acknowledged_path_window: 12_000,
            reference_path_id: 7,
            participating_paths: 1,
        })
    );
    unsampled.bytes_in_flight = 1;
    assert_eq!(
        coupler.ack_growth_limit(7, 1_200, &[path(7), unsampled]),
        Err(MultipathError::InvalidPathState(8))
    );
}
