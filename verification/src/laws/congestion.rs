//! Laws of congestion control and pacing on one path.

use vstd::prelude::*;

use crate::congestion::{
    cube, cubic_term, is_cube_root, lemma_cube_root_unique, plateau_micros, plateau_radicand,
    CongestionError, CongestionEventResult, CongestionPhase, CubicConfig, CubicController,
    CubicState, Pacer, PacingDecision,
};
use crate::recovery::{RttEstimator, RttEstimatorView};

verus! {

/// A configuration keeps what it was made with, and a datagram size below 1,200 bytes is refused.
pub proof fn lemma_configuration_needs_a_baseline_datagram(
    size: u32,
    fast_convergence: bool,
    config: Result<CubicConfig, CongestionError>,
)
    requires
        call_ensures(CubicConfig::new, (size, fast_convergence), config),
    ensures
        config is Ok <==> size >= 1_200,
        config matches Ok(config) ==> config@.max_datagram_size == size
            && config@.fast_convergence == fast_convergence,
{
}

/// Without a configuration, datagrams have the baseline size and convergence is fast.
pub proof fn lemma_default_configuration(config: CubicConfig)
    requires
        call_ensures(<CubicConfig as Default>::default, (), config),
    ensures
        config@.max_datagram_size == 1_200,
        config@.fast_convergence,
{
}

/// A new path starts in slow start with ten datagrams, but with no more than 14,720 bytes unless
/// two datagrams are larger, and with nothing in flight.
pub proof fn lemma_paths_start_with_the_initial_window(
    config: CubicConfig,
    controller: CubicController,
)
    requires
        call_ensures(CubicController::new, (config,), controller),
    ensures
        ({
            let size = config@.max_datagram_size as int;
            let state = controller@;
            &&& state.config == config@
            &&& state.congestion_window <= 10 * size
            &&& state.congestion_window <= 14_720 || state.congestion_window <= 2 * size
            &&& state.congestion_window == 10 * size || state.congestion_window == 14_720
                || state.congestion_window == 2 * size
            &&& state.congestion_window >= 2 * size
            &&& state.slow_start_threshold == u64::MAX
            &&& state.bytes_in_flight == 0
            &&& state.application_limited_since_micros is None
            &&& state.recovery_started_at_micros is None
            &&& state.epoch_started_at_micros is None
            &&& state.last_event_at_micros is None
            &&& state.maximum_window == 0
            &&& state.congestion_window_prior == state.congestion_window
        }),
{
}

/// A packet may be sent while it fits the window behind what is in flight. Probes may exceed the
/// window, and both are charged in full.
pub proof fn lemma_sending_is_charged_to_the_flight(
    bytes: u32,
    probe: bool,
    outcome: Result<(), CongestionError>,
)
    ensures
        forall|controller: &mut CubicController| #[trigger]
            call_ensures(CubicController::on_packet_sent, (controller, bytes, probe), outcome) ==> {
                let before = controller@;
                let after = final(controller)@;
                let flight = before.bytes_in_flight + bytes;
                &&& outcome is Ok <==> bytes > 0 && flight <= u64::MAX && (probe || flight
                    <= before.congestion_window)
                &&& outcome is Ok ==> after == (CubicState {
                    bytes_in_flight: flight as u64,
                    ..before
                })
                &&& outcome is Err ==> after == before
                &&& outcome matches Err(error) ==> {
                    &&& error is ZeroPacketSize <==> bytes == 0
                    &&& error is AccountingOverflow <==> flight > u64::MAX
                    &&& error is CongestionWindowExceeded <==> bytes > 0 && flight <= u64::MAX
                }
            },
{
}

/// What the getters report: the phase, the room for a packet, the room left and the smallest
/// window.
pub proof fn lemma_window_reports_agree(
    controller: &CubicController,
    bytes: u32,
    permitted: bool,
    phase: CongestionPhase,
    available: u64,
    minimum: u64,
)
    requires
        call_ensures(CubicController::can_send, (controller, bytes), permitted),
        call_ensures(CubicController::phase, (controller,), phase),
        call_ensures(CubicController::available_window, (controller,), available),
        call_ensures(CubicController::minimum_window, (controller,), minimum),
    ensures
        ({
            let state = controller@;
            &&& phase is SlowStart <==> state.congestion_window < state.slow_start_threshold
            &&& permitted <==> state.bytes_in_flight + bytes <= state.congestion_window
            &&& state.bytes_in_flight <= state.congestion_window ==> state.bytes_in_flight
                + available == state.congestion_window
            &&& state.bytes_in_flight > state.congestion_window ==> available == 0
            &&& minimum == 2 * state.config.max_datagram_size
        }),
{
}

/// An acknowledgement releases exactly its bytes. It is refused if the clock runs backwards or if
/// it covers no bytes or more than are in flight. A packet that was sent up to the start of the
/// current recovery epoch, and any packet of an application-limited period, grows no window. In
/// slow start the window grows by the acknowledged bytes. The window never shrinks, and nothing but
/// the window and its growth epoch changes besides the flight.
pub proof fn lemma_acknowledgement_grows_the_window(
    bytes: u32,
    sent_at: u64,
    now: u64,
    rtt: RttEstimator,
    outcome: Result<(), CongestionError>,
)
    ensures
        forall|controller: &mut CubicController|
            controller.well_formed() && #[trigger] call_ensures(
                CubicController::on_packet_acknowledged,
                (controller, bytes, sent_at, now, rtt),
                outcome,
            ) ==> {
                let before = controller@;
                let after = final(controller)@;
                &&& outcome is Ok <==> {
                    &&& sent_at <= now
                    &&& before.last_event_at_micros matches Some(last) ==> last <= now
                    &&& 0 < bytes <= before.bytes_in_flight
                }
                &&& outcome is Err ==> after == before
                &&& outcome matches Err(error) ==> {
                    let late = sent_at > now || (before.last_event_at_micros matches Some(last)
                        && now < last);
                    &&& error is ClockWentBackwards <==> late
                    &&& error is AcknowledgementExceedsFlight <==> !late
                }
                &&& outcome is Ok ==> {
                    let held = (before.recovery_started_at_micros matches Some(recovery) && sent_at
                        <= recovery) || before.application_limited_since_micros is Some;
                    let grown = before.congestion_window + bytes;
                    &&& after.bytes_in_flight + bytes == before.bytes_in_flight
                    &&& after.last_event_at_micros == Some(now)
                    &&& after.slow_start_threshold == before.slow_start_threshold
                    &&& after.maximum_window == before.maximum_window
                    &&& after.recovery_started_at_micros == before.recovery_started_at_micros
                    &&& after.application_limited_since_micros
                        == before.application_limited_since_micros
                    &&& after.config == before.config
                    &&& after.congestion_window >= before.congestion_window
                    &&& after.congestion_window_prior == before.congestion_window_prior
                    &&& held || before.congestion_window < before.slow_start_threshold ==> {
                        &&& after.epoch_started_at_micros == before.epoch_started_at_micros
                        &&& after.epoch_window == before.epoch_window
                        &&& after.estimated_reno_window_fixed == before.estimated_reno_window_fixed
                        &&& after.cubic_credit_fixed == before.cubic_credit_fixed
                    }
                    &&& held ==> after.congestion_window == before.congestion_window
                    &&& !held && before.congestion_window < before.slow_start_threshold ==> {
                        &&& grown <= u64::MAX ==> after.congestion_window == grown
                        &&& grown > u64::MAX ==> after.congestion_window == u64::MAX
                    }
                    &&& !held && before.congestion_window >= before.slow_start_threshold ==> {
                        &&& before.epoch_started_at_micros is Some ==> after.epoch_started_at_micros
                            == before.epoch_started_at_micros && after.epoch_window
                            == before.epoch_window
                        &&& before.epoch_started_at_micros is None ==> after.epoch_started_at_micros
                            == Some(now) && after.epoch_window == before.congestion_window
                    }
                }
            },
{
}

/// A loss releases exactly its bytes. It reduces the window unless it belongs to the current
/// recovery epoch, and persistent congestion reduces it in any case. The threshold becomes seven
/// tenths of the flight that the window covered, but at least two datagrams, and the window follows
/// it, or falls to two datagrams under persistent congestion. The window before the loss is
/// remembered as the plateau, lowered to 17 twentieths where fast convergence finds it below the
/// one before.
pub proof fn lemma_loss_reduces_the_window_once_per_epoch(
    bytes: u32,
    sent_at: u64,
    now: u64,
    persistent: bool,
    outcome: Result<CongestionEventResult, CongestionError>,
)
    ensures
        forall|controller: &mut CubicController|
            controller.well_formed() && #[trigger] call_ensures(
                CubicController::on_packet_lost,
                (controller, bytes, sent_at, now, persistent),
                outcome,
            ) ==> {
                let before = controller@;
                let after = final(controller)@;
                let floor = 2 * before.config.max_datagram_size;
                let flight = if before.bytes_in_flight < before.congestion_window {
                    before.bytes_in_flight as int
                } else {
                    before.congestion_window as int
                };
                &&& outcome is Ok <==> {
                    &&& sent_at <= now
                    &&& before.last_event_at_micros matches Some(last) ==> last <= now
                    &&& 0 < bytes <= before.bytes_in_flight
                }
                &&& outcome is Err ==> after == before
                &&& outcome matches Err(error) ==> {
                    let late = sent_at > now || (before.last_event_at_micros matches Some(last)
                        && now < last);
                    &&& error is ClockWentBackwards <==> late
                    &&& error is LossExceedsFlight <==> !late
                }
                &&& outcome matches Ok(result) ==> {
                    let reduced = persistent || !(before.recovery_started_at_micros matches Some(
                        recovery,
                    ) && sent_at <= recovery);
                    &&& after.bytes_in_flight + bytes == before.bytes_in_flight
                    &&& after.last_event_at_micros == Some(now)
                    &&& result.window_reduced == reduced
                    &&& result.persistent_congestion == persistent
                    &&& result.congestion_window == after.congestion_window
                    &&& !reduced ==> {
                        &&& after.congestion_window == before.congestion_window
                        &&& after.slow_start_threshold == before.slow_start_threshold
                        &&& after.maximum_window == before.maximum_window
                        &&& after.recovery_started_at_micros == before.recovery_started_at_micros
                        &&& after.epoch_started_at_micros == before.epoch_started_at_micros
                        &&& after.epoch_window == before.epoch_window
                        &&& after.congestion_window_prior == before.congestion_window_prior
                        &&& after.estimated_reno_window_fixed == before.estimated_reno_window_fixed
                        &&& after.cubic_credit_fixed == before.cubic_credit_fixed
                    }
                    &&& after.config == before.config
                    &&& after.application_limited_since_micros
                        == before.application_limited_since_micros
                    &&& reduced ==> {
                        let threshold = after.slow_start_threshold as int;
                        let lowered = before.config.fast_convergence && before.maximum_window > 0
                            && before.congestion_window < before.maximum_window;
                        &&& threshold >= floor
                        &&& 10 * threshold <= 7 * flight || threshold == floor
                        &&& 7 * flight < 10 * (threshold + 1)
                        &&& after.congestion_window == if persistent {
                            floor
                        } else {
                            threshold
                        }
                        &&& after.recovery_started_at_micros == Some(now)
                        &&& after.epoch_started_at_micros is None
                        &&& after.congestion_window_prior == before.congestion_window
                        &&& !lowered ==> after.maximum_window == before.congestion_window
                        &&& lowered ==> 20 * after.maximum_window <= 17 * before.congestion_window
                            < 20 * (after.maximum_window + 1)
                    }
                }
            },
{
}

/// The plateau of the cubic curve: the last microsecond at which the curve, drawn from the epoch's
/// window, has not passed the window before the loss. It satisfies
/// `2 * datagram * K^3 <= 5 * 10^18 * (maximum - epoch) < 2 * datagram * (K + 1)^3`, and it is
/// the start of the epoch where that window is not below the maximum.
pub open spec fn reaches_plateau_at(state: CubicState, plateau: int) -> bool {
    let missing = if state.epoch_window < state.maximum_window {
        state.maximum_window - state.epoch_window
    } else {
        0
    };
    let datagram = state.config.max_datagram_size;
    &&& 0 <= plateau
    &&& 2 * datagram * (plateau * plateau * plateau) <= 5_000_000_000_000_000_000 * missing
    &&& 5_000_000_000_000_000_000 * missing < 2 * datagram * ((plateau + 1) * (plateau + 1) * (
    plateau + 1))
}

/// The cubic curve has a plateau, and only one.
pub proof fn lemma_curve_has_one_plateau(state: CubicState) -> (plateau: int)
    requires
        state.config.max_datagram_size > 0,
    ensures
        reaches_plateau_at(state, plateau),
        plateau <= u64::MAX,
        forall|other: int| #[trigger] reaches_plateau_at(state, other) ==> other == plateau,
{
    let datagram = state.config.max_datagram_size as int;
    let missing = if state.epoch_window < state.maximum_window {
        state.maximum_window - state.epoch_window
    } else {
        0
    };
    let radicand = 5_000_000_000_000_000_000 * missing / (2 * datagram);
    lemma_quotient_brackets(5_000_000_000_000_000_000 * missing, 2 * datagram);
    assert(radicand >= 0);
    assert(radicand <= 5_000_000_000_000_000_000 * missing) by (nonlinear_arith)
        requires
            radicand * (2 * datagram) <= 5_000_000_000_000_000_000 * missing,
            radicand >= 0,
            datagram > 0,
    ;
    let high = 10_000_000_000_000int;
    assert(cube(high + 1) > radicand) by (nonlinear_arith)
        requires
            high == 10_000_000_000_000int,
            cube(high + 1) == (high + 1) * (high + 1) * (high + 1),
            radicand <= 5_000_000_000_000_000_000 * missing,
            missing <= 0xffff_ffff_ffff_ffff,
    ;
    let plateau = lemma_cube_root_below(radicand, high);
    assert forall|time: int| 0 <= time implies #[trigger] is_cube_root(radicand, time)
        == reaches_plateau_at(state, time) by {
        lemma_plateau_is_a_cube_root(state, time);
    }
    assert(reaches_plateau_at(state, plateau));
    assert forall|other: int| #[trigger] reaches_plateau_at(state, other) implies other
        == plateau by {
        assert(is_cube_root(radicand, other));
        lemma_cube_root_unique(radicand, other, plateau);
    }
    plateau
}

proof fn lemma_quotient_brackets(dividend: int, divisor: int)
    requires
        0 <= dividend,
        0 < divisor,
    ensures
        0 <= dividend / divisor,
        dividend / divisor * divisor <= dividend,
        dividend < (dividend / divisor + 1) * divisor,
{
    vstd::arithmetic::div_mod::lemma_fundamental_div_mod(dividend, divisor);
    vstd::arithmetic::div_mod::lemma_div_pos_is_pos(dividend, divisor);
    let whole = dividend / divisor;
    assert((whole + 1) * divisor == whole * divisor + divisor) by (nonlinear_arith);
    assert(divisor * whole == whole * divisor) by (nonlinear_arith);
}

proof fn lemma_cube_root_below(value: int, high: int) -> (root: int)
    requires
        0 <= value,
        0 <= high,
        value < cube(high + 1),
    ensures
        0 <= root <= high,
        is_cube_root(value, root),
    decreases high,
{
    if cube(high) <= value {
        high
    } else {
        assert(cube(0) == 0);
        lemma_cube_root_below(value, high - 1)
    }
}

proof fn lemma_plateau_is_a_cube_root(state: CubicState, time: int)
    requires
        state.config.max_datagram_size > 0,
        0 <= time,
    ensures
        ({
            let missing = if state.epoch_window < state.maximum_window {
                state.maximum_window - state.epoch_window
            } else {
                0
            };
            is_cube_root(
                5_000_000_000_000_000_000 * missing / (2 * state.config.max_datagram_size),
                time,
            ) == reaches_plateau_at(state, time)
        }),
{
    let divisor = 2 * state.config.max_datagram_size;
    let missing = if state.epoch_window < state.maximum_window {
        state.maximum_window - state.epoch_window
    } else {
        0
    };
    let amount = 5_000_000_000_000_000_000 * missing;
    lemma_quotient_brackets(amount, divisor);
    let quotient = amount / divisor;
    lemma_multiple_fits(amount, divisor, quotient, cube(time));
    lemma_multiple_fits(amount, divisor, quotient, cube(time + 1));
}

proof fn lemma_multiple_fits(amount: int, divisor: int, quotient: int, count: int)
    requires
        0 < divisor,
        quotient * divisor <= amount < (quotient + 1) * divisor,
    ensures
        count <= quotient <==> divisor * count <= amount,
{
    if count <= quotient {
        assert(divisor * count <= quotient * divisor) by (nonlinear_arith)
            requires
                count <= quotient,
                0 < divisor,
        ;
    } else {
        assert((quotient + 1) * divisor <= divisor * count) by (nonlinear_arith)
            requires
                quotient + 1 <= count,
                0 < divisor,
        ;
    }
}

/// What the cubic curve is worth around its plateau `K`: `d` microseconds before it the window is
/// `2 * datagram * d^3 / (5 * 10^18)` below the maximum, and `d` microseconds after it that much
/// above, in whole bytes, until the window runs out or is full.
pub proof fn lemma_curve_is_a_cubic_about_its_plateau(
    state: CubicState,
    plateau: int,
    distance: int,
)
    requires
        state.config.max_datagram_size > 0,
        state.maximum_window > 0,
        reaches_plateau_at(state, plateau),
        0 <= distance,
    ensures
        ({
            let maximum = state.maximum_window as int;
            let gap = 2 * state.config.max_datagram_size * (distance * distance * distance);
            let unit = 5_000_000_000_000_000_000int;
            &&& distance <= plateau ==> {
                let below = maximum - state.cubic_window((plateau - distance) as u64);
                &&& 0 <= below <= maximum
                &&& unit * below <= gap
                &&& gap < unit * (below + 1) || below == maximum
            }
            &&& plateau + distance <= u64::MAX ==> {
                let above = state.cubic_window((plateau + distance) as u64) - maximum;
                &&& 0 <= above <= u64::MAX - maximum
                &&& unit * above <= gap
                &&& gap < unit * (above + 1) || maximum + above == u64::MAX
            }
        }),
{
    lemma_plateau_is_named(state, plateau);
    let datagram = state.config.max_datagram_size;
    let unit = 5_000_000_000_000_000_000int;
    let gap = 2 * datagram * (distance * distance * distance);
    assert(gap >= 0) by (nonlinear_arith)
        requires
            gap == 2 * datagram * (distance * distance * distance),
            0 <= distance,
            0 <= datagram,
    ;
    assert(datagram * 2 * cube(distance) == gap);
    lemma_quotient_brackets(gap, unit);
    if distance == 0 {
        assert(gap == 0) by (nonlinear_arith)
            requires
                gap == 2 * datagram * (distance * distance * distance),
                distance == 0,
        ;
    }
}

proof fn lemma_plateau_is_named(state: CubicState, plateau: int)
    requires
        state.config.max_datagram_size > 0,
        reaches_plateau_at(state, plateau),
    ensures
        plateau == plateau_micros(
            state.maximum_window,
            state.epoch_window,
            state.config.max_datagram_size,
        ),
{
    let found = lemma_curve_has_one_plateau(state);
    assert(found == plateau);
    let datagram = state.config.max_datagram_size;
    lemma_plateau_is_a_cube_root(state, plateau);
    if state.maximum_window <= state.epoch_window {
        if plateau >= 1 {
            assert(2 * datagram * (plateau * plateau * plateau) > 0) by (nonlinear_arith)
                requires
                    datagram > 0,
                    plateau >= 1,
            ;
        }
    } else {
        let radicand = plateau_radicand(state.maximum_window - state.epoch_window, datagram);
        assert(is_cube_root(radicand, (plateau as u64) as int));
        let chosen = plateau_micros(state.maximum_window, state.epoch_window, datagram);
        lemma_cube_root_unique(radicand, plateau, chosen as int);
    }
}

/// The cubic curve never falls: a later point of the epoch has no smaller window.
pub proof fn lemma_curve_never_falls(state: CubicState, earlier: u64, later: u64)
    requires
        state.config.max_datagram_size > 0,
        earlier <= later,
    ensures
        state.cubic_window(earlier) <= state.cubic_window(later),
{
    let plateau = lemma_curve_has_one_plateau(state);
    lemma_plateau_is_named(state, plateau);
    let datagram = state.config.max_datagram_size;
    if later < plateau {
        lemma_term_grows(plateau - later, plateau - earlier, datagram);
    } else if plateau <= earlier {
        lemma_term_grows(earlier - plateau, later - plateau, datagram);
    } else {
        lemma_term_grows(0, plateau - earlier, datagram);
        lemma_term_grows(0, later - plateau, datagram);
    }
}

proof fn lemma_term_grows(near: int, far: int, datagram: u32)
    requires
        0 <= near <= far,
    ensures
        cubic_term(near, datagram) <= cubic_term(far, datagram),
{
    let small = near * near;
    let large = far * far;
    assert(0 <= small <= large) by (nonlinear_arith)
        requires
            small == near * near,
            large == far * far,
            0 <= near <= far,
    ;
    assert(0 <= small * near <= large * far) by (nonlinear_arith)
        requires
            0 <= small <= large,
            0 <= near <= far,
    ;
    assert(datagram * 2 * cube(near) <= datagram * 2 * cube(far)) by (nonlinear_arith)
        requires
            cube(near) <= cube(far),
            0 <= datagram,
    ;
    vstd::arithmetic::div_mod::lemma_div_is_ordered(
        datagram * 2 * cube(near),
        datagram * 2 * cube(far),
        5_000_000_000_000_000_000,
    );
}

/// The cubic curve is symmetric about its plateau: it falls short of the maximum as far before the
/// plateau as it exceeds it after, as long as neither side runs out.
pub proof fn lemma_curve_is_symmetric(state: CubicState, plateau: int, distance: int)
    requires
        state.config.max_datagram_size > 0,
        state.maximum_window > 0,
        reaches_plateau_at(state, plateau),
        0 <= distance <= plateau,
        plateau + distance <= u64::MAX,
        state.cubic_window((plateau - distance) as u64) > 0,
        state.cubic_window((plateau + distance) as u64) < u64::MAX,
    ensures
        state.maximum_window - state.cubic_window((plateau - distance) as u64)
            == state.cubic_window((plateau + distance) as u64) - state.maximum_window,
{
    lemma_curve_is_a_cubic_about_its_plateau(state, plateau, distance);
}

/// The cubic curve meets the maximum at its plateau, and stays within a byte of it while
/// `2 * datagram * d^3` is below `5 * 10^18`.
pub proof fn lemma_curve_flattens_at_its_plateau(state: CubicState, plateau: int, distance: int)
    requires
        state.config.max_datagram_size > 0,
        state.maximum_window > 0,
        reaches_plateau_at(state, plateau),
        0 <= distance,
        2 * state.config.max_datagram_size * (distance * distance * distance)
            < 5_000_000_000_000_000_000,
    ensures
        plateau <= u64::MAX && state.cubic_window(plateau as u64) == state.maximum_window,
        distance <= plateau ==> state.cubic_window((plateau - distance) as u64)
            == state.maximum_window,
        plateau + distance <= u64::MAX ==> state.cubic_window((plateau + distance) as u64)
            == state.maximum_window,
{
    lemma_plateau_is_named(state, plateau);
    lemma_curve_is_a_cubic_about_its_plateau(state, plateau, distance);
    lemma_curve_is_a_cubic_about_its_plateau(state, plateau, 0);
}

/// The cubic curve starts from the window of its epoch: it is never below that window, nor below
/// the maximum where the epoch began above it, and without a maximum it is the current window.
pub proof fn lemma_curve_starts_at_the_epoch_window(state: CubicState, elapsed: u64)
    requires
        state.config.max_datagram_size > 0,
    ensures
        state.maximum_window == 0 ==> state.cubic_window(elapsed) == state.congestion_window,
        0 < state.maximum_window <= state.epoch_window ==> state.cubic_window(elapsed)
            >= state.maximum_window,
        0 < state.maximum_window && state.epoch_window <= state.maximum_window
            ==> state.cubic_window(elapsed) >= state.epoch_window,
{
    if state.maximum_window > 0 {
        let plateau = lemma_curve_has_one_plateau(state);
        lemma_plateau_is_named(state, plateau);
        lemma_curve_is_a_cubic_about_its_plateau(state, plateau, plateau);
        lemma_curve_never_falls(state, 0, elapsed);
    }
}

/// How the additive estimate, in 2^32nds of a byte, takes in acknowledged bytes.
pub open spec fn estimate_takes_in(before: CubicState, after: CubicState, bytes: u32) -> bool {
    let one = 0x1_0000_0000int;
    let window = before.congestion_window as int;
    let share = bytes * before.config.max_datagram_size * one;
    let estimate = if before.epoch_started_at_micros is None {
        window * one
    } else {
        before.estimated_reno_window_fixed as int
    };
    let gained = after.estimated_reno_window_fixed - estimate;
    if estimate / one >= before.congestion_window_prior {
        gained * window <= share < (gained + 1) * window
    } else {
        gained * (17 * window) <= 9 * share < (gained + 1) * (17 * window)
    }
}

/// How far into its growth epoch a path is at `now`. The epoch begins with the first
/// acknowledgement.
pub open spec fn epoch_age(before: CubicState, now: u64) -> u64 {
    match before.epoch_started_at_micros {
        Some(started) => if started <= now {
            (now - started) as u64
        } else {
            0
        },
        None => 0,
    }
}

/// How a window moves towards the value `ahead` of the curve: by the share that one datagram has of
/// the window, counted in 2^32nds of a byte, of the way there or to half a window more.
pub open spec fn window_moves_towards(before: CubicState, after: CubicState, ahead: int) -> bool {
    let one = 0x1_0000_0000int;
    let window = before.congestion_window as int;
    let credit = if before.epoch_started_at_micros is None {
        0
    } else {
        before.cubic_credit_fixed as int
    };
    let way = if ahead <= window {
        0
    } else if ahead <= window + window / 2 {
        ahead - window
    } else {
        window / 2
    };
    let moved = (after.congestion_window - window) * one + after.cubic_credit_fixed - credit;
    &&& after.cubic_credit_fixed < one
    &&& moved * window <= before.config.max_datagram_size * way * one < (moved + 1) * window
}

/// In congestion avoidance the window follows the additive estimate where that is ahead of the
/// curve. Otherwise it moves towards the point of the curve one RTT ahead, at most half a window
/// away: an acknowledgement moves it by the share that one datagram has of the window, and the
/// fraction of a byte that is left over is kept for the next one. The additive estimate grows by
/// the acknowledged share of a datagram, and by nine seventeenths of it until it has reached the
/// window before the loss.
pub proof fn lemma_avoidance_follows_the_curve(
    bytes: u32,
    sent_at: u64,
    now: u64,
    rtt: RttEstimator,
)
    ensures
        forall|controller: &mut CubicController|
            controller.well_formed() && #[trigger] call_ensures(
                CubicController::on_packet_acknowledged,
                (controller, bytes, sent_at, now, rtt),
                Ok(()),
            ) && !(controller@.recovery_started_at_micros matches Some(recovery) && sent_at
                <= recovery) && controller@.application_limited_since_micros is None
                && controller@.congestion_window >= controller@.slow_start_threshold ==> {
                let before = controller@;
                let after = final(controller)@;
                let window = before.congestion_window;
                let curve = CubicState { congestion_window: window, ..after };
                let estimate = after.estimated_reno_window_fixed / 0x1_0000_0000;
                let age = epoch_age(before, now);
                let ahead = age + match rtt@.smoothed_rtt_micros {
                    Some(smoothed) => smoothed,
                    None => rtt@.config.initial_rtt_micros,
                };
                &&& after.estimated_reno_window_fixed < u128::MAX ==> estimate_takes_in(
                    before,
                    after,
                    bytes,
                )
                &&& curve.cubic_window(age) < estimate <= u64::MAX ==> after.congestion_window
                    == if estimate >= window {
                    estimate as u64
                } else {
                    window
                }
                &&& curve.cubic_window(age) >= estimate && ahead <= u64::MAX
                    && after.congestion_window < u64::MAX ==> window_moves_towards(
                    before,
                    after,
                    curve.cubic_window(ahead as u64) as int,
                )
            },
{
    assert forall|controller: &mut CubicController|
        controller.well_formed() && #[trigger] call_ensures(
            CubicController::on_packet_acknowledged,
            (controller, bytes, sent_at, now, rtt),
            Ok(()),
        ) && !(controller@.recovery_started_at_micros matches Some(recovery) && sent_at
            <= recovery) && controller@.application_limited_since_micros is None
            && controller@.congestion_window >= controller@.slow_start_threshold implies {
        let before = controller@;
        let after = final(controller)@;
        let curve = CubicState { congestion_window: before.congestion_window, ..after };
        let estimate = after.estimated_reno_window_fixed / 0x1_0000_0000;
        let age = epoch_age(before, now);
        let ahead = age + match rtt@.smoothed_rtt_micros {
            Some(smoothed) => smoothed,
            None => rtt@.config.initial_rtt_micros,
        };
        &&& after.estimated_reno_window_fixed < u128::MAX ==> estimate_takes_in(
            before,
            after,
            bytes,
        )
        &&& curve.cubic_window(age) >= estimate && ahead <= u64::MAX && after.congestion_window
            < u64::MAX ==> window_moves_towards(
            before,
            after,
            curve.cubic_window(ahead as u64) as int,
        )
    } by {
        let before = controller@;
        let after = final(controller)@;
        lemma_estimate_takes_in(before, bytes, sent_at, now, rtt@);
        lemma_window_moves_towards(before, bytes, sent_at, now, rtt@);
    }
}

proof fn lemma_estimate_takes_in(
    before: CubicState,
    bytes: u32,
    sent_at: u64,
    now: u64,
    rtt: RttEstimatorView,
)
    requires
        before.well_formed(),
        !before.precedes_recovery(sent_at),
        before.application_limited_since_micros is None,
        !before.in_slow_start(),
        0 < bytes <= before.bytes_in_flight,
    ensures
        ({
            let after = before.with_acknowledgement(bytes, sent_at, now, rtt);
            after.estimated_reno_window_fixed < u128::MAX ==> estimate_takes_in(
                before,
                after,
                bytes,
            )
        }),
{
    let one = 0x1_0000_0000int;
    let window = before.congestion_window as int;
    let share = bytes * before.config.max_datagram_size * one;
    assert(share >= 0) by (nonlinear_arith)
        requires
            share == bytes * before.config.max_datagram_size * one,
            one == 0x1_0000_0000int,
    ;
    let size = before.config.max_datagram_size;
    assert(9 * bytes * size * one == 9 * share) by (nonlinear_arith)
        requires
            share == bytes * size * one,
    ;
    lemma_quotient_brackets(share, window);
    lemma_quotient_brackets(9 * share, 17 * window);
    assert(before.epoch_started_at_micros is None ==> window * one <= u128::MAX);
}

proof fn lemma_window_moves_towards(
    before: CubicState,
    bytes: u32,
    sent_at: u64,
    now: u64,
    rtt: RttEstimatorView,
)
    requires
        before.well_formed(),
        !before.precedes_recovery(sent_at),
        before.application_limited_since_micros is None,
        !before.in_slow_start(),
        0 < bytes <= before.bytes_in_flight,
    ensures
        ({
            let after = before.with_acknowledgement(bytes, sent_at, now, rtt);
            let curve = CubicState { congestion_window: before.congestion_window, ..after };
            let estimate = after.estimated_reno_window_fixed / 0x1_0000_0000;
            let age = epoch_age(before, now);
            let ahead = age + rtt.effective_smoothed();
            curve.cubic_window(age) >= estimate && ahead <= u64::MAX && after.congestion_window
                < u64::MAX ==> window_moves_towards(
                before,
                after,
                curve.cubic_window(ahead as u64) as int,
            )
        }),
{
    let one = 0x1_0000_0000int;
    let window = before.congestion_window as int;
    let size = before.config.max_datagram_size as int;
    let after = before.with_acknowledgement(bytes, sent_at, now, rtt);
    let curve = CubicState { congestion_window: before.congestion_window, ..after };
    let ahead = epoch_age(before, now) + rtt.effective_smoothed();
    if ahead <= u64::MAX {
        let value = curve.cubic_window(ahead as u64) as int;
        let way = if value <= window {
            0
        } else if value <= window + window / 2 {
            value - window
        } else {
            window / 2
        };
        assert(size * way * one >= 0) by (nonlinear_arith)
            requires
                size >= 0,
                way >= 0,
                one == 0x1_0000_0000int,
        ;
        lemma_quotient_brackets(size * way * one, window);
    }
}

/// An application-limited period begins at its first report and ends with the next report to the
/// contrary. The growth epoch is then moved by the length of the period, and nothing else changes.
pub proof fn lemma_paused_time_is_not_growth_time(
    now: u64,
    limited: bool,
    outcome: Result<(), CongestionError>,
)
    ensures
        forall|controller: &mut CubicController| #[trigger]
            call_ensures(
                CubicController::set_application_limited,
                (controller, now, limited),
                outcome,
            ) ==> {
                let before = controller@;
                let after = final(controller)@;
                let since = before.application_limited_since_micros;
                &&& outcome is Err <==> {
                    ||| before.last_event_at_micros matches Some(last) && now < last
                    ||| !limited && (since matches Some(start) && now < start)
                }
                &&& outcome is Err ==> after == before
                &&& after.congestion_window == before.congestion_window
                &&& after.bytes_in_flight == before.bytes_in_flight
                &&& after.slow_start_threshold == before.slow_start_threshold
                &&& outcome is Ok ==> {
                    &&& after.last_event_at_micros == Some(now)
                    &&& limited && since is None ==> after.application_limited_since_micros == Some(
                        now,
                    )
                    &&& limited && since is Some ==> after.application_limited_since_micros == since
                    &&& !limited ==> after.application_limited_since_micros is None
                    &&& limited || since is None || before.epoch_started_at_micros is None
                        ==> after.epoch_started_at_micros == before.epoch_started_at_micros
                    &&& !limited && since is Some && before.epoch_started_at_micros is Some ==> {
                        let moved = before.epoch_started_at_micros->0 + (now - since->0);
                        &&& moved <= u64::MAX ==> after.epoch_started_at_micros == Some(
                            moved as u64,
                        )
                        &&& moved > u64::MAX ==> after.epoch_started_at_micros == Some(u64::MAX)
                    }
                    &&& after == (CubicState {
                        application_limited_since_micros: after.application_limited_since_micros,
                        epoch_started_at_micros: after.epoch_started_at_micros,
                        last_event_at_micros: Some(now),
                        ..before
                    })
                }
            },
{
}

/// A new pacer holds nothing back, and a reset pacer holds bytes back until the given time.
pub proof fn lemma_pacers_start_at_their_reset(fresh: Pacer, now: u64)
    requires
        call_ensures(<Pacer as Default>::default, (), fresh),
    ensures
        fresh@.next_send_at_nanos == 0,
        forall|pacer: &mut Pacer| #[trigger]
            call_ensures(Pacer::reset, (pacer, now), ()) ==> final(pacer)@.next_send_at_nanos
                == now,
{
}

/// Bytes leave when the bytes before them have had their share of the RTT. The share is the RTT
/// times the bytes over the window, shortened to four fifths in slow start, rounded up to whole
/// nanoseconds, and at least one.
pub proof fn lemma_pacing_spreads_the_window_over_the_rtt(
    now: u64,
    bytes: u32,
    window: u64,
    rtt_micros: u64,
    phase: CongestionPhase,
    outcome: Result<PacingDecision, CongestionError>,
)
    ensures
        forall|pacer: &mut Pacer| #[trigger]
            call_ensures(Pacer::schedule, (pacer, now, bytes, window, rtt_micros, phase), outcome)
                ==> {
                let before = pacer@;
                let after = final(pacer)@;
                &&& outcome is Ok <==> bytes > 0 && window > 0 && rtt_micros > 0
                &&& outcome is Err ==> after == before
                &&& outcome matches Ok(decision) ==> {
                    let spacing = decision.next_send_at_nanos - decision.send_at_nanos;
                    let nanos = bytes * rtt_micros * 1_000;
                    let (work, share) = if phase is SlowStart {
                        (nanos * 4, window * 5)
                    } else {
                        (nanos, window as int)
                    };
                    &&& decision.send_at_nanos >= now
                    &&& decision.send_at_nanos >= before.next_send_at_nanos
                    &&& decision.send_at_nanos == now || decision.send_at_nanos
                        == before.next_send_at_nanos
                    &&& decision.queue_delay_nanos == decision.send_at_nanos - now
                    &&& after.next_send_at_nanos == decision.next_send_at_nanos
                    &&& decision.next_send_at_nanos < u64::MAX ==> spacing >= 1 && spacing * share
                        >= work
                    &&& spacing > 1 ==> (spacing - 1) * share < work
                }
            },
{
    let nanos = bytes * rtt_micros * 1_000;
    assert(nanos >= 0) by (nonlinear_arith)
        requires
            nanos == bytes * rtt_micros * 1_000,
    ;
    let (work, share) = if phase is SlowStart {
        (nanos * 4, window * 5)
    } else {
        (nanos, window as int)
    };
    if window > 0 {
        lemma_ceil_div_brackets(work, share);
        let quotient = crate::arith::ceil_div(work, share);
        assert forall|spacing: int| 1 < spacing <= quotient implies #[trigger] ((spacing - 1)
            * share) < work by {
            assert((spacing - 1) * share <= (quotient - 1) * share) by (nonlinear_arith)
                requires
                    spacing <= quotient,
                    0 < share,
            ;
        }
        assert(quotient == 0 ==> quotient * share == 0) by (nonlinear_arith);
    }
}

proof fn lemma_ceil_div_brackets(dividend: int, divisor: int)
    requires
        0 <= dividend,
        0 < divisor,
    ensures
        ({
            let quotient = crate::arith::ceil_div(dividend, divisor);
            &&& quotient >= 0
            &&& quotient * divisor >= dividend
            &&& quotient > 0 ==> (quotient - 1) * divisor < dividend
        }),
{
    let whole = dividend / divisor;
    let rest = dividend % divisor;
    vstd::arithmetic::div_mod::lemma_fundamental_div_mod(dividend, divisor);
    vstd::arithmetic::div_mod::lemma_div_pos_is_pos(dividend, divisor);
    assert((whole + 1) * divisor == whole * divisor + divisor) by (nonlinear_arith);
    assert((whole - 1) * divisor == whole * divisor - divisor) by (nonlinear_arith);
    assert(divisor * whole == whole * divisor) by (nonlinear_arith);
}

} // verus!
