//! Per-path CUBIC congestion window and integer nanosecond pacer.
//!
//! All state is scalar and all calculations use saturating integer arithmetic. No congestion or
//! pacing operation allocates.

use vstd::prelude::*;

use crate::arith::{
    ceil_div, ceil_div_u128, clip64, clip_u128, max_int, max_u64, min_int, min_u64, wide_product,
};
use crate::recovery::{RttEstimator, RttEstimatorView};
use crate::text::fixed;

verus! {

/// Smallest permitted maximum UDP payload.
pub const MIN_MAX_DATAGRAM_SIZE: u32 = 1_200;

pub const CUBIC_BETA_NUMERATOR: u64 = 7;

pub const CUBIC_BETA_DENOMINATOR: u64 = 10;

pub const CUBIC_C_NUMERATOR: u64 = 2;

pub const CUBIC_C_DENOMINATOR: u64 = 5;

pub const CUBIC_ALPHA_NUMERATOR: u64 = 9;

pub const CUBIC_ALPHA_DENOMINATOR: u64 = 17;

/// One byte in fixed-point credit units.
pub const FIXED_POINT_ONE: u128 = 0x1_0000_0000;

/// One second, cubed, in microseconds.
pub const MICROS_PER_SECOND_CUBED: u128 = 1_000_000_000_000_000_000;

/// Congestion-control or pacing input failure.
#[derive(Clone, Copy, Debug, PartialEq, Eq, Structural)]
pub enum CongestionError {
    InvalidMaxDatagramSize,
    ZeroPacketSize,
    CongestionWindowExceeded,
    AccountingOverflow,
    AcknowledgementExceedsFlight,
    LossExceedsFlight,
    ClockWentBackwards,
    InvalidPacingInput,
}

impl CongestionError {
    /// The diagnostic text of a failure.
    pub open spec fn message_text(self) -> Seq<char> {
        match self {
            CongestionError::InvalidMaxDatagramSize =>
            "maximum datagram size is below 1,200 bytes"@,
            CongestionError::ZeroPacketSize => "cannot send a zero-byte packet"@,
            CongestionError::CongestionWindowExceeded => "congestion window exceeded"@,
            CongestionError::AccountingOverflow => "congestion accounting overflow"@,
            CongestionError::AcknowledgementExceedsFlight =>
            "acknowledgement exceeds bytes in flight"@,
            CongestionError::LossExceedsFlight => "loss exceeds bytes in flight"@,
            CongestionError::ClockWentBackwards => "congestion clock moved backwards"@,
            CongestionError::InvalidPacingInput => "invalid pacing input"@,
        }
    }

    /// Returns the diagnostic text of this failure.
    pub fn message(&self) -> (text: String)
        ensures
            text@ == self.message_text(),
    {
        match *self {
            CongestionError::InvalidMaxDatagramSize => fixed(
                "maximum datagram size is below 1,200 bytes",
            ),
            CongestionError::ZeroPacketSize => fixed("cannot send a zero-byte packet"),
            CongestionError::CongestionWindowExceeded => fixed("congestion window exceeded"),
            CongestionError::AccountingOverflow => fixed("congestion accounting overflow"),
            CongestionError::AcknowledgementExceedsFlight => fixed(
                "acknowledgement exceeds bytes in flight",
            ),
            CongestionError::LossExceedsFlight => fixed("loss exceeds bytes in flight"),
            CongestionError::ClockWentBackwards => fixed("congestion clock moved backwards"),
            CongestionError::InvalidPacingInput => fixed("invalid pacing input"),
        }
    }
}

/// A number clipped to the range of an unsigned 128-bit integer.
pub open spec fn clip128(value: int) -> u128 {
    if value <= 0 {
        0
    } else if value >= u128::MAX {
        u128::MAX
    } else {
        value as u128
    }
}

/// Whole bytes of a fixed-point amount, clipped to 64 bits.
pub open spec fn whole_bytes(amount: u128) -> u64 {
    clip64((amount / FIXED_POINT_ONE) as int)
}

/// A fraction of a byte count, rounded down and clipped to 64 bits.
pub open spec fn ratio(value: u64, numerator: u64, denominator: u64) -> u64 {
    clip64((value * numerator) / (denominator as int))
}

/// The cube of a number.
pub open spec fn cube(value: int) -> int {
    value * value * value
}

/// The value under the cube root of the plateau time.
pub open spec fn plateau_radicand(difference: int, datagram: u32) -> int {
    clip128(difference * CUBIC_C_DENOMINATOR * MICROS_PER_SECOND_CUBED) as int / (datagram
        * CUBIC_C_NUMERATOR)
}

/// Whether `root` is the integer cube root of `value`.
pub open spec fn is_cube_root(value: int, root: int) -> bool {
    &&& 0 <= root
    &&& cube(root) <= value
    &&& value < cube(root + 1)
}

/// The time in microseconds at which the cubic curve reaches its plateau.
pub open spec fn plateau_micros(maximum: u64, epoch: u64, datagram: u32) -> u64 {
    if maximum <= epoch {
        0
    } else {
        choose|root: u64|
            #[trigger] is_cube_root(plateau_radicand(maximum - epoch, datagram), root as int)
    }
}

/// Distance between a point in time and the plateau of the cubic curve, as a window difference.
pub open spec fn cubic_term(distance: int, datagram: u32) -> u64 {
    clip64(
        (datagram * CUBIC_C_NUMERATOR * cube(distance)) / (CUBIC_C_DENOMINATOR
            * MICROS_PER_SECOND_CUBED),
    )
}

/// Immutable configuration for one path's congestion controller.
#[derive(Clone, Copy, Debug, PartialEq, Eq, Structural)]
pub struct CubicConfig {
    max_datagram_size: u32,
    fast_convergence: bool,
}

/// The datagram size and the convergence mode of a path.
pub struct CubicConfigView {
    pub max_datagram_size: u32,
    pub fast_convergence: bool,
}

impl View for CubicConfig {
    type V = CubicConfigView;

    closed spec fn view(&self) -> CubicConfigView {
        CubicConfigView {
            max_datagram_size: self.max_datagram_size,
            fast_convergence: self.fast_convergence,
        }
    }
}

impl CubicConfig {
    #[verifier::type_invariant]
    spec fn size_is_validated(self) -> bool {
        self.max_datagram_size >= MIN_MAX_DATAGRAM_SIZE
    }

    /// Creates a CUBIC configuration for a validated datagram size.
    ///
    /// # Errors
    ///
    /// Returns [`CongestionError::InvalidMaxDatagramSize`] below the baseline of 1,200 bytes.
    pub fn new(max_datagram_size: u32, fast_convergence: bool) -> (config: Result<
        CubicConfig,
        CongestionError,
    >)
        ensures
            match config {
                Ok(config) => max_datagram_size >= MIN_MAX_DATAGRAM_SIZE && config@ == (
                CubicConfigView { max_datagram_size, fast_convergence }),
                Err(error) => max_datagram_size < MIN_MAX_DATAGRAM_SIZE && error
                    == CongestionError::InvalidMaxDatagramSize,
            },
    {
        if max_datagram_size < MIN_MAX_DATAGRAM_SIZE {
            return Err(CongestionError::InvalidMaxDatagramSize);
        }
        Ok(CubicConfig { max_datagram_size, fast_convergence })
    }

    /// Returns the path's current maximum UDP payload size.
    pub fn max_datagram_size(self) -> (size: u32)
        ensures
            size == self@.max_datagram_size,
    {
        self.max_datagram_size
    }

    /// Returns whether fast convergence is enabled.
    pub fn fast_convergence(self) -> (enabled: bool)
        ensures
            enabled == self@.fast_convergence,
    {
        self.fast_convergence
    }
}

impl Default for CubicConfig {
    fn default() -> (config: CubicConfig)
        ensures
            config@ == (CubicConfigView {
                max_datagram_size: MIN_MAX_DATAGRAM_SIZE,
                fast_convergence: true,
            }),
    {
        CubicConfig { max_datagram_size: MIN_MAX_DATAGRAM_SIZE, fast_convergence: true }
    }
}

/// Current congestion-control phase.
#[derive(Clone, Copy, Debug, PartialEq, Eq, Structural)]
pub enum CongestionPhase {
    SlowStart,
    CongestionAvoidance,
}

/// Result of processing one loss signal.
#[derive(Clone, Copy, Debug, PartialEq, Eq, Structural)]
pub struct CongestionEventResult {
    pub window_reduced: bool,
    pub persistent_congestion: bool,
    pub congestion_window: u64,
}

/// Byte-counted CUBIC state for one independently controlled path.
#[derive(Debug)]
pub struct CubicController {
    config: CubicConfig,
    congestion_window: u64,
    slow_start_threshold: u64,
    bytes_in_flight: u64,
    congestion_window_prior: u64,
    maximum_window: u64,
    epoch_started_at_micros: Option<u64>,
    epoch_window: u64,
    estimated_reno_window_fixed: u128,
    cubic_credit_fixed: u128,
    recovery_started_at_micros: Option<u64>,
    application_limited_since_micros: Option<u64>,
    last_event_at_micros: Option<u64>,
}

/// The window, the accounting and the growth epoch of a path.
pub struct CubicState {
    pub config: CubicConfigView,
    pub congestion_window: u64,
    pub slow_start_threshold: u64,
    pub bytes_in_flight: u64,
    pub congestion_window_prior: u64,
    pub maximum_window: u64,
    pub epoch_started_at_micros: Option<u64>,
    pub epoch_window: u64,
    pub estimated_reno_window_fixed: u128,
    pub cubic_credit_fixed: u128,
    pub recovery_started_at_micros: Option<u64>,
    pub application_limited_since_micros: Option<u64>,
    pub last_event_at_micros: Option<u64>,
}

impl CubicState {
    /// The smallest window: two datagrams.
    pub open spec fn floor(self) -> u64 {
        (self.config.max_datagram_size * 2) as u64
    }

    /// The controller's invariant: a validated datagram size, and a window of at least two
    /// datagrams.
    pub open spec fn well_formed(self) -> bool {
        &&& self.config.max_datagram_size >= MIN_MAX_DATAGRAM_SIZE
        &&& self.congestion_window >= self.floor()
    }

    /// Whether the controller is in slow start.
    pub open spec fn in_slow_start(self) -> bool {
        self.congestion_window < self.slow_start_threshold
    }

    /// Whether an event at `now` about a packet sent at `sent_at` is out of order.
    pub open spec fn out_of_order(self, sent_at: u64, now: u64) -> bool {
        ||| sent_at > now
        ||| self.last_event_at_micros matches Some(last) && now < last
    }

    /// Whether a packet was sent before the current recovery epoch began.
    pub open spec fn precedes_recovery(self, sent_at: u64) -> bool {
        self.recovery_started_at_micros matches Some(recovery) && sent_at <= recovery
    }

    /// Window on the cubic curve after `elapsed` microseconds of the epoch.
    pub open spec fn cubic_window(self, elapsed: u64) -> u64 {
        if self.maximum_window == 0 {
            self.congestion_window
        } else {
            let plateau = plateau_micros(
                self.maximum_window,
                self.epoch_window,
                self.config.max_datagram_size,
            );
            if elapsed < plateau {
                clip64(
                    self.maximum_window - cubic_term(
                        plateau - elapsed,
                        self.config.max_datagram_size,
                    ),
                )
            } else {
                clip64(
                    self.maximum_window + cubic_term(
                        elapsed - plateau,
                        self.config.max_datagram_size,
                    ),
                )
            }
        }
    }

    /// The controller at the start of a new growth epoch, unless one is running.
    pub open spec fn with_epoch(self, now: u64) -> CubicState {
        if self.epoch_started_at_micros is None {
            CubicState {
                epoch_started_at_micros: Some(now),
                epoch_window: self.congestion_window,
                estimated_reno_window_fixed: (self.congestion_window * FIXED_POINT_ONE) as u128,
                cubic_credit_fixed: 0,
                ..self
            }
        } else {
            self
        }
    }

    /// The additive-increase estimate after `acknowledged` bytes.
    pub open spec fn reno_estimate(self, acknowledged: u64) -> u128 {
        let window = max_int(self.congestion_window as int, 1);
        let increment = if whole_bytes(self.estimated_reno_window_fixed)
            >= self.congestion_window_prior {
            (acknowledged * self.config.max_datagram_size * FIXED_POINT_ONE) / window
        } else {
            (CUBIC_ALPHA_NUMERATOR * acknowledged * self.config.max_datagram_size * FIXED_POINT_ONE)
                / (CUBIC_ALPHA_DENOMINATOR * window)
        };
        clip128(self.estimated_reno_window_fixed + increment)
    }

    /// The controller after `acknowledged` bytes in congestion avoidance: it follows the additive
    /// estimate while that is ahead of the cubic curve, and otherwise approaches the point of the
    /// curve one RTT ahead, by at most half a window per window.
    pub open spec fn with_cubic_growth(
        self,
        acknowledged: u64,
        now: u64,
        rtt: RttEstimatorView,
    ) -> CubicState {
        let started = self.with_epoch(now);
        let estimated = CubicState {
            estimated_reno_window_fixed: started.reno_estimate(acknowledged),
            ..started
        };
        let elapsed = max_int(now - estimated.epoch_started_at_micros->0, 0) as u64;
        let ahead = clip64(elapsed + rtt.effective_smoothed());
        let reno_window = whole_bytes(estimated.estimated_reno_window_fixed);
        let window = estimated.congestion_window;
        if estimated.cubic_window(elapsed) < reno_window {
            CubicState {
                congestion_window: max_int(window as int, reno_window as int) as u64,
                ..estimated
            }
        } else {
            let upper = clip64(window + window / 2);
            let target = max_int(
                min_int(estimated.cubic_window(ahead) as int, upper as int),
                window as int,
            );
            let increment = (estimated.config.max_datagram_size * (target - window)
                * FIXED_POINT_ONE) / max_int(window as int, 1);
            let credit = clip128(estimated.cubic_credit_fixed + increment);
            CubicState {
                cubic_credit_fixed: credit % FIXED_POINT_ONE,
                congestion_window: clip64(window + whole_bytes(credit)),
                ..estimated
            }
        }
    }

    /// The controller after acknowledged bytes have left the network.
    pub open spec fn with_acknowledgement(
        self,
        acknowledged: u32,
        sent_at: u64,
        now: u64,
        rtt: RttEstimatorView,
    ) -> CubicState {
        let released = CubicState {
            bytes_in_flight: (self.bytes_in_flight - acknowledged) as u64,
            last_event_at_micros: Some(now),
            ..self
        };
        if self.precedes_recovery(sent_at) || self.application_limited_since_micros is Some {
            released
        } else if self.in_slow_start() {
            CubicState {
                congestion_window: clip64(self.congestion_window + acknowledged),
                ..released
            }
        } else {
            released.with_cubic_growth(acknowledged as u64, now, rtt)
        }
    }

    /// The slow-start threshold a loss sets: seven tenths of the flight that the window covers, but
    /// at least two datagrams.
    pub open spec fn reduced_window(self) -> u64 {
        max_int(
            ratio(
                min_int(self.bytes_in_flight as int, self.congestion_window as int) as u64,
                CUBIC_BETA_NUMERATOR,
                CUBIC_BETA_DENOMINATOR,
            ) as int,
            self.floor() as int,
        ) as u64
    }

    /// The controller after lost bytes have left the network.
    pub open spec fn with_loss(
        self,
        lost: u32,
        sent_at: u64,
        now: u64,
        persistent: bool,
    ) -> CubicState {
        let released = CubicState {
            bytes_in_flight: (self.bytes_in_flight - lost) as u64,
            last_event_at_micros: Some(now),
            ..self
        };
        if self.precedes_recovery(sent_at) && !persistent {
            released
        } else {
            let threshold = self.reduced_window();
            let window = if persistent {
                self.floor()
            } else {
                threshold
            };
            CubicState {
                congestion_window_prior: self.congestion_window,
                maximum_window: if self.config.fast_convergence && self.maximum_window != 0
                    && self.congestion_window < self.maximum_window {
                    ratio(self.congestion_window, 17, 20)
                } else {
                    self.congestion_window
                },
                slow_start_threshold: threshold,
                congestion_window: window,
                recovery_started_at_micros: Some(now),
                epoch_started_at_micros: None,
                epoch_window: window,
                estimated_reno_window_fixed: (window * FIXED_POINT_ONE) as u128,
                cubic_credit_fixed: 0,
                ..released
            }
        }
    }
}

impl View for CubicController {
    type V = CubicState;

    closed spec fn view(&self) -> CubicState {
        CubicState {
            config: self.config@,
            congestion_window: self.congestion_window,
            slow_start_threshold: self.slow_start_threshold,
            bytes_in_flight: self.bytes_in_flight,
            congestion_window_prior: self.congestion_window_prior,
            maximum_window: self.maximum_window,
            epoch_started_at_micros: self.epoch_started_at_micros,
            epoch_window: self.epoch_window,
            estimated_reno_window_fixed: self.estimated_reno_window_fixed,
            cubic_credit_fixed: self.cubic_credit_fixed,
            recovery_started_at_micros: self.recovery_started_at_micros,
            application_limited_since_micros: self.application_limited_since_micros,
            last_event_at_micros: self.last_event_at_micros,
        }
    }
}

impl CubicController {
    /// The controller's invariant: a validated datagram size, and a window of at least two
    /// datagrams.
    pub open spec fn well_formed(&self) -> bool {
        self@.well_formed()
    }

    /// Creates a path controller in slow start.
    pub fn new(config: CubicConfig) -> (controller: CubicController)
        ensures
            controller.well_formed(),
            controller@.config == config@,
            controller@.congestion_window == min_int(
                config@.max_datagram_size * 10,
                max_int(config@.max_datagram_size * 2, 14_720),
            ),
            controller@.slow_start_threshold == u64::MAX,
            controller@.bytes_in_flight == 0,
            controller@.congestion_window_prior == controller@.congestion_window,
            controller@.maximum_window == 0,
            controller@.epoch_started_at_micros is None,
            controller@.epoch_window == controller@.congestion_window,
            controller@.estimated_reno_window_fixed == controller@.congestion_window
                * FIXED_POINT_ONE,
            controller@.cubic_credit_fixed == 0,
            controller@.recovery_started_at_micros is None,
            controller@.application_limited_since_micros is None,
            controller@.last_event_at_micros is None,
    {
        proof {
            use_type_invariant(&config);
        }
        let maximum_datagram: u64 = config.max_datagram_size as u64;
        let initial_window: u64 = min_u64(
            maximum_datagram * 10,
            max_u64(maximum_datagram * 2, 14_720),
        );
        CubicController {
            config,
            congestion_window: initial_window,
            slow_start_threshold: u64::MAX,
            bytes_in_flight: 0,
            congestion_window_prior: initial_window,
            maximum_window: 0,
            epoch_started_at_micros: None,
            epoch_window: initial_window,
            estimated_reno_window_fixed: initial_window as u128 * FIXED_POINT_ONE,
            cubic_credit_fixed: 0,
            recovery_started_at_micros: None,
            application_limited_since_micros: None,
            last_event_at_micros: None,
        }
    }

    /// Returns whether a normal congestion-controlled packet can be sent.
    pub fn can_send(&self, encoded_bytes: u32) -> (permitted: bool)
        ensures
            permitted == (self@.bytes_in_flight + encoded_bytes <= self@.congestion_window),
    {
        match self.bytes_in_flight.checked_add(encoded_bytes as u64) {
            Some(next) => next <= self.congestion_window,
            None => false,
        }
    }

    /// Charges one sent packet to bytes in flight.
    ///
    /// PTO probes may temporarily exceed the congestion window but remain charged because they add
    /// network load.
    ///
    /// # Errors
    ///
    /// Returns an error for a zero-size packet, accounting overflow, or a normal send that would
    /// exceed the congestion window. Nothing is charged then.
    pub fn on_packet_sent(&mut self, encoded_bytes: u32, is_pto_probe: bool) -> (outcome: Result<
        (),
        CongestionError,
    >)
        ensures
            ({
                let next = old(self)@.bytes_in_flight + encoded_bytes;
                if encoded_bytes == 0 {
                    &&& outcome == Err::<(), CongestionError>(CongestionError::ZeroPacketSize)
                    &&& final(self)@ == old(self)@
                } else if next > u64::MAX {
                    &&& outcome == Err::<(), CongestionError>(CongestionError::AccountingOverflow)
                    &&& final(self)@ == old(self)@
                } else if !is_pto_probe && next > old(self)@.congestion_window {
                    &&& outcome == Err::<(), CongestionError>(
                        CongestionError::CongestionWindowExceeded,
                    )
                    &&& final(self)@ == old(self)@
                } else {
                    &&& outcome == Ok::<(), CongestionError>(())
                    &&& final(self)@ == (CubicState {
                        bytes_in_flight: next as u64,
                        ..old(self)@
                    })
                }
            }),
    {
        if encoded_bytes == 0 {
            return Err(CongestionError::ZeroPacketSize);
        }
        let next: u64 = match self.bytes_in_flight.checked_add(encoded_bytes as u64) {
            Some(next) => next,
            None => {
                return Err(CongestionError::AccountingOverflow);
            },
        };
        if !is_pto_probe && next > self.congestion_window {
            return Err(CongestionError::CongestionWindowExceeded);
        }
        self.bytes_in_flight = next;
        Ok(())
    }

    /// Releases acknowledged bytes and grows the window when eligible.
    ///
    /// Packets sent before the current recovery epoch release accounting but do not grow the
    /// window. Application-limited periods also suppress growth.
    ///
    /// # Errors
    ///
    /// Returns an error for clock regression, an impossible acknowledgement, or an acknowledgement
    /// timestamp preceding the packet send time. Nothing changes then.
    pub fn on_packet_acknowledged(
        &mut self,
        acknowledged_bytes: u32,
        packet_sent_at_micros: u64,
        now_micros: u64,
        rtt: RttEstimator,
    ) -> (outcome: Result<(), CongestionError>)
        requires
            old(self).well_formed(),
        ensures
            final(self).well_formed(),
            if old(self)@.out_of_order(packet_sent_at_micros, now_micros) {
                &&& outcome == Err::<(), CongestionError>(CongestionError::ClockWentBackwards)
                &&& final(self)@ == old(self)@
            } else if acknowledged_bytes == 0 || acknowledged_bytes > old(self)@.bytes_in_flight {
                &&& outcome == Err::<(), CongestionError>(
                    CongestionError::AcknowledgementExceedsFlight,
                )
                &&& final(self)@ == old(self)@
            } else {
                &&& outcome == Ok::<(), CongestionError>(())
                &&& final(self)@ == old(self)@.with_acknowledgement(
                    acknowledged_bytes,
                    packet_sent_at_micros,
                    now_micros,
                    rtt@,
                )
            },
    {
        if self.is_out_of_order(packet_sent_at_micros, now_micros) {
            return Err(CongestionError::ClockWentBackwards);
        }
        let acknowledged: u64 = acknowledged_bytes as u64;
        if acknowledged == 0 || acknowledged > self.bytes_in_flight {
            return Err(CongestionError::AcknowledgementExceedsFlight);
        }
        self.bytes_in_flight = self.bytes_in_flight - acknowledged;
        self.last_event_at_micros = Some(now_micros);
        if self.sent_before_recovery(packet_sent_at_micros)
            || self.application_limited_since_micros.is_some() {
            return Ok(());
        }
        if self.congestion_window < self.slow_start_threshold {
            self.congestion_window = self.congestion_window.saturating_add(acknowledged);
        } else {
            self.grow_cubic(acknowledged, now_micros, rtt);
        }
        Ok(())
    }

    /// Releases lost bytes and applies at most one reduction per recovery epoch.
    ///
    /// Persistent congestion always collapses the window to two datagrams.
    ///
    /// # Errors
    ///
    /// Returns an error for clock regression or loss accounting larger than bytes in flight.
    /// Nothing changes then.
    pub fn on_packet_lost(
        &mut self,
        lost_bytes: u32,
        packet_sent_at_micros: u64,
        now_micros: u64,
        persistent_congestion: bool,
    ) -> (outcome: Result<CongestionEventResult, CongestionError>)
        requires
            old(self).well_formed(),
        ensures
            final(self).well_formed(),
            if old(self)@.out_of_order(packet_sent_at_micros, now_micros) {
                &&& outcome == Err::<CongestionEventResult, CongestionError>(
                    CongestionError::ClockWentBackwards,
                )
                &&& final(self)@ == old(self)@
            } else if lost_bytes == 0 || lost_bytes > old(self)@.bytes_in_flight {
                &&& outcome == Err::<CongestionEventResult, CongestionError>(
                    CongestionError::LossExceedsFlight,
                )
                &&& final(self)@ == old(self)@
            } else {
                let reduced = persistent_congestion || !old(self)@.precedes_recovery(
                    packet_sent_at_micros,
                );
                &&& final(self)@ == old(self)@.with_loss(
                    lost_bytes,
                    packet_sent_at_micros,
                    now_micros,
                    persistent_congestion,
                )
                &&& outcome == Ok::<CongestionEventResult, CongestionError>(
                    CongestionEventResult {
                        window_reduced: reduced,
                        persistent_congestion: reduced && persistent_congestion,
                        congestion_window: final(self)@.congestion_window,
                    },
                )
            },
    {
        if self.is_out_of_order(packet_sent_at_micros, now_micros) {
            return Err(CongestionError::ClockWentBackwards);
        }
        let lost: u64 = lost_bytes as u64;
        if lost == 0 || lost > self.bytes_in_flight {
            return Err(CongestionError::LossExceedsFlight);
        }
        let flight_before_loss: u64 = self.bytes_in_flight;
        self.bytes_in_flight = self.bytes_in_flight - lost;
        self.last_event_at_micros = Some(now_micros);
        if self.sent_before_recovery(packet_sent_at_micros) && !persistent_congestion {
            return Ok(self.event_result(false, false));
        }
        self.congestion_window_prior = self.congestion_window;
        self.maximum_window =
        if self.config.fast_convergence && self.maximum_window != 0 && self.congestion_window
            < self.maximum_window {
            mul_ratio(self.congestion_window, 17, 20)
        } else {
            self.congestion_window
        };
        let validated_flight: u64 = min_u64(flight_before_loss, self.congestion_window);
        self.slow_start_threshold =
        max_u64(
            mul_ratio(validated_flight, CUBIC_BETA_NUMERATOR, CUBIC_BETA_DENOMINATOR),
            self.minimum_window(),
        );
        self.congestion_window =
        if persistent_congestion {
            self.minimum_window()
        } else {
            self.slow_start_threshold
        };
        self.recovery_started_at_micros = Some(now_micros);
        self.reset_epoch();
        Ok(self.event_result(true, persistent_congestion))
    }

    /// Starts or ends an application-limited period.
    ///
    /// Paused time is excluded from the CUBIC epoch.
    ///
    /// # Errors
    ///
    /// Returns [`CongestionError::ClockWentBackwards`] when time regresses. Nothing changes then.
    pub fn set_application_limited(&mut self, now_micros: u64, limited: bool) -> (outcome: Result<
        (),
        CongestionError,
    >)
        ensures
            old(self).well_formed() ==> final(self).well_formed(),
            if (old(self)@.last_event_at_micros matches Some(last) && now_micros < last) || (
            !limited && (old(self)@.application_limited_since_micros matches Some(started) && now_micros
                < started)) {
                &&& outcome == Err::<(), CongestionError>(CongestionError::ClockWentBackwards)
                &&& final(self)@ == old(self)@
            } else {
                &&& outcome == Ok::<(), CongestionError>(())
                &&& final(self)@ == (CubicState {
                    last_event_at_micros: Some(now_micros),
                    application_limited_since_micros: if !limited {
                        None
                    } else if old(self)@.application_limited_since_micros is Some {
                        old(self)@.application_limited_since_micros
                    } else {
                        Some(now_micros)
                    },
                    epoch_started_at_micros: match (
                        old(self)@.epoch_started_at_micros,
                        old(self)@.application_limited_since_micros,
                    ) {
                        (Some(epoch), Some(started)) => if limited {
                            Some(epoch)
                        } else {
                            Some(clip64(epoch + (now_micros - started)))
                        },
                        (epoch, _) => epoch,
                    },
                    ..old(self)@
                })
            },
    {
        match self.last_event_at_micros {
            Some(last) => {
                if now_micros < last {
                    return Err(CongestionError::ClockWentBackwards);
                }
            },
            None => {},
        }
        match (limited, self.application_limited_since_micros) {
            (true, None) => {
                self.application_limited_since_micros = Some(now_micros);
            },
            (false, Some(started)) => {
                if now_micros < started {
                    return Err(CongestionError::ClockWentBackwards);
                }
                match self.epoch_started_at_micros {
                    Some(epoch) => {
                        self.epoch_started_at_micros = Some(
                            epoch.saturating_add(now_micros - started),
                        );
                    },
                    None => {},
                }
                self.application_limited_since_micros = None;
            },
            _ => {},
        }
        self.last_event_at_micros = Some(now_micros);
        Ok(())
    }

    /// Returns the current controller phase.
    pub fn phase(&self) -> (phase: CongestionPhase)
        ensures
            phase == if self@.in_slow_start() {
                CongestionPhase::SlowStart
            } else {
                CongestionPhase::CongestionAvoidance
            },
    {
        if self.congestion_window < self.slow_start_threshold {
            CongestionPhase::SlowStart
        } else {
            CongestionPhase::CongestionAvoidance
        }
    }

    /// Returns the current congestion window in bytes.
    pub fn congestion_window(&self) -> (bytes: u64)
        ensures
            bytes == self@.congestion_window,
    {
        self.congestion_window
    }

    /// Returns the slow-start threshold in bytes.
    pub fn slow_start_threshold(&self) -> (bytes: u64)
        ensures
            bytes == self@.slow_start_threshold,
    {
        self.slow_start_threshold
    }

    /// Returns current congestion-controlled bytes in flight.
    pub fn bytes_in_flight(&self) -> (bytes: u64)
        ensures
            bytes == self@.bytes_in_flight,
    {
        self.bytes_in_flight
    }

    /// Returns currently available normal-send capacity.
    pub fn available_window(&self) -> (bytes: u64)
        ensures
            bytes == max_int(self@.congestion_window - self@.bytes_in_flight, 0),
    {
        self.congestion_window.saturating_sub(self.bytes_in_flight)
    }

    /// Returns the minimum two-datagram congestion window.
    pub fn minimum_window(&self) -> (bytes: u64)
        ensures
            bytes == self@.floor(),
    {
        self.config.max_datagram_size as u64 * 2
    }

    fn grow_cubic(&mut self, acknowledged: u64, now_micros: u64, rtt: RttEstimator)
        requires
            acknowledged <= u32::MAX,
            old(self).well_formed(),
        ensures
            final(self)@ == old(self)@.with_cubic_growth(acknowledged, now_micros, rtt@),
            final(self)@.congestion_window >= old(self)@.congestion_window,
    {
        if self.epoch_started_at_micros.is_none() {
            self.epoch_started_at_micros = Some(now_micros);
            self.epoch_window = self.congestion_window;
            self.estimated_reno_window_fixed = self.congestion_window as u128 * FIXED_POINT_ONE;
            self.cubic_credit_fixed = 0;
        }
        self.update_reno_estimate(acknowledged);
        let epoch: u64 = match self.epoch_started_at_micros {
            Some(epoch) => epoch,
            None => now_micros,
        };
        let elapsed: u64 = now_micros.saturating_sub(epoch);
        let smoothed_rtt: u64 = rtt.effective_smoothed_rtt_micros();
        let cubic_now: u64 = self.cubic_window_at(elapsed);
        let cubic_after_rtt: u64 = self.cubic_window_at(elapsed.saturating_add(smoothed_rtt));
        let reno_window: u64 = fixed_to_u64(self.estimated_reno_window_fixed);
        if cubic_now < reno_window {
            self.congestion_window = max_u64(self.congestion_window, reno_window);
            return;
        }
        let window: u64 = self.congestion_window;
        let upper: u64 = window.saturating_add(window / 2);
        let target: u64 = max_u64(min_u64(cubic_after_rtt, upper), window);
        let difference: u64 = target - window;
        let datagram: u64 = self.config.max_datagram_size as u64;
        let scaled: u128 = wide_product(datagram, difference);
        assert(scaled <= 0xffff_ffff * 0xffff_ffff_ffff_ffff) by (nonlinear_arith)
            requires
                scaled == datagram * difference,
                datagram <= 0xffff_ffff,
                difference <= 0xffff_ffff_ffff_ffff,
        ;
        let increment_fixed: u128 = scaled * FIXED_POINT_ONE / max_u64(window, 1) as u128;
        let credit: u128 = self.cubic_credit_fixed.saturating_add(increment_fixed);
        self.cubic_credit_fixed = credit % FIXED_POINT_ONE;
        self.congestion_window = window.saturating_add(fixed_to_u64(credit));
    }

    fn update_reno_estimate(&mut self, acknowledged: u64)
        requires
            acknowledged <= u32::MAX,
        ensures
            final(self)@ == (CubicState {
                estimated_reno_window_fixed: old(self)@.reno_estimate(acknowledged),
                ..old(self)@
            }),
    {
        let current_estimate: u64 = fixed_to_u64(self.estimated_reno_window_fixed);
        let datagram: u64 = self.config.max_datagram_size as u64;
        let base: u64 = max_u64(self.congestion_window, 1);
        let window: u128 = base as u128;
        let product: u128 = wide_product(acknowledged, datagram);
        assert(product <= 0xffff_ffff * 0xffff_ffff) by (nonlinear_arith)
            requires
                product == acknowledged * datagram,
                acknowledged <= 0xffff_ffff,
                datagram <= 0xffff_ffff,
        ;
        let increment: u128 = if current_estimate >= self.congestion_window_prior {
            product * FIXED_POINT_ONE / window
        } else {
            assert(CUBIC_ALPHA_NUMERATOR * acknowledged * datagram == product
                * CUBIC_ALPHA_NUMERATOR) by (nonlinear_arith)
                requires
                    product == acknowledged * datagram,
            ;
            let divisor: u128 = wide_product(CUBIC_ALPHA_DENOMINATOR, base);
            assert(divisor > 0) by (nonlinear_arith)
                requires
                    divisor == CUBIC_ALPHA_DENOMINATOR * window,
                    window >= 1,
            ;
            product * CUBIC_ALPHA_NUMERATOR as u128 * FIXED_POINT_ONE / divisor
        };
        self.estimated_reno_window_fixed =
        self.estimated_reno_window_fixed.saturating_add(increment);
    }

    fn cubic_window_at(&self, elapsed_micros: u64) -> (window: u64)
        requires
            self@.config.max_datagram_size > 0,
        ensures
            window == self@.cubic_window(elapsed_micros),
    {
        if self.maximum_window == 0 {
            return self.congestion_window;
        }
        let plateau: u64 = cubic_k_micros(
            self.maximum_window,
            self.epoch_window,
            self.config.max_datagram_size,
        );
        if elapsed_micros < plateau {
            let term: u64 = cubic_distance(
                plateau - elapsed_micros,
                self.config.max_datagram_size,
            );
            self.maximum_window.saturating_sub(term)
        } else {
            let term: u64 = cubic_distance(
                elapsed_micros - plateau,
                self.config.max_datagram_size,
            );
            self.maximum_window.saturating_add(term)
        }
    }

    fn is_out_of_order(&self, packet_sent_at_micros: u64, now_micros: u64) -> (regressed: bool)
        ensures
            regressed == self@.out_of_order(packet_sent_at_micros, now_micros),
    {
        let regressed: bool = match self.last_event_at_micros {
            Some(last) => now_micros < last,
            None => false,
        };
        packet_sent_at_micros > now_micros || regressed
    }

    fn sent_before_recovery(&self, packet_sent_at_micros: u64) -> (before: bool)
        ensures
            before == self@.precedes_recovery(packet_sent_at_micros),
    {
        match self.recovery_started_at_micros {
            Some(recovery) => packet_sent_at_micros <= recovery,
            None => false,
        }
    }

    fn reset_epoch(&mut self)
        ensures
            final(self)@ == (CubicState {
                epoch_started_at_micros: None,
                epoch_window: old(self)@.congestion_window,
                estimated_reno_window_fixed: (old(self)@.congestion_window
                    * FIXED_POINT_ONE) as u128,
                cubic_credit_fixed: 0,
                ..old(self)@
            }),
    {
        self.epoch_started_at_micros = None;
        self.epoch_window = self.congestion_window;
        self.estimated_reno_window_fixed = self.congestion_window as u128 * FIXED_POINT_ONE;
        self.cubic_credit_fixed = 0;
    }

    fn event_result(&self, window_reduced: bool, persistent_congestion: bool) -> (result:
        CongestionEventResult)
        ensures
            result == (CongestionEventResult {
                window_reduced,
                persistent_congestion,
                congestion_window: self@.congestion_window,
            }),
    {
        CongestionEventResult {
            window_reduced,
            persistent_congestion,
            congestion_window: self.congestion_window,
        }
    }
}

/// At most one reduction per recovery epoch: a loss of a packet that was sent before the epoch
/// began releases its bytes and changes nothing else about the window.
pub proof fn lemma_one_reduction_per_epoch(
    controller: CubicState,
    lost: u32,
    sent_at: u64,
    now: u64,
)
    requires
        controller.precedes_recovery(sent_at),
    ensures
        controller.with_loss(lost, sent_at, now, false).congestion_window
            == controller.congestion_window,
        controller.with_loss(lost, sent_at, now, false).slow_start_threshold
            == controller.slow_start_threshold,
        controller.with_loss(lost, sent_at, now, false).recovery_started_at_micros
            == controller.recovery_started_at_micros,
{
}

/// Right after a reduction at `now`, further losses of packets sent up to then reduce nothing.
pub proof fn lemma_reduction_opens_an_epoch(
    controller: CubicState,
    lost: u32,
    sent_at: u64,
    now: u64,
    later_sent_at: u64,
)
    requires
        !controller.precedes_recovery(sent_at),
        later_sent_at <= now,
    ensures
        controller.with_loss(lost, sent_at, now, false).precedes_recovery(later_sent_at),
{
}

/// Persistent congestion collapses the window to two datagrams.
pub proof fn lemma_persistent_congestion_collapses(
    controller: CubicState,
    lost: u32,
    sent_at: u64,
    now: u64,
)
    ensures
        controller.with_loss(lost, sent_at, now, true).congestion_window == controller.floor(),
{
}

/// A window in congestion avoidance grows by at most half of itself beyond the additive estimate,
/// per full window of acknowledged datagrams: one acknowledgement adds at most the retained credit
/// and half a datagram, or moves to the additive estimate.
pub proof fn lemma_growth_is_bounded(
    controller: CubicState,
    acknowledged: u64,
    now: u64,
    rtt: RttEstimatorView,
)
    requires
        controller.well_formed(),
        controller.cubic_credit_fixed < FIXED_POINT_ONE,
    ensures
        ({
            let grown = controller.with_cubic_growth(acknowledged, now, rtt);
            ||| grown.congestion_window <= max_int(
                controller.congestion_window as int,
                whole_bytes(grown.estimated_reno_window_fixed) as int,
            )
            ||| grown.congestion_window <= controller.congestion_window
                + controller.config.max_datagram_size / 2 + 1
        }),
{
    let started = controller.with_epoch(now);
    let estimated = CubicState {
        estimated_reno_window_fixed: started.reno_estimate(acknowledged),
        ..started
    };
    let elapsed = max_int(now - estimated.epoch_started_at_micros->0, 0) as u64;
    let ahead = clip64(elapsed + rtt.effective_smoothed());
    let window = estimated.congestion_window as int;
    let upper = clip64(window + window / 2);
    let target = max_int(min_int(estimated.cubic_window(ahead) as int, upper as int), window);
    let datagram = estimated.config.max_datagram_size as int;
    let difference = target - window;
    assert(0 <= difference <= window / 2);
    let increment = (datagram * difference * FIXED_POINT_ONE) / max_int(window, 1);
    assert(0 <= increment <= datagram * FIXED_POINT_ONE / 2) by (nonlinear_arith)
        requires
            increment == (datagram * difference * FIXED_POINT_ONE) / max_int(window, 1),
            0 <= difference <= window / 2,
            window >= 1,
            datagram >= 0,
    {
        let numerator = datagram * difference * FIXED_POINT_ONE;
        assert(0 <= datagram * difference);
        assert(2 * (datagram * difference) <= datagram * window);
        assert(2 * numerator <= datagram * FIXED_POINT_ONE * window);
        assert(numerator >= 0);
        assert(increment * window <= numerator);
        assert(2 * increment * window <= datagram * FIXED_POINT_ONE * window);
        assert(2 * increment <= datagram * FIXED_POINT_ONE);
        assert(increment >= 0);
    }
    let credit = clip128(estimated.cubic_credit_fixed + increment);
    assert(credit <= FIXED_POINT_ONE - 1 + datagram * FIXED_POINT_ONE / 2);
    assert(credit / FIXED_POINT_ONE <= datagram / 2 + 1);
}

/// One deterministic pacing decision.
#[derive(Clone, Copy, Debug, PartialEq, Eq, Structural)]
pub struct PacingDecision {
    pub send_at_nanos: u64,
    pub queue_delay_nanos: u64,
    pub next_send_at_nanos: u64,
}

/// Scalar nanosecond pacer for individual datagrams or GSO batches.
#[derive(Clone, Copy, Debug, PartialEq, Eq, Structural)]
pub struct Pacer {
    next_send_at_nanos: u64,
}

/// The pacing state of a path.
pub struct PacerView {
    pub next_send_at_nanos: u64,
}

impl View for Pacer {
    type V = PacerView;

    closed spec fn view(&self) -> PacerView {
        PacerView { next_send_at_nanos: self.next_send_at_nanos }
    }
}

/// Time between departures: the RTT's share of the bytes in the window, stretched by the inverse of
/// the pacing gain, rounded up, at least one nanosecond.
pub open spec fn departure_spacing(
    bytes: u32,
    window: u64,
    rtt_micros: u64,
    phase: CongestionPhase,
) -> u64 {
    let nanos = bytes * rtt_micros * 1_000;
    clip64(
        max_int(
            match phase {
                CongestionPhase::SlowStart => ceil_div(nanos * 4, window * 5),
                CongestionPhase::CongestionAvoidance => ceil_div(nanos, window as int),
            },
            1,
        ),
    )
}

impl PacerView {
    /// Departure of bytes that are scheduled at `now`.
    pub open spec fn departure(self, now: u64) -> u64 {
        max_int(now as int, self.next_send_at_nanos as int) as u64
    }

    /// The pacer after bytes that need `spacing` were scheduled at `now`.
    pub open spec fn scheduled(self, now: u64, spacing: u64) -> PacerView {
        PacerView { next_send_at_nanos: clip64(self.departure(now) + spacing) }
    }
}

impl Pacer {
    /// Schedules bytes according to the current congestion window and RTT.
    ///
    /// Slow start uses a 5/4 pacing gain; congestion avoidance uses unity.
    ///
    /// # Errors
    ///
    /// Returns an error for zero bytes, zero window, or zero RTT.
    pub fn schedule(
        &mut self,
        now_nanos: u64,
        scheduled_bytes: u32,
        congestion_window: u64,
        smoothed_rtt_micros: u64,
        phase: CongestionPhase,
    ) -> (outcome: Result<PacingDecision, CongestionError>)
        ensures
            if scheduled_bytes == 0 || congestion_window == 0 || smoothed_rtt_micros == 0 {
                &&& outcome == Err::<PacingDecision, CongestionError>(
                    CongestionError::InvalidPacingInput,
                )
                &&& final(self)@ == old(self)@
            } else {
                let spacing = departure_spacing(
                    scheduled_bytes,
                    congestion_window,
                    smoothed_rtt_micros,
                    phase,
                );
                &&& outcome == Ok::<PacingDecision, CongestionError>(
                    PacingDecision {
                        send_at_nanos: old(self)@.departure(now_nanos),
                        queue_delay_nanos: (old(self)@.departure(now_nanos) - now_nanos) as u64,
                        next_send_at_nanos: final(self)@.next_send_at_nanos,
                    },
                )
                &&& final(self)@ == old(self)@.scheduled(now_nanos, spacing)
            },
    {
        if scheduled_bytes == 0 || congestion_window == 0 || smoothed_rtt_micros == 0 {
            return Err(CongestionError::InvalidPacingInput);
        }
        let product: u128 = wide_product(scheduled_bytes as u64, smoothed_rtt_micros);
        assert(product <= 0xffff_ffff * 0xffff_ffff_ffff_ffff) by (nonlinear_arith)
            requires
                product == scheduled_bytes * smoothed_rtt_micros,
                scheduled_bytes <= 0xffff_ffff,
                smoothed_rtt_micros <= 0xffff_ffff_ffff_ffff,
        ;
        let nanos: u128 = product * 1_000;
        let exact: u128 = match phase {
            CongestionPhase::SlowStart => ceil_div_u128(nanos * 4, congestion_window as u128 * 5),
            CongestionPhase::CongestionAvoidance => ceil_div_u128(nanos, congestion_window as u128),
        };
        let spacing: u64 = clip_u128(
            if exact >= 1 {
                exact
            } else {
                1
            },
        );
        let send_at_nanos: u64 = max_u64(now_nanos, self.next_send_at_nanos);
        self.next_send_at_nanos = send_at_nanos.saturating_add(spacing);
        Ok(
            PacingDecision {
                send_at_nanos,
                queue_delay_nanos: send_at_nanos - now_nanos,
                next_send_at_nanos: self.next_send_at_nanos,
            },
        )
    }

    /// Clears queued pacing delay after path reset or retirement.
    pub fn reset(&mut self, now_nanos: u64)
        ensures
            final(self)@.next_send_at_nanos == now_nanos,
    {
        self.next_send_at_nanos = now_nanos;
    }

    /// Returns the next scheduled departure time.
    pub fn next_send_at_nanos(self) -> (nanos: u64)
        ensures
            nanos == self@.next_send_at_nanos,
    {
        self.next_send_at_nanos
    }
}

/// Departures keep their distance: bytes never leave before they are scheduled, and what is
/// scheduled next, whenever that is, leaves no earlier than the spacing of the bytes before it.
/// Only a departure beyond the end of the clock comes at its last instant instead.
pub proof fn lemma_departures_are_spaced(pacer: PacerView, now: u64, spacing: u64, later: u64)
    ensures
        pacer.departure(now) >= now,
        pacer.departure(now) >= pacer.next_send_at_nanos,
        pacer.departure(now) + spacing <= u64::MAX ==> pacer.scheduled(now, spacing).departure(
            later,
        ) >= pacer.departure(now) + spacing,
        pacer.departure(now) + spacing > u64::MAX ==> pacer.scheduled(now, spacing).departure(later)
            == u64::MAX,
{
}

impl Default for Pacer {
    fn default() -> (pacer: Pacer)
        ensures
            pacer@.next_send_at_nanos == 0,
    {
        Pacer { next_send_at_nanos: 0 }
    }
}

fn mul_ratio(value: u64, numerator: u64, denominator: u64) -> (scaled: u64)
    requires
        denominator > 0,
    ensures
        scaled == ratio(value, numerator, denominator),
{
    clip_u128(wide_product(value, numerator) / denominator as u128)
}

fn fixed_to_u64(value: u128) -> (bytes: u64)
    ensures
        bytes == whole_bytes(value),
{
    clip_u128(value / FIXED_POINT_ONE)
}

/// Window difference of a point on the cubic curve `distance` microseconds from its plateau.
fn cubic_distance(distance: u64, datagram: u32) -> (term: u64)
    requires
        datagram > 0,
    ensures
        term == cubic_term(distance as int, datagram),
{
    let square: u128 = wide_product(distance, distance);
    let factor: u128 = (datagram as u64 * CUBIC_C_NUMERATOR) as u128;
    let divisor: u128 = 5 * MICROS_PER_SECOND_CUBED;
    assert(divisor == CUBIC_C_DENOMINATOR * MICROS_PER_SECOND_CUBED);
    let ghost exact = datagram * CUBIC_C_NUMERATOR * cube(distance as int);
    assert(exact == factor * (square * distance)) by (nonlinear_arith)
        requires
            square == distance * distance,
            factor == datagram * CUBIC_C_NUMERATOR,
            exact == datagram * CUBIC_C_NUMERATOR * (distance * distance * distance),
    ;
    match square.checked_mul(distance as u128) {
        None => {
            assert(exact > u128::MAX) by (nonlinear_arith)
                requires
                    exact == factor * (square * distance),
                    factor >= 1,
                    square * distance > u128::MAX,
            ;
            assert(exact / (divisor as int) >= u64::MAX);
            u64::MAX
        },
        Some(third) => match factor.checked_mul(third) {
            None => {
                assert(exact / (divisor as int) >= u64::MAX);
                u64::MAX
            },
            Some(numerator) => clip_u128(numerator / divisor),
        },
    }
}

fn cubic_k_micros(maximum_window: u64, epoch_window: u64, maximum_datagram: u32) -> (micros: u64)
    requires
        maximum_datagram > 0,
    ensures
        micros == plateau_micros(maximum_window, epoch_window, maximum_datagram),
{
    let difference: u64 = maximum_window.saturating_sub(epoch_window);
    if difference == 0 {
        return 0;
    }
    let scaled: u128 = wide_product(difference, CUBIC_C_DENOMINATOR);
    let product: u128 = match scaled.checked_mul(MICROS_PER_SECOND_CUBED) {
        Some(product) => product,
        None => u128::MAX,
    };
    let radicand: u128 = product / (maximum_datagram as u128 * CUBIC_C_NUMERATOR as u128);
    let root: u64 = integer_cube_root(radicand);
    proof {
        assert(radicand == plateau_radicand(maximum_window - epoch_window, maximum_datagram));
        assert(is_cube_root(radicand as int, root as int));
        let chosen = plateau_micros(maximum_window, epoch_window, maximum_datagram);
        lemma_cube_root_unique(radicand as int, root as int, chosen as int);
    }
    root
}

proof fn lemma_cube_monotonic(low: int, high: int)
    requires
        0 <= low <= high,
    ensures
        0 <= cube(low) <= cube(high),
{
    assert(0 <= low * low <= high * high) by (nonlinear_arith)
        requires
            0 <= low <= high,
    ;
    let a = low * low;
    let b = high * high;
    assert(0 <= a * low <= b * high) by (nonlinear_arith)
        requires
            0 <= a <= b,
            0 <= low <= high,
    ;
}

/// A number has one integer cube root.
pub proof fn lemma_cube_root_unique(value: int, left: int, right: int)
    requires
        is_cube_root(value, left),
        is_cube_root(value, right),
    ensures
        left == right,
{
    if left < right {
        lemma_cube_monotonic(left + 1, right);
    }
    if right < left {
        lemma_cube_monotonic(right + 1, left);
    }
}

proof fn lemma_division_test(value: int, middle: int)
    requires
        0 <= value,
        0 < middle,
    ensures
        (middle <= value / middle && middle <= value / middle / middle) == (cube(middle) <= value),
{
    let quotient = value / middle;
    assert(middle <= quotient <==> middle * middle <= value) by (nonlinear_arith)
        requires
            quotient == value / middle,
            0 < middle,
            0 <= value,
    ;
    assert(quotient / middle >= middle <==> middle * middle <= quotient) by (nonlinear_arith)
        requires
            0 < middle,
            0 <= quotient,
    ;
    let square = middle * middle;
    assert(square <= quotient <==> square * middle <= value) by (nonlinear_arith)
        requires
            quotient == value / middle,
            0 < middle,
            0 <= value,
    ;
    assert(square >= middle && square * middle >= square) by (nonlinear_arith)
        requires
            square == middle * middle,
            1 <= middle,
    ;
}

/// Returns the integer cube root of a number.
pub fn integer_cube_root(value: u128) -> (root: u64)
    ensures
        is_cube_root(value as int, root as int),
{
    let mut low: u64 = 0;
    let mut high: u64 = min_u64(0x800_0000_0000, clip_u128(value));
    proof {
        assert(cube(high + 1) > value) by {
            if high == 0x800_0000_0000 {
                lemma_cube_monotonic(0x800_0000_0000, 0x800_0000_0001);
                assert(cube(0x800_0000_0000) > u128::MAX) by (nonlinear_arith);
            } else {
                let next = high + 1;
                assert(next * next * next >= next) by (nonlinear_arith)
                    requires
                        next >= 1,
                ;
            }
        }
    }
    while low < high
        invariant
            low <= high <= 0x800_0000_0000,
            cube(low as int) <= value,
            cube(high + 1) > value,
        decreases high - low,
    {
        let distance: u64 = high - low;
        let middle: u64 = low + (distance / 2 + distance % 2);
        let wide: u128 = middle as u128;
        proof {
            lemma_division_test(value as int, middle as int);
        }
        let fits: bool = wide <= value / wide && wide <= value / wide / wide;
        if fits {
            low = middle;
        } else {
            high = middle - 1;
        }
    }
    low
}

} // verus!
