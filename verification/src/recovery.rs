//! Fixed-capacity loss recovery for one network path.

use vstd::prelude::*;

use crate::arith::{
    ceil_div, ceil_div_u128, clip64, clip_u128, max_int, max_u64, min_int, min_u64,
    saturating_product, wide_product,
};
use crate::protection::MAX_PACKET_NUMBER;
use crate::text::{decimal, fixed, with_number, with_two_numbers};
use crate::wire::ack::AckFrame;
use crate::wire::DataMetadata;

verus! {

/// Packet-number distance that declares an older packet lost.
pub const PACKET_LOSS_THRESHOLD: u64 = 3;

/// Numerator of the RTT-relative loss-time threshold.
pub const TIME_LOSS_THRESHOLD_NUMERATOR: u64 = 9;

/// Denominator of the RTT-relative loss-time threshold.
pub const TIME_LOSS_THRESHOLD_DENOMINATOR: u64 = 8;

/// Timer granularity used by loss and probe timeout calculations.
pub const TIMER_GRANULARITY_MICROS: u64 = 1_000;

/// Initial RTT used before the first valid sample.
pub const DEFAULT_INITIAL_RTT_MICROS: u64 = 333_000;

/// Maximum peer-reported ACK delay accepted by the base profile.
pub const DEFAULT_MAX_ACK_DELAY_MICROS: u64 = 25_000;

/// Number of probe datagrams requested by one PTO expiration.
pub const PTO_PROBE_DATAGRAMS: u8 = 2;

/// Largest exponential backoff retained in the PTO state.
pub const MAX_PTO_BACKOFF_EXPONENT: u32 = 63;

/// Base-PTO multiplier used to establish persistent congestion.
pub const PERSISTENT_CONGESTION_THRESHOLD: u64 = 3;

/// Invalid recovery input or exhausted bounded state.
#[derive(Clone, Copy, Debug, PartialEq, Eq, Structural)]
pub enum RecoveryError {
    InvalidConfiguration,
    InvalidCapacity,
    ZeroPacketSize,
    PacketNumberOutOfRange(u64),
    NonMonotonicPacketNumber,
    ClockWentBackwards,
    CapacityExhausted { oldest_packet_number: u64 },
    AccountingOverflow,
    AckForUnsentPacket { largest_acked: u64 },
    ProbeTimeoutNotArmed,
    TimerNotExpired { deadline_micros: u64, now_micros: u64 },
    OutcomeTimeWentBackwards,
}

impl RecoveryError {
    /// The diagnostic text of a failure.
    pub open spec fn message_text(self) -> Seq<char> {
        match self {
            RecoveryError::InvalidConfiguration => "invalid recovery configuration"@,
            RecoveryError::InvalidCapacity => "invalid sent-packet table capacity"@,
            RecoveryError::ZeroPacketSize => "cannot track a zero-byte packet"@,
            RecoveryError::PacketNumberOutOfRange(number) => "packet number exceeds 62 bits: "@
                + decimal(number as nat) + ""@,
            RecoveryError::NonMonotonicPacketNumber =>
            "packet numbers must increase monotonically"@,
            RecoveryError::ClockWentBackwards => "recovery clock moved backwards"@,
            RecoveryError::CapacityExhausted { oldest_packet_number } =>
            "sent-packet table is full; oldest packet is "@ + decimal(oldest_packet_number as nat)
                + ""@,
            RecoveryError::AccountingOverflow => "recovery accounting overflow"@,
            RecoveryError::AckForUnsentPacket { largest_acked } => "ACK covers unsent packet "@
                + decimal(largest_acked as nat) + ""@,
            RecoveryError::ProbeTimeoutNotArmed => "probe timeout is not armed"@,
            RecoveryError::TimerNotExpired { deadline_micros, now_micros } =>
            "recovery timer deadline "@ + decimal(deadline_micros as nat)
                + " is after current time "@ + decimal(now_micros as nat) + ""@,
            RecoveryError::OutcomeTimeWentBackwards =>
            "congestion outcomes are not in send-time order"@,
        }
    }

    /// Returns the diagnostic text of this failure.
    pub fn message(&self) -> (text: String)
        ensures
            text@ == self.message_text(),
    {
        match *self {
            RecoveryError::InvalidConfiguration => fixed("invalid recovery configuration"),
            RecoveryError::InvalidCapacity => fixed("invalid sent-packet table capacity"),
            RecoveryError::ZeroPacketSize => fixed("cannot track a zero-byte packet"),
            RecoveryError::PacketNumberOutOfRange(number) => with_number(
                "packet number exceeds 62 bits: ",
                number,
                "",
            ),
            RecoveryError::NonMonotonicPacketNumber => fixed(
                "packet numbers must increase monotonically",
            ),
            RecoveryError::ClockWentBackwards => fixed("recovery clock moved backwards"),
            RecoveryError::CapacityExhausted { oldest_packet_number } => with_number(
                "sent-packet table is full; oldest packet is ",
                oldest_packet_number,
                "",
            ),
            RecoveryError::AccountingOverflow => fixed("recovery accounting overflow"),
            RecoveryError::AckForUnsentPacket { largest_acked } => with_number(
                "ACK covers unsent packet ",
                largest_acked,
                "",
            ),
            RecoveryError::ProbeTimeoutNotArmed => fixed("probe timeout is not armed"),
            RecoveryError::TimerNotExpired { deadline_micros, now_micros } => with_two_numbers(
                "recovery timer deadline ",
                deadline_micros,
                " is after current time ",
                now_micros,
                "",
            ),
            RecoveryError::OutcomeTimeWentBackwards => fixed(
                "congestion outcomes are not in send-time order",
            ),
        }
    }
}

/// Recovery timing parameters fixed for one negotiated session.
#[derive(Clone, Copy, Debug, PartialEq, Eq, Structural)]
pub struct RecoveryConfig {
    initial_rtt_micros: u64,
    max_ack_delay_micros: u64,
}

/// The timing parameters of a session.
pub struct RecoveryConfigView {
    pub initial_rtt_micros: u64,
    pub max_ack_delay_micros: u64,
}

impl View for RecoveryConfig {
    type V = RecoveryConfigView;

    closed spec fn view(&self) -> RecoveryConfigView {
        RecoveryConfigView {
            initial_rtt_micros: self.initial_rtt_micros,
            max_ack_delay_micros: self.max_ack_delay_micros,
        }
    }
}

impl RecoveryConfig {
    /// Creates timing parameters with a non-zero initial RTT.
    ///
    /// # Errors
    ///
    /// Returns [`RecoveryError::InvalidConfiguration`] when the initial RTT is zero.
    pub fn new(initial_rtt_micros: u64, max_ack_delay_micros: u64) -> (config: Result<
        RecoveryConfig,
        RecoveryError,
    >)
        ensures
            match config {
                Ok(config) => initial_rtt_micros != 0 && config@ == (RecoveryConfigView {
                    initial_rtt_micros,
                    max_ack_delay_micros,
                }),
                Err(error) => initial_rtt_micros == 0 && error
                    == RecoveryError::InvalidConfiguration,
            },
    {
        if initial_rtt_micros == 0 {
            return Err(RecoveryError::InvalidConfiguration);
        }
        Ok(RecoveryConfig { initial_rtt_micros, max_ack_delay_micros })
    }

    /// Returns the initial RTT assumption.
    pub fn initial_rtt_micros(self) -> (micros: u64)
        ensures
            micros == self@.initial_rtt_micros,
    {
        self.initial_rtt_micros
    }

    /// Returns the largest ACK delay accepted during RTT adjustment.
    pub fn max_ack_delay_micros(self) -> (micros: u64)
        ensures
            micros == self@.max_ack_delay_micros,
    {
        self.max_ack_delay_micros
    }
}

impl Default for RecoveryConfig {
    fn default() -> (config: RecoveryConfig)
        ensures
            config@.initial_rtt_micros == DEFAULT_INITIAL_RTT_MICROS,
            config@.max_ack_delay_micros == DEFAULT_MAX_ACK_DELAY_MICROS,
    {
        RecoveryConfig {
            initial_rtt_micros: DEFAULT_INITIAL_RTT_MICROS,
            max_ack_delay_micros: DEFAULT_MAX_ACK_DELAY_MICROS,
        }
    }
}

/// The average of a history with weight `weight` out of `divisor` and one new sample.
pub open spec fn weighted(previous: u64, sample: u64, weight: u64, divisor: u64) -> u64 {
    clip64((previous * weight + sample) / (divisor as int))
}

fn weighted_average(previous: u64, sample: u64, weight: u64, divisor: u64) -> (average: u64)
    requires
        weight < divisor <= 8,
    ensures
        average == weighted(previous, sample, weight, divisor),
{
    let product: u128 = wide_product(previous, weight);
    assert(product <= u64::MAX * 8) by (nonlinear_arith)
        requires
            product == previous * weight,
            previous <= u64::MAX,
            weight <= 8,
    ;
    clip_u128((product + sample as u128) / divisor as u128)
}

fn scale_ceil(value: u64, numerator: u64, denominator: u64) -> (scaled: u64)
    requires
        denominator > 0,
    ensures
        scaled == clip64(ceil_div(value * numerator, denominator as int)),
{
    clip_u128(ceil_div_u128(wide_product(value, numerator), denominator as u128))
}

/// Integer-only RTT estimator for one network path.
#[derive(Clone, Copy, Debug, PartialEq, Eq)]
pub struct RttEstimator {
    config: RecoveryConfig,
    latest_rtt_micros: Option<u64>,
    minimum_rtt_micros: Option<u64>,
    smoothed_rtt_micros: Option<u64>,
    rtt_variance_micros: Option<u64>,
}

/// The RTT measures of a path.
pub struct RttEstimatorView {
    pub config: RecoveryConfigView,
    pub latest_rtt_micros: Option<u64>,
    pub minimum_rtt_micros: Option<u64>,
    pub smoothed_rtt_micros: Option<u64>,
    pub rtt_variance_micros: Option<u64>,
}

impl RttEstimatorView {
    /// The smallest raw sample once `raw` has been observed.
    pub open spec fn minimum_with(self, raw: u64) -> u64 {
        match self.minimum_rtt_micros {
            Some(current) => min_int(current as int, raw as int) as u64,
            None => raw,
        }
    }

    /// A raw sample less the capped acknowledgement delay, where that stays at or above the
    /// observed minimum.
    pub open spec fn adjusted_sample(self, raw: u64, reported_delay: u64) -> u64 {
        let delay = min_int(reported_delay as int, self.config.max_ack_delay_micros as int);
        if raw >= self.minimum_with(raw) + delay {
            (raw - delay) as u64
        } else {
            raw
        }
    }

    /// The estimator after one raw sample with its reported acknowledgement delay.
    pub open spec fn with_sample(self, raw: u64, reported_delay: u64) -> RttEstimatorView {
        let adjusted = self.adjusted_sample(raw, reported_delay);
        let (smoothed, variance) = match (self.smoothed_rtt_micros, self.rtt_variance_micros) {
            (Some(smoothed), Some(variance)) => {
                let deviation = if smoothed >= adjusted {
                    (smoothed - adjusted) as u64
                } else {
                    (adjusted - smoothed) as u64
                };
                (weighted(smoothed, adjusted, 7, 8), weighted(variance, deviation, 3, 4))
            },
            _ => (adjusted, adjusted / 2),
        };
        RttEstimatorView {
            config: self.config,
            latest_rtt_micros: Some(raw),
            minimum_rtt_micros: Some(self.minimum_with(raw)),
            smoothed_rtt_micros: Some(smoothed),
            rtt_variance_micros: Some(variance),
        }
    }

    /// Smoothed RTT, or the configured initial RTT before the first sample.
    pub open spec fn effective_smoothed(self) -> u64 {
        match self.smoothed_rtt_micros {
            Some(value) => value,
            None => self.config.initial_rtt_micros,
        }
    }

    /// Latest raw RTT, or the configured initial RTT before the first sample.
    pub open spec fn effective_latest(self) -> u64 {
        match self.latest_rtt_micros {
            Some(value) => value,
            None => self.config.initial_rtt_micros,
        }
    }

    /// RTT deviation, or half the configured initial RTT before the first sample.
    pub open spec fn effective_variance(self) -> u64 {
        match self.rtt_variance_micros {
            Some(value) => value,
            None => self.config.initial_rtt_micros / 2,
        }
    }

    /// Age at which an older packet counts as lost: nine eighths of the larger RTT measure,
    /// rounded up, but at least the timer granularity.
    pub open spec fn loss_delay(self) -> u64 {
        let base = max_int(self.effective_latest() as int, self.effective_smoothed() as int);
        max_int(
            clip64(
                ceil_div(
                    base * TIME_LOSS_THRESHOLD_NUMERATOR,
                    TIME_LOSS_THRESHOLD_DENOMINATOR as int,
                ),
            ) as int,
            TIMER_GRANULARITY_MICROS as int,
        ) as u64
    }

    /// Probe timeout before exponential backoff.
    pub open spec fn probe_timeout(self) -> u64 {
        clip64(
            self.effective_smoothed() + max_int(
                4 * self.effective_variance(),
                TIMER_GRANULARITY_MICROS as int,
            ) + self.config.max_ack_delay_micros,
        )
    }
}

impl View for RttEstimator {
    type V = RttEstimatorView;

    closed spec fn view(&self) -> RttEstimatorView {
        RttEstimatorView {
            config: self.config@,
            latest_rtt_micros: self.latest_rtt_micros,
            minimum_rtt_micros: self.minimum_rtt_micros,
            smoothed_rtt_micros: self.smoothed_rtt_micros,
            rtt_variance_micros: self.rtt_variance_micros,
        }
    }
}

impl RttEstimator {

    /// Creates an estimator with no measured sample.
    pub fn new(config: RecoveryConfig) -> (estimator: RttEstimator)
        ensures
            estimator@ == (RttEstimatorView {
                config: config@,
                latest_rtt_micros: None,
                minimum_rtt_micros: None,
                smoothed_rtt_micros: None,
                rtt_variance_micros: None,
            }),
    {
        RttEstimator {
            config,
            latest_rtt_micros: None,
            minimum_rtt_micros: None,
            smoothed_rtt_micros: None,
            rtt_variance_micros: None,
        }
    }

    /// Records one raw RTT sample and its untrusted peer-reported ACK delay.
    ///
    /// The ACK delay is capped by the session configuration and is subtracted only when doing so
    /// cannot reduce the sample below the observed minimum.
    pub fn record_sample(&mut self, raw_rtt_micros: u64, reported_ack_delay_micros: u64)
        ensures
            final(self)@ == old(self)@.with_sample(raw_rtt_micros, reported_ack_delay_micros),
    {
        self.latest_rtt_micros = Some(raw_rtt_micros);
        let minimum: u64 = match self.minimum_rtt_micros {
            Some(current) => min_u64(current, raw_rtt_micros),
            None => raw_rtt_micros,
        };
        self.minimum_rtt_micros = Some(minimum);
        let ack_delay: u64 = min_u64(reported_ack_delay_micros, self.config.max_ack_delay_micros);
        let adjusted: u64 = match minimum.checked_add(ack_delay) {
            Some(floor) => if raw_rtt_micros >= floor {
                raw_rtt_micros - ack_delay
            } else {
                raw_rtt_micros
            },
            None => raw_rtt_micros,
        };
        match (self.smoothed_rtt_micros, self.rtt_variance_micros) {
            (Some(smoothed), Some(variance)) => {
                let deviation: u64 = if smoothed >= adjusted {
                    smoothed - adjusted
                } else {
                    adjusted - smoothed
                };
                self.rtt_variance_micros = Some(weighted_average(variance, deviation, 3, 4));
                self.smoothed_rtt_micros = Some(weighted_average(smoothed, adjusted, 7, 8));
            },
            _ => {
                self.smoothed_rtt_micros = Some(adjusted);
                self.rtt_variance_micros = Some(adjusted / 2);
            },
        }
    }

    /// Returns the most recent raw RTT sample.
    pub fn latest_rtt_micros(self) -> (micros: Option<u64>)
        ensures
            micros == self@.latest_rtt_micros,
    {
        self.latest_rtt_micros
    }

    /// Returns the smallest raw RTT sample.
    pub fn minimum_rtt_micros(self) -> (micros: Option<u64>)
        ensures
            micros == self@.minimum_rtt_micros,
    {
        self.minimum_rtt_micros
    }

    /// Returns the smoothed, ACK-delay-adjusted RTT.
    pub fn smoothed_rtt_micros(self) -> (micros: Option<u64>)
        ensures
            micros == self@.smoothed_rtt_micros,
    {
        self.smoothed_rtt_micros
    }

    /// Returns smoothed RTT, falling back to the configured initial RTT.
    pub fn effective_smoothed_rtt_micros(self) -> (micros: u64)
        ensures
            micros == self@.effective_smoothed(),
    {
        match self.smoothed_rtt_micros {
            Some(value) => value,
            None => self.config.initial_rtt_micros,
        }
    }

    /// Returns the smoothed absolute RTT deviation.
    pub fn rtt_variance_micros(self) -> (micros: Option<u64>)
        ensures
            micros == self@.rtt_variance_micros,
    {
        self.rtt_variance_micros
    }

    /// Returns whether at least one valid RTT sample has been recorded.
    pub fn has_sample(self) -> (sampled: bool)
        ensures
            sampled == (self@.latest_rtt_micros is Some),
    {
        self.latest_rtt_micros.is_some()
    }

    /// Returns the current time threshold for declaring an older packet lost.
    pub fn loss_delay_micros(self) -> (micros: u64)
        ensures
            micros == self@.loss_delay(),
    {
        let latest: u64 = match self.latest_rtt_micros {
            Some(value) => value,
            None => self.config.initial_rtt_micros,
        };
        let base: u64 = max_u64(latest, self.effective_smoothed_rtt_micros());
        max_u64(
            scale_ceil(base, TIME_LOSS_THRESHOLD_NUMERATOR, TIME_LOSS_THRESHOLD_DENOMINATOR),
            TIMER_GRANULARITY_MICROS,
        )
    }

    /// Returns the base probe timeout before exponential backoff.
    pub fn probe_timeout_micros(self) -> (micros: u64)
        ensures
            micros == self@.probe_timeout(),
    {
        let variance: u64 = match self.rtt_variance_micros {
            Some(value) => value,
            None => self.config.initial_rtt_micros / 2,
        };
        self.effective_smoothed_rtt_micros().saturating_add(
            max_u64(saturating_product(variance, 4), TIMER_GRANULARITY_MICROS),
        ).saturating_add(self.config.max_ack_delay_micros)
    }

    /// Returns the minimum lost-packet span for persistent congestion.
    pub fn persistent_congestion_duration_micros(self) -> (micros: u64)
        ensures
            micros == clip64(self@.probe_timeout() * PERSISTENT_CONGESTION_THRESHOLD),
    {
        saturating_product(self.probe_timeout_micros(), PERSISTENT_CONGESTION_THRESHOLD)
    }
}

impl Default for RttEstimator {
    fn default() -> (estimator: RttEstimator)
        ensures
            estimator@ == (RttEstimatorView {
                config: RecoveryConfigView {
                    initial_rtt_micros: DEFAULT_INITIAL_RTT_MICROS,
                    max_ack_delay_micros: DEFAULT_MAX_ACK_DELAY_MICROS,
                },
                latest_rtt_micros: None,
                minimum_rtt_micros: None,
                smoothed_rtt_micros: None,
                rtt_variance_micros: None,
            }),
    {
        RttEstimator::new(RecoveryConfig::default())
    }
}

/// A peer cannot talk an RTT sample down: the adjusted sample is at most the raw one, at least the
/// smallest raw sample ever observed, and at most the configured delay below the raw one.
pub proof fn lemma_adjusted_sample_is_bounded(
    estimator: RttEstimatorView,
    raw: u64,
    reported: u64,
)
    ensures
        estimator.adjusted_sample(raw, reported) <= raw,
        estimator.adjusted_sample(raw, reported) >= estimator.minimum_with(raw),
        raw - estimator.adjusted_sample(raw, reported) <= estimator.config.max_ack_delay_micros,
{
}

/// Whether the recorded minimum is a lower bound of the latest raw and the smoothed RTT.
pub open spec fn minimum_is_lower_bound(estimator: RttEstimatorView) -> bool {
    match estimator.minimum_rtt_micros {
        None => estimator.latest_rtt_micros is None && estimator.smoothed_rtt_micros is None
            && estimator.rtt_variance_micros is None,
        Some(minimum) => {
            &&& estimator.latest_rtt_micros matches Some(latest) && minimum <= latest
            &&& estimator.smoothed_rtt_micros matches Some(smoothed) && minimum <= smoothed
            &&& estimator.rtt_variance_micros is Some
        },
    }
}

/// Recording a sample keeps the recorded minimum at or below the latest and the smoothed RTT.
pub proof fn lemma_minimum_stays_lower_bound(
    estimator: RttEstimatorView,
    raw: u64,
    reported: u64,
)
    requires
        minimum_is_lower_bound(estimator),
    ensures
        minimum_is_lower_bound(estimator.with_sample(raw, reported)),
{
    lemma_adjusted_sample_is_bounded(estimator, raw, reported);
}

/// Currently armed recovery timer for one path.
#[derive(Clone, Copy, Debug, PartialEq, Eq, Structural)]
pub enum RecoveryTimer {
    /// Time-threshold loss detection takes precedence over PTO.
    LossDetection { deadline_micros: u64 },
    /// Probe timeout for tail loss or lost acknowledgements.
    ProbeTimeout { deadline_micros: u64 },
}

/// Action returned when a valid PTO deadline expires.
#[derive(Clone, Copy, Debug, PartialEq, Eq, Structural)]
pub struct ProbeAction {
    pub probe_datagrams: u8,
    pub backoff_exponent: u32,
}

/// Per-path PTO arming and bounded exponential-backoff state.
#[derive(Clone, Copy, Debug, PartialEq, Eq)]
pub struct ProbeTimeoutState {
    last_ack_eliciting_sent_at_micros: Option<u64>,
    pub backoff_exponent: u32,
}

/// The last ACK-eliciting send and the backoff of a path.
pub struct ProbeTimeoutView {
    pub last_ack_eliciting_sent_at_micros: Option<u64>,
    pub backoff_exponent: u32,
}

impl ProbeTimeoutView {
    /// Factor by which repeated expirations stretch the probe timeout.
    pub open spec fn multiplier(self) -> u64 {
        1u64 << (min_int(self.backoff_exponent as int, MAX_PTO_BACKOFF_EXPONENT as int) as u64)
    }

    /// Backed-off probe timeout.
    pub open spec fn duration(self, rtt: RttEstimatorView) -> u64 {
        clip64(rtt.probe_timeout() * self.multiplier())
    }

    /// Deadline of an armed probe timeout.
    pub open spec fn probe_deadline(self, rtt: RttEstimatorView, in_flight: bool) -> Option<u64> {
        match self.last_ack_eliciting_sent_at_micros {
            Some(sent_at) => if in_flight {
                Some(clip64(sent_at + self.duration(rtt)))
            } else {
                None
            },
            None => None,
        }
    }
}

impl View for ProbeTimeoutState {
    type V = ProbeTimeoutView;

    closed spec fn view(&self) -> ProbeTimeoutView {
        ProbeTimeoutView {
            last_ack_eliciting_sent_at_micros: self.last_ack_eliciting_sent_at_micros,
            backoff_exponent: self.backoff_exponent,
        }
    }
}

impl ProbeTimeoutState {

    /// Records the monotonic send time of an ACK-eliciting packet.
    ///
    /// # Errors
    ///
    /// Returns [`RecoveryError::ClockWentBackwards`] if the timestamp is older than the preceding
    /// ACK-eliciting send.
    pub fn on_ack_eliciting_sent(&mut self, sent_at_micros: u64) -> (outcome: Result<
        (),
        RecoveryError,
    >)
        ensures
            old(self)@.last_ack_eliciting_sent_at_micros matches Some(last) && sent_at_micros < last
                ==> outcome == Err::<(), RecoveryError>(RecoveryError::ClockWentBackwards)
                && final(self)@ == old(self)@,
            !(old(self)@.last_ack_eliciting_sent_at_micros matches Some(last) && sent_at_micros
                < last) ==> outcome == Ok::<(), RecoveryError>(()) && final(self)@ == (
            ProbeTimeoutView {
                last_ack_eliciting_sent_at_micros: Some(sent_at_micros),
                backoff_exponent: old(self)@.backoff_exponent,
            }),
    {
        match self.last_ack_eliciting_sent_at_micros {
            Some(last) => {
                if sent_at_micros < last {
                    return Err(RecoveryError::ClockWentBackwards);
                }
            },
            None => {},
        }
        self.last_ack_eliciting_sent_at_micros = Some(sent_at_micros);
        Ok(())
    }

    /// Resets PTO backoff after an ACK newly acknowledges a packet.
    pub fn on_ack(&mut self, newly_acknowledged: bool)
        ensures
            final(self)@ == (ProbeTimeoutView {
                last_ack_eliciting_sent_at_micros: old(self)@.last_ack_eliciting_sent_at_micros,
                backoff_exponent: if newly_acknowledged {
                    0
                } else {
                    old(self)@.backoff_exponent
                },
            }),
    {
        if newly_acknowledged {
            self.backoff_exponent = 0;
        }
    }

    /// Selects a time-threshold loss timer or, otherwise, a PTO timer.
    ///
    /// Returns `None` when no ACK-eliciting packet is in flight.
    pub fn timer(
        self,
        rtt: RttEstimator,
        loss_deadline_micros: Option<u64>,
        has_ack_eliciting_in_flight: bool,
    ) -> (timer: Option<RecoveryTimer>)
        ensures
            !has_ack_eliciting_in_flight ==> timer is None,
            has_ack_eliciting_in_flight ==> timer == match loss_deadline_micros {
                Some(deadline_micros) => Some(RecoveryTimer::LossDetection { deadline_micros }),
                None => match self@.probe_deadline(rtt@, true) {
                    Some(deadline_micros) => Some(RecoveryTimer::ProbeTimeout { deadline_micros }),
                    None => None::<RecoveryTimer>,
                },
            },
    {
        if !has_ack_eliciting_in_flight {
            return None;
        }
        match loss_deadline_micros {
            Some(deadline_micros) => {
                return Some(RecoveryTimer::LossDetection { deadline_micros });
            },
            None => {},
        }
        match self.last_ack_eliciting_sent_at_micros {
            None => None,
            Some(sent_at) => Some(
                RecoveryTimer::ProbeTimeout {
                    deadline_micros: sent_at.saturating_add(self.duration_micros(rtt)),
                },
            ),
        }
    }

    /// Processes one PTO expiration without declaring any packet lost.
    ///
    /// # Errors
    ///
    /// Returns an error when no PTO is armed or `now_micros` precedes its deadline.
    pub fn on_expiration(
        &mut self,
        now_micros: u64,
        rtt: RttEstimator,
        has_ack_eliciting_in_flight: bool,
    ) -> (outcome: Result<ProbeAction, RecoveryError>)
        ensures
            match old(self)@.probe_deadline(rtt@, has_ack_eliciting_in_flight) {
                None => {
                    &&& outcome == Err::<ProbeAction, RecoveryError>(
                        RecoveryError::ProbeTimeoutNotArmed,
                    )
                    &&& final(self)@ == old(self)@
                },
                Some(deadline_micros) => if now_micros < deadline_micros {
                    &&& outcome == Err::<ProbeAction, RecoveryError>(
                        RecoveryError::TimerNotExpired { deadline_micros, now_micros },
                    )
                    &&& final(self)@ == old(self)@
                } else {
                    let exponent = min_int(
                        old(self)@.backoff_exponent + 1,
                        MAX_PTO_BACKOFF_EXPONENT as int,
                    ) as u32;
                    &&& outcome == Ok::<ProbeAction, RecoveryError>(
                        ProbeAction {
                            probe_datagrams: PTO_PROBE_DATAGRAMS,
                            backoff_exponent: exponent,
                        },
                    )
                    &&& final(self)@ == (ProbeTimeoutView {
                        backoff_exponent: exponent,
                        ..old(self)@
                    })
                },
            },
    {
        let deadline_micros: u64 = match self.timer(rtt, None, has_ack_eliciting_in_flight) {
            Some(RecoveryTimer::ProbeTimeout { deadline_micros }) => deadline_micros,
            _ => {
                return Err(RecoveryError::ProbeTimeoutNotArmed);
            },
        };
        if now_micros < deadline_micros {
            return Err(RecoveryError::TimerNotExpired { deadline_micros, now_micros });
        }
        let next: u32 = self.backoff_exponent.saturating_add(1);
        self.backoff_exponent =
        if next < MAX_PTO_BACKOFF_EXPONENT {
            next
        } else {
            MAX_PTO_BACKOFF_EXPONENT
        };
        Ok(
            ProbeAction {
                probe_datagrams: PTO_PROBE_DATAGRAMS,
                backoff_exponent: self.backoff_exponent,
            },
        )
    }

    /// Returns the current exponentially backed-off PTO duration.
    pub fn duration_micros(self, rtt: RttEstimator) -> (micros: u64)
        ensures
            micros == self@.duration(rtt@),
    {
        let exponent: u32 = if self.backoff_exponent < MAX_PTO_BACKOFF_EXPONENT {
            self.backoff_exponent
        } else {
            MAX_PTO_BACKOFF_EXPONENT
        };
        saturating_product(rtt.probe_timeout_micros(), 1u64 << (exponent as u64))
    }

    /// Returns the current bounded backoff exponent.
    pub fn backoff_exponent(self) -> (exponent: u32)
        ensures
            exponent == self@.backoff_exponent,
    {
        self.backoff_exponent
    }
}

impl Default for ProbeTimeoutState {
    fn default() -> (state: ProbeTimeoutState)
        ensures
            state@ == (ProbeTimeoutView {
                last_ack_eliciting_sent_at_micros: None,
                backoff_exponent: 0,
            }),
    {
        ProbeTimeoutState { last_ack_eliciting_sent_at_micros: None, backoff_exponent: 0 }
    }
}

/// Each further expiration doubles the probe timeout until the largest exponent is reached.
pub proof fn lemma_expiration_doubles_timeout(before: ProbeTimeoutView, after: ProbeTimeoutView)
    requires
        before.backoff_exponent < MAX_PTO_BACKOFF_EXPONENT,
        after.backoff_exponent == before.backoff_exponent + 1,
    ensures
        after.multiplier() == 2 * before.multiplier(),
{
    let exponent = before.backoff_exponent as u64;
    assert(1u64 << add_one(exponent) == 2 * (1u64 << exponent)) by (bit_vector)
        requires
            exponent < 63,
    ;
}

spec fn add_one(exponent: u64) -> u64 {
    (exponent + 1) as u64
}

/// Outcome of one ACK-eliciting packet in send-time order.
#[derive(Clone, Copy, Debug, PartialEq, Eq, Structural)]
pub enum CongestionOutcome {
    Acknowledged,
    Lost,
    Outstanding,
}

/// Allocation-free detector for a consecutive lost-packet time span.
///
/// The integration layer feeds every ACK-eliciting packet in non-decreasing send-time order. An
/// acknowledgement or unresolved packet breaks the run.
#[derive(Clone, Copy, Debug, PartialEq, Eq)]
pub struct PersistentCongestionTracker {
    last_observed_sent_at_micros: Option<u64>,
    run_start_micros: Option<u64>,
    run_end_micros: Option<u64>,
    lost_packets_in_run: u64,
}

/// The run of lost packets that a tracker has observed.
pub struct PersistentCongestionView {
    pub last_observed_sent_at_micros: Option<u64>,
    pub run_start_micros: Option<u64>,
    pub run_end_micros: Option<u64>,
    pub lost_packets_in_run: u64,
}

impl PersistentCongestionView {
    /// The tracker after a packet sent at `sent_at` that extends a lost run.
    pub open spec fn with_loss(self, sent_at: u64) -> PersistentCongestionView {
        PersistentCongestionView {
            last_observed_sent_at_micros: Some(sent_at),
            run_start_micros: match self.run_start_micros {
                Some(start) => Some(start),
                None => Some(sent_at),
            },
            run_end_micros: Some(sent_at),
            lost_packets_in_run: clip64(self.lost_packets_in_run + 1),
        }
    }
}

impl View for PersistentCongestionTracker {
    type V = PersistentCongestionView;

    closed spec fn view(&self) -> PersistentCongestionView {
        PersistentCongestionView {
            last_observed_sent_at_micros: self.last_observed_sent_at_micros,
            run_start_micros: self.run_start_micros,
            run_end_micros: self.run_end_micros,
            lost_packets_in_run: self.lost_packets_in_run,
        }
    }
}

impl PersistentCongestionTracker {

    /// Observes one chronologically ordered packet outcome.
    ///
    /// Returns `true` when at least two consecutive packets with prior RTT knowledge are lost
    /// across the configured persistent-congestion duration.
    ///
    /// # Errors
    ///
    /// Returns [`RecoveryError::OutcomeTimeWentBackwards`] for out-of-order input.
    pub fn observe(
        &mut self,
        sent_at_micros: u64,
        outcome: CongestionOutcome,
        rtt_sample_existed_when_sent: bool,
        persistent_duration_micros: u64,
    ) -> (persistent: Result<bool, RecoveryError>)
        ensures
            if old(self)@.last_observed_sent_at_micros matches Some(last) && sent_at_micros < last {
                &&& persistent == Err::<bool, RecoveryError>(
                    RecoveryError::OutcomeTimeWentBackwards,
                )
                &&& final(self)@ == old(self)@
            } else if outcome != CongestionOutcome::Lost || !rtt_sample_existed_when_sent {
                &&& persistent == Ok::<bool, RecoveryError>(false)
                &&& final(self)@ == (PersistentCongestionView {
                    last_observed_sent_at_micros: Some(sent_at_micros),
                    run_start_micros: None,
                    run_end_micros: None,
                    lost_packets_in_run: 0,
                })
            } else {
                &&& final(self)@ == old(self)@.with_loss(sent_at_micros)
                &&& persistent == Ok::<bool, RecoveryError>(
                    final(self)@.lost_packets_in_run >= 2 && max_int(
                        sent_at_micros - final(self)@.run_start_micros->0,
                        0,
                    ) >= persistent_duration_micros,
                )
            },
    {
        match self.last_observed_sent_at_micros {
            Some(last) => {
                if sent_at_micros < last {
                    return Err(RecoveryError::OutcomeTimeWentBackwards);
                }
            },
            None => {},
        }
        self.last_observed_sent_at_micros = Some(sent_at_micros);
        if outcome != CongestionOutcome::Lost || !rtt_sample_existed_when_sent {
            self.reset_run();
            return Ok(false);
        }
        let start: u64 = match self.run_start_micros {
            Some(start) => start,
            None => sent_at_micros,
        };
        self.run_start_micros = Some(start);
        self.run_end_micros = Some(sent_at_micros);
        self.lost_packets_in_run = self.lost_packets_in_run.saturating_add(1);
        let span: u64 = sent_at_micros.saturating_sub(start);
        Ok(self.lost_packets_in_run >= 2 && span >= persistent_duration_micros)
    }

    /// Clears both chronological and current-run state.
    pub fn reset(&mut self)
        ensures
            final(self)@ == (PersistentCongestionView {
                last_observed_sent_at_micros: None,
                run_start_micros: None,
                run_end_micros: None,
                lost_packets_in_run: 0,
            }),
    {
        *self = PersistentCongestionTracker::default();
    }

    fn reset_run(&mut self)
        ensures
            final(self)@ == (PersistentCongestionView {
                last_observed_sent_at_micros: old(self)@.last_observed_sent_at_micros,
                run_start_micros: None,
                run_end_micros: None,
                lost_packets_in_run: 0,
            }),
    {
        self.run_start_micros = None;
        self.run_end_micros = None;
        self.lost_packets_in_run = 0;
    }
}

impl Default for PersistentCongestionTracker {
    fn default() -> (tracker: PersistentCongestionTracker)
        ensures
            tracker@ == (PersistentCongestionView {
                last_observed_sent_at_micros: None,
                run_start_micros: None,
                run_end_micros: None,
                lost_packets_in_run: 0,
            }),
    {
        PersistentCongestionTracker {
            last_observed_sent_at_micros: None,
            run_start_micros: None,
            run_end_micros: None,
            lost_packets_in_run: 0,
        }
    }
}

/// Stable retransmission identity retained instead of payload bytes.
#[derive(Clone, Copy, Debug, PartialEq, Eq, Structural)]
pub enum RecoveryToken {
    /// One DATA fragment that can be reread from its object source.
    Data(DataMetadata),
    /// One idempotent control operation in a caller-owned bounded table.
    Control(u64),
}

/// Metadata retained for one acknowledgement-eliciting packet.
#[derive(Clone, Copy, Debug, PartialEq, Eq)]
pub struct SentPacket {
    pub packet_number: u64,
    pub sent_at_micros: u64,
    pub encoded_bytes: u32,
    pub recovery_token: Option<RecoveryToken>,
}

/// Reason an outstanding packet was declared lost.
#[derive(Clone, Copy, Debug, PartialEq, Eq, Structural)]
pub enum LossReason {
    PacketThreshold,
    TimeThreshold,
}

/// Event produced while processing an ACK.
#[derive(Clone, Copy, Debug, PartialEq, Eq)]
pub enum RecoveryEvent {
    Acknowledged(SentPacket),
    Lost { packet: SentPacket, reason: LossReason },
}

impl RecoveryEvent {
    /// The packet an event resolves.
    pub open spec fn packet(self) -> SentPacket {
        match self {
            RecoveryEvent::Acknowledged(packet) => packet,
            RecoveryEvent::Lost { packet, reason } => packet,
        }
    }
}

/// Aggregate result of processing one authenticated ACK frame.
#[derive(Clone, Copy, Debug, PartialEq, Eq)]
pub struct AckSummary {
    pub acknowledged_packets: usize,
    pub acknowledged_bytes: u64,
    pub lost_packets: usize,
    pub lost_bytes: u64,
    pub largest_newly_acknowledged: Option<u64>,
    pub raw_rtt_sample_micros: Option<u64>,
}

impl Default for AckSummary {
    fn default() -> (summary: AckSummary)
        ensures
            summary == (AckSummary {
                acknowledged_packets: 0,
                acknowledged_bytes: 0,
                lost_packets: 0,
                lost_bytes: 0,
                largest_newly_acknowledged: None,
                raw_rtt_sample_micros: None,
            }),
    {
        AckSummary {
            acknowledged_packets: 0,
            acknowledged_bytes: 0,
            lost_packets: 0,
            lost_bytes: 0,
            largest_newly_acknowledged: None,
            raw_rtt_sample_micros: None,
        }
    }
}

/// Why a packet is lost once `largest` has been acknowledged, if it is.
pub open spec fn loss_reason(
    packet: SentPacket,
    ack: AckFrame,
    largest: u64,
    delay: u64,
    now: u64,
) -> Option<LossReason> {
    if ack.covers(packet.packet_number) || packet.packet_number >= largest {
        None
    } else if largest - packet.packet_number >= PACKET_LOSS_THRESHOLD {
        Some(LossReason::PacketThreshold)
    } else if clip64(packet.sent_at_micros + delay) <= now {
        Some(LossReason::TimeThreshold)
    } else {
        None
    }
}

/// Whether a slot holds a packet that is lost.
pub open spec fn slot_lost(
    slot: Option<SentPacket>,
    ack: AckFrame,
    largest: u64,
    delay: u64,
    now: u64,
) -> bool {
    slot matches Some(packet) && loss_reason(packet, ack, largest, delay, now) is Some
}

/// Whether a slot holds a packet that is acknowledged.
pub open spec fn slot_acknowledged(slot: Option<SentPacket>, ack: AckFrame) -> bool {
    slot matches Some(packet) && ack.covers(packet.packet_number)
}

/// Indices of the slots with lost packets, in slot order.
pub open spec fn lost_slots(
    slots: Seq<Option<SentPacket>>,
    ack: AckFrame,
    largest: u64,
    delay: u64,
    now: u64,
) -> Seq<usize>
    decreases slots.len(),
{
    if slots.len() == 0 {
        Seq::empty()
    } else {
        let earlier = lost_slots(slots.drop_last(), ack, largest, delay, now);
        if slot_lost(slots.last(), ack, largest, delay, now) {
            earlier.push((slots.len() - 1) as usize)
        } else {
            earlier
        }
    }
}

/// Loss events, in slot order.
pub open spec fn loss_events(
    slots: Seq<Option<SentPacket>>,
    ack: AckFrame,
    largest: u64,
    delay: u64,
    now: u64,
) -> Seq<RecoveryEvent>
    decreases slots.len(),
{
    if slots.len() == 0 {
        Seq::empty()
    } else {
        let earlier = loss_events(slots.drop_last(), ack, largest, delay, now);
        if slot_lost(slots.last(), ack, largest, delay, now) {
            earlier.push(
                RecoveryEvent::Lost {
                    packet: slots.last()->0,
                    reason: loss_reason(slots.last()->0, ack, largest, delay, now)->0,
                },
            )
        } else {
            earlier
        }
    }
}

/// Indices of the slots with acknowledged packets, in slot order.
pub open spec fn acknowledged_slots(slots: Seq<Option<SentPacket>>, ack: AckFrame) -> Seq<usize>
    decreases slots.len(),
{
    if slots.len() == 0 {
        Seq::empty()
    } else {
        let earlier = acknowledged_slots(slots.drop_last(), ack);
        if slot_acknowledged(slots.last(), ack) {
            earlier.push((slots.len() - 1) as usize)
        } else {
            earlier
        }
    }
}

/// Acknowledgement events, in slot order.
pub open spec fn acknowledgement_events(slots: Seq<Option<SentPacket>>, ack: AckFrame) -> Seq<
    RecoveryEvent,
>
    decreases slots.len(),
{
    if slots.len() == 0 {
        Seq::empty()
    } else {
        let earlier = acknowledgement_events(slots.drop_last(), ack);
        if slot_acknowledged(slots.last(), ack) {
            earlier.push(RecoveryEvent::Acknowledged(slots.last()->0))
        } else {
            earlier
        }
    }
}

/// The slots after an acknowledgement: resolved packets are gone, all others unchanged.
pub open spec fn resolved_slots(
    slots: Seq<Option<SentPacket>>,
    ack: AckFrame,
    largest: u64,
    delay: u64,
    now: u64,
) -> Seq<Option<SentPacket>> {
    Seq::new(
        slots.len(),
        |i: int|
            if slot_lost(slots[i], ack, largest, delay, now) || slot_acknowledged(slots[i], ack) {
                None
            } else {
                slots[i]
            },
    )
}

/// Encoded bytes of the packets that events resolve.
pub open spec fn event_bytes(events: Seq<RecoveryEvent>) -> nat
    decreases events.len(),
{
    if events.len() == 0 {
        0
    } else {
        event_bytes(events.drop_last()) + events.last().packet().encoded_bytes as nat
    }
}

/// Largest packet number that events resolve.
pub open spec fn largest_event_number(events: Seq<RecoveryEvent>) -> Option<u64>
    decreases events.len(),
{
    if events.len() == 0 {
        None
    } else {
        let number = events.last().packet().packet_number;
        match largest_event_number(events.drop_last()) {
            Some(current) => Some(max_int(current as int, number as int) as u64),
            None => Some(number),
        }
    }
}

/// Number of occupied slots.
pub open spec fn occupied(slots: Seq<Option<SentPacket>>) -> nat
    decreases slots.len(),
{
    if slots.len() == 0 {
        0
    } else {
        occupied(slots.drop_last()) + if slots.last() is Some {
            1nat
        } else {
            0
        }
    }
}

/// Encoded bytes in occupied slots.
pub open spec fn occupied_bytes(slots: Seq<Option<SentPacket>>) -> nat
    decreases slots.len(),
{
    if slots.len() == 0 {
        0
    } else {
        occupied_bytes(slots.drop_last()) + match slots.last() {
            Some(packet) => packet.encoded_bytes as nat,
            None => 0,
        }
    }
}

/// Whether some slot holds a packet with this number.
pub open spec fn holds_number(slots: Seq<Option<SentPacket>>, number: u64) -> bool {
    exists|i: int|
        0 <= i < slots.len() && (#[trigger] slots[i] matches Some(packet) && packet.packet_number
            == number)
}

/// Whether `number` is the smallest packet number in any slot.
pub open spec fn is_oldest(slots: Seq<Option<SentPacket>>, number: u64) -> bool {
    &&& holds_number(slots, number)
    &&& forall|i: int|
        0 <= i < slots.len() ==> (#[trigger] slots[i] matches Some(packet) ==> number
            <= packet.packet_number)
}

/// Whether `free` lists exactly the empty slots, each once.
pub open spec fn lists_empty_slots(free: Seq<usize>, slots: Seq<Option<SentPacket>>) -> bool {
    &&& free.no_duplicates()
    &&& forall|j: int| 0 <= j < free.len() ==> #[trigger] free[j] < slots.len()
    &&& forall|j: int| 0 <= j < free.len() ==> slots[#[trigger] free[j] as int] is None
    &&& forall|i: int|
        0 <= i < slots.len() ==> (#[trigger] slots[i] is None ==> free.contains(i as usize))
}

proof fn lemma_clear_slot(slots: Seq<Option<SentPacket>>, index: int)
    requires
        0 <= index < slots.len(),
        slots[index] is Some,
    ensures
        occupied(slots.update(index, None)) == occupied(slots) - 1,
        occupied_bytes(slots.update(index, None)) == occupied_bytes(slots)
            - slots[index]->0.encoded_bytes,
        occupied(slots) >= 1,
        occupied_bytes(slots) >= slots[index]->0.encoded_bytes,
    decreases slots.len(),
{
    let updated = slots.update(index, None);
    if index == slots.len() - 1 {
        assert(updated.drop_last() =~= slots.drop_last());
    } else {
        lemma_clear_slot(slots.drop_last(), index);
        assert(updated.drop_last() =~= slots.drop_last().update(index, None));
        assert(updated.last() == slots.last());
    }
}

proof fn lemma_fill_slot(slots: Seq<Option<SentPacket>>, index: int, packet: SentPacket)
    requires
        0 <= index < slots.len(),
        slots[index] is None,
    ensures
        occupied(slots.update(index, Some(packet))) == occupied(slots) + 1,
        occupied_bytes(slots.update(index, Some(packet))) == occupied_bytes(slots)
            + packet.encoded_bytes,
        occupied(slots) < slots.len(),
{
    let filled = slots.update(index, Some(packet));
    lemma_clear_slot(filled, index);
    assert(filled.update(index, None) =~= slots);
    lemma_occupied_bounded(filled);
}

proof fn lemma_occupied_bounded(slots: Seq<Option<SentPacket>>)
    ensures
        occupied(slots) <= slots.len(),
    decreases slots.len(),
{
    if slots.len() > 0 {
        lemma_occupied_bounded(slots.drop_last());
    }
}

proof fn lemma_all_empty(slots: Seq<Option<SentPacket>>)
    requires
        forall|i: int| 0 <= i < slots.len() ==> slots[i] is None,
    ensures
        occupied(slots) == 0,
        occupied_bytes(slots) == 0,
    decreases slots.len(),
{
    if slots.len() > 0 {
        lemma_all_empty(slots.drop_last());
    }
}

/// Fixed-capacity per-path sent-packet ledger.
///
/// A preallocated free-index stack makes insertion O(1), including when untracked ACK-only packets
/// create gaps in the packet-number sequence. An empty free stack is backpressure until ACK or
/// loss processing releases a slot.
#[derive(Debug)]
pub struct SentPacketTable {
    slots: Vec<Option<SentPacket>>,
    pub free_slots: Vec<usize>,
    outstanding_packets: usize,
    outstanding_bytes: u64,
    largest_sent: Option<u64>,
    largest_acknowledged: Option<u64>,
    last_sent_at_micros: Option<u64>,
}

/// The slots of a ledger and its accounting.
pub struct SentPacketTableView {
    pub slots: Seq<Option<SentPacket>>,
    pub free_slots: Seq<usize>,
    pub outstanding_packets: usize,
    pub outstanding_bytes: u64,
    pub largest_sent: Option<u64>,
    pub largest_acknowledged: Option<u64>,
    pub last_sent_at_micros: Option<u64>,
}

impl SentPacketTableView {
    /// The ledger's invariant: the free stack lists exactly the empty slots, the counters are those
    /// of the occupied slots, packet numbers are unique, and no recorded packet is newer than the
    /// newest send.
    pub open spec fn well_formed(self) -> bool {
        &&& self.slots.len() > 0
        &&& lists_empty_slots(self.free_slots, self.slots)
        &&& self.outstanding_packets == occupied(self.slots)
        &&& self.outstanding_bytes == occupied_bytes(self.slots)
        &&& self.largest_sent is Some == self.last_sent_at_micros is Some
        &&& forall|i: int|
            0 <= i < self.slots.len() ==> (#[trigger] self.slots[i] matches Some(packet) ==> {
                &&& self.largest_sent matches Some(largest) && packet.packet_number <= largest
                &&& self.last_sent_at_micros matches Some(last) && packet.sent_at_micros <= last
            })
        &&& forall|i: int, j: int|
            0 <= i < j < self.slots.len() ==> (#[trigger] self.slots[i] matches Some(left) && (
            #[trigger] self.slots[j] matches Some(right) && left.packet_number
                == right.packet_number) ==> false)
    }

    /// The failure of recording a packet that does not depend on free capacity, if any.
    pub open spec fn record_failure(self, packet: SentPacket) -> Option<RecoveryError> {
        if packet.encoded_bytes == 0 {
            Some(RecoveryError::ZeroPacketSize)
        } else if packet.packet_number > MAX_PACKET_NUMBER {
            Some(RecoveryError::PacketNumberOutOfRange(packet.packet_number))
        } else if self.largest_sent matches Some(largest) && packet.packet_number <= largest {
            Some(RecoveryError::NonMonotonicPacketNumber)
        } else if self.last_sent_at_micros matches Some(last) && packet.sent_at_micros < last {
            Some(RecoveryError::ClockWentBackwards)
        } else {
            None
        }
    }

    /// The largest acknowledged packet once `ack` has been applied.
    pub open spec fn largest_acknowledged_with(self, ack: AckFrame) -> u64 {
        match self.largest_acknowledged {
            Some(current) => max_int(current as int, ack.largest_acked as int) as u64,
            None => ack.largest_acked,
        }
    }

    /// The failure of applying an acknowledgement, if any.
    pub open spec fn ack_failure(self, ack: AckFrame, now: u64) -> Option<RecoveryError> {
        if !(self.largest_sent matches Some(largest) && ack.largest_acked <= largest) {
            Some(RecoveryError::AckForUnsentPacket { largest_acked: ack.largest_acked })
        } else if self.last_sent_at_micros matches Some(last) && now < last {
            Some(RecoveryError::ClockWentBackwards)
        } else {
            None
        }
    }

    /// The RTT estimator once an acknowledgement has been applied: it takes a sample exactly when
    /// the largest acknowledged packet is still in the ledger.
    pub open spec fn is_sampled_rtt(
        &self,
        ack: AckFrame,
        now: u64,
        before: RttEstimatorView,
        after: RttEstimatorView,
        sample: Option<u64>,
    ) -> bool {
        match sample {
            Some(raw) => {
                &&& exists|i: int|
                    0 <= i < self.slots.len() && (#[trigger] self.slots[i] matches Some(packet)
                        && packet.packet_number == ack.largest_acked && raw == now
                        - packet.sent_at_micros)
                &&& after == before.with_sample(raw, ack.ack_delay_micros as u64)
            },
            None => {
                &&& !holds_number(self.slots, ack.largest_acked)
                &&& after == before
            },
        }
    }
}

impl View for SentPacketTable {
    type V = SentPacketTableView;

    closed spec fn view(&self) -> SentPacketTableView {
        SentPacketTableView {
            slots: self.slots@,
            free_slots: self.free_slots@,
            outstanding_packets: self.outstanding_packets,
            outstanding_bytes: self.outstanding_bytes,
            largest_sent: self.largest_sent,
            largest_acknowledged: self.largest_acknowledged,
            last_sent_at_micros: self.last_sent_at_micros,
        }
    }
}

impl SentPacketTable {
    /// The ledger's invariant: the free stack lists exactly the empty slots, the counters are those
    /// of the occupied slots, packet numbers are unique, and no recorded packet is newer than the
    /// newest send.
    pub open spec fn well_formed(&self) -> bool {
        self@.well_formed()
    }

    /// Allocates the complete, fixed slot table once.
    ///
    /// # Errors
    ///
    /// Returns [`RecoveryError::InvalidCapacity`] for a zero capacity.
    pub fn with_capacity(capacity: usize) -> (table: Result<SentPacketTable, RecoveryError>)
        ensures
            capacity == 0 ==> table == Err::<SentPacketTable, RecoveryError>(
                RecoveryError::InvalidCapacity,
            ),
            capacity != 0 ==> {
                &&& table is Ok
                &&& table->Ok_0.well_formed()
                &&& table->Ok_0@.slots == Seq::new(
                    capacity as nat,
                    |i: int| None::<SentPacket>,
                )
                &&& table->Ok_0@.free_slots == Seq::new(
                    capacity as nat,
                    |i: int| (capacity - 1 - i) as usize,
                )
                &&& table->Ok_0@.outstanding_packets == 0
                &&& table->Ok_0@.outstanding_bytes == 0
                &&& table->Ok_0@.largest_sent is None
                &&& table->Ok_0@.largest_acknowledged is None
                &&& table->Ok_0@.last_sent_at_micros is None
            },
    {
        if capacity == 0 {
            return Err(RecoveryError::InvalidCapacity);
        }
        let mut free_slots: Vec<usize> = Vec::with_capacity(capacity);
        let mut slots: Vec<Option<SentPacket>> = Vec::with_capacity(capacity);
        let mut index: usize = capacity;
        while index > 0
            invariant
                index <= capacity,
                slots@.len() == capacity - index,
                free_slots@.len() == capacity - index,
                forall|i: int| 0 <= i < slots@.len() ==> slots@[i] is None,
                forall|i: int| 0 <= i < free_slots@.len() ==> free_slots@[i] == capacity - 1 - i,
            decreases index,
        {
            index = index - 1;
            free_slots.push(index);
            slots.push(None);
        }
        proof {
            lemma_all_empty(slots@);
            assert(slots@ =~= Seq::new(capacity as nat, |i: int| None::<SentPacket>));
            assert(free_slots@ =~= Seq::new(capacity as nat, |i: int| (capacity - 1 - i) as usize));
            assert forall|i: int|
                0 <= i < slots@.len() && #[trigger] slots@[i] is None implies free_slots@.contains(
                i as usize,
            ) by {
                assert(free_slots@[capacity - 1 - i] == i as usize);
            }
        }
        Ok(
            SentPacketTable {
                slots,
                free_slots,
                outstanding_packets: 0,
                outstanding_bytes: 0,
                largest_sent: None,
                largest_acknowledged: None,
                last_sent_at_micros: None,
            },
        )
    }

    /// Records one newly sent acknowledgement-eliciting packet.
    ///
    /// # Errors
    ///
    /// Returns an error for a zero packet size, non-monotonic packet number or clock, a packet
    /// number outside the 62-bit space, accounting overflow, or exhaustion of the configured fixed
    /// slot table. The table is then unchanged.
    pub fn record(&mut self, packet: SentPacket) -> (outcome: Result<(), RecoveryError>)
        requires
            old(self).well_formed(),
        ensures
            final(self).well_formed(),
            outcome is Err ==> final(self)@ == old(self)@,
            match old(self)@.record_failure(packet) {
                Some(error) => outcome == Err::<(), RecoveryError>(error),
                None => if old(self)@.free_slots.len() == 0 {
                    &&& outcome matches Err(error)
                    &&& error matches RecoveryError::CapacityExhausted { oldest_packet_number }
                    &&& is_oldest(old(self)@.slots, oldest_packet_number)
                } else if old(self)@.outstanding_bytes + packet.encoded_bytes > u64::MAX {
                    outcome == Err::<(), RecoveryError>(RecoveryError::AccountingOverflow)
                } else {
                    &&& outcome == Ok::<(), RecoveryError>(())
                    &&& final(self)@.free_slots == old(self)@.free_slots.drop_last()
                    &&& final(self)@.slots == old(self)@.slots.update(
                        old(self)@.free_slots.last() as int,
                        Some(packet),
                    )
                    &&& final(self)@.outstanding_packets == old(self)@.outstanding_packets + 1
                    &&& final(self)@.outstanding_bytes == old(self)@.outstanding_bytes
                        + packet.encoded_bytes
                    &&& final(self)@.largest_sent == Some(packet.packet_number)
                    &&& final(self)@.last_sent_at_micros == Some(packet.sent_at_micros)
                    &&& final(self)@.largest_acknowledged == old(self)@.largest_acknowledged
                },
            },
    {
        if packet.encoded_bytes == 0 {
            return Err(RecoveryError::ZeroPacketSize);
        }
        if packet.packet_number > MAX_PACKET_NUMBER {
            return Err(RecoveryError::PacketNumberOutOfRange(packet.packet_number));
        }
        match self.largest_sent {
            Some(largest) => {
                if packet.packet_number <= largest {
                    return Err(RecoveryError::NonMonotonicPacketNumber);
                }
            },
            None => {},
        }
        match self.last_sent_at_micros {
            Some(last) => {
                if packet.sent_at_micros < last {
                    return Err(RecoveryError::ClockWentBackwards);
                }
            },
            None => {},
        }
        let slot_count: usize = self.slots.len();
        let free_count: usize = self.free_slots.len();
        if free_count == 0 {
            let oldest_packet_number: u64 = self.oldest_packet_number();
            return Err(RecoveryError::CapacityExhausted { oldest_packet_number });
        }
        let index: usize = self.free_slots[free_count - 1];
        proof {
            lemma_fill_slot(self.slots@, index as int, packet);
        }
        let next_packets: usize = self.outstanding_packets + 1;
        let next_bytes: u64 = match self.outstanding_bytes.checked_add(
            packet.encoded_bytes as u64,
        ) {
            Some(next_bytes) => next_bytes,
            None => {
                return Err(RecoveryError::AccountingOverflow);
            },
        };
        self.free_slots.pop();
        self.slots.set(index, Some(packet));
        self.outstanding_packets = next_packets;
        self.outstanding_bytes = next_bytes;
        self.largest_sent = Some(packet.packet_number);
        self.last_sent_at_micros = Some(packet.sent_at_micros);
        proof {
            let before = old(self).free_slots@;
            assert(self.free_slots@ =~= before.drop_last());
            assert forall|i: int|
                0 <= i < self.slots@.len()
                    && #[trigger] self.slots@[i] is None implies self.free_slots@.contains(
                i as usize,
            ) by {
                assert(old(self).slots@[i] is None);
                let j = choose|j: int| 0 <= j < before.len() && before[j] == i as usize;
                assert(before[j] == i as usize);
                assert(j != before.len() - 1);
                assert(self.free_slots@[j] == i as usize);
            }
            assert forall|j: int| 0 <= j < self.free_slots@.len() implies self.slots@[
                #[trigger] self.free_slots@[j] as int
            ] is None by {
                assert(before[j] != before[before.len() - 1]);
            }
        }
        Ok(())
    }

    /// Applies one authenticated path-local ACK and appends its loss and acknowledgement events.
    ///
    /// Losses come first, then acknowledgements, each in slot order. The RTT sample is taken only
    /// when `ack.largest_acked` is newly acknowledged and still present in the table.
    ///
    /// The caller owns the list of events. A list that is cleared between calls and has room for
    /// the table's capacity is never reallocated: one acknowledgement appends at most one event per
    /// tracked packet.
    ///
    /// # Errors
    ///
    /// Returns an error when the ACK acknowledges a packet number never sent on this path or when
    /// `now_micros` precedes the most recent send timestamp. Nothing is changed then.
    pub fn on_ack(
        &mut self,
        ack: AckFrame<'_>,
        now_micros: u64,
        rtt: &mut RttEstimator,
        events: &mut Vec<RecoveryEvent>,
    ) -> (outcome: Result<AckSummary, RecoveryError>)
        requires
            old(self).well_formed(),
        ensures
            final(self).well_formed(),
            match old(self)@.ack_failure(ack, now_micros) {
                Some(error) => {
                    &&& outcome == Err::<AckSummary, RecoveryError>(error)
                    &&& final(self)@ == old(self)@
                    &&& final(rtt)@ == old(rtt)@
                    &&& final(events)@ == old(events)@
                },
                None => {
                    let slots = old(self)@.slots;
                    let largest = old(self)@.largest_acknowledged_with(ack);
                    let delay = final(rtt)@.loss_delay();
                    let losses = loss_events(slots, ack, largest, delay, now_micros);
                    let acknowledgements = acknowledgement_events(slots, ack);
                    &&& outcome matches Ok(summary)
                    &&& old(self)@.is_sampled_rtt(
                        ack,
                        now_micros,
                        old(rtt)@,
                        final(rtt)@,
                        summary.raw_rtt_sample_micros,
                    )
                    &&& final(events)@ == old(events)@ + losses + acknowledgements
                    &&& final(self)@.slots == resolved_slots(slots, ack, largest, delay, now_micros)
                    &&& final(self)@.free_slots == old(self)@.free_slots + lost_slots(
                        slots,
                        ack,
                        largest,
                        delay,
                        now_micros,
                    ) + acknowledged_slots(slots, ack)
                    &&& final(self)@.largest_sent == old(self)@.largest_sent
                    &&& final(self)@.last_sent_at_micros == old(self)@.last_sent_at_micros
                    &&& final(self)@.largest_acknowledged == Some(largest)
                    &&& summary.lost_packets == losses.len()
                    &&& summary.lost_bytes == event_bytes(losses)
                    &&& summary.acknowledged_packets == acknowledgements.len()
                    &&& summary.acknowledged_bytes == event_bytes(acknowledgements)
                    &&& summary.largest_newly_acknowledged == largest_event_number(acknowledgements)
                    &&& final(self)@.outstanding_packets + losses.len() + acknowledgements.len()
                        == old(self)@.outstanding_packets
                    &&& final(self)@.outstanding_bytes + event_bytes(losses) + event_bytes(
                        acknowledgements,
                    ) == old(self)@.outstanding_bytes
                },
            },
    {
        match self.largest_sent {
            Some(largest_sent) => {
                if ack.largest_acked > largest_sent {
                    return Err(
                        RecoveryError::AckForUnsentPacket { largest_acked: ack.largest_acked },
                    );
                }
            },
            None => {
                return Err(RecoveryError::AckForUnsentPacket { largest_acked: ack.largest_acked });
            },
        }
        match self.last_sent_at_micros {
            Some(sent_at) => {
                if now_micros < sent_at {
                    return Err(RecoveryError::ClockWentBackwards);
                }
            },
            None => {},
        }
        let mut summary = AckSummary::default();
        match self.find(ack.largest_acked) {
            Some(packet) => {
                let raw_sample: u64 = now_micros - packet.sent_at_micros;
                rtt.record_sample(raw_sample, ack.ack_delay_micros as u64);
                summary.raw_rtt_sample_micros = Some(raw_sample);
            },
            None => {},
        }
        let largest: u64 = match self.largest_acknowledged {
            Some(current) => max_u64(current, ack.largest_acked),
            None => ack.largest_acked,
        };
        self.largest_acknowledged = Some(largest);
        let delay: u64 = rtt.loss_delay_micros();
        let ghost slots = self.slots@;
        let lost = self.resolve_losses(ack, largest, delay, now_micros, events);
        summary.lost_packets = lost.0;
        summary.lost_bytes = lost.1;
        let ghost after_losses = self.slots@;
        let acknowledged = self.resolve_acknowledgements(ack, events);
        summary.acknowledged_packets = acknowledged.0;
        summary.acknowledged_bytes = acknowledged.1;
        summary.largest_newly_acknowledged = acknowledged.2;
        proof {
            lemma_acknowledgements_ignore_losses(
                slots,
                after_losses,
                ack,
                largest,
                delay,
                now_micros,
            );
            assert(self.slots@ =~= resolved_slots(slots, ack, largest, delay, now_micros));
        }
        Ok(summary)
    }

    /// Drops every lost packet and appends its event.
    fn resolve_losses(
        &mut self,
        ack: AckFrame<'_>,
        largest: u64,
        delay: u64,
        now: u64,
        events: &mut Vec<RecoveryEvent>,
    ) -> (lost: (usize, u64))
        requires
            old(self).well_formed(),
        ensures
            final(self).well_formed(),
            final(self)@.slots.len() == old(self)@.slots.len(),
            forall|i: int|
                0 <= i < old(self)@.slots.len() ==> #[trigger] final(self)@.slots[i] == if slot_lost(
                    old(self)@.slots[i],
                    ack,
                    largest,
                    delay,
                    now,
                ) {
                    None
                } else {
                    old(self)@.slots[i]
                },
            final(events)@ == old(events)@ + loss_events(
                old(self)@.slots,
                ack,
                largest,
                delay,
                now,
            ),
            final(self)@.free_slots == old(self)@.free_slots + lost_slots(
                old(self)@.slots,
                ack,
                largest,
                delay,
                now,
            ),
            final(self)@.largest_sent == old(self)@.largest_sent,
            final(self)@.last_sent_at_micros == old(self)@.last_sent_at_micros,
            final(self)@.largest_acknowledged == old(self)@.largest_acknowledged,
            lost.0 == loss_events(old(self)@.slots, ack, largest, delay, now).len(),
            lost.1 == event_bytes(loss_events(old(self)@.slots, ack, largest, delay, now)),
            final(self)@.outstanding_packets + lost.0 == old(self)@.outstanding_packets,
            final(self)@.outstanding_bytes + lost.1 == old(self)@.outstanding_bytes,
    {
        let total: usize = self.slots.len();
        let mut lost_packets: usize = 0;
        let mut lost_bytes: u64 = 0;
        let mut index: usize = 0;
        let ghost slots = self.slots@;
        assert(slots.take(0) =~= Seq::empty());
        assert(events@ + loss_events(slots.take(0), ack, largest, delay, now) =~= events@);
        assert(self.free_slots@ + lost_slots(slots.take(0), ack, largest, delay, now)
            =~= self.free_slots@);
        while index < total
            invariant
                index <= total,
                total == slots.len(),
                slots == old(self).slots@,
                self.well_formed(),
                self.slots@.len() == total,
                forall|i: int|
                    0 <= i < index ==> #[trigger] self.slots@[i] == if slot_lost(
                        slots[i],
                        ack,
                        largest,
                        delay,
                        now,
                    ) {
                        None
                    } else {
                        slots[i]
                    },
                forall|i: int| index <= i < total ==> #[trigger] self.slots@[i] == slots[i],
                events@ == old(events)@ + loss_events(
                    slots.take(index as int),
                    ack,
                    largest,
                    delay,
                    now,
                ),
                self.free_slots@ == old(self).free_slots@ + lost_slots(
                    slots.take(index as int),
                    ack,
                    largest,
                    delay,
                    now,
                ),
                self.largest_sent == old(self).largest_sent,
                self.last_sent_at_micros == old(self).last_sent_at_micros,
                self.largest_acknowledged == old(self).largest_acknowledged,
                lost_packets == loss_events(
                    slots.take(index as int),
                    ack,
                    largest,
                    delay,
                    now,
                ).len(),
                lost_bytes == event_bytes(
                    loss_events(slots.take(index as int), ack, largest, delay, now),
                ),
                self.outstanding_packets + lost_packets == old(self).outstanding_packets,
                self.outstanding_bytes + lost_bytes == old(self).outstanding_bytes,
            decreases total - index,
        {
            proof {
                assert(slots.take(index + 1).drop_last() =~= slots.take(index as int));
                assert(slots.take(index + 1).last() == slots[index as int]);
            }
            let ghost earlier = loss_events(slots.take(index as int), ack, largest, delay, now);
            match self.slots[index] {
                None => {},
                Some(packet) => {
                    let reason: Option<LossReason> = if ack.acknowledges(packet.packet_number)
                        || packet.packet_number >= largest {
                        None
                    } else if largest - packet.packet_number >= PACKET_LOSS_THRESHOLD {
                        Some(LossReason::PacketThreshold)
                    } else if packet.sent_at_micros.saturating_add(delay) <= now {
                        Some(LossReason::TimeThreshold)
                    } else {
                        None
                    };
                    assert(reason == loss_reason(packet, ack, largest, delay, now));
                    match reason {
                        None => {},
                        Some(reason) => {
                            let event = RecoveryEvent::Lost { packet, reason };
                            let ghost free = self.free_slots@;
                            self.release(index, packet);
                            lost_packets = lost_packets + 1;
                            lost_bytes = lost_bytes + packet.encoded_bytes as u64;
                            events.push(event);
                            proof {
                                assert(earlier.push(event).drop_last() =~= earlier);
                                assert(events@ =~= old(events)@ + earlier.push(event));
                                assert(self.free_slots@ =~= old(self).free_slots@ + lost_slots(
                                    slots.take(index as int),
                                    ack,
                                    largest,
                                    delay,
                                    now,
                                ).push(index));
                            }
                        },
                    }
                },
            }
            index = index + 1;
        }
        assert(slots.take(index as int) =~= slots);
        (lost_packets, lost_bytes)
    }

    /// Drops every acknowledged packet and appends its event.
    fn resolve_acknowledgements(
        &mut self,
        ack: AckFrame<'_>,
        events: &mut Vec<RecoveryEvent>,
    ) -> (acknowledged: (usize, u64, Option<u64>))
        requires
            old(self).well_formed(),
        ensures
            final(self).well_formed(),
            final(self)@.slots.len() == old(self)@.slots.len(),
            forall|i: int|
                0 <= i < old(self)@.slots.len() ==> #[trigger] final(self)@.slots[i]
                    == if slot_acknowledged(old(self)@.slots[i], ack) {
                    None
                } else {
                    old(self)@.slots[i]
                },
            final(events)@ == old(events)@ + acknowledgement_events(old(self)@.slots, ack),
            final(self)@.free_slots == old(self)@.free_slots + acknowledged_slots(
                old(self)@.slots,
                ack,
            ),
            final(self)@.largest_sent == old(self)@.largest_sent,
            final(self)@.last_sent_at_micros == old(self)@.last_sent_at_micros,
            final(self)@.largest_acknowledged == old(self)@.largest_acknowledged,
            acknowledged.0 == acknowledgement_events(old(self)@.slots, ack).len(),
            acknowledged.1 == event_bytes(acknowledgement_events(old(self)@.slots, ack)),
            acknowledged.2 == largest_event_number(acknowledgement_events(old(self)@.slots, ack)),
            final(self)@.outstanding_packets + acknowledged.0 == old(self)@.outstanding_packets,
            final(self)@.outstanding_bytes + acknowledged.1 == old(self)@.outstanding_bytes,
    {
        let total: usize = self.slots.len();
        let mut packets: usize = 0;
        let mut bytes: u64 = 0;
        let mut largest: Option<u64> = None;
        let mut index: usize = 0;
        let ghost slots = self.slots@;
        assert(slots.take(0) =~= Seq::empty());
        assert(events@ + acknowledgement_events(slots.take(0), ack) =~= events@);
        assert(self.free_slots@ + acknowledged_slots(slots.take(0), ack) =~= self.free_slots@);
        while index < total
            invariant
                index <= total,
                total == slots.len(),
                slots == old(self).slots@,
                self.well_formed(),
                self.slots@.len() == total,
                forall|i: int|
                    0 <= i < index ==> #[trigger] self.slots@[i] == if slot_acknowledged(
                        slots[i],
                        ack,
                    ) {
                        None
                    } else {
                        slots[i]
                    },
                forall|i: int| index <= i < total ==> #[trigger] self.slots@[i] == slots[i],
                events@ == old(events)@ + acknowledgement_events(slots.take(index as int), ack),
                self.free_slots@ == old(self).free_slots@ + acknowledged_slots(
                    slots.take(index as int),
                    ack,
                ),
                self.largest_sent == old(self).largest_sent,
                self.last_sent_at_micros == old(self).last_sent_at_micros,
                self.largest_acknowledged == old(self).largest_acknowledged,
                packets == acknowledgement_events(slots.take(index as int), ack).len(),
                bytes == event_bytes(acknowledgement_events(slots.take(index as int), ack)),
                largest == largest_event_number(
                    acknowledgement_events(slots.take(index as int), ack),
                ),
                self.outstanding_packets + packets == old(self).outstanding_packets,
                self.outstanding_bytes + bytes == old(self).outstanding_bytes,
            decreases total - index,
        {
            proof {
                assert(slots.take(index + 1).drop_last() =~= slots.take(index as int));
                assert(slots.take(index + 1).last() == slots[index as int]);
            }
            let ghost earlier = acknowledgement_events(slots.take(index as int), ack);
            match self.slots[index] {
                None => {},
                Some(packet) => {
                    if ack.acknowledges(packet.packet_number) {
                        let event = RecoveryEvent::Acknowledged(packet);
                        self.release(index, packet);
                        packets = packets + 1;
                        bytes = bytes + packet.encoded_bytes as u64;
                        largest =
                        match largest {
                            Some(current) => Some(max_u64(current, packet.packet_number)),
                            None => Some(packet.packet_number),
                        };
                        events.push(event);
                        proof {
                            assert(earlier.push(event).drop_last() =~= earlier);
                            assert(events@ =~= old(events)@ + earlier.push(event));
                            assert(self.free_slots@ =~= old(self).free_slots@ + acknowledged_slots(
                                slots.take(index as int),
                                ack,
                            ).push(index));
                        }
                    }
                },
            }
            index = index + 1;
        }
        assert(slots.take(index as int) =~= slots);
        (packets, bytes, largest)
    }

    /// Empties one occupied slot, returns it to the free stack and releases its accounting.
    fn release(&mut self, index: usize, packet: SentPacket)
        requires
            old(self).well_formed(),
            index < old(self)@.slots.len(),
            old(self)@.slots[index as int] == Some(packet),
        ensures
            final(self).well_formed(),
            final(self)@.slots == old(self)@.slots.update(index as int, None),
            final(self)@.free_slots == old(self)@.free_slots.push(index),
            final(self)@.outstanding_packets + 1 == old(self)@.outstanding_packets,
            final(self)@.outstanding_bytes + packet.encoded_bytes == old(self)@.outstanding_bytes,
            final(self)@.largest_sent == old(self)@.largest_sent,
            final(self)@.last_sent_at_micros == old(self)@.last_sent_at_micros,
            final(self)@.largest_acknowledged == old(self)@.largest_acknowledged,
    {
        proof {
            lemma_clear_slot(self.slots@, index as int);
        }
        self.slots.set(index, None);
        self.free_slots.push(index);
        self.outstanding_packets = self.outstanding_packets.saturating_sub(1);
        self.outstanding_bytes = self.outstanding_bytes.saturating_sub(packet.encoded_bytes as u64);
        proof {
            let before = old(self).free_slots@;
            let after = self.free_slots@;
            assert forall|i: int|
                0 <= i < self.slots@.len()
                    && #[trigger] self.slots@[i] is None implies after.contains(i as usize) by {
                if i == index {
                    assert(after[after.len() - 1] == i as usize);
                } else {
                    assert(old(self).slots@[i] is None);
                    let j = choose|j: int| 0 <= j < before.len() && before[j] == i as usize;
                    assert(after[j] == i as usize);
                }
            }
            assert forall|j: int, k: int|
                0 <= j < after.len() && 0 <= k < after.len() && j != k implies after[j]
                != after[k] by {
                if j < before.len() {
                    assert(old(self).slots@[before[j] as int] is None);
                }
                if k < before.len() {
                    assert(old(self).slots@[before[k] as int] is None);
                }
            }
            assert forall|j: int| 0 <= j < after.len() implies #[trigger] after[j]
                < self.slots@.len() && self.slots@[after[j] as int] is None by {
                if j < before.len() {
                    assert(old(self).slots@[before[j] as int] is None);
                }
            }
        }
    }

    /// The smallest packet number in a table without empty slots.
    fn oldest_packet_number(&self) -> (number: u64)
        requires
            self.well_formed(),
            self@.free_slots.len() == 0,
        ensures
            is_oldest(self@.slots, number),
    {
        let mut number: u64 = u64::MAX;
        let mut index: usize = 0;
        while index < self.slots.len()
            invariant
                index <= self.slots@.len(),
                self.well_formed(),
                self.free_slots@.len() == 0,
                index == 0 ==> number == u64::MAX,
                index > 0 ==> exists|i: int|
                    0 <= i < index && (#[trigger] self.slots@[i] matches Some(packet)
                        && packet.packet_number == number),
                forall|i: int|
                    0 <= i < index ==> (#[trigger] self.slots@[i] matches Some(packet) ==> number
                        <= packet.packet_number),
            decreases self.slots@.len() - index,
        {
            match self.slots[index] {
                Some(packet) => {
                    assert(self.slots@[index as int] == Some(packet));
                    if index == 0 || packet.packet_number < number {
                        number = packet.packet_number;
                    }
                },
                None => {
                    assert(self.slots@[index as int] is None);
                    assert(self.free_slots@.contains(index));
                },
            }
            index = index + 1;
        }
        number
    }

    /// Returns the configured maximum number of outstanding packets.
    pub fn capacity(&self) -> (capacity: usize)
        ensures
            capacity == self@.slots.len(),
    {
        self.slots.len()
    }

    /// Returns the number of packets currently awaiting ACK or loss.
    pub fn outstanding_packets(&self) -> (packets: usize)
        ensures
            packets == self@.outstanding_packets,
    {
        self.outstanding_packets
    }

    /// Returns encoded bytes currently awaiting ACK or loss.
    pub fn outstanding_bytes(&self) -> (bytes: u64)
        ensures
            bytes == self@.outstanding_bytes,
    {
        self.outstanding_bytes
    }

    /// Returns the largest packet number ever recorded on this path.
    pub fn largest_sent(&self) -> (number: Option<u64>)
        ensures
            number == self@.largest_sent,
    {
        self.largest_sent
    }

    /// Returns the largest authenticated packet number ever acknowledged.
    pub fn largest_acknowledged(&self) -> (number: Option<u64>)
        ensures
            number == self@.largest_acknowledged,
    {
        self.largest_acknowledged
    }

    fn find(&self, packet_number: u64) -> (found: Option<SentPacket>)
        ensures
            match found {
                Some(packet) => packet.packet_number == packet_number && exists|i: int|
                    0 <= i < self@.slots.len() && #[trigger] self@.slots[i] == Some(packet),
                None => !holds_number(self@.slots, packet_number),
            },
    {
        let mut index: usize = 0;
        while index < self.slots.len()
            invariant
                index <= self.slots@.len(),
                forall|i: int|
                    0 <= i < index ==> (#[trigger] self.slots@[i] matches Some(packet)
                        ==> packet.packet_number != packet_number),
            decreases self.slots@.len() - index,
        {
            match self.slots[index] {
                Some(packet) => {
                    if packet.packet_number == packet_number {
                        assert(self@.slots[index as int] == Some(packet));
                        return Some(packet);
                    }
                },
                None => {},
            }
            index = index + 1;
        }
        None
    }
}

/// Dropping lost packets does not change which packets are acknowledged.
proof fn lemma_acknowledgements_ignore_losses(
    slots: Seq<Option<SentPacket>>,
    remaining: Seq<Option<SentPacket>>,
    ack: AckFrame,
    largest: u64,
    delay: u64,
    now: u64,
)
    requires
        remaining.len() == slots.len(),
        forall|i: int|
            0 <= i < slots.len() ==> #[trigger] remaining[i] == if slot_lost(
                slots[i],
                ack,
                largest,
                delay,
                now,
            ) {
                None
            } else {
                slots[i]
            },
    ensures
        acknowledgement_events(remaining, ack) == acknowledgement_events(slots, ack),
        acknowledged_slots(remaining, ack) == acknowledged_slots(slots, ack),
    decreases slots.len(),
{
    if slots.len() > 0 {
        assert forall|i: int| 0 <= i < slots.drop_last().len() implies #[trigger] remaining.drop_last()[i]
            == if slot_lost(slots.drop_last()[i], ack, largest, delay, now) {
            None
        } else {
            slots.drop_last()[i]
        } by {
            assert(remaining[i] == remaining.drop_last()[i]);
        }
        lemma_acknowledgements_ignore_losses(
            slots.drop_last(),
            remaining.drop_last(),
            ack,
            largest,
            delay,
            now,
        );
        assert(remaining.last() == remaining[slots.len() - 1]);
    }
}

/// An acknowledgement resolves each outstanding packet at most once: a packet has an
/// acknowledgement event exactly when the frame covers it, a loss event exactly when a threshold
/// declares it lost, and never both.
pub proof fn lemma_each_packet_is_resolved_once(
    slots: Seq<Option<SentPacket>>,
    index: int,
    ack: AckFrame,
    largest: u64,
    delay: u64,
    now: u64,
)
    requires
        0 <= index < slots.len(),
    ensures
        slot_acknowledged(slots[index], ack) ==> acknowledgement_events(slots, ack).contains(
            RecoveryEvent::Acknowledged(slots[index]->0),
        ),
        slot_lost(slots[index], ack, largest, delay, now) ==> loss_events(
            slots,
            ack,
            largest,
            delay,
            now,
        ).contains(
            RecoveryEvent::Lost {
                packet: slots[index]->0,
                reason: loss_reason(slots[index]->0, ack, largest, delay, now)->0,
            },
        ),
        !(slot_acknowledged(slots[index], ack) && slot_lost(
            slots[index],
            ack,
            largest,
            delay,
            now,
        )),
        acknowledgement_events(slots, ack).len() + loss_events(
            slots,
            ack,
            largest,
            delay,
            now,
        ).len() + occupied(resolved_slots(slots, ack, largest, delay, now)) == occupied(slots),
    decreases slots.len(),
{
    let earlier = slots.drop_last();
    let acknowledgements = acknowledgement_events(earlier, ack);
    let losses = loss_events(earlier, ack, largest, delay, now);
    assert(resolved_slots(slots, ack, largest, delay, now).drop_last() =~= resolved_slots(
        earlier,
        ack,
        largest,
        delay,
        now,
    ));
    let resolved = resolved_slots(slots, ack, largest, delay, now);
    assert(resolved.last() == resolved[slots.len() - 1]);
    assert(slots.last() == slots[slots.len() - 1]);
    if slots.len() == 1 {
        assert(occupied(earlier) == 0);
        assert(occupied(resolved.drop_last()) == 0);
    }
    if slots.len() > 1 {
        let inner = if index < earlier.len() {
            index
        } else {
            0
        };
        lemma_each_packet_is_resolved_once(earlier, inner, ack, largest, delay, now);
    }
    if index == slots.len() - 1 {
        let all_acknowledgements = acknowledgement_events(slots, ack);
        let all_losses = loss_events(slots, ack, largest, delay, now);
        if slot_acknowledged(slots[index], ack) {
            assert(all_acknowledgements[all_acknowledgements.len() - 1]
                == RecoveryEvent::Acknowledged(slots[index]->0));
        }
        if slot_lost(slots[index], ack, largest, delay, now) {
            assert(all_losses[all_losses.len() - 1] == (RecoveryEvent::Lost {
                packet: slots[index]->0,
                reason: loss_reason(slots[index]->0, ack, largest, delay, now)->0,
            }));
        }
    } else {
        if slot_acknowledged(slots[index], ack) {
            let event = RecoveryEvent::Acknowledged(slots[index]->0);
            let at = choose|at: int|
                0 <= at < acknowledgements.len() && acknowledgements[at] == event;
            assert(acknowledgement_events(slots, ack)[at] == event);
        }
        if slot_lost(slots[index], ack, largest, delay, now) {
            let event = RecoveryEvent::Lost {
                packet: slots[index]->0,
                reason: loss_reason(slots[index]->0, ack, largest, delay, now)->0,
            };
            let at = choose|at: int| 0 <= at < losses.len() && losses[at] == event;
            assert(loss_events(slots, ack, largest, delay, now)[at] == event);
        }
    }
}

/// Current scheduling inputs for one validated path.
#[derive(Clone, Copy, Debug, PartialEq, Eq, Structural)]
pub struct PathCandidate {
    pub path_id: u8,
    pub validated: bool,
    pub sendable: bool,
    pub smoothed_rtt_micros: u64,
    pub pacer_delay_micros: u64,
    pub queued_bytes: u64,
    pub estimated_rate_bytes_per_second: u64,
    pub loss_penalty_micros: u64,
}

impl PathCandidate {
    /// Whether the path can carry a packet.
    pub open spec fn usable(self) -> bool {
        self.validated && self.sendable && self.estimated_rate_bytes_per_second != 0
    }

    /// Estimated delay until delivery on a usable path: pacing, half an RTT, the queue drained at
    /// the estimated rate (rounded up) and the loss penalty.
    pub open spec fn delivery_delay(self) -> u64 {
        clip64(
            self.pacer_delay_micros + self.smoothed_rtt_micros / 2 + ceil_div(
                self.queued_bytes * 1_000_000,
                self.estimated_rate_bytes_per_second as int,
            ) + self.loss_penalty_micros,
        )
    }

    /// Estimates delay until delivery, or returns `None` for an unusable path.
    pub fn estimated_delivery_delay_micros(self) -> (delay: Option<u64>)
        ensures
            delay == if self.usable() {
                Some(self.delivery_delay())
            } else {
                None
            },
    {
        if !self.validated || !self.sendable || self.estimated_rate_bytes_per_second == 0 {
            return None;
        }
        let demand: u128 = wide_product(self.queued_bytes, 1_000_000);
        let rate: u128 = self.estimated_rate_bytes_per_second as u128;
        let queue_delay: u128 = ceil_div_u128(demand, rate);
        assert(queue_delay <= demand) by (nonlinear_arith)
            requires
                queue_delay == ceil_div(demand as int, rate as int),
                rate >= 1,
                demand >= 0,
        ;
        let estimate: u128 = self.pacer_delay_micros as u128 + (self.smoothed_rtt_micros / 2) as u128
            + queue_delay + self.loss_penalty_micros as u128;
        Some(clip_u128(estimate))
    }
}

/// Chosen target for retransmitting one stable recovery token.
#[derive(Clone, Copy, Debug, PartialEq, Eq, Structural)]
pub struct ReinjectionDecision {
    pub token: RecoveryToken,
    pub source_path_id: u8,
    pub target_path_id: u8,
    pub estimated_delivery_delay_micros: u64,
}

/// Whether one candidate precedes another: by estimated delay, then by path identifier.
pub open spec fn not_later(left: PathCandidate, right: PathCandidate) -> bool {
    ||| left.delivery_delay() < right.delivery_delay()
    ||| left.delivery_delay() == right.delivery_delay() && left.path_id <= right.path_id
}

/// Selects the usable path with the lowest estimated delivery delay.
///
/// The original path remains eligible when it is still usable. Ties are broken by path identifier,
/// making the decision deterministic.
pub fn select_reinjection_path(
    token: RecoveryToken,
    source_path_id: u8,
    candidates: &[PathCandidate],
) -> (decision: Option<ReinjectionDecision>)
    ensures
        match decision {
            None => forall|i: int| 0 <= i < candidates@.len() ==> !(#[trigger] candidates@[i]).usable(),
            Some(decision) => {
                &&& decision.token == token
                &&& decision.source_path_id == source_path_id
                &&& exists|i: int|
                    #![trigger candidates@[i]]
                    0 <= i < candidates@.len() && candidates@[i].usable()
                        && decision.target_path_id == candidates@[i].path_id
                        && decision.estimated_delivery_delay_micros
                        == candidates@[i].delivery_delay() && forall|j: int|
                        0 <= j < candidates@.len() && (#[trigger] candidates@[j]).usable()
                            ==> not_later(candidates@[i], candidates@[j])
            },
        },
{
    let mut best: Option<usize> = None;
    let mut best_delay: u64 = 0;
    let mut index: usize = 0;
    while index < candidates.len()
        invariant
            index <= candidates@.len(),
            match best {
                None => forall|i: int| 0 <= i < index ==> !(#[trigger] candidates@[i]).usable(),
                Some(chosen) => {
                    &&& chosen < index
                    &&& candidates@[chosen as int].usable()
                    &&& best_delay == candidates@[chosen as int].delivery_delay()
                    &&& forall|j: int|
                        0 <= j < index && (#[trigger] candidates@[j]).usable() ==> not_later(
                            candidates@[chosen as int],
                            candidates@[j],
                        )
                },
            },
        decreases candidates@.len() - index,
    {
        match candidates[index].estimated_delivery_delay_micros() {
            None => {},
            Some(delay) => {
                let better: bool = match best {
                    None => true,
                    Some(chosen) => delay < best_delay || (delay == best_delay
                        && candidates[index].path_id < candidates[chosen].path_id),
                };
                if better {
                    best = Some(index);
                    best_delay = delay;
                }
            },
        }
        index = index + 1;
    }
    match best {
        None => None,
        Some(chosen) => Some(
            ReinjectionDecision {
                token,
                source_path_id,
                target_path_id: candidates[chosen].path_id,
                estimated_delivery_delay_micros: best_delay,
            },
        ),
    }
}

} // verus!
