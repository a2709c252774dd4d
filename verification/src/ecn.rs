//! Allocation-free Explicit Congestion Notification state for one path.
//!
//! The base profile marks with ECT(0), authenticates cumulative receiver counters inside ACK
//! plaintext, and disables marking on validation failure.

use vstd::prelude::*;

use crate::arith::clip64;
use crate::text::fixed;

verus! {

/// Maximum ECT(0)-marked packets used to validate a new path.
pub const ECN_VALIDATION_PROBES: u8 = 10;

/// The two-bit ECN field carried by an IPv4 or IPv6 header.
#[derive(Clone, Copy, Debug, PartialEq, Eq, Structural)]
pub enum EcnCodepoint {
    NotEct,
    Ect1,
    Ect0,
    Ce,
}

impl Default for EcnCodepoint {
    fn default() -> (codepoint: EcnCodepoint)
        ensures
            codepoint == EcnCodepoint::NotEct,
    {
        EcnCodepoint::NotEct
    }
}

/// Invalid local ECN accounting or marking operation.
#[derive(Clone, Copy, Debug, PartialEq, Eq, Structural)]
pub enum EcnError {
    CounterOverflow,
    UnsupportedOutgoingCodepoint,
    MarkingNotPermitted,
}

impl EcnError {
    /// The diagnostic text of a failure.
    pub open spec fn message_text(self) -> Seq<char> {
        match self {
            EcnError::CounterOverflow => "ECN counter overflow"@,
            EcnError::UnsupportedOutgoingCodepoint =>
            "outgoing ECN codepoint is not supported by this profile"@,
            EcnError::MarkingNotPermitted =>
            "ECN marking is not permitted in the current path state"@,
        }
    }

    /// Returns the diagnostic text of this failure.
    pub fn message(&self) -> (text: String)
        ensures
            text@ == self.message_text(),
    {
        match *self {
            EcnError::CounterOverflow => fixed("ECN counter overflow"),
            EcnError::UnsupportedOutgoingCodepoint => fixed(
                "outgoing ECN codepoint is not supported by this profile",
            ),
            EcnError::MarkingNotPermitted => fixed(
                "ECN marking is not permitted in the current path state",
            ),
        }
    }
}

/// Cumulative counts reported in an authenticated ACK.
#[derive(Clone, Copy, Debug, PartialEq, Eq, Structural)]
pub struct EcnCounts {
    pub ect0: u64,
    pub ect1: u64,
    pub ce: u64,
}

impl EcnCounts {
    /// Sum of the three counters.
    pub open spec fn total(self) -> int {
        self.ect0 + self.ect1 + self.ce
    }

    /// Whether no counter is below the same counter of `previous`.
    pub open spec fn not_below(self, previous: EcnCounts) -> bool {
        self.ect0 >= previous.ect0 && self.ect1 >= previous.ect1 && self.ce >= previous.ce
    }

    /// The counter that a codepoint increments.
    pub open spec fn counter(self, codepoint: EcnCodepoint) -> u64 {
        match codepoint {
            EcnCodepoint::NotEct => 0,
            EcnCodepoint::Ect0 => self.ect0,
            EcnCodepoint::Ect1 => self.ect1,
            EcnCodepoint::Ce => self.ce,
        }
    }

    fn checked_delta(self, previous: EcnCounts) -> (delta: Option<EcnCounts>)
        ensures
            delta == if self.not_below(previous) {
                Some(
                    EcnCounts {
                        ect0: (self.ect0 - previous.ect0) as u64,
                        ect1: (self.ect1 - previous.ect1) as u64,
                        ce: (self.ce - previous.ce) as u64,
                    },
                )
            } else {
                None
            },
    {
        if self.ect0 < previous.ect0 || self.ect1 < previous.ect1 || self.ce < previous.ce {
            return None;
        }
        Some(
            EcnCounts {
                ect0: self.ect0 - previous.ect0,
                ect1: self.ect1 - previous.ect1,
                ce: self.ce - previous.ce,
            },
        )
    }

    fn checked_total(self) -> (total: Option<u64>)
        ensures
            total == if self.total() <= u64::MAX {
                Some(self.total() as u64)
            } else {
                None
            },
    {
        match self.ect0.checked_add(self.ect1) {
            Some(marked) => marked.checked_add(self.ce),
            None => None,
        }
    }
}

impl Default for EcnCounts {
    fn default() -> (counts: EcnCounts)
        ensures
            counts == (EcnCounts { ect0: 0, ect1: 0, ce: 0 }),
    {
        EcnCounts { ect0: 0, ect1: 0, ce: 0 }
    }
}

/// Receiver-side cumulative counter state.
#[derive(Clone, Copy, Debug, PartialEq, Eq, Structural)]
pub struct EcnReceiver {
    counts: EcnCounts,
}

impl View for EcnReceiver {
    type V = EcnCounts;

    closed spec fn view(&self) -> EcnCounts {
        self.counts
    }
}

impl EcnReceiver {
    /// Accounts for one newly authenticated, non-duplicate UDP datagram.
    ///
    /// # Errors
    ///
    /// Returns [`EcnError::CounterOverflow`] rather than wrapping a wire counter. Not-ECT datagrams
    /// do not affect the counters.
    pub fn on_datagram(&mut self, codepoint: EcnCodepoint) -> (outcome: Result<(), EcnError>)
        ensures
            if codepoint == EcnCodepoint::NotEct {
                &&& outcome == Ok::<(), EcnError>(())
                &&& final(self)@ == old(self)@
            } else if old(self)@.counter(codepoint) == u64::MAX {
                &&& outcome == Err::<(), EcnError>(EcnError::CounterOverflow)
                &&& final(self)@ == old(self)@
            } else {
                &&& outcome == Ok::<(), EcnError>(())
                &&& final(self)@ == (EcnCounts {
                    ect0: (old(self)@.ect0 + if codepoint == EcnCodepoint::Ect0 {
                        1int
                    } else {
                        0
                    }) as u64,
                    ect1: (old(self)@.ect1 + if codepoint == EcnCodepoint::Ect1 {
                        1int
                    } else {
                        0
                    }) as u64,
                    ce: (old(self)@.ce + if codepoint == EcnCodepoint::Ce {
                        1int
                    } else {
                        0
                    }) as u64,
                })
            },
    {
        match codepoint {
            EcnCodepoint::NotEct => {},
            EcnCodepoint::Ect0 => match self.counts.ect0.checked_add(1) {
                Some(next) => {
                    self.counts.ect0 = next;
                },
                None => {
                    return Err(EcnError::CounterOverflow);
                },
            },
            EcnCodepoint::Ect1 => match self.counts.ect1.checked_add(1) {
                Some(next) => {
                    self.counts.ect1 = next;
                },
                None => {
                    return Err(EcnError::CounterOverflow);
                },
            },
            EcnCodepoint::Ce => match self.counts.ce.checked_add(1) {
                Some(next) => {
                    self.counts.ce = next;
                },
                None => {
                    return Err(EcnError::CounterOverflow);
                },
            },
        }
        Ok(())
    }

    /// Returns the counters to put into the next authenticated ACK.
    pub fn counts(self) -> (counts: EcnCounts)
        ensures
            counts == self@,
    {
        self.counts
    }
}

impl Default for EcnReceiver {
    fn default() -> (receiver: EcnReceiver)
        ensures
            receiver@ == (EcnCounts { ect0: 0, ect1: 0, ce: 0 }),
    {
        EcnReceiver { counts: EcnCounts::default() }
    }
}

/// Current sender-side ECN capability for one path.
#[derive(Clone, Copy, Debug, PartialEq, Eq, Structural)]
pub enum EcnState {
    Disabled,
    Testing,
    Unknown,
    Capable,
    Failed,
}

/// Reason a path permanently stopped using ECN.
#[derive(Clone, Copy, Debug, PartialEq, Eq, Structural)]
pub enum EcnFailure {
    MissingCounts,
    CountersDecreased,
    CountsExceedSentPackets,
    MarkingWasRewritten,
    AllValidationProbesLost,
}

/// Result of processing authenticated ECN feedback.
#[derive(Clone, Copy, Debug, PartialEq, Eq, Structural)]
pub enum EcnValidationResult {
    Ignored,
    Validated { ce_increase: u64 },
    Failed(EcnFailure),
}

/// Sender-side path validator and marking policy.
#[derive(Clone, Copy, Debug, PartialEq, Eq)]
pub struct EcnValidator {
    state: EcnState,
    failure: Option<EcnFailure>,
    sent_ect0: u64,
    sent_ect1: u64,
    validation_probes_sent: u8,
    validation_probes_lost: u64,
    largest_acknowledged_processed: Option<u64>,
    peer_counts: EcnCounts,
}

/// What a validator knows of its path.
pub struct EcnValidatorView {
    pub state: EcnState,
    pub failure: Option<EcnFailure>,
    pub sent_ect0: u64,
    pub sent_ect1: u64,
    pub validation_probes_sent: u8,
    pub validation_probes_lost: u64,
    pub largest_acknowledged_processed: Option<u64>,
    pub peer_counts: EcnCounts,
}


impl EcnValidatorView {
    /// A failed path remembers why it failed, and no datagram was sent with ECT(1).
    pub open spec fn well_formed(self) -> bool {
        &&& self.state == EcnState::Failed ==> self.failure is Some
        &&& self.sent_ect1 == 0
    }

    /// Whether outgoing datagrams are marked.
    pub open spec fn marks(self) -> bool {
        self.state == EcnState::Testing || self.state == EcnState::Capable
    }

    /// The validator after a failure.
    pub open spec fn failed(self, reason: EcnFailure) -> EcnValidatorView {
        EcnValidatorView { state: EcnState::Failed, failure: Some(reason), ..self }
    }

    /// The reason to fail on cumulative counts, if any: no counter may decrease, none may exceed
    /// what was sent, and every newly acknowledged mark must show up as itself or as CE.
    pub open spec fn counts_failure(
        self,
        newly_acked_ect0: u64,
        newly_acked_ect1: u64,
        counts: EcnCounts,
    ) -> Option<EcnFailure> {
        let before = self.peer_counts;
        let ce = counts.ce - before.ce;
        if !counts.not_below(before) {
            Some(EcnFailure::CountersDecreased)
        } else if self.sent_ect0 + self.sent_ect1 > u64::MAX || counts.total() > u64::MAX
            || counts.ect0 > self.sent_ect0 || counts.ect1 > self.sent_ect1 || counts.total()
            > self.sent_ect0 + self.sent_ect1 {
            Some(EcnFailure::CountsExceedSentPackets)
        } else if counts.ect0 - before.ect0 + ce < newly_acked_ect0 || counts.ect1 - before.ect1
            + ce < newly_acked_ect1 || counts.total() - before.total() < newly_acked_ect0
            + newly_acked_ect1 {
            Some(EcnFailure::MarkingWasRewritten)
        } else {
            None
        }
    }

    /// The verdict on one acknowledgement: the next state and the result.
    pub open spec fn judged(
        self,
        largest_acknowledged: u64,
        newly_acked_ect0: u64,
        newly_acked_ect1: u64,
        counts: Option<EcnCounts>,
    ) -> (EcnValidatorView, EcnValidationResult) {
        let reported = newly_acked_ect0 + newly_acked_ect1;
        if self.state == EcnState::Disabled {
            (self, EcnValidationResult::Ignored)
        } else if self.state == EcnState::Failed {
            (
                self,
                EcnValidationResult::Failed(
                    match self.failure {
                        Some(reason) => reason,
                        None => EcnFailure::CountsExceedSentPackets,
                    },
                ),
            )
        } else if self.largest_acknowledged_processed matches Some(largest) && largest_acknowledged
            <= largest {
            (self, EcnValidationResult::Ignored)
        } else if reported > u64::MAX {
            (
                self.failed(EcnFailure::CountsExceedSentPackets),
                EcnValidationResult::Failed(EcnFailure::CountsExceedSentPackets),
            )
        } else {
            match counts {
                None => if reported != 0 {
                    (
                        self.failed(EcnFailure::MissingCounts),
                        EcnValidationResult::Failed(EcnFailure::MissingCounts),
                    )
                } else {
                    (
                        EcnValidatorView {
                            largest_acknowledged_processed: Some(largest_acknowledged),
                            ..self
                        },
                        EcnValidationResult::Ignored,
                    )
                },
                Some(counts) => match self.counts_failure(
                    newly_acked_ect0,
                    newly_acked_ect1,
                    counts,
                ) {
                    Some(reason) => (self.failed(reason), EcnValidationResult::Failed(reason)),
                    None => (
                        EcnValidatorView {
                            peer_counts: counts,
                            largest_acknowledged_processed: Some(largest_acknowledged),
                            state: if reported != 0 || counts.total() != 0 {
                                EcnState::Capable
                            } else {
                                self.state
                            },
                            ..self
                        },
                        EcnValidationResult::Validated {
                            ce_increase: (counts.ce - self.peer_counts.ce) as u64,
                        },
                    ),
                },
            }
        }
    }
}

impl View for EcnValidator {
    type V = EcnValidatorView;

    closed spec fn view(&self) -> EcnValidatorView {
        EcnValidatorView {
            state: self.state,
            failure: self.failure,
            sent_ect0: self.sent_ect0,
            sent_ect1: self.sent_ect1,
            validation_probes_sent: self.validation_probes_sent,
            validation_probes_lost: self.validation_probes_lost,
            largest_acknowledged_processed: self.largest_acknowledged_processed,
            peer_counts: self.peer_counts,
        }
    }
}

impl EcnValidator {
    /// A failed path remembers why it failed, and no datagram was sent with ECT(1).
    pub open spec fn well_formed(self) -> bool {
        self@.well_formed()
    }

    /// Creates per-path ECN state after capability negotiation.
    pub fn new(negotiated: bool) -> (validator: EcnValidator)
        ensures
            validator.well_formed(),
            validator@ == (EcnValidatorView {
                state: if negotiated {
                    EcnState::Testing
                } else {
                    EcnState::Disabled
                },
                failure: None,
                sent_ect0: 0,
                sent_ect1: 0,
                validation_probes_sent: 0,
                validation_probes_lost: 0,
                largest_acknowledged_processed: None,
                peer_counts: EcnCounts { ect0: 0, ect1: 0, ce: 0 },
            }),
    {
        EcnValidator {
            state: if negotiated {
                EcnState::Testing
            } else {
                EcnState::Disabled
            },
            failure: None,
            sent_ect0: 0,
            sent_ect1: 0,
            validation_probes_sent: 0,
            validation_probes_lost: 0,
            largest_acknowledged_processed: None,
            peer_counts: EcnCounts { ect0: 0, ect1: 0, ce: 0 },
        }
    }

    /// Returns the IP codepoint to apply to the next outgoing datagram.
    pub fn outgoing_codepoint(self) -> (codepoint: EcnCodepoint)
        ensures
            codepoint == if self@.marks() {
                EcnCodepoint::Ect0
            } else {
                EcnCodepoint::NotEct
            },
    {
        match self.state {
            EcnState::Testing | EcnState::Capable => EcnCodepoint::Ect0,
            EcnState::Disabled | EcnState::Unknown | EcnState::Failed => EcnCodepoint::NotEct,
        }
    }

    /// Records the codepoint actually applied after a successful kernel send.
    ///
    /// # Errors
    ///
    /// Returns an error when the codepoint violates the current base-profile policy or a counter
    /// would overflow.
    pub fn on_packet_sent(&mut self, codepoint: EcnCodepoint) -> (outcome: Result<(), EcnError>)
        requires
            old(self).well_formed(),
        ensures
            final(self).well_formed(),
            if codepoint == EcnCodepoint::NotEct {
                &&& outcome == Ok::<(), EcnError>(())
                &&& final(self)@ == old(self)@
            } else if codepoint != EcnCodepoint::Ect0 {
                &&& outcome == Err::<(), EcnError>(EcnError::UnsupportedOutgoingCodepoint)
                &&& final(self)@ == old(self)@
            } else if !old(self)@.marks() {
                &&& outcome == Err::<(), EcnError>(EcnError::MarkingNotPermitted)
                &&& final(self)@ == old(self)@
            } else if old(self)@.sent_ect0 == u64::MAX {
                &&& outcome == Err::<(), EcnError>(EcnError::CounterOverflow)
                &&& final(self)@ == old(self)@
            } else if old(self)@.state == EcnState::Testing && old(self)@.validation_probes_sent
                == u8::MAX {
                &&& outcome == Err::<(), EcnError>(EcnError::CounterOverflow)
                &&& final(self)@ == (EcnValidatorView {
                    sent_ect0: (old(self)@.sent_ect0 + 1) as u64,
                    ..old(self)@
                })
            } else {
                let probes = old(self)@.validation_probes_sent + if old(self)@.state
                    == EcnState::Testing {
                    1int
                } else {
                    0
                };
                &&& outcome == Ok::<(), EcnError>(())
                &&& final(self)@ == (EcnValidatorView {
                    sent_ect0: (old(self)@.sent_ect0 + 1) as u64,
                    validation_probes_sent: probes as u8,
                    state: if old(self)@.state == EcnState::Testing && probes
                        >= ECN_VALIDATION_PROBES {
                        EcnState::Unknown
                    } else {
                        old(self)@.state
                    },
                    ..old(self)@
                })
            },
    {
        match codepoint {
            EcnCodepoint::NotEct => {
                return Ok(());
            },
            EcnCodepoint::Ect1 | EcnCodepoint::Ce => {
                return Err(EcnError::UnsupportedOutgoingCodepoint);
            },
            EcnCodepoint::Ect0 => {},
        }
        if self.state != EcnState::Testing && self.state != EcnState::Capable {
            return Err(EcnError::MarkingNotPermitted);
        }
        self.sent_ect0 =
        match self.sent_ect0.checked_add(1) {
            Some(next) => next,
            None => {
                return Err(EcnError::CounterOverflow);
            },
        };
        if self.state == EcnState::Testing {
            self.validation_probes_sent =
            match self.validation_probes_sent.checked_add(1) {
                Some(next) => next,
                None => {
                    return Err(EcnError::CounterOverflow);
                },
            };
            if self.validation_probes_sent >= ECN_VALIDATION_PROBES {
                self.state = EcnState::Unknown;
            }
        }
        Ok(())
    }

    /// Records validation probes that recovery declared lost.
    pub fn on_validation_probes_lost(&mut self, count: u64) -> (result: EcnValidationResult)
        requires
            old(self).well_formed(),
        ensures
            final(self).well_formed(),
            if old(self)@.state == EcnState::Disabled || old(self)@.state == EcnState::Capable {
                &&& result == EcnValidationResult::Ignored
                &&& final(self)@ == old(self)@
            } else if old(self)@.state == EcnState::Failed {
                &&& result == EcnValidationResult::Failed(
                    match old(self)@.failure {
                        Some(reason) => reason,
                        None => EcnFailure::AllValidationProbesLost,
                    },
                )
                &&& final(self)@ == old(self)@
            } else {
                let lost = clip64(old(self)@.validation_probes_lost + count);
                let counted = EcnValidatorView { validation_probes_lost: lost, ..old(self)@ };
                if counted.validation_probes_sent >= ECN_VALIDATION_PROBES && lost
                    >= counted.validation_probes_sent {
                    &&& result == EcnValidationResult::Failed(EcnFailure::AllValidationProbesLost)
                    &&& final(self)@ == counted.failed(EcnFailure::AllValidationProbesLost)
                } else {
                    &&& result == EcnValidationResult::Ignored
                    &&& final(self)@ == counted
                }
            },
    {
        if self.state == EcnState::Disabled || self.state == EcnState::Capable {
            return EcnValidationResult::Ignored;
        }
        if self.state == EcnState::Failed {
            return EcnValidationResult::Failed(
                match self.failure {
                    Some(reason) => reason,
                    None => EcnFailure::AllValidationProbesLost,
                },
            );
        }
        self.validation_probes_lost = self.validation_probes_lost.saturating_add(count);
        if self.validation_probes_sent >= ECN_VALIDATION_PROBES && self.validation_probes_lost
            >= self.validation_probes_sent as u64 {
            return self.fail(EcnFailure::AllValidationProbesLost);
        }
        EcnValidationResult::Ignored
    }

    /// Validates cumulative counts from one authenticated, non-reordered ACK.
    ///
    /// `newly_acked_ect0` and `newly_acked_ect1` count newly acknowledged packets by their original
    /// sender marking. ACKs that do not advance the largest acknowledged packet number are ignored
    /// to tolerate reordering.
    pub fn validate_ack(
        &mut self,
        largest_acknowledged: u64,
        newly_acked_ect0: u64,
        newly_acked_ect1: u64,
        counts: Option<EcnCounts>,
    ) -> (result: EcnValidationResult)
        requires
            old(self).well_formed(),
        ensures
            final(self).well_formed(),
            (final(self)@, result) == old(self)@.judged(
                largest_acknowledged,
                newly_acked_ect0,
                newly_acked_ect1,
                counts,
            ),
    {
        if self.state == EcnState::Disabled {
            return EcnValidationResult::Ignored;
        }
        if self.state == EcnState::Failed {
            return EcnValidationResult::Failed(
                match self.failure {
                    Some(reason) => reason,
                    None => EcnFailure::CountsExceedSentPackets,
                },
            );
        }
        match self.largest_acknowledged_processed {
            Some(largest) => {
                if largest_acknowledged <= largest {
                    return EcnValidationResult::Ignored;
                }
            },
            None => {},
        }
        let newly_acked_marked: u64 = match newly_acked_ect0.checked_add(newly_acked_ect1) {
            Some(marked) => marked,
            None => {
                return self.fail(EcnFailure::CountsExceedSentPackets);
            },
        };
        let counts = match counts {
            Some(counts) => counts,
            None => {
                if newly_acked_marked != 0 {
                    return self.fail(EcnFailure::MissingCounts);
                }
                self.largest_acknowledged_processed = Some(largest_acknowledged);
                return EcnValidationResult::Ignored;
            },
        };
        let delta = match counts.checked_delta(self.peer_counts) {
            Some(delta) => delta,
            None => {
                return self.fail(EcnFailure::CountersDecreased);
            },
        };
        let sent_total: u64 = match self.sent_ect0.checked_add(self.sent_ect1) {
            Some(total) => total,
            None => {
                return self.fail(EcnFailure::CountsExceedSentPackets);
            },
        };
        let reported_total: u64 = match counts.checked_total() {
            Some(total) => total,
            None => {
                return self.fail(EcnFailure::CountsExceedSentPackets);
            },
        };
        if counts.ect0 > self.sent_ect0 || counts.ect1 > self.sent_ect1 || reported_total
            > sent_total {
            return self.fail(EcnFailure::CountsExceedSentPackets);
        }
        if delta.ect0 + delta.ce < newly_acked_ect0 || delta.ect1 + delta.ce < newly_acked_ect1
            || delta.ect0 + delta.ect1 + delta.ce < newly_acked_marked {
            return self.fail(EcnFailure::MarkingWasRewritten);
        }
        self.peer_counts = counts;
        self.largest_acknowledged_processed = Some(largest_acknowledged);
        if newly_acked_marked != 0 || reported_total != 0 {
            self.state = EcnState::Capable;
        }
        EcnValidationResult::Validated { ce_increase: delta.ce }
    }

    /// Returns the current path capability state.
    pub fn state(self) -> (state: EcnState)
        ensures
            state == self@.state,
    {
        self.state
    }

    /// Returns the last successfully validated peer counters.
    pub fn peer_counts(self) -> (counts: EcnCounts)
        ensures
            counts == self@.peer_counts,
    {
        self.peer_counts
    }

    fn fail(&mut self, reason: EcnFailure) -> (result: EcnValidationResult)
        requires
            old(self).well_formed(),
        ensures
            final(self).well_formed(),
            final(self)@ == old(self)@.failed(reason),
            result == EcnValidationResult::Failed(reason),
    {
        self.failure = Some(reason);
        self.state = EcnState::Failed;
        EcnValidationResult::Failed(reason)
    }
}

/// Failed and disabled paths stay so whatever feedback arrives, and so never mark again.
pub proof fn lemma_failed_path_stays_unmarked(
    validator: EcnValidatorView,
    largest: u64,
    ect0: u64,
    ect1: u64,
    counts: Option<EcnCounts>,
)
    requires
        validator.state == EcnState::Failed || validator.state == EcnState::Disabled,
    ensures
        validator.judged(largest, ect0, ect1, counts).0 == validator,
        !validator.marks(),
{
}

/// Feedback never lowers the validated peer counters nor the largest processed acknowledgement.
pub proof fn lemma_feedback_is_monotonic(
    validator: EcnValidatorView,
    largest: u64,
    ect0: u64,
    ect1: u64,
    counts: Option<EcnCounts>,
)
    ensures
        ({
            let next = validator.judged(largest, ect0, ect1, counts).0;
            &&& next.peer_counts.not_below(validator.peer_counts)
            &&& validator.largest_acknowledged_processed matches Some(before)
                ==> next.largest_acknowledged_processed matches Some(after) && before <= after
        }),
{
}

/// Feedback that leaves a path capable accounts for every newly acknowledged mark and reports no
/// more marks than were sent.
pub proof fn lemma_capable_feedback_is_sound(
    validator: EcnValidatorView,
    largest: u64,
    ect0: u64,
    ect1: u64,
    counts: EcnCounts,
)
    requires
        validator.judged(largest, ect0, ect1, Some(counts)).1 is Validated,
    ensures
        counts.total() <= validator.sent_ect0 + validator.sent_ect1,
        counts.total() - validator.peer_counts.total() >= ect0 + ect1,
{
}

} // verus!
