//! Laws of Explicit Congestion Notification on one path.

use vstd::prelude::*;

use crate::ecn::{
    EcnCodepoint, EcnCounts, EcnError, EcnFailure, EcnReceiver, EcnValidationResult, EcnValidator,
    EcnValidatorView,
};

verus! {

/// The receiver counts every marked datagram once, under its own codepoint: the three counters
/// together grow by one for each marked datagram and stay for an unmarked one, and a full counter
/// is reported rather than wrapped.
pub proof fn lemma_receiver_counts_each_mark_once(
    codepoint: EcnCodepoint,
    outcome: Result<(), EcnError>,
)
    ensures
        forall|receiver: &mut EcnReceiver| #[trigger]
            call_ensures(EcnReceiver::on_datagram, (receiver, codepoint), outcome) ==> {
                let before = receiver@;
                let after = final(receiver)@;
                let marked = if outcome is Ok && !(codepoint is NotEct) {
                    1int
                } else {
                    0
                };
                &&& after.ect0 + after.ect1 + after.ce == before.ect0 + before.ect1 + before.ce
                    + marked
                &&& codepoint is Ect0 ==> after.ect0 == before.ect0 + marked
                &&& codepoint is Ect1 ==> after.ect1 == before.ect1 + marked
                &&& codepoint is Ce ==> after.ce == before.ce + marked
                &&& outcome is Err <==> {
                    ||| codepoint is Ect0 && before.ect0 == u64::MAX
                    ||| codepoint is Ect1 && before.ect1 == u64::MAX
                    ||| codepoint is Ce && before.ce == u64::MAX
                }
                &&& outcome is Err ==> outcome->Err_0 is CounterOverflow && after == before
                &&& !(codepoint is Ect0) ==> after.ect0 == before.ect0
                &&& !(codepoint is Ect1) ==> after.ect1 == before.ect1
                &&& !(codepoint is Ce) ==> after.ce == before.ce
            },
{
}

/// A path starts testing exactly if ECN was negotiated, with nothing sent and nothing counted.
pub proof fn lemma_testing_follows_negotiation(
    negotiated: bool,
    validator: EcnValidator,
    receiver: EcnReceiver,
)
    requires
        call_ensures(EcnValidator::new, (negotiated,), validator),
        call_ensures(<EcnReceiver as Default>::default, (), receiver),
    ensures
        validator@.state is Testing <==> negotiated,
        validator@.state is Disabled <==> !negotiated,
        validator@.sent_ect0 == 0 && validator@.sent_ect1 == 0,
        validator@.validation_probes_sent == 0 && validator@.validation_probes_lost == 0,
        validator@.largest_acknowledged_processed is None,
        validator@.failure is None,
        validator@.peer_counts == receiver@,
        receiver@.ect0 == 0 && receiver@.ect1 == 0 && receiver@.ce == 0,
{
}

/// Datagrams are marked with ECT(0) while the path is tested and once it is capable, and are
/// otherwise unmarked. No other mark is ever asked for.
pub proof fn lemma_only_tested_and_capable_paths_mark(
    validator: EcnValidator,
    codepoint: EcnCodepoint,
)
    requires
        call_ensures(EcnValidator::outgoing_codepoint, (validator,), codepoint),
    ensures
        codepoint is Ect0 <==> validator@.state is Testing || validator@.state is Capable,
        codepoint is Ect0 || codepoint is NotEct,
{
}

/// The codepoint that a path asks for is one that it can send, unless a counter is full. Each mark
/// is counted once, the tenth one of the testing phase ends that phase, and an unmarked datagram
/// changes nothing.
pub proof fn lemma_sent_marks_are_counted(
    codepoint: EcnCodepoint,
    outcome: Result<(), EcnError>,
)
    ensures
        forall|validator: &mut EcnValidator|
            validator.well_formed() && #[trigger] call_ensures(
                EcnValidator::on_packet_sent,
                (validator, codepoint),
                outcome,
            ) ==> {
                let before = validator@;
                let after = final(validator)@;
                let marking = before.state is Testing || before.state is Capable;
                let probes = before.validation_probes_sent + 1;
                &&& codepoint is NotEct ==> outcome is Ok && after == before
                &&& codepoint is Ect1 || codepoint is Ce ==> after == before && (
                outcome matches Err(error) && error is UnsupportedOutgoingCodepoint)
                &&& codepoint is Ect0 && !marking ==> after == before && (outcome matches Err(error)
                    && error is MarkingNotPermitted)
                &&& codepoint is Ect0 && marking && before.sent_ect0 == u64::MAX ==> after == before
                    && (outcome matches Err(error) && error is CounterOverflow)
                &&& codepoint is Ect0 && marking && before.sent_ect0 < u64::MAX ==> {
                    &&& after.sent_ect0 == before.sent_ect0 + 1
                    &&& after.sent_ect1 == before.sent_ect1
                    &&& after.peer_counts == before.peer_counts
                    &&& after.failure == before.failure
                    &&& after.validation_probes_lost == before.validation_probes_lost
                    &&& after.largest_acknowledged_processed
                        == before.largest_acknowledged_processed
                    &&& before.state is Capable ==> outcome is Ok && after.state is Capable
                        && after.validation_probes_sent == before.validation_probes_sent
                    &&& before.state is Testing && probes <= u8::MAX ==> {
                        &&& outcome is Ok
                        &&& after.validation_probes_sent == probes
                        &&& after.state is Testing <==> probes < 10
                        &&& after.state is Unknown <==> probes >= 10
                    }
                }
            },
{
}

/// A path fails for lost probes only once all of at least ten probes are lost, and only while no
/// feedback has shown it capable.
pub proof fn lemma_losing_every_probe_fails_the_path(count: u64, result: EcnValidationResult)
    ensures
        forall|validator: &mut EcnValidator|
            validator.well_formed() && #[trigger] call_ensures(
                EcnValidator::on_validation_probes_lost,
                (validator, count),
                result,
            ) ==> {
                let before = validator@;
                let after = final(validator)@;
                let open = before.state is Testing || before.state is Unknown;
                let lost = before.validation_probes_lost + count;
                let exhausted = before.validation_probes_sent >= 10 && lost
                    >= before.validation_probes_sent;
                &&& !open ==> after == before
                &&& before.state is Disabled || before.state is Capable ==> result is Ignored
                &&& before.state is Failed ==> result == EcnValidationResult::Failed(
                    before.failure->0,
                )
                &&& open ==> {
                    &&& lost <= u64::MAX ==> after.validation_probes_lost == lost
                    &&& lost > u64::MAX ==> after.validation_probes_lost == u64::MAX
                    &&& after.validation_probes_sent == before.validation_probes_sent
                    &&& after.peer_counts == before.peer_counts
                    &&& after.sent_ect0 == before.sent_ect0
                    &&& exhausted ==> after.state is Failed && result
                        == EcnValidationResult::Failed(EcnFailure::AllValidationProbesLost)
                        && after.failure == Some(EcnFailure::AllValidationProbesLost)
                    &&& !exhausted ==> after.state == before.state && result is Ignored
                        && after.failure == before.failure
                }
            },
{
}

/// One acknowledgement's ECN feedback.
pub struct EcnFeedback {
    pub largest_acknowledged: u64,
    pub newly_acked_ect0: u64,
    pub newly_acked_ect1: u64,
    pub counts: Option<EcnCounts>,
}

/// Whether feedback takes a valid path from `before` to `after` with `result`.
pub open spec fn feedback_step(
    before: EcnValidatorView,
    feedback: EcnFeedback,
    result: EcnValidationResult,
    after: EcnValidatorView,
) -> bool {
    &&& before.well_formed()
    &&& (after, result) == before.judged(
        feedback.largest_acknowledged,
        feedback.newly_acked_ect0,
        feedback.newly_acked_ect1,
        feedback.counts,
    )
}

/// A validated acknowledgement is one step of feedback.
pub proof fn lemma_validation_is_a_feedback_step(
    feedback: EcnFeedback,
    result: EcnValidationResult,
)
    ensures
        forall|validator: &mut EcnValidator|
            validator.well_formed() && #[trigger] call_ensures(
                EcnValidator::validate_ack,
                (
                    validator,
                    feedback.largest_acknowledged,
                    feedback.newly_acked_ect0,
                    feedback.newly_acked_ect1,
                    feedback.counts,
                ),
                result,
            ) ==> {
                &&& feedback_step(validator@, feedback, result, final(validator)@)
                &&& validator@.peer_counts.ce + reported_ce(result)
                    == final(validator)@.peer_counts.ce
            },
{
}

/// The CE increase that a result reports.
pub open spec fn reported_ce(result: EcnValidationResult) -> int {
    match result {
        EcnValidationResult::Validated { ce_increase } => ce_increase as int,
        _ => 0,
    }
}

/// The CE increases of a run of results, together.
pub open spec fn total_reported_ce(results: Seq<EcnValidationResult>) -> int
    decreases results.len(),
{
    if results.len() == 0 {
        0
    } else {
        total_reported_ce(results.drop_last()) + reported_ce(results.last())
    }
}

/// The reported CE increase is the difference of the validated CE counts around the feedback, and
/// a count that did not move reports none.
pub proof fn lemma_ce_increase_is_the_difference(
    before: EcnValidatorView,
    feedback: EcnFeedback,
    result: EcnValidationResult,
    after: EcnValidatorView,
)
    requires
        feedback_step(before, feedback, result, after),
    ensures
        before.peer_counts.ce + reported_ce(result) == after.peer_counts.ce,
        result matches EcnValidationResult::Validated { ce_increase } ==> {
            &&& feedback.counts == Some(after.peer_counts)
            &&& before.peer_counts.ce + ce_increase == feedback.counts->0.ce
            &&& feedback.counts->0.ce == before.peer_counts.ce ==> ce_increase == 0
        },
{
}

/// Over any run of feedback the reported CE increases add up to what the validated CE count grew
/// by: to the last validated count itself for a path that started without one.
pub proof fn lemma_ce_increases_add_up(
    states: Seq<EcnValidatorView>,
    feedback: Seq<EcnFeedback>,
    results: Seq<EcnValidationResult>,
)
    requires
        feedback.len() == results.len(),
        states.len() == results.len() + 1,
        forall|step: int|
            0 <= step < results.len() ==> feedback_step(
                #[trigger] states[step],
                feedback[step],
                results[step],
                states[step + 1],
            ),
    ensures
        states.first().peer_counts.ce + total_reported_ce(results)
            == states.last().peer_counts.ce,
        states.first().peer_counts.ce == 0 ==> total_reported_ce(results)
            == states.last().peer_counts.ce,
    decreases results.len(),
{
    if results.len() > 0 {
        let last = results.len() - 1;
        assert(states.drop_last()[last] == states[last]);
        assert forall|step: int| 0 <= step < results.drop_last().len() implies feedback_step(
            #[trigger] states.drop_last()[step],
            feedback.drop_last()[step],
            results.drop_last()[step],
            states.drop_last()[step + 1],
        ) by {
            assert(feedback_step(states[step], feedback[step], results[step], states[step + 1]));
        }
        lemma_ce_increases_add_up(states.drop_last(), feedback.drop_last(), results.drop_last());
        lemma_ce_increase_is_the_difference(
            states[last],
            feedback[last],
            results[last],
            states[last + 1],
        );
    }
}

/// Feedback is validated exactly if it advances the largest acknowledged packet of an open path,
/// lowers no counter, reports no more marks than were sent, and shows every newly acknowledged mark
/// as itself or as CE. The reported counts then become the validated ones, and any reported or
/// acknowledged mark shows the path to be capable.
pub proof fn lemma_validated_feedback_accounts_for_every_mark(
    before: EcnValidatorView,
    feedback: EcnFeedback,
    result: EcnValidationResult,
    after: EcnValidatorView,
)
    requires
        feedback_step(before, feedback, result, after),
    ensures
        ({
            let open = !(before.state is Disabled) && !(before.state is Failed);
            let advances = match before.largest_acknowledged_processed {
                Some(largest) => largest < feedback.largest_acknowledged,
                None => true,
            };
            let acked = feedback.newly_acked_ect0 + feedback.newly_acked_ect1;
            let past = before.peer_counts;
            let sent = before.sent_ect0 + before.sent_ect1;
            &&& after.sent_ect0 == before.sent_ect0 && after.sent_ect1 == before.sent_ect1
            &&& after.validation_probes_sent == before.validation_probes_sent
            &&& after.validation_probes_lost == before.validation_probes_lost
            &&& before.state is Disabled ==> result is Ignored && after == before
            &&& before.state is Failed ==> after == before && result == EcnValidationResult::Failed(
                before.failure->0,
            )
            &&& open && !advances ==> result is Ignored && after == before
            &&& open && advances && acked > u64::MAX ==> result == EcnValidationResult::Failed(
                EcnFailure::CountsExceedSentPackets,
            )
            &&& open && advances && acked <= u64::MAX && feedback.counts is None ==> {
                &&& acked > 0 ==> result == EcnValidationResult::Failed(EcnFailure::MissingCounts)
                &&& acked == 0 ==> result is Ignored && after.state == before.state
                    && after.largest_acknowledged_processed == Some(feedback.largest_acknowledged)
            }
            &&& open && advances && acked <= u64::MAX && feedback.counts is Some ==> {
                let now = feedback.counts->0;
                let lowered = now.ect0 < past.ect0 || now.ect1 < past.ect1 || now.ce < past.ce;
                let excessive = now.ect0 + now.ect1 + now.ce > sent || now.ect0 > before.sent_ect0
                    || now.ect1 > before.sent_ect1 || sent > u64::MAX;
                let accounted = {
                    &&& now.ect0 + now.ce >= past.ect0 + past.ce + feedback.newly_acked_ect0
                    &&& now.ect1 + now.ce >= past.ect1 + past.ce + feedback.newly_acked_ect1
                    &&& now.ect0 + now.ect1 + now.ce >= past.ect0 + past.ect1 + past.ce + acked
                };
                &&& result == EcnValidationResult::Failed(EcnFailure::CountersDecreased)
                    <==> lowered
                &&& result == EcnValidationResult::Failed(EcnFailure::CountsExceedSentPackets)
                    <==> !lowered && excessive
                &&& result == EcnValidationResult::Failed(EcnFailure::MarkingWasRewritten)
                    <==> !lowered && !excessive && !accounted
                &&& result is Validated <==> !lowered && !excessive && accounted
                &&& result is Validated ==> {
                    let marked = acked > 0 || now.ect0 > 0 || now.ect1 > 0 || now.ce > 0;
                    &&& after.peer_counts == now
                    &&& after.largest_acknowledged_processed == Some(feedback.largest_acknowledged)
                    &&& after.failure == before.failure
                    &&& marked ==> after.state is Capable
                    &&& !marked ==> after.state == before.state
                }
            }
            &&& open && result is Failed ==> {
                &&& after.state is Failed
                &&& after.failure == Some(result->Failed_0)
                &&& after.peer_counts == before.peer_counts
                &&& after.largest_acknowledged_processed == before.largest_acknowledged_processed
            }
        }),
{
}

} // verus!
