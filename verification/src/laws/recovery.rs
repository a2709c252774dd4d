//! Laws of loss recovery on one path.

use vstd::prelude::*;

use crate::recovery::{
    acknowledgement_events, lemma_each_packet_is_resolved_once, loss_events, loss_reason,
    select_reinjection_path, AckSummary, CongestionOutcome, LossReason, PathCandidate,
    PersistentCongestionTracker, ProbeAction, ProbeTimeoutState, RecoveryConfig, RecoveryError,
    RecoveryEvent, RecoveryTimer, RecoveryToken, ReinjectionDecision, RttEstimator, SentPacket,
    SentPacketTable,
};
use crate::wire::ack::AckFrame;

verus! {

/// A configuration keeps what it was made with, and an initial RTT of zero is refused.
pub proof fn lemma_configuration_keeps_its_timing(
    initial: u64,
    delay: u64,
    config: Result<RecoveryConfig, RecoveryError>,
)
    requires
        call_ensures(RecoveryConfig::new, (initial, delay), config),
    ensures
        config is Ok <==> initial > 0,
        config matches Ok(config) ==> config@.initial_rtt_micros == initial
            && config@.max_ack_delay_micros == delay,
{
}

/// The RTT follows its samples. The delay of the peer is taken off a sample up to the configured
/// maximum, but only where the sample stays at or above the smallest one. The first sample sets the
/// smoothed RTT and twice the deviation. Each further one moves the smoothed RTT by an eighth of
/// its distance and the deviation by a quarter, so that a sample that lies clearly above the
/// smoothed RTT raises it and one that lies clearly below lowers it.
pub proof fn lemma_rtt_follows_its_samples(raw: u64, reported: u64)
    ensures
        forall|rtt: &mut RttEstimator| #[trigger]
            call_ensures(RttEstimator::record_sample, (rtt, raw, reported), ()) ==> {
                let before = rtt@;
                let after = final(rtt)@;
                let minimum = match before.minimum_rtt_micros {
                    Some(smallest) => if smallest < raw {
                        smallest as int
                    } else {
                        raw as int
                    },
                    None => raw as int,
                };
                let delay = if reported < before.config.max_ack_delay_micros {
                    reported as int
                } else {
                    before.config.max_ack_delay_micros as int
                };
                let sample = if raw - delay >= minimum {
                    raw - delay
                } else {
                    raw as int
                };
                &&& after.config == before.config
                &&& after.latest_rtt_micros == Some(raw)
                &&& after.minimum_rtt_micros matches Some(smallest) && smallest == minimum
                &&& after.smoothed_rtt_micros matches Some(smoothed)
                &&& after.rtt_variance_micros matches Some(deviation)
                &&& match (before.smoothed_rtt_micros, before.rtt_variance_micros) {
                    (Some(old_smoothed), Some(old_deviation)) => {
                        let distance = if old_smoothed < sample {
                            sample - old_smoothed
                        } else {
                            old_smoothed - sample
                        };
                        &&& 8 * smoothed <= 7 * old_smoothed + sample < 8 * (smoothed + 1)
                        &&& 4 * deviation <= 3 * old_deviation + distance < 4 * (deviation + 1)
                        &&& sample >= old_smoothed + 8 ==> smoothed > old_smoothed
                        &&& sample + 8 <= old_smoothed ==> smoothed < old_smoothed
                        &&& distance >= old_deviation + 4 ==> deviation > old_deviation
                        &&& distance + 4 <= old_deviation ==> deviation < old_deviation
                    },
                    _ => {
                        &&& smoothed == sample
                        &&& 2 * deviation <= sample < 2 * (deviation + 1)
                    },
                }
            },
{
}

/// Before the first sample the configured initial RTT stands in for every measure.
pub proof fn lemma_initial_rtt_stands_in(rtt: RttEstimator, smoothed: u64, sampled: bool)
    requires
        call_ensures(RttEstimator::effective_smoothed_rtt_micros, (rtt,), smoothed),
        call_ensures(RttEstimator::has_sample, (rtt,), sampled),
    ensures
        sampled <==> rtt@.latest_rtt_micros is Some,
        match rtt@.smoothed_rtt_micros {
            Some(measured) => smoothed == measured,
            None => smoothed == rtt@.config.initial_rtt_micros,
        },
{
}

/// An older packet counts as lost after nine eighths of the larger one of the latest and the
/// smoothed RTT, rounded up, and never before a millisecond has passed.
pub proof fn lemma_loss_delay_covers_the_rtt(rtt: RttEstimator, delay: u64)
    requires
        call_ensures(RttEstimator::loss_delay_micros, (rtt,), delay),
    ensures
        ({
            let initial = rtt@.config.initial_rtt_micros;
            let latest = match rtt@.latest_rtt_micros {
                Some(latest) => latest,
                None => initial,
            };
            let smoothed = match rtt@.smoothed_rtt_micros {
                Some(smoothed) => smoothed,
                None => initial,
            };
            &&& delay >= 1_000
            &&& delay < u64::MAX ==> 8 * delay >= 9 * latest && 8 * delay >= 9 * smoothed
            &&& delay > 1_000 ==> 8 * (delay - 1) < 9 * latest || 8 * (delay - 1) < 9 * smoothed
        }),
{
}

/// A probe timeout is the smoothed RTT, four deviations but at least a millisecond, and the largest
/// ACK delay. Persistent congestion takes three of them.
pub proof fn lemma_probe_timeout_is_the_sum_of_its_parts(
    rtt: RttEstimator,
    timeout: u64,
    persistent: u64,
)
    requires
        call_ensures(RttEstimator::probe_timeout_micros, (rtt,), timeout),
        call_ensures(RttEstimator::persistent_congestion_duration_micros, (rtt,), persistent),
    ensures
        ({
            let smoothed = match rtt@.smoothed_rtt_micros {
                Some(smoothed) => smoothed as int,
                None => rtt@.config.initial_rtt_micros as int,
            };
            let deviation = match rtt@.rtt_variance_micros {
                Some(deviation) => deviation as int,
                None => rtt@.config.initial_rtt_micros as int / 2,
            };
            let slack = if deviation > 250 {
                4 * deviation
            } else {
                1_000
            };
            let sum = smoothed + slack + rtt@.config.max_ack_delay_micros;
            &&& sum <= u64::MAX ==> timeout == sum
            &&& sum > u64::MAX ==> timeout == u64::MAX
            &&& timeout * 3 <= u64::MAX ==> persistent == timeout * 3
            &&& timeout * 3 > u64::MAX ==> persistent == u64::MAX
        }),
{
}

/// Without backoff a probe waits for one probe timeout, and each step of backoff doubles the wait.
pub proof fn lemma_backoff_doubles_the_wait(
    state: ProbeTimeoutState,
    next: ProbeTimeoutState,
    rtt: RttEstimator,
    timeout: u64,
    wait: u64,
    next_wait: u64,
)
    requires
        call_ensures(RttEstimator::probe_timeout_micros, (rtt,), timeout),
        call_ensures(ProbeTimeoutState::duration_micros, (state, rtt), wait),
        call_ensures(ProbeTimeoutState::duration_micros, (next, rtt), next_wait),
        next@.backoff_exponent == state@.backoff_exponent + 1,
    ensures
        state@.backoff_exponent == 0 ==> wait == timeout,
        state@.backoff_exponent < 63 && 2 * wait <= u64::MAX ==> next_wait == 2 * wait,
        state@.backoff_exponent < 63 && 2 * wait > u64::MAX ==> next_wait == u64::MAX,
        state@.backoff_exponent >= 63 ==> next_wait == wait,
{
    let exponent = state@.backoff_exponent as u64;
    let following = (exponent + 1) as u64;
    assert(exponent == 0 ==> 1u64 << exponent == 1) by (bit_vector);
    if exponent < 63 {
        assert(1u64 << following == 2 * (1u64 << exponent)) by (bit_vector)
            requires
                exponent < 63,
                following == exponent + 1,
        ;
        let base = timeout as int;
        let step = (1u64 << exponent) as int;
        assert(base * (2 * step) == 2 * (base * step)) by (nonlinear_arith);
        assert(base * step >= 0) by (nonlinear_arith)
            requires
                base >= 0,
                step >= 0,
        ;
    }
}

/// Nothing is armed while nothing is in flight. Otherwise a loss deadline takes precedence, and
/// without one the probe fires one wait after the last ACK-eliciting send.
pub proof fn lemma_timer_is_armed_by_the_flight(
    state: ProbeTimeoutState,
    rtt: RttEstimator,
    loss_deadline: Option<u64>,
    in_flight: bool,
    wait: u64,
    timer: Option<RecoveryTimer>,
)
    requires
        call_ensures(ProbeTimeoutState::duration_micros, (state, rtt), wait),
        call_ensures(ProbeTimeoutState::timer, (state, rtt, loss_deadline, in_flight), timer),
    ensures
        !in_flight ==> timer is None,
        in_flight ==> match (loss_deadline, state@.last_ack_eliciting_sent_at_micros) {
            (Some(deadline), _) => timer == Some(
                RecoveryTimer::LossDetection { deadline_micros: deadline },
            ),
            (None, Some(sent_at)) => {
                &&& timer matches Some(RecoveryTimer::ProbeTimeout { deadline_micros })
                &&& sent_at + wait <= u64::MAX ==> deadline_micros == sent_at + wait
                &&& sent_at + wait > u64::MAX ==> deadline_micros == u64::MAX
            },
            (None, None) => timer is None,
        },
{
}

/// A probe fires exactly from its deadline on. Then it asks for two datagrams and backs off once
/// more, up to the largest exponent, and it keeps the time of the last send.
pub proof fn lemma_probe_fires_at_its_deadline(
    now: u64,
    rtt: RttEstimator,
    in_flight: bool,
    outcome: Result<ProbeAction, RecoveryError>,
)
    ensures
        forall|state: &mut ProbeTimeoutState, timer: Option<RecoveryTimer>|
            #![trigger
                call_ensures(
                    ProbeTimeoutState::on_expiration,
                    (state, now, rtt, in_flight),
                    outcome,
                ),
                call_ensures(
                    ProbeTimeoutState::timer,
                    (*state, rtt, None::<u64>, in_flight),
                    timer,
                )
            ]
            call_ensures(ProbeTimeoutState::on_expiration, (state, now, rtt, in_flight), outcome)
                && call_ensures(
                ProbeTimeoutState::timer,
                (*state, rtt, None::<u64>, in_flight),
                timer,
            ) ==> {
                let before = state@;
                let after = final(state)@;
                &&& outcome is Err ==> after == before
                &&& after.last_ack_eliciting_sent_at_micros
                    == before.last_ack_eliciting_sent_at_micros
                &&& match timer {
                    Some(RecoveryTimer::ProbeTimeout { deadline_micros }) => if now
                        >= deadline_micros {
                        &&& outcome matches Ok(action)
                        &&& action.probe_datagrams == 2
                        &&& action.backoff_exponent == after.backoff_exponent
                        &&& after.backoff_exponent <= 63
                        &&& before.backoff_exponent < 63 ==> after.backoff_exponent
                            == before.backoff_exponent + 1
                    } else {
                        outcome == Err::<ProbeAction, RecoveryError>(
                            RecoveryError::TimerNotExpired { deadline_micros, now_micros: now },
                        )
                    },
                    _ => outcome == Err::<ProbeAction, RecoveryError>(
                        RecoveryError::ProbeTimeoutNotArmed,
                    ),
                }
            },
{
}

/// The last ACK-eliciting send is remembered unless the clock runs backwards, and an
/// acknowledgement of a new packet takes all backoff back.
pub proof fn lemma_sends_and_acknowledgements_reset_the_probe(
    sent_at: u64,
    newly: bool,
    outcome: Result<(), RecoveryError>,
)
    ensures
        forall|state: &mut ProbeTimeoutState| #[trigger]
            call_ensures(ProbeTimeoutState::on_ack_eliciting_sent, (state, sent_at), outcome) ==> {
                let before = state@;
                let after = final(state)@;
                &&& after.backoff_exponent == before.backoff_exponent
                &&& outcome is Err <==> (before.last_ack_eliciting_sent_at_micros matches Some(last)
                    && sent_at < last)
                &&& outcome is Ok ==> after.last_ack_eliciting_sent_at_micros == Some(sent_at)
                &&& outcome is Err ==> after == before
            },
        forall|state: &mut ProbeTimeoutState| #[trigger]
            call_ensures(ProbeTimeoutState::on_ack, (state, newly), ()) ==> {
                &&& newly ==> final(state)@.backoff_exponent == 0
                &&& !newly ==> final(state)@ == state@
                &&& final(state)@.last_ack_eliciting_sent_at_micros
                    == state@.last_ack_eliciting_sent_at_micros
            },
{
}

/// A run of losses begins with its first lost packet and grows with every further one. Any packet
/// that is not lost, or that was sent before there was an RTT sample, ends it. Congestion is
/// persistent once the run holds two packets and spans the duration.
pub proof fn lemma_persistent_congestion_is_a_span_of_losses(
    sent_at: u64,
    outcome: CongestionOutcome,
    sampled: bool,
    duration: u64,
    persistent: Result<bool, RecoveryError>,
)
    ensures
        forall|tracker: &mut PersistentCongestionTracker| #[trigger]
            call_ensures(
                PersistentCongestionTracker::observe,
                (tracker, sent_at, outcome, sampled, duration),
                persistent,
            ) ==> {
                let before = tracker@;
                let after = final(tracker)@;
                &&& persistent is Err <==> (before.last_observed_sent_at_micros matches Some(last)
                    && sent_at < last)
                &&& persistent is Err ==> after == before
                &&& persistent is Ok ==> after.last_observed_sent_at_micros == Some(sent_at)
                &&& persistent is Ok && !(outcome is Lost && sampled) ==> {
                    &&& persistent == Ok::<bool, RecoveryError>(false)
                    &&& after.run_start_micros is None
                    &&& after.lost_packets_in_run == 0
                }
                &&& persistent is Ok && outcome is Lost && sampled ==> {
                    &&& after.run_start_micros matches Some(start)
                    &&& before.run_start_micros matches Some(earlier) ==> start == earlier
                    &&& before.run_start_micros is None ==> start == sent_at
                    &&& before.lost_packets_in_run < u64::MAX ==> after.lost_packets_in_run
                        == before.lost_packets_in_run + 1
                    &&& start <= sent_at ==> (persistent == Ok::<bool, RecoveryError>(true)
                        <==> after.lost_packets_in_run >= 2 && start + duration <= sent_at)
                }
            },
{
}

/// A packet is recorded if it has a size and a number of 62 bits, comes behind every earlier one in
/// number and time, and finds a free slot and room in the byte count. Then exactly one free slot
/// holds it and the accounting grows by it. Otherwise nothing changes.
pub proof fn lemma_recorded_packets_are_tracked(
    packet: SentPacket,
    outcome: Result<(), RecoveryError>,
)
    ensures
        forall|table: &mut SentPacketTable|
            table.well_formed() && #[trigger] call_ensures(
                SentPacketTable::record,
                (table, packet),
                outcome,
            ) ==> {
                let before = table@;
                let after = final(table)@;
                &&& outcome is Ok <==> {
                    &&& packet.encoded_bytes > 0
                    &&& packet.packet_number < 0x4000_0000_0000_0000
                    &&& before.largest_sent matches Some(largest) ==> packet.packet_number > largest
                    &&& before.last_sent_at_micros matches Some(last) ==> packet.sent_at_micros
                        >= last
                    &&& before.free_slots.len() > 0
                    &&& before.outstanding_bytes + packet.encoded_bytes <= u64::MAX
                }
                &&& outcome is Err ==> after == before
                &&& outcome is Ok ==> {
                    &&& after.outstanding_packets == before.outstanding_packets + 1
                    &&& after.outstanding_bytes == before.outstanding_bytes + packet.encoded_bytes
                    &&& after.largest_sent == Some(packet.packet_number)
                    &&& after.last_sent_at_micros == Some(packet.sent_at_micros)
                    &&& after.largest_acknowledged == before.largest_acknowledged
                    &&& after.slots.len() == before.slots.len()
                    &&& exists|at: int|
                        0 <= at < before.slots.len() && before.slots[at] is None
                            && #[trigger] after.slots[at] == Some(packet) && forall|i: int|
                            0 <= i < before.slots.len() && i != at ==> #[trigger] after.slots[i]
                                == before.slots[i]
                }
            },
{
    assert forall|table: &mut SentPacketTable|
        table.well_formed() && #[trigger] call_ensures(
            SentPacketTable::record,
            (table, packet),
            outcome,
        ) && outcome is Ok implies exists|at: int|
        0 <= at < table@.slots.len() && table@.slots[at] is None
            && #[trigger] final(table)@.slots[at] == Some(packet) && forall|i: int|
            0 <= i < table@.slots.len() && i != at ==> #[trigger] final(table)@.slots[i]
                == table@.slots[i] by {
        let at = table@.free_slots.last() as int;
        assert(table@.free_slots[table@.free_slots.len() - 1] == at);
        assert(final(table)@.slots[at] == Some(packet));
    }
}

/// An acknowledgement resolves what it covers and what it shows to be lost. A packet that it covers
/// is acknowledged. Any other packet is lost if a packet that was sent at least three numbers later
/// has been acknowledged, or if a later one has been acknowledged and the loss delay has passed
/// since it was sent. Every other packet stays as it is.
pub proof fn lemma_acknowledgement_resolves_covered_and_late_packets(
    ack: AckFrame,
    now: u64,
    index: int,
    delay: u64,
    outcome: Result<AckSummary, RecoveryError>,
)
    ensures
        forall|
            table: &mut SentPacketTable,
            rtt: &mut RttEstimator,
            events: &mut Vec<RecoveryEvent>,
        |
            #![trigger
                call_ensures(
                    SentPacketTable::on_ack,
                    (table, ack, now, rtt, events),
                    outcome,
                )
            ]
            call_ensures(SentPacketTable::on_ack, (table, ack, now, rtt, events), outcome)
                && call_ensures(RttEstimator::loss_delay_micros, (*final(rtt),), delay) ==> {
                let before = table@;
                let after = final(table)@;
                &&& outcome is Ok <==> {
                    &&& before.largest_sent matches Some(largest) && ack.largest_acked <= largest
                    &&& before.last_sent_at_micros matches Some(last) ==> last <= now
                }
                &&& outcome is Err ==> {
                    &&& after == before
                    &&& final(rtt)@ == rtt@
                    &&& final(events)@ == events@
                }
                &&& outcome matches Ok(summary) ==> {
                    &&& after.slots.len() == before.slots.len()
                    &&& after.largest_acknowledged matches Some(largest)
                    &&& largest >= ack.largest_acked
                    &&& before.largest_acknowledged matches Some(earlier) ==> largest >= earlier
                    &&& largest == ack.largest_acked || before.largest_acknowledged == Some(largest)
                    &&& 0 <= index < before.slots.len() && before.slots[index] is None
                        ==> after.slots[index] is None
                    &&& 0 <= index < before.slots.len() ==> (before.slots[index] matches Some(
                        packet,
                    ) ==> {
                        let number = packet.packet_number;
                        let covered = ack.covers(number);
                        let overtaken = !covered && number + 3 <= largest;
                        let late = !covered && number < largest && number + 3 > largest && (
                        packet.sent_at_micros + delay <= now || now == u64::MAX);
                        &&& covered ==> final(events)@.contains(RecoveryEvent::Acknowledged(packet))
                        &&& overtaken ==> final(events)@.contains(
                            RecoveryEvent::Lost { packet, reason: LossReason::PacketThreshold },
                        )
                        &&& late ==> final(events)@.contains(
                            RecoveryEvent::Lost { packet, reason: LossReason::TimeThreshold },
                        )
                        &&& covered || overtaken || late ==> after.slots[index] is None
                        &&& !covered && !overtaken && !late ==> after.slots[index] == Some(packet)
                    })
                }
            },
{
    assert forall|
        table: &mut SentPacketTable,
        rtt: &mut RttEstimator,
        events: &mut Vec<RecoveryEvent>,
    |
        #![trigger call_ensures(SentPacketTable::on_ack, (table, ack, now, rtt, events), outcome)]
        call_ensures(SentPacketTable::on_ack, (table, ack, now, rtt, events), outcome)
            && call_ensures(RttEstimator::loss_delay_micros, (*final(rtt),), delay) && outcome is Ok
            && 0 <= index < table@.slots.len() && table@.slots[index] is Some implies {
        let packet = table@.slots[index]->0;
        let largest = final(table)@.largest_acknowledged->0;
        let covered = ack.covers(packet.packet_number);
        &&& covered ==> final(events)@.contains(RecoveryEvent::Acknowledged(packet))
        &&& loss_reason(packet, ack, largest, delay, now) matches Some(reason)
            ==> final(events)@.contains(RecoveryEvent::Lost { packet, reason })
    } by {
        let slots = table@.slots;
        let packet = slots[index]->0;
        let largest = final(table)@.largest_acknowledged->0;
        let losses = loss_events(slots, ack, largest, delay, now);
        let acknowledgements = acknowledgement_events(slots, ack);
        let all = final(events)@;
        lemma_each_packet_is_resolved_once(slots, index, ack, largest, delay, now);
        if ack.covers(packet.packet_number) {
            let event = RecoveryEvent::Acknowledged(packet);
            let at = choose|at: int|
                0 <= at < acknowledgements.len() && acknowledgements[at] == event;
            assert(all[events@.len() + losses.len() + at] == event);
        }
        if loss_reason(packet, ack, largest, delay, now) is Some {
            let event = RecoveryEvent::Lost {
                packet,
                reason: loss_reason(packet, ack, largest, delay, now)->0,
            };
            let at = choose|at: int| 0 <= at < losses.len() && losses[at] == event;
            assert(all[events@.len() + at] == event);
        }
    }
}

/// The accounting of an acknowledgement adds up: what leaves the table is what the summary counts
/// and what the events list, each packet once, and a sample is the age of the largest acknowledged
/// packet, taken exactly when that packet was still in the table.
pub proof fn lemma_acknowledgement_accounting_adds_up(
    ack: AckFrame,
    now: u64,
    outcome: Result<AckSummary, RecoveryError>,
)
    ensures
        forall|
            table: &mut SentPacketTable,
            rtt: &mut RttEstimator,
            events: &mut Vec<RecoveryEvent>,
        |
            #![trigger
                call_ensures(
                    SentPacketTable::on_ack,
                    (table, ack, now, rtt, events),
                    outcome,
                )
            ]
            call_ensures(SentPacketTable::on_ack, (table, ack, now, rtt, events), outcome)
                && outcome is Ok ==> {
                let before = table@;
                let after = final(table)@;
                let summary = outcome->Ok_0;
                &&& after.outstanding_packets + summary.acknowledged_packets + summary.lost_packets
                    == before.outstanding_packets
                &&& after.outstanding_bytes + summary.acknowledged_bytes + summary.lost_bytes
                    == before.outstanding_bytes
                &&& final(events)@.len() == events@.len() + summary.acknowledged_packets
                    + summary.lost_packets
                &&& forall|i: int|
                    0 <= i < events@.len() ==> #[trigger] final(events)@[i] == events@[i]
                &&& after.largest_sent == before.largest_sent
                &&& after.last_sent_at_micros == before.last_sent_at_micros
                &&& match summary.raw_rtt_sample_micros {
                    Some(sample) => {
                        &&& exists|i: int|
                            0 <= i < before.slots.len() && (#[trigger] before.slots[i] matches Some(
                                packet,
                            ) && packet.packet_number == ack.largest_acked
                                && packet.sent_at_micros + sample == now)
                        &&& final(rtt)@.latest_rtt_micros == Some(sample)
                    },
                    None => {
                        &&& forall|i: int|
                            0 <= i < before.slots.len() ==> (
                            #[trigger] before.slots[i] matches Some(packet)
                                ==> packet.packet_number != ack.largest_acked)
                        &&& final(rtt)@ == rtt@
                    },
                }
            },
{
}

/// A token goes to a usable path on which it arrives no later than on any other usable one, and to
/// the smallest identifier among those that are equally early. Without a usable path it goes
/// nowhere.
pub proof fn lemma_reinjection_takes_the_earliest_path(
    token: RecoveryToken,
    source: u8,
    candidates: &[PathCandidate],
    decision: Option<ReinjectionDecision>,
    other: int,
    other_delay: Option<u64>,
)
    requires
        call_ensures(select_reinjection_path, (token, source, candidates), decision),
        0 <= other < candidates@.len(),
        call_ensures(
            PathCandidate::estimated_delivery_delay_micros,
            (candidates@[other],),
            other_delay,
        ),
    ensures
        other_delay is Some ==> decision is Some,
        decision matches Some(decision) ==> {
            &&& decision.token == token
            &&& decision.source_path_id == source
            &&& other_delay matches Some(delay) ==> {
                ||| decision.estimated_delivery_delay_micros < delay
                ||| {
                    &&& decision.estimated_delivery_delay_micros == delay
                    &&& decision.target_path_id <= candidates@[other].path_id
                }
            }
            &&& exists|i: int|
                #![trigger candidates@[i]]
                0 <= i < candidates@.len() && candidates@[i].path_id == decision.target_path_id
                    && candidates@[i].validated && candidates@[i].sendable
                    && candidates@[i].estimated_rate_bytes_per_second > 0
        },
{
}

/// A usable path delivers after its pacing delay, half its RTT, the time that its queue takes at
/// the estimated rate, rounded up, and its loss penalty. A path that is not validated, not sendable
/// or without a rate does not deliver at all.
pub proof fn lemma_delivery_delay_is_the_sum_of_its_parts(
    path: PathCandidate,
    delay: Option<u64>,
    queueing: int,
)
    requires
        call_ensures(PathCandidate::estimated_delivery_delay_micros, (path,), delay),
        path.queued_bytes * 1_000_000 <= queueing * path.estimated_rate_bytes_per_second,
        queueing >= 0,
        queueing > 0 ==> (queueing - 1) * path.estimated_rate_bytes_per_second < path.queued_bytes
            * 1_000_000,
    ensures
        delay is Some <==> path.validated && path.sendable && path.estimated_rate_bytes_per_second
            > 0,
        delay matches Some(delay) ==> {
            let sum = path.pacer_delay_micros + path.smoothed_rtt_micros as int / 2 + queueing
                + path.loss_penalty_micros;
            &&& sum <= u64::MAX ==> delay == sum
            &&& sum > u64::MAX ==> delay == u64::MAX
        },
{
    if path.estimated_rate_bytes_per_second > 0 {
        let demand = path.queued_bytes * 1_000_000;
        let rate = path.estimated_rate_bytes_per_second as int;
        lemma_ceiling(demand, rate, queueing);
    }
}

proof fn lemma_ceiling(dividend: int, divisor: int, quotient: int)
    requires
        0 <= dividend,
        0 < divisor,
        0 <= quotient,
        dividend <= quotient * divisor,
        quotient > 0 ==> (quotient - 1) * divisor < dividend,
    ensures
        crate::arith::ceil_div(dividend, divisor) == quotient,
{
    let whole = dividend / divisor;
    let rest = dividend % divisor;
    vstd::arithmetic::div_mod::lemma_fundamental_div_mod(dividend, divisor);
    assert(rest == 0 ==> whole == quotient) by (nonlinear_arith)
        requires
            dividend == divisor * whole + rest,
            0 <= rest < divisor,
            dividend <= quotient * divisor,
            quotient > 0 ==> (quotient - 1) * divisor < dividend,
            0 <= quotient,
            0 <= dividend,
    ;
    assert(rest > 0 ==> whole + 1 == quotient) by (nonlinear_arith)
        requires
            dividend == divisor * whole + rest,
            0 <= rest < divisor,
            dividend <= quotient * divisor,
            quotient > 0 ==> (quotient - 1) * divisor < dividend,
            0 <= quotient,
            0 <= dividend,
    ;
}

} // verus!
