//! Laws of coupled congestion control.

use vstd::prelude::*;

use crate::multipath::{
    acknowledged_path, calculate_lia_inputs, has_active, lemma_acknowledged_is_participant,
    lemma_participant_is_valid, lemma_reference_is_best, lemma_slots, linked_growth,
    normalized_sum, participants, permitted_growth, reference_path, scan_failure, slot_of,
    uncoupled_growth, window_sum, CoupledPathState, LiaCoupler, LiaCredit, LiaDecision, LiaInputs,
    MultipathError,
};

verus! {

/// The window of a path is its congestion window, unless recovery limits it to the slow-start
/// threshold or the application to what is in flight: it is the smallest of those that apply.
pub proof fn lemma_effective_window_is_the_smallest_limit(path: CoupledPathState, window: u64)
    requires
        call_ensures(CoupledPathState::effective_window, (path,), window),
    ensures
        window == path.window(),
        window <= path.congestion_window,
        path.in_recovery ==> window <= path.slow_start_threshold,
        path.application_limited ==> window <= path.bytes_in_flight,
        window == path.congestion_window || (path.in_recovery && window
            == path.slow_start_threshold) || (path.application_limited && window
            == path.bytes_in_flight),
{
}

/// The sum of numbers.
pub open spec fn total(values: Seq<int>) -> int
    decreases values.len(),
{
    if values.len() == 0 {
        0
    } else {
        total(values.drop_last()) + values.last()
    }
}

/// Whether a path takes part in the coupling: it is active and has a window.
pub open spec fn takes_part(path: CoupledPathState) -> bool {
    path.active && path.window() > 0
}

/// The window that a path adds to the aggregate.
pub open spec fn windows(paths: Seq<CoupledPathState>) -> Seq<int> {
    paths.map_values(
        |path: CoupledPathState|
            if takes_part(path) {
                path.window() as int
            } else {
                0
            },
    )
}

/// One for each path that takes part.
pub open spec fn heads(paths: Seq<CoupledPathState>) -> Seq<int> {
    paths.map_values(
        |path: CoupledPathState|
            if takes_part(path) {
                1int
            } else {
                0
            },
    )
}

/// What each path would have in flight over `rtt`, in whole bytes.
pub open spec fn rescaled_windows(paths: Seq<CoupledPathState>, rtt: u64) -> Seq<int> {
    paths.map_values(
        |path: CoupledPathState|
            if takes_part(path) {
                (rtt * path.window()) / (path.smoothed_rtt_micros as int)
            } else {
                0
            },
    )
}

/// Whether a path is the reference of a set: of the paths that take part, none has a larger window
/// for the square of its RTT, and none before it has an equal one.
pub open spec fn is_reference(paths: Seq<CoupledPathState>, index: int) -> bool {
    &&& 0 <= index < paths.len()
    &&& takes_part(paths[index])
    &&& forall|i: int|
        0 <= i < paths.len() && takes_part(#[trigger] paths[i]) ==> {
            let own = paths[i].window() * (paths[index].smoothed_rtt_micros
                * paths[index].smoothed_rtt_micros);
            let best = paths[index].window() * (paths[i].smoothed_rtt_micros
                * paths[i].smoothed_rtt_micros);
            own <= best && (i < index ==> own < best)
        }
}

/// The coupling is computed from one to 16 paths, no two active ones of which share an identifier.
/// Those that take part have a window, an RTT and a datagram size, and the acknowledged path is one
/// of them. The aggregate is the sum of their windows. The aggressiveness, in 512ths, is the
/// aggregate times the reference path's window over the square of the sum of all windows, rescaled
/// to the reference path's RTT.
pub proof fn lemma_coupling_inputs(path_id: u8, paths: &[CoupledPathState], inputs: LiaInputs)
    requires
        call_ensures(calculate_lia_inputs, (path_id, paths), Ok(inputs)),
    ensures
        1 <= paths@.len() <= 16,
        forall|i: int, j: int|
            0 <= i < j < paths@.len() && (#[trigger] paths@[i]).active && (
            #[trigger] paths@[j]).active ==> paths@[i].path_id != paths@[j].path_id,
        forall|i: int|
            0 <= i < paths@.len() && takes_part(#[trigger] paths@[i]) ==> {
                &&& paths@[i].congestion_window > 0
                &&& paths@[i].smoothed_rtt_micros > 0
                &&& paths@[i].max_datagram_size >= 1_200
            },
        exists|i: int|
            0 <= i < paths@.len() && takes_part(#[trigger] paths@[i]) && paths@[i].path_id
                == path_id && inputs.acknowledged_window == paths@[i].window()
                && inputs.acknowledged_mds == paths@[i].max_datagram_size,
        inputs.aggregate_window == total(windows(paths@)),
        inputs.participating_paths == total(heads(paths@)),
        exists|index: int| #[trigger]
            is_reference(paths@, index) && inputs.reference_path_id == paths@[index].path_id && {
                let sum = total(rescaled_windows(paths@, paths@[index].smoothed_rtt_micros));
                let weight = 512 * inputs.aggregate_window * paths@[index].window();
                &&& sum > 0
                &&& inputs.alpha_scaled * (sum * sum) <= weight
                &&& weight < (inputs.alpha_scaled + 1) * (sum * sum)
            },
{
    let best = reference_path(paths@)->0;
    lemma_acknowledged_is_participant(paths@, path_id);
    lemma_found_path(paths@, path_id);
    lemma_scan_accepts(paths@);
    lemma_sums(paths@, best.rtt_micros);
    let index = lemma_reference_is_found(paths@);
    let sum = normalized_sum(paths@, best.rtt_micros) as int;
    let weight = 512 * window_sum(paths@) * best.window;
    assert(sum * sum > 0) by (nonlinear_arith)
        requires
            sum > 0,
    ;
    assert(weight >= 0) by (nonlinear_arith)
        requires
            weight == 512 * window_sum(paths@) * best.window,
    ;
    let alpha = weight / (sum * sum);
    vstd::arithmetic::div_mod::lemma_fundamental_div_mod(weight, sum * sum);
    assert((alpha + 1) * (sum * sum) == alpha * (sum * sum) + sum * sum) by (nonlinear_arith);
    assert((sum * sum) * alpha == alpha * (sum * sum)) by (nonlinear_arith);
    assert(inputs.alpha_scaled == alpha);
    assert(is_reference(paths@, index));
}

proof fn lemma_sums(paths: Seq<CoupledPathState>, rtt: u64)
    ensures
        window_sum(paths) == total(windows(paths)),
        participants(paths) == total(heads(paths)),
        scan_failure(paths) is None ==> normalized_sum(paths, rtt) == total(
            rescaled_windows(paths, rtt),
        ),
    decreases paths.len(),
{
    if paths.len() > 0 {
        let before = paths.drop_last();
        let path = paths.last();
        lemma_sums(before, rtt);
        assert(windows(paths).drop_last() =~= windows(before));
        assert(heads(paths).drop_last() =~= heads(before));
        assert(rescaled_windows(paths, rtt).drop_last() =~= rescaled_windows(before, rtt));
        if scan_failure(paths) is None && path.participates() {
            assert(path.smoothed_rtt_micros > 0);
            assert((rtt * path.window()) / (path.smoothed_rtt_micros as int) >= 0) by {
                assert(rtt * path.window() >= 0) by (nonlinear_arith);
                vstd::arithmetic::div_mod::lemma_div_pos_is_pos(
                    rtt * path.window(),
                    path.smoothed_rtt_micros as int,
                );
            }
        }
    }
}

proof fn lemma_found_path(paths: Seq<CoupledPathState>, path_id: u8)
    ensures
        match acknowledged_path(paths, path_id) {
            Some(path) => exists|i: int|
                0 <= i < paths.len() && takes_part(#[trigger] paths[i]) && paths[i].path_id
                    == path_id && paths[i] == path,
            None => forall|i: int|
                0 <= i < paths.len() && takes_part(#[trigger] paths[i]) ==> paths[i].path_id
                    != path_id,
        },
    decreases paths.len(),
{
    if paths.len() > 0 {
        let before = paths.drop_last();
        let last = paths.len() - 1;
        lemma_found_path(before, path_id);
        if paths.last().participates() && paths.last().path_id == path_id {
            assert(takes_part(paths[last]));
        } else if acknowledged_path(before, path_id) is Some {
            let i = choose|i: int|
                0 <= i < before.len() && takes_part(#[trigger] before[i]) && before[i].path_id
                    == path_id && before[i] == acknowledged_path(before, path_id)->0;
            assert(takes_part(paths[i]));
        } else {
            assert forall|i: int| 0 <= i < paths.len() && takes_part(
                #[trigger] paths[i],
            ) implies paths[i].path_id != path_id by {
                if i < last {
                    assert(before[i] == paths[i]);
                }
            }
        }
    }
}

proof fn lemma_scan_accepts(paths: Seq<CoupledPathState>)
    requires
        scan_failure(paths) is None,
    ensures
        forall|i: int, j: int|
            0 <= i < j < paths.len() && (#[trigger] paths[i]).active && (#[trigger] paths[j]).active
                ==> paths[i].path_id != paths[j].path_id,
        forall|i: int|
            0 <= i < paths.len() && takes_part(#[trigger] paths[i]) ==> paths[i].valid(),
    decreases paths.len(),
{
    if paths.len() > 0 {
        let before = paths.drop_last();
        let last = paths.len() - 1;
        lemma_scan_accepts(before);
        assert forall|i: int, j: int|
            0 <= i < j < paths.len() && (#[trigger] paths[i]).active && (
            #[trigger] paths[j]).active implies paths[i].path_id != paths[j].path_id by {
            assert(before[i] == paths[i]);
            if j < last {
                assert(before[j] == paths[j]);
            } else {
                assert(!has_active(before, paths[j].path_id));
            }
        }
        assert forall|i: int| 0 <= i < paths.len() && takes_part(
            #[trigger] paths[i],
        ) implies paths[i].valid() by {
            lemma_participant_is_valid(paths, i);
        }
    }
}

proof fn lemma_reference_is_found(paths: Seq<CoupledPathState>) -> (index: int)
    requires
        scan_failure(paths) is None,
        reference_path(paths) is Some,
    ensures
        is_reference(paths, index),
        reference_path(paths)->0.path_id == paths[index].path_id,
        reference_path(paths)->0.window == paths[index].window(),
        reference_path(paths)->0.rtt_micros == paths[index].smoothed_rtt_micros,
    decreases paths.len(),
{
    let before = paths.drop_last();
    let last = paths.len() - 1;
    let path = paths.last();
    let best = reference_path(paths)->0;
    let index = if path.participates() && (reference_path(before) is None
        || crate::multipath::ratio_side(path.window(), reference_path(before)->0.rtt_micros)
        > crate::multipath::ratio_side(
        reference_path(before)->0.window,
        path.smoothed_rtt_micros,
    )) {
        last
    } else {
        lemma_reference_is_found(before)
    };
    assert forall|i: int| 0 <= i < paths.len() && takes_part(#[trigger] paths[i]) implies {
        let own = paths[i].window() * (paths[index].smoothed_rtt_micros
            * paths[index].smoothed_rtt_micros);
        let most = paths[index].window() * (paths[i].smoothed_rtt_micros
            * paths[i].smoothed_rtt_micros);
        own <= most && (i < index ==> own < most)
    } by {
        lemma_reference_is_best(paths, i);
        if i < index && index == last {
            assert(before[i] == paths[i]);
            lemma_reference_is_best(before, i);
            let earlier = reference_path(before)->0;
            lemma_participant_is_valid(paths, i);
            lemma_participant_is_valid(paths, last);
            lemma_strictly_beyond(
                paths[i].window() as int,
                paths[i].smoothed_rtt_micros as int,
                earlier.window as int,
                earlier.rtt_micros as int,
                path.window() as int,
                path.smoothed_rtt_micros as int,
            );
        } else if i < index {
            assert(before[i] == paths[i]);
            assert(before[index] == paths[index]);
        }
    }
    index
}

proof fn lemma_strictly_beyond(
    low_window: int,
    low_rtt: int,
    mid_window: int,
    mid_rtt: int,
    high_window: int,
    high_rtt: int,
)
    requires
        0 < low_rtt,
        0 < mid_rtt,
        0 < high_rtt,
        low_window * (mid_rtt * mid_rtt) <= mid_window * (low_rtt * low_rtt),
        mid_window * (high_rtt * high_rtt) < high_window * (mid_rtt * mid_rtt),
    ensures
        low_window * (high_rtt * high_rtt) < high_window * (low_rtt * low_rtt),
{
    let low = low_rtt * low_rtt;
    let mid = mid_rtt * mid_rtt;
    let high = high_rtt * high_rtt;
    assert(low > 0 && mid > 0 && high > 0) by (nonlinear_arith)
        requires
            low == low_rtt * low_rtt,
            mid == mid_rtt * mid_rtt,
            high == high_rtt * high_rtt,
            0 < low_rtt,
            0 < mid_rtt,
            0 < high_rtt,
    ;
    assert((low_window * mid) * high <= (mid_window * low) * high) by (nonlinear_arith)
        requires
            low_window * mid <= mid_window * low,
            high > 0,
    ;
    assert((mid_window * high) * low < (high_window * mid) * low) by (nonlinear_arith)
        requires
            mid_window * high < high_window * mid,
            low > 0,
    ;
    assert((mid_window * low) * high == (mid_window * high) * low) by (nonlinear_arith);
    assert((low_window * mid) * high == (low_window * high) * mid) by (nonlinear_arith);
    assert((high_window * mid) * low == (high_window * low) * mid) by (nonlinear_arith);
    assert(low_window * high < high_window * low) by (nonlinear_arith)
        requires
            (low_window * high) * mid < (high_window * low) * mid,
            mid > 0,
    ;
}

/// Why the coupling cannot be computed: no paths or more than 16, an identifier that two active
/// paths share, a path that takes part without an RTT or with too small a datagram, or an
/// acknowledged path that does not take part.
pub proof fn lemma_coupling_refusals(
    path_id: u8,
    paths: &[CoupledPathState],
    inputs: Result<LiaInputs, MultipathError>,
)
    requires
        call_ensures(calculate_lia_inputs, (path_id, paths), inputs),
    ensures
        inputs matches Err(MultipathError::EmptyPathSet) <==> paths@.len() == 0,
        inputs matches Err(MultipathError::TooManyPaths) <==> paths@.len() > 16,
        inputs matches Err(MultipathError::DuplicatePathId(shared)) ==> exists|i: int, j: int|
            0 <= i < j < paths@.len() && (#[trigger] paths@[i]).active && (
            #[trigger] paths@[j]).active && paths@[i].path_id == shared && paths@[j].path_id
                == shared,
        inputs matches Err(MultipathError::InvalidPathState(invalid)) ==> exists|i: int|
            0 <= i < paths@.len() && takes_part(#[trigger] paths@[i]) && paths@[i].path_id
                == invalid && (paths@[i].congestion_window == 0 || paths@[i].smoothed_rtt_micros
                == 0 || paths@[i].max_datagram_size < 1_200),
        inputs matches Err(MultipathError::AckPathUnavailable) ==> forall|i: int|
            0 <= i < paths@.len() && takes_part(#[trigger] paths@[i]) ==> paths@[i].path_id
                != path_id,
        !(inputs matches Err(MultipathError::ZeroAcknowledgedBytes)),
        !(inputs matches Err(MultipathError::CreditSlotsExhausted)),
{
    lemma_scan_refuses(paths@);
    lemma_found_path(paths@, path_id);
}

proof fn lemma_scan_refuses(paths: Seq<CoupledPathState>)
    ensures
        match scan_failure(paths) {
            Some(MultipathError::DuplicatePathId(shared)) => exists|i: int, j: int|
                0 <= i < j < paths.len() && (#[trigger] paths[i]).active && (
                #[trigger] paths[j]).active && paths[i].path_id == shared && paths[j].path_id
                    == shared,
            Some(MultipathError::InvalidPathState(invalid)) => exists|i: int|
                0 <= i < paths.len() && takes_part(#[trigger] paths[i]) && paths[i].path_id
                    == invalid && !paths[i].valid(),
            Some(MultipathError::ArithmeticOverflow) => true,
            Some(_) => false,
            None => true,
        },
    decreases paths.len(),
{
    if paths.len() > 0 {
        let before = paths.drop_last();
        let last = paths.len() - 1;
        lemma_scan_refuses(before);
        match scan_failure(paths) {
            Some(MultipathError::DuplicatePathId(shared)) => {
                if scan_failure(before) is Some {
                    let (i, j) = choose|i: int, j: int|
                        0 <= i < j < before.len() && (#[trigger] before[i]).active && (
                        #[trigger] before[j]).active && before[i].path_id == shared
                            && before[j].path_id == shared;
                    assert(paths[i].active && paths[j].active);
                } else {
                    let i = choose|i: int|
                        0 <= i < before.len() && (#[trigger] before[i]).active
                            && before[i].path_id == shared;
                    assert(paths[i].active && paths[last].active);
                }
            },
            Some(MultipathError::InvalidPathState(invalid)) => {
                if scan_failure(before) is Some {
                    let i = choose|i: int|
                        0 <= i < before.len() && takes_part(#[trigger] before[i])
                            && before[i].path_id == invalid && !before[i].valid();
                    assert(takes_part(paths[i]));
                } else {
                    assert(takes_part(paths[last]));
                }
            },
            _ => {},
        }
    }
}

/// Growth that `permitted` 2^32nds of a byte stand for: the largest amount that neither exceeds the
/// acknowledged bytes' share of the coupled growth nor their share of the path's own window.
pub open spec fn is_permitted_growth(inputs: LiaInputs, bytes: u32, permitted: int) -> bool {
    let own = bytes * inputs.acknowledged_mds * 0x1_0000_0000;
    let coupled = inputs.alpha_scaled * bytes * inputs.acknowledged_mds * 0x1_0000_0000;
    let aggregate = 512 * inputs.aggregate_window;
    &&& permitted * aggregate <= coupled
    &&& permitted * inputs.acknowledged_window <= own
    &&& (permitted + 1) * aggregate > coupled || (permitted + 1) * inputs.acknowledged_window > own
}

/// An acknowledgement's growth is what is permitted, together with the fraction of a byte that the
/// path's slot has retained. Whole bytes are granted, the fraction is retained, and no other slot
/// changes. A path without a slot takes a free one.
pub proof fn lemma_growth_is_granted_in_whole_bytes(
    path_id: u8,
    bytes: u32,
    paths: &[CoupledPathState],
    inputs: LiaInputs,
    decision: LiaDecision,
)
    requires
        call_ensures(calculate_lia_inputs, (path_id, paths), Ok(inputs)),
    ensures
        forall|coupler: &mut LiaCoupler| #[trigger]
            call_ensures(
                LiaCoupler::ack_growth_limit,
                (coupler, path_id, bytes, paths),
                Ok(decision),
            ) ==> {
                let before = coupler@;
                let after = final(coupler)@;
                &&& bytes > 0
                &&& decision.alpha_scaled == inputs.alpha_scaled
                &&& decision.aggregate_window == inputs.aggregate_window
                &&& decision.acknowledged_path_window == inputs.acknowledged_window
                &&& decision.reference_path_id == inputs.reference_path_id
                &&& decision.participating_paths == inputs.participating_paths
                &&& exists|slot: int, permitted: int| #[trigger]
                    grants(before, after, path_id, slot, decision.growth_limit_bytes, permitted)
                        && is_permitted_growth(inputs, bytes, permitted)
            },
{
    assert forall|coupler: &mut LiaCoupler| #[trigger]
        call_ensures(LiaCoupler::ack_growth_limit, (coupler, path_id, bytes, paths), Ok(decision))
            implies exists|slot: int, permitted: int| #[trigger]
        grants(
            coupler@,
            final(coupler)@,
            path_id,
            slot,
            decision.growth_limit_bytes,
            permitted,
        ) && is_permitted_growth(inputs, bytes, permitted) by {
        let credits = coupler@;
        lemma_slots(credits, path_id);
        lemma_acknowledged_is_participant(paths@, path_id);
        let (slot, _) = crate::multipath::serving_slot(credits, path_id)->0;
        let permitted = permitted_growth(path_id, bytes, paths@);
        lemma_permitted(path_id, bytes, paths@, inputs);
        assert(grants(
            credits,
            final(coupler)@,
            path_id,
            slot,
            decision.growth_limit_bytes,
            permitted,
        ));
    }
}

/// Whether a slot grants `permitted` 2^32nds of a byte as whole bytes, and retains the rest.
pub open spec fn grants(
    before: Seq<LiaCredit>,
    after: Seq<LiaCredit>,
    path_id: u8,
    slot: int,
    granted: u64,
    permitted: int,
) -> bool {
    let held = exists|i: int|
        0 <= i < before.len() && (#[trigger] before[i]).occupied && before[i].path_id == path_id;
    let retained = if held {
        before[slot].fractional_q32 as int
    } else {
        0
    };
    &&& 0 <= slot < before.len()
    &&& held ==> before[slot].occupied && before[slot].path_id == path_id
    &&& !held ==> !before[slot].occupied
    &&& after.len() == before.len()
    &&& forall|i: int| 0 <= i < before.len() && i != slot ==> #[trigger] after[i] == before[i]
    &&& after[slot].occupied && after[slot].path_id == path_id
    &&& after[slot].fractional_q32 < 0x1_0000_0000
    &&& granted * 0x1_0000_0000 + after[slot].fractional_q32 == permitted + retained
}

proof fn lemma_permitted(
    path_id: u8,
    bytes: u32,
    paths: Seq<CoupledPathState>,
    inputs: LiaInputs,
)
    requires
        scan_failure(paths) is None,
        acknowledged_path(paths, path_id) matches Some(path) && inputs.acknowledged_window
            == path.window() && inputs.acknowledged_mds == path.max_datagram_size,
        inputs.aggregate_window == window_sum(paths),
        inputs.alpha_scaled == crate::multipath::alpha(paths),
    ensures
        is_permitted_growth(inputs, bytes, permitted_growth(path_id, bytes, paths)),
{
    lemma_acknowledged_is_participant(paths, path_id);
    let size = inputs.acknowledged_mds;
    let own = bytes * size * 0x1_0000_0000;
    let coupled = inputs.alpha_scaled * bytes * size * 0x1_0000_0000;
    let aggregate = 512 * inputs.aggregate_window;
    let window = inputs.acknowledged_window as int;
    let linked = linked_growth(path_id, bytes, paths);
    let alone = uncoupled_growth(path_id, bytes, paths);
    assert(linked == coupled / aggregate);
    assert(alone == own / window);
    lemma_quotient(coupled, aggregate);
    lemma_quotient(own, window);
    if linked <= alone {
        assert(linked * window <= alone * window) by (nonlinear_arith)
            requires
                linked <= alone,
                window > 0,
        ;
    } else {
        assert(alone * aggregate <= linked * aggregate) by (nonlinear_arith)
            requires
                alone <= linked,
                aggregate > 0,
        ;
    }
}

proof fn lemma_quotient(dividend: int, divisor: int)
    requires
        0 < divisor,
    ensures
        dividend / divisor * divisor <= dividend < (dividend / divisor + 1) * divisor,
{
    vstd::arithmetic::div_mod::lemma_fundamental_div_mod(dividend, divisor);
    let whole = dividend / divisor;
    assert((whole + 1) * divisor == whole * divisor + divisor) by (nonlinear_arith);
    assert(divisor * whole == whole * divisor) by (nonlinear_arith);
}

/// A retired path gives up its slot and its retained fraction, and no other path is affected.
pub proof fn lemma_retired_paths_keep_no_credit(path_id: u8, cleared: bool)
    ensures
        forall|coupler: &mut LiaCoupler|
            coupler.well_formed() && #[trigger] call_ensures(
                LiaCoupler::retire_path,
                (coupler, path_id),
                cleared,
            ) ==> {
                let before = coupler@;
                let after = final(coupler)@;
                &&& after.len() == before.len()
                &&& cleared <==> exists|i: int|
                    0 <= i < before.len() && (#[trigger] before[i]).occupied && before[i].path_id
                        == path_id
                &&& forall|i: int|
                    0 <= i < before.len() ==> if (#[trigger] before[i]).occupied
                        && before[i].path_id == path_id {
                        !after[i].occupied && after[i].fractional_q32 == 0
                    } else {
                        after[i] == before[i]
                    }
            },
{
    assert forall|coupler: &mut LiaCoupler|
        coupler.well_formed() && #[trigger] call_ensures(
            LiaCoupler::retire_path,
            (coupler, path_id),
            cleared,
        ) implies {
        let before = coupler@;
        let after = final(coupler)@;
        &&& after.len() == before.len()
        &&& cleared <==> exists|i: int|
            0 <= i < before.len() && (#[trigger] before[i]).occupied && before[i].path_id
                == path_id
        &&& forall|i: int|
            0 <= i < before.len() ==> if (#[trigger] before[i]).occupied && before[i].path_id
                == path_id {
                !after[i].occupied && after[i].fractional_q32 == 0
            } else {
                after[i] == before[i]
            }
    } by {
        let before = coupler@;
        lemma_slots(before, path_id);
        if slot_of(before, path_id, 0) is Some {
            let slot = slot_of(before, path_id, 0)->0;
            assert(before[slot].occupied);
        }
    }
}

} // verus!
