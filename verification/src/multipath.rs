//! Allocation-free linked-increases coupling for concurrent paths.
//!
//! The integer equations are those of the experimental linked-increases algorithm. The result is an
//! upper bound on the growth that a path's own controller asks for.

use vstd::prelude::*;

use crate::arith::wide_product;
use crate::congestion::MIN_MAX_DATAGRAM_SIZE;
use crate::text::{decimal, fixed, with_number};

verus! {

/// Maximum number of paths that may participate in one coupled calculation.
pub const MAX_COUPLED_PATHS: usize = 16;

/// Integer precision of the alpha calculation.
pub const LIA_ALPHA_SCALE: u128 = 512;

/// One byte of growth in fractional credit units.
pub const CREDIT_ONE: u128 = 0x1_0000_0000;

/// Invalid multipath coupling input or bounded-state exhaustion.
#[derive(Clone, Copy, Debug, PartialEq, Eq, Structural)]
pub enum MultipathError {
    EmptyPathSet,
    TooManyPaths,
    DuplicatePathId(u8),
    AckPathUnavailable,
    InvalidPathState(u8),
    ZeroAcknowledgedBytes,
    ArithmeticOverflow,
    CreditSlotsExhausted,
}

impl MultipathError {
    /// The diagnostic text of a failure.
    pub open spec fn message_text(self) -> Seq<char> {
        match self {
            MultipathError::EmptyPathSet => "coupled path set is empty"@,
            MultipathError::TooManyPaths => "coupled path set exceeds 16 paths"@,
            MultipathError::DuplicatePathId(path_id) => "duplicate active path identifier "@
                + decimal(path_id as nat) + ""@,
            MultipathError::AckPathUnavailable => "acknowledged path has no effective window"@,
            MultipathError::InvalidPathState(path_id) => "invalid congestion state for path "@
                + decimal(path_id as nat) + ""@,
            MultipathError::ZeroAcknowledgedBytes => "newly acknowledged byte count is zero"@,
            MultipathError::ArithmeticOverflow => "multipath coupling arithmetic overflow"@,
            MultipathError::CreditSlotsExhausted => "all multipath credit slots are occupied"@,
        }
    }

    /// Returns the diagnostic text of this failure.
    pub fn message(&self) -> (text: String)
        ensures
            text@ == self.message_text(),
    {
        match *self {
            MultipathError::EmptyPathSet => fixed("coupled path set is empty"),
            MultipathError::TooManyPaths => fixed("coupled path set exceeds 16 paths"),
            MultipathError::DuplicatePathId(path_id) => with_number(
                "duplicate active path identifier ",
                path_id as u64,
                "",
            ),
            MultipathError::AckPathUnavailable => fixed(
                "acknowledged path has no effective window",
            ),
            MultipathError::InvalidPathState(path_id) => with_number(
                "invalid congestion state for path ",
                path_id as u64,
                "",
            ),
            MultipathError::ZeroAcknowledgedBytes => fixed("newly acknowledged byte count is zero"),
            MultipathError::ArithmeticOverflow => fixed("multipath coupling arithmetic overflow"),
            MultipathError::CreditSlotsExhausted => fixed(
                "all multipath credit slots are occupied",
            ),
        }
    }
}

/// Borrowed per-path inputs to one linked-increases calculation.
#[derive(Clone, Copy, Debug, PartialEq, Eq, Structural)]
pub struct CoupledPathState {
    /// Stable identifier within the connection.
    pub path_id: u8,
    /// Whether the path is eligible to participate.
    pub active: bool,
    /// Current congestion window in bytes.
    pub congestion_window: u64,
    /// Current congestion-controlled flight in bytes.
    pub bytes_in_flight: u64,
    /// Current slow-start threshold in bytes.
    pub slow_start_threshold: u64,
    /// Smoothed round-trip time in microseconds.
    pub smoothed_rtt_micros: u64,
    /// Maximum UDP payload currently usable on this path.
    pub max_datagram_size: u32,
    /// Whether recovery requires substituting the slow-start threshold.
    pub in_recovery: bool,
    /// Whether flight, rather than the window, limits the sender.
    pub application_limited: bool,
}

impl CoupledPathState {
    /// The window that counts: capped by the slow-start threshold in recovery and by the flight
    /// when the application limits the sender.
    pub open spec fn window(self) -> u64 {
        let recovery_window = if self.in_recovery && self.slow_start_threshold
            <= self.congestion_window {
            self.slow_start_threshold
        } else {
            self.congestion_window
        };
        if self.application_limited && self.bytes_in_flight < recovery_window {
            self.bytes_in_flight
        } else {
            recovery_window
        }
    }

    /// Whether the path enters the aggregate calculations.
    pub open spec fn participates(self) -> bool {
        self.active && self.window() != 0
    }

    /// Whether a participating path's own fields are usable.
    pub open spec fn valid(self) -> bool {
        &&& self.congestion_window != 0
        &&& self.smoothed_rtt_micros != 0
        &&& self.max_datagram_size >= MIN_MAX_DATAGRAM_SIZE
    }

    /// Returns the window that participates in the aggregate calculations.
    ///
    /// Recovery substitutes `ssthresh` for an inflated congestion window. Application-limited paths
    /// contribute no more than their actual flight.
    pub fn effective_window(self) -> (window: u64)
        ensures
            window == self.window(),
    {
        let recovery_window: u64 = if self.in_recovery {
            if self.congestion_window < self.slow_start_threshold {
                self.congestion_window
            } else {
                self.slow_start_threshold
            }
        } else {
            self.congestion_window
        };
        if self.application_limited && self.bytes_in_flight < recovery_window {
            self.bytes_in_flight
        } else {
            recovery_window
        }
    }
}

/// A path that may serve as the reference of the alpha calculation.
#[derive(Clone, Copy, Debug, PartialEq, Eq, Structural)]
pub struct ReferencePath {
    pub path_id: u8,
    pub window: u64,
    pub rtt_micros: u64,
}

/// One side of a comparison of two `window / rtt^2` ratios.
pub open spec fn ratio_side(window: u64, other_rtt: u64) -> int {
    window * (other_rtt * other_rtt)
}

/// Whether comparing a path with a reference stays inside 128 bits.
pub open spec fn ratio_fits(path: CoupledPathState, reference: ReferencePath) -> bool {
    &&& ratio_side(path.window(), reference.rtt_micros) <= u128::MAX
    &&& ratio_side(reference.window, path.smoothed_rtt_micros) <= u128::MAX
}

/// Whether an active path with this identifier occurs.
pub open spec fn has_active(paths: Seq<CoupledPathState>, path_id: u8) -> bool {
    exists|i: int|
        0 <= i < paths.len() && (#[trigger] paths[i]).active && paths[i].path_id == path_id
}

/// Sum of the participating windows.
pub open spec fn window_sum(paths: Seq<CoupledPathState>) -> nat
    decreases paths.len(),
{
    if paths.len() == 0 {
        0
    } else {
        window_sum(paths.drop_last()) + if paths.last().participates() {
            paths.last().window() as nat
        } else {
            0
        }
    }
}

/// Number of participating paths.
pub open spec fn participants(paths: Seq<CoupledPathState>) -> nat
    decreases paths.len(),
{
    if paths.len() == 0 {
        0
    } else {
        participants(paths.drop_last()) + if paths.last().participates() {
            1nat
        } else {
            0
        }
    }
}

/// The first participating path with the largest `window / rtt^2`.
pub open spec fn reference_path(paths: Seq<CoupledPathState>) -> Option<ReferencePath>
    decreases paths.len(),
{
    if paths.len() == 0 {
        None
    } else {
        let earlier = reference_path(paths.drop_last());
        let path = paths.last();
        let candidate = ReferencePath {
            path_id: path.path_id,
            window: path.window(),
            rtt_micros: path.smoothed_rtt_micros,
        };
        if !path.participates() {
            earlier
        } else {
            match earlier {
                None => Some(candidate),
                Some(best) => if ratio_side(candidate.window, best.rtt_micros) > ratio_side(
                    best.window,
                    candidate.rtt_micros,
                ) {
                    Some(candidate)
                } else {
                    Some(best)
                },
            }
        }
    }
}

/// The participating path with an identifier.
pub open spec fn acknowledged_path(paths: Seq<CoupledPathState>, path_id: u8) -> Option<
    CoupledPathState,
>
    decreases paths.len(),
{
    if paths.len() == 0 {
        None
    } else if paths.last().participates() && paths.last().path_id == path_id {
        Some(paths.last())
    } else {
        acknowledged_path(paths.drop_last(), path_id)
    }
}

/// Sum of the windows, each scaled by the reference RTT over its own RTT and rounded down.
pub open spec fn normalized_sum(paths: Seq<CoupledPathState>, reference_rtt: u64) -> nat
    decreases paths.len(),
{
    if paths.len() == 0 {
        0
    } else {
        normalized_sum(paths.drop_last(), reference_rtt) + if paths.last().participates() {
            ((reference_rtt * paths.last().window()) / (
            paths.last().smoothed_rtt_micros as int)) as nat
        } else {
            0
        }
    }
}

/// The first failure met while the paths are read in order, if any.
pub open spec fn scan_failure(paths: Seq<CoupledPathState>) -> Option<MultipathError>
    decreases paths.len(),
{
    if paths.len() == 0 {
        None
    } else {
        let earlier = paths.drop_last();
        let path = paths.last();
        if scan_failure(earlier) is Some {
            scan_failure(earlier)
        } else if !path.active {
            None
        } else if has_active(earlier, path.path_id) {
            Some(MultipathError::DuplicatePathId(path.path_id))
        } else if path.participates() && !path.valid() {
            Some(MultipathError::InvalidPathState(path.path_id))
        } else if window_sum(paths) > u64::MAX {
            Some(MultipathError::ArithmeticOverflow)
        } else if path.participates() && (reference_path(earlier) matches Some(best)
            && !ratio_fits(path, best)) {
            Some(MultipathError::ArithmeticOverflow)
        } else {
            None
        }
    }
}

/// The failure of the aggregate calculation, if any.
pub open spec fn inputs_failure(path_id: u8, paths: Seq<CoupledPathState>) -> Option<
    MultipathError,
> {
    if paths.len() == 0 {
        Some(MultipathError::EmptyPathSet)
    } else if paths.len() > MAX_COUPLED_PATHS {
        Some(MultipathError::TooManyPaths)
    } else if scan_failure(paths) is Some {
        scan_failure(paths)
    } else if acknowledged_path(paths, path_id) is None {
        Some(MultipathError::AckPathUnavailable)
    } else {
        let best = reference_path(paths)->0;
        let sum = normalized_sum(paths, best.rtt_micros);
        if sum > u128::MAX || sum * sum > u128::MAX || sum == 0 || LIA_ALPHA_SCALE * window_sum(
            paths,
        ) * best.window > u128::MAX {
            Some(MultipathError::ArithmeticOverflow)
        } else {
            None
        }
    }
}

/// Alpha times its scale.
pub open spec fn alpha(paths: Seq<CoupledPathState>) -> int {
    let best = reference_path(paths)->0;
    let sum = normalized_sum(paths, best.rtt_micros);
    (LIA_ALPHA_SCALE * window_sum(paths) * best.window) / (sum * sum) as int
}

/// Growth permitted by the coupled equation, in fractional credit units.
pub open spec fn linked_growth(path_id: u8, bytes: u32, paths: Seq<CoupledPathState>) -> int {
    let path = acknowledged_path(paths, path_id)->0;
    (alpha(paths) * bytes * path.max_datagram_size * CREDIT_ONE) / (LIA_ALPHA_SCALE * window_sum(
        paths,
    ))
}

/// Growth of an uncoupled path, in fractional credit units.
pub open spec fn uncoupled_growth(path_id: u8, bytes: u32, paths: Seq<CoupledPathState>) -> int {
    let path = acknowledged_path(paths, path_id)->0;
    (bytes * path.max_datagram_size * CREDIT_ONE) / (path.window() as int)
}

/// Growth permitted for one acknowledgement, in fractional credit units.
pub open spec fn permitted_growth(path_id: u8, bytes: u32, paths: Seq<CoupledPathState>) -> int {
    crate::arith::min_int(
        linked_growth(path_id, bytes, paths),
        uncoupled_growth(path_id, bytes, paths),
    )
}

/// The failure of a growth calculation before credit is assigned, if any.
pub open spec fn growth_failure(
    path_id: u8,
    bytes: u32,
    paths: Seq<CoupledPathState>,
) -> Option<MultipathError> {
    if bytes == 0 {
        Some(MultipathError::ZeroAcknowledgedBytes)
    } else if inputs_failure(path_id, paths) is Some {
        inputs_failure(path_id, paths)
    } else if alpha(paths) * bytes * acknowledged_path(paths, path_id)->0.max_datagram_size
        * CREDIT_ONE > u128::MAX {
        Some(MultipathError::ArithmeticOverflow)
    } else {
        None
    }
}

/// Observable result of one linked-increases calculation.
#[derive(Clone, Copy, Debug, PartialEq, Eq, Structural)]
pub struct LiaDecision {
    /// Whole bytes by which the acknowledged path may grow on this ACK.
    pub growth_limit_bytes: u64,
    /// Alpha multiplied by [`LIA_ALPHA_SCALE`].
    pub alpha_scaled: u128,
    /// Sum of all participating effective congestion windows.
    pub aggregate_window: u64,
    /// Effective window of the acknowledged path.
    pub acknowledged_path_window: u64,
    /// Path selected by the `cwnd / RTT^2` maximum in the alpha numerator.
    pub reference_path_id: u8,
    /// Number of paths with non-zero effective windows.
    pub participating_paths: u8,
}

/// Fractional growth retained for one path.
#[derive(Clone, Copy, Debug, PartialEq, Eq, Structural)]
pub struct LiaCredit {
    pub path_id: u8,
    pub occupied: bool,
    pub fractional_q32: u64,
}

/// Aggregates of one linked-increases calculation.
#[derive(Clone, Copy, Debug, PartialEq, Eq, Structural)]
pub struct LiaInputs {
    pub alpha_scaled: u128,
    pub aggregate_window: u64,
    pub acknowledged_window: u64,
    pub acknowledged_mds: u32,
    pub reference_path_id: u8,
    pub participating_paths: u8,
}

/// Index of the first slot at or behind `from` that holds credit of a path.
pub open spec fn slot_of(credits: Seq<LiaCredit>, path_id: u8, from: int) -> Option<int>
    decreases credits.len() - from,
{
    if from >= credits.len() {
        None
    } else if credits[from].occupied && credits[from].path_id == path_id {
        Some(from)
    } else {
        slot_of(credits, path_id, from + 1)
    }
}

/// Index of the first unoccupied slot at or behind `from`.
pub open spec fn free_slot(credits: Seq<LiaCredit>, from: int) -> Option<int>
    decreases credits.len() - from,
{
    if from >= credits.len() {
        None
    } else if !credits[from].occupied {
        Some(from)
    } else {
        free_slot(credits, from + 1)
    }
}

/// The slot that serves a path and the credit it retains: its own slot, or else the first free one.
pub open spec fn serving_slot(credits: Seq<LiaCredit>, path_id: u8) -> Option<(int, u64)> {
    match slot_of(credits, path_id, 0) {
        Some(index) => Some((index, credits[index].fractional_q32)),
        None => match free_slot(credits, 0) {
            Some(index) => Some((index, 0)),
            None => None,
        },
    }
}

/// The slots of a coupler that retains nothing.
pub open spec fn no_credits() -> Seq<LiaCredit> {
    Seq::new(
        MAX_COUPLED_PATHS as nat,
        |i: int| LiaCredit { path_id: 0, occupied: false, fractional_q32: 0 },
    )
}

/// Fixed-capacity per-connection coupling state.
///
/// The caller owns path controllers and supplies a borrowed snapshot on each ACK. This object
/// retains only sub-byte growth credits and never allocates.
#[derive(Debug)]
pub struct LiaCoupler {
    credits: [LiaCredit; MAX_COUPLED_PATHS],
}

impl View for LiaCoupler {
    type V = Seq<LiaCredit>;

    closed spec fn view(&self) -> Seq<LiaCredit> {
        self.credits@
    }
}

impl LiaCoupler {
    /// There is a fixed number of slots, retained credits stay below one byte, and no path holds
    /// two slots.
    pub open spec fn well_formed(&self) -> bool {
        &&& self@.len() == MAX_COUPLED_PATHS
        &&& forall|i: int|
            0 <= i < MAX_COUPLED_PATHS ==> (#[trigger] self@[i]).fractional_q32 < CREDIT_ONE
        &&& forall|i: int, j: int|
            0 <= i < j < MAX_COUPLED_PATHS && (#[trigger] self@[i]).occupied && (
            #[trigger] self@[j]).occupied ==> self@[i].path_id
                != self@[j].path_id
    }

    /// Creates an empty linked-increases coupler.
    pub fn new() -> (coupler: LiaCoupler)
        ensures
            coupler.well_formed(),
            coupler@ == no_credits(),
    {
        let empty = LiaCredit { path_id: 0, occupied: false, fractional_q32: 0 };
        let coupler = LiaCoupler { credits: [empty; MAX_COUPLED_PATHS] };
        assert(coupler@ =~= no_credits());
        coupler
    }

    /// Calculates and accounts the growth limit for one newly acknowledged ACK.
    ///
    /// Active paths with a zero effective window are omitted. Every other active path must have a
    /// valid RTT, congestion window, and datagram size. Fractional growth carries between ACKs
    /// independently for each path.
    ///
    /// # Errors
    ///
    /// Returns an error, and retains all credit, for an empty or oversized path set, duplicate
    /// active identifiers, an unavailable acknowledged path, invalid state, or any integer
    /// overflow. A path identifier must be retired before more than 16 distinct identifiers consume
    /// credit slots.
    pub fn ack_growth_limit(
        &mut self,
        acknowledged_path_id: u8,
        acknowledged_bytes: u32,
        paths: &[CoupledPathState],
    ) -> (decision: Result<LiaDecision, MultipathError>)
        ensures
            old(self).well_formed() ==> final(self).well_formed(),
            match growth_failure(acknowledged_path_id, acknowledged_bytes, paths@) {
                Some(error) => {
                    &&& decision == Err::<LiaDecision, MultipathError>(error)
                    &&& final(self)@ == old(self)@
                },
                None => match serving_slot(old(self)@, acknowledged_path_id) {
                    None => {
                        &&& decision == Err::<LiaDecision, MultipathError>(
                            MultipathError::CreditSlotsExhausted,
                        )
                        &&& final(self)@ == old(self)@
                    },
                    Some((index, retained)) => {
                        let accumulated = permitted_growth(
                            acknowledged_path_id,
                            acknowledged_bytes,
                            paths@,
                        ) + retained;
                        &&& decision == Ok::<LiaDecision, MultipathError>(
                            LiaDecision {
                                growth_limit_bytes: (accumulated / CREDIT_ONE as int) as u64,
                                alpha_scaled: alpha(paths@) as u128,
                                aggregate_window: window_sum(paths@) as u64,
                                acknowledged_path_window: acknowledged_path(
                                    paths@,
                                    acknowledged_path_id,
                                )->0.window(),
                                reference_path_id: reference_path(paths@)->0.path_id,
                                participating_paths: participants(paths@) as u8,
                            },
                        )
                        &&& 0 <= accumulated / CREDIT_ONE as int <= u64::MAX
                        &&& final(self)@ == old(self)@.update(
                            index,
                            LiaCredit {
                                path_id: acknowledged_path_id,
                                occupied: true,
                                fractional_q32: (accumulated % CREDIT_ONE as int) as u64,
                            },
                        )
                    },
                },
            },
    {
        if acknowledged_bytes == 0 {
            return Err(MultipathError::ZeroAcknowledgedBytes);
        }
        let inputs = match calculate_lia_inputs(acknowledged_path_id, paths) {
            Ok(inputs) => inputs,
            Err(error) => {
                return Err(error);
            },
        };
        let acked: u128 = acknowledged_bytes as u128;
        let mds: u128 = inputs.acknowledged_mds as u128;
        let ghost path = acknowledged_path(paths@, acknowledged_path_id)->0;
        proof {
            lemma_acknowledged_is_participant(paths@, acknowledged_path_id);
            lemma_checked_chain(inputs.alpha_scaled as int, acked as int, mds as int);
        }
        let by_bytes: u128 = match inputs.alpha_scaled.checked_mul(acked) {
            Some(product) => product,
            None => {
                return Err(MultipathError::ArithmeticOverflow);
            },
        };
        let by_size: u128 = match by_bytes.checked_mul(mds) {
            Some(product) => product,
            None => {
                return Err(MultipathError::ArithmeticOverflow);
            },
        };
        let linked_numerator: u128 = match by_size.checked_mul(CREDIT_ONE) {
            Some(product) => product,
            None => {
                return Err(MultipathError::ArithmeticOverflow);
            },
        };
        let linked_denominator: u128 = LIA_ALPHA_SCALE * inputs.aggregate_window as u128;
        let linked_growth_q32: u128 = linked_numerator / linked_denominator;
        assert(linked_growth_q32 == linked_growth(
            acknowledged_path_id,
            acknowledged_bytes,
            paths@,
        ));
        proof {
            lemma_reno_bound(acked as int, mds as int, inputs.acknowledged_window as int);
        }
        let reno_numerator: u128 = acked * mds * CREDIT_ONE;
        let reno_growth_q32: u128 = reno_numerator / inputs.acknowledged_window as u128;
        let permitted_q32: u128 = if linked_growth_q32 <= reno_growth_q32 {
            linked_growth_q32
        } else {
            reno_growth_q32
        };
        let (index, retained) = match self.credit_slot(acknowledged_path_id) {
            Some(found) => found,
            None => {
                return Err(MultipathError::CreditSlotsExhausted);
            },
        };
        let accumulated_q32: u128 = permitted_q32 + retained as u128;
        proof {
            lemma_slots(self@, acknowledged_path_id);
        }
        let growth_limit_bytes: u64 = (accumulated_q32 / CREDIT_ONE) as u64;
        self.credits[index] =
        LiaCredit {
            path_id: acknowledged_path_id,
            occupied: true,
            fractional_q32: (accumulated_q32 % CREDIT_ONE) as u64,
        };
        Ok(
            LiaDecision {
                growth_limit_bytes,
                alpha_scaled: inputs.alpha_scaled,
                aggregate_window: inputs.aggregate_window,
                acknowledged_path_window: inputs.acknowledged_window,
                reference_path_id: inputs.reference_path_id,
                participating_paths: inputs.participating_paths,
            },
        )
    }

    /// Removes any fractional credit retained for a retired path identifier.
    ///
    /// Returns `true` when a slot was cleared.
    pub fn retire_path(&mut self, path_id: u8) -> (cleared: bool)
        ensures
            old(self).well_formed() ==> final(self).well_formed(),
            match slot_of(old(self)@, path_id, 0) {
                Some(index) => {
                    &&& cleared
                    &&& final(self)@ == old(self)@.update(
                        index,
                        LiaCredit { path_id: 0, occupied: false, fractional_q32: 0 },
                    )
                },
                None => !cleared && final(self)@ == old(self)@,
            },
    {
        proof {
            lemma_slots(self@, path_id);
        }
        match self.occupied_slot(path_id) {
            Some(index) => {
                self.credits[index] = LiaCredit { path_id: 0, occupied: false, fractional_q32: 0 };
                true
            },
            None => false,
        }
    }

    fn occupied_slot(&self, path_id: u8) -> (found: Option<usize>)
        ensures
            match found {
                Some(index) => slot_of(self@, path_id, 0) == Some(index as int) && index
                    < MAX_COUPLED_PATHS,
                None => slot_of(self@, path_id, 0) is None,
            },
    {
        let mut index: usize = 0;
        while index < MAX_COUPLED_PATHS
            invariant
                index <= MAX_COUPLED_PATHS,
                slot_of(self@, path_id, 0) == slot_of(
                    self@,
                    path_id,
                    index as int,
                ),
            decreases MAX_COUPLED_PATHS - index,
        {
            if self.credits[index].occupied && self.credits[index].path_id == path_id {
                return Some(index);
            }
            index = index + 1;
        }
        None
    }

    fn credit_slot(&self, path_id: u8) -> (found: Option<(usize, u64)>)
        ensures
            match found {
                Some((index, retained)) => {
                    &&& serving_slot(self@, path_id) == Some((index as int, retained))
                    &&& index < MAX_COUPLED_PATHS
                },
                None => serving_slot(self@, path_id) is None,
            },
    {
        match self.occupied_slot(path_id) {
            Some(index) => {
                return Some((index, self.credits[index].fractional_q32));
            },
            None => {},
        }
        let mut index: usize = 0;
        while index < MAX_COUPLED_PATHS
            invariant
                index <= MAX_COUPLED_PATHS,
                slot_of(self@, path_id, 0) is None,
                free_slot(self@, 0) == free_slot(self@, index as int),
            decreases MAX_COUPLED_PATHS - index,
        {
            if !self.credits[index].occupied {
                return Some((index, 0));
            }
            index = index + 1;
        }
        None
    }
}

impl Default for LiaCoupler {
    fn default() -> (coupler: LiaCoupler)
        ensures
            coupler.well_formed(),
            coupler@ == no_credits(),
    {
        LiaCoupler::new()
    }
}

/// A coupler that retains nothing serves every path with its first slot.
pub proof fn lemma_empty_coupler_serves_every_path(path_id: u8)
    ensures
        serving_slot(no_credits(), path_id) == Some((0int, 0u64)),
{
    lemma_slots(no_credits(), path_id);
}

/// What the slot searches find.
pub(crate) proof fn lemma_slots(credits: Seq<LiaCredit>, path_id: u8)
    ensures
        match slot_of(credits, path_id, 0) {
            Some(index) => 0 <= index < credits.len() && credits[index].occupied
                && credits[index].path_id == path_id,
            None => forall|i: int|
                0 <= i < credits.len() && (#[trigger] credits[i]).occupied ==> credits[i].path_id
                    != path_id,
        },
        free_slot(credits, 0) matches Some(index) ==> 0 <= index < credits.len()
            && !credits[index].occupied,
{
    lemma_slots_from(credits, path_id, 0);
}

proof fn lemma_slots_from(credits: Seq<LiaCredit>, path_id: u8, from: int)
    requires
        0 <= from <= credits.len(),
    ensures
        match slot_of(credits, path_id, from) {
            Some(index) => from <= index < credits.len() && credits[index].occupied
                && credits[index].path_id == path_id,
            None => forall|i: int|
                from <= i < credits.len() && (#[trigger] credits[i]).occupied ==> credits[i].path_id
                    != path_id,
        },
        free_slot(credits, from) matches Some(index) ==> from <= index < credits.len()
            && !credits[index].occupied,
    decreases credits.len() - from,
{
    if from < credits.len() {
        lemma_slots_from(credits, path_id, from + 1);
    }
}

/// A product of nonnegative factors is out of range as soon as a prefix of it is.
proof fn lemma_checked_chain(alpha: int, bytes: int, size: int)
    requires
        0 <= alpha,
        1 <= bytes,
        1 <= size,
    ensures
        0 <= alpha * bytes <= alpha * bytes * size <= alpha * bytes * size * CREDIT_ONE,
{
    assert(0 <= alpha * bytes) by (nonlinear_arith)
        requires
            0 <= alpha,
            1 <= bytes,
    ;
    let product = alpha * bytes;
    assert(product <= product * size) by (nonlinear_arith)
        requires
            0 <= product,
            1 <= size,
    ;
}

proof fn lemma_reno_bound(bytes: int, size: int, window: int)
    requires
        0 <= bytes <= u32::MAX,
        0 <= size <= u32::MAX,
        1 <= window,
    ensures
        0 <= bytes * size <= 0xffff_fffe_0000_0001,
        0 <= bytes * size * CREDIT_ONE <= 0xffff_fffe_0000_0001 * CREDIT_ONE,
        0 <= (bytes * size * CREDIT_ONE) / window <= 0xffff_fffe_0000_0001 * CREDIT_ONE,
{
    assert(0 <= bytes * size <= 0xffff_fffe_0000_0001) by (nonlinear_arith)
        requires
            0 <= bytes <= 0xffff_ffff,
            0 <= size <= 0xffff_ffff,
    ;
    let numerator = bytes * size * CREDIT_ONE;
    assert(0 <= numerator / window <= numerator) by (nonlinear_arith)
        requires
            0 <= numerator,
            1 <= window,
    ;
}

/// The acknowledged path is one of the participating paths, so aggregates include it.
pub(crate) proof fn lemma_acknowledged_is_participant(paths: Seq<CoupledPathState>, path_id: u8)
    requires
        acknowledged_path(paths, path_id) is Some,
        scan_failure(paths) is None,
    ensures
        acknowledged_path(paths, path_id)->0.window() > 0,
        acknowledged_path(paths, path_id)->0.valid(),
        acknowledged_path(paths, path_id)->0.path_id == path_id,
        window_sum(paths) >= acknowledged_path(paths, path_id)->0.window(),
        reference_path(paths) is Some,
    decreases paths.len(),
{
    if !(paths.last().participates() && paths.last().path_id == path_id) {
        lemma_acknowledged_is_participant(paths.drop_last(), path_id);
    }
}

/// The part of a scan that the aggregates rest on.
proof fn lemma_scan_prefix(paths: Seq<CoupledPathState>, length: int)
    requires
        0 <= length <= paths.len(),
    ensures
        scan_failure(paths.take(length)) is Some ==> scan_failure(paths) == scan_failure(
            paths.take(length),
        ),
    decreases paths.len() - length,
{
    if length == paths.len() {
        assert(paths.take(length) =~= paths);
    } else {
        lemma_scan_prefix(paths, length + 1);
        assert(paths.take(length + 1).drop_last() =~= paths.take(length));
    }
}

proof fn lemma_sums_grow(paths: Seq<CoupledPathState>, length: int, reference_rtt: u64)
    requires
        0 <= length <= paths.len(),
    ensures
        normalized_sum(paths.take(length), reference_rtt) <= normalized_sum(paths, reference_rtt),
    decreases paths.len() - length,
{
    if length == paths.len() {
        assert(paths.take(length) =~= paths);
    } else {
        lemma_sums_grow(paths, length + 1, reference_rtt);
        assert(paths.take(length + 1).drop_last() =~= paths.take(length));
    }
}

/// Aggregates the participating paths of one snapshot.
pub fn calculate_lia_inputs(
    acknowledged_path_id: u8,
    paths: &[CoupledPathState],
) -> (inputs: Result<LiaInputs, MultipathError>)
    ensures
        match inputs_failure(acknowledged_path_id, paths@) {
            Some(error) => inputs == Err::<LiaInputs, MultipathError>(error),
            None => {
                let path = acknowledged_path(paths@, acknowledged_path_id)->0;
                &&& inputs matches Ok(found)
                &&& found.alpha_scaled == alpha(paths@)
                &&& found.aggregate_window == window_sum(paths@)
                &&& found.acknowledged_window == path.window()
                &&& found.acknowledged_mds == path.max_datagram_size
                &&& found.reference_path_id == reference_path(paths@)->0.path_id
                &&& found.participating_paths == participants(paths@)
                &&& acknowledged_path(paths@, acknowledged_path_id) is Some
                &&& scan_failure(paths@) is None
            },
        },
{
    if paths.len() == 0 {
        return Err(MultipathError::EmptyPathSet);
    }
    if paths.len() > MAX_COUPLED_PATHS {
        return Err(MultipathError::TooManyPaths);
    }
    let mut aggregate_window: u64 = 0;
    let mut participating_paths: u8 = 0;
    let mut reference: Option<ReferencePath> = None;
    let mut acknowledged: Option<CoupledPathState> = None;
    let mut index: usize = 0;
    assert(paths@.take(0) =~= Seq::empty());
    while index < paths.len()
        invariant
            index <= paths@.len(),
            0 < paths@.len() <= MAX_COUPLED_PATHS,
            scan_failure(paths@.take(index as int)) is None,
            aggregate_window == window_sum(paths@.take(index as int)),
            participating_paths == participants(paths@.take(index as int)),
            participating_paths <= index,
            reference == reference_path(paths@.take(index as int)),
            acknowledged == acknowledged_path(paths@.take(index as int), acknowledged_path_id),
        decreases paths@.len() - index,
    {
        let path = paths[index];
        let ghost seen = paths@.take(index as int);
        let ghost next = paths@.take(index + 1);
        proof {
            assert(next.drop_last() =~= seen);
            assert(next.last() == path);
            lemma_scan_prefix(paths@, index + 1);
        }
        if path.active {
            match validate_unique_path(path, vstd::slice::slice_subrange(paths, 0, index)) {
                Some(error) => {
                    assert(paths@.subrange(0, index as int) =~= seen);
                    return Err(error);
                },
                None => {
                    assert(paths@.subrange(0, index as int) =~= seen);
                },
            }
            let window: u64 = path.effective_window();
            if window != 0 {
                aggregate_window =
                match aggregate_window.checked_add(window) {
                    Some(sum) => sum,
                    None => {
                        return Err(MultipathError::ArithmeticOverflow);
                    },
                };
                participating_paths = participating_paths + 1;
                let candidate = ReferencePath {
                    path_id: path.path_id,
                    window,
                    rtt_micros: path.smoothed_rtt_micros,
                };
                match reference {
                    None => {
                        reference = Some(candidate);
                    },
                    Some(best) => {
                        match path_ratio_is_greater(
                            candidate.window,
                            candidate.rtt_micros,
                            best.window,
                            best.rtt_micros,
                        ) {
                            None => {
                                return Err(MultipathError::ArithmeticOverflow);
                            },
                            Some(greater) => {
                                if greater {
                                    reference = Some(candidate);
                                }
                            },
                        }
                    },
                }
                if path.path_id == acknowledged_path_id {
                    acknowledged = Some(path);
                }
            }
        }
        index = index + 1;
    }
    assert(paths@.take(index as int) =~= paths@);
    let path = match acknowledged {
        Some(path) => path,
        None => {
            return Err(MultipathError::AckPathUnavailable);
        },
    };
    proof {
        lemma_acknowledged_is_participant(paths@, acknowledged_path_id);
    }
    let best = match reference {
        Some(best) => best,
        None => {
            return Err(MultipathError::AckPathUnavailable);
        },
    };
    let sum: u128 = match normalize_windows(paths, best.rtt_micros) {
        Some(sum) => sum,
        None => {
            return Err(MultipathError::ArithmeticOverflow);
        },
    };
    let square: u128 = match sum.checked_mul(sum) {
        Some(square) => square,
        None => {
            return Err(MultipathError::ArithmeticOverflow);
        },
    };
    if square == 0 {
        assert(sum == 0) by (nonlinear_arith)
            requires
                sum * sum == 0,
        ;
        return Err(MultipathError::ArithmeticOverflow);
    }
    assert(sum != 0) by (nonlinear_arith)
        requires
            sum * sum != 0,
    ;
    let scaled_window: u128 = LIA_ALPHA_SCALE * aggregate_window as u128;
    let numerator: u128 = match scaled_window.checked_mul(best.window as u128) {
        Some(numerator) => numerator,
        None => {
            return Err(MultipathError::ArithmeticOverflow);
        },
    };
    Ok(
        LiaInputs {
            alpha_scaled: numerator / square,
            aggregate_window,
            acknowledged_window: path.effective_window(),
            acknowledged_mds: path.max_datagram_size,
            reference_path_id: best.path_id,
            participating_paths,
        },
    )
}

/// Sums the normalized windows of a scanned path set, or returns `None` on overflow.
fn normalize_windows(paths: &[CoupledPathState], reference_rtt: u64) -> (sum: Option<u128>)
    requires
        scan_failure(paths@) is None,
    ensures
        match sum {
            Some(sum) => sum == normalized_sum(paths@, reference_rtt),
            None => normalized_sum(paths@, reference_rtt) > u128::MAX,
        },
{
    let mut sum: u128 = 0;
    let mut index: usize = 0;
    assert(paths@.take(0) =~= Seq::empty());
    while index < paths.len()
        invariant
            index <= paths@.len(),
            scan_failure(paths@) is None,
            sum == normalized_sum(paths@.take(index as int), reference_rtt),
        decreases paths@.len() - index,
    {
        let path = paths[index];
        proof {
            assert(paths@.take(index + 1).drop_last() =~= paths@.take(index as int));
            assert(paths@.take(index + 1).last() == path);
            lemma_scan_prefix(paths@, index + 1);
            lemma_sums_grow(paths@, index + 1, reference_rtt);
        }
        if path.active {
            let window: u64 = path.effective_window();
            if window != 0 {
                assert(path.valid());
                let scaled: u128 = wide_product(reference_rtt, window);
                let normalized: u128 = scaled / path.smoothed_rtt_micros as u128;
                sum =
                match sum.checked_add(normalized) {
                    Some(next) => next,
                    None => {
                        return None;
                    },
                };
            }
        }
        index = index + 1;
    }
    assert(paths@.take(index as int) =~= paths@);
    Some(sum)
}

fn validate_unique_path(
    path: CoupledPathState,
    preceding_paths: &[CoupledPathState],
) -> (failure: Option<MultipathError>)
    requires
        path.active,
    ensures
        failure == if has_active(preceding_paths@, path.path_id) {
            Some(MultipathError::DuplicatePathId(path.path_id))
        } else if path.participates() && !path.valid() {
            Some(MultipathError::InvalidPathState(path.path_id))
        } else {
            None
        },
{
    let mut index: usize = 0;
    while index < preceding_paths.len()
        invariant
            index <= preceding_paths@.len(),
            forall|i: int|
                0 <= i < index ==> !((#[trigger] preceding_paths@[i]).active
                    && preceding_paths@[i].path_id == path.path_id),
        decreases preceding_paths@.len() - index,
    {
        if preceding_paths[index].active && preceding_paths[index].path_id == path.path_id {
            return Some(MultipathError::DuplicatePathId(path.path_id));
        }
        index = index + 1;
    }
    if path.effective_window() != 0 && (path.smoothed_rtt_micros == 0 || path.max_datagram_size
        < MIN_MAX_DATAGRAM_SIZE) {
        return Some(MultipathError::InvalidPathState(path.path_id));
    }
    None
}

/// Compares two `window / rtt^2` ratios, or returns `None` on overflow.
fn path_ratio_is_greater(
    candidate_window: u64,
    candidate_rtt: u64,
    current_window: u64,
    current_rtt: u64,
) -> (greater: Option<bool>)
    ensures
        greater == if ratio_side(candidate_window, current_rtt) <= u128::MAX && ratio_side(
            current_window,
            candidate_rtt,
        ) <= u128::MAX {
            Some(
                ratio_side(candidate_window, current_rtt) > ratio_side(
                    current_window,
                    candidate_rtt,
                ),
            )
        } else {
            None
        },
{
    let candidate_side: u128 = match (candidate_window as u128).checked_mul(
        wide_product(current_rtt, current_rtt),
    ) {
        Some(side) => side,
        None => {
            return None;
        },
    };
    let current_side: u128 = match (current_window as u128).checked_mul(
        wide_product(candidate_rtt, candidate_rtt),
    ) {
        Some(side) => side,
        None => {
            return None;
        },
    };
    Some(candidate_side > current_side)
}

/// Coupling never lets a path grow faster than it would alone, and never more than its share of
/// the aggregate allows.
pub proof fn lemma_coupled_growth_is_capped(
    path_id: u8,
    bytes: u32,
    paths: Seq<CoupledPathState>,
)
    ensures
        permitted_growth(path_id, bytes, paths) <= uncoupled_growth(path_id, bytes, paths),
        permitted_growth(path_id, bytes, paths) <= linked_growth(path_id, bytes, paths),
{
}

proof fn lemma_no_participant(paths: Seq<CoupledPathState>, path_id: u8, reference_rtt: u64)
    requires
        participants(paths) == 0,
    ensures
        window_sum(paths) == 0,
        reference_path(paths) is None,
        acknowledged_path(paths, path_id) is None,
        normalized_sum(paths, reference_rtt) == 0,
    decreases paths.len(),
{
    if paths.len() > 0 {
        lemma_no_participant(paths.drop_last(), path_id, reference_rtt);
    }
}

proof fn lemma_sole_participant(paths: Seq<CoupledPathState>, path_id: u8)
    requires
        scan_failure(paths) is None,
        participants(paths) == 1,
        acknowledged_path(paths, path_id) is Some,
    ensures
        ({
            let path = acknowledged_path(paths, path_id)->0;
            &&& path.window() > 0
            &&& window_sum(paths) == path.window()
            &&& reference_path(paths) == Some(
                ReferencePath {
                    path_id: path.path_id,
                    window: path.window(),
                    rtt_micros: path.smoothed_rtt_micros,
                },
            )
            &&& normalized_sum(paths, path.smoothed_rtt_micros) == path.window()
        }),
    decreases paths.len(),
{
    let earlier = paths.drop_last();
    let path = paths.last();
    if path.participates() {
        lemma_no_participant(earlier, path_id, path.smoothed_rtt_micros);
        let rtt = path.smoothed_rtt_micros as int;
        let window = path.window() as int;
        assert((rtt * window) / rtt == window) by (nonlinear_arith)
            requires
                rtt > 0,
        ;
    } else {
        lemma_sole_participant(earlier, path_id);
    }
}

/// A path that participates alone grows as if it were not coupled.
pub proof fn lemma_one_path_grows_uncoupled(
    path_id: u8,
    bytes: u32,
    paths: Seq<CoupledPathState>,
)
    requires
        inputs_failure(path_id, paths) is None,
        participants(paths) == 1,
    ensures
        alpha(paths) == LIA_ALPHA_SCALE,
        permitted_growth(path_id, bytes, paths) == uncoupled_growth(path_id, bytes, paths),
{
    lemma_sole_participant(paths, path_id);
    let path = acknowledged_path(paths, path_id)->0;
    let window = path.window() as int;
    assert((512 * window * window) / (window * window) == 512) by (nonlinear_arith)
        requires
            window > 0,
    ;
    let product = bytes * path.max_datagram_size * CREDIT_ONE;
    assert(512 * bytes * path.max_datagram_size * CREDIT_ONE == 512 * product)
        by (nonlinear_arith)
        requires
            product == bytes * path.max_datagram_size * CREDIT_ONE,
    ;
    assert((512 * product) / (512 * window) == product / window) by (nonlinear_arith)
        requires
            window > 0,
    ;
}

/// Growth is neither lost nor invented: whole bytes granted and credit retained afterwards add up
/// to the permitted growth and the credit retained before.
pub proof fn lemma_credit_is_conserved(permitted: int, retained: u64)
    requires
        0 <= permitted,
    ensures
        ((permitted + retained) / CREDIT_ONE as int) * CREDIT_ONE + (permitted + retained)
            % CREDIT_ONE as int == permitted + retained,
        0 <= (permitted + retained) % CREDIT_ONE as int,
        (permitted + retained) % (CREDIT_ONE as int) < CREDIT_ONE,
{
}

/// The reference path has the largest `window / rtt^2` of all participating paths.
pub proof fn lemma_reference_is_best(paths: Seq<CoupledPathState>, index: int)
    requires
        scan_failure(paths) is None,
        0 <= index < paths.len(),
        paths[index].participates(),
    ensures
        reference_path(paths) matches Some(best) && ratio_side(
            paths[index].window(),
            best.rtt_micros,
        ) <= ratio_side(best.window, paths[index].smoothed_rtt_micros),
        reference_path(paths)->0.rtt_micros > 0,
    decreases paths.len(),
{
    let earlier = paths.drop_last();
    let path = paths.last();
    if index < earlier.len() {
        lemma_reference_is_best(earlier, index);
        let best = reference_path(earlier)->0;
        let other = paths[index];
        lemma_participant_is_valid(earlier, index);
        if path.participates() && ratio_side(path.window(), best.rtt_micros) > ratio_side(
            best.window,
            path.smoothed_rtt_micros,
        ) {
            lemma_ratio_transitive(
                other.window() as int,
                other.smoothed_rtt_micros as int,
                best.window as int,
                best.rtt_micros as int,
                path.window() as int,
                path.smoothed_rtt_micros as int,
            );
        }
    } else if reference_path(earlier) is Some {
        lemma_reference_rtt_positive(earlier);
    }
}

pub(crate) proof fn lemma_participant_is_valid(paths: Seq<CoupledPathState>, index: int)
    requires
        scan_failure(paths) is None,
        0 <= index < paths.len(),
        paths[index].participates(),
    ensures
        paths[index].valid(),
    decreases paths.len(),
{
    if index < paths.len() - 1 {
        lemma_participant_is_valid(paths.drop_last(), index);
    }
}

proof fn lemma_reference_rtt_positive(paths: Seq<CoupledPathState>)
    requires
        scan_failure(paths) is None,
        reference_path(paths) is Some,
    ensures
        reference_path(paths)->0.rtt_micros > 0,
    decreases paths.len(),
{
    if paths.len() > 0 && reference_path(paths.drop_last()) is Some {
        lemma_reference_rtt_positive(paths.drop_last());
    }
}

proof fn lemma_ratio_transitive(
    low_window: int,
    low_rtt: int,
    mid_window: int,
    mid_rtt: int,
    high_window: int,
    high_rtt: int,
)
    requires
        0 <= low_window,
        0 <= mid_window,
        0 <= high_window,
        0 < low_rtt,
        0 < mid_rtt,
        0 < high_rtt,
        low_window * (mid_rtt * mid_rtt) <= mid_window * (low_rtt * low_rtt),
        mid_window * (high_rtt * high_rtt) < high_window * (mid_rtt * mid_rtt),
    ensures
        low_window * (high_rtt * high_rtt) <= high_window * (low_rtt * low_rtt),
{
    let l = low_rtt * low_rtt;
    let m = mid_rtt * mid_rtt;
    let h = high_rtt * high_rtt;
    assert(l > 0 && m > 0 && h > 0) by (nonlinear_arith)
        requires
            0 < low_rtt,
            0 < mid_rtt,
            0 < high_rtt,
            l == low_rtt * low_rtt,
            m == mid_rtt * mid_rtt,
            h == high_rtt * high_rtt,
    ;
    assert((low_window * m) * h <= (mid_window * l) * h) by (nonlinear_arith)
        requires
            low_window * m <= mid_window * l,
            h > 0,
    ;
    assert((mid_window * h) * l <= (high_window * m) * l) by (nonlinear_arith)
        requires
            mid_window * h < high_window * m,
            l > 0,
    ;
    assert((mid_window * l) * h == (mid_window * h) * l) by (nonlinear_arith);
    assert((low_window * m) * h == (low_window * h) * m) by (nonlinear_arith);
    assert((high_window * m) * l == (high_window * l) * m) by (nonlinear_arith);
    assert(low_window * h <= high_window * l) by (nonlinear_arith)
        requires
            (low_window * h) * m <= (high_window * l) * m,
            m > 0,
    ;
}

} // verus!
