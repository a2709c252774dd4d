//! Sender-side flow-credit accounting for bounded-memory transfers.
//!
//! A reservation represents unique object bytes accepted for transmission. Retransmitting the same
//! fragment must not reserve credit a second time.

use vstd::prelude::*;

use crate::bytes::{be32, be64, overwrite_prefix};
use crate::bytes::{get_u32, get_u64, put_u32, put_u64};
use crate::bytes::{
    group_buffer_writes, lemma_be32_inverse, lemma_be32_of_bytes, lemma_be64_inverse,
    lemma_be64_of_bytes,
};
use crate::text::fixed;
use crate::wire::WireError;

verus! {

/// Exact size of a CREDIT control-frame value.
pub const CREDIT_VALUE_LEN: usize = 20;

/// Absolute receive limits advertised by a peer.
#[derive(Clone, Copy, Debug, PartialEq, Eq, Structural)]
pub struct Credit {
    /// Monotonically increasing update sequence.
    pub sequence: u64,
    /// Maximum unique bytes sent but not yet committed by the receiver.
    pub max_uncommitted_bytes: u64,
    /// Maximum unique fragments sent but not yet committed by the receiver.
    pub max_inflight_fragments: u32,
}

impl Credit {
    /// Canonical bytes of the value.
    pub open spec fn encoding(self) -> Seq<u8> {
        be64(self.sequence) + be64(self.max_uncommitted_bytes) + be32(self.max_inflight_fragments)
    }

    /// Encodes the exact CREDIT control-frame value.
    ///
    /// # Errors
    ///
    /// Returns [`WireError::BufferTooSmall`] if `output` is shorter than [`CREDIT_VALUE_LEN`].
    pub fn encode(self, output: &mut [u8]) -> (written: Result<usize, WireError>)
        ensures
            old(output)@.len() < CREDIT_VALUE_LEN ==> {
                &&& written == Err::<usize, WireError>(
                    WireError::BufferTooSmall {
                        needed: CREDIT_VALUE_LEN,
                        available: old(output)@.len() as usize,
                    },
                )
                &&& final(output)@ == old(output)@
            },
            old(output)@.len() >= CREDIT_VALUE_LEN ==> {
                &&& written == Ok::<usize, WireError>(CREDIT_VALUE_LEN)
                &&& final(output)@ == overwrite_prefix(old(output)@, self.encoding())
            },
    {
        broadcast use group_buffer_writes;

        if output.len() < CREDIT_VALUE_LEN {
            return Err(
                WireError::BufferTooSmall { needed: CREDIT_VALUE_LEN, available: output.len() },
            );
        }
        let mut at: usize = put_u64(output, 0, self.sequence);
        at = put_u64(output, at, self.max_uncommitted_bytes);
        at = put_u32(output, at, self.max_inflight_fragments);
        Ok(at)
    }

    /// Decodes an exact CREDIT control-frame value.
    ///
    /// # Errors
    ///
    /// Returns an error unless `input` is exactly [`CREDIT_VALUE_LEN`] bytes.
    pub fn decode(input: &[u8]) -> (decoded: Result<Credit, WireError>)
        ensures
            input@.len() < CREDIT_VALUE_LEN ==> decoded == Err::<Credit, WireError>(
                WireError::PacketTooShort {
                    minimum: CREDIT_VALUE_LEN,
                    actual: input@.len() as usize,
                },
            ),
            input@.len() > CREDIT_VALUE_LEN ==> decoded == Err::<Credit, WireError>(
                WireError::LengthMismatch {
                    expected: CREDIT_VALUE_LEN,
                    actual: input@.len() as usize,
                },
            ),
            input@.len() == CREDIT_VALUE_LEN ==> decoded is Ok && decoded->Ok_0.encoding()
                == input@,
    {
        if input.len() < CREDIT_VALUE_LEN {
            return Err(
                WireError::PacketTooShort { minimum: CREDIT_VALUE_LEN, actual: input.len() },
            );
        }
        if input.len() != CREDIT_VALUE_LEN {
            return Err(
                WireError::LengthMismatch { expected: CREDIT_VALUE_LEN, actual: input.len() },
            );
        }
        let credit = Credit {
            sequence: get_u64(input, 0),
            max_uncommitted_bytes: get_u64(input, 8),
            max_inflight_fragments: get_u32(input, 16),
        };
        proof {
            lemma_be64_of_bytes(input@, 0);
            lemma_be64_of_bytes(input@, 8);
            lemma_be32_of_bytes(input@, 16);
            assert(credit.encoding() =~= input@);
        }
        Ok(credit)
    }
}

/// CREDIT values round-trip: an encoded value has the exact size and determines the credit.
pub proof fn lemma_credit_round_trip(left: Credit, right: Credit)
    ensures
        left.encoding().len() == CREDIT_VALUE_LEN,
        left.encoding() == right.encoding() ==> left == right,
{
    if left.encoding() == right.encoding() {
        let bytes = left.encoding();
        lemma_be64_inverse(left.sequence);
        lemma_be64_inverse(right.sequence);
        lemma_be64_inverse(left.max_uncommitted_bytes);
        lemma_be64_inverse(right.max_uncommitted_bytes);
        lemma_be32_inverse(left.max_inflight_fragments);
        lemma_be32_inverse(right.max_inflight_fragments);
        assert(bytes.subrange(0, 8) =~= be64(left.sequence));
        assert(bytes.subrange(0, 8) =~= be64(right.sequence));
        assert(bytes.subrange(8, 16) =~= be64(left.max_uncommitted_bytes));
        assert(bytes.subrange(8, 16) =~= be64(right.max_uncommitted_bytes));
        assert(bytes.subrange(16, 20) =~= be32(left.max_inflight_fragments));
        assert(bytes.subrange(16, 20) =~= be32(right.max_inflight_fragments));
    }
}

/// Errors from sender credit accounting.
#[derive(Clone, Copy, Debug, PartialEq, Eq, Structural)]
pub enum FlowError {
    EmptyFragment,
    CreditExceeded,
    AccountingOverflow,
    ReleaseExceedsOutstanding,
}

impl FlowError {
    /// The diagnostic text of a failure.
    pub open spec fn message_text(self) -> Seq<char> {
        match self {
            FlowError::EmptyFragment => "cannot reserve an empty fragment"@,
            FlowError::CreditExceeded => "peer credit exceeded"@,
            FlowError::AccountingOverflow => "flow accounting overflow"@,
            FlowError::ReleaseExceedsOutstanding => "release exceeds outstanding flow accounting"@,
        }
    }

    /// Returns the diagnostic text of this failure.
    pub fn message(&self) -> (text: String)
        ensures
            text@ == self.message_text(),
    {
        match *self {
            FlowError::EmptyFragment => fixed("cannot reserve an empty fragment"),
            FlowError::CreditExceeded => fixed("peer credit exceeded"),
            FlowError::AccountingOverflow => fixed("flow accounting overflow"),
            FlowError::ReleaseExceedsOutstanding => fixed(
                "release exceeds outstanding flow accounting",
            ),
        }
    }
}

/// Sender-side accounting for the newest peer credit.
#[derive(Clone, Copy, Debug, PartialEq, Eq, Structural)]
pub struct CreditWindow {
    credit: Credit,
    outstanding_bytes: u64,
    outstanding_fragments: u32,
}

/// The credit in force and what is outstanding under it.
pub struct CreditWindowView {
    pub credit: Credit,
    pub outstanding_bytes: u64,
    pub outstanding_fragments: u32,
}

impl CreditWindowView {
    /// The failure of reserving one fragment, if any.
    pub open spec fn reserve_failure(self, fragment_bytes: u64) -> Option<FlowError> {
        let bytes = self.outstanding_bytes + fragment_bytes;
        let fragments = self.outstanding_fragments + 1;
        if fragment_bytes == 0 {
            Some(FlowError::EmptyFragment)
        } else if bytes > u64::MAX || fragments > u32::MAX {
            Some(FlowError::AccountingOverflow)
        } else if bytes > self.credit.max_uncommitted_bytes || fragments
            > self.credit.max_inflight_fragments {
            Some(FlowError::CreditExceeded)
        } else {
            None
        }
    }

    /// The window once one fragment is reserved.
    pub open spec fn reserved(self, fragment_bytes: u64) -> CreditWindowView {
        CreditWindowView {
            credit: self.credit,
            outstanding_bytes: (self.outstanding_bytes + fragment_bytes) as u64,
            outstanding_fragments: (self.outstanding_fragments + 1) as u32,
        }
    }

    /// The window once committed data is released.
    pub open spec fn released(self, bytes: u64, fragments: u32) -> CreditWindowView {
        CreditWindowView {
            credit: self.credit,
            outstanding_bytes: (self.outstanding_bytes - bytes) as u64,
            outstanding_fragments: (self.outstanding_fragments - fragments) as u32,
        }
    }

    /// The window after an update: a strictly newer credit takes the place of the old one, and
    /// nothing outstanding changes.
    pub open spec fn updated(self, credit: Credit) -> CreditWindowView {
        CreditWindowView {
            credit: if credit.sequence > self.credit.sequence {
                credit
            } else {
                self.credit
            },
            ..self
        }
    }
}

impl View for CreditWindow {
    type V = CreditWindowView;

    closed spec fn view(&self) -> CreditWindowView {
        CreditWindowView {
            credit: self.credit,
            outstanding_bytes: self.outstanding_bytes,
            outstanding_fragments: self.outstanding_fragments,
        }
    }
}

impl CreditWindow {

    /// Starts accounting from an authenticated initial CREDIT.
    pub fn new(credit: Credit) -> (window: CreditWindow)
        ensures
            window@ == (CreditWindowView {
                credit,
                outstanding_bytes: 0,
                outstanding_fragments: 0,
            }),
    {
        CreditWindow { credit, outstanding_bytes: 0, outstanding_fragments: 0 }
    }

    /// Applies a strictly newer absolute credit update.
    ///
    /// Returns `true` when the update was applied. Stale and duplicate updates are ignored. A lower
    /// new limit stops future reservations but never invalidates bytes already in flight.
    pub fn apply_update(&mut self, credit: Credit) -> (applied: bool)
        ensures
            applied == (credit.sequence > old(self)@.credit.sequence),
            final(self)@ == old(self)@.updated(credit),
    {
        if credit.sequence <= self.credit.sequence {
            return false;
        }
        self.credit = credit;
        true
    }

    /// Reserves credit for one new unique DATA fragment.
    ///
    /// Retransmissions of already reserved bytes MUST bypass this method.
    ///
    /// # Errors
    ///
    /// Returns an error for an empty fragment, arithmetic overflow, or when either advertised limit
    /// would be exceeded. Nothing is reserved then.
    pub fn try_reserve(&mut self, fragment_bytes: u64) -> (outcome: Result<(), FlowError>)
        ensures
            match old(self)@.reserve_failure(fragment_bytes) {
                Some(error) => outcome == Err::<(), FlowError>(error) && final(self)@ == old(self)@,
                None => outcome == Ok::<(), FlowError>(()) && final(self)@ == old(self)@.reserved(
                    fragment_bytes,
                ),
            },
    {
        if fragment_bytes == 0 {
            return Err(FlowError::EmptyFragment);
        }
        let next_bytes: u64 = match self.outstanding_bytes.checked_add(fragment_bytes) {
            Some(next) => next,
            None => {
                return Err(FlowError::AccountingOverflow);
            },
        };
        let next_fragments: u32 = match self.outstanding_fragments.checked_add(1) {
            Some(next) => next,
            None => {
                return Err(FlowError::AccountingOverflow);
            },
        };
        if next_bytes > self.credit.max_uncommitted_bytes || next_fragments
            > self.credit.max_inflight_fragments {
            return Err(FlowError::CreditExceeded);
        }
        self.outstanding_bytes = next_bytes;
        self.outstanding_fragments = next_fragments;
        Ok(())
    }

    /// Releases committed unique bytes and fragments.
    ///
    /// # Errors
    ///
    /// Returns an error if the release exceeds current outstanding accounting. Nothing is released
    /// then.
    pub fn release(&mut self, committed_bytes: u64, committed_fragments: u32) -> (outcome: Result<
        (),
        FlowError,
    >)
        ensures
            if committed_bytes > old(self)@.outstanding_bytes || committed_fragments
                > old(self)@.outstanding_fragments {
                &&& outcome == Err::<(), FlowError>(FlowError::ReleaseExceedsOutstanding)
                &&& final(self)@ == old(self)@
            } else {
                &&& outcome == Ok::<(), FlowError>(())
                &&& final(self)@ == old(self)@.released(committed_bytes, committed_fragments)
            },
    {
        let remaining_bytes: u64 = match self.outstanding_bytes.checked_sub(committed_bytes) {
            Some(remaining) => remaining,
            None => {
                return Err(FlowError::ReleaseExceedsOutstanding);
            },
        };
        let remaining_fragments: u32 = match self.outstanding_fragments.checked_sub(
            committed_fragments,
        ) {
            Some(remaining) => remaining,
            None => {
                return Err(FlowError::ReleaseExceedsOutstanding);
            },
        };
        self.outstanding_bytes = remaining_bytes;
        self.outstanding_fragments = remaining_fragments;
        Ok(())
    }

    /// Returns the newest authenticated peer credit.
    pub fn credit(self) -> (credit: Credit)
        ensures
            credit == self@.credit,
    {
        self.credit
    }

    /// Returns unique bytes sent but not committed.
    pub fn outstanding_bytes(self) -> (bytes: u64)
        ensures
            bytes == self@.outstanding_bytes,
    {
        self.outstanding_bytes
    }

    /// Returns unique fragments sent but not committed.
    pub fn outstanding_fragments(self) -> (fragments: u32)
        ensures
            fragments == self@.outstanding_fragments,
    {
        self.outstanding_fragments
    }
}

/// A granted reservation leaves the window within both advertised limits, and releasing it again
/// restores the window.
pub proof fn lemma_reservation_is_bounded_and_released(
    window: CreditWindowView,
    fragment_bytes: u64,
)
    requires
        window.reserve_failure(fragment_bytes) is None,
    ensures
        window.reserved(fragment_bytes).outstanding_bytes <= window.credit.max_uncommitted_bytes,
        window.reserved(fragment_bytes).outstanding_fragments
            <= window.credit.max_inflight_fragments,
        window.reserved(fragment_bytes).released(fragment_bytes, 1) == window,
{
}

/// The newest credit wins: updates may arrive in any order and more than once.
pub proof fn lemma_order_of_updates_is_irrelevant(
    window: CreditWindowView,
    left: Credit,
    right: Credit,
)
    requires
        left.sequence == right.sequence ==> left == right,
    ensures
        window.updated(left).updated(right) == window.updated(right).updated(left),
        window.updated(left).updated(left) == window.updated(left),
        window.updated(left).credit.sequence >= window.credit.sequence,
{
}

} // verus!
