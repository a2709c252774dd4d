//! Identities that tell queues apart.

use std::collections::hash_map::RandomState;
use std::hash::BuildHasher;

use vstd::prelude::*;

verus! {

/// Specifies `RandomState::new`, which draws the keys of a hash at random.
///
/// Nothing is claimed of the keys.
pub assume_specification[ RandomState::new ]() -> RandomState;

/// Draws a number through `BuildHasher::hash_one`.
///
/// That method hashes a value under the keys of the hash, which are drawn at random. Nothing is
/// claimed of the number.
#[verifier::external_body]
fn drawn_number(keys: &RandomState) -> (number: u64) {
    keys.hash_one(0u8)
}

/// What tells one queue from every other: the tokens of a timer queue and the completion tags of a
/// transmit queue carry the identity of their queue.
///
/// Identities are drawn from all 64-bit numbers. That two queues differ rests on that draw alone.
#[derive(Clone, Copy, PartialEq, Eq, Structural)]
pub struct QueueIdentity {
    number: u64,
}

impl QueueIdentity {
    /// Draws the identity of a new queue.
    pub(crate) fn draw() -> (identity: QueueIdentity) {
        QueueIdentity { number: drawn_number(&RandomState::new()) }
    }
}

} // verus!
