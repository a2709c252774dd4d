//! Provider-neutral, bounded-memory streaming Merkle reduction.

use vstd::prelude::*;
use vstd::string::StringExecFns;

use crate::arith::min_int;
use crate::bytes::{bytes_equal, zeroes};
use crate::crypto::{hashing_fails_with, Sha384Digest};
use crate::manifest::{
    chunk_leaf_input, empty_root_input, feed_chunk_leaf_input, feed_empty_root_input,
    feed_merkle_node_input, merkle_node_input, ManifestError, ManifestHeader, MERKLE_ROOT_LEN,
    OBJECT_ID_LEN,
};
use crate::text::{decimal, fixed, with_number, with_two_numbers};
use crate::transcript::TranscriptSink;

pub use crate::crypto::Sha384Provider;

verus! {

/// SHA-384 digest size used throughout the object tree.
pub type MerkleHash = Sha384Digest;

/// Number of perfect-subtree slots needed for every representable `u32` chunk count.
pub const MAX_MERKLE_LEVELS: usize = 32;

/// Bounded Merkle hashing or reduction failure.
#[allow(inconsistent_fields)]
#[derive(Clone, Debug, PartialEq, Eq)]
pub enum MerkleError<E> {
    Manifest(ManifestError),
    Provider(E),
    ChunkIndexOutsideObject { index: u32, chunk_count: u32 },
    ChunkIndexMismatch { expected: u32, actual: u32 },
    ChunkLengthMismatch { chunk_index: u32, expected: u32, actual: usize },
    HashedChunkObjectMismatch,
    Incomplete { expected: u32, received: u32 },
    RootMismatch,
    TreeCapacityExceeded,
    TreeInvariantViolation,
    Overflow,
}

impl<E> MerkleError<E> {
    /// The diagnostic text of a failure, given the text of a provider's own failure.
    pub open spec fn message_text(self, provider_text: Seq<char>) -> Seq<char> {
        match self {
            MerkleError::Manifest(error) => error.message_text(),
            MerkleError::Provider(error) => "SHA-384 provider failure: "@ + provider_text,
            MerkleError::ChunkIndexOutsideObject { index, chunk_count } => "chunk index "@
                + decimal(index as nat) + " is outside object chunk count "@ + decimal(
                chunk_count as nat,
            ) + ""@,
            MerkleError::ChunkIndexMismatch { expected, actual } =>
            "non-sequential chunk index: expected "@ + decimal(expected as nat) + ", got "@
                + decimal(actual as nat) + ""@,
            MerkleError::ChunkLengthMismatch { chunk_index, expected, actual } => ("chunk "@
                + decimal(chunk_index as nat) + " length mismatch: expected "@) + (""@ + decimal(
                expected as nat,
            ) + ", got "@ + decimal(actual as nat) + ""@),
            MerkleError::HashedChunkObjectMismatch =>
            "hashed chunk belongs to a different object"@,
            MerkleError::Incomplete { expected, received } => "Merkle tree incomplete: expected "@
                + decimal(expected as nat) + " chunks, received "@ + decimal(received as nat)
                + ""@,
            MerkleError::RootMismatch => "computed Merkle root does not match signed manifest"@,
            MerkleError::TreeCapacityExceeded => "Merkle subtree capacity exceeded"@,
            MerkleError::TreeInvariantViolation => "Merkle reducer invariant violation"@,
            MerkleError::Overflow => "Merkle accounting overflow"@,
        }
    }

    /// Returns the diagnostic text of this failure, given the text of a provider's own failure.
    pub fn message(&self, provider_text: &str) -> (text: String)
        ensures
            text@ == self.message_text(provider_text@),
    {
        match self {
            MerkleError::Manifest(error) => error.message(),
            MerkleError::Provider(_) => fixed("SHA-384 provider failure: ").concat(provider_text),
            MerkleError::ChunkIndexOutsideObject { index, chunk_count } => with_two_numbers(
                "chunk index ",
                *index as u64,
                " is outside object chunk count ",
                *chunk_count as u64,
                "",
            ),
            MerkleError::ChunkIndexMismatch { expected, actual } => with_two_numbers(
                "non-sequential chunk index: expected ",
                *expected as u64,
                ", got ",
                *actual as u64,
                "",
            ),
            MerkleError::ChunkLengthMismatch { chunk_index, expected, actual } => with_number(
                "chunk ",
                *chunk_index as u64,
                " length mismatch: expected ",
            ).concat(
                with_two_numbers("", *expected as u64, ", got ", *actual as u64, "").as_str(),
            ),
            MerkleError::HashedChunkObjectMismatch => fixed(
                "hashed chunk belongs to a different object",
            ),
            MerkleError::Incomplete { expected, received } => with_two_numbers(
                "Merkle tree incomplete: expected ",
                *expected as u64,
                " chunks, received ",
                *received as u64,
                "",
            ),
            MerkleError::RootMismatch => fixed(
                "computed Merkle root does not match signed manifest",
            ),
            MerkleError::TreeCapacityExceeded => fixed("Merkle subtree capacity exceeded"),
            MerkleError::TreeInvariantViolation => fixed("Merkle reducer invariant violation"),
            MerkleError::Overflow => fixed("Merkle accounting overflow"),
        }
    }
}

/// A hash function on byte strings.
pub type HashFunction = spec_fn(Seq<u8>) -> Seq<u8>;

/// The hash function of a provider.
pub open spec fn provider_hash<P: Sha384Provider>(provider: &P) -> HashFunction {
    |message: Seq<u8>| provider.sha384(message)@
}

/// The hash of an internal node.
pub open spec fn node(hash: HashFunction, level: nat, left: Seq<u8>, right: Seq<u8>) -> Seq<u8> {
    hash(merkle_node_input(level as u32, left, right))
}

/// One level of the tree above `nodes`: neighbours are combined in pairs, and an odd last node is
/// combined with itself.
pub open spec fn combined(hash: HashFunction, level: nat, nodes: Seq<Seq<u8>>) -> Seq<Seq<u8>> {
    Seq::new(
        (nodes.len() + 1) / 2,
        |i: int|
            node(
                hash,
                level,
                nodes[2 * i],
                if 2 * i + 1 < nodes.len() {
                    nodes[2 * i + 1]
                } else {
                    nodes[2 * i]
                },
            ),
    )
}

/// The root above `nodes`, which stand at `level`: the tree is built level by level until one node
/// is left.
pub open spec fn level_root(hash: HashFunction, level: nat, nodes: Seq<Seq<u8>>) -> Seq<u8>
    decreases nodes.len(),
{
    if nodes.len() <= 1 {
        nodes[0]
    } else {
        level_root(hash, level + 1, combined(hash, level + 1, nodes))
    }
}

/// The canonical root of an object with the given leaves.
pub open spec fn tree_root(
    hash: HashFunction,
    object_id: Seq<u8>,
    leaves: Seq<Seq<u8>>,
) -> Seq<u8> {
    if leaves.len() == 0 {
        hash(empty_root_input(object_id))
    } else {
        level_root(hash, 0, leaves)
    }
}

/// The complete level `height` above `leaves`.
pub open spec fn lifted(hash: HashFunction, height: nat, leaves: Seq<Seq<u8>>) -> Seq<Seq<u8>>
    decreases height,
{
    if height == 0 {
        leaves
    } else {
        combined(hash, height, lifted(hash, (height - 1) as nat, leaves))
    }
}

/// Number of perfect subtrees of a height above `count` leaves.
pub open spec fn perfect(count: nat, height: nat) -> nat
    decreases height,
{
    if height == 0 {
        count
    } else {
        perfect(count, (height - 1) as nat) / 2
    }
}

/// Number of nodes of a height above `count` leaves.
pub open spec fn width(count: nat, height: nat) -> nat
    decreases height,
{
    if height == 0 {
        count
    } else {
        (width(count, (height - 1) as nat) + 1) / 2
    }
}

/// Whether the binary representation of `count` has a one at `height`: a perfect subtree of that
/// height then waits for its right neighbour.
pub open spec fn waits(count: nat, height: nat) -> bool {
    perfect(count, height) % 2 == 1
}

/// Whether `subtrees` holds, for each waiting perfect subtree above `leaves`, its root.
pub open spec fn reduces(
    hash: HashFunction,
    subtrees: Seq<Seq<u8>>,
    leaves: Seq<Seq<u8>>,
) -> bool {
    forall|k: nat|
        k < MAX_MERKLE_LEVELS && #[trigger] waits(leaves.len(), k) ==> subtrees[k as int] == lifted(
            hash,
            k,
            leaves,
        )[perfect(leaves.len(), k) - 1]
}

/// Where a new leaf's carry ends, and the subtree root it carries there.
pub open spec fn carry(
    hash: HashFunction,
    subtrees: Seq<Seq<u8>>,
    count: nat,
    level: nat,
    current: Seq<u8>,
) -> (nat, Seq<u8>)
    decreases MAX_MERKLE_LEVELS - level,
{
    if level < MAX_MERKLE_LEVELS && waits(count, level) {
        carry(
            hash,
            subtrees,
            count,
            level + 1,
            node(hash, level + 1, subtrees[level as int], current),
        )
    } else {
        (level, current)
    }
}

/// The subtree roots after one more leaf.
pub open spec fn with_leaf(
    hash: HashFunction,
    subtrees: Seq<Seq<u8>>,
    count: nat,
    leaf: Seq<u8>,
) -> Seq<Seq<u8>> {
    let (level, root) = carry(hash, subtrees, count, 0, leaf);
    Seq::new(
        MAX_MERKLE_LEVELS as nat,
        |i: int|
            if i < level {
                zeroes(MERKLE_ROOT_LEN as nat)
            } else if i == level {
                root
            } else {
                subtrees[i]
            },
    )
}

/// A node combined with itself level by level.
pub open spec fn raised(hash: HashFunction, from: nat, to: nat, root: Seq<u8>) -> Seq<u8>
    decreases to - from,
{
    if from >= to {
        root
    } else {
        raised(hash, from + 1, to, node(hash, from + 1, root, root))
    }
}

/// The rightmost node that the waiting subtrees below `level` combine to, and its height.
pub open spec fn folded(
    hash: HashFunction,
    subtrees: Seq<Seq<u8>>,
    count: nat,
    level: nat,
) -> Option<(nat, Seq<u8>)>
    decreases level,
{
    if level == 0 {
        None
    } else {
        let below = (level - 1) as nat;
        let right = folded(hash, subtrees, count, below);
        if !waits(count, below) {
            right
        } else {
            match right {
                None => Some((below, subtrees[below as int])),
                Some((height, root)) => Some(
                    (
                        level,
                        node(hash, level, subtrees[below as int], raised(hash, height, below, root)),
                    ),
                ),
            }
        }
    }
}

/// The root that the waiting subtrees combine to.
pub open spec fn streamed_root(hash: HashFunction, subtrees: Seq<Seq<u8>>, count: nat) -> Seq<u8> {
    (folded(hash, subtrees, count, MAX_MERKLE_LEVELS as nat)->0).1
}

/// Whether a provider fails with `error` while a leaf or subtree root is carried up from `level`.
pub open spec fn carry_fails_with<P: Sha384Provider>(
    provider: &P,
    subtrees: Seq<Seq<u8>>,
    count: nat,
    level: nat,
    current: Seq<u8>,
    error: P::Error,
) -> bool
    decreases MAX_MERKLE_LEVELS - level,
{
    &&& level < MAX_MERKLE_LEVELS
    &&& waits(count, level)
    &&& hashing_fails_with(
        provider,
        merkle_node_input((level + 1) as u32, subtrees[level as int], current),
        error,
    ) || carry_fails_with(
        provider,
        subtrees,
        count,
        level + 1,
        node(provider_hash(provider), level + 1, subtrees[level as int], current),
        error,
    )
}

/// Whether a provider fails with `error` while a root is combined with itself up to a height.
pub open spec fn raise_fails_with<P: Sha384Provider>(
    provider: &P,
    from: nat,
    to: nat,
    root: Seq<u8>,
    error: P::Error,
) -> bool
    decreases to - from,
{
    &&& from < to
    &&& hashing_fails_with(provider, merkle_node_input((from + 1) as u32, root, root), error)
        || raise_fails_with(
        provider,
        from + 1,
        to,
        node(provider_hash(provider), from + 1, root, root),
        error,
    )
}

/// Whether a provider fails with `error` while the subtrees below a level are folded.
pub open spec fn fold_fails_with<P: Sha384Provider>(
    provider: &P,
    subtrees: Seq<Seq<u8>>,
    count: nat,
    level: nat,
    error: P::Error,
) -> bool
    decreases level,
{
    let hash = provider_hash(provider);
    let below = (level - 1) as nat;
    &&& level > 0
    &&& {
        ||| fold_fails_with(provider, subtrees, count, below, error)
        ||| {
            &&& waits(count, below)
            &&& folded(hash, subtrees, count, below) matches Some((height, root))
            &&& {
                ||| raise_fails_with(provider, height, below, root, error)
                ||| hashing_fails_with(
                    provider,
                    merkle_node_input(
                        level as u32,
                        subtrees[below as int],
                        raised(hash, height, below, root),
                    ),
                    error,
                )
            }
        }
    }
}

proof fn lemma_fold_failure_persists<P: Sha384Provider>(
    provider: &P,
    subtrees: Seq<Seq<u8>>,
    count: nat,
    low: nat,
    high: nat,
    error: P::Error,
)
    requires
        low <= high,
        fold_fails_with(provider, subtrees, count, low, error),
    ensures
        fold_fails_with(provider, subtrees, count, high, error),
    decreases high,
{
    if low < high {
        lemma_fold_failure_persists(provider, subtrees, count, low, (high - 1) as nat, error);
    }
}

proof fn lemma_lifted_width(hash: HashFunction, height: nat, leaves: Seq<Seq<u8>>)
    ensures
        lifted(hash, height, leaves).len() == width(leaves.len(), height),
    decreases height,
{
    if height > 0 {
        lemma_lifted_width(hash, (height - 1) as nat, leaves);
    }
}

/// A level is at most one node wider than its perfect subtrees, and exactly as wide when no lower
/// subtree waits.
proof fn lemma_width_and_perfect(count: nat, height: nat)
    ensures
        perfect(count, height) <= width(count, height) <= perfect(count, height) + 1,
        height > 0 ==> (width(count, height) == perfect(count, height)) == (width(
            count,
            (height - 1) as nat,
        ) == perfect(count, (height - 1) as nat) && !waits(count, (height - 1) as nat)),
    decreases height,
{
    if height > 0 {
        lemma_width_and_perfect(count, (height - 1) as nat);
    }
}

/// A new leaf leaves all perfect subtrees as they are.
proof fn lemma_perfect_subtrees_are_stable(
    hash: HashFunction,
    height: nat,
    leaves: Seq<Seq<u8>>,
    leaf: Seq<u8>,
    index: int,
)
    requires
        0 <= index < perfect(leaves.len(), height),
    ensures
        lifted(hash, height, leaves.push(leaf))[index] == lifted(hash, height, leaves)[index],
        index < lifted(hash, height, leaves).len(),
        index < lifted(hash, height, leaves.push(leaf)).len(),
    decreases height,
{
    lemma_lifted_width(hash, height, leaves);
    lemma_lifted_width(hash, height, leaves.push(leaf));
    lemma_width_and_perfect(leaves.len(), height);
    lemma_width_grows(leaves.len(), height);
    if height > 0 {
        let below = (height - 1) as nat;
        lemma_perfect_subtrees_are_stable(hash, below, leaves, leaf, 2 * index);
        lemma_perfect_subtrees_are_stable(hash, below, leaves, leaf, 2 * index + 1);
    }
}

proof fn lemma_width_grows(count: nat, height: nat)
    ensures
        width(count, height) <= width(count + 1, height),
    decreases height,
{
    if height > 0 {
        lemma_width_grows(count, (height - 1) as nat);
    }
}

/// No subtree waits beyond the height of a 32-bit count.
proof fn lemma_perfect_is_shift(count: u32, height: u32)
    requires
        height < 32,
    ensures
        perfect(count as nat, height as nat) == count >> height,
    decreases height,
{
    if height == 0 {
        assert(count >> 0u32 == count) by (bit_vector);
    } else {
        let below = (height - 1) as u32;
        lemma_perfect_is_shift(count, below);
        assert(count >> height == (count >> below) / 2) by (bit_vector)
            requires
                0 < height < 32,
                below == height - 1,
        ;
    }
}

proof fn lemma_count_is_covered(count: u32)
    ensures
        perfect(count as nat, 32) == 0,
{
    lemma_perfect_is_shift(count, 31);
    assert((count >> 31u32) / 2 == 0) by (bit_vector);
}

/// While a carry runs, the new leaf completes one more perfect subtree at every height.
proof fn lemma_carry_counts(count: nat, level: nat)
    requires
        forall|k: nat| k < level ==> #[trigger] waits(count, k),
    ensures
        perfect(count + 1, level) == perfect(count, level) + 1,
    decreases level,
{
    if level > 0 {
        let below = (level - 1) as nat;
        lemma_carry_counts(count, below);
        assert(waits(count, below));
    }
}

/// What a carry from `level` on arrives at.
proof fn lemma_carry(
    hash: HashFunction,
    subtrees: Seq<Seq<u8>>,
    leaves: Seq<Seq<u8>>,
    leaf: Seq<u8>,
    level: nat,
    current: Seq<u8>,
)
    requires
        reduces(hash, subtrees, leaves),
        level <= MAX_MERKLE_LEVELS,
        forall|k: nat| k < level ==> #[trigger] waits(leaves.len(), k),
        current == lifted(hash, level, leaves.push(leaf))[perfect(leaves.len() + 1, level) - 1],
    ensures
        ({
            let (end, root) = carry(hash, subtrees, leaves.len(), level, current);
            &&& level <= end <= MAX_MERKLE_LEVELS
            &&& forall|k: nat| k < end ==> #[trigger] waits(leaves.len(), k)
            &&& end < MAX_MERKLE_LEVELS ==> !waits(leaves.len(), end)
            &&& root == lifted(hash, end, leaves.push(leaf))[perfect(leaves.len() + 1, end) - 1]
        }),
    decreases MAX_MERKLE_LEVELS - level,
{
    let count = leaves.len();
    if level < MAX_MERKLE_LEVELS && waits(count, level) {
        let more = leaves.push(leaf);
        let next = level + 1;
        let nodes = lifted(hash, level, more);
        let left = subtrees[level as int];
        let joined = node(hash, next, left, current);
        lemma_carry_counts(count, level);
        assert(more.len() == count + 1);
        let waiting = perfect(count, level);
        lemma_perfect_subtrees_are_stable(hash, level, leaves, leaf, waiting - 1);
        lemma_lifted_width(hash, level, more);
        lemma_width_and_perfect(count + 1, level);
        let index = perfect(count + 1, next) - 1;
        assert(2 * index == waiting - 1);
        assert(nodes.len() > 2 * index + 1);
        assert(combined(hash, next, nodes)[index] == node(
            hash,
            next,
            nodes[2 * index],
            nodes[2 * index + 1],
        ));
        assert(lifted(hash, next, more) == combined(hash, next, nodes));
        assert(joined == lifted(hash, next, more)[index]);
        lemma_carry(hash, subtrees, leaves, leaf, next, joined);
    }
}

/// Above the end of a carry nothing changes.
proof fn lemma_counts_above_carry(count: nat, end: nat, height: nat)
    requires
        forall|k: nat| k < end ==> #[trigger] waits(count, k),
        !waits(count, end),
        height > end,
    ensures
        perfect(count + 1, height) == perfect(count, height),
    decreases height,
{
    lemma_carry_counts(count, end);
    if height > end + 1 {
        lemma_counts_above_carry(count, end, (height - 1) as nat);
    }
}

/// Inserting a leaf keeps the reducer's invariant: the subtree roots then stand for the leaves
/// with the new one behind them.
pub proof fn lemma_leaf_extends_reduction(
    hash: HashFunction,
    subtrees: Seq<Seq<u8>>,
    leaves: Seq<Seq<u8>>,
    leaf: Seq<u8>,
)
    requires
        reduces(hash, subtrees, leaves),
        subtrees.len() == MAX_MERKLE_LEVELS,
        leaves.len() < u32::MAX,
    ensures
        carry(hash, subtrees, leaves.len(), 0, leaf).0 < MAX_MERKLE_LEVELS,
        reduces(hash, with_leaf(hash, subtrees, leaves.len(), leaf), leaves.push(leaf)),
{
    let count = leaves.len();
    let more = leaves.push(leaf);
    assert(more[count as int] == leaf);
    lemma_carry(hash, subtrees, leaves, leaf, 0, leaf);
    let (end, root) = carry(hash, subtrees, count, 0, leaf);
    lemma_carry_counts(count, end);
    if end == MAX_MERKLE_LEVELS {
        lemma_count_is_covered((count + 1) as u32);
        assert(false);
    }
    let after = with_leaf(hash, subtrees, count, leaf);
    assert(more.len() == count + 1);
    assert forall|k: nat|
        k < MAX_MERKLE_LEVELS && #[trigger] waits(more.len(), k) implies after[k as int] == lifted(
        hash,
        k,
        more,
    )[perfect(more.len(), k) - 1] by {
        if k < end {
            assert(waits(count, k));
            lemma_carry_counts(count, k);
        } else if k > end {
            lemma_counts_above_carry(count, end, k);
            assert(waits(count, k));
            lemma_perfect_subtrees_are_stable(hash, k, leaves, leaf, perfect(count, k) - 1);
        }
    }
}

/// Combining a level's last node with itself gives the last node of the next level, when the level
/// is odd.
proof fn lemma_raise_last(hash: HashFunction, height: nat, leaves: Seq<Seq<u8>>)
    requires
        width(leaves.len(), height) % 2 == 1,
    ensures
        ({
            let nodes = lifted(hash, height, leaves);
            let above = lifted(hash, height + 1, leaves);
            above[above.len() - 1] == node(
                hash,
                height + 1,
                nodes[nodes.len() - 1],
                nodes[nodes.len() - 1],
            )
        }),
        width(leaves.len(), height + 1) > 0,
{
    let nodes = lifted(hash, height, leaves);
    let above = lifted(hash, height + 1, leaves);
    lemma_lifted_width(hash, height, leaves);
    lemma_lifted_width(hash, height + 1, leaves);
    assert(above == combined(hash, height + 1, nodes));
    let index = above.len() - 1;
    assert(2 * index == nodes.len() - 1);
}

proof fn lemma_raised(hash: HashFunction, from: nat, to: nat, leaves: Seq<Seq<u8>>, root: Seq<u8>)
    requires
        from <= to,
        forall|k: nat| from <= k < to ==> #[trigger] width(leaves.len(), k) % 2 == 1,
        root == lifted(hash, from, leaves)[width(leaves.len(), from) - 1],
    ensures
        raised(hash, from, to, root) == lifted(hash, to, leaves)[width(leaves.len(), to) - 1],
    decreases to - from,
{
    if from < to {
        assert(width(leaves.len(), from) % 2 == 1);
        lemma_raise_last(hash, from, leaves);
        lemma_lifted_width(hash, from, leaves);
        lemma_lifted_width(hash, from + 1, leaves);
        lemma_raised(hash, from + 1, to, leaves, node(hash, from + 1, root, root));
    }
}

/// What the fold below `level` has arrived at.
spec fn fold_state(
    hash: HashFunction,
    subtrees: Seq<Seq<u8>>,
    leaves: Seq<Seq<u8>>,
    level: nat,
) -> bool {
    let count = leaves.len();
    match folded(hash, subtrees, count, level) {
        None => width(count, level) == perfect(count, level),
        Some((height, root)) => {
            &&& height <= level
            &&& width(count, level) == perfect(count, level) + 1
            &&& root == lifted(hash, height, leaves)[width(count, height) - 1]
            &&& width(count, height) > 0
            &&& forall|k: nat| height <= k < level ==> #[trigger] width(count, k) % 2 == 1
            &&& height > 0 ==> width(count, (height - 1) as nat) > 1
        },
    }
}

proof fn lemma_folded(
    hash: HashFunction,
    subtrees: Seq<Seq<u8>>,
    leaves: Seq<Seq<u8>>,
    level: nat,
)
    requires
        reduces(hash, subtrees, leaves),
        level <= MAX_MERKLE_LEVELS,
    ensures
        fold_state(hash, subtrees, leaves, level),
    decreases level,
{
    let count = leaves.len();
    if level > 0 {
        let below = (level - 1) as nat;
        lemma_folded(hash, subtrees, leaves, below);
        lemma_width_and_perfect(count, level);
        lemma_width_and_perfect(count, below);
        lemma_lifted_width(hash, below, leaves);
        lemma_lifted_width(hash, level, leaves);
        if waits(count, below) {
            let own = subtrees[below as int];
            let nodes = lifted(hash, below, leaves);
            match folded(hash, subtrees, count, below) {
                None => {
                    if below > 0 {
                        lemma_width_halves(count, below);
                    }
                },
                Some((height, root)) => {
                    lemma_raised(hash, height, below, leaves, root);
                    let above = lifted(hash, level, leaves);
                    assert(above == combined(hash, level, nodes));
                    let index = above.len() - 1;
                    assert(2 * index + 1 == nodes.len() - 1);
                },
            }
        }
    }
}

/// A level with at least one node has more than one node below it, unless it is itself that node.
proof fn lemma_width_halves(count: nat, height: nat)
    requires
        height > 0,
        width(count, height) == perfect(count, height),
        waits(count, height),
    ensures
        width(count, (height - 1) as nat) > 1,
{
    lemma_width_and_perfect(count, height);
}

/// Building a tree level by level ends at the first level with one node.
proof fn lemma_level_root(hash: HashFunction, level: nat, top: nat, leaves: Seq<Seq<u8>>)
    requires
        level <= top,
        width(leaves.len(), top) == 1,
        top > 0 ==> width(leaves.len(), (top - 1) as nat) > 1,
    ensures
        level_root(hash, level, lifted(hash, level, leaves)) == lifted(hash, top, leaves)[0],
    decreases top - level,
{
    lemma_lifted_width(hash, level, leaves);
    if level < top {
        lemma_width_decreases(leaves.len(), level, (top - 1) as nat);
        lemma_level_root(hash, level + 1, top, leaves);
    }
}

proof fn lemma_width_decreases(count: nat, low: nat, high: nat)
    requires
        low <= high,
    ensures
        width(count, low) >= width(count, high),
    decreases high - low,
{
    if low < high {
        lemma_width_decreases(count, low, (high - 1) as nat);
    }
}

/// The streamed root is the canonical root: folding the waiting subtrees from the right, with odd
/// subtrees combined with themselves, gives the root of the tree built level by level.
pub proof fn lemma_streamed_root_is_canonical(
    hash: HashFunction,
    subtrees: Seq<Seq<u8>>,
    leaves: Seq<Seq<u8>>,
    object_id: Seq<u8>,
)
    requires
        reduces(hash, subtrees, leaves),
        0 < leaves.len() <= u32::MAX,
    ensures
        folded(hash, subtrees, leaves.len(), MAX_MERKLE_LEVELS as nat) is Some,
        streamed_root(hash, subtrees, leaves.len()) == tree_root(hash, object_id, leaves),
{
    let count = leaves.len();
    let levels = MAX_MERKLE_LEVELS as nat;
    lemma_folded(hash, subtrees, leaves, levels);
    lemma_count_is_covered(count as u32);
    lemma_width_and_perfect(count, levels);
    lemma_width_positive(count, levels);
    let (height, root) = folded(hash, subtrees, count, levels)->0;
    lemma_odd_levels_end_at_one(count, height, levels);
    lemma_level_root(hash, 0, height, leaves);
}

proof fn lemma_width_positive(count: nat, height: nat)
    requires
        count > 0,
    ensures
        width(count, height) > 0,
    decreases height,
{
    if height > 0 {
        lemma_width_positive(count, (height - 1) as nat);
    }
}

/// Between a level of odd width and a later level of width one, all odd: the first is one wide.
proof fn lemma_odd_levels_end_at_one(count: nat, low: nat, high: nat)
    requires
        low <= high,
        count > 0,
        width(count, high) == 1,
        forall|k: nat| low <= k < high ==> #[trigger] width(count, k) % 2 == 1,
    ensures
        width(count, low) == 1,
    decreases high - low,
{
    if low < high {
        lemma_odd_levels_end_at_one(count, low + 1, high);
        assert(width(count, low) % 2 == 1);
    }
}

/// The digests of an array of subtree roots.
pub open spec fn roots(subtrees: Seq<MerkleHash>) -> Seq<Seq<u8>> {
    Seq::new(subtrees.len(), |i: int| subtrees[i]@)
}

/// Opaque result of hashing one geometrically valid object chunk.
///
/// A hashed chunk may be held in a bounded reorder queue and later inserted into its object's
/// reducer. Its digest is not proof of membership until the complete tree matches the signed
/// manifest root.
#[derive(Clone, Copy, PartialEq, Eq)]
pub struct HashedChunk {
    pub object_id: [u8; OBJECT_ID_LEN],
    pub chunk_index: u32,
    pub chunk_length: u32,
    pub digest: MerkleHash,
}

impl HashedChunk {
    /// Returns the object-local chunk index bound into the digest.
    pub fn chunk_index(&self) -> (index: u32)
        ensures
            index == self.chunk_index,
    {
        self.chunk_index
    }

    /// Returns the exact byte length bound into the digest.
    pub fn chunk_length(&self) -> (length: u32)
        ensures
            length == self.chunk_length,
    {
        self.chunk_length
    }

    /// Returns the domain-separated SHA-384 leaf digest.
    pub fn digest(&self) -> (digest: &MerkleHash)
        ensures
            *digest == self.digest,
    {
        &self.digest
    }

    /// Returns a text for diagnostics that shows neither object nor digest.
    pub fn debug_text(&self) -> (text: String)
        ensures
            text@ == "HashedChunk { chunk_index: "@ + decimal(self.chunk_index as nat)
                + ", chunk_length: "@ + decimal(self.chunk_length as nat) + ", .. }"@,
    {
        with_two_numbers(
            "HashedChunk { chunk_index: ",
            self.chunk_index as u64,
            ", chunk_length: ",
            self.chunk_length as u64,
            ", .. }",
        )
    }
}

/// Number of ones in the binary representation of a number.
pub open spec fn ones(value: u32) -> nat
    decreases value,
{
    if value == 0 {
        0
    } else {
        ones(value / 2) + (value % 2) as nat
    }
}

proof fn lemma_ones_bound(value: u32)
    ensures
        ones(value) <= value,
    decreases value,
{
    if value > 0 {
        lemma_ones_bound(value / 2);
    }
}

fn count_ones(value: u32) -> (count: u32)
    ensures
        count == ones(value),
{
    proof {
        lemma_ones_bound(value);
    }
    let mut rest: u32 = value;
    let mut count: u32 = 0;
    while rest > 0
        invariant
            count + ones(rest) == ones(value) <= value,
        decreases rest,
    {
        count = count + rest % 2;
        rest = rest / 2;
    }
    count
}

/// Result of inserting one sequential leaf into the reducer.
#[derive(Clone, Copy, Debug, PartialEq, Eq, Structural)]
pub struct MerklePushStatus {
    pub chunk_index: u32,
    pub received_chunks: u32,
    pub expected_chunks: u32,
}

/// Fixed-memory reducer for one installed manifest.
///
/// The reducer stores at most one 48-byte perfect-subtree root at each of 32 levels, independent of
/// object size. Leaves must be inserted in chunk-index order, but their hashing may happen earlier
/// and out of order.
#[derive(Clone)]
pub struct MerkleReducer {
    pub header: ManifestHeader,
    pub received_chunks: u32,
    pub occupied_levels: u32,
    pub subtrees: [MerkleHash; MAX_MERKLE_LEVELS],
}

impl MerkleReducer {
    /// The reducer's invariant: valid geometry, no more chunks than the object has, and one
    /// occupied level per one in the binary representation of the chunk count.
    pub open spec fn well_formed(&self) -> bool {
        &&& self.header.field_failure() is None
        &&& self.received_chunks <= self.header.chunk_count
        &&& self.occupied_levels == self.received_chunks
    }

    /// Exact length of a chunk of the object.
    pub open spec fn length_of_chunk(&self, chunk_index: u32) -> u32 {
        min_int(
            self.header.object_size - chunk_index * self.header.chunk_size,
            self.header.chunk_size as int,
        ) as u32
    }

    /// The failure of hashing a chunk that does not come from the provider, if any.
    pub open spec fn hash_failure<E>(&self, chunk_index: u32, length: nat) -> Option<
        MerkleError<E>,
    > {
        if chunk_index >= self.header.chunk_count {
            Some(
                MerkleError::ChunkIndexOutsideObject {
                    index: chunk_index,
                    chunk_count: self.header.chunk_count,
                },
            )
        } else if length != self.length_of_chunk(chunk_index) {
            Some(
                MerkleError::ChunkLengthMismatch {
                    chunk_index,
                    expected: self.length_of_chunk(chunk_index),
                    actual: length as usize,
                },
            )
        } else {
            None
        }
    }

    /// The failure of inserting a chunk at an index, if any.
    pub open spec fn order_failure<E>(&self, chunk_index: u32) -> Option<MerkleError<E>> {
        if chunk_index != self.received_chunks {
            Some(
                MerkleError::ChunkIndexMismatch {
                    expected: self.received_chunks,
                    actual: chunk_index,
                },
            )
        } else if chunk_index >= self.header.chunk_count {
            Some(
                MerkleError::ChunkIndexOutsideObject {
                    index: chunk_index,
                    chunk_count: self.header.chunk_count,
                },
            )
        } else {
            None
        }
    }

    /// The failure of inserting a hashed chunk that does not come from the provider, if any.
    pub open spec fn push_failure<E>(&self, hashed: HashedChunk) -> Option<MerkleError<E>> {
        if hashed.object_id@ != self.header.object_id@ {
            Some(MerkleError::HashedChunkObjectMismatch)
        } else if self.order_failure::<E>(hashed.chunk_index) is Some {
            self.order_failure(hashed.chunk_index)
        } else {
            self.hash_failure(hashed.chunk_index, hashed.chunk_length as nat)
        }
    }

    /// Whether a provider fails with `error` while a leaf is pushed.
    pub open spec fn push_fails_with<P: Sha384Provider>(
        &self,
        provider: &P,
        leaf: Seq<u8>,
        error: P::Error,
    ) -> bool {
        carry_fails_with(
            provider,
            roots(self.subtrees@),
            self.received_chunks as nat,
            0,
            leaf,
            error,
        )
    }

    /// Whether a provider fails with `error` while the root of a complete reducer is computed.
    pub open spec fn root_fails_with<P: Sha384Provider>(
        &self,
        provider: &P,
        error: P::Error,
    ) -> bool {
        if self.header.chunk_count == 0 {
            hashing_fails_with(provider, empty_root_input(self.header.object_id@), error)
        } else {
            fold_fails_with(
                provider,
                roots(self.subtrees@),
                self.received_chunks as nat,
                MAX_MERKLE_LEVELS as nat,
                error,
            )
        }
    }

    /// The reducer after one more leaf.
    pub open spec fn has_pushed(&self, before: &MerkleReducer, hash: HashFunction, leaf: Seq<u8>) -> bool {
        &&& self.header == before.header
        &&& self.received_chunks == before.received_chunks + 1
        &&& self.occupied_levels == self.received_chunks
        &&& roots(self.subtrees@) == with_leaf(
            hash,
            roots(before.subtrees@),
            before.received_chunks as nat,
            leaf,
        )
    }

    /// Creates an empty reducer after revalidating signed object geometry.
    ///
    /// # Errors
    ///
    /// Returns the manifest validation error for invalid geometry or identity fields.
    pub fn new(header: ManifestHeader) -> (reducer: Result<MerkleReducer, ManifestError>)
        ensures
            match header.field_failure() {
                Some(error) => reducer == Err::<MerkleReducer, ManifestError>(error),
                None => {
                    &&& reducer is Ok
                    &&& reducer->Ok_0.well_formed()
                    &&& reducer->Ok_0.header == header
                    &&& reducer->Ok_0.received_chunks == 0
                    &&& forall|i: int|
                        0 <= i < MAX_MERKLE_LEVELS ==> (#[trigger] reducer->Ok_0.subtrees@[i])@
                            == zeroes(MERKLE_ROOT_LEN as nat)
                },
            },
    {
        match header.validate() {
            Err(error) => {
                return Err(error);
            },
            Ok(()) => {},
        }
        let blank: MerkleHash = [0u8; MERKLE_ROOT_LEN];
        assert(blank@ =~= zeroes(MERKLE_ROOT_LEN as nat));
        Ok(
            MerkleReducer {
                header,
                received_chunks: 0,
                occupied_levels: 0,
                subtrees: [blank; MAX_MERKLE_LEVELS],
            },
        )
    }

    /// Hashes any chunk of this object without changing reduction state.
    ///
    /// This permits multipath workers to hash completed chunks immediately. The resulting
    /// [`HashedChunk`] still has to enter `push_hashed_chunk` in strict index order.
    ///
    /// # Errors
    ///
    /// Returns an error for an index outside the signed geometry, an incorrect chunk length,
    /// arithmetic failure, or a SHA-384 provider failure.
    pub fn hash_chunk<P: Sha384Provider>(
        &self,
        provider: &P,
        chunk_index: u32,
        chunk: &[u8],
    ) -> (hashed: Result<HashedChunk, MerkleError<P::Error>>)
        requires
            self.header.field_failure() is None,
        ensures
            match self.hash_failure::<P::Error>(chunk_index, chunk@.len()) {
                Some(error) => hashed == Err::<HashedChunk, MerkleError<P::Error>>(error),
                None => match hashed {
                    Ok(hashed) => {
                        &&& hashed.object_id@ == self.header.object_id@
                        &&& hashed.chunk_index == chunk_index
                        &&& hashed.chunk_length == self.length_of_chunk(chunk_index)
                        &&& hashed.digest@ == provider.sha384(
                            chunk_leaf_input(self.header.object_id@, chunk_index, chunk@),
                        )@
                    },
                    Err(error) => error matches MerkleError::Provider(error) && hashing_fails_with(
                        provider,
                        chunk_leaf_input(self.header.object_id@, chunk_index, chunk@),
                        error,
                    ),
                },
            },
    {
        let expected: u32 = match self.expected_chunk_length(chunk_index) {
            Ok(expected) => expected,
            Err(error) => {
                return Err(error);
            },
        };
        if chunk.len() != expected as usize {
            return Err(
                MerkleError::ChunkLengthMismatch { chunk_index, expected, actual: chunk.len() },
            );
        }
        let mut context = match provider.start_sha384() {
            Ok(context) => context,
            Err(error) => {
                return Err(MerkleError::Provider(error));
            },
        };
        match feed_chunk_leaf_input(&mut context, &self.header.object_id, chunk_index, chunk) {
            Ok(()) => {},
            Err(error) => {
                return Err(MerkleError::Manifest(error));
            },
        }
        assert(context.fed() =~= chunk_leaf_input(self.header.object_id@, chunk_index, chunk@));
        match provider.finish_sha384(context) {
            Ok(digest) => Ok(
                HashedChunk {
                    object_id: self.header.object_id,
                    chunk_index,
                    chunk_length: expected,
                    digest,
                },
            ),
            Err(error) => Err(MerkleError::Provider(error)),
        }
    }

    /// Hashes and inserts the next sequential object chunk atomically.
    ///
    /// # Errors
    ///
    /// Returns an error for a non-sequential index, invalid length, exhausted geometry, arithmetic
    /// failure, or a SHA-384 provider failure. Reduction state remains unchanged on every error.
    pub fn push_chunk<P: Sha384Provider>(
        &mut self,
        provider: &P,
        chunk_index: u32,
        chunk: &[u8],
    ) -> (status: Result<MerklePushStatus, MerkleError<P::Error>>)
        requires
            old(self).well_formed(),
        ensures
            final(self).well_formed(),
            status is Err ==> *final(self) == *old(self),
            match old(self).order_failure::<P::Error>(chunk_index) {
                Some(error) => status == Err::<MerklePushStatus, MerkleError<P::Error>>(error),
                None => match old(self).hash_failure::<P::Error>(chunk_index, chunk@.len()) {
                    Some(error) => status == Err::<MerklePushStatus, MerkleError<P::Error>>(error),
                    None => match status {
                        Ok(status) => {
                            &&& status == (MerklePushStatus {
                                chunk_index,
                                received_chunks: final(self).received_chunks,
                                expected_chunks: final(self).header.chunk_count,
                            })
                            &&& final(self).has_pushed(
                                old(self),
                                provider_hash(provider),
                                provider.sha384(
                                    chunk_leaf_input(
                                        old(self).header.object_id@,
                                        chunk_index,
                                        chunk@,
                                    ),
                                )@,
                            )
                        },
                        Err(error) => {
                            let leaf = chunk_leaf_input(
                                old(self).header.object_id@,
                                chunk_index,
                                chunk@,
                            );
                            &&& error matches MerkleError::Provider(error)
                            &&& hashing_fails_with(provider, leaf, error) || old(
                                self,
                            ).push_fails_with(provider, provider.sha384(leaf)@, error)
                        },
                    },
                },
            },
    {
        match self.validate_next_index(chunk_index) {
            Some(error) => {
                return Err(error);
            },
            None => {},
        }
        let hashed = match self.hash_chunk(provider, chunk_index, chunk) {
            Ok(hashed) => hashed,
            Err(error) => {
                return Err(error);
            },
        };
        self.push_hashed_chunk(provider, hashed)
    }

    /// Inserts one previously hashed chunk in strict index order.
    ///
    /// Internal-node hashes are completed before any subtree slot changes, so a provider failure
    /// cannot partially advance the tree.
    ///
    /// # Errors
    ///
    /// Returns an error for the wrong object, a non-sequential index, invalid geometry,
    /// capacity/invariant failure, or a SHA-384 provider failure.
    pub fn push_hashed_chunk<P: Sha384Provider>(
        &mut self,
        provider: &P,
        hashed: HashedChunk,
    ) -> (status: Result<MerklePushStatus, MerkleError<P::Error>>)
        requires
            old(self).well_formed(),
        ensures
            final(self).well_formed(),
            status is Err ==> *final(self) == *old(self),
            match old(self).push_failure::<P::Error>(hashed) {
                Some(error) => status == Err::<MerklePushStatus, MerkleError<P::Error>>(error),
                None => match status {
                    Ok(status) => {
                        &&& status == (MerklePushStatus {
                            chunk_index: hashed.chunk_index,
                            received_chunks: final(self).received_chunks,
                            expected_chunks: final(self).header.chunk_count,
                        })
                        &&& final(self).has_pushed(
                            old(self),
                            provider_hash(provider),
                            hashed.digest@,
                        )
                    },
                    Err(error) => error matches MerkleError::Provider(error) && old(
                        self,
                    ).push_fails_with(provider, hashed.digest@, error),
                },
            },
    {
        if !bytes_equal(&hashed.object_id, &self.header.object_id) {
            return Err(MerkleError::HashedChunkObjectMismatch);
        }
        match self.validate_next_index(hashed.chunk_index) {
            Some(error) => {
                return Err(error);
            },
            None => {},
        }
        let expected: u32 = match self.expected_chunk_length(hashed.chunk_index) {
            Ok(expected) => expected,
            Err(error) => {
                return Err(error);
            },
        };
        if hashed.chunk_length != expected {
            return Err(
                MerkleError::ChunkLengthMismatch {
                    chunk_index: hashed.chunk_index,
                    expected,
                    actual: hashed.chunk_length as usize,
                },
            );
        }
        let ghost count = self.received_chunks as nat;
        let ghost hash = provider_hash(provider);
        let ghost before = roots(self.subtrees@);
        let mut current: MerkleHash = hashed.digest;
        let mut level: usize = 0;
        while level < MAX_MERKLE_LEVELS && self.level_occupied(level)
            invariant
                *self == *old(self),
                self.well_formed(),
                level <= MAX_MERKLE_LEVELS,
                count == self.received_chunks,
                hash == provider_hash(provider),
                before == roots(self.subtrees@),
                old(self).push_failure::<P::Error>(hashed) is None,
                carry(hash, before, count, 0, hashed.digest@) == carry(
                    hash,
                    before,
                    count,
                    level as nat,
                    current@,
                ),
                forall|k: nat| k < level ==> #[trigger] waits(count, k),
                forall|error: P::Error| #[trigger]
                    carry_fails_with(provider, before, count, level as nat, current@, error)
                        ==> old(self).push_fails_with(provider, hashed.digest@, error),
            decreases MAX_MERKLE_LEVELS - level,
        {
            let ghost previous = current@;
            assert(waits(count, level as nat));
            match hash_node(provider, level as u32 + 1, &self.subtrees[level], &current) {
                Ok(joined) => {
                    current = joined;
                },
                Err(error) => {
                    assert(carry_fails_with(
                        provider,
                        before,
                        count,
                        level as nat,
                        previous,
                        error->Provider_0,
                    ));
                    return Err(error);
                },
            }
            assert(current@ == node(hash, (level + 1) as nat, before[level as int], previous));
            assert forall|error: P::Error| #[trigger]
                carry_fails_with(
                    provider,
                    before,
                    count,
                    (level + 1) as nat,
                    current@,
                    error,
                ) implies old(self).push_fails_with(provider, hashed.digest@, error) by {
                assert(carry_fails_with(provider, before, count, level as nat, previous, error));
            }
            level = level + 1;
        }
        proof {
            lemma_carry_counts(count, level as nat);
            lemma_count_is_covered((count + 1) as u32);
        }
        if level == MAX_MERKLE_LEVELS {
            return Err(MerkleError::TreeCapacityExceeded);
        }
        let received_chunks: u32 = self.received_chunks + 1;
        self.clear_levels(level);
        proof {
            lemma_counter_increment(self.occupied_levels, level as u32);
        }
        let lower_levels: u32 = (1u32 << (level as u32)) - 1;
        self.occupied_levels = (self.occupied_levels & !lower_levels) | (1u32 << (level as u32));
        self.subtrees[level] = current;
        self.received_chunks = received_chunks;
        assert(roots(self.subtrees@) =~= with_leaf(hash, before, count, hashed.digest@));
        Ok(
            MerklePushStatus {
                chunk_index: hashed.chunk_index,
                received_chunks,
                expected_chunks: self.header.chunk_count,
            },
        )
    }

    /// Clears every subtree root below a level.
    fn clear_levels(&mut self, level: usize)
        requires
            level <= MAX_MERKLE_LEVELS,
        ensures
            final(self).header == old(self).header,
            final(self).received_chunks == old(self).received_chunks,
            final(self).occupied_levels == old(self).occupied_levels,
            forall|i: int|
                0 <= i < MAX_MERKLE_LEVELS ==> (#[trigger] final(self).subtrees@[i])@ == if i
                    < level {
                    zeroes(MERKLE_ROOT_LEN as nat)
                } else {
                    old(self).subtrees@[i]@
                },
    {
        let blank: MerkleHash = [0u8; MERKLE_ROOT_LEN];
        assert(blank@ =~= zeroes(MERKLE_ROOT_LEN as nat));
        let mut index: usize = 0;
        while index < level
            invariant
                index <= level <= MAX_MERKLE_LEVELS,
                blank@ == zeroes(MERKLE_ROOT_LEN as nat),
                self.header == old(self).header,
                self.received_chunks == old(self).received_chunks,
                self.occupied_levels == old(self).occupied_levels,
                forall|i: int|
                    0 <= i < MAX_MERKLE_LEVELS ==> (#[trigger] self.subtrees@[i])@ == if i < index {
                        zeroes(MERKLE_ROOT_LEN as nat)
                    } else {
                        old(self).subtrees@[i]@
                    },
            decreases level - index,
        {
            self.subtrees[index] = blank;
            index = index + 1;
        }
    }

    /// Computes the canonical root after every signed chunk has been inserted.
    ///
    /// Odd rightmost subtrees are duplicated at each required level without materializing missing
    /// leaves or a full level of hashes.
    ///
    /// # Errors
    ///
    /// Returns an error when chunks are missing, an internal invariant fails, arithmetic overflows,
    /// or the SHA-384 provider fails. This operation does not change reducer state and may be
    /// retried.
    pub fn computed_root<P: Sha384Provider>(&self, provider: &P) -> (root: Result<
        MerkleHash,
        MerkleError<P::Error>,
    >)
        requires
            self.well_formed(),
        ensures
            if self.received_chunks != self.header.chunk_count {
                root == Err::<MerkleHash, MerkleError<P::Error>>(
                    MerkleError::Incomplete {
                        expected: self.header.chunk_count,
                        received: self.received_chunks,
                    },
                )
            } else {
                match root {
                    Ok(root) => root@ == if self.header.chunk_count == 0 {
                        provider.sha384(empty_root_input(self.header.object_id@))@
                    } else {
                        streamed_root(
                            provider_hash(provider),
                            roots(self.subtrees@),
                            self.received_chunks as nat,
                        )
                    },
                    Err(error) => error matches MerkleError::Provider(error)
                        && self.root_fails_with(provider, error),
                }
            },
    {
        if self.received_chunks != self.header.chunk_count {
            return Err(
                MerkleError::Incomplete {
                    expected: self.header.chunk_count,
                    received: self.received_chunks,
                },
            );
        }
        if self.occupied_levels != self.received_chunks {
            return Err(MerkleError::TreeInvariantViolation);
        }
        if self.header.chunk_count == 0 {
            let mut context = match provider.start_sha384() {
                Ok(context) => context,
                Err(error) => {
                    return Err(MerkleError::Provider(error));
                },
            };
            feed_empty_root_input(&mut context, &self.header.object_id);
            assert(context.fed() =~= empty_root_input(self.header.object_id@));
            return match provider.finish_sha384(context) {
                Ok(digest) => Ok(digest),
                Err(error) => Err(MerkleError::Provider(error)),
            };
        }
        let ghost count = self.received_chunks as nat;
        let ghost hash = provider_hash(provider);
        let ghost subtrees = roots(self.subtrees@);
        let mut right: Option<(usize, MerkleHash)> = None;
        let mut level: usize = 0;
        while level < MAX_MERKLE_LEVELS
            invariant
                level <= MAX_MERKLE_LEVELS,
                self.well_formed(),
                self.received_chunks == self.header.chunk_count,
                self.header.chunk_count != 0,
                count == self.received_chunks,
                hash == provider_hash(provider),
                subtrees == roots(self.subtrees@),
                match right {
                    None => folded(hash, subtrees, count, level as nat) is None,
                    Some((height, root)) => {
                        &&& folded(hash, subtrees, count, level as nat) == Some(
                            (height as nat, root@),
                        )
                        &&& height <= level
                    },
                },
            decreases MAX_MERKLE_LEVELS - level,
        {
            if self.level_occupied(level) {
                match right {
                    None => {
                        right = Some((level, self.subtrees[level]));
                    },
                    Some((height, root)) => {
                        let lifted_root = match raise(provider, height, level, root) {
                            Ok(lifted_root) => lifted_root,
                            Err(error) => {
                                proof {
                                    lemma_fold_failure_persists(
                                        provider,
                                        subtrees,
                                        count,
                                        (level + 1) as nat,
                                        MAX_MERKLE_LEVELS as nat,
                                        error->Provider_0,
                                    );
                                }
                                return Err(error);
                            },
                        };
                        match hash_node(
                            provider,
                            level as u32 + 1,
                            &self.subtrees[level],
                            &lifted_root,
                        ) {
                            Ok(joined) => {
                                right = Some((level + 1, joined));
                            },
                            Err(error) => {
                                proof {
                                    lemma_fold_failure_persists(
                                        provider,
                                        subtrees,
                                        count,
                                        (level + 1) as nat,
                                        MAX_MERKLE_LEVELS as nat,
                                        error->Provider_0,
                                    );
                                }
                                return Err(error);
                            },
                        }
                    },
                }
            }
            level = level + 1;
        }
        match right {
            Some((_, root)) => Ok(root),
            None => {
                proof {
                    lemma_nonempty_fold(hash, subtrees, self.received_chunks);
                }
                Err(MerkleError::TreeInvariantViolation)
            },
        }
    }

    /// Computes and compares the complete root with the signed manifest root.
    ///
    /// # Errors
    ///
    /// Returns [`MerkleError::RootMismatch`] in addition to the failures from
    /// [`Self::computed_root`].
    pub fn verify_manifest_root<P: Sha384Provider>(&self, provider: &P) -> (outcome: Result<
        (),
        MerkleError<P::Error>,
    >)
        requires
            self.well_formed(),
        ensures
            if self.received_chunks != self.header.chunk_count {
                outcome == Err::<(), MerkleError<P::Error>>(
                    MerkleError::Incomplete {
                        expected: self.header.chunk_count,
                        received: self.received_chunks,
                    },
                )
            } else {
                let root = if self.header.chunk_count == 0 {
                    provider.sha384(empty_root_input(self.header.object_id@))@
                } else {
                    streamed_root(
                        provider_hash(provider),
                        roots(self.subtrees@),
                        self.received_chunks as nat,
                    )
                };
                match outcome {
                    Ok(()) => root == self.header.merkle_root@,
                    Err(MerkleError::Provider(error)) => self.root_fails_with(provider, error),
                    Err(error) => error is RootMismatch && root != self.header.merkle_root@,
                }
            },
    {
        match self.computed_root(provider) {
            Err(error) => Err(error),
            Ok(actual) => self.compare_root(&actual),
        }
    }

    /// Compares a computed root with the signed manifest root.
    ///
    /// # Errors
    ///
    /// Returns [`MerkleError::RootMismatch`] when they differ.
    pub fn compare_root<E>(&self, actual: &MerkleHash) -> (outcome: Result<(), MerkleError<E>>)
        ensures
            outcome == if actual@ == self.header.merkle_root@ {
                Ok::<(), MerkleError<E>>(())
            } else {
                Err(MerkleError::RootMismatch)
            },
    {
        if bytes_equal(actual, &self.header.merkle_root) {
            Ok(())
        } else {
            Err(MerkleError::RootMismatch)
        }
    }

    /// Returns a text for diagnostics that shows the progress and no digest.
    pub fn debug_text(&self) -> (text: String)
        ensures
            text@ == ("MerkleReducer { received_chunks: "@ + decimal(self.received_chunks as nat)
                + ", expected_chunks: "@ + decimal(self.header.chunk_count as nat)
                + ", occupied_levels: "@) + (""@ + decimal(ones(self.occupied_levels))
                + ", .. }"@),
    {
        with_two_numbers(
            "MerkleReducer { received_chunks: ",
            self.received_chunks as u64,
            ", expected_chunks: ",
            self.header.chunk_count as u64,
            ", occupied_levels: ",
        ).concat(with_number("", count_ones(self.occupied_levels) as u64, ", .. }").as_str())
    }

    /// Returns the number of sequential leaves already reduced.
    pub fn received_chunks(&self) -> (chunks: u32)
        ensures
            chunks == self.received_chunks,
    {
        self.received_chunks
    }

    /// Returns the exact signed number of chunks expected.
    pub fn expected_chunks(&self) -> (chunks: u32)
        ensures
            chunks == self.header.chunk_count,
    {
        self.header.chunk_count
    }

    /// Returns whether every signed chunk has entered the reducer.
    pub fn is_complete(&self) -> (complete: bool)
        ensures
            complete == (self.received_chunks == self.header.chunk_count),
    {
        self.received_chunks == self.header.chunk_count
    }

    fn validate_next_index<E>(&self, chunk_index: u32) -> (failure: Option<MerkleError<E>>)
        ensures
            failure == self.order_failure::<E>(chunk_index),
    {
        if chunk_index != self.received_chunks {
            return Some(
                MerkleError::ChunkIndexMismatch {
                    expected: self.received_chunks,
                    actual: chunk_index,
                },
            );
        }
        if chunk_index >= self.header.chunk_count {
            return Some(
                MerkleError::ChunkIndexOutsideObject {
                    index: chunk_index,
                    chunk_count: self.header.chunk_count,
                },
            );
        }
        None
    }

    fn expected_chunk_length<E>(&self, chunk_index: u32) -> (length: Result<u32, MerkleError<E>>)
        requires
            self.header.field_failure() is None,
        ensures
            length == if chunk_index >= self.header.chunk_count {
                Err::<u32, MerkleError<E>>(
                    MerkleError::ChunkIndexOutsideObject {
                        index: chunk_index,
                        chunk_count: self.header.chunk_count,
                    },
                )
            } else {
                Ok(self.length_of_chunk(chunk_index))
            },
    {
        if chunk_index >= self.header.chunk_count {
            return Err(
                MerkleError::ChunkIndexOutsideObject {
                    index: chunk_index,
                    chunk_count: self.header.chunk_count,
                },
            );
        }
        proof {
            lemma_chunk_starts_inside(
                self.header.object_size as int,
                self.header.chunk_size as int,
                chunk_index as int,
            );
        }
        let size: u64 = self.header.chunk_size as u64;
        let remaining: u64 = self.header.object_size - chunk_index as u64 * size;
        if remaining < size {
            Ok(remaining as u32)
        } else {
            Ok(self.header.chunk_size)
        }
    }

    fn level_occupied(&self, level: usize) -> (occupied: bool)
        requires
            level < MAX_MERKLE_LEVELS,
        ensures
            occupied == waits(self.occupied_levels as nat, level as nat),
    {
        let shift: u32 = level as u32;
        let levels: u32 = self.occupied_levels;
        proof {
            lemma_perfect_is_shift(levels, shift);
            assert((levels & (1u32 << shift) != 0) == ((levels >> shift) % 2 == 1)) by (bit_vector)
                requires
                    shift < 32,
            ;
        }
        levels & (1u32 << shift) != 0
    }
}

proof fn lemma_chunk_starts_inside(object_size: int, chunk_size: int, chunk_index: int)
    by (nonlinear_arith)
    requires
        0 <= object_size,
        1 <= chunk_size,
        0 <= chunk_index < crate::arith::ceil_div(object_size, chunk_size),
    ensures
        0 <= chunk_index * chunk_size < object_size,
{
    let quotient = object_size / chunk_size;
    assert(object_size == quotient * chunk_size + object_size % chunk_size);
    assert(0 <= object_size % chunk_size < chunk_size);
    if chunk_index < quotient {
        assert(chunk_index * chunk_size + chunk_size <= quotient * chunk_size);
    } else {
        assert(chunk_index == quotient);
    }
}

/// Clearing the ones below a zero bit and setting that bit adds one.
proof fn lemma_counter_increment(levels: u32, level: u32)
    requires
        level < 32,
        forall|k: nat| k < level ==> #[trigger] waits(levels as nat, k),
        !waits(levels as nat, level as nat),
    ensures
        levels < u32::MAX,
        (1u32 << level) >= 1,
        ((levels & !(((1u32 << level) - 1) as u32)) | (1u32 << level)) == levels + 1,
{
    lemma_low_ones(levels, level);
    lemma_perfect_is_shift(levels, level);
    assert(levels < 0xffff_ffffu32 && (1u32 << level) >= 1 && ((levels & !(((1u32 << level)
        - 1) as u32)) | (1u32 << level)) == levels + 1) by (bit_vector)
        requires
            level < 32,
            levels & (((1u32 << level) - 1) as u32) == ((1u32 << level) - 1) as u32,
            (levels >> level) % 2 != 1,
    ;
}

proof fn lemma_low_ones(levels: u32, level: u32)
    requires
        level < 32,
        forall|k: nat| k < level ==> #[trigger] waits(levels as nat, k),
    ensures
        levels & (((1u32 << level) - 1) as u32) == ((1u32 << level) - 1) as u32,
    decreases level,
{
    if level == 0 {
        assert(levels & (((1u32 << 0u32) - 1) as u32) == ((1u32 << 0u32) - 1) as u32)
            by (bit_vector);
    } else {
        let below = (level - 1) as u32;
        lemma_low_ones(levels, below);
        lemma_perfect_is_shift(levels, below);
        assert(waits(levels as nat, below as nat));
        assert(levels & (((1u32 << level) - 1) as u32) == ((1u32 << level) - 1) as u32)
            by (bit_vector)
            requires
                0 < level < 32,
                below == level - 1,
                levels & (((1u32 << below) - 1) as u32) == ((1u32 << below) - 1) as u32,
                (levels >> below) % 2 == 1,
        ;
    }
}

/// At least one subtree waits above a nonempty sequence of leaves.
proof fn lemma_nonempty_fold(hash: HashFunction, subtrees: Seq<Seq<u8>>, count: u32)
    requires
        count > 0,
    ensures
        folded(hash, subtrees, count as nat, MAX_MERKLE_LEVELS as nat) is Some,
{
    if folded(hash, subtrees, count as nat, MAX_MERKLE_LEVELS as nat) is None {
        lemma_empty_fold(hash, subtrees, count as nat, MAX_MERKLE_LEVELS as nat);
        lemma_count_is_covered(count);
        lemma_width_and_perfect(count as nat, 32);
        lemma_width_positive(count as nat, 32);
    }
}

proof fn lemma_empty_fold(hash: HashFunction, subtrees: Seq<Seq<u8>>, count: nat, level: nat)
    requires
        folded(hash, subtrees, count, level) is None,
    ensures
        width(count, level) == perfect(count, level),
    decreases level,
{
    if level > 0 {
        lemma_empty_fold(hash, subtrees, count, (level - 1) as nat);
        lemma_width_and_perfect(count, level);
    }
}

/// Combines a node with itself from one height up to another.
fn raise<P: Sha384Provider>(
    provider: &P,
    from: usize,
    to: usize,
    root: MerkleHash,
) -> (lifted_root: Result<MerkleHash, MerkleError<P::Error>>)
    requires
        from <= to < MAX_MERKLE_LEVELS,
    ensures
        match lifted_root {
            Ok(lifted_root) => lifted_root@ == raised(
                provider_hash(provider),
                from as nat,
                to as nat,
                root@,
            ),
            Err(error) => error matches MerkleError::Provider(error) && raise_fails_with(
                provider,
                from as nat,
                to as nat,
                root@,
                error,
            ),
        },
{
    let mut height: usize = from;
    let mut current: MerkleHash = root;
    while height < to
        invariant
            height <= to < MAX_MERKLE_LEVELS,
            raised(provider_hash(provider), from as nat, to as nat, root@) == raised(
                provider_hash(provider),
                height as nat,
                to as nat,
                current@,
            ),
            forall|error: P::Error| #[trigger]
                raise_fails_with(provider, height as nat, to as nat, current@, error)
                    ==> raise_fails_with(provider, from as nat, to as nat, root@, error),
        decreases to - height,
    {
        let ghost previous = current@;
        match hash_node(provider, height as u32 + 1, &current, &current) {
            Ok(joined) => {
                current = joined;
            },
            Err(error) => {
                assert(raise_fails_with(
                    provider,
                    height as nat,
                    to as nat,
                    previous,
                    error->Provider_0,
                ));
                return Err(error);
            },
        }
        assert forall|error: P::Error| #[trigger]
            raise_fails_with(
                provider,
                (height + 1) as nat,
                to as nat,
                current@,
                error,
            ) implies raise_fails_with(provider, from as nat, to as nat, root@, error) by {
            assert(raise_fails_with(provider, height as nat, to as nat, previous, error));
        }
        height = height + 1;
    }
    Ok(current)
}

fn hash_node<P: Sha384Provider>(
    provider: &P,
    level: u32,
    left: &MerkleHash,
    right: &MerkleHash,
) -> (joined: Result<MerkleHash, MerkleError<P::Error>>)
    ensures
        match joined {
            Ok(joined) => joined@ == node(provider_hash(provider), level as nat, left@, right@),
            Err(error) => error matches MerkleError::Provider(error) && hashing_fails_with(
                provider,
                merkle_node_input(level, left@, right@),
                error,
            ),
        },
{
    let mut context = match provider.start_sha384() {
        Ok(context) => context,
        Err(error) => {
            return Err(MerkleError::Provider(error));
        },
    };
    feed_merkle_node_input(&mut context, level, left, right);
    assert(context.fed() =~= merkle_node_input(level, left@, right@));
    match provider.finish_sha384(context) {
        Ok(digest) => Ok(digest),
        Err(error) => Err(MerkleError::Provider(error)),
    }
}

/// An empty reducer stands for no leaves.
pub proof fn lemma_empty_reduction(hash: HashFunction, subtrees: Seq<Seq<u8>>)
    ensures
        reduces(hash, subtrees, Seq::<Seq<u8>>::empty()),
{
    assert forall|k: nat| k < MAX_MERKLE_LEVELS implies !(#[trigger] waits(0, k)) by {
        lemma_perfect_of_zero(k);
    }
}

proof fn lemma_perfect_of_zero(height: nat)
    ensures
        perfect(0, height) == 0,
    decreases height,
{
    if height > 0 {
        lemma_perfect_of_zero((height - 1) as nat);
    }
}

} // verus!
