//! Numbers as they stand in a byte sequence.

use vstd::prelude::*;

use crate::bytes::{
    be16, be16_at, be32, be32_at, be64, be64_at, lemma_be16_inverse, lemma_be32_inverse,
    lemma_be64_inverse,
};

verus! {

/// The number that `length` bytes from `at` on spell in base 256, most significant digit first.
pub open spec fn number_at(bytes: Seq<u8>, at: int, length: nat) -> int
    decreases length,
{
    if length == 0 {
        0
    } else {
        256 * number_at(bytes, at, (length - 1) as nat) + bytes[at + length - 1]
    }
}

/// The bytes from `at` on are `part`.
pub open spec fn holds_at(bytes: Seq<u8>, at: int, part: Seq<u8>) -> bool {
    &&& 0 <= at
    &&& at + part.len() <= bytes.len()
    &&& bytes.subrange(at, at + part.len()) == part
}

/// Fixed-size readers read numbers in base 256.
pub proof fn lemma_readers_read_numbers(bytes: Seq<u8>, at: int)
    ensures
        number_at(bytes, at, 2) == be16_at(bytes, at),
        number_at(bytes, at, 4) == be32_at(bytes, at),
        number_at(bytes, at, 8) == be64_at(bytes, at),
{
    reveal_with_fuel(number_at, 9);
    assert(be16_at(bytes, at) == bytes[at] * 256 + bytes[at + 1]);
    assert(be16_at(bytes, at + 2) == bytes[at + 2] * 256 + bytes[at + 3]);
    assert(be16_at(bytes, at + 4) == bytes[at + 4] * 256 + bytes[at + 5]);
    assert(be16_at(bytes, at + 6) == bytes[at + 6] * 256 + bytes[at + 7]);
    assert(be32_at(bytes, at) == be16_at(bytes, at) * 0x1_0000 + be16_at(bytes, at + 2));
    assert(be32_at(bytes, at + 4) == be16_at(bytes, at + 4) * 0x1_0000 + be16_at(bytes, at + 6));
}

/// Where bytes hold an encoded integer, they spell that integer.
pub proof fn lemma_encodings_spell_their_values(bytes: Seq<u8>, at: int)
    ensures
        forall|value: u16| #[trigger]
            holds_at(bytes, at, be16(value)) ==> number_at(bytes, at, 2) == value,
        forall|value: u32| #[trigger]
            holds_at(bytes, at, be32(value)) ==> number_at(bytes, at, 4) == value,
        forall|value: u64| #[trigger]
            holds_at(bytes, at, be64(value)) ==> number_at(bytes, at, 8) == value,
{
    lemma_readers_read_numbers(bytes, at);
    assert forall|value: u16| #[trigger] holds_at(bytes, at, be16(value)) implies number_at(
        bytes,
        at,
        2,
    ) == value by {
        lemma_be16_inverse(value);
        crate::bytes::lemma_be_at_shift(bytes, be16(value), at);
    }
    assert forall|value: u32| #[trigger] holds_at(bytes, at, be32(value)) implies number_at(
        bytes,
        at,
        4,
    ) == value by {
        lemma_be32_inverse(value);
        crate::bytes::lemma_be_at_shift(bytes, be32(value), at);
    }
    assert forall|value: u64| #[trigger] holds_at(bytes, at, be64(value)) implies number_at(
        bytes,
        at,
        8,
    ) == value by {
        lemma_be64_inverse(value);
        crate::bytes::lemma_be_at_shift(bytes, be64(value), at);
    }
}

/// An encoded integer spells its value wherever it stands.
pub proof fn lemma_spells16(bytes: Seq<u8>, at: int, value: u16)
    requires
        holds_at(bytes, at, be16(value)),
    ensures
        number_at(bytes, at, 2) == value,
{
    lemma_encodings_spell_their_values(bytes, at);
}

/// An encoded integer spells its value wherever it stands.
pub proof fn lemma_spells32(bytes: Seq<u8>, at: int, value: u32)
    requires
        holds_at(bytes, at, be32(value)),
    ensures
        number_at(bytes, at, 4) == value,
{
    lemma_encodings_spell_their_values(bytes, at);
}

/// An encoded integer spells its value wherever it stands.
pub proof fn lemma_spells64(bytes: Seq<u8>, at: int, value: u64)
    requires
        holds_at(bytes, at, be64(value)),
    ensures
        number_at(bytes, at, 8) == value,
{
    lemma_encodings_spell_their_values(bytes, at);
}

} // verus!
