//! Byte-sequence vocabulary shared by every codec: big-endian integers, bounded
//! writes into caller-owned buffers, and comparisons.

use vstd::prelude::*;
use vstd::slice::slice_subrange;

verus! {

/// Big-endian encoding of a 16-bit integer.
pub open spec fn be16(value: u16) -> Seq<u8> {
    seq![(value / 256) as u8, (value % 256) as u8]
}

/// Big-endian encoding of a 32-bit integer.
pub open spec fn be32(value: u32) -> Seq<u8> {
    be16((value / 0x1_0000) as u16) + be16((value % 0x1_0000) as u16)
}

/// Big-endian encoding of a 64-bit integer.
pub open spec fn be64(value: u64) -> Seq<u8> {
    be32((value / 0x1_0000_0000) as u32) + be32((value % 0x1_0000_0000) as u32)
}

/// The 16-bit integer whose big-endian encoding starts at `at`.
pub open spec fn be16_at(bytes: Seq<u8>, at: int) -> u16 {
    (bytes[at] * 256 + bytes[at + 1]) as u16
}

/// The 32-bit integer whose big-endian encoding starts at `at`.
pub open spec fn be32_at(bytes: Seq<u8>, at: int) -> u32 {
    (be16_at(bytes, at) * 0x1_0000 + be16_at(bytes, at + 2)) as u32
}

/// The 64-bit integer whose big-endian encoding starts at `at`.
pub open spec fn be64_at(bytes: Seq<u8>, at: int) -> u64 {
    (be32_at(bytes, at) * 0x1_0000_0000 + be32_at(bytes, at + 4)) as u64
}

/// `buffer` with the bytes from `at` on replaced by `bytes`.
pub open spec fn splice(buffer: Seq<u8>, at: int, bytes: Seq<u8>) -> Seq<u8> {
    buffer.take(at) + bytes + buffer.skip(at + bytes.len())
}

/// `buffer` with its first bytes replaced by `bytes`.
pub open spec fn overwrite_prefix(buffer: Seq<u8>, bytes: Seq<u8>) -> Seq<u8> {
    bytes + buffer.skip(bytes.len() as int)
}

/// A sequence of `length` zero bytes.
pub open spec fn zeroes(length: nat) -> Seq<u8> {
    Seq::new(length, |i: int| 0u8)
}

/// Whether every byte is zero.
pub open spec fn all_zero(bytes: Seq<u8>) -> bool {
    forall|i: int| 0 <= i < bytes.len() ==> bytes[i] == 0
}

/// Reading a 16-bit integer back from its encoding.
pub proof fn lemma_be16_inverse(value: u16)
    ensures
        be16(value).len() == 2,
        be16_at(be16(value), 0) == value,
{
}

/// Reading a 32-bit integer back from its encoding.
pub proof fn lemma_be32_inverse(value: u32)
    ensures
        be32(value).len() == 4,
        be32_at(be32(value), 0) == value,
{
    let bytes = be32(value);
    assert(be16_at(bytes, 0) == (value / 0x1_0000) as u16);
    assert(be16_at(bytes, 2) == (value % 0x1_0000) as u16);
}

/// Reading a 64-bit integer back from its encoding.
pub proof fn lemma_be64_inverse(value: u64)
    ensures
        be64(value).len() == 8,
        be64_at(be64(value), 0) == value,
{
    let bytes = be64(value);
    let high = (value / 0x1_0000_0000) as u32;
    let low = (value % 0x1_0000_0000) as u32;
    lemma_be32_inverse(high);
    lemma_be32_inverse(low);
    assert(be32_at(bytes, 0) == be32_at(be32(high), 0));
    assert(be32_at(bytes, 4) == be32_at(be32(low), 0));
}

/// The two bytes of a sequence that hold a 16-bit integer are its encoding.
pub proof fn lemma_be16_of_bytes(bytes: Seq<u8>, at: int)
    requires
        0 <= at,
        at + 2 <= bytes.len(),
    ensures
        be16(be16_at(bytes, at)) == bytes.subrange(at, at + 2),
{
}

/// The four bytes of a sequence that hold a 32-bit integer are its encoding.
pub proof fn lemma_be32_of_bytes(bytes: Seq<u8>, at: int)
    requires
        0 <= at,
        at + 4 <= bytes.len(),
    ensures
        be32(be32_at(bytes, at)) == bytes.subrange(at, at + 4),
{
    let value = be32_at(bytes, at);
    assert(value / 0x1_0000 == be16_at(bytes, at));
    assert(value % 0x1_0000 == be16_at(bytes, at + 2));
    lemma_be16_of_bytes(bytes, at);
    lemma_be16_of_bytes(bytes, at + 2);
    assert(be32(value) =~= bytes.subrange(at, at + 2) + bytes.subrange(at + 2, at + 4));
    assert(bytes.subrange(at, at + 2) + bytes.subrange(at + 2, at + 4) =~= bytes.subrange(
        at,
        at + 4,
    ));
}

/// The eight bytes of a sequence that hold a 64-bit integer are its encoding.
pub proof fn lemma_be64_of_bytes(bytes: Seq<u8>, at: int)
    requires
        0 <= at,
        at + 8 <= bytes.len(),
    ensures
        be64(be64_at(bytes, at)) == bytes.subrange(at, at + 8),
{
    let value = be64_at(bytes, at);
    assert(value / 0x1_0000_0000 == be32_at(bytes, at));
    assert(value % 0x1_0000_0000 == be32_at(bytes, at + 4));
    lemma_be32_of_bytes(bytes, at);
    lemma_be32_of_bytes(bytes, at + 4);
    assert(bytes.subrange(at, at + 4) + bytes.subrange(at + 4, at + 8) =~= bytes.subrange(
        at,
        at + 8,
    ));
}

/// An integer read inside one part of a concatenation is read from that part.
pub proof fn lemma_be_at_shift(bytes: Seq<u8>, part: Seq<u8>, at: int)
    requires
        0 <= at,
        at + part.len() <= bytes.len(),
        bytes.subrange(at, at + part.len()) == part,
    ensures
        part.len() >= 2 ==> be16_at(bytes, at) == be16_at(part, 0),
        part.len() >= 4 ==> be32_at(bytes, at) == be32_at(part, 0),
        part.len() >= 8 ==> be64_at(bytes, at) == be64_at(part, 0),
{
    assert forall|i: int| 0 <= i < part.len() implies bytes[at + i] == part[i] by {
        assert(bytes.subrange(at, at + part.len())[i] == bytes[at + i]);
    }
    if part.len() >= 2 {
        assert(bytes[at + 0] == part[0] && bytes[at + 1] == part[1]);
    }
    if part.len() >= 4 {
        assert(bytes[at + 2] == part[2] && bytes[at + 3] == part[3]);
        assert(be16_at(bytes, at + 2) == be16_at(part, 2));
    }
    if part.len() >= 8 {
        assert(bytes[at + 4] == part[4] && bytes[at + 5] == part[5]);
        assert(bytes[at + 6] == part[6] && bytes[at + 7] == part[7]);
        assert(be16_at(bytes, at + 4) == be16_at(part, 4));
        assert(be16_at(bytes, at + 6) == be16_at(part, 6));
    }
}

/// Writing behind an already written prefix extends that prefix.
pub broadcast proof fn lemma_splice_extends_prefix(
    buffer: Seq<u8>,
    prefix: Seq<u8>,
    at: int,
    bytes: Seq<u8>,
)
    requires
        at == prefix.len(),
        prefix.len() + bytes.len() <= buffer.len(),
    ensures
        #[trigger] splice(overwrite_prefix(buffer, prefix), at, bytes) == overwrite_prefix(
            buffer,
            prefix + bytes,
        ),
{
    assert(splice(overwrite_prefix(buffer, prefix), at, bytes) =~= overwrite_prefix(
        buffer,
        prefix + bytes,
    ));
}

/// A first write at the start of a buffer writes a prefix.
pub broadcast proof fn lemma_splice_first_prefix(buffer: Seq<u8>, bytes: Seq<u8>)
    requires
        bytes.len() <= buffer.len(),
    ensures
        #[trigger] splice(buffer, 0, bytes) == overwrite_prefix(buffer, bytes),
{
    assert(splice(buffer, 0, bytes) =~= overwrite_prefix(buffer, bytes));
}

pub broadcast group group_buffer_writes {
    lemma_splice_extends_prefix,
    lemma_splice_first_prefix,
}

/// Copies `bytes` into `buffer` from index `at` on and returns the index behind them.
pub fn put(buffer: &mut [u8], at: usize, bytes: &[u8]) -> (next: usize)
    requires
        at + bytes@.len() <= old(buffer)@.len(),
    ensures
        next == at + bytes@.len(),
        final(buffer)@ == splice(old(buffer)@, at as int, bytes@),
{
    let total: usize = buffer.len();
    let mut i: usize = 0;
    while i < bytes.len()
        invariant
            i <= bytes@.len(),
            total == buffer@.len(),
            at + bytes@.len() <= total,
            buffer@.len() == old(buffer)@.len(),
            forall|k: int| 0 <= k < at ==> buffer@[k] == old(buffer)@[k],
            forall|k: int| at <= k < at + i ==> buffer@[k] == bytes@[k - at],
            forall|k: int| at + i <= k < total ==> buffer@[k] == old(buffer)@[k],
        decreases bytes@.len() - i,
    {
        buffer[at + i] = bytes[i];
        i = i + 1;
    }
    assert(buffer@ =~= splice(old(buffer)@, at as int, bytes@));
    at + bytes.len()
}

/// Writes one byte at index `at` and returns the index behind it.
pub fn put_u8(buffer: &mut [u8], at: usize, value: u8) -> (next: usize)
    requires
        at + 1 <= old(buffer)@.len(),
    ensures
        next == at + 1,
        final(buffer)@ == splice(old(buffer)@, at as int, seq![value]),
{
    let total: usize = buffer.len();
    buffer[at] = value;
    assert(buffer@ =~= splice(old(buffer)@, at as int, seq![value]));
    at + 1
}

/// Writes a 16-bit integer in network byte order and returns the index behind it.
pub fn put_u16(buffer: &mut [u8], at: usize, value: u16) -> (next: usize)
    requires
        at + 2 <= old(buffer)@.len(),
    ensures
        next == at + 2,
        final(buffer)@ == splice(old(buffer)@, at as int, be16(value)),
{
    let encoded: [u8; 2] = be16_bytes(value);
    put(buffer, at, &encoded)
}

/// Writes a 32-bit integer in network byte order and returns the index behind it.
pub fn put_u32(buffer: &mut [u8], at: usize, value: u32) -> (next: usize)
    requires
        at + 4 <= old(buffer)@.len(),
    ensures
        next == at + 4,
        final(buffer)@ == splice(old(buffer)@, at as int, be32(value)),
{
    let encoded: [u8; 4] = be32_bytes(value);
    put(buffer, at, &encoded)
}

/// Writes a 64-bit integer in network byte order and returns the index behind it.
pub fn put_u64(buffer: &mut [u8], at: usize, value: u64) -> (next: usize)
    requires
        at + 8 <= old(buffer)@.len(),
    ensures
        next == at + 8,
        final(buffer)@ == splice(old(buffer)@, at as int, be64(value)),
{
    let encoded: [u8; 8] = be64_bytes(value);
    put(buffer, at, &encoded)
}

/// Returns the big-endian bytes of a 16-bit integer.
pub fn be16_bytes(value: u16) -> (encoded: [u8; 2])
    ensures
        encoded@ == be16(value),
{
    let encoded: [u8; 2] = [(value / 256) as u8, (value % 256) as u8];
    assert(encoded@ =~= be16(value));
    encoded
}

/// Returns the big-endian bytes of a 32-bit integer.
pub fn be32_bytes(value: u32) -> (encoded: [u8; 4])
    ensures
        encoded@ == be32(value),
{
    let high: [u8; 2] = be16_bytes((value / 0x1_0000) as u16);
    let low: [u8; 2] = be16_bytes((value % 0x1_0000) as u16);
    let encoded: [u8; 4] = [high[0], high[1], low[0], low[1]];
    assert(encoded@ =~= be32(value));
    encoded
}

/// Returns the big-endian bytes of a 64-bit integer.
pub fn be64_bytes(value: u64) -> (encoded: [u8; 8])
    ensures
        encoded@ == be64(value),
{
    let high: [u8; 4] = be32_bytes((value / 0x1_0000_0000) as u32);
    let low: [u8; 4] = be32_bytes((value % 0x1_0000_0000) as u32);
    let encoded: [u8; 8] = [
        high[0],
        high[1],
        high[2],
        high[3],
        low[0],
        low[1],
        low[2],
        low[3],
    ];
    assert(encoded@ =~= be64(value));
    encoded
}

/// Reads the 16-bit integer at index `at`.
pub fn get_u16(bytes: &[u8], at: usize) -> (value: u16)
    requires
        at + 2 <= bytes@.len(),
    ensures
        value == be16_at(bytes@, at as int),
{
    let total: usize = bytes.len();
    bytes[at] as u16 * 256 + bytes[at + 1] as u16
}

/// Reads the 32-bit integer at index `at`.
pub fn get_u32(bytes: &[u8], at: usize) -> (value: u32)
    requires
        at + 4 <= bytes@.len(),
    ensures
        value == be32_at(bytes@, at as int),
{
    let total: usize = bytes.len();
    get_u16(bytes, at) as u32 * 0x1_0000 + get_u16(bytes, at + 2) as u32
}

/// Reads the 64-bit integer at index `at`.
pub fn get_u64(bytes: &[u8], at: usize) -> (value: u64)
    requires
        at + 8 <= bytes@.len(),
    ensures
        value == be64_at(bytes@, at as int),
{
    let total: usize = bytes.len();
    get_u32(bytes, at) as u64 * 0x1_0000_0000 + get_u32(bytes, at + 4) as u64
}

/// Copies the `N` bytes at index `at`.
pub fn get_array<const N: usize>(bytes: &[u8], at: usize) -> (value: [u8; N])
    requires
        at + N <= bytes@.len(),
    ensures
        value@ == bytes@.subrange(at as int, at + N),
{
    let total: usize = bytes.len();
    let mut value: [u8; N] = [0u8; N];
    let mut i: usize = 0;
    while i < N
        invariant
            i <= N,
            total == bytes@.len(),
            at + N <= total,
            forall|k: int| 0 <= k < i ==> value@[k] == bytes@[at + k],
        decreases N - i,
    {
        value[i] = bytes[at + i];
        i = i + 1;
    }
    assert(value@ =~= bytes@.subrange(at as int, at + N));
    value
}

/// Compares two byte strings.
pub fn bytes_equal(left: &[u8], right: &[u8]) -> (equal: bool)
    ensures
        equal == (left@ == right@),
{
    if left.len() != right.len() {
        return false;
    }
    let mut i: usize = 0;
    while i < left.len()
        invariant
            i <= left@.len(),
            left@.len() == right@.len(),
            forall|k: int| 0 <= k < i ==> left@[k] == right@[k],
        decreases left@.len() - i,
    {
        if left[i] != right[i] {
            assert(left@[i as int] != right@[i as int]);
            return false;
        }
        i = i + 1;
    }
    assert(left@ =~= right@);
    true
}

/// Compares two equally long byte arrays without stopping at the first difference.
pub fn bytes_equal_full_scan<const N: usize>(left: &[u8; N], right: &[u8; N]) -> (equal: bool)
    ensures
        equal == (left@ == right@),
{
    let mut difference: u8 = 0;
    let mut i: usize = 0;
    while i < N
        invariant
            i <= N,
            difference == 0 <==> forall|k: int| 0 <= k < i ==> left@[k] == right@[k],
        decreases N - i,
    {
        let a: u8 = left[i];
        let b: u8 = right[i];
        assert((difference | (a ^ b)) == 0 <==> difference == 0 && a == b) by (bit_vector);
        difference = difference | (a ^ b);
        i = i + 1;
    }
    assert(difference == 0 <==> left@ =~= right@);
    difference == 0
}

/// Whether every byte is zero, reading all of them.
pub fn is_all_zero<const N: usize>(bytes: &[u8; N]) -> (zero: bool)
    ensures
        zero == all_zero(bytes@),
{
    let mut combined: u8 = 0;
    let mut i: usize = 0;
    while i < N
        invariant
            i <= N,
            combined == 0 <==> forall|k: int| 0 <= k < i ==> bytes@[k] == 0,
        decreases N - i,
    {
        let a: u8 = bytes[i];
        assert((combined | a) == 0 <==> combined == 0 && a == 0) by (bit_vector);
        combined = combined | a;
        i = i + 1;
    }
    combined == 0
}

/// Sets every byte of a buffer to zero.
pub fn clear(buffer: &mut [u8])
    ensures
        final(buffer)@ == zeroes(old(buffer)@.len()),
{
    let mut i: usize = 0;
    while i < buffer.len()
        invariant
            i <= buffer@.len(),
            buffer@.len() == old(buffer)@.len(),
            forall|k: int| 0 <= k < i ==> buffer@[k] == 0,
        decreases buffer@.len() - i,
    {
        buffer[i] = 0;
        i = i + 1;
    }
    assert(buffer@ =~= zeroes(old(buffer)@.len()));
}

/// Sets every byte of an array to zero. It can be called while another failure unwinds.
pub fn erase<const N: usize>(bytes: &mut [u8; N])
    ensures
        final(bytes)@ == zeroes(N as nat),
    opens_invariants none
    no_unwind
{
    let mut i: usize = 0;
    while i < N
        invariant
            i <= N,
            forall|k: int| 0 <= k < i ==> bytes@[k] == 0,
        decreases N - i,
    {
        bytes[i] = 0;
        i = i + 1;
    }
    assert(bytes@ =~= zeroes(N as nat));
}

/// Sets the first `length` bytes of a buffer to zero.
pub fn clear_prefix(buffer: &mut [u8], length: usize)
    requires
        length <= old(buffer)@.len(),
    ensures
        final(buffer)@ == overwrite_prefix(old(buffer)@, zeroes(length as nat)),
{
    let mut i: usize = 0;
    while i < length
        invariant
            i <= length,
            length <= buffer@.len(),
            buffer@.len() == old(buffer)@.len(),
            forall|k: int| 0 <= k < i ==> buffer@[k] == 0,
            forall|k: int| i <= k < buffer@.len() ==> buffer@[k] == old(buffer)@[k],
        decreases length - i,
    {
        buffer[i] = 0;
        i = i + 1;
    }
    assert(buffer@ =~= overwrite_prefix(old(buffer)@, zeroes(length as nat)));
}

/// Sets the bytes of a buffer from index `from` on to zero.
pub fn clear_tail(buffer: &mut [u8], from: usize)
    requires
        from <= old(buffer)@.len(),
    ensures
        final(buffer)@ == old(buffer)@.take(from as int) + zeroes(
            (old(buffer)@.len() - from) as nat,
        ),
{
    let mut i: usize = from;
    while i < buffer.len()
        invariant
            from <= i <= buffer@.len(),
            buffer@.len() == old(buffer)@.len(),
            forall|k: int| from <= k < i ==> buffer@[k] == 0,
            forall|k: int| 0 <= k < from ==> buffer@[k] == old(buffer)@[k],
        decreases buffer@.len() - i,
    {
        buffer[i] = 0;
        i = i + 1;
    }
    assert(buffer@ =~= old(buffer)@.take(from as int) + zeroes(
        (old(buffer)@.len() - from) as nat,
    ));
}

/// The part of a byte string from index `from` to index `to`.
pub fn part(bytes: &[u8], from: usize, to: usize) -> (selected: &[u8])
    requires
        from <= to <= bytes@.len(),
    ensures
        selected@ == bytes@.subrange(from as int, to as int),
{
    slice_subrange(bytes, from, to)
}

} // verus!
