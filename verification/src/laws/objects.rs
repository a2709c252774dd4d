//! Laws of object manifests and their chunk trees.

use vstd::prelude::*;
use vstd::string::*;

use crate::bytes::{be16, be32, overwrite_prefix};
use crate::crypto::Sha384Provider;
use crate::laws::numbers::{lemma_readers_read_numbers, lemma_spells16, lemma_spells32, number_at};
use crate::manifest::{
    feed_chunk_leaf_input, feed_empty_root_input, feed_manifest_signature_input,
    feed_merkle_node_input, lemma_prefix_parts, lemma_signed_parts, Manifest, ManifestError,
    ManifestFragment, ManifestHeader,
};
use crate::merkle::{
    combined, level_root, provider_hash, reduces, roots, tree_root, HashFunction, HashedChunk,
    MerkleError, MerkleHash, MerklePushStatus, MerkleReducer,
};
use crate::transcript::TranscriptSink;

verus! {

/// A header is valid exactly if its identifiers and its root are not all zero, its chunk size is a
/// power of two from 64 KiB to 16 MiB, and its chunks cover the object: all but the last are within
/// it, and all together reach its end.
pub proof fn lemma_valid_headers_cover_the_object(
    header: ManifestHeader,
    outcome: Result<(), ManifestError>,
)
    requires
        call_ensures(ManifestHeader::validate, (header,), outcome),
    ensures
        outcome is Ok <==> {
            let size = header.chunk_size;
            let count = header.chunk_count as int;
            &&& exists|i: int| 0 <= i < 32 && #[trigger] header.object_id@[i] != 0
            &&& exists|i: int| 0 <= i < 48 && #[trigger] header.signer_identity_fingerprint@[i] != 0
            &&& exists|i: int| 0 <= i < 48 && #[trigger] header.merkle_root@[i] != 0
            &&& 0x1_0000 <= size <= 0x100_0000
            &&& size & (size - 1) as u32 == 0
            &&& (count - 1) * size < header.object_size <= count * size
        },
{
    let size = header.chunk_size;
    let count = header.chunk_count as int;
    assert((0x1_0000 <= size && size <= 0x100_0000 && size & ((size - 1) as u32) == 0) == (size
        == 0x1_0000 || size == 0x2_0000 || size == 0x4_0000 || size == 0x8_0000 || size
        == 0x10_0000 || size == 0x20_0000 || size == 0x40_0000 || size == 0x80_0000 || size
        == 0x100_0000)) by (bit_vector);
    if size > 0 {
        lemma_count_covers(header.object_size as int, size as int, count);
    }
}

proof fn lemma_count_covers(total: int, size: int, count: int)
    requires
        0 <= total,
        0 < size,
    ensures
        count == crate::arith::ceil_div(total, size) <==> (count - 1) * size < total <= count
            * size,
{
    let whole = total / size;
    let rest = total % size;
    vstd::arithmetic::div_mod::lemma_fundamental_div_mod(total, size);
    assert(size * whole == whole * size) by (nonlinear_arith);
    let exact = crate::arith::ceil_div(total, size);
    assert((whole - 1) * size == whole * size - size) by (nonlinear_arith);
    assert((whole + 1) * size == whole * size + size) by (nonlinear_arith);
    assert((exact - 1) * size < total <= exact * size);
    if count < exact {
        assert(count * size <= (exact - 1) * size) by (nonlinear_arith)
            requires
                count <= exact - 1,
                0 < size,
        ;
    }
    if count > exact {
        assert(exact * size <= (count - 1) * size) by (nonlinear_arith)
            requires
                exact <= count - 1,
                0 < size,
        ;
    }
}

/// Whether bytes start with a manifest's fixed part: the version, empty flags, the object ID, the
/// object size in eight bytes, the chunk size and the chunk count in four each, the root, the
/// signer's fingerprint, and the length of the name.
pub open spec fn starts_with_header(bytes: Seq<u8>, header: ManifestHeader, name: nat) -> bool {
    &&& bytes.len() >= 147
    &&& bytes[0] == 1
    &&& bytes[1] == 0
    &&& bytes.subrange(2, 34) == header.object_id@
    &&& number_at(bytes, 34, 8) == header.object_size
    &&& number_at(bytes, 42, 4) == header.chunk_size
    &&& number_at(bytes, 46, 4) == header.chunk_count
    &&& bytes.subrange(50, 98) == header.merkle_root@
    &&& bytes.subrange(98, 146) == header.signer_identity_fingerprint@
    &&& bytes[146] == name
}

/// A signed manifest is its fixed part, the name, the 64 bytes of the Ed25519 signature and the
/// 3,309 bytes of the ML-DSA-65 signature, in this order.
pub proof fn lemma_signed_manifest_layout(
    header: ManifestHeader,
    name: &str,
    ed25519: &[u8],
    ml_dsa: &[u8],
    length: usize,
)
    ensures
        forall|output: &mut [u8]| #[trigger]
            call_ensures(
                ManifestHeader::encode_signed,
                (header, name, ed25519, ml_dsa, output),
                Ok(length),
            ) ==> {
                let after = final(output)@;
                let text = name.spec_bytes();
                let signed = 147 + text.len();
                &&& ed25519@.len() == 64
                &&& ml_dsa@.len() == 3_309
                &&& text.len() <= 255
                &&& length == 3_520 + text.len() <= output@.len()
                &&& starts_with_header(after, header, text.len())
                &&& after.subrange(147, signed as int) == text
                &&& after.subrange(signed as int, signed + 64int) == ed25519@
                &&& after.subrange(signed + 64int, length as int) == ml_dsa@
                &&& after.skip(length as int) == output@.skip(length as int)
            },
{
    assert forall|output: &mut [u8]| #[trigger]
        call_ensures(
            ManifestHeader::encode_signed,
            (header, name, ed25519, ml_dsa, output),
            Ok(length),
        ) implies {
        let after = final(output)@;
        let text = name.spec_bytes();
        let signed = 147 + text.len();
        &&& ed25519@.len() == 64
        &&& ml_dsa@.len() == 3_309
        &&& text.len() <= 255
        &&& length == 3_520 + text.len() <= output@.len()
        &&& starts_with_header(after, header, text.len())
        &&& after.subrange(147, signed as int) == text
        &&& after.subrange(signed as int, signed + 64int) == ed25519@
        &&& after.subrange(signed + 64int, length as int) == ml_dsa@
        &&& after.skip(length as int) == output@.skip(length as int)
    } by {
        lemma_signed_bytes(header, name.spec_bytes(), ed25519@, ml_dsa@, output@);
    }
}

proof fn lemma_signed_bytes(
    header: ManifestHeader,
    text: Seq<u8>,
    ed25519: Seq<u8>,
    ml_dsa: Seq<u8>,
    buffer: Seq<u8>,
)
    requires
        text.len() <= 255,
        ed25519.len() == 64,
        ml_dsa.len() == 3_309,
        buffer.len() >= 3_520 + text.len(),
    ensures
        ({
            let content = header.signed_encoding(text, ed25519, ml_dsa);
            let after = overwrite_prefix(buffer, content);
            let signed = 147 + text.len();
            let length = 3_520 + text.len();
            &&& content.len() == length
            &&& starts_with_header(after, header, text.len())
            &&& after.subrange(147, signed as int) == text
            &&& after.subrange(signed as int, signed + 64int) == ed25519
            &&& after.subrange(signed + 64int, length as int) == ml_dsa
            &&& after.skip(length as int) == buffer.skip(length as int)
        }),
{
    let content = header.signed_encoding(text, ed25519, ml_dsa);
    let after = overwrite_prefix(buffer, content);
    let signed = 147 + text.len();
    let length = 3_520 + text.len();
    let rest = text + ed25519 + ml_dsa + buffer.skip(length as int);
    lemma_prefix_parts(header, text.len(), rest);
    assert(after =~= header.prefix(text.len()) + rest);
    lemma_header_numbers(after, header);
    assert(after.subrange(147, signed as int) =~= text);
    assert(after.subrange(signed as int, signed + 64int) =~= ed25519);
    assert(after.subrange(signed + 64int, length as int) =~= ml_dsa);
    assert(after.skip(length as int) =~= buffer.skip(length as int));
}

proof fn lemma_header_numbers(bytes: Seq<u8>, header: ManifestHeader)
    requires
        Manifest::header_of(bytes, header),
    ensures
        number_at(bytes, 34, 8) == header.object_size,
        number_at(bytes, 42, 4) == header.chunk_size,
        number_at(bytes, 46, 4) == header.chunk_count,
{
    lemma_readers_read_numbers(bytes, 34);
    lemma_readers_read_numbers(bytes, 42);
    lemma_readers_read_numbers(bytes, 46);
}

/// The signed content is what precedes the signatures: the fixed part and the name, whether it is
/// written out or fed to a sink.
pub proof fn lemma_unsigned_content_layout<S: TranscriptSink>(
    header: ManifestHeader,
    name: &str,
    length: usize,
)
    ensures
        forall|output: &mut [u8]| #[trigger]
            call_ensures(ManifestHeader::encode_unsigned, (header, name, output), Ok(length)) ==> {
                let after = final(output)@;
                let text = name.spec_bytes();
                &&& text.len() <= 255
                &&& length == 147 + text.len() <= output@.len()
                &&& starts_with_header(after, header, text.len())
                &&& after.subrange(147, length as int) == text
                &&& after.skip(length as int) == output@.skip(length as int)
            },
        forall|sink: &mut S| #[trigger]
            call_ensures(ManifestHeader::feed_unsigned::<S>, (header, name, sink), Ok(())) ==> {
                let added = final(sink).fed().skip(sink.fed().len() as int);
                &&& final(sink).fed() == sink.fed() + added
                &&& starts_with_header(added, header, name.spec_bytes().len())
                &&& added.skip(147) == name.spec_bytes()
            },
{
    let text = name.spec_bytes();
    assert forall|output: &mut [u8]| #[trigger]
        call_ensures(ManifestHeader::encode_unsigned, (header, name, output), Ok(length)) implies {
        let after = final(output)@;
        &&& text.len() <= 255
        &&& length == 147 + text.len() <= output@.len()
        &&& starts_with_header(after, header, text.len())
        &&& after.subrange(147, length as int) == text
        &&& after.skip(length as int) == output@.skip(length as int)
    } by {
        let after = final(output)@;
        let rest = text + output@.skip(147 + text.len() as int);
        lemma_prefix_parts(header, text.len(), rest);
        assert(after =~= header.prefix(text.len()) + rest);
        lemma_header_numbers(after, header);
        assert(after.subrange(147, length as int) =~= text);
        assert(after.skip(length as int) =~= output@.skip(length as int));
    }
    assert forall|sink: &mut S| #[trigger]
        call_ensures(ManifestHeader::feed_unsigned::<S>, (header, name, sink), Ok(())) implies {
        let added = final(sink).fed().skip(sink.fed().len() as int);
        &&& final(sink).fed() == sink.fed() + added
        &&& starts_with_header(added, header, name.spec_bytes().len())
        &&& added.skip(147) == name.spec_bytes()
    } by {
        let added = final(sink).fed().skip(sink.fed().len() as int);
        lemma_prefix_parts(header, text.len(), text);
        assert(added =~= header.prefix(text.len()) + text);
        lemma_header_numbers(added, header);
        assert(added.skip(147) =~= text);
    }
}

/// A manifest is read from where it is written: the fixed part from the first 147 bytes, the name
/// behind it, and the signatures from the rest, which has exactly their length.
pub proof fn lemma_manifest_is_read_where_it_is_written(
    input: &[u8],
    manifest: Manifest<'_>,
)
    requires
        call_ensures(Manifest::decode, (input,), Ok(manifest)),
    ensures
        ({
            let text = manifest.display_name.spec_bytes();
            let signed = 147int + text.len();
            &&& input@.len() == 3_520 + text.len()
            &&& starts_with_header(input@, manifest.header, text.len())
            &&& input@.subrange(147, signed) == text
            &&& manifest.unsigned_content@ == input@.take(signed)
            &&& manifest.ed25519_signature@ == input@.subrange(signed, signed + 64)
            &&& manifest.ml_dsa_65_signature@ == input@.skip(signed + 64)
        }),
{
    let text = manifest.display_name.spec_bytes();
    let signed = 147int + text.len();
    lemma_signed_parts(manifest);
    lemma_header_numbers(input@, manifest.header);
    lemma_prefix_parts(manifest.header, text.len(), text);
    assert(manifest.unsigned_content@ =~= input@.take(signed));
}

/// A manifest fragment is the object slot in four bytes, the manifest's length and the fragment's
/// offset in two each, and the fragment. It is not empty and lies within the manifest, whose
/// length is one that a signed manifest can have.
pub proof fn lemma_fragment_layout(
    fragment: ManifestFragment<'_>,
    written: Result<usize, ManifestError>,
)
    ensures
        forall|output: &mut [u8]| #[trigger]
            call_ensures(ManifestFragment::encode, (fragment, output), written) ==> {
                let after = final(output)@;
                let end = 8 + fragment.fragment@.len();
                &&& written is Ok <==> {
                    &&& 3_520 <= fragment.manifest_length <= 3_775
                    &&& 0 < fragment.fragment@.len()
                    &&& fragment.fragment_offset + fragment.fragment@.len()
                        <= fragment.manifest_length
                    &&& end <= output@.len()
                }
                &&& written is Err ==> after == output@
                &&& written matches Ok(length) ==> {
                    &&& length == end
                    &&& number_at(after, 0, 4) == fragment.object_slot
                    &&& number_at(after, 4, 2) == fragment.manifest_length
                    &&& number_at(after, 6, 2) == fragment.fragment_offset
                    &&& after.subrange(8, end as int) == fragment.fragment@
                    &&& after.skip(end as int) == output@.skip(end as int)
                }
            },
{
    assert forall|output: &mut [u8]| #[trigger]
        call_ensures(ManifestFragment::encode, (fragment, output), written)
            && written is Ok implies {
        let after = final(output)@;
        let end = 8 + fragment.fragment@.len();
        &&& number_at(after, 0, 4) == fragment.object_slot
        &&& number_at(after, 4, 2) == fragment.manifest_length
        &&& number_at(after, 6, 2) == fragment.fragment_offset
        &&& after.subrange(8, end as int) == fragment.fragment@
        &&& after.skip(end as int) == output@.skip(end as int)
    } by {
        lemma_fragment_bytes(fragment, output@);
    }
}

proof fn lemma_fragment_bytes(fragment: ManifestFragment<'_>, buffer: Seq<u8>)
    requires
        buffer.len() >= 8 + fragment.fragment@.len(),
    ensures
        ({
            let after = overwrite_prefix(buffer, fragment.encoding());
            let end = 8 + fragment.fragment@.len();
            &&& number_at(after, 0, 4) == fragment.object_slot
            &&& number_at(after, 4, 2) == fragment.manifest_length
            &&& number_at(after, 6, 2) == fragment.fragment_offset
            &&& after.subrange(8, end as int) == fragment.fragment@
            &&& after.skip(end as int) == buffer.skip(end as int)
        }),
{
    let after = overwrite_prefix(buffer, fragment.encoding());
    let end = 8 + fragment.fragment@.len();
    assert(after.subrange(0, 4) =~= be32(fragment.object_slot));
    assert(after.subrange(4, 6) =~= be16(fragment.manifest_length));
    assert(after.subrange(6, 8) =~= be16(fragment.fragment_offset));
    lemma_spells32(after, 0, fragment.object_slot);
    lemma_spells16(after, 4, fragment.manifest_length);
    lemma_spells16(after, 6, fragment.fragment_offset);
    assert(after.subrange(8, end as int) =~= fragment.fragment@);
    assert(after.skip(end as int) =~= buffer.skip(end as int));
}

/// A manifest fragment is accepted exactly if it could have been written, and each field is read
/// from where it is written.
pub proof fn lemma_fragment_is_read_where_it_is_written(
    input: &[u8],
    decoded: Result<ManifestFragment<'_>, ManifestError>,
)
    requires
        call_ensures(ManifestFragment::decode, (input,), decoded),
    ensures
        decoded is Ok <==> {
            &&& input@.len() > 8
            &&& 3_520 <= number_at(input@, 4, 2) <= 3_775
            &&& number_at(input@, 6, 2) + input@.len() - 8 <= number_at(input@, 4, 2)
        },
        decoded matches Ok(fragment) ==> {
            &&& fragment.object_slot == number_at(input@, 0, 4)
            &&& fragment.manifest_length == number_at(input@, 4, 2)
            &&& fragment.fragment_offset == number_at(input@, 6, 2)
            &&& fragment.fragment@ == input@.skip(8)
        },
{
    lemma_readers_read_numbers(input@, 4);
    lemma_readers_read_numbers(input@, 6);
    if decoded is Ok {
        let fragment = decoded->Ok_0;
        assert(overwrite_prefix(input@, fragment.encoding()) =~= input@);
        lemma_fragment_bytes(fragment, input@);
        assert(input@.skip(8) =~= fragment.fragment@);
    }
}

/// What is signed for a manifest is 64 spaces, the label, a zero byte, and the hash of its content.
/// A leaf hashes its label, the object, the chunk's index and length in four bytes each, and the
/// chunk. A node hashes its label, its level in four bytes, and its left and right child. The root
/// of an empty object hashes its label and the object.
pub proof fn lemma_hashed_inputs<S: TranscriptSink>(
    content_hash: &[u8; 48],
    object_id: &[u8; 32],
    index: u32,
    chunk: &[u8],
    level: u32,
    left: &[u8; 48],
    right: &[u8; 48],
)
    ensures
        forall|sink: &mut S| #[trigger]
            call_ensures(feed_manifest_signature_input::<S>, (sink, content_hash), ()) ==> {
                let spaces = Seq::new(64, |i: int| 32u8);
                final(sink).fed() == sink.fed() + (spaces + "OGTP/1 object manifest".spec_bytes()
                    + seq![0u8] + content_hash@)
            },
        forall|sink: &mut S| #[trigger]
            call_ensures(feed_chunk_leaf_input::<S>, (sink, object_id, index, chunk), Ok(())) ==> {
                &&& chunk@.len() <= 0xffff_ffff
                &&& final(sink).fed() == sink.fed() + ("OGTP/1 chunk\0".spec_bytes() + object_id@
                    + be32(index) + be32(chunk@.len() as u32) + chunk@)
            },
        forall|sink: &mut S| #[trigger]
            call_ensures(feed_merkle_node_input::<S>, (sink, level, left, right), ()) ==> {
                let node = "OGTP/1 node\0".spec_bytes() + be32(level) + left@ + right@;
                final(sink).fed() == sink.fed() + node
            },
        forall|sink: &mut S| #[trigger]
            call_ensures(feed_empty_root_input::<S>, (sink, object_id), ()) ==> final(sink).fed()
                == sink.fed() + ("OGTP/1 empty\0".spec_bytes() + object_id@),
{
    assert(crate::transcript::signature_padding() =~= Seq::new(64, |i: int| 32u8));
}

/// Chunks tile the object: every chunk but the last is full, the last one ends with the object, and
/// there is no chunk behind it. Its digest is of its own index and bytes.
pub proof fn lemma_chunks_tile_the_object<P: Sha384Provider>(
    reducer: &MerkleReducer,
    provider: &P,
    index: u32,
    chunk: &[u8],
    hashed: Result<HashedChunk, MerkleError<P::Error>>,
)
    requires
        reducer.header.field_failure() is None,
        call_ensures(MerkleReducer::hash_chunk::<P>, (reducer, provider, index, chunk), hashed),
    ensures
        ({
            let header = reducer.header;
            let last = header.chunk_count - 1;
            let size = header.chunk_size;
            let fitting = {
                ||| index < last && chunk@.len() == size
                ||| index == last && index * size + chunk@.len() == header.object_size
            };
            &&& hashed is Ok ==> fitting
            &&& !fitting ==> (hashed matches Err(error) && !(error is Provider))
            &&& fitting ==> (hashed matches Err(error) ==> error is Provider)
            &&& hashed matches Ok(found) ==> {
                &&& found.object_id@ == header.object_id@
                &&& found.chunk_index == index
                &&& found.chunk_length == chunk@.len()
                &&& found.digest@ == provider.sha384(
                    "OGTP/1 chunk\0".spec_bytes() + header.object_id@ + be32(index) + be32(
                        chunk@.len() as u32,
                    ) + chunk@,
                )@
            }
        }),
{
    let header = reducer.header;
    let size = header.chunk_size as int;
    let count = header.chunk_count as int;
    lemma_count_covers(header.object_size as int, size, count);
    assert(index * size + size == (index + 1) * size) by (nonlinear_arith);
    if index + 1 < count {
        assert((index + 1) * size <= (count - 1) * size) by (nonlinear_arith)
            requires
                index + 1 <= count - 1,
                size > 0,
        ;
    }
    if index + 1 == count {
        assert((index + 1) * size == count * size);
        assert(index * size == (count - 1) * size);
    }
}

/// Chunks are taken in order: only the next one of the object is accepted, with its own length, and
/// the reducer moves on by one.
pub proof fn lemma_chunks_are_taken_in_order<P: Sha384Provider>(
    provider: &P,
    hashed: HashedChunk,
    status: Result<MerklePushStatus, MerkleError<P::Error>>,
)
    ensures
        forall|reducer: &mut MerkleReducer|
            reducer.well_formed() && #[trigger] call_ensures(
                MerkleReducer::push_hashed_chunk::<P>,
                (reducer, provider, hashed),
                status,
            ) ==> {
                let before = *reducer;
                let after = *final(reducer);
                &&& status is Err ==> after == before
                &&& status matches Ok(pushed) ==> {
                    &&& hashed.object_id@ == before.header.object_id@
                    &&& hashed.chunk_index == before.received_chunks
                    &&& before.received_chunks < before.header.chunk_count
                    &&& after.header == before.header
                    &&& after.received_chunks == before.received_chunks + 1
                    &&& pushed.chunk_index == hashed.chunk_index
                    &&& pushed.received_chunks == after.received_chunks
                    &&& pushed.expected_chunks == before.header.chunk_count
                }
            },
{
}

/// The root of a single leaf is that leaf, and the root of none is the hash of the empty object.
pub proof fn lemma_small_trees(hash: HashFunction, object_id: Seq<u8>, leaf: Seq<u8>)
    ensures
        tree_root(hash, object_id, Seq::empty()) == hash(
            "OGTP/1 empty\0".spec_bytes() + object_id,
        ),
        tree_root(hash, object_id, seq![leaf]) == leaf,
{
}

/// A level with an odd number of nodes, more than one, has the root that it has with its last node
/// repeated.
pub proof fn lemma_odd_level_repeats_its_last_node(
    hash: HashFunction,
    level: nat,
    nodes: Seq<Seq<u8>>,
)
    requires
        nodes.len() > 1,
        nodes.len() % 2 == 1,
    ensures
        level_root(hash, level, nodes) == level_root(hash, level, nodes.push(nodes.last())),
{
    let even = nodes.push(nodes.last());
    assert(combined(hash, level + 1, nodes) =~= combined(hash, level + 1, even));
}

/// A level with an even number of nodes has the root of the level above, whose nodes hash that
/// level's number and two neighbours each.
pub proof fn lemma_even_level_pairs_its_nodes(
    hash: HashFunction,
    level: nat,
    nodes: Seq<Seq<u8>>,
    above: Seq<Seq<u8>>,
)
    requires
        nodes.len() > 0,
        nodes.len() == 2 * above.len(),
        level < 32,
        forall|i: int|
            0 <= i < above.len() ==> #[trigger] above[i] == hash(
                "OGTP/1 node\0".spec_bytes() + be32((level + 1) as u32) + nodes[2 * i] + nodes[2
                    * i + 1],
            ),
    ensures
        level_root(hash, level, nodes) == level_root(hash, level + 1, above),
{
    assert(combined(hash, level + 1, nodes) =~= above);
}

/// A reducer stands for the leaves that it has taken: a new one for none, and each accepted chunk
/// adds its digest as the last leaf. Its root is the root of the tree over them, and it agrees with
/// the manifest exactly if that root is the manifest's.
pub proof fn lemma_reducer_roots_its_leaves<P: Sha384Provider>(
    provider: &P,
    header: ManifestHeader,
    fresh: MerkleReducer,
    reducer: &MerkleReducer,
    leaves: Seq<Seq<u8>>,
    root: MerkleHash,
    verdict: Result<(), MerkleError<P::Error>>,
)
    requires
        call_ensures(MerkleReducer::new, (header,), Ok(fresh)),
        reducer.well_formed(),
        reducer.received_chunks == leaves.len(),
        reduces(provider_hash(provider), roots(reducer.subtrees@), leaves),
        call_ensures(MerkleReducer::computed_root::<P>, (reducer, provider), Ok(root)),
        call_ensures(MerkleReducer::verify_manifest_root::<P>, (reducer, provider), verdict),
    ensures
        fresh.header == header && fresh.received_chunks == 0,
        reduces(provider_hash(provider), roots(fresh.subtrees@), Seq::empty()),
        reducer.header.chunk_count == leaves.len(),
        root@ == tree_root(provider_hash(provider), reducer.header.object_id@, leaves),
        verdict is Ok ==> root@ == reducer.header.merkle_root@,
        verdict matches Err(error) ==> error is Provider || (error is RootMismatch && root@
            != reducer.header.merkle_root@),
{
    let hash = provider_hash(provider);
    crate::merkle::lemma_empty_reduction(hash, roots(fresh.subtrees@));
    if leaves.len() > 0 {
        crate::merkle::lemma_streamed_root_is_canonical(
            hash,
            roots(reducer.subtrees@),
            leaves,
            reducer.header.object_id@,
        );
    }
}

/// A root is compared with the manifest's, and an object is complete with its last chunk.
pub proof fn lemma_roots_are_compared<E>(
    reducer: &MerkleReducer,
    actual: &MerkleHash,
    outcome: Result<(), MerkleError<E>>,
    complete: bool,
)
    requires
        call_ensures(MerkleReducer::compare_root::<E>, (reducer, actual), outcome),
        call_ensures(MerkleReducer::is_complete, (reducer,), complete),
    ensures
        outcome is Ok <==> actual@ == reducer.header.merkle_root@,
        outcome matches Err(error) ==> error is RootMismatch,
        complete <==> reducer.received_chunks == reducer.header.chunk_count,
{
}

/// An accepted chunk becomes the last leaf of the tree.
pub proof fn lemma_accepted_chunk_is_the_last_leaf<P: Sha384Provider>(
    provider: &P,
    index: u32,
    chunk: &[u8],
    leaves: Seq<Seq<u8>>,
    status: MerklePushStatus,
)
    ensures
        forall|reducer: &mut MerkleReducer|
            reducer.well_formed() && reducer.received_chunks == leaves.len() && reduces(
                provider_hash(provider),
                roots(reducer.subtrees@),
                leaves,
            ) && #[trigger] call_ensures(
                MerkleReducer::push_chunk::<P>,
                (reducer, provider, index, chunk),
                Ok(status),
            ) ==> {
                let leaf = provider.sha384(
                    "OGTP/1 chunk\0".spec_bytes() + reducer.header.object_id@ + be32(index) + be32(
                        chunk@.len() as u32,
                    ) + chunk@,
                )@;
                let after = *final(reducer);
                &&& index == leaves.len()
                &&& after.header == reducer.header
                &&& after.received_chunks == leaves.len() + 1
                &&& reduces(provider_hash(provider), roots(after.subtrees@), leaves.push(leaf))
            },
{
    assert forall|reducer: &mut MerkleReducer|
        reducer.well_formed() && reducer.received_chunks == leaves.len() && reduces(
            provider_hash(provider),
            roots(reducer.subtrees@),
            leaves,
        ) && #[trigger] call_ensures(
            MerkleReducer::push_chunk::<P>,
            (reducer, provider, index, chunk),
            Ok(status),
        ) implies {
        let leaf = provider.sha384(
            "OGTP/1 chunk\0".spec_bytes() + reducer.header.object_id@ + be32(index) + be32(
                chunk@.len() as u32,
            ) + chunk@,
        )@;
        reduces(provider_hash(provider), roots(final(reducer).subtrees@), leaves.push(leaf))
    } by {
        let leaf = provider.sha384(
            "OGTP/1 chunk\0".spec_bytes() + reducer.header.object_id@ + be32(index) + be32(
                chunk@.len() as u32,
            ) + chunk@,
        )@;
        crate::merkle::lemma_leaf_extends_reduction(
            provider_hash(provider),
            roots(reducer.subtrees@),
            leaves,
            leaf,
        );
    }
}

/// Whether a name may be displayed: at most 255 bytes, without control characters and without
/// slashes of either kind.
pub open spec fn is_displayable(name: &str) -> bool {
    &&& name.spec_bytes().len() <= 255
    &&& forall|i: int|
        0 <= i < name@.len() ==> {
            let character = #[trigger] name@[i];
            &&& character as u32 >= 0x20
            &&& character != '/'
            &&& character != '\\'
            &&& character as u32 <= 0x7e || character as u32 >= 0xa0
        }
}

/// A manifest is written exactly if its header is valid, its name may be displayed and the output
/// holds it.
pub proof fn lemma_written_manifests_are_valid(
    header: ManifestHeader,
    outcome: Result<(), ManifestError>,
    name: &str,
    written: Result<usize, ManifestError>,
)
    requires
        call_ensures(ManifestHeader::validate, (header,), outcome),
    ensures
        forall|output: &mut [u8]| #[trigger]
            call_ensures(ManifestHeader::encode_unsigned, (header, name, output), written) ==> {
                &&& written is Ok <==> outcome is Ok && is_displayable(name) && 147
                    + name.spec_bytes().len() <= output@.len()
                &&& written is Err ==> final(output)@ == output@
                &&& outcome matches Err(error) ==> written == Err::<usize, ManifestError>(error)
                &&& outcome is Ok && !is_displayable(name) ==> written == Err::<
                    usize,
                    ManifestError,
                >(ManifestError::InvalidDisplayName)
            },
{
    assert forall|i: int| 0 <= i < name@.len() implies !crate::manifest::forbidden_in_name(
        #[trigger] name@[i],
    ) == {
        let character = name@[i];
        &&& character as u32 >= 0x20
        &&& character != '/'
        &&& character != '\\'
        &&& character as u32 <= 0x7e || character as u32 >= 0xa0
    } by {}
}

} // verus!
