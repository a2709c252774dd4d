use ogtp::crypto::Sha384Provider;
use ogtp::handshake::IDENTITY_FINGERPRINT_LEN;
use ogtp::manifest::{
    ManifestError, MERKLE_ROOT_LEN, MIN_CHUNK_SIZE, ManifestHeader, OBJECT_ID_LEN,
    feed_chunk_leaf_input, feed_empty_root_input, feed_merkle_node_input,
};
use ogtp::merkle::{HashedChunk, MerkleError, MerkleHash, MerkleReducer};
use ogtp::transcript::TranscriptSink;
use core::cell::Cell;
use core::convert::Infallible;

use sha2::{Digest, Sha384};

struct Sha384Context(Sha384);

impl TranscriptSink for Sha384Context {
    fn update(&mut self, bytes: &[u8]) {
        self.0.update(bytes);
    }
}

struct RustCryptoSha384;

impl Sha384Provider for RustCryptoSha384 {
    type Context = Sha384Context;
    type Error = Infallible;

    fn start_sha384(&self) -> Result<Self::Context, Self::Error> {
        Ok(Sha384Context(Sha384::new()))
    }

    fn finish_sha384(&self, context: Self::Context) -> Result<MerkleHash, Self::Error> {
        Ok(context.0.finalize().into())
    }
}

struct FailingSha384 {
    remaining_finishes: Cell<usize>,
}

impl Sha384Provider for FailingSha384 {
    type Context = Sha384Context;
    type Error = &'static str;

    fn start_sha384(&self) -> Result<Self::Context, Self::Error> {
        Ok(Sha384Context(Sha384::new()))
    }

    fn finish_sha384(&self, context: Self::Context) -> Result<MerkleHash, Self::Error> {
        let remaining = self.remaining_finishes.get();
        if remaining == 0 {
            return Err("injected failure");
        }
        self.remaining_finishes.set(remaining - 1);
        Ok(context.0.finalize().into())
    }
}

fn header(object_id_byte: u8, object_size: u64, root: MerkleHash) -> ManifestHeader {
    let chunk_count = if object_size == 0 {
        0
    } else {
        u32::try_from((object_size - 1) / u64::from(MIN_CHUNK_SIZE) + 1)
            .expect("small test object")
    };
    ManifestHeader {
        object_id: [object_id_byte; OBJECT_ID_LEN],
        object_size,
        chunk_size: MIN_CHUNK_SIZE,
        chunk_count,
        merkle_root: root,
        signer_identity_fingerprint: [0x33; IDENTITY_FINGERPRINT_LEN],
    }
}

fn object_chunks(chunk_count: usize) -> Vec<Vec<u8>> {
    (0..chunk_count)
        .map(|chunk_index| {
            let length = if chunk_index + 1 == chunk_count {
                123
            } else {
                usize::try_from(MIN_CHUNK_SIZE).expect("chunk size fits")
            };
            (0..length)
                .map(|offset| {
                    u8::try_from((chunk_index * 17 + offset * 31 + 7) & 0xff)
                        .expect("masked byte fits")
                })
                .collect()
        })
        .collect()
}

fn object_size(chunks: &[Vec<u8>]) -> u64 {
    chunks
        .iter()
        .map(|chunk| u64::try_from(chunk.len()).expect("test chunk fits"))
        .sum()
}

fn reference_root(object_id: &[u8; OBJECT_ID_LEN], chunks: &[Vec<u8>]) -> MerkleHash {
    let provider = RustCryptoSha384;
    if chunks.is_empty() {
        let mut context = provider.start_sha384().expect("infallible provider");
        feed_empty_root_input(&mut context, object_id);
        return provider
            .finish_sha384(context)
            .expect("infallible provider");
    }

    let mut nodes = chunks
        .iter()
        .enumerate()
        .map(|(index, chunk)| {
            let mut context = provider.start_sha384().expect("infallible provider");
            feed_chunk_leaf_input(
                &mut context,
                object_id,
                u32::try_from(index).expect("test index fits"),
                chunk,
            )
            .expect("test chunk length fits");
            provider
                .finish_sha384(context)
                .expect("infallible provider")
        })
        .collect::<Vec<_>>();
    let mut level = 1_u32;
    while nodes.len() > 1 {
        if nodes.len() % 2 != 0 {
            nodes.push(*nodes.last().expect("non-empty level"));
        }
        nodes = nodes
            .chunks_exact(2)
            .map(|pair| {
                let mut context = provider.start_sha384().expect("infallible provider");
                feed_merkle_node_input(&mut context, level, &pair[0], &pair[1]);
                provider
                    .finish_sha384(context)
                    .expect("infallible provider")
            })
            .collect();
        level += 1;
    }
    nodes[0]
}

#[test]
fn streaming_roots_match_level_materialization_for_irregular_trees() {
    let provider = RustCryptoSha384;
    for chunk_count in [0, 1, 2, 3, 5, 6, 7, 8, 9] {
        let chunks = object_chunks(chunk_count);
        let mut manifest = header(0x11, object_size(&chunks), [0x55; MERKLE_ROOT_LEN]);
        manifest.merkle_root = reference_root(&manifest.object_id, &chunks);
        let mut reducer = MerkleReducer::new(manifest).expect("geometry is valid");
        for (index, chunk) in chunks.iter().enumerate() {
            let status = reducer
                .push_chunk(
                    &provider,
                    u32::try_from(index).expect("test index fits"),
                    chunk,
                )
                .expect("chunk reduces");
            assert_eq!(
                status.received_chunks,
                u32::try_from(index + 1).expect("test count fits")
            );
        }
        assert!(reducer.is_complete());
        assert_eq!(
            reducer
                .computed_root(&provider)
                .expect("complete root computes"),
            manifest.merkle_root
        );
        reducer
            .verify_manifest_root(&provider)
            .expect("signed root matches");
    }
}

#[test]
fn chunks_may_hash_out_of_order_but_reduce_only_in_order() {
    let provider = RustCryptoSha384;
    let chunks = object_chunks(7);
    let mut manifest = header(0x22, object_size(&chunks), [0x55; MERKLE_ROOT_LEN]);
    manifest.merkle_root = reference_root(&manifest.object_id, &chunks);
    let mut reducer = MerkleReducer::new(manifest).expect("geometry is valid");

    let mut hashed = chunks
        .iter()
        .enumerate()
        .rev()
        .map(|(index, chunk)| {
            reducer
                .hash_chunk(
                    &provider,
                    u32::try_from(index).expect("test index fits"),
                    chunk,
                )
                .expect("out-of-order hashing is valid")
        })
        .collect::<Vec<_>>();
    assert_eq!(reducer.received_chunks(), 0);
    assert_eq!(hashed[0].chunk_index(), 6);
    hashed.reverse();
    for leaf in hashed {
        reducer
            .push_hashed_chunk(&provider, leaf)
            .expect("ordered leaf reduces");
    }
    reducer
        .verify_manifest_root(&provider)
        .expect("root matches");
}

#[test]
fn geometry_order_completion_and_root_mismatch_fail_closed() {
    let provider = RustCryptoSha384;
    let chunks = object_chunks(2);
    let root = reference_root(&[0x44; OBJECT_ID_LEN], &chunks);
    let manifest = header(0x44, object_size(&chunks), root);
    let mut reducer = MerkleReducer::new(manifest).expect("geometry is valid");

    assert_eq!(
        reducer.computed_root(&provider),
        Err(MerkleError::Incomplete {
            expected: 2,
            received: 0,
        })
    );
    assert_eq!(
        reducer.push_chunk(&provider, 1, &chunks[1]),
        Err(MerkleError::ChunkIndexMismatch {
            expected: 0,
            actual: 1,
        })
    );
    assert_eq!(reducer.received_chunks(), 0);
    assert_eq!(
        reducer.push_chunk(&provider, 0, &chunks[0][..chunks[0].len() - 1]),
        Err(MerkleError::ChunkLengthMismatch {
            chunk_index: 0,
            expected: MIN_CHUNK_SIZE,
            actual: chunks[0].len() - 1,
        })
    );
    assert_eq!(reducer.received_chunks(), 0);
    for (index, chunk) in chunks.iter().enumerate() {
        reducer
            .push_chunk(
                &provider,
                u32::try_from(index).expect("test index fits"),
                chunk,
            )
            .expect("valid chunk reduces");
    }

    let mut wrong_manifest = manifest;
    wrong_manifest.merkle_root = [0xaa; MERKLE_ROOT_LEN];
    let mut wrong = MerkleReducer::new(wrong_manifest).expect("geometry is valid");
    for (index, chunk) in chunks.iter().enumerate() {
        wrong
            .push_chunk(
                &provider,
                u32::try_from(index).expect("test index fits"),
                chunk,
            )
            .expect("valid chunk reduces");
    }
    assert!(matches!(
        wrong.verify_manifest_root(&provider),
        Err(MerkleError::RootMismatch)
    ));
}

#[test]
fn provider_failure_during_carry_does_not_advance_state() {
    let chunks = object_chunks(2);
    let manifest = header(0x66, object_size(&chunks), [0x55; MERKLE_ROOT_LEN]);
    let mut reducer = MerkleReducer::new(manifest).expect("geometry is valid");
    let failing = FailingSha384 {
        remaining_finishes: Cell::new(2),
    };

    reducer
        .push_chunk(&failing, 0, &chunks[0])
        .expect("first leaf consumes one hash");
    assert_eq!(
        reducer.push_chunk(&failing, 1, &chunks[1]),
        Err(MerkleError::Provider("injected failure"))
    );
    assert_eq!(reducer.received_chunks(), 1);

    reducer
        .push_chunk(&RustCryptoSha384, 1, &chunks[1])
        .expect("retry from unchanged state succeeds");
    assert_eq!(reducer.received_chunks(), 2);
}

#[test]
fn hashed_chunk_is_bound_to_its_object() {
    let provider = RustCryptoSha384;
    let chunks = object_chunks(1);
    let first = MerkleReducer::new(header(0x77, object_size(&chunks), [0x55; MERKLE_ROOT_LEN]))
        .expect("geometry is valid");
    let leaf = first
        .hash_chunk(&provider, 0, &chunks[0])
        .expect("leaf hashes");
    let mut second =
        MerkleReducer::new(header(0x88, object_size(&chunks), [0x55; MERKLE_ROOT_LEN]))
            .expect("geometry is valid");
    assert_eq!(
        second.push_hashed_chunk(&provider, leaf),
        Err(MerkleError::HashedChunkObjectMismatch)
    );
    assert_eq!(second.received_chunks(), 0);
}

#[test]
fn deepest_representable_carry_is_bounded_and_transactional() {
    let manifest = ManifestHeader {
        object_id: [0x99; OBJECT_ID_LEN],
        object_size: u64::from(u32::MAX) * u64::from(MIN_CHUNK_SIZE),
        chunk_size: MIN_CHUNK_SIZE,
        chunk_count: u32::MAX,
        merkle_root: [0x55; MERKLE_ROOT_LEN],
        signer_identity_fingerprint: [0x33; IDENTITY_FINGERPRINT_LEN],
    };
    let mut reducer = MerkleReducer::new(manifest).expect("maximum geometry is valid");
    reducer.received_chunks = (1_u32 << 31) - 1;
    reducer.occupied_levels = reducer.received_chunks;
    for (level, subtree) in reducer.subtrees.iter_mut().enumerate().take(31) {
        subtree.fill(u8::try_from(level + 1).expect("level fits"));
    }
    let before_subtrees = reducer.subtrees;
    let leaf = HashedChunk {
        object_id: manifest.object_id,
        chunk_index: reducer.received_chunks,
        chunk_length: MIN_CHUNK_SIZE,
        digest: [0xaa; MERKLE_ROOT_LEN],
    };
    let failing = FailingSha384 {
        remaining_finishes: Cell::new(30),
    };

    assert_eq!(
        reducer.push_hashed_chunk(&failing, leaf),
        Err(MerkleError::Provider("injected failure"))
    );
    assert_eq!(reducer.received_chunks, (1_u32 << 31) - 1);
    assert_eq!(reducer.occupied_levels, (1_u32 << 31) - 1);
    assert_eq!(reducer.subtrees, before_subtrees);

    reducer
        .push_hashed_chunk(&RustCryptoSha384, leaf)
        .expect("31-level carry succeeds");
    assert_eq!(reducer.received_chunks, 1_u32 << 31);
    assert_eq!(reducer.occupied_levels, 1_u32 << 31);
}

#[test]
fn objects_accept_no_chunk_beyond_their_geometry() {
    let provider = RustCryptoSha384;
    let chunks = object_chunks(1);
    let mut reducer = MerkleReducer::new(header(0x10, object_size(&chunks), [0x55; 48]))
        .expect("geometry is valid");
    assert_eq!(reducer.expected_chunks(), 1);
    let status = reducer
        .push_chunk(&provider, 0, &chunks[0])
        .expect("chunk reduces");
    assert_eq!(status.chunk_index, 0);
    assert_eq!(status.expected_chunks, 1);
    assert_eq!(
        reducer.push_chunk(&provider, 1, &chunks[0]),
        Err(MerkleError::ChunkIndexOutsideObject {
            index: 1,
            chunk_count: 1,
        })
    );
    assert_eq!(
        reducer.hash_chunk(&provider, 7, &chunks[0]).err(),
        Some(MerkleError::ChunkIndexOutsideObject {
            index: 7,
            chunk_count: 1,
        })
    );
}

#[test]
fn manifests_with_invalid_fields_start_no_reduction() {
    let mut manifest = header(0x10, 1, [0x55; MERKLE_ROOT_LEN]);
    manifest.chunk_count = 2;
    assert_eq!(
        MerkleReducer::new(manifest).err(),
        Some(ManifestError::InvalidChunkCount {
            expected: 1,
            actual: 2,
        })
    );
}

#[test]
fn roots_are_compared_byte_for_byte() {
    let reducer =
        MerkleReducer::new(header(0x10, 0, [0x55; MERKLE_ROOT_LEN])).expect("geometry is valid");
    assert_eq!(
        reducer.compare_root::<()>(&[0x55; MERKLE_ROOT_LEN]),
        Ok(())
    );
    let mut other = [0x55; MERKLE_ROOT_LEN];
    other[47] ^= 1;
    assert_eq!(
        reducer.compare_root::<()>(&other),
        Err(MerkleError::RootMismatch)
    );
    assert_eq!(
        MerkleError::Provider(()).message("unavailable"),
        "SHA-384 provider failure: unavailable"
    );
}

#[test]
fn diagnostics_show_progress_and_no_digest() {
    let provider = RustCryptoSha384;
    let chunks = object_chunks(5);
    let mut reducer = MerkleReducer::new(header(0x10, object_size(&chunks), [0x55; 48]))
        .expect("geometry is valid");
    for (index, chunk) in chunks.iter().enumerate().take(3) {
        reducer
            .push_chunk(
                &provider,
                u32::try_from(index).expect("test index fits"),
                chunk,
            )
            .expect("chunk reduces");
    }
    assert_eq!(
        reducer.debug_text(),
        "MerkleReducer { received_chunks: 3, expected_chunks: 5, occupied_levels: 2, .. }"
    );
    let hashed = reducer
        .hash_chunk(&provider, 4, &chunks[4])
        .expect("leaf hashes");
    assert_eq!(
        hashed.debug_text(),
        "HashedChunk { chunk_index: 4, chunk_length: 123, .. }"
    );
}
