use ogtp::handshake::{ED25519_SIGNATURE_LEN, IDENTITY_FINGERPRINT_LEN, ML_DSA_65_SIGNATURE_LEN};
use ogtp::manifest::{
    MANIFEST_FORMAT_VERSION, MANIFEST_FRAGMENT_FIXED_LEN, MANIFEST_SIGNATURE_CONTEXT,
    MANIFEST_UNSIGNED_FIXED_LEN, MAX_CHUNK_SIZE, MAX_DISPLAY_NAME_LEN,
    MAX_SIGNED_MANIFEST_LEN, MERKLE_EMPTY_CONTEXT, MERKLE_LEAF_CONTEXT, MERKLE_NODE_CONTEXT,
    MERKLE_ROOT_LEN, MIN_CHUNK_SIZE, MIN_SIGNED_MANIFEST_LEN, Manifest, ManifestError,
    ManifestFragment, ManifestHeader, OBJECT_ID_LEN, feed_chunk_leaf_input,
    feed_empty_root_input, feed_manifest_signature_input, feed_merkle_node_input,
};
use ogtp::transcript::{SIGNATURE_CONTEXT_PREFIX_LEN, TranscriptSink};
use ogtp::wire::WireError;

const FLAGS_OFFSET: usize = 1;
const DISPLAY_NAME_LENGTH_OFFSET: usize = 146;

#[derive(Default)]
struct Recorder(Vec<u8>);

impl TranscriptSink for Recorder {
    fn update(&mut self, bytes: &[u8]) {
        self.0.extend_from_slice(bytes);
    }
}

fn header() -> ManifestHeader {
    let mut object_id = [0_u8; OBJECT_ID_LEN];
    for (index, byte) in object_id.iter_mut().enumerate() {
        *byte = u8::try_from(index).expect("object ID index fits");
    }
    ManifestHeader {
        object_id,
        object_size: u64::from(MIN_CHUNK_SIZE) * 4 + 123,
        chunk_size: MIN_CHUNK_SIZE,
        chunk_count: 5,
        merkle_root: [0xa5; MERKLE_ROOT_LEN],
        signer_identity_fingerprint: [0x5a; IDENTITY_FINGERPRINT_LEN],
    }
}

#[test]
fn signed_manifest_round_trip_borrows_large_signatures() {
    let header = header();
    let name = "archive.bin";
    let ed25519 = [0xed; ED25519_SIGNATURE_LEN];
    let ml_dsa = [0xda; ML_DSA_65_SIGNATURE_LEN];
    let mut encoded = [0_u8; MAX_SIGNED_MANIFEST_LEN];
    let written = header
        .encode_signed(name, &ed25519, &ml_dsa, &mut encoded)
        .expect("valid manifest encodes");

    assert_eq!(written, MIN_SIGNED_MANIFEST_LEN + name.len());
    assert_eq!(encoded[0], MANIFEST_FORMAT_VERSION);
    assert_eq!(encoded[FLAGS_OFFSET], 0);
    assert_eq!(encoded[DISPLAY_NAME_LENGTH_OFFSET], 11);
    let decoded = Manifest::decode(&encoded[..written]).expect("manifest decodes");
    assert_eq!(decoded.header, header);
    assert_eq!(decoded.display_name, name);
    assert_eq!(decoded.unsigned_content().len(), 158);
    assert_eq!(decoded.ed25519_signature(), ed25519);
    assert_eq!(decoded.ml_dsa_65_signature(), ml_dsa);
}

#[test]
fn streaming_unsigned_content_matches_encoding() {
    let mut encoded = [0_u8; MANIFEST_UNSIGNED_FIXED_LEN + MAX_DISPLAY_NAME_LEN];
    let written = header()
        .encode_unsigned("résumé.bin", &mut encoded)
        .expect("UTF-8 display name encodes");
    let mut recorder = Recorder::default();
    header()
        .feed_unsigned("résumé.bin", &mut recorder)
        .expect("unsigned content streams");
    assert_eq!(recorder.0, encoded[..written]);
}

#[test]
fn empty_object_geometry_is_valid() {
    let empty = ManifestHeader {
        object_size: 0,
        chunk_count: 0,
        ..header()
    };
    assert_eq!(empty.validate(), Ok(()));
}

#[test]
fn invalid_geometry_and_identity_fields_fail_closed() {
    assert_eq!(
        ManifestHeader {
            object_id: [0; OBJECT_ID_LEN],
            ..header()
        }
        .validate(),
        Err(ManifestError::ZeroObjectId)
    );
    assert_eq!(
        ManifestHeader {
            signer_identity_fingerprint: [0; IDENTITY_FINGERPRINT_LEN],
            ..header()
        }
        .validate(),
        Err(ManifestError::ZeroSignerFingerprint)
    );
    assert_eq!(
        ManifestHeader {
            merkle_root: [0; MERKLE_ROOT_LEN],
            ..header()
        }
        .validate(),
        Err(ManifestError::ZeroMerkleRoot)
    );
    for invalid_size in [MIN_CHUNK_SIZE - 1, MIN_CHUNK_SIZE + 1, MAX_CHUNK_SIZE + 1] {
        assert_eq!(
            ManifestHeader {
                chunk_size: invalid_size,
                ..header()
            }
            .validate(),
            Err(ManifestError::InvalidChunkSize(invalid_size))
        );
    }
    assert_eq!(
        ManifestHeader {
            chunk_count: 4,
            ..header()
        }
        .validate(),
        Err(ManifestError::InvalidChunkCount {
            expected: 5,
            actual: 4,
        })
    );
}

#[test]
fn display_name_and_signature_lengths_are_strict() {
    let mut output = [0_u8; MAX_SIGNED_MANIFEST_LEN];
    let ed25519 = [0xed; ED25519_SIGNATURE_LEN];
    let ml_dsa = [0xda; ML_DSA_65_SIGNATURE_LEN];
    for invalid_name in ["../secret", "path\\file", "line\nbreak"] {
        assert_eq!(
            header().encode_signed(invalid_name, &ed25519, &ml_dsa, &mut output),
            Err(ManifestError::InvalidDisplayName)
        );
    }
    let oversized_name = "a".repeat(MAX_DISPLAY_NAME_LEN + 1);
    assert_eq!(
        header().encode_signed(&oversized_name, &ed25519, &ml_dsa, &mut output),
        Err(ManifestError::InvalidDisplayName)
    );
    assert_eq!(
        header().encode_signed("file", &ed25519[..63], &ml_dsa, &mut output),
        Err(ManifestError::InvalidSignatureLength {
            component: "Ed25519 signature",
            expected: ED25519_SIGNATURE_LEN,
            actual: 63,
        })
    );
    assert_eq!(
        header().encode_signed("file", &ed25519, &ml_dsa[..3_308], &mut output),
        Err(ManifestError::InvalidSignatureLength {
            component: "ML-DSA-65 signature",
            expected: ML_DSA_65_SIGNATURE_LEN,
            actual: 3_308,
        })
    );
}

#[test]
fn decode_rejects_version_flags_utf8_trailing_and_truncation() {
    let ed25519 = [0xed; ED25519_SIGNATURE_LEN];
    let ml_dsa = [0xda; ML_DSA_65_SIGNATURE_LEN];
    let mut encoded = [0_u8; MAX_SIGNED_MANIFEST_LEN + 1];
    let written = header()
        .encode_signed("x", &ed25519, &ml_dsa, &mut encoded)
        .expect("manifest encodes");

    encoded[0] = 2;
    assert_eq!(
        Manifest::decode(&encoded[..written]),
        Err(ManifestError::UnsupportedVersion(2))
    );
    encoded[0] = MANIFEST_FORMAT_VERSION;
    encoded[FLAGS_OFFSET] = 1;
    assert_eq!(
        Manifest::decode(&encoded[..written]),
        Err(ManifestError::InvalidFlags(1))
    );
    encoded[FLAGS_OFFSET] = 0;
    encoded[MANIFEST_UNSIGNED_FIXED_LEN] = 0xff;
    assert_eq!(
        Manifest::decode(&encoded[..written]),
        Err(ManifestError::InvalidDisplayName)
    );
    encoded[MANIFEST_UNSIGNED_FIXED_LEN] = b'x';
    assert_eq!(
        Manifest::decode(&encoded[..=written]),
        Err(ManifestError::Wire(WireError::LengthMismatch {
            expected: written,
            actual: written + 1,
        }))
    );
    assert_eq!(
        Manifest::decode(&encoded[..MIN_SIGNED_MANIFEST_LEN - 1]),
        Err(ManifestError::Wire(WireError::PacketTooShort {
            minimum: MIN_SIGNED_MANIFEST_LEN,
            actual: MIN_SIGNED_MANIFEST_LEN - 1,
        }))
    );
}

#[test]
fn manifest_fragment_round_trip_is_borrowed_and_bounded() {
    let fragment_bytes = [0x42; 1_000];
    let fragment = ManifestFragment {
        object_slot: 7,
        manifest_length: u16::try_from(MIN_SIGNED_MANIFEST_LEN).expect("length fits"),
        fragment_offset: 1_000,
        fragment: &fragment_bytes,
    };
    let mut encoded = [0_u8; 1_024];
    let written = fragment.encode(&mut encoded).expect("fragment encodes");
    let decoded = ManifestFragment::decode(&encoded[..written]).expect("fragment decodes");
    assert_eq!(decoded, fragment);

    assert_eq!(
        ManifestFragment {
            fragment: &[],
            ..fragment
        }
        .encode(&mut encoded),
        Err(ManifestError::Wire(WireError::InvalidFragmentBounds))
    );
    assert_eq!(
        ManifestFragment {
            fragment_offset: u16::try_from(MIN_SIGNED_MANIFEST_LEN - 10).expect("offset fits"),
            fragment: &[0; 11],
            ..fragment
        }
        .encode(&mut encoded),
        Err(ManifestError::Wire(WireError::InvalidFragmentBounds))
    );
    assert_eq!(
        ManifestFragment::decode(&[0_u8; MANIFEST_FRAGMENT_FIXED_LEN]),
        Err(ManifestError::Wire(WireError::PacketTooShort {
            minimum: MANIFEST_FRAGMENT_FIXED_LEN + 1,
            actual: MANIFEST_FRAGMENT_FIXED_LEN,
        }))
    );
    for invalid_length in [MIN_SIGNED_MANIFEST_LEN - 1, MAX_SIGNED_MANIFEST_LEN + 1] {
        let invalid = ManifestFragment {
            manifest_length: u16::try_from(invalid_length).expect("test length fits"),
            fragment_offset: 0,
            fragment: &[1],
            ..fragment
        };
        assert_eq!(
            invalid.encode(&mut encoded),
            Err(ManifestError::InvalidLogicalLength {
                length: invalid_length,
                minimum: MIN_SIGNED_MANIFEST_LEN,
                maximum: MAX_SIGNED_MANIFEST_LEN,
            })
        );
    }
    assert_eq!(
        fragment.encode(&mut [0_u8; MANIFEST_FRAGMENT_FIXED_LEN]),
        Err(ManifestError::Wire(WireError::BufferTooSmall {
            needed: MANIFEST_FRAGMENT_FIXED_LEN + fragment_bytes.len(),
            available: MANIFEST_FRAGMENT_FIXED_LEN,
        }))
    );
}

#[test]
fn signature_and_merkle_inputs_are_domain_separated() {
    let content_hash = [0x11; MERKLE_ROOT_LEN];
    let mut signature = Recorder::default();
    feed_manifest_signature_input(&mut signature, &content_hash);
    assert_eq!(
        &signature.0[..SIGNATURE_CONTEXT_PREFIX_LEN],
        &[0x20; SIGNATURE_CONTEXT_PREFIX_LEN]
    );
    assert_eq!(
        &signature.0[SIGNATURE_CONTEXT_PREFIX_LEN
            ..SIGNATURE_CONTEXT_PREFIX_LEN + MANIFEST_SIGNATURE_CONTEXT.len()],
        MANIFEST_SIGNATURE_CONTEXT.as_bytes()
    );
    assert_eq!(signature.0.last(), Some(&0x11));

    let mut leaf = Recorder::default();
    feed_chunk_leaf_input(&mut leaf, &header().object_id, 3, b"chunk")
        .expect("small chunk fits");
    assert!(leaf.0.starts_with(MERKLE_LEAF_CONTEXT.as_bytes()));
    assert!(leaf.0.ends_with(b"chunk"));

    let mut node = Recorder::default();
    feed_merkle_node_input(
        &mut node,
        1,
        &[0x22; MERKLE_ROOT_LEN],
        &[0x33; MERKLE_ROOT_LEN],
    );
    assert!(node.0.starts_with(MERKLE_NODE_CONTEXT.as_bytes()));

    let mut empty = Recorder::default();
    feed_empty_root_input(&mut empty, &header().object_id);
    assert!(empty.0.starts_with(MERKLE_EMPTY_CONTEXT.as_bytes()));
    assert_ne!(leaf.0, node.0);
    assert_ne!(leaf.0, empty.0);
}

#[test]
fn unsigned_content_has_canonical_offsets() {
    let mut encoded = [0_u8; MANIFEST_UNSIGNED_FIXED_LEN + 4];
    assert_eq!(
        header().encode_unsigned("na\u{e9}", &mut encoded),
        Ok(MANIFEST_UNSIGNED_FIXED_LEN + 4)
    );
    assert_eq!(encoded[2..34], header().object_id);
    assert_eq!(encoded[34..42], header().object_size.to_be_bytes());
    assert_eq!(encoded[42..46], MIN_CHUNK_SIZE.to_be_bytes());
    assert_eq!(encoded[46..50], 5_u32.to_be_bytes());
    assert_eq!(encoded[50..98], [0xa5; MERKLE_ROOT_LEN]);
    assert_eq!(encoded[98..146], [0x5a; IDENTITY_FINGERPRINT_LEN]);
    assert_eq!(encoded[146], 4);
    assert_eq!(&encoded[147..], "na\u{e9}".as_bytes());
}

#[test]
fn multibyte_display_names_survive_a_round_trip() {
    let ed25519 = [0xed; ED25519_SIGNATURE_LEN];
    let ml_dsa = [0xda; ML_DSA_65_SIGNATURE_LEN];
    for name in ["", "r\u{e9}sum\u{e9}", "\u{65e5}\u{672c}", "\u{1f4e6}.bin"] {
        let mut encoded = [0_u8; MAX_SIGNED_MANIFEST_LEN];
        let written = header()
            .encode_signed(name, &ed25519, &ml_dsa, &mut encoded)
            .expect("manifest encodes");
        let decoded = Manifest::decode(&encoded[..written]).expect("manifest decodes");
        assert_eq!(decoded.display_name, name);
        assert_eq!(decoded.header, header());
    }
}

#[test]
fn malformed_utf8_and_control_characters_are_no_display_names() {
    let ed25519 = [0xed; ED25519_SIGNATURE_LEN];
    let ml_dsa = [0xda; ML_DSA_65_SIGNATURE_LEN];
    for bytes in [
        [0xc3, 0x28],
        [0xed, 0xa0],
        [b'a', 0xe9],
        [b'a', b'/'],
        [b'a', b'\\'],
        [b'a', 0],
        [0xc2, 0x85],
    ] {
        let mut encoded = [0_u8; MAX_SIGNED_MANIFEST_LEN];
        let written = header()
            .encode_signed("ab", &ed25519, &ml_dsa, &mut encoded)
            .expect("manifest encodes");
        encoded[MANIFEST_UNSIGNED_FIXED_LEN..MANIFEST_UNSIGNED_FIXED_LEN + 2]
            .copy_from_slice(&bytes);
        assert_eq!(
            Manifest::decode(&encoded[..written]),
            Err(ManifestError::InvalidDisplayName)
        );
    }
    assert_eq!(
        ManifestError::InvalidDisplayName.message(),
        "invalid manifest display name"
    );
}
