use ogtp::kdf::{HASH_LEN, LABEL_INITIATOR_HANDSHAKE, LABEL_KEY, LabelError, encode_expand_label};

#[test]
fn key_label_matches_canonical_bytes() {
    let mut output = [0_u8; 64];
    let written = encode_expand_label(32, LABEL_KEY, &[], &mut output).expect("label encodes");
    assert_eq!(
        &output[..written],
        &[
            0x00, 0x20, 0x09, b'o', b'g', b't', b'p', b'1', b' ', b'k', b'e', b'y', 0x00
        ]
    );
}

#[test]
fn context_is_length_prefixed_without_copying_elsewhere() {
    let context = [0xa5; HASH_LEN];
    let mut output = [0_u8; 128];
    let hash_len_u16 = u16::try_from(HASH_LEN).expect("SHA-384 output length fits u16");
    let hash_len_u8 = u8::try_from(HASH_LEN).expect("SHA-384 output length fits u8");
    let written = encode_expand_label(
        hash_len_u16,
        LABEL_INITIATOR_HANDSHAKE,
        &context,
        &mut output,
    )
    .expect("label encodes");
    assert_eq!(output[0..2], [0, hash_len_u8]);
    assert_eq!(output[2], 10);
    assert_eq!(&output[3..13], b"ogtp1 i hs");
    assert_eq!(output[13], hash_len_u8);
    assert_eq!(&output[14..written], &context);
}

#[test]
fn invalid_labels_and_contexts_are_rejected() {
    let mut output = [0_u8; 512];
    assert_eq!(
        encode_expand_label(32, "", &[], &mut output),
        Err(LabelError::EmptyLabel)
    );
    assert_eq!(
        encode_expand_label(32, "clé", &[], &mut output),
        Err(LabelError::NonAsciiLabel)
    );
    assert_eq!(
        encode_expand_label(32, "key", &[0; 256], &mut output),
        Err(LabelError::ContextTooLong)
    );
}

#[test]
fn label_length_limits_and_buffer_size_are_exact() {
    let mut output = [0_u8; 514];
    let longest = "a".repeat(249);
    assert_eq!(
        encode_expand_label(48, &longest, &[7; 255], &mut output),
        Ok(2 + 1 + 255 + 1 + 255)
    );
    assert_eq!(output[2], 255);
    let too_long = "a".repeat(250);
    assert_eq!(
        encode_expand_label(48, &too_long, &[], &mut output),
        Err(LabelError::LabelTooLong)
    );
    assert_eq!(
        encode_expand_label(48, "key", &[], &mut output[..12]),
        Err(LabelError::BufferTooSmall {
            needed: 13,
            available: 12,
        })
    );
    assert_eq!(LabelError::EmptyLabel.message(), "HKDF label is empty");
}

#[test]
fn labels_and_contexts_are_never_confused() {
    let mut first = [0_u8; 64];
    let mut second = [0_u8; 64];
    let first_length = encode_expand_label(32, "ab", b"c", &mut first).expect("label encodes");
    let second_length = encode_expand_label(32, "a", b"bc", &mut second).expect("label encodes");
    assert_eq!(first_length, second_length);
    assert_ne!(first[..first_length], second[..second_length]);
}
