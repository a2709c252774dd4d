use ogtp::handshake::CipherSuite;
use ogtp::protection::{
    AES_GCM_AUTH_FAILURE_LIMIT, AES_GCM_ENCRYPTION_LIMIT, AuthenticationFailureUsage,
    CHACHA20_AUTH_FAILURE_LIMIT, CHACHA20_ENCRYPTION_LIMIT, EncryptionUsage,
    HEADER_PROTECTION_MASK_LEN, HEADER_PROTECTION_SAMPLE_LEN, PacketCryptoProvider,
    PathProtection, ProtectionError, ProviderError, apply_short_header_mask,
    check_sealed_length, open_short_payload, packet_nonce, protect_short_packet,
    remove_short_header_protection, settle_opened,
};
use ogtp::wire::{
    AEAD_TAG_LEN, DataFrame, DataMetadata, PacketClass, SHORT_HEADER_LEN, ShortHeader,
    WireError,
};

struct FakeProvider;

impl PacketCryptoProvider for FakeProvider {
    type AeadKey = ();
    type HeaderProtectionKey = ();

    fn seal_in_place(
        &self,
        _suite: CipherSuite,
        _key: &Self::AeadKey,
        _nonce: &[u8; 12],
        _additional_data: &[u8],
        payload_and_tag: &mut [u8],
        plaintext_length: usize,
    ) -> Result<usize, ProviderError> {
        for byte in &mut payload_and_tag[..plaintext_length] {
            *byte ^= 0xaa;
        }
        payload_and_tag[plaintext_length..plaintext_length + AEAD_TAG_LEN].fill(0x55);
        Ok(plaintext_length + AEAD_TAG_LEN)
    }

    fn open_in_place(
        &self,
        _suite: CipherSuite,
        _key: &Self::AeadKey,
        _nonce: &[u8; 12],
        _additional_data: &[u8],
        ciphertext_and_tag: &mut [u8],
    ) -> Result<usize, ProviderError> {
        let plaintext_length = ciphertext_and_tag
            .len()
            .checked_sub(AEAD_TAG_LEN)
            .ok_or(ProviderError::AuthenticationFailed)?;
        if ciphertext_and_tag[plaintext_length..]
            .iter()
            .any(|byte| *byte != 0x55)
        {
            return Err(ProviderError::AuthenticationFailed);
        }
        for byte in &mut ciphertext_and_tag[..plaintext_length] {
            *byte ^= 0xaa;
        }
        Ok(plaintext_length)
    }

    fn header_protection_mask(
        &self,
        _suite: CipherSuite,
        _key: &Self::HeaderProtectionKey,
        sample: &[u8; HEADER_PROTECTION_SAMPLE_LEN],
    ) -> Result<[u8; HEADER_PROTECTION_MASK_LEN], ProviderError> {
        let mut mask = [0_u8; HEADER_PROTECTION_MASK_LEN];
        mask.copy_from_slice(&sample[..HEADER_PROTECTION_MASK_LEN]);
        Ok(mask)
    }
}

#[test]
fn short_packet_round_trip_preserves_plaintext() {
    let provider = FakeProvider;
    let packet_number = 7;
    let header = ShortHeader {
        class: PacketClass::Data,
        key_phase: false,
        destination_connection_id: *b"path-001",
        truncated_packet_number: packet_number,
    };
    let fragment = b"hello";
    let metadata = DataMetadata {
        object_slot: 1,
        chunk_index: 2,
        fragment_offset: 0,
        fragment_length: u16::try_from(fragment.len()).expect("test fragment fits"),
    };
    let mut packet = [0_u8; 128];
    let plaintext_length = metadata
        .encode_with_fragment(fragment, &mut packet[SHORT_HEADER_LEN..])
        .expect("DATA encodes");
    let mut encryption_usage = EncryptionUsage::default();
    let protection = PathProtection {
        suite: CipherSuite::Aes256GcmSha384,
        aead_key: &(),
        header_protection_key: &(),
        iv: &[0; 12],
    };
    let packet_length = protect_short_packet(
        &provider,
        &protection,
        header,
        u64::from(packet_number),
        plaintext_length,
        &mut packet,
        &mut encryption_usage,
    )
    .expect("packet protects");
    assert_ne!(&packet[..SHORT_HEADER_LEN], &[0; SHORT_HEADER_LEN]);

    let decoded_header =
        remove_short_header_protection(&provider, &protection, &mut packet[..packet_length])
            .expect("header opens");
    assert_eq!(decoded_header, header);
    let mut failures = AuthenticationFailureUsage::default();
    let opened = open_short_payload(
        &provider,
        &protection,
        decoded_header,
        u64::from(packet_number),
        &mut packet[..packet_length],
        &mut failures,
    )
    .expect("payload opens");
    let data = DataFrame::decode_plaintext(
        &packet[SHORT_HEADER_LEN..SHORT_HEADER_LEN + opened.plaintext_length],
    )
    .expect("DATA decodes");
    assert_eq!(data.fragment, fragment);
    assert_eq!(encryption_usage.encrypted_packets(), 1);
    assert_eq!(failures.failed_authentications(), 0);
}

#[test]
fn header_mask_is_reversible_and_preserves_form_bit() {
    let mut packet = [0_u8; SHORT_HEADER_LEN];
    packet[0] = 0x60;
    packet[9..13].copy_from_slice(&[1, 2, 3, 4]);
    let original = packet;
    let mask = [0xff, 0x10, 0x20, 0x30, 0x40];
    apply_short_header_mask(&mut packet, &mask).expect("mask applies");
    assert_eq!(packet[0] & 0x80, original[0] & 0x80);
    assert_ne!(packet, original);
    apply_short_header_mask(&mut packet, &mask).expect("mask removes");
    assert_eq!(packet, original);
}

#[test]
fn nonce_xors_packet_number_into_low_64_bits() {
    let iv = [0xa5; 12];
    let nonce = packet_nonce(&iv, 0x0102_0304_0506_0708).expect("packet number fits");
    assert_eq!(&nonce[..4], &[0xa5; 4]);
    assert_eq!(
        &nonce[4..],
        &[0xa4, 0xa7, 0xa6, 0xa1, 0xa0, 0xa3, 0xa2, 0xad]
    );
}

#[test]
fn authentication_failure_is_counted() {
    let provider = FakeProvider;
    let header = ShortHeader {
        class: PacketClass::Control,
        key_phase: false,
        destination_connection_id: [1; 8],
        truncated_packet_number: 0,
    };
    let mut packet = [0_u8; SHORT_HEADER_LEN + AEAD_TAG_LEN];
    header.encode(&mut packet).expect("header fits");
    let mut failures = AuthenticationFailureUsage::default();
    let protection = PathProtection {
        suite: CipherSuite::ChaCha20Poly1305Sha384,
        aead_key: &(),
        header_protection_key: &(),
        iv: &[0; 12],
    };
    assert_eq!(
        open_short_payload(
            &provider,
            &protection,
            header,
            0,
            &mut packet,
            &mut failures,
        ),
        Err(ProtectionError::Provider(
            ProviderError::AuthenticationFailed
        ))
    );
    assert_eq!(failures.failed_authentications(), 1);
}

#[test]
fn encryption_limits_never_wrap() {
    for (suite, limit) in [
        (CipherSuite::Aes256GcmSha384, AES_GCM_ENCRYPTION_LIMIT),
        (
            CipherSuite::ChaCha20Poly1305Sha384,
            CHACHA20_ENCRYPTION_LIMIT,
        ),
    ] {
        let mut usage = EncryptionUsage {
            encrypted_packets: limit - 1,
        };
        usage.reserve(suite).expect("final invocation is permitted");
        assert!(usage.update_required(suite));
        assert_eq!(
            usage.reserve(suite),
            Err(ProtectionError::EncryptionLimitReached)
        );
        assert_eq!(usage.encrypted_packets(), limit);
    }
}

#[test]
fn authentication_failure_limits_close_on_the_boundary() {
    for (suite, limit) in [
        (CipherSuite::Aes256GcmSha384, AES_GCM_AUTH_FAILURE_LIMIT),
        (
            CipherSuite::ChaCha20Poly1305Sha384,
            CHACHA20_AUTH_FAILURE_LIMIT,
        ),
    ] {
        let mut usage = AuthenticationFailureUsage {
            failed_authentications: limit - 1,
        };
        assert_eq!(
            usage.record_failure(suite),
            Err(ProtectionError::AuthenticationFailureLimitReached)
        );
        assert_eq!(usage.failed_authentications(), limit);
        assert_eq!(
            usage.record_failure(suite),
            Err(ProtectionError::AuthenticationFailureLimitReached)
        );
        assert_eq!(usage.failed_authentications(), limit);
    }
}

#[test]
fn packet_numbers_beyond_62_bits_have_no_nonce() {
    assert_eq!(
        packet_nonce(&[0; 12], 1 << 62),
        Err(ProtectionError::PacketNumberOutOfRange(1 << 62))
    );
    assert_eq!(
        packet_nonce(&[0; 12], (1 << 62) - 1),
        Ok([0, 0, 0, 0, 0x3f, 0xff, 0xff, 0xff, 0xff, 0xff, 0xff, 0xff])
    );
}

#[test]
fn protection_rejects_mismatched_numbers_and_short_buffers() {
    let provider = FakeProvider;
    let protection = PathProtection {
        suite: CipherSuite::Aes256GcmSha384,
        aead_key: &(),
        header_protection_key: &(),
        iv: &[0; 12],
    };
    let header = ShortHeader {
        class: PacketClass::Probe,
        key_phase: true,
        destination_connection_id: [9; 8],
        truncated_packet_number: 5,
    };
    let mut usage = EncryptionUsage::default();
    let mut packet = [0_u8; 64];
    assert_eq!(
        protect_short_packet(&provider, &protection, header, 6, 4, &mut packet, &mut usage),
        Err(ProtectionError::PacketNumberMismatch)
    );
    assert_eq!(
        protect_short_packet(
            &provider,
            &protection,
            header,
            5,
            4,
            &mut packet[..SHORT_HEADER_LEN + 4 + AEAD_TAG_LEN - 1],
            &mut usage,
        ),
        Err(ProtectionError::Wire(WireError::BufferTooSmall {
            needed: SHORT_HEADER_LEN + 4 + AEAD_TAG_LEN,
            available: SHORT_HEADER_LEN + 4 + AEAD_TAG_LEN - 1,
        }))
    );
    assert_eq!(usage.encrypted_packets(), 0);
    assert!(
        remove_short_header_protection(
            &provider,
            &protection,
            &mut packet[..SHORT_HEADER_LEN + 15]
        )
        .is_err()
    );
    assert_eq!(
        apply_short_header_mask(&mut packet[..12], &[0; 5]),
        Err(ProtectionError::Wire(WireError::PacketTooShort {
            minimum: 13,
            actual: 12,
        }))
    );
}

#[test]
fn provider_answers_are_settled_by_length() {
    assert_eq!(check_sealed_length(Ok(20), 20), Ok(()));
    assert_eq!(
        check_sealed_length(Ok(19), 20),
        Err(ProtectionError::ProviderLengthMismatch {
            expected: 20,
            actual: 19,
        })
    );
    assert_eq!(
        check_sealed_length(Err(ProviderError::InvalidKey), 20),
        Err(ProtectionError::Provider(ProviderError::InvalidKey))
    );
    let mut failures = AuthenticationFailureUsage::default();
    let suite = CipherSuite::Aes256GcmSha384;
    assert_eq!(settle_opened(Ok(4), 4, suite, &mut failures), Ok(4));
    assert_eq!(
        settle_opened(Err(ProviderError::Internal), 4, suite, &mut failures),
        Err(ProtectionError::Provider(ProviderError::Internal))
    );
    assert_eq!(failures.failed_authentications(), 0);
    failures.failed_authentications = AES_GCM_AUTH_FAILURE_LIMIT - 1;
    assert_eq!(
        settle_opened(
            Err(ProviderError::AuthenticationFailed),
            4,
            suite,
            &mut failures
        ),
        Err(ProtectionError::AuthenticationFailureLimitReached)
    );
    assert_eq!(
        ProtectionError::EncryptionLimitReached.message(),
        "AEAD encryption limit reached"
    );
}
