use ogtp::handshake::{
    CipherSuite, ED25519_PUBLIC_KEY_LEN, ED25519_SIGNATURE_LEN, ENCRYPTED_IDENTITY_AUTH_LEN,
    FINISHED_MAC_LEN, FINISH_LEN, Finish, HELLO_LEN, HYBRID_SHARED_SECRET_LEN, HandshakeError,
    Hello, IDENTITY_AUTH_LEN, IDENTITY_FINGERPRINT_LEN, INIT_FIXED_LEN, IdentityAuth, Init,
    KNOWN_CIPHER_SUITE_BITS, MIN_RETRY_COOKIE_LEN, ML_DSA_65_PUBLIC_KEY_LEN,
    ML_DSA_65_SIGNATURE_LEN, ML_KEM_768_CIPHERTEXT_LEN, ML_KEM_768_ENCAPSULATION_KEY_LEN,
    ML_KEM_SHARED_SECRET_LEN, RANDOM_LEN, RESPONSE_LEN, RETRY_FIXED_LEN, Response, Retry,
    X25519_PUBLIC_KEY_LEN, X25519_SHARED_SECRET_LEN, encode_hybrid_shared_secret,
};

fn hello() -> Hello {
    Hello {
        client_random: [0x11; RANDOM_LEN],
        identity_fingerprint: [0x22; IDENTITY_FINGERPRINT_LEN],
        cipher_suite_bitmap: KNOWN_CIPHER_SUITE_BITS,
        capabilities: 3,
        max_udp_payload: 1_200,
        max_paths: 2,
    }
}

#[test]
fn hello_round_trip_is_fixed_size() {
    let original = hello();
    let mut output = [0_u8; HELLO_LEN];
    assert_eq!(original.encode(&mut output), Ok(HELLO_LEN));
    assert_eq!(Hello::decode(&output), Ok(original));
}

#[test]
fn retry_and_init_round_trip_without_large_copies() {
    let cookie = [0x33; 48];
    let retry = Retry {
        server_random: [0x44; RANDOM_LEN],
        cookie: &cookie,
    };
    let mut retry_bytes = [0_u8; RETRY_FIXED_LEN + 48];
    let retry_len = retry.encode(&mut retry_bytes).expect("RETRY encodes");
    assert_eq!(Retry::decode(&retry_bytes[..retry_len]), Ok(retry));

    let ml_kem_key = [0x55; ML_KEM_768_ENCAPSULATION_KEY_LEN];
    let init = Init {
        hello: hello(),
        server_random: retry.server_random,
        cookie: &cookie,
        x25519_public_key: [0x66; X25519_PUBLIC_KEY_LEN],
        ml_kem_encapsulation_key: &ml_kem_key,
    };
    let mut init_bytes = [0_u8; INIT_FIXED_LEN + 48];
    let init_len = init.encode(&mut init_bytes).expect("INIT encodes");
    assert_eq!(Init::decode(&init_bytes[..init_len]), Ok(init));
}

#[test]
fn response_and_finish_enforce_ciphertext_size() {
    let ml_kem_ciphertext = [0x77; ML_KEM_768_CIPHERTEXT_LEN];
    let encrypted_auth = [0x88; ENCRYPTED_IDENTITY_AUTH_LEN];
    let response = Response {
        selected_cipher_suite: CipherSuite::Aes256GcmSha384,
        negotiated_capabilities: 1,
        max_udp_payload: 1_400,
        max_paths: 2,
        identity_fingerprint: [0x99; IDENTITY_FINGERPRINT_LEN],
        x25519_public_key: [0xaa; X25519_PUBLIC_KEY_LEN],
        ml_kem_ciphertext: &ml_kem_ciphertext,
        encrypted_identity_auth: &encrypted_auth,
    };
    let mut response_bytes = [0_u8; RESPONSE_LEN];
    assert_eq!(response.encode(&mut response_bytes), Ok(RESPONSE_LEN));
    assert_eq!(Response::decode(&response_bytes), Ok(response));

    let finish = Finish {
        encrypted_identity_auth: &encrypted_auth,
    };
    let mut finish_bytes = [0_u8; FINISH_LEN];
    assert_eq!(finish.encode(&mut finish_bytes), Ok(FINISH_LEN));
    assert_eq!(Finish::decode(&finish_bytes), Ok(finish));
}

#[test]
fn identity_auth_round_trip() {
    let ml_dsa_public_key = [0xbb; ML_DSA_65_PUBLIC_KEY_LEN];
    let ml_dsa_signature = [0xcc; ML_DSA_65_SIGNATURE_LEN];
    let auth = IdentityAuth {
        ed25519_public_key: [0xdd; ED25519_PUBLIC_KEY_LEN],
        ml_dsa_public_key: &ml_dsa_public_key,
        ed25519_signature: [0xee; ED25519_SIGNATURE_LEN],
        ml_dsa_signature: &ml_dsa_signature,
        finished_mac: [0xff; FINISHED_MAC_LEN],
    };
    let mut output = [0_u8; IDENTITY_AUTH_LEN];
    assert_eq!(auth.encode(&mut output), Ok(IDENTITY_AUTH_LEN));
    assert_eq!(IdentityAuth::decode(&output), Ok(auth));
}

#[test]
fn hybrid_secret_uses_ml_kem_first() {
    let ml_kem = [0x11; ML_KEM_SHARED_SECRET_LEN];
    let x25519 = [0x22; X25519_SHARED_SECRET_LEN];
    let mut output = [0_u8; HYBRID_SHARED_SECRET_LEN];
    assert_eq!(
        encode_hybrid_shared_secret(&ml_kem, &x25519, &mut output),
        Ok(HYBRID_SHARED_SECRET_LEN)
    );
    assert_eq!(&output[..32], &ml_kem);
    assert_eq!(&output[32..], &x25519);
}

#[test]
fn invalid_negotiation_and_component_sizes_are_rejected() {
    let mut invalid = hello();
    invalid.cipher_suite_bitmap = 0x8000;
    let mut output = [0_u8; HELLO_LEN];
    assert_eq!(
        invalid.encode(&mut output),
        Err(HandshakeError::NoKnownCipherSuite)
    );

    let init = Init {
        hello: hello(),
        server_random: [0; RANDOM_LEN],
        cookie: &[0; MIN_RETRY_COOKIE_LEN],
        x25519_public_key: [0; X25519_PUBLIC_KEY_LEN],
        ml_kem_encapsulation_key: &[0; 1],
    };
    let mut init_output = [0_u8; INIT_FIXED_LEN + MIN_RETRY_COOKIE_LEN];
    assert_eq!(
        init.encode(&mut init_output),
        Err(HandshakeError::InvalidComponentLength {
            component: "ML-KEM-768 encapsulation key",
            expected: ML_KEM_768_ENCAPSULATION_KEY_LEN,
            actual: 1,
        })
    );
}

#[test]
fn transport_limits_reserved_bytes_and_cookies_are_checked() {
    let mut output = [0_u8; HELLO_LEN];
    let mut small = hello();
    small.max_udp_payload = 1_199;
    assert_eq!(
        small.encode(&mut output),
        Err(HandshakeError::InvalidMaxUdpPayload(1_199))
    );
    for max_paths in [0, 17] {
        let mut paths = hello();
        paths.max_paths = max_paths;
        assert_eq!(
            paths.encode(&mut output),
            Err(HandshakeError::InvalidMaxPaths(max_paths))
        );
    }
    hello().encode(&mut output).expect("HELLO encodes");
    output[HELLO_LEN - 1] = 1;
    assert_eq!(
        Hello::decode(&output),
        Err(HandshakeError::NonZeroReserved(1))
    );
    for length in [15, 257] {
        let cookie = vec![0_u8; length];
        let retry = Retry {
            server_random: [0; RANDOM_LEN],
            cookie: &cookie,
        };
        assert_eq!(
            retry.encode(&mut [0_u8; 512]),
            Err(HandshakeError::InvalidCookieLength { length })
        );
    }
    assert_eq!(
        CipherSuite::from_wire(3),
        Err(HandshakeError::UnknownCipherSuite(3))
    );
    for suite in [
        CipherSuite::Aes256GcmSha384,
        CipherSuite::ChaCha20Poly1305Sha384,
    ] {
        assert_eq!(CipherSuite::from_wire(suite.wire_code()), Ok(suite));
    }
    assert_eq!(
        HandshakeError::InvalidMaxPaths(17).message(),
        "invalid maximum paths: 17"
    );
}

#[test]
fn handshake_messages_have_exact_lengths() {
    let mut output = [0_u8; HELLO_LEN];
    hello().encode(&mut output).expect("HELLO encodes");
    assert!(matches!(
        Hello::decode(&output[..HELLO_LEN - 1]),
        Err(HandshakeError::Wire(_))
    ));
    assert!(matches!(
        hello().encode(&mut output[..HELLO_LEN - 1]),
        Err(HandshakeError::Wire(_))
    ));
    assert_eq!(output[..RANDOM_LEN], [0x11; RANDOM_LEN]);
    let mut longer = [0_u8; FINISH_LEN + 1];
    assert!(matches!(
        Finish::decode(&longer),
        Err(HandshakeError::Wire(_) | HandshakeError::InvalidComponentLength { .. })
    ));
    let finish = Finish {
        encrypted_identity_auth: &[0; 5],
    };
    assert!(matches!(
        finish.encode(&mut longer),
        Err(HandshakeError::InvalidComponentLength { actual: 5, .. })
    ));
}
