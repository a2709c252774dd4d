use ogtp::authentication::{
    AuthenticatedIdentity, HybridAuthenticationProvider, PeerAuthenticationContext,
    VerificationResult, authenticate_peer_identity, identity_fingerprint,
};
use ogtp::crypto::{ForkableSha384Provider, SHA384_OUTPUT_LEN, Sha384Digest, Sha384Provider};
use ogtp::handshake::{
    CIPHER_SUITE_AES_256_GCM_SHA384_BIT, CipherSuite, HELLO_LEN, Hello,
    IDENTITY_FINGERPRINT_LEN, INIT_FIXED_LEN, Init, RANDOM_LEN, RESPONSE_LEN, RETRY_FIXED_LEN,
    Response, Retry, ED25519_PUBLIC_KEY_LEN, ED25519_SIGNATURE_LEN,
    ENCRYPTED_IDENTITY_AUTH_LEN, FINISHED_MAC_LEN, HYBRID_SHARED_SECRET_LEN,
    IDENTITY_AUTH_LEN, IdentityAuth, ML_DSA_65_PUBLIC_KEY_LEN, ML_DSA_65_SIGNATURE_LEN,
    ML_KEM_768_CIPHERTEXT_LEN, ML_KEM_768_ENCAPSULATION_KEY_LEN, ML_KEM_SHARED_SECRET_LEN,
    X25519_PUBLIC_KEY_LEN, X25519_SHARED_SECRET_LEN,
};
use ogtp::handshake_crypto::{
    HandshakeAeadOpenResult, HandshakeCryptoError, HandshakeCryptoProvider, HandshakeSecrets,
    derive_handshake_secrets, generate_initiator_hybrid_state, handshake_nonce,
    open_initiator_identity_auth, open_responder_identity_auth, respond_to_initiator,
    seal_initiator_identity_auth, seal_responder_identity_auth, settle_opened_identity,
    settle_sealed_identity,
};
use ogtp::handshake_state::{HandshakeTranscript, InitiatorTranscriptMilestone};
use ogtp::kdf::{AEAD_IV_LEN, AEAD_KEY_LEN, HASH_LEN};
use ogtp::transcript::{AuthenticationRole, SessionContext, TranscriptSink};
use core::cell::Cell;

use hmac::{Hmac, Mac};
use sha2::{Digest, Sha384};

type HmacSha384 = Hmac<Sha384>;

#[derive(Clone)]
struct Sha384Context(Sha384);

impl TranscriptSink for Sha384Context {
    fn update(&mut self, bytes: &[u8]) {
        self.0.update(bytes);
    }
}

#[derive(Clone, Copy, Debug, Eq, PartialEq)]
struct TestProviderError;

#[derive(Default)]
struct TestProvider {
    next_x25519: Cell<u8>,
    zero_x25519: Cell<bool>,
    fail_seal: Cell<bool>,
    wrong_seal_length: Cell<bool>,
    wrong_open_length: Cell<bool>,
}

impl Sha384Provider for TestProvider {
    type Context = Sha384Context;
    type Error = TestProviderError;

    fn start_sha384(&self) -> Result<Self::Context, Self::Error> {
        Ok(Sha384Context(Sha384::new()))
    }

    fn finish_sha384(&self, context: Self::Context) -> Result<Sha384Digest, Self::Error> {
        Ok(context.0.finalize().into())
    }
}

impl HandshakeCryptoProvider for TestProvider {
    type X25519PrivateKey = [u8; X25519_PUBLIC_KEY_LEN];
    type MlKem768DecapsulationKey = u8;

    fn generate_x25519_key_pair(
        &self,
        public_key: &mut [u8; X25519_PUBLIC_KEY_LEN],
    ) -> Result<Self::X25519PrivateKey, Self::Error> {
        let seed = self.next_x25519.get().wrapping_add(1);
        self.next_x25519.set(seed);
        public_key.fill(seed);
        Ok(*public_key)
    }

    fn x25519_shared_secret(
        &self,
        private_key: &Self::X25519PrivateKey,
        peer_public_key: &[u8; X25519_PUBLIC_KEY_LEN],
        output: &mut [u8; X25519_SHARED_SECRET_LEN],
    ) -> Result<(), Self::Error> {
        if self.zero_x25519.get() {
            output.fill(0);
        } else {
            for ((result, private), peer) in
                output.iter_mut().zip(private_key).zip(peer_public_key)
            {
                *result = *private ^ *peer;
            }
        }
        Ok(())
    }

    fn generate_ml_kem_768_key_pair(
        &self,
        encapsulation_key: &mut [u8; ML_KEM_768_ENCAPSULATION_KEY_LEN],
    ) -> Result<Self::MlKem768DecapsulationKey, Self::Error> {
        encapsulation_key.fill(0x31);
        Ok(0x31)
    }

    fn encapsulate_ml_kem_768(
        &self,
        encapsulation_key: &[u8; ML_KEM_768_ENCAPSULATION_KEY_LEN],
        ciphertext: &mut [u8; ML_KEM_768_CIPHERTEXT_LEN],
        shared_secret: &mut [u8; ML_KEM_SHARED_SECRET_LEN],
    ) -> Result<(), Self::Error> {
        ciphertext.fill(encapsulation_key[0] ^ 0x5a);
        ml_kem_test_secret(encapsulation_key[0], ciphertext, shared_secret);
        Ok(())
    }

    fn decapsulate_ml_kem_768(
        &self,
        decapsulation_key: &Self::MlKem768DecapsulationKey,
        ciphertext: &[u8; ML_KEM_768_CIPHERTEXT_LEN],
        shared_secret: &mut [u8; ML_KEM_SHARED_SECRET_LEN],
    ) -> Result<(), Self::Error> {
        ml_kem_test_secret(*decapsulation_key, ciphertext, shared_secret);
        Ok(())
    }

    fn hkdf_extract_sha384(
        &self,
        salt: &[u8; HASH_LEN],
        input_key_material: &[u8],
        output: &mut [u8; HASH_LEN],
    ) -> Result<(), Self::Error> {
        let mut mac = HmacSha384::new_from_slice(salt).expect("HMAC key");
        mac.update(input_key_material);
        output.copy_from_slice(&mac.finalize().into_bytes());
        Ok(())
    }

    fn hkdf_expand_sha384(
        &self,
        pseudorandom_key: &[u8; HASH_LEN],
        info: &[u8],
        output: &mut [u8],
    ) -> Result<(), Self::Error> {
        let mut previous = [0_u8; HASH_LEN];
        let mut previous_length = 0;
        let mut written = 0;
        let mut counter = 1_u8;
        while written < output.len() {
            let mut mac =
                HmacSha384::new_from_slice(pseudorandom_key).expect("HKDF pseudorandom key");
            mac.update(&previous[..previous_length]);
            mac.update(info);
            mac.update(&[counter]);
            previous.copy_from_slice(&mac.finalize().into_bytes());
            previous_length = HASH_LEN;
            let take = (output.len() - written).min(HASH_LEN);
            output[written..written + take].copy_from_slice(&previous[..take]);
            written += take;
            counter = counter.checked_add(1).expect("bounded test output");
        }
        previous.fill(0);
        Ok(())
    }

    fn hmac_sha384(
        &self,
        key: &[u8; HASH_LEN],
        message: &[u8],
        output: &mut [u8; HASH_LEN],
    ) -> Result<(), Self::Error> {
        let mut mac = HmacSha384::new_from_slice(key).expect("HMAC key");
        mac.update(message);
        output.copy_from_slice(&mac.finalize().into_bytes());
        Ok(())
    }

    fn seal_handshake_aead(
        &self,
        _suite: CipherSuite,
        key: &[u8; AEAD_KEY_LEN],
        nonce: &[u8; AEAD_IV_LEN],
        additional_data: &[u8],
        plaintext_and_tag: &mut [u8],
        plaintext_length: usize,
    ) -> Result<usize, Self::Error> {
        if self.fail_seal.replace(false) {
            return Err(TestProviderError);
        }
        for (index, byte) in plaintext_and_tag[..plaintext_length].iter_mut().enumerate() {
            *byte ^= key[index % key.len()] ^ nonce[index % nonce.len()];
        }
        let tag = aead_test_tag(
            key,
            nonce,
            additional_data,
            &plaintext_and_tag[..plaintext_length],
        );
        plaintext_and_tag[plaintext_length..plaintext_length + 16].copy_from_slice(&tag);
        if self.wrong_seal_length.replace(false) {
            Ok(plaintext_length)
        } else {
            Ok(plaintext_length + 16)
        }
    }

    fn open_handshake_aead(
        &self,
        _suite: CipherSuite,
        key: &[u8; AEAD_KEY_LEN],
        nonce: &[u8; AEAD_IV_LEN],
        additional_data: &[u8],
        ciphertext_and_tag: &mut [u8],
    ) -> Result<HandshakeAeadOpenResult, Self::Error> {
        let Some(plaintext_length) = ciphertext_and_tag.len().checked_sub(16) else {
            return Ok(HandshakeAeadOpenResult::Invalid);
        };
        let expected = aead_test_tag(
            key,
            nonce,
            additional_data,
            &ciphertext_and_tag[..plaintext_length],
        );
        let mut difference = 0_u8;
        for (left, right) in ciphertext_and_tag[plaintext_length..].iter().zip(expected) {
            difference |= *left ^ right;
        }
        if difference != 0 {
            return Ok(HandshakeAeadOpenResult::Invalid);
        }
        for (index, byte) in ciphertext_and_tag[..plaintext_length]
            .iter_mut()
            .enumerate()
        {
            *byte ^= key[index % key.len()] ^ nonce[index % nonce.len()];
        }
        if self.wrong_open_length.replace(false) {
            Ok(HandshakeAeadOpenResult::Opened(plaintext_length - 1))
        } else {
            Ok(HandshakeAeadOpenResult::Opened(plaintext_length))
        }
    }
}

fn ml_kem_test_secret(
    key_seed: u8,
    ciphertext: &[u8; ML_KEM_768_CIPHERTEXT_LEN],
    output: &mut [u8; ML_KEM_SHARED_SECRET_LEN],
) {
    let mut hash = Sha384::new();
    hash.update([key_seed]);
    hash.update(ciphertext);
    output.copy_from_slice(&hash.finalize()[..ML_KEM_SHARED_SECRET_LEN]);
}

fn aead_test_tag(
    key: &[u8; AEAD_KEY_LEN],
    nonce: &[u8; AEAD_IV_LEN],
    additional_data: &[u8],
    ciphertext: &[u8],
) -> [u8; 16] {
    let mut hash = Sha384::new();
    hash.update(key);
    hash.update(nonce);
    hash.update(additional_data);
    hash.update(ciphertext);
    hash.finalize()[..16].try_into().expect("fixed tag")
}

struct IdentityAuthFixture {
    seed: u8,
    ml_dsa_public_key: [u8; ML_DSA_65_PUBLIC_KEY_LEN],
    ml_dsa_signature: [u8; ML_DSA_65_SIGNATURE_LEN],
}

impl IdentityAuthFixture {
    fn new(seed: u8) -> Self {
        Self {
            seed,
            ml_dsa_public_key: [seed.wrapping_add(1); ML_DSA_65_PUBLIC_KEY_LEN],
            ml_dsa_signature: [seed.wrapping_add(3); ML_DSA_65_SIGNATURE_LEN],
        }
    }

    fn value(&self) -> IdentityAuth<'_> {
        IdentityAuth {
            ed25519_public_key: [self.seed; ED25519_PUBLIC_KEY_LEN],
            ml_dsa_public_key: &self.ml_dsa_public_key,
            ed25519_signature: [self.seed.wrapping_add(2); ED25519_SIGNATURE_LEN],
            ml_dsa_signature: &self.ml_dsa_signature,
            finished_mac: [self.seed.wrapping_add(4); FINISHED_MAC_LEN],
        }
    }
}

fn hybrid_pair(provider: &TestProvider) -> (HandshakeSecrets, HandshakeSecrets, Sha384Digest) {
    let pre_auth_hash = [0xa5; SHA384_OUTPUT_LEN];
    let initiator = generate_initiator_hybrid_state(provider).expect("initiator key share");
    let initiator_x25519 = *initiator.x25519_public_key();
    let initiator_ml_kem = *initiator.ml_kem_encapsulation_key();
    let responder = respond_to_initiator(
        provider,
        CipherSuite::Aes256GcmSha384,
        &initiator_x25519,
        &initiator_ml_kem,
        &pre_auth_hash,
    )
    .expect("responder key exchange");
    let responder_x25519 = *responder.x25519_public_key();
    let ciphertext = *responder.ml_kem_ciphertext();
    let initiator_secrets = initiator
        .complete(
            provider,
            CipherSuite::Aes256GcmSha384,
            &responder_x25519,
            &ciphertext,
            &pre_auth_hash,
        )
        .expect("initiator key exchange");
    (initiator_secrets, responder.into_secrets(), pre_auth_hash)
}

#[test]
fn both_hybrid_sides_install_identical_directional_secrets() {
    let provider = TestProvider::default();
    let (initiator, responder, hash) = hybrid_pair(&provider);
    assert_eq!(
        initiator.initiator().traffic_secret(),
        responder.initiator().traffic_secret()
    );
    assert_eq!(
        initiator.responder().traffic_secret(),
        responder.responder().traffic_secret()
    );
    assert_eq!(initiator.master_secret(), responder.master_secret());
    assert_eq!(
        initiator
            .compute_finished(&provider, AuthenticationRole::Responder, &hash)
            .expect("Finished"),
        responder
            .compute_finished(&provider, AuthenticationRole::Responder, &hash)
            .expect("Finished")
    );
    let debug = initiator.debug_text();
    assert!(debug.contains("<redacted>"));
    assert!(!debug.contains("165, 165"));
}

#[test]
fn responder_and_initiator_auth_ciphertexts_use_directional_keys() {
    let provider = TestProvider::default();
    let (mut initiator, mut responder, pre_auth_hash) = hybrid_pair(&provider);
    let responder_fixture = IdentityAuthFixture::new(0x41);
    let responder_auth = responder_fixture.value();
    let mut response_ciphertext = [0_u8; ENCRYPTED_IDENTITY_AUTH_LEN];
    assert_eq!(
        seal_responder_identity_auth(
            &provider,
            &mut responder,
            7,
            &pre_auth_hash,
            responder_auth,
            &mut response_ciphertext,
        ),
        Ok(ENCRYPTED_IDENTITY_AUTH_LEN)
    );
    let opened = open_responder_identity_auth(
        &provider,
        &initiator,
        7,
        &pre_auth_hash,
        &response_ciphertext,
    )
    .expect("responder auth opens");
    assert_eq!(opened.decode().expect("identity auth"), responder_auth);
    assert!(opened.debug_text().contains("<redacted>"));

    let initiator_signature_hash = [0xb6; SHA384_OUTPUT_LEN];
    let initiator_fixture = IdentityAuthFixture::new(0x51);
    let initiator_auth = initiator_fixture.value();
    let mut finish_ciphertext = [0_u8; ENCRYPTED_IDENTITY_AUTH_LEN];
    seal_initiator_identity_auth(
        &provider,
        &mut initiator,
        8,
        &initiator_signature_hash,
        initiator_auth,
        &mut finish_ciphertext,
    )
    .expect("initiator auth seals");
    let opened = open_initiator_identity_auth(
        &provider,
        &responder,
        8,
        &initiator_signature_hash,
        &finish_ciphertext,
    )
    .expect("initiator auth opens");
    assert_eq!(opened.decode().expect("identity auth"), initiator_auth);
}

#[test]
fn aead_tampering_role_snapshot_and_reseal_fail_closed() {
    let provider = TestProvider::default();
    let (initiator, mut responder, pre_auth_hash) = hybrid_pair(&provider);
    let fixture = IdentityAuthFixture::new(0x61);
    let auth = fixture.value();
    let mut ciphertext = [0_u8; ENCRYPTED_IDENTITY_AUTH_LEN];
    seal_responder_identity_auth(
        &provider,
        &mut responder,
        9,
        &pre_auth_hash,
        auth,
        &mut ciphertext,
    )
    .expect("seals");

    let mut tampered = ciphertext;
    tampered[100] ^= 1;
    assert!(matches!(
        open_responder_identity_auth(&provider, &initiator, 9, &pre_auth_hash, &tampered),
        Err(HandshakeCryptoError::AuthenticationFailed)
    ));
    let wrong_hash = [0x77; SHA384_OUTPUT_LEN];
    assert!(matches!(
        open_responder_identity_auth(&provider, &initiator, 9, &wrong_hash, &ciphertext),
        Err(HandshakeCryptoError::AuthenticationFailed)
    ));
    assert!(matches!(
        open_initiator_identity_auth(&provider, &initiator, 9, &pre_auth_hash, &ciphertext),
        Err(HandshakeCryptoError::AuthenticationFailed)
    ));

    let mut repeated_output = [0xa5; ENCRYPTED_IDENTITY_AUTH_LEN];
    assert_eq!(
        seal_responder_identity_auth(
            &provider,
            &mut responder,
            9,
            &pre_auth_hash,
            auth,
            &mut repeated_output,
        ),
        Err(HandshakeCryptoError::HandshakeCiphertextAlreadySealed(
            AuthenticationRole::Responder
        ))
    );
    assert!(repeated_output.iter().all(|byte| *byte == 0));
}

#[test]
fn provider_seal_failure_consumes_direction_and_clears_output() {
    let provider = TestProvider::default();
    let (_, mut responder, hash) = hybrid_pair(&provider);
    let fixture = IdentityAuthFixture::new(0x71);
    let auth = fixture.value();
    provider.fail_seal.set(true);
    let mut output = [0xa5; ENCRYPTED_IDENTITY_AUTH_LEN];
    assert_eq!(
        seal_responder_identity_auth(&provider, &mut responder, 10, &hash, auth, &mut output,),
        Err(HandshakeCryptoError::Provider(TestProviderError))
    );
    assert!(output.iter().all(|byte| *byte == 0));
    assert!(matches!(
        seal_responder_identity_auth(&provider, &mut responder, 10, &hash, auth, &mut output,),
        Err(HandshakeCryptoError::HandshakeCiphertextAlreadySealed(_))
    ));
}

#[test]
fn provider_lengths_are_checked_without_exposing_plaintext() {
    let provider = TestProvider::default();
    let (_initiator, mut responder, hash) = hybrid_pair(&provider);
    let fixture = IdentityAuthFixture::new(0x81);
    let auth = fixture.value();
    provider.wrong_seal_length.set(true);
    let mut output = [0xa5; ENCRYPTED_IDENTITY_AUTH_LEN];
    assert_eq!(
        seal_responder_identity_auth(&provider, &mut responder, 11, &hash, auth, &mut output,),
        Err(HandshakeCryptoError::ProviderLengthMismatch {
            expected: ENCRYPTED_IDENTITY_AUTH_LEN,
            actual: IDENTITY_AUTH_LEN,
        })
    );
    assert!(output.iter().all(|byte| *byte == 0));

    let (initiator, mut responder, _) = hybrid_pair(&provider);
    seal_responder_identity_auth(&provider, &mut responder, 12, &hash, auth, &mut output)
        .expect("valid seal");
    provider.wrong_open_length.set(true);
    assert!(matches!(
        open_responder_identity_auth(&provider, &initiator, 12, &hash, &output),
        Err(HandshakeCryptoError::ProviderLengthMismatch {
            expected,
            actual,
        }) if expected == IDENTITY_AUTH_LEN && actual == IDENTITY_AUTH_LEN - 1
    ));
}

#[test]
fn all_zero_x25519_output_is_rejected() {
    let provider = TestProvider::default();
    let initiator = generate_initiator_hybrid_state(&provider).expect("initiator");
    provider.zero_x25519.set(true);
    assert!(matches!(
        respond_to_initiator(
            &provider,
            CipherSuite::Aes256GcmSha384,
            initiator.x25519_public_key(),
            initiator.ml_kem_encapsulation_key(),
            &[0x55; SHA384_OUTPUT_LEN],
        ),
        Err(HandshakeCryptoError::AllZeroX25519SharedSecret)
    ));
}

impl ForkableSha384Provider for TestProvider {
    fn fork_sha384(&self, context: &Self::Context) -> Result<Self::Context, Self::Error> {
        Ok(context.clone())
    }
}

impl HybridAuthenticationProvider for TestProvider {
    type VerificationError = TestProviderError;

    fn verify_hmac_sha384(
        &self,
        _key: &[u8; FINISHED_MAC_LEN],
        _transcript_hash: &[u8; SHA384_OUTPUT_LEN],
        _received_mac: &[u8; FINISHED_MAC_LEN],
    ) -> Result<VerificationResult, Self::VerificationError> {
        Ok(VerificationResult::Valid)
    }

    fn verify_ed25519(
        &self,
        _public_key: &[u8; ED25519_PUBLIC_KEY_LEN],
        _message: &[u8],
        _signature: &[u8; ED25519_SIGNATURE_LEN],
    ) -> Result<VerificationResult, Self::VerificationError> {
        Ok(VerificationResult::Valid)
    }

    fn verify_ml_dsa_65(
        &self,
        _public_key: &[u8; ML_DSA_65_PUBLIC_KEY_LEN],
        _message: &[u8],
        _signature: &[u8; ML_DSA_65_SIGNATURE_LEN],
    ) -> Result<VerificationResult, Self::VerificationError> {
        Ok(VerificationResult::Valid)
    }
}

fn authenticated_peer(provider: &TestProvider) -> AuthenticatedIdentity {
    let fixture = IdentityAuthFixture::new(0x21);
    let auth = fixture.value();
    let fingerprint = identity_fingerprint(
        provider,
        &auth.ed25519_public_key,
        &fixture.ml_dsa_public_key,
    )
    .expect("fingerprint");
    authenticate_peer_identity(
        provider,
        PeerAuthenticationContext {
            role: AuthenticationRole::Initiator,
            signature_transcript_hash: &[0x66; SHA384_OUTPUT_LEN],
            finished_transcript_hash: &[0x77; SHA384_OUTPUT_LEN],
            finished_key: &[0x88; FINISHED_MAC_LEN],
            announced_fingerprint: &fingerprint,
            trust_anchor_fingerprint: &fingerprint,
        },
        &auth,
    )
    .expect("peer authenticates")
}

fn completed_transcript(provider: &TestProvider) -> InitiatorTranscriptMilestone {
    let hello = Hello {
        client_random: [0x11; RANDOM_LEN],
        identity_fingerprint: [0x22; IDENTITY_FINGERPRINT_LEN],
        cipher_suite_bitmap: CIPHER_SUITE_AES_256_GCM_SHA384_BIT,
        capabilities: 0,
        max_udp_payload: 1_400,
        max_paths: 1,
    };
    let mut hello_value = [0_u8; HELLO_LEN];
    hello.encode(&mut hello_value).expect("HELLO encodes");
    let cookie = [0xa5; 32];
    let mut retry_value = vec![0_u8; RETRY_FIXED_LEN + cookie.len()];
    Retry {
        server_random: [0x33; RANDOM_LEN],
        cookie: &cookie,
    }
    .encode(&mut retry_value)
    .expect("RETRY encodes");
    let mut init_value = vec![0_u8; INIT_FIXED_LEN + cookie.len()];
    Init {
        hello,
        server_random: [0x33; RANDOM_LEN],
        cookie: &cookie,
        x25519_public_key: [0x44; X25519_PUBLIC_KEY_LEN],
        ml_kem_encapsulation_key: &[0x55; ML_KEM_768_ENCAPSULATION_KEY_LEN],
    }
    .encode(&mut init_value)
    .expect("INIT encodes");
    let mut response_value = [0_u8; RESPONSE_LEN];
    Response {
        selected_cipher_suite: CipherSuite::Aes256GcmSha384,
        negotiated_capabilities: 0,
        max_udp_payload: 1_400,
        max_paths: 1,
        identity_fingerprint: [0x66; IDENTITY_FINGERPRINT_LEN],
        x25519_public_key: [0x77; X25519_PUBLIC_KEY_LEN],
        ml_kem_ciphertext: &[0x88; ML_KEM_768_CIPHERTEXT_LEN],
        encrypted_identity_auth: &[0x99; ENCRYPTED_IDENTITY_AUTH_LEN],
    }
    .encode(&mut response_value)
    .expect("RESPONSE encodes");
    let mut responder_auth = [0_u8; IDENTITY_AUTH_LEN];
    IdentityAuthFixture::new(0xb0)
        .value()
        .encode(&mut responder_auth)
        .expect("responder authentication encodes");
    let mut initiator_auth = [0_u8; IDENTITY_AUTH_LEN];
    IdentityAuthFixture::new(0xc0)
        .value()
        .encode(&mut initiator_auth)
        .expect("initiator authentication encodes");

    let session = SessionContext {
        version: 1,
        initiator_connection_id: b"initiator",
        responder_connection_id: b"responder",
    };
    let mut transcript = HandshakeTranscript::new(provider, session).expect("starts");
    transcript.record_hello(provider, &hello_value).expect("HELLO");
    transcript.record_retry(provider, &retry_value).expect("RETRY");
    transcript.record_init(provider, &init_value).expect("INIT");
    transcript
        .record_response(provider, &response_value)
        .expect("RESPONSE");
    transcript
        .record_responder_auth(provider, &responder_auth)
        .expect("responder authentication");
    transcript
        .record_initiator_auth(provider, &initiator_auth)
        .expect("initiator authentication")
}

fn reference_hmac(key: &[u8], parts: &[&[u8]]) -> [u8; 48] {
    let mut mac = HmacSha384::new_from_slice(key).expect("HMAC key");
    for part in parts {
        mac.update(part);
    }
    mac.finalize().into_bytes().into()
}

/// HKDF-Expand-Label for outputs of at most one SHA-384 block.
fn reference_expand(secret: &[u8], label: &[u8], context: &[u8], length: u8) -> Vec<u8> {
    let full_label = [b"ogtp1 ", label].concat();
    let block = reference_hmac(
        secret,
        &[
            &[0, length],
            &[u8::try_from(full_label.len()).expect("short label")],
            &full_label,
            &[u8::try_from(context.len()).expect("short context")],
            context,
            &[1],
        ],
    );
    block[..usize::from(length)].to_vec()
}

#[test]
fn installed_schedule_matches_an_independent_derivation() {
    let provider = TestProvider::default();
    let hybrid = [0x3c; HYBRID_SHARED_SECRET_LEN];
    let pre_auth: Sha384Digest = [0xa5; SHA384_OUTPUT_LEN];
    let empty_hash = Sha384::digest([]);
    let early = reference_hmac(&[0; 48], &[&[0; 48]]);
    let handshake = reference_hmac(
        &reference_expand(&early, b"derived", &empty_hash, 48),
        &[&hybrid],
    );
    let initiator = reference_expand(&handshake, b"i hs", &pre_auth, 48);
    let responder = reference_expand(&handshake, b"r hs", &pre_auth, 48);
    let master = reference_hmac(
        &reference_expand(&handshake, b"derived", &empty_hash, 48),
        &[&[0; 48]],
    );

    let secrets =
        derive_handshake_secrets(&provider, CipherSuite::Aes256GcmSha384, &hybrid, &pre_auth)
            .expect("schedule");
    assert_eq!(secrets.suite(), CipherSuite::Aes256GcmSha384);
    for (direction, traffic) in [
        (secrets.initiator(), &initiator),
        (secrets.responder(), &responder),
    ] {
        assert_eq!(direction.traffic_secret()[..], traffic[..]);
        assert_eq!(
            direction.finished_key()[..],
            reference_expand(traffic, b"finished", &[], 48)[..]
        );
        assert_eq!(
            direction.aead_key()[..],
            reference_expand(traffic, b"key", &[], 32)[..]
        );
        assert_eq!(
            direction.aead_iv()[..],
            reference_expand(traffic, b"iv", &[], 12)[..]
        );
    }
    assert_eq!(secrets.master_secret()[..], master[..]);
    assert_eq!(
        secrets
            .compute_finished(&provider, AuthenticationRole::Initiator, &pre_auth)
            .expect("Finished")[..],
        reference_hmac(&reference_expand(&initiator, b"finished", &[], 48), &[&pre_auth])[..]
    );

    let milestone = completed_transcript(&provider);
    let peer = authenticated_peer(&provider);
    let full = *milestone.full();
    let application = secrets
        .derive_application_secrets(&provider, &milestone, &peer)
        .expect("application secrets");
    assert_eq!(
        application.initiator()[..],
        reference_expand(&master, b"i ap", &full, 48)[..]
    );
    assert_eq!(
        application.responder()[..],
        reference_expand(&master, b"r ap", &full, 48)[..]
    );
    assert!(application.debug_text().contains("<redacted>"));
}

#[test]
fn handshake_nonce_xors_only_the_low_four_bytes() {
    let iv = [0xa5; AEAD_IV_LEN];
    let nonce = handshake_nonce(&iv, 0x0102_0304);
    assert_eq!(&nonce[..8], &[0xa5; 8]);
    assert_eq!(&nonce[8..], &[0xa4, 0xa7, 0xa6, 0xa1]);
}

#[test]
fn handshake_nonces_of_one_key_differ_per_message() {
    let iv = [0x5a; AEAD_IV_LEN];
    let mut seen: Vec<[u8; AEAD_IV_LEN]> = Vec::new();
    for message_id in [0, 1, 255, 256, 65_536, u32::MAX] {
        let nonce = handshake_nonce(&iv, message_id);
        assert!(!seen.contains(&nonce));
        seen.push(nonce);
    }
}

#[test]
fn identity_ciphertexts_and_outputs_have_exact_lengths() {
    let provider = TestProvider::default();
    let (initiator, mut responder, hash) = hybrid_pair(&provider);
    assert_eq!(
        open_responder_identity_auth(
            &provider,
            &initiator,
            1,
            &hash,
            &[0; ENCRYPTED_IDENTITY_AUTH_LEN - 1]
        )
        .err(),
        Some(HandshakeCryptoError::InvalidCiphertextLength {
            expected: ENCRYPTED_IDENTITY_AUTH_LEN,
            actual: ENCRYPTED_IDENTITY_AUTH_LEN - 1,
        })
    );
    let fixture = IdentityAuthFixture::new(0x71);
    let mut short = [0_u8; ENCRYPTED_IDENTITY_AUTH_LEN - 1];
    assert!(matches!(
        seal_responder_identity_auth(
            &provider,
            &mut responder,
            1,
            &hash,
            fixture.value(),
            &mut short
        ),
        Err(HandshakeCryptoError::Wire(_))
    ));
    let mut output = [0_u8; ENCRYPTED_IDENTITY_AUTH_LEN];
    assert_eq!(
        settle_sealed_identity(Err("failure"), &mut output),
        Err(HandshakeCryptoError::Provider("failure"))
    );
    assert_eq!(
        settle_opened_identity::<()>(Ok(HandshakeAeadOpenResult::Invalid)),
        Err(HandshakeCryptoError::AuthenticationFailed)
    );
    assert_eq!(
        settle_opened_identity::<()>(Ok(HandshakeAeadOpenResult::Opened(IDENTITY_AUTH_LEN))),
        Ok(())
    );
    let failure: HandshakeCryptoError<()> = HandshakeCryptoError::Provider(());
    assert!(failure.message("offline").ends_with("offline"));
}
