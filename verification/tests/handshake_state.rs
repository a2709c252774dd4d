use ogtp::crypto::{ForkableSha384Provider, Sha384Digest, Sha384Provider};
use ogtp::handshake::{
    CAPABILITY_MULTIPATH_BIT, CAPABILITY_PERIODIC_HYBRID_REKEY_BIT, CAPABILITY_RESUME_BIT,
    CIPHER_SUITE_AES_256_GCM_SHA384_BIT, CIPHER_SUITE_CHACHA20_POLY1305_SHA384_BIT,
    CipherSuite, ED25519_PUBLIC_KEY_LEN, ED25519_SIGNATURE_LEN, ENCRYPTED_IDENTITY_AUTH_LEN,
    FINISHED_MAC_LEN, HELLO_LEN, Hello, IDENTITY_AUTH_LEN, IDENTITY_FINGERPRINT_LEN,
    INIT_FIXED_LEN, IdentityAuth, Init, MIN_RETRY_COOKIE_LEN, ML_DSA_65_PUBLIC_KEY_LEN,
    ML_DSA_65_SIGNATURE_LEN, ML_KEM_768_CIPHERTEXT_LEN, ML_KEM_768_ENCAPSULATION_KEY_LEN,
    RANDOM_LEN, RESPONSE_FIXED_LEN, RESPONSE_LEN, RETRY_FIXED_LEN, Response, Retry,
    X25519_PUBLIC_KEY_LEN,
};
use ogtp::handshake_state::{
    HandshakeAssemblyStatus, HandshakeReassembler, HandshakeReassemblyError,
    ReassemblyAdmission, StatelessHandshakeMessage, decode_init_admission_prefix,
    decode_stateless_message,
};
use ogtp::handshake_state::transcript_state::{
    HandshakeTranscript, HandshakeTranscriptError, HandshakeTranscriptStage,
    IDENTITY_AUTH_CONTENT_LEN, MAX_SESSION_CONTEXT_LEN,
};
use ogtp::retry::{
    HandshakeAdmissionLease, HandshakeAdmissionTable, RETRY_COOKIE_LEN,
    RETRY_COOKIE_NONCE_LEN, RetryCookieBinding, RetryCookieKey, RetryCookieKeyRing,
    RetryCookieOpenResult, RetryCookiePolicy, RetryCookieProvider, RetrySourceAddress,
    issue_retry_cookie, validate_retry_cookie,
};
use ogtp::transcript::{SessionContext, TranscriptRecordType, TranscriptSink, feed_record};
use ogtp::wire::{AEAD_TAG_LEN, WireError};
use ogtp::wire::long::{LongPacket, LongPacketType, MAX_LONG_CONNECTION_ID_LEN};
use core::cell::Cell;

use sha2::{Digest, Sha384};

#[derive(Clone)]
struct Sha384Context(Sha384);

impl TranscriptSink for Sha384Context {
    fn update(&mut self, bytes: &[u8]) {
        self.0.update(bytes);
    }
}

#[derive(Clone, Copy, Debug, Eq, PartialEq)]
struct ProviderError;

#[derive(Default)]
struct TestProvider {
    fail_next_fork: Cell<bool>,
    successful_forks_before_failure: Cell<Option<usize>>,
}

impl Sha384Provider for TestProvider {
    type Context = Sha384Context;
    type Error = ProviderError;

    fn start_sha384(&self) -> Result<Self::Context, Self::Error> {
        Ok(Sha384Context(Sha384::new()))
    }

    fn finish_sha384(&self, context: Self::Context) -> Result<Sha384Digest, Self::Error> {
        Ok(context.0.finalize().into())
    }
}

impl RetryCookieProvider for TestProvider {
    type Key = ();

    fn seal_retry_cookie(
        &self,
        _key: &Self::Key,
        _nonce: &[u8; RETRY_COOKIE_NONCE_LEN],
        _additional_data: &[u8],
        plaintext_and_tag: &mut [u8],
        plaintext_length: usize,
    ) -> Result<usize, Self::Error> {
        plaintext_and_tag[plaintext_length..plaintext_length + AEAD_TAG_LEN].fill(0x5a);
        Ok(plaintext_length + AEAD_TAG_LEN)
    }

    fn open_retry_cookie(
        &self,
        _key: &Self::Key,
        _nonce: &[u8; RETRY_COOKIE_NONCE_LEN],
        _additional_data: &[u8],
        ciphertext_and_tag: &mut [u8],
    ) -> Result<RetryCookieOpenResult, Self::Error> {
        Ok(RetryCookieOpenResult::Opened(
            ciphertext_and_tag.len() - AEAD_TAG_LEN,
        ))
    }
}

fn admission_lease() -> HandshakeAdmissionLease {
    let provider = TestProvider::default();
    let policy = RetryCookiePolicy::new(30, 0).expect("valid policy");
    let key = RetryCookieKey::new(1, (), [0; 8], 100, 200, 300).expect("valid key");
    let mut ring = RetryCookieKeyRing::new(key);
    let binding = RetryCookieBinding {
        source_address: RetrySourceAddress::Ipv4([192, 0, 2, 1]),
        source_port: 40_000,
        version: 1,
        initiator_connection_id: b"initiator",
        responder_connection_id: b"responder",
        hello: canonical_hello(),
        server_random: [0x33; RANDOM_LEN],
    };
    let mut cookie = [0_u8; RETRY_COOKIE_LEN];
    issue_retry_cookie(&provider, &mut ring, policy, &binding, 110, &mut cookie)
        .expect("cookie issues");
    let validated = validate_retry_cookie(&provider, &ring, policy, &binding, 110, &cookie)
        .expect("cookie validates");
    HandshakeAdmissionTable::<1>::new(1, 10)
        .expect("valid table")
        .admit_handshake(&validated, 110)
        .expect("source is admitted")
        .lease()
}

impl ForkableSha384Provider for TestProvider {
    fn fork_sha384(&self, context: &Self::Context) -> Result<Self::Context, Self::Error> {
        if self.fail_next_fork.replace(false) {
            return Err(ProviderError);
        }
        if let Some(remaining) = self.successful_forks_before_failure.get() {
            if remaining == 0 {
                self.successful_forks_before_failure.set(None);
                return Err(ProviderError);
            }
            self.successful_forks_before_failure
                .set(Some(remaining - 1));
        }
        Ok(context.clone())
    }
}

#[derive(Default)]
struct Recorder(Vec<u8>);

impl TranscriptSink for Recorder {
    fn update(&mut self, bytes: &[u8]) {
        self.0.extend_from_slice(bytes);
    }
}

fn digest(recorder: &Recorder) -> Sha384Digest {
    Sha384::digest(&recorder.0).into()
}

fn canonical_hello() -> Hello {
    Hello {
        client_random: [0x11; RANDOM_LEN],
        identity_fingerprint: [0x22; IDENTITY_FINGERPRINT_LEN],
        cipher_suite_bitmap: CIPHER_SUITE_AES_256_GCM_SHA384_BIT
            | CIPHER_SUITE_CHACHA20_POLY1305_SHA384_BIT,
        capabilities: CAPABILITY_MULTIPATH_BIT | CAPABILITY_RESUME_BIT,
        max_udp_payload: 1_400,
        max_paths: 4,
    }
}

fn encode_hello() -> [u8; HELLO_LEN] {
    let mut value = [0_u8; HELLO_LEN];
    canonical_hello().encode(&mut value).expect("valid HELLO");
    value
}

fn encode_retry(cookie: &[u8]) -> Vec<u8> {
    let mut value = vec![0_u8; RETRY_FIXED_LEN + cookie.len()];
    Retry {
        server_random: [0x33; RANDOM_LEN],
        cookie,
    }
    .encode(&mut value)
    .expect("valid RETRY");
    value
}

fn encode_init(cookie: &[u8]) -> Vec<u8> {
    let mut value = vec![0_u8; INIT_FIXED_LEN + cookie.len()];
    Init {
        hello: canonical_hello(),
        server_random: [0x33; RANDOM_LEN],
        cookie,
        x25519_public_key: [0x44; X25519_PUBLIC_KEY_LEN],
        ml_kem_encapsulation_key: &[0x55; ML_KEM_768_ENCAPSULATION_KEY_LEN],
    }
    .encode(&mut value)
    .expect("valid INIT");
    value
}

fn encode_response() -> [u8; RESPONSE_LEN] {
    let mut value = [0_u8; RESPONSE_LEN];
    Response {
        selected_cipher_suite: CipherSuite::Aes256GcmSha384,
        negotiated_capabilities: CAPABILITY_MULTIPATH_BIT,
        max_udp_payload: 1_400,
        max_paths: 2,
        identity_fingerprint: [0x66; IDENTITY_FINGERPRINT_LEN],
        x25519_public_key: [0x77; X25519_PUBLIC_KEY_LEN],
        ml_kem_ciphertext: &[0x88; ML_KEM_768_CIPHERTEXT_LEN],
        encrypted_identity_auth: &[0x99; ENCRYPTED_IDENTITY_AUTH_LEN],
    }
    .encode(&mut value)
    .expect("valid RESPONSE");
    value
}

fn encode_identity_auth(seed: u8) -> [u8; IDENTITY_AUTH_LEN] {
    let mut value = [0_u8; IDENTITY_AUTH_LEN];
    IdentityAuth {
        ed25519_public_key: [seed; ED25519_PUBLIC_KEY_LEN],
        ml_dsa_public_key: &[seed.wrapping_add(1); ML_DSA_65_PUBLIC_KEY_LEN],
        ed25519_signature: [seed.wrapping_add(2); ED25519_SIGNATURE_LEN],
        ml_dsa_signature: &[seed.wrapping_add(3); ML_DSA_65_SIGNATURE_LEN],
        finished_mac: [seed.wrapping_add(4); FINISHED_MAC_LEN],
    }
    .encode(&mut value)
    .expect("valid identity authentication");
    value
}

fn packet(
    packet_type: LongPacketType,
    message_id: u32,
    message_length: usize,
    fragment_offset: usize,
    fragment: &[u8],
) -> LongPacket<'_> {
    LongPacket {
        packet_type,
        version: 1,
        destination_connection_id: b"responder",
        source_connection_id: b"initiator",
        message_id,
        fragment_offset: u16::try_from(fragment_offset).expect("test offset fits"),
        message_length: u16::try_from(message_length).expect("test length fits"),
        fragment,
    }
}

#[test]
fn hello_and_retry_are_decoded_without_a_pool_slot() {
    let hello = encode_hello();
    assert!(
        decode_stateless_message(&packet(LongPacketType::Hello, 1, HELLO_LEN, 0, &hello))
            == Ok(StatelessHandshakeMessage::Hello(canonical_hello()))
    );

    let cookie = [0xa5; MIN_RETRY_COOKIE_LEN];
    let retry = encode_retry(&cookie);
    match decode_stateless_message(&packet(LongPacketType::Retry, 2, retry.len(), 0, &retry))
        .expect("complete RETRY")
    {
        StatelessHandshakeMessage::Retry(decoded) => assert_eq!(decoded.cookie, cookie),
        other => panic!("unexpected stateless message: {}", other.debug_text()),
    }

    let mut pool = HandshakeReassembler::<1>::new();
    assert_eq!(
        pool.ingest(
            &packet(LongPacketType::Hello, 1, HELLO_LEN, 0, &hello),
            ReassemblyAdmission::ExistingHandshake,
        ),
        Err(HandshakeReassemblyError::StatelessMessageDoesNotUsePool)
    );
    assert_eq!(pool.active_slots(), 0);
}

#[test]
fn init_cookie_is_available_before_slot_allocation_and_debug_is_redacted() {
    let cookie = [0xa5; 32];
    let init = encode_init(&cookie);
    let first_fragment = &init[..400];
    let view = decode_init_admission_prefix(&packet(
        LongPacketType::Init,
        3,
        init.len(),
        0,
        first_fragment,
    ))
    .expect("INIT prefix");
    assert_eq!(view.hello, canonical_hello());
    assert_eq!(view.server_random, [0x33; RANDOM_LEN]);
    assert_eq!(view.cookie, cookie);
    let debug = view.debug_text();
    assert!(debug.contains("<redacted>"));
    assert!(!debug.contains("165"));
}

#[test]
fn reassembly_is_out_of_order_idempotent_and_bounded() {
    let response = encode_response();
    let split = 3_000;
    let mut pool = HandshakeReassembler::<1>::new();
    let tail = packet(
        LongPacketType::Response,
        7,
        RESPONSE_LEN,
        split,
        &response[split..],
    );
    assert_eq!(
        pool.ingest(&tail, ReassemblyAdmission::ExistingHandshake),
        Ok(HandshakeAssemblyStatus::Incomplete {
            packet_type: LongPacketType::Response,
            message_id: 7,
            received_bytes: RESPONSE_LEN - split,
            message_length: RESPONSE_LEN,
        })
    );
    assert_eq!(
        pool.ingest(&tail, ReassemblyAdmission::ExistingHandshake),
        Ok(HandshakeAssemblyStatus::Incomplete {
            packet_type: LongPacketType::Response,
            message_id: 7,
            received_bytes: RESPONSE_LEN - split,
            message_length: RESPONSE_LEN,
        })
    );
    assert_eq!(
        pool.ingest(
            &packet(
                LongPacketType::Response,
                7,
                RESPONSE_LEN,
                0,
                &response[..split],
            ),
            ReassemblyAdmission::ExistingHandshake,
        ),
        Ok(HandshakeAssemblyStatus::Complete {
            packet_type: LongPacketType::Response,
            message_id: 7,
            message_length: RESPONSE_LEN,
        })
    );
    let complete = pool
        .completed_message(LongPacketType::Response, 7)
        .expect("complete message");
    assert_eq!(complete.value, response);
    assert_eq!(complete.destination_connection_id, b"responder");
    let message_debug = complete.debug_text();
    assert!(message_debug.contains("<redacted, 6601 bytes>"));
    assert!(!message_debug.contains("153, 153"));
    let pool_debug = pool.debug_text();
    assert!(pool_debug.contains("slots: \"<redacted>\""));
    assert!(pool.release(LongPacketType::Response, 7));
    assert_eq!(pool.active_slots(), 0);
    assert!(core::mem::size_of::<HandshakeReassembler<1>>() < 20 * 1_024);
}

#[test]
fn overlap_and_metadata_changes_fail_closed() {
    let response = encode_response();
    let mut pool = HandshakeReassembler::<1>::new();
    pool.ingest(
        &packet(
            LongPacketType::Response,
            8,
            RESPONSE_LEN,
            0,
            &response[..100],
        ),
        ReassemblyAdmission::ExistingHandshake,
    )
    .expect("first fragment");
    let mut conflicting = response[50..100].to_vec();
    conflicting[10] ^= 1;
    assert_eq!(
        pool.ingest(
            &packet(LongPacketType::Response, 8, RESPONSE_LEN, 50, &conflicting,),
            ReassemblyAdmission::ExistingHandshake,
        ),
        Err(HandshakeReassemblyError::ConflictingOverlap {
            packet_type: LongPacketType::Response,
            message_id: 8,
            offset: 60,
        })
    );
    assert_eq!(pool.active_slots(), 0);

    let first = packet(
        LongPacketType::Response,
        9,
        RESPONSE_LEN,
        0,
        &response[..100],
    );
    pool.ingest(&first, ReassemblyAdmission::ExistingHandshake)
        .expect("first fragment");
    let mut changed = first;
    changed.version = 2;
    assert_eq!(
        pool.ingest(&changed, ReassemblyAdmission::ExistingHandshake),
        Err(HandshakeReassemblyError::MessageMetadataChanged {
            packet_type: LongPacketType::Response,
            message_id: 9,
        })
    );
    assert_eq!(pool.active_slots(), 0);
}

#[test]
fn invalid_or_unadmitted_fragments_do_not_consume_slots() {
    let response = encode_response();
    let mut pool = HandshakeReassembler::<1>::new();
    assert_eq!(
        pool.ingest(
            &packet(
                LongPacketType::Response,
                10,
                RESPONSE_LEN,
                0,
                &response[..100],
            ),
            ReassemblyAdmission::CookieValidated(admission_lease()),
        ),
        Err(HandshakeReassemblyError::AdmissionRequired(
            LongPacketType::Response
        ))
    );

    let invalid_bounds = packet(
        LongPacketType::Response,
        10,
        RESPONSE_LEN,
        RESPONSE_LEN - 10,
        &response[..100],
    );
    assert_eq!(
        pool.ingest(&invalid_bounds, ReassemblyAdmission::ExistingHandshake),
        Err(HandshakeReassemblyError::Wire(
            WireError::InvalidFragmentBounds
        ))
    );

    let oversized_connection_id = [0_u8; MAX_LONG_CONNECTION_ID_LEN + 1];
    let mut invalid_connection_id = packet(
        LongPacketType::Response,
        10,
        RESPONSE_LEN,
        0,
        &response[..100],
    );
    invalid_connection_id.destination_connection_id = &oversized_connection_id;
    assert_eq!(
        pool.ingest(
            &invalid_connection_id,
            ReassemblyAdmission::ExistingHandshake,
        ),
        Err(HandshakeReassemblyError::Wire(
            WireError::ConnectionIdTooLong {
                length: MAX_LONG_CONNECTION_ID_LEN + 1,
                maximum: MAX_LONG_CONNECTION_ID_LEN,
            }
        ))
    );
    assert_eq!(pool.active_slots(), 0);

    pool.ingest(
        &packet(
            LongPacketType::Response,
            11,
            RESPONSE_LEN,
            0,
            &response[..100],
        ),
        ReassemblyAdmission::ExistingHandshake,
    )
    .expect("occupies only slot");
    assert_eq!(
        pool.ingest(
            &packet(
                LongPacketType::Response,
                12,
                RESPONSE_LEN,
                0,
                &response[..100],
            ),
            ReassemblyAdmission::ExistingHandshake,
        ),
        Err(HandshakeReassemblyError::PoolExhausted)
    );
    assert_eq!(pool.active_slots(), 1);
}

#[test]
fn transcript_snapshots_match_independent_canonical_hashing() {
    let provider = TestProvider::default();
    let session = SessionContext {
        version: 1,
        initiator_connection_id: b"initiator",
        responder_connection_id: b"responder",
    };
    let hello = encode_hello();
    let cookie = [0xa5; 32];
    let retry = encode_retry(&cookie);
    let init = encode_init(&cookie);
    let response = encode_response();
    let responder_auth = encode_identity_auth(0xb0);
    let initiator_auth = encode_identity_auth(0xc0);

    let mut expected = Recorder::default();
    let mut session_value = [0_u8; MAX_SESSION_CONTEXT_LEN];
    let session_length = session.encode(&mut session_value).expect("session context");
    feed_record(
        &mut expected,
        TranscriptRecordType::SessionContext,
        &session_value[..session_length],
    )
    .expect("record");
    feed_record(&mut expected, TranscriptRecordType::Hello, &hello).expect("record");
    feed_record(&mut expected, TranscriptRecordType::Retry, &retry).expect("record");
    feed_record(&mut expected, TranscriptRecordType::Init, &init).expect("record");
    feed_record(
        &mut expected,
        TranscriptRecordType::ResponsePrefix,
        &response[..RESPONSE_FIXED_LEN],
    )
    .expect("record");
    let expected_pre_auth = digest(&expected);
    feed_record(
        &mut expected,
        TranscriptRecordType::ResponderAuthContent,
        &responder_auth[..IDENTITY_AUTH_CONTENT_LEN],
    )
    .expect("record");
    let expected_responder_finished = digest(&expected);
    feed_record(
        &mut expected,
        TranscriptRecordType::ResponderFinished,
        &responder_auth[IDENTITY_AUTH_CONTENT_LEN..],
    )
    .expect("record");
    let expected_initiator_signature = digest(&expected);
    feed_record(
        &mut expected,
        TranscriptRecordType::InitiatorAuthContent,
        &initiator_auth[..IDENTITY_AUTH_CONTENT_LEN],
    )
    .expect("record");
    let expected_initiator_finished = digest(&expected);
    feed_record(
        &mut expected,
        TranscriptRecordType::InitiatorFinished,
        &initiator_auth[IDENTITY_AUTH_CONTENT_LEN..],
    )
    .expect("record");
    let expected_full = digest(&expected);

    let mut transcript = HandshakeTranscript::new(&provider, session).expect("starts");
    transcript.record_hello(&provider, &hello).expect("HELLO");
    transcript.record_retry(&provider, &retry).expect("RETRY");
    transcript.record_init(&provider, &init).expect("INIT");
    assert_eq!(
        transcript
            .record_response(&provider, &response)
            .expect("RESPONSE"),
        expected_pre_auth
    );
    let responder = transcript
        .record_responder_auth(&provider, &responder_auth)
        .expect("responder authentication");
    assert_eq!(responder.authentication.signature(), &expected_pre_auth);
    assert_eq!(
        responder.authentication.finished(),
        &expected_responder_finished
    );
    assert_eq!(
        responder.initiator_signature(),
        &expected_initiator_signature
    );
    let initiator = transcript
        .record_initiator_auth(&provider, &initiator_auth)
        .expect("initiator authentication");
    assert_eq!(
        initiator.authentication.signature(),
        &expected_initiator_signature
    );
    assert_eq!(
        initiator.authentication.finished(),
        &expected_initiator_finished
    );
    assert_eq!(initiator.full(), &expected_full);
    assert_eq!(transcript.stage(), HandshakeTranscriptStage::Complete);
}

#[test]
fn transcript_validation_failures_preserve_the_expected_stage() {
    let provider = TestProvider::default();
    let session = SessionContext {
        version: 1,
        initiator_connection_id: b"initiator",
        responder_connection_id: b"responder",
    };
    let hello = encode_hello();
    let cookie = [0xa5; 32];
    let retry = encode_retry(&cookie);
    let init = encode_init(&cookie);
    let response = encode_response();
    let mut transcript = HandshakeTranscript::new(&provider, session).expect("starts");
    transcript.record_hello(&provider, &hello).expect("HELLO");
    transcript.record_retry(&provider, &retry).expect("RETRY");

    let mut mismatched_init = init.clone();
    mismatched_init[HELLO_LEN] ^= 1;
    assert_eq!(
        transcript.record_init(&provider, &mismatched_init),
        Err(HandshakeTranscriptError::InitDoesNotMatchRetry)
    );
    assert_eq!(transcript.stage(), HandshakeTranscriptStage::ExpectInit);
    transcript
        .record_init(&provider, &init)
        .expect("correct INIT");

    let mut excessive_response = response;
    excessive_response[2..6]
        .copy_from_slice(&CAPABILITY_PERIODIC_HYBRID_REKEY_BIT.to_be_bytes());
    assert_eq!(
        transcript.record_response(&provider, &excessive_response),
        Err(HandshakeTranscriptError::NegotiationMismatch)
    );
    assert_eq!(transcript.stage(), HandshakeTranscriptStage::ExpectResponse);
    transcript
        .record_response(&provider, &response)
        .expect("correct RESPONSE");
}

#[test]
fn provider_failure_does_not_commit_a_transcript_transition() {
    let provider = TestProvider::default();
    let session = SessionContext {
        version: 1,
        initiator_connection_id: b"initiator",
        responder_connection_id: b"responder",
    };
    let hello = encode_hello();
    let mut transcript = HandshakeTranscript::new(&provider, session).expect("starts");
    provider.fail_next_fork.set(true);
    assert_eq!(
        transcript.record_hello(&provider, &hello),
        Err(HandshakeTranscriptError::Provider(ProviderError))
    );
    assert_eq!(transcript.stage(), HandshakeTranscriptStage::ExpectHello);
    transcript
        .record_hello(&provider, &hello)
        .expect("retry succeeds");
    assert_eq!(transcript.stage(), HandshakeTranscriptStage::ExpectRetry);
}

#[test]
fn snapshot_failure_does_not_commit_partial_records() {
    let provider = TestProvider::default();
    let session = SessionContext {
        version: 1,
        initiator_connection_id: b"initiator",
        responder_connection_id: b"responder",
    };
    let hello = encode_hello();
    let cookie = [0xa5; 32];
    let retry = encode_retry(&cookie);
    let init = encode_init(&cookie);
    let response = encode_response();
    let responder_auth = encode_identity_auth(0xb0);
    let mut transcript = HandshakeTranscript::new(&provider, session).expect("starts");
    transcript.record_hello(&provider, &hello).expect("HELLO");
    transcript.record_retry(&provider, &retry).expect("RETRY");
    transcript.record_init(&provider, &init).expect("INIT");

    provider.successful_forks_before_failure.set(Some(1));
    assert_eq!(
        transcript.record_response(&provider, &response),
        Err(HandshakeTranscriptError::Provider(ProviderError))
    );
    assert_eq!(transcript.stage(), HandshakeTranscriptStage::ExpectResponse);
    transcript
        .record_response(&provider, &response)
        .expect("RESPONSE retry");

    provider.successful_forks_before_failure.set(Some(1));
    assert_eq!(
        transcript
            .record_responder_auth(&provider, &responder_auth)
            .err(),
        Some(HandshakeTranscriptError::Provider(ProviderError))
    );
    assert_eq!(
        transcript.stage(),
        HandshakeTranscriptStage::ExpectResponderAuth
    );
    transcript
        .record_responder_auth(&provider, &responder_auth)
        .expect("authentication retry");
    assert_eq!(
        transcript.stage(),
        HandshakeTranscriptStage::ExpectInitiatorAuth
    );
}

fn response_pool(fragments: &[(usize, usize)], response: &[u8]) -> HandshakeReassembler<1> {
    let mut pool = HandshakeReassembler::<1>::new();
    for (from, to) in fragments {
        pool.ingest(
            &packet(
                LongPacketType::Response,
                7,
                RESPONSE_LEN,
                *from,
                &response[*from..*to],
            ),
            ReassemblyAdmission::ExistingHandshake,
        )
        .expect("fragment of one value");
    }
    pool
}

#[test]
fn fragments_of_one_value_complete_it_in_any_order() {
    let response = encode_response();
    for order in [
        vec![(0, 2_000), (2_000, 4_000), (4_000, RESPONSE_LEN)],
        vec![(4_000, RESPONSE_LEN), (0, 2_000), (2_000, 4_000)],
        vec![(1_000, 5_000), (4_000, RESPONSE_LEN), (0, 2_000), (0, 10)],
    ] {
        let pool = response_pool(&order, &response);
        let complete = pool
            .completed_message(LongPacketType::Response, 7)
            .expect("complete message");
        assert_eq!(complete.value, response);
        assert_eq!(complete.version, 1);
        assert_eq!(complete.source_connection_id, b"initiator");
    }
}

#[test]
fn incomplete_and_unknown_messages_are_told_apart() {
    let response = encode_response();
    let mut pool = response_pool(&[(0, 10)], &response);
    assert_eq!(
        pool.completed_message(LongPacketType::Response, 7).err(),
        Some(HandshakeReassemblyError::MessageIncomplete {
            packet_type: LongPacketType::Response,
            message_id: 7,
        })
    );
    assert_eq!(
        pool.completed_message(LongPacketType::Response, 8).err(),
        Some(HandshakeReassemblyError::UnknownMessage {
            packet_type: LongPacketType::Response,
            message_id: 8,
        })
    );
    assert!(!pool.release(LongPacketType::Response, 8));
    assert!(pool.release(LongPacketType::Response, 7));
    assert!(!pool.release(LongPacketType::Response, 7));
}

#[test]
fn first_flight_messages_need_their_admission() {
    let cookie = [0xa5; 32];
    let init = encode_init(&cookie);
    let mut pool = HandshakeReassembler::<1>::new();
    let fragment = packet(LongPacketType::Init, 3, init.len(), 0, &init[..100]);
    assert_eq!(
        pool.ingest(&fragment, ReassemblyAdmission::ExistingHandshake),
        Err(HandshakeReassemblyError::AdmissionRequired(
            LongPacketType::Init
        ))
    );
    assert_eq!(pool.active_slots(), 0);
    pool.ingest(
        &fragment,
        ReassemblyAdmission::CookieValidated(admission_lease()),
    )
    .expect("admitted fragment");
    assert_eq!(pool.active_slots(), 1);
    assert_eq!(
        pool.ingest(
            &packet(LongPacketType::Response, 3, 100, 0, &init[..100]),
            ReassemblyAdmission::ExistingHandshake,
        ),
        Err(HandshakeReassemblyError::InvalidDeclaredMessageLength {
            packet_type: LongPacketType::Response,
            length: 100,
        })
    );
    assert_eq!(
        HandshakeReassemblyError::InitPrefixTooShort {
            needed: 9,
            actual: 4,
        }
        .message(),
        "INIT admission prefix too short: need 9, got 4"
    );
}

#[test]
fn init_prefixes_are_checked_before_their_cookie_is_read() {
    let cookie = [0xa5; 32];
    let init = encode_init(&cookie);
    assert_eq!(
        decode_init_admission_prefix(&packet(LongPacketType::Init, 3, init.len(), 1, &init[1..]))
            .err(),
        Some(HandshakeReassemblyError::InitPrefixMustStartAtZero)
    );
    assert_eq!(
        decode_init_admission_prefix(&packet(LongPacketType::Finish, 3, init.len(), 0, &init))
            .err(),
        Some(HandshakeReassemblyError::UnexpectedPacketType(
            LongPacketType::Finish
        ))
    );
    let needed = HELLO_LEN + RANDOM_LEN + 2;
    assert_eq!(
        decode_init_admission_prefix(&packet(
            LongPacketType::Init,
            3,
            init.len(),
            0,
            &init[..needed - 1]
        ))
        .err(),
        Some(HandshakeReassemblyError::InitPrefixTooShort {
            needed,
            actual: needed - 1,
        })
    );
    assert_eq!(
        decode_init_admission_prefix(&packet(
            LongPacketType::Init,
            3,
            init.len(),
            0,
            &init[..needed + 31]
        ))
        .err(),
        Some(HandshakeReassemblyError::InitPrefixTooShort {
            needed: needed + 32,
            actual: needed + 31,
        })
    );
}

#[test]
fn stateless_messages_are_never_fragmented() {
    let hello = encode_hello();
    assert_eq!(
        decode_stateless_message(&packet(LongPacketType::Hello, 1, HELLO_LEN, 0, &hello[..89]))
            .err(),
        Some(HandshakeReassemblyError::StatelessMessageFragmented)
    );
    assert_eq!(
        decode_stateless_message(&packet(LongPacketType::Init, 1, HELLO_LEN, 0, &hello)).err(),
        Some(HandshakeReassemblyError::UnexpectedPacketType(
            LongPacketType::Init
        ))
    );
}

#[test]
fn transcripts_accept_one_message_per_stage() {
    let provider = TestProvider::default();
    let session = SessionContext {
        version: 1,
        initiator_connection_id: b"initiator",
        responder_connection_id: b"responder",
    };
    let hello = encode_hello();
    let mut transcript = HandshakeTranscript::new(&provider, session).expect("starts");
    assert_eq!(
        transcript.record_init(&provider, &encode_init(&[0xa5; 32])),
        Err(HandshakeTranscriptError::UnexpectedStage {
            expected: HandshakeTranscriptStage::ExpectInit,
            actual: HandshakeTranscriptStage::ExpectHello,
        })
    );
    transcript.record_hello(&provider, &hello).expect("HELLO");
    assert_eq!(
        transcript.record_hello(&provider, &hello),
        Err(HandshakeTranscriptError::UnexpectedStage {
            expected: HandshakeTranscriptStage::ExpectHello,
            actual: HandshakeTranscriptStage::ExpectRetry,
        })
    );
    assert!(matches!(
        transcript.record_retry(&provider, &[0; 3]),
        Err(HandshakeTranscriptError::Handshake(_))
    ));
    assert_eq!(transcript.stage(), HandshakeTranscriptStage::ExpectRetry);
    assert!(transcript.debug_text().contains("<redacted>"));
}

#[test]
fn a_failed_message_leaves_its_slot_to_the_next_one() {
    let response = encode_response();
    let mut pool = HandshakeReassembler::<1>::new();
    pool.ingest(
        &packet(LongPacketType::Response, 8, RESPONSE_LEN, 0, &response[..100]),
        ReassemblyAdmission::ExistingHandshake,
    )
    .expect("first fragment");
    let mut conflicting = response[..10].to_vec();
    conflicting[0] ^= 1;
    pool.ingest(
        &packet(LongPacketType::Response, 8, RESPONSE_LEN, 0, &conflicting),
        ReassemblyAdmission::ExistingHandshake,
    )
    .expect_err("conflicting overlap");
    pool.ingest(
        &packet(LongPacketType::Response, 8, RESPONSE_LEN, 100, &response[100..]),
        ReassemblyAdmission::ExistingHandshake,
    )
    .expect("free slot");
    assert_eq!(
        pool.completed_message(LongPacketType::Response, 8).err(),
        Some(HandshakeReassemblyError::MessageIncomplete {
            packet_type: LongPacketType::Response,
            message_id: 8,
        })
    );
    assert_eq!(pool.active_slots(), 1);
}

#[test]
fn milestones_hand_out_their_authentication_hashes() {
    let provider = TestProvider::default();
    let session = SessionContext {
        version: 1,
        initiator_connection_id: b"initiator",
        responder_connection_id: b"responder",
    };
    let cookie = [0xa5; 32];
    let mut transcript = HandshakeTranscript::new(&provider, session).expect("starts");
    transcript
        .record_hello(&provider, &encode_hello())
        .expect("HELLO");
    transcript
        .record_retry(&provider, &encode_retry(&cookie))
        .expect("RETRY");
    transcript
        .record_init(&provider, &encode_init(&cookie))
        .expect("INIT");
    let pre_auth = transcript
        .record_response(&provider, &encode_response())
        .expect("RESPONSE");
    let responder = transcript
        .record_responder_auth(&provider, &encode_identity_auth(0xb0))
        .expect("responder authentication");
    assert_eq!(responder.authentication().signature(), &pre_auth);
    let initiator = transcript
        .record_initiator_auth(&provider, &encode_identity_auth(0xc0))
        .expect("initiator authentication");
    assert_eq!(
        initiator.authentication().signature(),
        responder.initiator_signature()
    );
    assert_ne!(
        initiator.authentication().finished(),
        responder.authentication().finished()
    );
}
