use ogtp::crypto::{Sha384Digest, Sha384Provider};
use ogtp::handshake::{
    CAPABILITY_MULTIPATH_BIT, CIPHER_SUITE_AES_256_GCM_SHA384_BIT, HELLO_LEN, Hello,
    IDENTITY_FINGERPRINT_LEN, RANDOM_LEN,
};
use ogtp::retry::{
    MAX_RETRY_DATAGRAM_LEN, MIN_HELLO_DATAGRAM_LEN, RETRY_COOKIE_LEN, RETRY_COOKIE_NONCE_LEN,
    RETRY_COOKIE_PLAINTEXT_LEN, RETRY_COOKIE_SEALED_LEN, RetryCookieBinding, RetryCookieError,
    RetryCookieKey, RetryCookieKeyError, RetryCookieKeyRing, RetryCookieOpenResult,
    RetryCookiePolicy, RetryCookiePolicyError, RetryCookieProvider, RetryCookieRotationError,
    RetrySourceAddress,
};
use ogtp::retry::admission::{
    HandshakeAdmissionError, HandshakeAdmissionStatus, HandshakeAdmissionTable,
};
use ogtp::retry::cookie::{
    ValidatedRetryCookie, issue_retry_cookie, settle_opened_cookie, settle_sealed_cookie,
    validate_plaintext, validate_retry_cookie,
};
use ogtp::transcript::TranscriptSink;
use ogtp::wire::{AEAD_TAG_LEN, WireError};
use core::cell::Cell;

use sha2::{Digest, Sha384};

#[derive(Clone)]
struct Sha384Context(Sha384);

impl TranscriptSink for Sha384Context {
    fn update(&mut self, bytes: &[u8]) {
        self.0.update(bytes);
    }
}

#[derive(Clone, Copy, Debug, Eq, PartialEq)]
struct TestProviderError;

#[derive(Default)]
struct TestProvider {
    fail_seal: Cell<bool>,
    fail_open: Cell<bool>,
    wrong_seal_length: Cell<bool>,
    wrong_open_length: Cell<bool>,
}

impl Sha384Provider for TestProvider {
    type Context = Sha384Context;
    type Error = TestProviderError;

    fn start_sha384(&self) -> Result<Self::Context, Self::Error> {
        Ok(Sha384Context(Sha384::new()))
    }

    fn finish_sha384(&self, context: Self::Context) -> Result<Sha384Digest, Self::Error> {
        Ok(context.0.finalize().into())
    }
}

impl RetryCookieProvider for TestProvider {
    type Key = [u8; 32];

    fn seal_retry_cookie(
        &self,
        key: &Self::Key,
        nonce: &[u8; RETRY_COOKIE_NONCE_LEN],
        additional_data: &[u8],
        plaintext_and_tag: &mut [u8],
        plaintext_length: usize,
    ) -> Result<usize, Self::Error> {
        if self.fail_seal.replace(false) {
            return Err(TestProviderError);
        }
        for (index, byte) in plaintext_and_tag[..plaintext_length].iter_mut().enumerate() {
            *byte ^= key[index % key.len()] ^ nonce[index % nonce.len()];
        }
        let tag = test_tag(
            key,
            nonce,
            additional_data,
            &plaintext_and_tag[..plaintext_length],
        );
        plaintext_and_tag[plaintext_length..plaintext_length + AEAD_TAG_LEN]
            .copy_from_slice(&tag);
        if self.wrong_seal_length.replace(false) {
            Ok(plaintext_length)
        } else {
            Ok(plaintext_length + AEAD_TAG_LEN)
        }
    }

    fn open_retry_cookie(
        &self,
        key: &Self::Key,
        nonce: &[u8; RETRY_COOKIE_NONCE_LEN],
        additional_data: &[u8],
        ciphertext_and_tag: &mut [u8],
    ) -> Result<RetryCookieOpenResult, Self::Error> {
        if self.fail_open.replace(false) {
            return Err(TestProviderError);
        }
        let Some(plaintext_length) = ciphertext_and_tag.len().checked_sub(AEAD_TAG_LEN) else {
            return Ok(RetryCookieOpenResult::Invalid);
        };
        let expected = test_tag(
            key,
            nonce,
            additional_data,
            &ciphertext_and_tag[..plaintext_length],
        );
        let mut difference = 0_u8;
        for (left, right) in ciphertext_and_tag[plaintext_length..].iter().zip(expected) {
            difference |= *left ^ right;
        }
        if difference != 0 {
            return Ok(RetryCookieOpenResult::Invalid);
        }
        for (index, byte) in ciphertext_and_tag[..plaintext_length]
            .iter_mut()
            .enumerate()
        {
            *byte ^= key[index % key.len()] ^ nonce[index % nonce.len()];
        }
        if self.wrong_open_length.replace(false) {
            Ok(RetryCookieOpenResult::Opened(plaintext_length - 1))
        } else {
            Ok(RetryCookieOpenResult::Opened(plaintext_length))
        }
    }
}

fn test_tag(
    key: &[u8; 32],
    nonce: &[u8; RETRY_COOKIE_NONCE_LEN],
    additional_data: &[u8],
    ciphertext: &[u8],
) -> [u8; AEAD_TAG_LEN] {
    let mut hash = Sha384::new();
    hash.update(key);
    hash.update(nonce);
    hash.update(additional_data);
    hash.update(ciphertext);
    let digest = hash.finalize();
    digest[..AEAD_TAG_LEN].try_into().expect("fixed tag")
}

fn hello(seed: u8) -> Hello {
    Hello {
        client_random: [seed; RANDOM_LEN],
        identity_fingerprint: [seed.wrapping_add(1); IDENTITY_FINGERPRINT_LEN],
        cipher_suite_bitmap: CIPHER_SUITE_AES_256_GCM_SHA384_BIT,
        capabilities: CAPABILITY_MULTIPATH_BIT,
        max_udp_payload: 1_400,
        max_paths: 2,
    }
}

fn binding(seed: u8) -> RetryCookieBinding<'static> {
    RetryCookieBinding {
        source_address: RetrySourceAddress::Ipv4([192, 0, 2, seed]),
        source_port: 40_000 + u16::from(seed),
        version: 1,
        initiator_connection_id: b"initiator-cid",
        responder_connection_id: b"responder-cid",
        hello: hello(seed),
        server_random: [seed.wrapping_add(2); RANDOM_LEN],
    }
}

fn key(
    key_id: u32,
    key_byte: u8,
    activate_at: u64,
    seal_until: u64,
    accept_until: u64,
) -> RetryCookieKey<[u8; 32]> {
    RetryCookieKey::new(
        key_id,
        [key_byte; 32],
        u64::from(key_id).to_be_bytes(),
        activate_at,
        seal_until,
        accept_until,
    )
    .expect("valid test key")
}

fn issue_and_validate(
    provider: &TestProvider,
    ring: &mut RetryCookieKeyRing<[u8; 32]>,
    policy: RetryCookiePolicy,
    binding: &RetryCookieBinding<'_>,
    now: u64,
) -> ([u8; RETRY_COOKIE_LEN], ValidatedRetryCookie) {
    let mut cookie = [0_u8; RETRY_COOKIE_LEN];
    assert_eq!(
        issue_retry_cookie(provider, ring, policy, binding, now, &mut cookie),
        Ok(RETRY_COOKIE_LEN)
    );
    let validated = validate_retry_cookie(provider, ring, policy, binding, now, &cookie)
        .expect("cookie validates");
    (cookie, validated)
}

#[test]
fn cookie_round_trip_binds_every_context_and_redacts_debug() {
    let provider = TestProvider::default();
    let policy = RetryCookiePolicy::new(30, 2).expect("valid policy");
    let mut ring = RetryCookieKeyRing::new(key(7, 0x55, 100, 200, 240));
    let expected = binding(1);
    let (cookie, validated) = issue_and_validate(&provider, &mut ring, policy, &expected, 110);
    assert_eq!(cookie.len(), RETRY_COOKIE_LEN);
    assert_eq!(validated.key_id(), 7);
    assert_eq!(validated.issued_at(), 110);
    assert_eq!(validated.expires_at(), 140);
    assert_eq!(validated.validated_at(), 110);

    let mut wrong_address = expected;
    wrong_address.source_address = RetrySourceAddress::Ipv4([198, 51, 100, 1]);
    assert_eq!(
        validate_retry_cookie(&provider, &ring, policy, &wrong_address, 111, &cookie).err(),
        Some(RetryCookieError::BindingMismatch)
    );
    let mut wrong_hello = expected;
    wrong_hello.hello.capabilities = 0;
    assert_eq!(
        validate_retry_cookie(&provider, &ring, policy, &wrong_hello, 111, &cookie).err(),
        Some(RetryCookieError::BindingMismatch)
    );
    let debug = format!(
        "{} {} {}",
        validated.debug_text(),
        ring.debug_text(),
        expected.debug_text()
    );
    assert!(debug.contains("<redacted>"));
    assert!(!debug.contains("192, 0, 2"));
    assert!(!debug.contains("85, 85"));
}

#[test]
fn tampering_expiry_future_time_and_policy_changes_fail_closed() {
    let provider = TestProvider::default();
    let policy = RetryCookiePolicy::new(30, 2).expect("valid policy");
    let mut ring = RetryCookieKeyRing::new(key(7, 0x55, 100, 200, 240));
    let expected = binding(1);
    let (mut cookie, _) = issue_and_validate(&provider, &mut ring, policy, &expected, 110);
    cookie[80] ^= 1;
    assert_eq!(
        validate_retry_cookie(&provider, &ring, policy, &expected, 111, &cookie).err(),
        Some(RetryCookieError::AuthenticationFailed)
    );

    let (cookie, _) = issue_and_validate(&provider, &mut ring, policy, &expected, 110);
    assert_eq!(
        validate_retry_cookie(&provider, &ring, policy, &expected, 107, &cookie).err(),
        Some(RetryCookieError::NotYetValid)
    );
    assert_eq!(
        validate_retry_cookie(&provider, &ring, policy, &expected, 140, &cookie).err(),
        Some(RetryCookieError::Expired)
    );
    let changed_policy = RetryCookiePolicy::new(31, 2).expect("valid policy");
    assert_eq!(
        validate_retry_cookie(&provider, &ring, changed_policy, &expected, 111, &cookie,).err(),
        Some(RetryCookieError::LifetimeMismatch)
    );
}

#[test]
fn nonce_reservation_survives_provider_failure_and_lengths_are_enforced() {
    let provider = TestProvider::default();
    let policy = RetryCookiePolicy::new(20, 1).expect("valid policy");
    let mut ring = RetryCookieKeyRing::new(key(9, 0x44, 100, 200, 230));
    let expected = binding(2);
    let mut failed = [0xa5; RETRY_COOKIE_LEN];
    provider.fail_seal.set(true);
    assert_eq!(
        issue_retry_cookie(&provider, &mut ring, policy, &expected, 110, &mut failed),
        Err(RetryCookieError::Provider(TestProviderError))
    );
    assert!(failed.iter().all(|byte| *byte == 0));

    let (cookie, _) = issue_and_validate(&provider, &mut ring, policy, &expected, 110);
    assert_eq!(&cookie[13..17], &1_u32.to_be_bytes());

    provider.wrong_seal_length.set(true);
    let mut malformed = [0xa5; RETRY_COOKIE_LEN];
    assert_eq!(
        issue_retry_cookie(&provider, &mut ring, policy, &expected, 111, &mut malformed,),
        Err(RetryCookieError::ProviderLengthMismatch {
            expected: RETRY_COOKIE_SEALED_LEN,
            actual: RETRY_COOKIE_PLAINTEXT_LEN,
        })
    );
    assert!(malformed.iter().all(|byte| *byte == 0));

    provider.wrong_open_length.set(true);
    assert_eq!(
        validate_retry_cookie(&provider, &ring, policy, &expected, 111, &cookie).err(),
        Some(RetryCookieError::ProviderLengthMismatch {
            expected: RETRY_COOKIE_PLAINTEXT_LEN,
            actual: RETRY_COOKIE_PLAINTEXT_LEN - 1,
        })
    );
}

#[test]
fn rotation_retains_exactly_one_validation_generation() {
    let provider = TestProvider::default();
    let policy = RetryCookiePolicy::new(20, 1).expect("valid policy");
    let mut ring = RetryCookieKeyRing::new(key(1, 0x11, 100, 150, 180));
    let expected = binding(3);
    let (old_cookie, _) = issue_and_validate(&provider, &mut ring, policy, &expected, 139);
    assert_eq!(
        ring.rotate(key(2, 0x22, 150, 200, 230), 149),
        Err(RetryCookieRotationError::ActiveKeyStillSealing)
    );
    ring.rotate(key(2, 0x22, 150, 200, 230), 150)
        .expect("rotation succeeds");
    assert_eq!(ring.active().key_id(), 2);
    assert_eq!(ring.previous().map(RetryCookieKey::key_id), Some(1));
    validate_retry_cookie(&provider, &ring, policy, &expected, 155, &old_cookie)
        .expect("previous generation validates");
    assert_eq!(
        ring.rotate(key(3, 0x33, 170, 220, 250), 170),
        Err(RetryCookieRotationError::PreviousKeyStillRequired)
    );
    ring.rotate(key(3, 0x33, 200, 250, 280), 200)
        .expect("expired oldest generation is replaced");
    assert_eq!(ring.active().key_id(), 3);
    assert_eq!(ring.previous().map(RetryCookieKey::key_id), Some(2));
}

fn validated_cookie(binding: &RetryCookieBinding<'_>, expires_at: u64) -> ValidatedRetryCookie {
    let policy = RetryCookiePolicy::new(expires_at - 100, 0).expect("valid policy");
    let mut ring = RetryCookieKeyRing::new(key(1, 0x11, 100, 1_000, 2_000));
    let (_, validated) =
        issue_and_validate(&TestProvider::default(), &mut ring, policy, binding, 100);
    assert_eq!(validated.key_id(), 1);
    assert_eq!(validated.issued_at(), 100);
    assert_eq!(validated.expires_at(), expires_at);
    assert_eq!(validated.validated_at(), 100);
    validated
}

fn admission_cookie(
    address: RetrySourceAddress,
    port: u16,
    cid_seed: u8,
    context_seed: u8,
    expires_at: u64,
) -> ValidatedRetryCookie {
    validated_cookie(
        &RetryCookieBinding {
            source_address: address,
            source_port: port,
            version: 1,
            initiator_connection_id: &[cid_seed],
            responder_connection_id: &[0x55; 8],
            hello: hello(context_seed),
            server_random: [context_seed; RANDOM_LEN],
        },
        expires_at,
    )
}

#[test]
fn admission_is_fixed_idempotent_quota_limited_and_expiring() {
    let mut table = HandshakeAdmissionTable::<2>::new(1, 10).expect("valid table");
    let first = admission_cookie(RetrySourceAddress::Ipv4([192, 0, 2, 1]), 40_001, 1, 1, 200);
    let first_lease = match table.admit_handshake(&first, 110).expect("first admission") {
        HandshakeAdmissionStatus::New(lease) => lease,
        HandshakeAdmissionStatus::Existing(_) => panic!("new admission expected"),
    };
    assert_eq!(
        table.admit_handshake(&first, 111),
        Ok(HandshakeAdmissionStatus::Existing(first_lease))
    );
    let same_source =
        admission_cookie(RetrySourceAddress::Ipv4([192, 0, 2, 1]), 40_002, 2, 2, 200);
    assert_eq!(
        table.admit_handshake(&same_source, 111),
        Err(HandshakeAdmissionError::PerSourceLimitReached)
    );
    let second = admission_cookie(RetrySourceAddress::Ipv4([192, 0, 2, 2]), 40_003, 3, 3, 200);
    table.admit_handshake(&second, 111).expect("second source");
    let third = admission_cookie(RetrySourceAddress::Ipv4([192, 0, 2, 3]), 40_004, 4, 4, 200);
    assert_eq!(
        table.admit_handshake(&third, 111),
        Err(HandshakeAdmissionError::PoolExhausted)
    );
    assert_eq!(table.active(), 2);
    assert!(table.release(first_lease));
    assert!(!table.release(first_lease));
    assert_eq!(table.active(), 1);
    assert_eq!(table.expire(121), 1);
    assert_eq!(table.active(), 0);
    let debug = table.debug_text();
    assert!(debug.contains("slots: \"<redacted>\""));
}

#[test]
fn ipv6_uses_prefix_quota_and_handshake_context_prevents_false_deduplication() {
    let mut table = HandshakeAdmissionTable::<3>::new(1, 10).expect("valid table");
    let first = admission_cookie(
        RetrySourceAddress::Ipv6([0x20, 1, 0x0d, 0xb8, 0, 1, 0, 1, 0, 0, 0, 0, 0, 0, 0, 1]),
        40_001,
        1,
        1,
        200,
    );
    table.admit_handshake(&first, 110).expect("first prefix admission");
    let same_prefix = admission_cookie(
        RetrySourceAddress::Ipv6([0x20, 1, 0x0d, 0xb8, 0, 1, 0, 1, 0xff, 0, 0, 0, 0, 0, 0, 2]),
        40_002,
        2,
        2,
        200,
    );
    assert_eq!(
        table.admit_handshake(&same_prefix, 111),
        Err(HandshakeAdmissionError::PerSourceLimitReached)
    );

    let same_cids_new_context = validated_cookie(
        &RetryCookieBinding {
            source_address: RetrySourceAddress::Ipv6([
                0x20, 1, 0x0d, 0xb8, 0, 1, 0, 1, 0, 0, 0, 0, 0, 0, 0, 1,
            ]),
            source_port: 40_001,
            version: 1,
            initiator_connection_id: &[1],
            responder_connection_id: &[0x55; 8],
            hello: hello(1),
            server_random: [9; RANDOM_LEN],
        },
        200,
    );
    assert_eq!(
        table.admit_handshake(&same_cids_new_context, 111),
        Err(HandshakeAdmissionError::PerSourceLimitReached)
    );
}

#[test]
fn invalid_configuration_and_expired_capability_are_rejected() {
    assert!(matches!(
        HandshakeAdmissionTable::<0>::new(1, 10),
        Err(HandshakeAdmissionError::InvalidConfiguration)
    ));
    assert_eq!(
        RetryCookiePolicy::new(0, 0),
        Err(RetryCookiePolicyError::ZeroLifetime)
    );
    assert!(matches!(
        RetryCookieKey::new(1, [0_u8; 32], [0; 8], 10, 10, 20),
        Err(RetryCookieKeyError::InvalidSchedule)
    ));
    let mut table = HandshakeAdmissionTable::<1>::new(1, 10).expect("valid table");
    let expired = admission_cookie(RetrySourceAddress::Ipv4([192, 0, 2, 1]), 40_001, 1, 1, 110);
    assert_eq!(
        table.admit_handshake(&expired, 99),
        Err(HandshakeAdmissionError::ClockMovedBackwards)
    );
    assert_eq!(
        table.admit_handshake(&expired, 110),
        Err(HandshakeAdmissionError::CookieExpired)
    );
}

#[test]
fn one_maximum_retry_stays_below_three_times_the_smallest_hello() {
    assert_eq!(MIN_HELLO_DATAGRAM_LEN, 107);
    assert_eq!(MAX_RETRY_DATAGRAM_LEN, 317);
}

#[test]
fn cookies_are_issued_only_inside_the_key_window() {
    let provider = TestProvider::default();
    let policy = RetryCookiePolicy::new(30, 2).expect("valid policy");
    let mut ring = RetryCookieKeyRing::new(key(7, 0x55, 100, 200, 220));
    let mut output = [0x77; RETRY_COOKIE_LEN];
    for (now, error) in [
        (99, RetryCookieError::ActiveKeyNotUsable),
        (200, RetryCookieError::ActiveKeyNotUsable),
        (191, RetryCookieError::LifetimeExceedsKeyWindow),
    ] {
        assert_eq!(
            issue_retry_cookie(&provider, &mut ring, policy, &binding(1), now, &mut output),
            Err(error)
        );
    }
    let mut portless = binding(1);
    portless.source_port = 0;
    assert_eq!(
        issue_retry_cookie(&provider, &mut ring, policy, &portless, 110, &mut output),
        Err(RetryCookieError::InvalidSourcePort)
    );
    assert_eq!(
        issue_retry_cookie(
            &provider,
            &mut ring,
            policy,
            &binding(1),
            110,
            &mut output[..RETRY_COOKIE_LEN - 1]
        ),
        Err(RetryCookieError::Wire(WireError::BufferTooSmall {
            needed: RETRY_COOKIE_LEN,
            available: RETRY_COOKIE_LEN - 1,
        }))
    );
    let oversized = [0_u8; 21];
    let mut long_id = binding(1);
    long_id.initiator_connection_id = &oversized;
    assert_eq!(
        issue_retry_cookie(&provider, &mut ring, policy, &long_id, 110, &mut output),
        Err(RetryCookieError::Wire(WireError::ConnectionIdTooLong {
            length: 21,
            maximum: 20,
        }))
    );
    assert_eq!(output, [0x77; RETRY_COOKIE_LEN]);
    let endless = RetryCookieKey::new(8, [0; 32], [0; 8], 0, u64::MAX, u64::MAX)
        .expect("valid schedule");
    let mut endless_ring = RetryCookieKeyRing::new(endless);
    assert_eq!(
        issue_retry_cookie(
            &provider,
            &mut endless_ring,
            policy,
            &binding(1),
            u64::MAX - 1,
            &mut output
        ),
        Err(RetryCookieError::TimeOverflow)
    );
}

#[test]
fn cookie_headers_are_checked_before_the_provider_opens_them() {
    let provider = TestProvider::default();
    let policy = RetryCookiePolicy::new(30, 2).expect("valid policy");
    let mut ring = RetryCookieKeyRing::new(key(7, 0x55, 100, 200, 240));
    let expected = binding(1);
    let (cookie, _) = issue_and_validate(&provider, &mut ring, policy, &expected, 110);
    assert_eq!(cookie[0], 1);
    assert_eq!(cookie[1..5], 7_u32.to_be_bytes());
    assert_eq!(
        validate_retry_cookie(
            &provider,
            &ring,
            policy,
            &expected,
            111,
            &cookie[..RETRY_COOKIE_LEN - 1]
        )
        .err(),
        Some(RetryCookieError::InvalidCookieLength(RETRY_COOKIE_LEN - 1))
    );
    let mut other_format = cookie;
    other_format[0] = 2;
    assert_eq!(
        validate_retry_cookie(&provider, &ring, policy, &expected, 111, &other_format).err(),
        Some(RetryCookieError::UnknownFormat(2))
    );
    let mut other_key = cookie;
    other_key[4] = 8;
    assert_eq!(
        validate_retry_cookie(&provider, &ring, policy, &expected, 111, &other_key).err(),
        Some(RetryCookieError::UnknownKey(8))
    );
    let later_ring = RetryCookieKeyRing::new(key(7, 0x55, 120, 200, 240));
    assert_eq!(
        validate_retry_cookie(&provider, &later_ring, policy, &expected, 125, &cookie).err(),
        Some(RetryCookieError::KeyOutsideAcceptanceWindow)
    );
    provider.fail_open.set(true);
    assert_eq!(
        validate_retry_cookie(&provider, &ring, policy, &expected, 111, &cookie).err(),
        Some(RetryCookieError::Provider(TestProviderError))
    );
    let failure: RetryCookieError<()> = RetryCookieError::UnknownKey(8);
    assert_eq!(failure.message(""), "unknown RETRY cookie key 8");
}

#[test]
fn each_part_of_the_binding_is_checked() {
    let provider = TestProvider::default();
    let policy = RetryCookiePolicy::new(30, 2).expect("valid policy");
    let mut ring = RetryCookieKeyRing::new(key(7, 0x55, 100, 200, 240));
    let expected = binding(1);
    let (cookie, _) = issue_and_validate(&provider, &mut ring, policy, &expected, 110);
    let mut port = expected;
    port.source_port += 1;
    let mut version = expected;
    version.version = 2;
    let mut initiator = expected;
    initiator.initiator_connection_id = b"initiator-cie";
    let mut responder = expected;
    responder.responder_connection_id = b"responder-ci";
    let mut random = expected;
    random.server_random[31] ^= 1;
    for changed in [port, version, initiator, responder, random] {
        assert_eq!(
            validate_retry_cookie(&provider, &ring, policy, &changed, 111, &cookie).err(),
            Some(RetryCookieError::BindingMismatch)
        );
    }
}

#[test]
fn nonces_of_one_key_never_repeat() {
    let provider = TestProvider::default();
    let policy = RetryCookiePolicy::new(30, 2).expect("valid policy");
    let mut ring = RetryCookieKeyRing::new(key(7, 0x55, 100, 200, 240));
    for counter in 0_u32..5 {
        let (cookie, _) = issue_and_validate(&provider, &mut ring, policy, &binding(1), 110);
        assert_eq!(cookie[5..13], 7_u64.to_be_bytes());
        assert_eq!(cookie[13..17], counter.to_be_bytes());
    }
}

#[test]
fn rotation_needs_an_active_key_with_a_fresh_identifier() {
    let mut ring = RetryCookieKeyRing::new(key(1, 0x11, 100, 150, 180));
    assert_eq!(
        ring.rotate(key(2, 0x22, 161, 200, 230), 160),
        Err(RetryCookieRotationError::NextKeyNotActive)
    );
    assert_eq!(
        ring.rotate(key(1, 0x22, 150, 200, 230), 160),
        Err(RetryCookieRotationError::DuplicateKeyId)
    );
    ring.rotate(key(2, 0x22, 150, 200, 230), 160)
        .expect("rotation succeeds");
    assert!(!ring.retire_previous(179));
    assert!(ring.retire_previous(180));
    assert!(ring.previous().is_none());
    assert!(!ring.retire_previous(180));
    assert_eq!(
        RetryCookieRotationError::DuplicateKeyId.message(),
        "duplicate RETRY cookie key ID"
    );
}

#[test]
fn released_leases_are_not_handed_out_again() {
    let mut table = HandshakeAdmissionTable::<1>::new(1, 10).expect("valid table");
    let cookie = admission_cookie(RetrySourceAddress::Ipv4([192, 0, 2, 1]), 40_001, 1, 1, 200);
    let first = table
        .admit_handshake(&cookie, 110)
        .expect("admission")
        .lease();
    assert!(table.release(first));
    let second = table
        .admit_handshake(&cookie, 110)
        .expect("admission")
        .lease();
    assert_ne!(first, second);
    assert!(!table.release(first));
    assert_eq!(table.active(), 1);
    assert!(table.release(second));
}

#[test]
fn an_expired_admission_makes_room_for_another_source() {
    let mut table = HandshakeAdmissionTable::<1>::new(1, 10).expect("valid table");
    let first = admission_cookie(RetrySourceAddress::Ipv4([192, 0, 2, 1]), 40_001, 1, 1, 200);
    let second = admission_cookie(RetrySourceAddress::Ipv4([192, 0, 2, 2]), 40_002, 2, 2, 200);
    table.admit_handshake(&first, 110).expect("admission");
    assert_eq!(
        table.admit_handshake(&second, 119),
        Err(HandshakeAdmissionError::PoolExhausted)
    );
    assert!(matches!(
        table.admit_handshake(&second, 120),
        Ok(HandshakeAdmissionStatus::New(_))
    ));
    assert_eq!(table.active(), 1);
    assert_eq!(
        HandshakeAdmissionError::PoolExhausted.message(),
        "global handshake admission pool exhausted"
    );
}

#[test]
fn deadlines_beyond_the_clock_are_refused() {
    let mut table = HandshakeAdmissionTable::<1>::new(1, u64::MAX).expect("valid table");
    let cookie = admission_cookie(RetrySourceAddress::Ipv4([192, 0, 2, 1]), 40_001, 1, 1, 200);
    assert_eq!(
        table.admit_handshake(&cookie, 110),
        Err(HandshakeAdmissionError::DeadlineOverflow)
    );
    assert_eq!(table.active(), 0);
}

#[test]
fn provider_answers_to_cookies_are_settled_by_length() {
    let mut output = [0x77; RETRY_COOKIE_LEN];
    assert_eq!(
        settle_sealed_cookie::<()>(Ok(RETRY_COOKIE_SEALED_LEN), &mut output),
        Ok(RETRY_COOKIE_LEN)
    );
    assert_eq!(output, [0x77; RETRY_COOKIE_LEN]);
    assert_eq!(
        settle_sealed_cookie(Err("failure"), &mut output),
        Err(RetryCookieError::Provider("failure"))
    );
    assert_eq!(output, [0; RETRY_COOKIE_LEN]);
    assert_eq!(
        settle_opened_cookie::<()>(Ok(RetryCookieOpenResult::Invalid)).err(),
        Some(RetryCookieError::AuthenticationFailed)
    );
    assert!(settle_opened_cookie::<()>(Ok(RetryCookieOpenResult::Opened(
        RETRY_COOKIE_PLAINTEXT_LEN
    )))
    .is_ok());
}

#[test]
fn a_maximum_retry_answers_with_less_than_three_times_the_request() {
    assert!(MAX_RETRY_DATAGRAM_LEN < 3 * MIN_HELLO_DATAGRAM_LEN);
}

#[test]
fn failed_seals_keep_their_nonces() {
    let provider = TestProvider::default();
    let policy = RetryCookiePolicy::new(20, 1).expect("valid policy");
    let mut ring = RetryCookieKeyRing::new(key(9, 0x44, 100, 200, 230));
    let expected = binding(2);
    for _ in 0..3 {
        provider.fail_seal.set(true);
        let mut output = [0xa5; RETRY_COOKIE_LEN];
        assert_eq!(
            issue_retry_cookie(&provider, &mut ring, policy, &expected, 110, &mut output),
            Err(RetryCookieError::Provider(TestProviderError))
        );
        assert!(output.iter().all(|byte| *byte == 0));
    }
    provider.fail_seal.set(false);
    let (cookie, _) = issue_and_validate(&provider, &mut ring, policy, &expected, 110);
    assert_eq!(cookie[13..17], 3_u32.to_be_bytes());
}

#[test]
fn an_issued_cookie_is_judged_by_its_time_alone() {
    let provider = TestProvider::default();
    let policy = RetryCookiePolicy::new(20, 2).expect("valid policy");
    let mut ring = RetryCookieKeyRing::new(key(9, 0x44, 100, 200, 230));
    let expected = binding(2);
    let (cookie, _) = issue_and_validate(&provider, &mut ring, policy, &expected, 110);
    let judge = |now| validate_retry_cookie(&provider, &ring, policy, &expected, now, &cookie).err();
    assert_eq!(judge(107), Some(RetryCookieError::NotYetValid));
    assert_eq!(judge(108), None);
    assert_eq!(judge(129), None);
    assert_eq!(judge(130), Some(RetryCookieError::Expired));
    let longer = RetryCookiePolicy::new(21, 2).expect("valid policy");
    assert_eq!(
        validate_retry_cookie(&provider, &ring, longer, &expected, 110, &cookie).err(),
        Some(RetryCookieError::LifetimeMismatch)
    );
    assert_eq!(
        validate_retry_cookie(&provider, &ring, policy, &binding(3), 110, &cookie).err(),
        Some(RetryCookieError::BindingMismatch)
    );
}

fn payload(binding: &RetryCookieBinding<'_>, issued_at: u64, expires_at: u64) -> Vec<u8> {
    let mut bytes = Vec::new();
    bytes.extend_from_slice(&issued_at.to_be_bytes());
    bytes.extend_from_slice(&expires_at.to_be_bytes());
    match binding.source_address {
        RetrySourceAddress::Ipv4(address) => {
            bytes.push(4);
            bytes.extend_from_slice(&address);
            bytes.extend_from_slice(&[0; 12]);
        }
        RetrySourceAddress::Ipv6(address) => {
            bytes.push(6);
            bytes.extend_from_slice(&address);
        }
    }
    bytes.extend_from_slice(&binding.source_port.to_be_bytes());
    bytes.extend_from_slice(&binding.version.to_be_bytes());
    for connection_id in [
        binding.initiator_connection_id,
        binding.responder_connection_id,
    ] {
        bytes.push(connection_id.len() as u8);
        bytes.extend_from_slice(connection_id);
        bytes.extend_from_slice(&vec![0; 20 - connection_id.len()]);
    }
    bytes.extend_from_slice(&binding.hello.client_random);
    bytes.extend_from_slice(&binding.server_random);
    let mut encoded = [0; HELLO_LEN];
    binding.hello.encode(&mut encoded).expect("valid HELLO");
    bytes.extend_from_slice(&Sha384::digest(encoded));
    bytes
}

#[test]
fn payloads_of_any_length_are_judged() {
    let provider = TestProvider::default();
    let policy = RetryCookiePolicy::new(20, 2).expect("valid policy");
    let key = key(9, 0x44, 100, 200, 230);
    let mut expected = binding(2);
    expected.source_address = RetrySourceAddress::Ipv6([7; 16]);
    for expected in [binding(2), expected] {
        let bytes = payload(&expected, 110, 130);
        assert_eq!(bytes.len(), RETRY_COOKIE_PLAINTEXT_LEN);
        let judge = |bytes: &[u8], now| {
            validate_plaintext(&provider, 9, &key, policy, &expected, now, bytes)
        };
        let validated = judge(&bytes, 110).expect("canonical payload");
        assert_eq!(validated.issued_at(), 110);
        assert_eq!(
            validated.identity().source_address(),
            expected.source_address
        );
        let mut longer = bytes.clone();
        longer.push(0);
        for wrong in [&bytes[..0], &bytes[..8], &bytes[..15]] {
            assert_eq!(
                judge(wrong, 500).err(),
                Some(RetryCookieError::InvalidPlaintext)
            );
        }
        for wrong in [&bytes[..16], &bytes[..192], &longer[..]] {
            assert_eq!(
                judge(wrong, 110).err(),
                Some(RetryCookieError::InvalidPlaintext)
            );
            assert_eq!(judge(wrong, 130).err(), Some(RetryCookieError::Expired));
        }
        for (offset, value) in [(16, 5), (39, 21), (59, 1), (60, 21), (80, 1)] {
            let mut malformed = bytes.clone();
            malformed[offset] = value;
            assert_eq!(
                judge(&malformed, 110).err(),
                Some(RetryCookieError::InvalidPlaintext)
            );
        }
        assert_eq!(
            judge(&bytes, u64::MAX).err(),
            Some(RetryCookieError::TimeOverflow)
        );
    }
}
