use ogtp::authentication::{
    AuthenticatedIdentity, AuthenticationError, HybridAuthenticationProvider,
    IDENTITY_FINGERPRINT_CONTEXT, MAX_CONTEXTUALIZED_SIGNATURE_INPUT_LEN,
    PeerAuthenticationContext, VerificationResult, authenticate_peer_identity,
    handshake_signature_input, identity_fingerprint, manifest_signature_input, require_valid,
    verify_manifest,
};
use ogtp::crypto::{SHA384_OUTPUT_LEN, Sha384Digest, Sha384Provider};
use ogtp::handshake::{
    ED25519_PUBLIC_KEY_LEN, ED25519_SIGNATURE_LEN, FINISHED_MAC_LEN, IDENTITY_FINGERPRINT_LEN,
    IdentityAuth, ML_DSA_65_PUBLIC_KEY_LEN, ML_DSA_65_SIGNATURE_LEN,
};
use ogtp::manifest::{
    MAX_SIGNED_MANIFEST_LEN, MERKLE_ROOT_LEN, MIN_CHUNK_SIZE, Manifest, ManifestHeader,
};
use ogtp::transcript::{AuthenticationRole, TranscriptSink};
use core::cell::{Cell, RefCell};

use sha2::{Digest, Sha384};

const ED25519_KEY: [u8; ED25519_PUBLIC_KEY_LEN] = [0x11; ED25519_PUBLIC_KEY_LEN];
const ML_DSA_KEY: [u8; ML_DSA_65_PUBLIC_KEY_LEN] = [0x22; ML_DSA_65_PUBLIC_KEY_LEN];
const ED25519_SIGNATURE: [u8; ED25519_SIGNATURE_LEN] = [0x33; ED25519_SIGNATURE_LEN];
const ML_DSA_SIGNATURE: [u8; ML_DSA_65_SIGNATURE_LEN] = [0x44; ML_DSA_65_SIGNATURE_LEN];
const FINISHED_MAC: [u8; FINISHED_MAC_LEN] = [0x55; FINISHED_MAC_LEN];

struct Sha384Context(Sha384);

impl TranscriptSink for Sha384Context {
    fn update(&mut self, bytes: &[u8]) {
        self.0.update(bytes);
    }
}

struct TestProvider {
    hash_failure: Cell<bool>,
    verification_failure: Cell<bool>,
    hmac_result: Cell<VerificationResult>,
    ed25519_result: Cell<VerificationResult>,
    ml_dsa_result: Cell<VerificationResult>,
    calls: RefCell<Vec<&'static str>>,
    messages: RefCell<Vec<Vec<u8>>>,
}

impl TestProvider {
    fn valid() -> Self {
        Self {
            hash_failure: Cell::new(false),
            verification_failure: Cell::new(false),
            hmac_result: Cell::new(VerificationResult::Valid),
            ed25519_result: Cell::new(VerificationResult::Valid),
            ml_dsa_result: Cell::new(VerificationResult::Valid),
            calls: RefCell::new(Vec::new()),
            messages: RefCell::new(Vec::new()),
        }
    }

    fn clear_observations(&self) {
        self.calls.borrow_mut().clear();
        self.messages.borrow_mut().clear();
    }
}

impl Sha384Provider for TestProvider {
    type Context = Sha384Context;
    type Error = &'static str;

    fn start_sha384(&self) -> Result<Self::Context, Self::Error> {
        if self.hash_failure.get() {
            Err("injected hash failure")
        } else {
            Ok(Sha384Context(Sha384::new()))
        }
    }

    fn finish_sha384(&self, context: Self::Context) -> Result<Sha384Digest, Self::Error> {
        Ok(context.0.finalize().into())
    }
}

impl HybridAuthenticationProvider for TestProvider {
    type VerificationError = &'static str;

    fn verify_hmac_sha384(
        &self,
        _key: &[u8; FINISHED_MAC_LEN],
        _transcript_hash: &[u8; SHA384_OUTPUT_LEN],
        _received_mac: &[u8; FINISHED_MAC_LEN],
    ) -> Result<VerificationResult, Self::VerificationError> {
        self.calls.borrow_mut().push("hmac");
        if self.verification_failure.get() {
            Err("injected verification failure")
        } else {
            Ok(self.hmac_result.get())
        }
    }

    fn verify_ed25519(
        &self,
        _public_key: &[u8; ED25519_PUBLIC_KEY_LEN],
        message: &[u8],
        _signature: &[u8; ED25519_SIGNATURE_LEN],
    ) -> Result<VerificationResult, Self::VerificationError> {
        self.calls.borrow_mut().push("ed25519");
        self.messages.borrow_mut().push(message.to_vec());
        if self.verification_failure.get() {
            Err("injected verification failure")
        } else {
            Ok(self.ed25519_result.get())
        }
    }

    fn verify_ml_dsa_65(
        &self,
        _public_key: &[u8; ML_DSA_65_PUBLIC_KEY_LEN],
        message: &[u8],
        _signature: &[u8; ML_DSA_65_SIGNATURE_LEN],
    ) -> Result<VerificationResult, Self::VerificationError> {
        self.calls.borrow_mut().push("ml-dsa");
        self.messages.borrow_mut().push(message.to_vec());
        if self.verification_failure.get() {
            Err("injected verification failure")
        } else {
            Ok(self.ml_dsa_result.get())
        }
    }
}

fn identity_auth() -> IdentityAuth<'static> {
    IdentityAuth {
        ed25519_public_key: ED25519_KEY,
        ml_dsa_public_key: &ML_DSA_KEY,
        ed25519_signature: ED25519_SIGNATURE,
        ml_dsa_signature: &ML_DSA_SIGNATURE,
        finished_mac: FINISHED_MAC,
    }
}

fn fingerprint(provider: &TestProvider) -> [u8; IDENTITY_FINGERPRINT_LEN] {
    identity_fingerprint(provider, &ED25519_KEY, &ML_DSA_KEY)
        .expect("test hash provider succeeds")
}

fn authenticate(
    provider: &TestProvider,
    announced: &[u8; IDENTITY_FINGERPRINT_LEN],
    trusted: &[u8; IDENTITY_FINGERPRINT_LEN],
) -> Result<AuthenticatedIdentity, AuthenticationError<&'static str, &'static str>> {
    authenticate_peer_identity(
        provider,
        PeerAuthenticationContext {
            role: AuthenticationRole::Responder,
            signature_transcript_hash: &[0x66; SHA384_OUTPUT_LEN],
            finished_transcript_hash: &[0x77; SHA384_OUTPUT_LEN],
            finished_key: &[0x88; FINISHED_MAC_LEN],
            announced_fingerprint: announced,
            trust_anchor_fingerprint: trusted,
        },
        &identity_auth(),
    )
}

fn encoded_manifest(
    signer: [u8; IDENTITY_FINGERPRINT_LEN],
    output: &mut [u8; MAX_SIGNED_MANIFEST_LEN],
) -> usize {
    ManifestHeader {
        object_id: [0x91; 32],
        object_size: u64::from(MIN_CHUNK_SIZE) + 7,
        chunk_size: MIN_CHUNK_SIZE,
        chunk_count: 2,
        merkle_root: [0x92; MERKLE_ROOT_LEN],
        signer_identity_fingerprint: signer,
    }
    .encode_signed(
        "authenticated.bin",
        &ED25519_SIGNATURE,
        &ML_DSA_SIGNATURE,
        output,
    )
    .expect("test manifest encodes")
}

#[test]
fn fingerprint_matches_independent_sha384_encoding() {
    let provider = TestProvider::valid();
    let actual = fingerprint(&provider);
    let mut reference = Sha384::new();
    reference.update(IDENTITY_FINGERPRINT_CONTEXT.as_bytes());
    reference.update(ED25519_KEY);
    reference.update(ML_DSA_KEY);
    let expected: [u8; SHA384_OUTPUT_LEN] = reference.finalize().into();
    assert_eq!(actual, expected);
}

#[test]
fn identity_installs_only_after_finished_and_both_signatures() {
    let provider = TestProvider::valid();
    let expected = fingerprint(&provider);
    provider.clear_observations();
    let identity =
        authenticate(&provider, &expected, &expected).expect("identity authenticates");

    assert_eq!(identity.fingerprint(), &expected);
    assert_eq!(identity.ed25519_public_key(), &ED25519_KEY);
    assert_eq!(identity.ml_dsa_65_public_key(), &ML_DSA_KEY);
    assert_eq!(*provider.calls.borrow(), ["hmac", "ed25519", "ml-dsa"]);
    let messages = provider.messages.borrow();
    assert_eq!(messages.len(), 2);
    assert_eq!(messages[0], messages[1]);
    assert!(messages[0].starts_with(&[0x20; 64]));
    assert!(
        messages[0]
            .windows(b"OGTP/1 responder authentication".len())
            .any(|window| window == b"OGTP/1 responder authentication")
    );
    let debug = identity.debug_text();
    assert!(debug.contains("<redacted>"));
    assert!(!debug.contains("11111111"));
}

#[test]
fn cheap_failures_short_circuit_expensive_verification() {
    let provider = TestProvider::valid();
    let expected = fingerprint(&provider);
    provider.clear_observations();

    let wrong = [0xff; IDENTITY_FINGERPRINT_LEN];
    assert_eq!(
        authenticate(&provider, &wrong, &expected).err(),
        Some(AuthenticationError::AnnouncedFingerprintMismatch)
    );
    assert!(provider.calls.borrow().is_empty());
    assert_eq!(
        authenticate(&provider, &expected, &wrong).err(),
        Some(AuthenticationError::TrustAnchorMismatch)
    );
    assert!(provider.calls.borrow().is_empty());

    provider.hmac_result.set(VerificationResult::Invalid);
    assert_eq!(
        authenticate(&provider, &expected, &expected).err(),
        Some(AuthenticationError::InvalidFinishedMac)
    );
    assert_eq!(*provider.calls.borrow(), ["hmac"]);
    provider.hmac_result.set(VerificationResult::Valid);
    provider.clear_observations();

    provider.ed25519_result.set(VerificationResult::Invalid);
    assert_eq!(
        authenticate(&provider, &expected, &expected).err(),
        Some(AuthenticationError::InvalidEd25519Signature)
    );
    assert_eq!(*provider.calls.borrow(), ["hmac", "ed25519"]);
    provider.ed25519_result.set(VerificationResult::Valid);
    provider.clear_observations();

    provider.ml_dsa_result.set(VerificationResult::Invalid);
    assert_eq!(
        authenticate(&provider, &expected, &expected).err(),
        Some(AuthenticationError::InvalidMlDsa65Signature)
    );
    assert_eq!(*provider.calls.borrow(), ["hmac", "ed25519", "ml-dsa"]);
}

#[test]
fn provider_failures_are_distinct_from_invalid_authenticators() {
    let provider = TestProvider::valid();
    let expected = fingerprint(&provider);
    provider.hash_failure.set(true);
    assert_eq!(
        authenticate(&provider, &expected, &expected).err(),
        Some(AuthenticationError::HashProvider("injected hash failure"))
    );
    provider.hash_failure.set(false);
    provider.verification_failure.set(true);
    assert_eq!(
        authenticate(&provider, &expected, &expected).err(),
        Some(AuthenticationError::VerificationProvider(
            "injected verification failure"
        ))
    );
}

#[test]
fn manifest_token_requires_peer_binding_and_both_signatures() {
    let provider = TestProvider::valid();
    let expected = fingerprint(&provider);
    let identity =
        authenticate(&provider, &expected, &expected).expect("identity authenticates");
    provider.clear_observations();

    let mut encoded = [0_u8; MAX_SIGNED_MANIFEST_LEN];
    let length = encoded_manifest(expected, &mut encoded);
    let manifest = Manifest::decode(&encoded[..length]).expect("manifest decodes");
    let verified = verify_manifest(&provider, &identity, &manifest).expect("manifest verifies");
    assert_eq!(verified.header(), manifest.header);
    assert_eq!(*provider.calls.borrow(), ["ed25519", "ml-dsa"]);
    let messages = provider.messages.borrow();
    assert_eq!(messages[0], messages[1]);
    assert!(
        messages[0]
            .windows(b"OGTP/1 object manifest".len())
            .any(|window| window == b"OGTP/1 object manifest")
    );
    drop(messages);

    provider.clear_observations();
    let mut wrong_encoded = [0_u8; MAX_SIGNED_MANIFEST_LEN];
    let wrong_length = encoded_manifest([0xaa; IDENTITY_FINGERPRINT_LEN], &mut wrong_encoded);
    let wrong = Manifest::decode(&wrong_encoded[..wrong_length]).expect("manifest decodes");
    assert_eq!(
        verify_manifest(&provider, &identity, &wrong).err(),
        Some(AuthenticationError::ManifestSignerMismatch)
    );
    assert!(provider.calls.borrow().is_empty());

    provider.ed25519_result.set(VerificationResult::Invalid);
    assert_eq!(
        verify_manifest(&provider, &identity, &manifest).err(),
        Some(AuthenticationError::InvalidEd25519Signature)
    );
    assert_eq!(*provider.calls.borrow(), ["ed25519"]);
}

#[test]
fn contextualized_inputs_fit_fixed_stack_storage() {
    let handshake =
        handshake_signature_input(AuthenticationRole::Initiator, &[0x11; SHA384_OUTPUT_LEN])
            .expect("handshake signature input fits");
    let manifest = manifest_signature_input(&[0x22; SHA384_OUTPUT_LEN])
        .expect("manifest signature input fits");
    assert!(handshake.as_bytes().len() < MAX_CONTEXTUALIZED_SIGNATURE_INPUT_LEN);
    assert!(manifest.as_bytes().len() < MAX_CONTEXTUALIZED_SIGNATURE_INPUT_LEN);
    assert_ne!(handshake.as_bytes(), manifest.as_bytes());

    let context = PeerAuthenticationContext {
        role: AuthenticationRole::Initiator,
        signature_transcript_hash: &[0x11; SHA384_OUTPUT_LEN],
        finished_transcript_hash: &[0x22; SHA384_OUTPUT_LEN],
        finished_key: &[0x33; FINISHED_MAC_LEN],
        announced_fingerprint: &[0x44; IDENTITY_FINGERPRINT_LEN],
        trust_anchor_fingerprint: &[0x55; IDENTITY_FINGERPRINT_LEN],
    };
    let debug = context.debug_text();
    assert!(debug.contains("<redacted>"));
    assert!(!debug.contains("33333333"));
}

#[test]
fn a_verdict_becomes_the_error_it_stands_for() {
    assert_eq!(
        require_valid::<(), ()>(
            Ok(VerificationResult::Valid),
            AuthenticationError::InvalidFinishedMac
        ),
        Ok(())
    );
    assert_eq!(
        require_valid::<(), ()>(
            Ok(VerificationResult::Invalid),
            AuthenticationError::InvalidMlDsa65Signature
        ),
        Err(AuthenticationError::InvalidMlDsa65Signature)
    );
    assert_eq!(
        require_valid::<(), &str>(Err("offline"), AuthenticationError::InvalidMlDsa65Signature),
        Err(AuthenticationError::VerificationProvider("offline"))
    );
}

#[test]
fn fingerprints_depend_on_both_keys() {
    let provider = TestProvider::valid();
    let mut other_key = ML_DSA_KEY;
    other_key[ML_DSA_65_PUBLIC_KEY_LEN - 1] ^= 1;
    let other = identity_fingerprint(&provider, &ED25519_KEY, &other_key)
        .expect("test hash provider succeeds");
    assert_ne!(other, fingerprint(&provider));
}

#[test]
fn signature_inputs_carry_padding_context_and_hash() {
    let hash = [0x5a; SHA384_OUTPUT_LEN];
    let handshake = handshake_signature_input(AuthenticationRole::Responder, &hash)
        .expect("handshake signature input fits");
    let mut expected = vec![0x20; 64];
    expected.extend_from_slice(b"OGTP/1 responder authentication");
    expected.push(0);
    expected.extend_from_slice(&hash);
    assert_eq!(handshake.as_bytes(), expected);
    assert_eq!(
        handshake.debug_text(),
        "ContextualizedSignatureInput { length: 144, overflowed: false, bytes: \"<redacted>\" }"
    );
    let manifest = manifest_signature_input(&hash).expect("manifest signature input fits");
    let mut expected = vec![0x20; 64];
    expected.extend_from_slice(b"OGTP/1 object manifest");
    expected.push(0);
    expected.extend_from_slice(&hash);
    assert_eq!(manifest.as_bytes(), expected);
}

#[test]
fn authentication_errors_name_the_failing_provider() {
    let hash: AuthenticationError<&str, &str> = AuthenticationError::HashProvider("offline");
    assert!(hash.message("offline").ends_with("offline"));
    let mac: AuthenticationError<&str, &str> = AuthenticationError::InvalidFinishedMac;
    assert!(!mac.message("offline").contains("offline"));
}
