//! Fail-closed hybrid identity and manifest authentication orchestration.

use vstd::prelude::*;
use vstd::string::*;

use crate::bytes::{bytes_equal_full_scan, get_array, part, put};
use crate::crypto::{hashing_fails_with, Sha384Digest, Sha384Provider, SHA384_OUTPUT_LEN};
use crate::handshake::{
    IdentityAuth, ED25519_PUBLIC_KEY_LEN, ED25519_SIGNATURE_LEN, FINISHED_MAC_LEN,
    IDENTITY_FINGERPRINT_LEN, ML_DSA_65_PUBLIC_KEY_LEN, ML_DSA_65_SIGNATURE_LEN,
};
use crate::manifest::{feed_manifest_signature_input, Manifest, ManifestHeader};
use crate::text::{decimal, fixed, with_number, with_two_numbers};
use crate::transcript::{
    feed_signature_input, lemma_role_labels, signature_input, AuthenticationRole, TranscriptSink,
    SIGNATURE_CONTEXT_PREFIX_LEN,
};

verus! {

/// Domain separator for an identity fingerprint.
pub const IDENTITY_FINGERPRINT_CONTEXT: &'static str = "OGTP/1 identity\0";

/// Maximum encoded size of one contextualized signature message.
pub const MAX_CONTEXTUALIZED_SIGNATURE_INPUT_LEN: usize = 192;

/// Result of a provider verification operation.
#[derive(Clone, Copy, Debug, PartialEq, Eq, Structural)]
pub enum VerificationResult {
    Valid,
    Invalid,
}

/// Standardized verification operations required by authentication.
///
/// Ed25519 verification uses ordinary Ed25519, not Ed25519ph. ML-DSA-65 uses its ordinary signing
/// mode. HMAC comparison must be constant-time with respect to the expected and received MAC
/// values.
pub trait HybridAuthenticationProvider: Sha384Provider {
    type VerificationError;

    /// Whether a MAC is the HMAC-SHA-384 of a transcript hash.
    ///
    /// An implementation that is verified with this library defines it.
    closed spec fn mac_is_valid(
        &self,
        key: Seq<u8>,
        transcript_hash: Seq<u8>,
        received_mac: Seq<u8>,
    ) -> bool {
        vstd::pervasive::arbitrary()
    }

    /// Whether an Ed25519 signature over a message is valid.
    ///
    /// An implementation that is verified with this library defines it.
    closed spec fn ed25519_is_valid(
        &self,
        public_key: Seq<u8>,
        message: Seq<u8>,
        signature: Seq<u8>,
    ) -> bool {
        vstd::pervasive::arbitrary()
    }

    /// Whether an ML-DSA-65 signature over a message is valid.
    ///
    /// An implementation that is verified with this library defines it.
    closed spec fn ml_dsa_65_is_valid(
        &self,
        public_key: Seq<u8>,
        message: Seq<u8>,
        signature: Seq<u8>,
    ) -> bool {
        vstd::pervasive::arbitrary()
    }

    /// Verifies `HMAC-SHA-384(key, transcript_hash)`.
    ///
    /// # Errors
    ///
    /// Returns a provider-specific failure distinct from an invalid MAC.
    fn verify_hmac_sha384(
        &self,
        key: &[u8; FINISHED_MAC_LEN],
        transcript_hash: &[u8; SHA384_OUTPUT_LEN],
        received_mac: &[u8; FINISHED_MAC_LEN],
    ) -> (verdict: Result<VerificationResult, Self::VerificationError>)
        ensures
            verdict matches Ok(verdict) ==> (verdict == VerificationResult::Valid)
                == self.mac_is_valid(key@, transcript_hash@, received_mac@),
    ;

    /// Verifies an ordinary Ed25519 signature over the exact message bytes.
    ///
    /// # Errors
    ///
    /// Returns a provider-specific failure distinct from an invalid signature.
    fn verify_ed25519(
        &self,
        public_key: &[u8; ED25519_PUBLIC_KEY_LEN],
        message: &[u8],
        signature: &[u8; ED25519_SIGNATURE_LEN],
    ) -> (verdict: Result<VerificationResult, Self::VerificationError>)
        ensures
            verdict matches Ok(verdict) ==> (verdict == VerificationResult::Valid)
                == self.ed25519_is_valid(public_key@, message@, signature@),
    ;

    /// Verifies an ordinary ML-DSA-65 signature over the exact message bytes.
    ///
    /// The codec has already enforced the fixed public-key and signature lengths before this method
    /// is called.
    ///
    /// # Errors
    ///
    /// Returns a provider-specific failure distinct from an invalid signature.
    fn verify_ml_dsa_65(
        &self,
        public_key: &[u8; ML_DSA_65_PUBLIC_KEY_LEN],
        message: &[u8],
        signature: &[u8; ML_DSA_65_SIGNATURE_LEN],
    ) -> (verdict: Result<VerificationResult, Self::VerificationError>)
        ensures
            verdict matches Ok(verdict) ==> (verdict == VerificationResult::Valid)
                == self.ml_dsa_65_is_valid(public_key@, message@, signature@),
    ;
}

/// Hybrid authentication orchestration failure.
#[derive(Clone, Debug, PartialEq, Eq)]
pub enum AuthenticationError<H, V> {
    HashProvider(H),
    VerificationProvider(V),
    AnnouncedFingerprintMismatch,
    TrustAnchorMismatch,
    InvalidFinishedMac,
    InvalidEd25519Signature,
    InvalidMlDsa65Signature,
    ManifestSignerMismatch,
    SignatureInputOverflow,
    CodecInvariantViolation,
}

impl<H, V> AuthenticationError<H, V> {
    /// The diagnostic text of a failure, given the text of a provider's own failure.
    pub open spec fn message_text(self, provider_text: Seq<char>) -> Seq<char> {
        match self {
            AuthenticationError::HashProvider(_) => "SHA-384 provider failure: "@ + provider_text,
            AuthenticationError::VerificationProvider(_) => "authentication provider failure: "@
                + provider_text,
            AuthenticationError::AnnouncedFingerprintMismatch =>
            "identity keys do not match announced fingerprint"@,
            AuthenticationError::TrustAnchorMismatch => "identity keys do not match trust anchor"@,
            AuthenticationError::InvalidFinishedMac => "invalid Finished MAC"@,
            AuthenticationError::InvalidEd25519Signature => "invalid Ed25519 signature"@,
            AuthenticationError::InvalidMlDsa65Signature => "invalid ML-DSA-65 signature"@,
            AuthenticationError::ManifestSignerMismatch =>
            "manifest signer does not match authenticated peer"@,
            AuthenticationError::SignatureInputOverflow =>
            "contextualized signature input overflow"@,
            AuthenticationError::CodecInvariantViolation =>
            "authenticated codec invariant violation"@,
        }
    }

    /// Returns the diagnostic text of this failure, given the text of a provider's own failure.
    pub fn message(&self, provider_text: &str) -> (text: String)
        ensures
            text@ == self.message_text(provider_text@),
    {
        match self {
            AuthenticationError::HashProvider(_) => fixed("SHA-384 provider failure: ").concat(
                provider_text,
            ),
            AuthenticationError::VerificationProvider(_) => fixed(
                "authentication provider failure: ",
            ).concat(provider_text),
            AuthenticationError::AnnouncedFingerprintMismatch => fixed(
                "identity keys do not match announced fingerprint",
            ),
            AuthenticationError::TrustAnchorMismatch => fixed(
                "identity keys do not match trust anchor",
            ),
            AuthenticationError::InvalidFinishedMac => fixed("invalid Finished MAC"),
            AuthenticationError::InvalidEd25519Signature => fixed("invalid Ed25519 signature"),
            AuthenticationError::InvalidMlDsa65Signature => fixed("invalid ML-DSA-65 signature"),
            AuthenticationError::ManifestSignerMismatch => fixed(
                "manifest signer does not match authenticated peer",
            ),
            AuthenticationError::SignatureInputOverflow => fixed(
                "contextualized signature input overflow",
            ),
            AuthenticationError::CodecInvariantViolation => fixed(
                "authenticated codec invariant violation",
            ),
        }
    }
}

/// Fixed-size peer identity installed only after fingerprint, Finished, and both signature checks
/// succeed.
#[derive(Clone, PartialEq, Eq)]
pub struct AuthenticatedIdentity {
    fingerprint: [u8; IDENTITY_FINGERPRINT_LEN],
    ed25519_public_key: [u8; ED25519_PUBLIC_KEY_LEN],
    ml_dsa_65_public_key: [u8; ML_DSA_65_PUBLIC_KEY_LEN],
}

impl AuthenticatedIdentity {
    /// The identity's fingerprint.
    pub closed spec fn fingerprint_bytes(&self) -> Seq<u8> {
        self.fingerprint@
    }

    /// The identity's Ed25519 key.
    pub closed spec fn ed25519_bytes(&self) -> Seq<u8> {
        self.ed25519_public_key@
    }

    /// The identity's ML-DSA-65 key.
    pub closed spec fn ml_dsa_65_bytes(&self) -> Seq<u8> {
        self.ml_dsa_65_public_key@
    }

    /// Returns the trust-anchor-bound identity fingerprint.
    pub fn fingerprint(&self) -> (fingerprint: &[u8; IDENTITY_FINGERPRINT_LEN])
        ensures
            fingerprint@ == self.fingerprint_bytes(),
    {
        &self.fingerprint
    }

    /// Returns the authenticated Ed25519 public key.
    pub fn ed25519_public_key(&self) -> (key: &[u8; ED25519_PUBLIC_KEY_LEN])
        ensures
            key@ == self.ed25519_bytes(),
    {
        &self.ed25519_public_key
    }

    /// Returns the authenticated ML-DSA-65 public key.
    pub fn ml_dsa_65_public_key(&self) -> (key: &[u8; ML_DSA_65_PUBLIC_KEY_LEN])
        ensures
            key@ == self.ml_dsa_65_bytes(),
    {
        &self.ml_dsa_65_public_key
    }

    /// Returns a text for diagnostics that shows no key material.
    pub fn debug_text(&self) -> (text: String)
        ensures
            text@ == "AuthenticatedIdentity { key_material: \"<redacted>\" }"@,
    {
        fixed("AuthenticatedIdentity { key_material: \"<redacted>\" }")
    }
}

/// Capability token proving that both manifest signatures matched one authenticated peer identity.
#[derive(Clone, Copy, PartialEq, Eq)]
pub struct VerifiedManifest {
    header: ManifestHeader,
}

impl VerifiedManifest {
    /// The verified object geometry.
    pub closed spec fn verified_header(&self) -> ManifestHeader {
        self.header
    }

    /// Returns the verified signed object geometry.
    pub fn header(&self) -> (header: ManifestHeader)
        ensures
            header == self.verified_header(),
    {
        self.header
    }

    /// Returns a text for diagnostics that shows the geometry and neither identifiers nor root.
    pub fn debug_text(&self) -> (text: String)
        ensures
            text@ == ("VerifiedManifest { object_size: "@ + decimal(
                self.verified_header().object_size as nat,
            ) + ", chunk_size: "@ + decimal(self.verified_header().chunk_size as nat)
                + ", chunk_count: "@) + (""@ + decimal(self.verified_header().chunk_count as nat)
                + ", identifiers_and_root: \"<redacted>\" }"@),
    {
        with_two_numbers(
            "VerifiedManifest { object_size: ",
            self.header.object_size,
            ", chunk_size: ",
            self.header.chunk_size as u64,
            ", chunk_count: ",
        ).concat(
            with_number(
                "",
                self.header.chunk_count as u64,
                ", identifiers_and_root: \"<redacted>\" }",
            ).as_str(),
        )
    }
}

/// Borrowed transcript, Finished, and trust inputs for one peer-authentication decision.
#[derive(Clone, Copy, PartialEq, Eq)]
pub struct PeerAuthenticationContext<'a> {
    pub role: AuthenticationRole,
    pub signature_transcript_hash: &'a [u8; SHA384_OUTPUT_LEN],
    pub finished_transcript_hash: &'a [u8; SHA384_OUTPUT_LEN],
    pub finished_key: &'a [u8; FINISHED_MAC_LEN],
    pub announced_fingerprint: &'a [u8; IDENTITY_FINGERPRINT_LEN],
    pub trust_anchor_fingerprint: &'a [u8; IDENTITY_FINGERPRINT_LEN],
}

impl<'a> PeerAuthenticationContext<'a> {
    /// The text of a role.
    pub open spec fn role_text(self) -> Seq<char> {
        match self.role {
            AuthenticationRole::Initiator => "Initiator"@,
            AuthenticationRole::Responder => "Responder"@,
        }
    }

    /// Returns a text for diagnostics that shows the role and nothing else.
    pub fn debug_text(&self) -> (text: String)
        ensures
            text@ == "PeerAuthenticationContext { role: "@ + self.role_text()
                + ", transcript_hashes_finished_key_and_fingerprints: \"<redacted>\" }"@,
    {
        let role: &'static str = match self.role {
            AuthenticationRole::Initiator => "Initiator",
            AuthenticationRole::Responder => "Responder",
        };
        fixed("PeerAuthenticationContext { role: ").concat(role).concat(
            ", transcript_hashes_finished_key_and_fingerprints: \"<redacted>\" }",
        )
    }
}

/// The bytes whose hash is an identity's fingerprint.
pub open spec fn fingerprint_input(ed25519_public_key: Seq<u8>, ml_dsa_65_public_key: Seq<u8>) -> Seq<
    u8,
> {
    IDENTITY_FINGERPRINT_CONTEXT.spec_bytes() + ed25519_public_key + ml_dsa_65_public_key
}

/// Whether an identity block has components of the fixed sizes.
pub open spec fn has_fixed_sizes(identity_auth: &IdentityAuth) -> bool {
    &&& identity_auth.ml_dsa_public_key@.len() == ML_DSA_65_PUBLIC_KEY_LEN
    &&& identity_auth.ml_dsa_signature@.len() == ML_DSA_65_SIGNATURE_LEN
}

/// The fingerprint of an identity block's keys.
pub open spec fn fingerprint_of<P: Sha384Provider>(
    provider: &P,
    identity_auth: &IdentityAuth,
) -> Seq<u8> {
    provider.sha384(
        fingerprint_input(
            identity_auth.ed25519_public_key@,
            identity_auth.ml_dsa_public_key@,
        ),
    )@
}

/// The reason to reject an identity block when no provider operation fails: the checks in order.
pub open spec fn identity_rejection<P: HybridAuthenticationProvider>(
    provider: &P,
    authentication: PeerAuthenticationContext,
    identity_auth: &IdentityAuth,
) -> Option<AuthenticationError<P::Error, P::VerificationError>> {
    let fingerprint = fingerprint_of(provider, identity_auth);
    let message = signature_input(authentication.role, authentication.signature_transcript_hash@);
    if !has_fixed_sizes(identity_auth) {
        Some(AuthenticationError::CodecInvariantViolation)
    } else if fingerprint != authentication.announced_fingerprint@ {
        Some(AuthenticationError::AnnouncedFingerprintMismatch)
    } else if fingerprint != authentication.trust_anchor_fingerprint@ {
        Some(AuthenticationError::TrustAnchorMismatch)
    } else if !provider.mac_is_valid(
        authentication.finished_key@,
        authentication.finished_transcript_hash@,
        identity_auth.finished_mac@,
    ) {
        Some(AuthenticationError::InvalidFinishedMac)
    } else if !provider.ed25519_is_valid(
        identity_auth.ed25519_public_key@,
        message,
        identity_auth.ed25519_signature@,
    ) {
        Some(AuthenticationError::InvalidEd25519Signature)
    } else if !provider.ml_dsa_65_is_valid(
        identity_auth.ml_dsa_public_key@,
        message,
        identity_auth.ml_dsa_signature@,
    ) {
        Some(AuthenticationError::InvalidMlDsa65Signature)
    } else {
        None
    }
}

/// No identity is installed unless every gate passes: its keys have the announced and the trusted
/// fingerprint, and the Finished MAC and both signatures are valid for the given transcript.
pub proof fn lemma_identity_passes_every_gate<P: HybridAuthenticationProvider>(
    provider: &P,
    authentication: PeerAuthenticationContext,
    identity_auth: &IdentityAuth,
)
    ensures
        identity_rejection(provider, authentication, identity_auth) is None <==> {
            let fingerprint = fingerprint_of(provider, identity_auth);
            let message = signature_input(
                authentication.role,
                authentication.signature_transcript_hash@,
            );
            &&& has_fixed_sizes(identity_auth)
            &&& fingerprint == authentication.announced_fingerprint@
            &&& fingerprint == authentication.trust_anchor_fingerprint@
            &&& provider.mac_is_valid(
                authentication.finished_key@,
                authentication.finished_transcript_hash@,
                identity_auth.finished_mac@,
            )
            &&& provider.ed25519_is_valid(
                identity_auth.ed25519_public_key@,
                message,
                identity_auth.ed25519_signature@,
            )
            &&& provider.ml_dsa_65_is_valid(
                identity_auth.ml_dsa_public_key@,
                message,
                identity_auth.ml_dsa_signature@,
            )
        },
{
}

/// Whether a provider fails with `error` to verify an Ed25519 signature of a message.
pub open spec fn ed25519_fails_with<P: HybridAuthenticationProvider>(
    provider: &P,
    public_key: Seq<u8>,
    message: Seq<u8>,
    signature: Seq<u8>,
    error: P::VerificationError,
) -> bool {
    exists|
        key: [u8; ED25519_PUBLIC_KEY_LEN],
        input: &[u8],
        signed: [u8; ED25519_SIGNATURE_LEN],
    | {
        &&& key@ == public_key
        &&& input@ == message
        &&& signed@ == signature
        &&& #[trigger] call_ensures(
            P::verify_ed25519,
            (provider, &key, input, &signed),
            Err::<VerificationResult, P::VerificationError>(error),
        )
    }
}

/// Whether a provider fails with `error` to verify an ML-DSA-65 signature of a message.
pub open spec fn ml_dsa_65_fails_with<P: HybridAuthenticationProvider>(
    provider: &P,
    public_key: Seq<u8>,
    message: Seq<u8>,
    signature: Seq<u8>,
    error: P::VerificationError,
) -> bool {
    exists|
        key: [u8; ML_DSA_65_PUBLIC_KEY_LEN],
        input: &[u8],
        signed: [u8; ML_DSA_65_SIGNATURE_LEN],
    | {
        &&& key@ == public_key
        &&& input@ == message
        &&& signed@ == signature
        &&& #[trigger] call_ensures(
            P::verify_ml_dsa_65,
            (provider, &key, input, &signed),
            Err::<VerificationResult, P::VerificationError>(error),
        )
    }
}

/// Whether the verification of an identity block can end in a provider's own failure `error`: each
/// authenticator is only reached behind valid ones, in the order Finished MAC, Ed25519, ML-DSA-65.
pub open spec fn identity_verification_fails_with<P: HybridAuthenticationProvider>(
    provider: &P,
    authentication: PeerAuthenticationContext,
    identity_auth: &IdentityAuth,
    error: P::VerificationError,
) -> bool {
    let message = signature_input(authentication.role, authentication.signature_transcript_hash@);
    let mac_is_valid = provider.mac_is_valid(
        authentication.finished_key@,
        authentication.finished_transcript_hash@,
        identity_auth.finished_mac@,
    );
    let ed25519_is_valid = provider.ed25519_is_valid(
        identity_auth.ed25519_public_key@,
        message,
        identity_auth.ed25519_signature@,
    );
    ||| call_ensures(
        P::verify_hmac_sha384,
        (
            provider,
            authentication.finished_key,
            authentication.finished_transcript_hash,
            &identity_auth.finished_mac,
        ),
        Err::<VerificationResult, P::VerificationError>(error),
    )
    ||| mac_is_valid && ed25519_fails_with(
        provider,
        identity_auth.ed25519_public_key@,
        message,
        identity_auth.ed25519_signature@,
        error,
    )
    ||| mac_is_valid && ed25519_is_valid && ml_dsa_65_fails_with(
        provider,
        identity_auth.ml_dsa_public_key@,
        message,
        identity_auth.ml_dsa_signature@,
        error,
    )
}

/// Authenticates one decrypted handshake identity block atomically.
///
/// The cheap fingerprint checks run first, followed by Finished HMAC, Ed25519, and ML-DSA-65. No
/// key material is returned unless every check succeeds. `signature_transcript_hash` and
/// `finished_transcript_hash` must be the named transcript snapshots of `role`.
///
/// # Errors
///
/// Returns a mismatch, invalid authenticator, fixed-input overflow, invariant failure, or
/// provider-specific hashing/verification error.
pub fn authenticate_peer_identity<P: HybridAuthenticationProvider>(
    provider: &P,
    authentication: PeerAuthenticationContext<'_>,
    identity_auth: &IdentityAuth<'_>,
) -> (identity: Result<
    AuthenticatedIdentity,
    AuthenticationError<P::Error, P::VerificationError>,
>)
    ensures
        match identity {
            Ok(identity) => {
                &&& identity_rejection(provider, authentication, identity_auth) is None
                &&& identity.fingerprint_bytes() == fingerprint_of(provider, identity_auth)
                &&& identity.ed25519_bytes() == identity_auth.ed25519_public_key@
                &&& identity.ml_dsa_65_bytes() == identity_auth.ml_dsa_public_key@
            },
            Err(AuthenticationError::HashProvider(error)) => {
                &&& has_fixed_sizes(identity_auth)
                &&& hashing_fails_with(
                    provider,
                    fingerprint_input(
                        identity_auth.ed25519_public_key@,
                        identity_auth.ml_dsa_public_key@,
                    ),
                    error,
                )
            },
            Err(AuthenticationError::VerificationProvider(error)) => {
                let fingerprint = fingerprint_of(provider, identity_auth);
                &&& has_fixed_sizes(identity_auth)
                &&& fingerprint == authentication.announced_fingerprint@
                &&& fingerprint == authentication.trust_anchor_fingerprint@
                &&& identity_verification_fails_with(
                    provider,
                    authentication,
                    identity_auth,
                    error,
                )
            },
            Err(error) => identity_rejection(provider, authentication, identity_auth) == Some(
                error,
            ),
        },
{
    if identity_auth.ml_dsa_public_key.len() != ML_DSA_65_PUBLIC_KEY_LEN {
        return Err(AuthenticationError::CodecInvariantViolation);
    }
    if identity_auth.ml_dsa_signature.len() != ML_DSA_65_SIGNATURE_LEN {
        return Err(AuthenticationError::CodecInvariantViolation);
    }
    let ml_dsa_65_public_key: [u8; ML_DSA_65_PUBLIC_KEY_LEN] = get_array::<
        ML_DSA_65_PUBLIC_KEY_LEN,
    >(identity_auth.ml_dsa_public_key, 0);
    let ml_dsa_65_signature: [u8; ML_DSA_65_SIGNATURE_LEN] = get_array::<ML_DSA_65_SIGNATURE_LEN>(
        identity_auth.ml_dsa_signature,
        0,
    );
    assert(ml_dsa_65_public_key@ =~= identity_auth.ml_dsa_public_key@);
    assert(ml_dsa_65_signature@ =~= identity_auth.ml_dsa_signature@);
    let computed_fingerprint: Sha384Digest = match identity_fingerprint(
        provider,
        &identity_auth.ed25519_public_key,
        &ml_dsa_65_public_key,
    ) {
        Ok(fingerprint) => fingerprint,
        Err(error) => {
            return Err(AuthenticationError::HashProvider(error));
        },
    };
    if !bytes_equal_full_scan(&computed_fingerprint, authentication.announced_fingerprint) {
        return Err(AuthenticationError::AnnouncedFingerprintMismatch);
    }
    if !bytes_equal_full_scan(&computed_fingerprint, authentication.trust_anchor_fingerprint) {
        return Err(AuthenticationError::TrustAnchorMismatch);
    }
    match require_valid(
        provider.verify_hmac_sha384(
            authentication.finished_key,
            authentication.finished_transcript_hash,
            &identity_auth.finished_mac,
        ),
        AuthenticationError::InvalidFinishedMac,
    ) {
        Ok(()) => {},
        Err(error) => {
            return Err(error);
        },
    }
    let input = match handshake_signature_input(
        authentication.role,
        authentication.signature_transcript_hash,
    ) {
        Some(input) => input,
        None => {
            return Err(AuthenticationError::SignatureInputOverflow);
        },
    };
    match require_valid(
        provider.verify_ed25519(
            &identity_auth.ed25519_public_key,
            input.as_bytes(),
            &identity_auth.ed25519_signature,
        ),
        AuthenticationError::InvalidEd25519Signature,
    ) {
        Ok(()) => {},
        Err(error) => {
            return Err(error);
        },
    }
    match require_valid(
        provider.verify_ml_dsa_65(&ml_dsa_65_public_key, input.as_bytes(), &ml_dsa_65_signature),
        AuthenticationError::InvalidMlDsa65Signature,
    ) {
        Ok(()) => {},
        Err(error) => {
            return Err(error);
        },
    }
    Ok(
        AuthenticatedIdentity {
            fingerprint: computed_fingerprint,
            ed25519_public_key: identity_auth.ed25519_public_key,
            ml_dsa_65_public_key,
        },
    )
}

/// The reason to reject a manifest when no provider operation fails: the checks in order.
pub open spec fn manifest_rejection<P: HybridAuthenticationProvider>(
    provider: &P,
    identity: &AuthenticatedIdentity,
    manifest: &Manifest,
) -> Option<AuthenticationError<P::Error, P::VerificationError>> {
    let message = crate::manifest::manifest_signature_input(
        provider.sha384(manifest.unsigned_content@)@,
    );
    if manifest.header.signer_identity_fingerprint@ != identity.fingerprint_bytes() {
        Some(AuthenticationError::ManifestSignerMismatch)
    } else if manifest.ed25519_signature@.len() != ED25519_SIGNATURE_LEN
        || manifest.ml_dsa_65_signature@.len() != ML_DSA_65_SIGNATURE_LEN {
        Some(AuthenticationError::CodecInvariantViolation)
    } else if !provider.ed25519_is_valid(
        identity.ed25519_bytes(),
        message,
        manifest.ed25519_signature@,
    ) {
        Some(AuthenticationError::InvalidEd25519Signature)
    } else if !provider.ml_dsa_65_is_valid(
        identity.ml_dsa_65_bytes(),
        message,
        manifest.ml_dsa_65_signature@,
    ) {
        Some(AuthenticationError::InvalidMlDsa65Signature)
    } else {
        None
    }
}

/// No manifest is accepted unless it names the authenticated peer as its signer and both signatures
/// are valid under that peer's keys.
pub proof fn lemma_manifest_passes_every_gate<P: HybridAuthenticationProvider>(
    provider: &P,
    identity: &AuthenticatedIdentity,
    manifest: &Manifest,
)
    ensures
        manifest_rejection(provider, identity, manifest) is None <==> {
            let message = crate::manifest::manifest_signature_input(
                provider.sha384(manifest.unsigned_content@)@,
            );
            &&& manifest.header.signer_identity_fingerprint@ == identity.fingerprint_bytes()
            &&& manifest.ed25519_signature@.len() == ED25519_SIGNATURE_LEN
            &&& manifest.ml_dsa_65_signature@.len() == ML_DSA_65_SIGNATURE_LEN
            &&& provider.ed25519_is_valid(
                identity.ed25519_bytes(),
                message,
                manifest.ed25519_signature@,
            )
            &&& provider.ml_dsa_65_is_valid(
                identity.ml_dsa_65_bytes(),
                message,
                manifest.ml_dsa_65_signature@,
            )
        },
{
}

/// Verifies both signatures on a canonical manifest against one authenticated peer identity.
///
/// The returned token is created only after signer binding and both signature algorithms succeed.
/// It can be used to install transfer and Merkle state.
///
/// # Errors
///
/// Returns an identity mismatch, invalid signature, fixed-input overflow, invariant failure, or
/// provider-specific hashing/verification error.
pub fn verify_manifest<P: HybridAuthenticationProvider>(
    provider: &P,
    identity: &AuthenticatedIdentity,
    manifest: &Manifest<'_>,
) -> (verified: Result<VerifiedManifest, AuthenticationError<P::Error, P::VerificationError>>)
    ensures
        match verified {
            Ok(verified) => {
                &&& manifest_rejection(provider, identity, manifest) is None
                &&& verified.verified_header() == manifest.header
            },
            Err(AuthenticationError::HashProvider(error)) => {
                &&& manifest.header.signer_identity_fingerprint@ == identity.fingerprint_bytes()
                &&& hashing_fails_with(provider, manifest.unsigned_content@, error)
            },
            Err(AuthenticationError::VerificationProvider(error)) => {
                let message = crate::manifest::manifest_signature_input(
                    provider.sha384(manifest.unsigned_content@)@,
                );
                &&& manifest.header.signer_identity_fingerprint@ == identity.fingerprint_bytes()
                &&& manifest.ed25519_signature@.len() == ED25519_SIGNATURE_LEN
                &&& manifest.ml_dsa_65_signature@.len() == ML_DSA_65_SIGNATURE_LEN
                &&& ed25519_fails_with(
                    provider,
                    identity.ed25519_bytes(),
                    message,
                    manifest.ed25519_signature@,
                    error,
                ) || provider.ed25519_is_valid(
                    identity.ed25519_bytes(),
                    message,
                    manifest.ed25519_signature@,
                ) && ml_dsa_65_fails_with(
                    provider,
                    identity.ml_dsa_65_bytes(),
                    message,
                    manifest.ml_dsa_65_signature@,
                    error,
                )
            },
            Err(error) => manifest_rejection(provider, identity, manifest) == Some(error),
        },
{
    if !bytes_equal_full_scan(
        &manifest.header.signer_identity_fingerprint,
        &identity.fingerprint,
    ) {
        return Err(AuthenticationError::ManifestSignerMismatch);
    }
    let manifest_hash: Sha384Digest = match hash_bytes(provider, manifest.unsigned_content()) {
        Ok(digest) => digest,
        Err(error) => {
            return Err(AuthenticationError::HashProvider(error));
        },
    };
    let input = match manifest_signature_input(&manifest_hash) {
        Some(input) => input,
        None => {
            return Err(AuthenticationError::SignatureInputOverflow);
        },
    };
    if manifest.ed25519_signature.len() != ED25519_SIGNATURE_LEN {
        return Err(AuthenticationError::CodecInvariantViolation);
    }
    if manifest.ml_dsa_65_signature.len() != ML_DSA_65_SIGNATURE_LEN {
        return Err(AuthenticationError::CodecInvariantViolation);
    }
    let ed25519_signature: [u8; ED25519_SIGNATURE_LEN] = get_array::<ED25519_SIGNATURE_LEN>(
        manifest.ed25519_signature,
        0,
    );
    let ml_dsa_65_signature: [u8; ML_DSA_65_SIGNATURE_LEN] = get_array::<ML_DSA_65_SIGNATURE_LEN>(
        manifest.ml_dsa_65_signature,
        0,
    );
    assert(ed25519_signature@ =~= manifest.ed25519_signature@);
    assert(ml_dsa_65_signature@ =~= manifest.ml_dsa_65_signature@);
    match require_valid(
        provider.verify_ed25519(
            &identity.ed25519_public_key,
            input.as_bytes(),
            &ed25519_signature,
        ),
        AuthenticationError::InvalidEd25519Signature,
    ) {
        Ok(()) => {},
        Err(error) => {
            return Err(error);
        },
    }
    match require_valid(
        provider.verify_ml_dsa_65(
            &identity.ml_dsa_65_public_key,
            input.as_bytes(),
            &ml_dsa_65_signature,
        ),
        AuthenticationError::InvalidMlDsa65Signature,
    ) {
        Ok(()) => {},
        Err(error) => {
            return Err(error);
        },
    }
    Ok(VerifiedManifest { header: manifest.header })
}

/// Computes the canonical SHA-384 identity fingerprint.
///
/// # Errors
///
/// Returns a provider-specific SHA-384 failure.
pub fn identity_fingerprint<P: Sha384Provider>(
    provider: &P,
    ed25519_public_key: &[u8; ED25519_PUBLIC_KEY_LEN],
    ml_dsa_65_public_key: &[u8; ML_DSA_65_PUBLIC_KEY_LEN],
) -> (fingerprint: Result<Sha384Digest, P::Error>)
    ensures
        ({
            let message = fingerprint_input(ed25519_public_key@, ml_dsa_65_public_key@);
            match fingerprint {
                Ok(fingerprint) => fingerprint@ == provider.sha384(message)@,
                Err(error) => hashing_fails_with(provider, message, error),
            }
        }),
{
    let mut context = match provider.start_sha384() {
        Ok(context) => context,
        Err(error) => {
            return Err(error);
        },
    };
    context.update(IDENTITY_FINGERPRINT_CONTEXT.as_bytes());
    context.update(ed25519_public_key);
    context.update(ml_dsa_65_public_key);
    assert(context.fed() =~= fingerprint_input(ed25519_public_key@, ml_dsa_65_public_key@));
    provider.finish_sha384(context)
}

fn hash_bytes<P: Sha384Provider>(provider: &P, bytes: &[u8]) -> (digest: Result<
    Sha384Digest,
    P::Error,
>)
    ensures
        match digest {
            Ok(digest) => digest@ == provider.sha384(bytes@)@,
            Err(error) => hashing_fails_with(provider, bytes@, error),
        },
{
    let mut context = match provider.start_sha384() {
        Ok(context) => context,
        Err(error) => {
            return Err(error);
        },
    };
    context.update(bytes);
    assert(context.fed() =~= bytes@);
    provider.finish_sha384(context)
}

/// Judges a provider's verification answer: only a valid authenticator passes.
///
/// # Errors
///
/// Returns `invalid_error` for an invalid authenticator, or the provider's own failure.
pub fn require_valid<H, V>(
    verdict: Result<VerificationResult, V>,
    invalid_error: AuthenticationError<H, V>,
) -> (outcome: Result<(), AuthenticationError<H, V>>)
    ensures
        outcome == match verdict {
            Ok(VerificationResult::Valid) => Ok::<(), AuthenticationError<H, V>>(()),
            Ok(VerificationResult::Invalid) => Err(invalid_error),
            Err(error) => Err(AuthenticationError::VerificationProvider(error)),
        },
{
    match verdict {
        Ok(VerificationResult::Valid) => Ok(()),
        Ok(VerificationResult::Invalid) => Err(invalid_error),
        Err(error) => Err(AuthenticationError::VerificationProvider(error)),
    }
}

/// Builds the exact bounded message signed for handshake peer authentication.
///
/// Returning `None` is a fail-closed guard against a future context expansion exceeding
/// [`MAX_CONTEXTUALIZED_SIGNATURE_INPUT_LEN`].
pub fn handshake_signature_input(
    role: AuthenticationRole,
    transcript_hash: &[u8; SHA384_OUTPUT_LEN],
) -> (input: Option<ContextualizedSignatureInput>)
    ensures
        input matches Some(input) && !input.has_overflowed() && input.message() == signature_input(
            role,
            transcript_hash@,
        ),
{
    let mut input = ContextualizedSignatureInput::new();
    feed_signature_input(&mut input, role, transcript_hash);
    proof {
        lemma_role_labels();
        assert(input.fed() =~= signature_input(role, transcript_hash@));
    }
    input.unless_overflowed()
}

/// Builds the exact bounded message signed for a canonical manifest.
///
/// Returning `None` is a fail-closed guard against a future context expansion exceeding
/// [`MAX_CONTEXTUALIZED_SIGNATURE_INPUT_LEN`].
pub fn manifest_signature_input(manifest_hash: &Sha384Digest) -> (input: Option<
    ContextualizedSignatureInput,
>)
    ensures
        input matches Some(input) && !input.has_overflowed() && input.message()
            == crate::manifest::manifest_signature_input(manifest_hash@),
{
    let mut input = ContextualizedSignatureInput::new();
    feed_manifest_signature_input(&mut input, manifest_hash);
    proof {
        lemma_manifest_context();
        assert(input.fed() =~= crate::manifest::manifest_signature_input(manifest_hash@));
    }
    input.unless_overflowed()
}

/// Length of the manifest signature context, and a byte that differs from every role label.
proof fn lemma_manifest_context()
    ensures
        crate::manifest::MANIFEST_SIGNATURE_CONTEXT.spec_bytes().len() == 22,
        crate::manifest::MANIFEST_SIGNATURE_CONTEXT.spec_bytes()[7] == 0x6f,
{
    reveal_strlit("OGTP/1 object manifest");
    let context = crate::manifest::MANIFEST_SIGNATURE_CONTEXT;
    assert(context.is_ascii());
}

/// A signature made for a handshake never passes as a signature of a manifest: the signed messages
/// differ, whatever they contain.
pub proof fn lemma_handshake_and_manifest_messages_differ(
    role: AuthenticationRole,
    transcript_hash: Seq<u8>,
    manifest_hash: Seq<u8>,
)
    ensures
        signature_input(role, transcript_hash) != crate::manifest::manifest_signature_input(
            manifest_hash,
        ),
{
    lemma_role_labels();
    lemma_manifest_context();
    let left = signature_input(role, transcript_hash);
    let right = crate::manifest::manifest_signature_input(manifest_hash);
    let at = SIGNATURE_CONTEXT_PREFIX_LEN + 7;
    assert(left[at] == role.label()[7]);
    assert(right[at] == 0x6f);
}

/// Fixed-capacity canonical message consumed by both identity signature algorithms.
pub struct ContextualizedSignatureInput {
    bytes: [u8; MAX_CONTEXTUALIZED_SIGNATURE_INPUT_LEN],
    length: usize,
    overflowed: bool,
    absorbed: Ghost<Seq<u8>>,
}

impl ContextualizedSignatureInput {
    /// The stored bytes are everything absorbed, unless more was absorbed than fits.
    #[verifier::type_invariant]
    closed spec fn stored_is_absorbed(self) -> bool {
        &&& self.length <= MAX_CONTEXTUALIZED_SIGNATURE_INPUT_LEN
        &&& self.overflowed == (self.absorbed@.len() > MAX_CONTEXTUALIZED_SIGNATURE_INPUT_LEN)
        &&& !self.overflowed ==> self.absorbed@ == self.bytes@.take(self.length as int)
    }

    /// The contextualized message.
    pub closed spec fn message(&self) -> Seq<u8> {
        self.bytes@.take(self.length as int)
    }

    fn new() -> (input: ContextualizedSignatureInput)
        ensures
            input.fed() == Seq::<u8>::empty(),
    {
        let bytes: [u8; MAX_CONTEXTUALIZED_SIGNATURE_INPUT_LEN] = [0u8;
            MAX_CONTEXTUALIZED_SIGNATURE_INPUT_LEN];
        assert(bytes@.take(0) =~= Seq::<u8>::empty());
        ContextualizedSignatureInput {
            bytes,
            length: 0,
            overflowed: false,
            absorbed: Ghost(Seq::empty()),
        }
    }

    fn unless_overflowed(self) -> (input: Option<ContextualizedSignatureInput>)
        ensures
            match input {
                Some(input) => input.message() == self.fed() && !input.has_overflowed(),
                None => self.fed().len() > MAX_CONTEXTUALIZED_SIGNATURE_INPUT_LEN,
            },
    {
        proof {
            use_type_invariant(&self);
        }
        if self.overflowed {
            None
        } else {
            Some(self)
        }
    }

    /// Returns the exact contextualized message bytes.
    pub fn as_bytes(&self) -> (bytes: &[u8])
        ensures
            bytes@ == self.message(),
    {
        proof {
            use_type_invariant(self);
        }
        let stored: &[u8] = part(&self.bytes, 0, self.length);
        assert(stored@ =~= self.message());
        stored
    }

    /// Whether more has been absorbed than fits.
    pub closed spec fn has_overflowed(&self) -> bool {
        self.overflowed
    }

    /// Returns a text for diagnostics that shows the length and no message bytes.
    pub fn debug_text(&self) -> (text: String)
        ensures
            text@ == "ContextualizedSignatureInput { length: "@ + decimal(self.message().len()) + (
            if self.has_overflowed() {
                ", overflowed: true, bytes: \"<redacted>\" }"@
            } else {
                ", overflowed: false, bytes: \"<redacted>\" }"@
            }),
    {
        with_number(
            "ContextualizedSignatureInput { length: ",
            self.as_bytes().len() as u64,
            if self.overflowed {
                ", overflowed: true, bytes: \"<redacted>\" }"
            } else {
                ", overflowed: false, bytes: \"<redacted>\" }"
            },
        )
    }
}

impl TranscriptSink for ContextualizedSignatureInput {
    closed spec fn fed(&self) -> Seq<u8> {
        self.absorbed@
    }

    fn update(&mut self, bytes: &[u8]) {
        proof {
            use_type_invariant(&*self);
        }
        let ghost absorbed = self.absorbed@ + bytes@;
        let mut stored: [u8; MAX_CONTEXTUALIZED_SIGNATURE_INPUT_LEN] = self.bytes;
        if bytes.len() > MAX_CONTEXTUALIZED_SIGNATURE_INPUT_LEN - self.length {
            *self =
            ContextualizedSignatureInput {
                bytes: stored,
                length: self.length,
                overflowed: true,
                absorbed: Ghost(absorbed),
            };
            return;
        }
        let ghost before = stored@;
        let length: usize = put(&mut stored, self.length, bytes);
        proof {
            if !self.overflowed {
                assert(stored@.take(length as int) =~= before.take(self.length as int) + bytes@);
            }
        }
        *self =
        ContextualizedSignatureInput {
            bytes: stored,
            length,
            overflowed: self.overflowed,
            absorbed: Ghost(absorbed),
        };
    }
}

} // verus!
