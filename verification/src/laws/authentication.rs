//! Laws of identity authentication and key labels.

use vstd::prelude::*;
use vstd::string::*;

use crate::authentication::{
    authenticate_peer_identity, handshake_signature_input, identity_fingerprint,
    manifest_signature_input, require_valid, verify_manifest, AuthenticatedIdentity,
    AuthenticationError, ContextualizedSignatureInput, HybridAuthenticationProvider,
    PeerAuthenticationContext, VerificationResult, VerifiedManifest,
};
use crate::bytes::{be16, overwrite_prefix};
use crate::crypto::{Sha384Digest, Sha384Provider};
use crate::handshake::IdentityAuth;
use crate::kdf::{encode_expand_label, LabelError};
use crate::laws::numbers::{lemma_spells16, number_at};
use crate::manifest::Manifest;
use crate::transcript::AuthenticationRole;

verus! {

/// What a role signs for a transcript hash: 64 spaces, the role's label, a zero byte, and the hash.
pub open spec fn signed_by_role(role: AuthenticationRole, hash: Seq<u8>) -> Seq<u8> {
    Seq::new(64, |i: int| 32u8) + match role {
        AuthenticationRole::Initiator => "OGTP/1 initiator authentication".spec_bytes(),
        AuthenticationRole::Responder => "OGTP/1 responder authentication".spec_bytes(),
    } + seq![0u8] + hash
}

/// What is signed for a manifest: 64 spaces, the label, a zero byte, and the hash of its content.
pub open spec fn signed_for_manifest(hash: Seq<u8>) -> Seq<u8> {
    Seq::new(64, |i: int| 32u8) + "OGTP/1 object manifest".spec_bytes() + seq![0u8] + hash
}

/// What an identity is known by: the hash of its label and its two public keys.
pub open spec fn known_by<P: Sha384Provider>(
    provider: &P,
    ed25519: Seq<u8>,
    ml_dsa_65: Seq<u8>,
) -> Seq<u8> {
    provider.sha384("OGTP/1 identity\0".spec_bytes() + ed25519 + ml_dsa_65)@
}

proof fn lemma_signed_messages(role: AuthenticationRole, hash: Seq<u8>)
    ensures
        crate::transcript::signature_input(role, hash) == signed_by_role(role, hash),
        crate::manifest::manifest_signature_input(hash) == signed_for_manifest(hash),
{
    assert(crate::transcript::signature_padding() =~= Seq::new(64, |i: int| 32u8));
}

/// A fingerprint is the hash of the label and both keys, Ed25519 first.
pub proof fn lemma_fingerprint_covers_both_keys<P: Sha384Provider>(
    provider: &P,
    ed25519: &[u8; 32],
    ml_dsa_65: &[u8; 1952],
    fingerprint: Sha384Digest,
)
    requires
        call_ensures(identity_fingerprint::<P>, (provider, ed25519, ml_dsa_65), Ok(fingerprint)),
    ensures
        fingerprint@ == known_by(provider, ed25519@, ml_dsa_65@),
{
}

/// The messages to verify are the ones that are signed.
pub proof fn lemma_verified_messages_are_signed_messages(
    role: AuthenticationRole,
    hash: &[u8; 48],
    handshake: Option<ContextualizedSignatureInput>,
    manifest: Option<ContextualizedSignatureInput>,
)
    requires
        call_ensures(handshake_signature_input, (role, hash), handshake),
        call_ensures(manifest_signature_input, (hash,), manifest),
    ensures
        handshake is Some && handshake->0.message() == signed_by_role(role, hash@),
        manifest is Some && manifest->0.message() == signed_for_manifest(hash@),
{
    lemma_signed_messages(role, hash@);
}

/// A peer is authenticated only if its keys hash to the announced fingerprint, which is also the
/// trusted one, its MAC is valid under the finished key and transcript, and both signatures of the
/// role's message are valid, each under its own key. The identity is then that of its keys.
pub proof fn lemma_authenticated_peers_pass_every_check<P: HybridAuthenticationProvider>(
    provider: &P,
    context: PeerAuthenticationContext<'_>,
    auth: &IdentityAuth<'_>,
    identity: AuthenticatedIdentity,
)
    requires
        call_ensures(authenticate_peer_identity::<P>, (provider, context, auth), Ok(identity)),
    ensures
        ({
            let fingerprint = known_by(
                provider,
                auth.ed25519_public_key@,
                auth.ml_dsa_public_key@,
            );
            let message = signed_by_role(context.role, context.signature_transcript_hash@);
            &&& fingerprint == context.announced_fingerprint@
            &&& fingerprint == context.trust_anchor_fingerprint@
            &&& provider.mac_is_valid(
                context.finished_key@,
                context.finished_transcript_hash@,
                auth.finished_mac@,
            )
            &&& provider.ed25519_is_valid(
                auth.ed25519_public_key@,
                message,
                auth.ed25519_signature@,
            )
            &&& provider.ml_dsa_65_is_valid(
                auth.ml_dsa_public_key@,
                message,
                auth.ml_dsa_signature@,
            )
            &&& identity.fingerprint_bytes() == fingerprint
            &&& identity.ed25519_bytes() == auth.ed25519_public_key@
            &&& identity.ml_dsa_65_bytes() == auth.ml_dsa_public_key@
        }),
{
    lemma_signed_messages(context.role, context.signature_transcript_hash@);
}

/// A peer is rejected for the first check that fails: the announced fingerprint, the trusted one,
/// the MAC, the Ed25519 signature, and the ML-DSA-65 signature.
pub proof fn lemma_peers_are_rejected_for_the_first_failure<P: HybridAuthenticationProvider>(
    provider: &P,
    context: PeerAuthenticationContext<'_>,
    auth: &IdentityAuth<'_>,
    error: AuthenticationError<P::Error, P::VerificationError>,
)
    requires
        auth.ml_dsa_public_key@.len() == 1_952,
        auth.ml_dsa_signature@.len() == 3_309,
        call_ensures(authenticate_peer_identity::<P>, (provider, context, auth), Err(error)),
        !(error is HashProvider),
        !(error is VerificationProvider),
    ensures
        ({
            let fingerprint = known_by(
                provider,
                auth.ed25519_public_key@,
                auth.ml_dsa_public_key@,
            );
            let message = signed_by_role(context.role, context.signature_transcript_hash@);
            let announced = fingerprint == context.announced_fingerprint@;
            let trusted = fingerprint == context.trust_anchor_fingerprint@;
            let finished = provider.mac_is_valid(
                context.finished_key@,
                context.finished_transcript_hash@,
                auth.finished_mac@,
            );
            let ed25519 = provider.ed25519_is_valid(
                auth.ed25519_public_key@,
                message,
                auth.ed25519_signature@,
            );
            let ml_dsa_65 = provider.ml_dsa_65_is_valid(
                auth.ml_dsa_public_key@,
                message,
                auth.ml_dsa_signature@,
            );
            &&& error is AnnouncedFingerprintMismatch <==> !announced
            &&& error is TrustAnchorMismatch <==> announced && !trusted
            &&& error is InvalidFinishedMac <==> announced && trusted && !finished
            &&& error is InvalidEd25519Signature <==> announced && trusted && finished && !ed25519
            &&& error is InvalidMlDsa65Signature <==> announced && trusted && finished && ed25519
                && !ml_dsa_65
        }),
{
    lemma_signed_messages(context.role, context.signature_transcript_hash@);
}

/// A manifest is verified exactly if it names the identity as its signer and both of its signatures
/// of its content are the identity's. What is verified is its header.
pub proof fn lemma_verified_manifests_are_signed_by_the_identity<P: HybridAuthenticationProvider>(
    provider: &P,
    identity: &AuthenticatedIdentity,
    manifest: &Manifest<'_>,
    verified: Result<VerifiedManifest, AuthenticationError<P::Error, P::VerificationError>>,
)
    requires
        manifest.ed25519_signature@.len() == 64,
        manifest.ml_dsa_65_signature@.len() == 3_309,
        call_ensures(verify_manifest::<P>, (provider, identity, manifest), verified),
    ensures
        ({
            let message = signed_for_manifest(provider.sha384(manifest.unsigned_content@)@);
            let signer = manifest.header.signer_identity_fingerprint@
                == identity.fingerprint_bytes();
            let ed25519 = provider.ed25519_is_valid(
                identity.ed25519_bytes(),
                message,
                manifest.ed25519_signature@,
            );
            let ml_dsa_65 = provider.ml_dsa_65_is_valid(
                identity.ml_dsa_65_bytes(),
                message,
                manifest.ml_dsa_65_signature@,
            );
            &&& verified matches Ok(verified) ==> signer && ed25519 && ml_dsa_65
                && verified.verified_header() == manifest.header
            &&& verified matches Err(error) ==> !(error is HashProvider)
                && !(error is VerificationProvider) ==> {
                &&& error is ManifestSignerMismatch <==> !signer
                &&& error is InvalidEd25519Signature <==> signer && !ed25519
                &&& error is InvalidMlDsa65Signature <==> signer && ed25519 && !ml_dsa_65
            }
        }),
{
    lemma_signed_messages(
        AuthenticationRole::Initiator,
        provider.sha384(manifest.unsigned_content@)@,
    );
}

/// A verdict passes exactly if it is there and valid.
pub proof fn lemma_only_valid_verdicts_pass<H, V>(
    verdict: Result<VerificationResult, V>,
    invalid: AuthenticationError<H, V>,
    outcome: Result<(), AuthenticationError<H, V>>,
)
    requires
        call_ensures(require_valid::<H, V>, (verdict, invalid), outcome),
    ensures
        outcome is Ok <==> verdict is Ok && verdict->Ok_0 is Valid,
        verdict is Ok && verdict->Ok_0 is Invalid ==> outcome == Err::<
            (),
            AuthenticationError<H, V>,
        >(invalid),
        verdict matches Err(error) ==> outcome == Err::<(), AuthenticationError<H, V>>(
            AuthenticationError::VerificationProvider(error),
        ),
{
}

/// A key label is the output length in two bytes, the prefixed label behind its length in one byte,
/// and the context behind its length in one byte. A label is not empty and all ASCII.
pub proof fn lemma_label_layout(
    length: u16,
    label: &str,
    context: &[u8],
    written: Result<usize, LabelError>,
)
    ensures
        forall|output: &mut [u8]| #[trigger]
            call_ensures(encode_expand_label, (length, label, context, output), written) ==> {
                let after = final(output)@;
                let full = "ogtp1 ".spec_bytes() + label.spec_bytes();
                let middle = 3int + full.len();
                let end = middle + 1 + context@.len();
                &&& written is Ok <==> {
                    &&& label@.len() > 0
                    &&& label.is_ascii()
                    &&& full.len() <= 255
                    &&& context@.len() <= 255
                    &&& end <= output@.len()
                }
                &&& written is Err ==> after == output@
                &&& written matches Ok(count) ==> {
                    &&& count == end
                    &&& number_at(after, 0, 2) == length
                    &&& after[2] == full.len()
                    &&& after.subrange(3, middle) == full
                    &&& after[middle] == context@.len()
                    &&& after.subrange(middle + 1, end) == context@
                    &&& after.skip(end) == output@.skip(end)
                }
            },
{
    assert forall|output: &mut [u8]| #[trigger]
        call_ensures(encode_expand_label, (length, label, context, output), written)
            && written is Ok implies {
        let after = final(output)@;
        let full = "ogtp1 ".spec_bytes() + label.spec_bytes();
        let middle = 3int + full.len();
        let end = middle + 1 + context@.len();
        &&& number_at(after, 0, 2) == length
        &&& after[2] == full.len()
        &&& after.subrange(3, middle) == full
        &&& after[middle] == context@.len()
        &&& after.subrange(middle + 1, end) == context@
        &&& after.skip(end) == output@.skip(end)
    } by {
        lemma_label_bytes(length, label, context@, output@);
    }
}

proof fn lemma_label_bytes(length: u16, label: &str, context: Seq<u8>, buffer: Seq<u8>)
    requires
        "ogtp1 ".spec_bytes().len() + label.spec_bytes().len() <= 255,
        context.len() <= 255,
        buffer.len() >= 4 + "ogtp1 ".spec_bytes().len() + label.spec_bytes().len() + context.len(),
    ensures
        ({
            let after = overwrite_prefix(
                buffer,
                crate::kdf::expand_label_info(length, label, context),
            );
            let full = "ogtp1 ".spec_bytes() + label.spec_bytes();
            let middle = 3int + full.len();
            let end = middle + 1 + context.len();
            &&& number_at(after, 0, 2) == length
            &&& after[2] == full.len()
            &&& after.subrange(3, middle) == full
            &&& after[middle] == context.len()
            &&& after.subrange(middle + 1, end) == context
            &&& after.skip(end) == buffer.skip(end)
        }),
{
    let after = overwrite_prefix(buffer, crate::kdf::expand_label_info(length, label, context));
    let full = "ogtp1 ".spec_bytes() + label.spec_bytes();
    let middle = 3int + full.len();
    let end = middle + 1 + context.len();
    assert(after.subrange(0, 2) =~= be16(length));
    lemma_spells16(after, 0, length);
    assert(after.subrange(3, middle) =~= full);
    assert(after.subrange(middle + 1, end) =~= context);
    assert(after.skip(end) =~= buffer.skip(end));
}

} // verus!
