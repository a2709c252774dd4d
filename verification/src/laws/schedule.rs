//! Laws of the handshake key schedule.

use vstd::prelude::*;
use vstd::string::*;

use crate::authentication::AuthenticatedIdentity;
use crate::bytes::{be16, be32, lemma_be32_inverse};
use crate::crypto::Sha384Digest;
use crate::handshake::{CipherSuite, IdentityAuth};
use crate::handshake_crypto::{
    answers, derive_handshake_secrets, generate_initiator_hybrid_state, handshake_nonce, nonce_of,
    open_initiator_identity_auth, open_responder_identity_auth, respond_to_initiator,
    seal_initiator_identity_auth, seal_responder_identity_auth, settle_opened_identity,
    settle_sealed_identity, ApplicationSecrets, DirectionSchedule, HandshakeAeadOpenResult,
    HandshakeCryptoError, HandshakeCryptoProvider, HandshakeSecrets, HandshakeSecretsView,
    InitiatorHybridState, OpenedIdentityAuth, ResponderHybridResult,
};
use crate::handshake_state::InitiatorTranscriptMilestone;
use crate::laws::numbers::{lemma_spells32, number_at};
use crate::transcript::AuthenticationRole;

verus! {

/// A key of `length` bytes that is expanded from a secret under a label and a context.
pub open spec fn labelled<P: HandshakeCryptoProvider>(
    provider: &P,
    secret: Seq<u8>,
    label: Seq<u8>,
    context: Seq<u8>,
    length: u16,
) -> Seq<u8> {
    let full = "ogtp1 ".spec_bytes() + label;
    provider.hkdf_expand(
        secret,
        be16(length) + seq![full.len() as u8] + full + seq![context.len() as u8] + context,
        length as nat,
    )
}

proof fn lemma_labelled<P: HandshakeCryptoProvider>(
    provider: &P,
    secret: Seq<u8>,
    label: &str,
    context: Seq<u8>,
    length: u16,
)
    ensures
        crate::handshake_crypto::expanded(provider, secret, label, context, length) == labelled(
            provider,
            secret,
            label.spec_bytes(),
            context,
            length,
        ),
{
    let full = "ogtp1 ".spec_bytes() + label.spec_bytes();
    assert(crate::kdf::expand_label_info(length, label, context) =~= be16(length) + seq![
        full.len() as u8,
    ] + full + seq![context.len() as u8] + context);
}

/// The keys of one direction: the traffic secret comes from the handshake secret and the
/// transcript, and the finished key, the AEAD key and the IV come from the traffic secret.
pub open spec fn is_direction<P: HandshakeCryptoProvider>(
    provider: &P,
    handshake_secret: Seq<u8>,
    label: Seq<u8>,
    transcript: Seq<u8>,
    keys: DirectionSchedule,
) -> bool {
    &&& keys.traffic == labelled(provider, handshake_secret, label, transcript, 48)
    &&& keys.finished == labelled(
        provider,
        keys.traffic,
        "finished".spec_bytes(),
        Seq::empty(),
        48,
    )
    &&& keys.key == labelled(provider, keys.traffic, "key".spec_bytes(), Seq::empty(), 32)
    &&& keys.iv == labelled(provider, keys.traffic, "iv".spec_bytes(), Seq::empty(), 12)
}

/// The secrets of a handshake. The early secret is extracted from nothing, the handshake secret
/// from the hybrid secret, salted with what is derived from the early one, and the master secret
/// from nothing, salted with what is derived from the handshake one. The two directions come from
/// the handshake secret under labels of their own, and neither has sealed anything.
pub open spec fn are_secrets_of<P: HandshakeCryptoProvider>(
    provider: &P,
    suite: CipherSuite,
    hybrid: Seq<u8>,
    transcript: Seq<u8>,
    secrets: HandshakeSecretsView,
) -> bool {
    let nothing = Seq::new(48, |i: int| 0u8);
    let empty = provider.sha384(Seq::empty())@;
    let early = provider.hkdf_extract(nothing, nothing);
    let handshake = provider.hkdf_extract(
        labelled(provider, early, "derived".spec_bytes(), empty, 48),
        hybrid,
    );
    &&& secrets.schedule.suite == suite
    &&& is_direction(
        provider,
        handshake,
        "i hs".spec_bytes(),
        transcript,
        secrets.schedule.initiator,
    )
    &&& is_direction(
        provider,
        handshake,
        "r hs".spec_bytes(),
        transcript,
        secrets.schedule.responder,
    )
    &&& secrets.schedule.master == provider.hkdf_extract(
        labelled(provider, handshake, "derived".spec_bytes(), empty, 48),
        nothing,
    )
    &&& !secrets.initiator_sealed
    &&& !secrets.responder_sealed
}

proof fn lemma_schedule<P: HandshakeCryptoProvider>(
    provider: &P,
    suite: CipherSuite,
    hybrid: Seq<u8>,
    transcript: Seq<u8>,
)
    ensures
        are_secrets_of(
            provider,
            suite,
            hybrid,
            transcript,
            HandshakeSecretsView::unused(
                crate::handshake_crypto::handshake_schedule(provider, suite, hybrid, transcript),
            ),
        ),
{
    let nothing = crate::bytes::zeroes(48);
    assert(nothing =~= Seq::new(48, |i: int| 0u8));
    let empty = provider.sha384(Seq::empty())@;
    let early = provider.hkdf_extract(nothing, nothing);
    lemma_labelled(provider, early, "derived", empty, 48);
    let handshake = crate::handshake_crypto::handshake_secret_of(provider, hybrid);
    lemma_labelled(provider, handshake, "derived", empty, 48);
    lemma_direction(provider, handshake, "i hs", transcript);
    lemma_direction(provider, handshake, "r hs", transcript);
}

proof fn lemma_direction<P: HandshakeCryptoProvider>(
    provider: &P,
    handshake_secret: Seq<u8>,
    label: &str,
    transcript: Seq<u8>,
)
    ensures
        is_direction(
            provider,
            handshake_secret,
            label.spec_bytes(),
            transcript,
            crate::handshake_crypto::direction_schedule(
                provider,
                handshake_secret,
                label,
                transcript,
            ),
        ),
{
    lemma_labelled(provider, handshake_secret, label, transcript, 48);
    let traffic = crate::handshake_crypto::expanded(
        provider,
        handshake_secret,
        label,
        transcript,
        48,
    );
    lemma_labelled(provider, traffic, "finished", Seq::empty(), 48);
    lemma_labelled(provider, traffic, "key", Seq::empty(), 32);
    lemma_labelled(provider, traffic, "iv", Seq::empty(), 12);
}

/// Handshake secrets come from the hybrid secret and the transcript in the one way described above.
pub proof fn lemma_secrets_follow_the_schedule<P: HandshakeCryptoProvider>(
    provider: &P,
    suite: CipherSuite,
    hybrid: &[u8; 64],
    transcript: &Sha384Digest,
    secrets: HandshakeSecrets,
)
    requires
        call_ensures(
            derive_handshake_secrets::<P>,
            (provider, suite, hybrid, transcript),
            Ok(secrets),
        ),
    ensures
        are_secrets_of(provider, suite, hybrid@, transcript@, secrets@),
{
    lemma_schedule(provider, suite, hybrid@, transcript@);
}

/// The initiator's hybrid secret is what its ML-KEM key decapsulates followed by what its X25519
/// key agrees on. An agreement of zeros is refused.
pub proof fn lemma_initiator_combines_both_secrets<P: HandshakeCryptoProvider>(
    provider: &P,
    state: InitiatorHybridState<P>,
    suite: CipherSuite,
    peer: &[u8; 32],
    ciphertext: &[u8; 1088],
    transcript: &Sha384Digest,
    secrets: Result<HandshakeSecrets, HandshakeCryptoError<P::Error>>,
)
    requires
        call_ensures(
            InitiatorHybridState::<P>::complete,
            (state, provider, suite, peer, ciphertext, transcript),
            secrets,
        ),
    ensures
        ({
            let agreed = provider.x25519_agreement(state.x25519_private_key(), peer@);
            let zero = forall|i: int| 0 <= i < agreed.len() ==> agreed[i] == 0;
            &&& secrets matches Ok(secrets) ==> !zero && are_secrets_of(
                provider,
                suite,
                provider.ml_kem_decapsulated(state.ml_kem_decapsulation_key(), ciphertext@)
                    + agreed,
                transcript@,
                secrets@,
            )
            &&& secrets matches Err(error) ==> error is AllZeroX25519SharedSecret ==> zero
        }),
{
    let agreed = provider.x25519_agreement(state.x25519_private_key(), peer@);
    lemma_schedule(
        provider,
        suite,
        provider.ml_kem_decapsulated(state.ml_kem_decapsulation_key(), ciphertext@) + agreed,
        transcript@,
    );
}

/// The initiator offers the public halves of the keys that it keeps.
pub proof fn lemma_initiator_offers_its_own_keys<P: HandshakeCryptoProvider>(
    provider: &P,
    state: InitiatorHybridState<P>,
)
    requires
        call_ensures(generate_initiator_hybrid_state::<P>, (provider,), Ok(state)),
    ensures
        state.x25519_public_bytes() == provider.x25519_public(state.x25519_private_key()),
        state.ml_kem_encapsulation_bytes() == provider.ml_kem_public(
            state.ml_kem_decapsulation_key(),
        ),
{
}

/// The responder's secrets come from a secret that it encapsulated for the initiator, followed by
/// what a fresh X25519 key agrees on, and the response carries that ciphertext and the public half
/// of that key.
pub proof fn lemma_responder_combines_both_secrets<P: HandshakeCryptoProvider>(
    provider: &P,
    suite: CipherSuite,
    peer: &[u8; 32],
    encapsulation_key: &[u8; 1184],
    transcript: &Sha384Digest,
    result: ResponderHybridResult,
) -> (witness: (P::X25519PrivateKey, Seq<u8>))
    requires
        call_ensures(
            respond_to_initiator::<P>,
            (provider, suite, peer, encapsulation_key, transcript),
            Ok(result),
        ),
    ensures
        ({
            let (private_key, encapsulated) = witness;
            let agreed = provider.x25519_agreement(private_key, peer@);
            &&& result.x25519_public_bytes() == provider.x25519_public(private_key)
            &&& provider.ml_kem_encapsulates(
                encapsulation_key@,
                result.ml_kem_ciphertext_bytes(),
                encapsulated,
            )
            &&& exists|i: int| 0 <= i < agreed.len() && agreed[i] != 0
            &&& are_secrets_of(
                provider,
                suite,
                encapsulated + agreed,
                transcript@,
                result.installed()@,
            )
        }),
{
    let (private_key, encapsulated) = choose|
        private_key: P::X25519PrivateKey,
        encapsulated: Seq<u8>,
    |
        #[trigger] answers(
            provider,
            suite,
            peer@,
            encapsulation_key@,
            transcript@,
            result,
            private_key,
            encapsulated,
        );
    lemma_schedule(
        provider,
        suite,
        encapsulated + provider.x25519_agreement(private_key, peer@),
        transcript@,
    );
    (private_key, encapsulated)
}

/// The keys of a sender.
pub open spec fn keys_of(
    secrets: HandshakeSecretsView,
    sender: AuthenticationRole,
) -> DirectionSchedule {
    match sender {
        AuthenticationRole::Initiator => secrets.schedule.initiator,
        AuthenticationRole::Responder => secrets.schedule.responder,
    }
}

/// A finished MAC is of the transcript, under the sender's own finished key.
pub proof fn lemma_finished_mac_is_the_senders<P: HandshakeCryptoProvider>(
    secrets: &HandshakeSecrets,
    provider: &P,
    sender: AuthenticationRole,
    transcript: &Sha384Digest,
    mac: Sha384Digest,
)
    requires
        call_ensures(
            HandshakeSecrets::compute_finished::<P>,
            (secrets, provider, sender, transcript),
            Ok(mac),
        ),
    ensures
        mac@ == provider.hmac(keys_of(secrets@, sender).finished, transcript@),
{
}

/// Application secrets come from the master secret and the full transcript, one for each direction.
pub proof fn lemma_application_secrets_follow_the_schedule<P: HandshakeCryptoProvider>(
    secrets: HandshakeSecrets,
    provider: &P,
    transcript: &InitiatorTranscriptMilestone,
    peer: &AuthenticatedIdentity,
    application: ApplicationSecrets,
)
    requires
        call_ensures(
            HandshakeSecrets::derive_application_secrets::<P>,
            (secrets, provider, transcript, peer),
            Ok(application),
        ),
    ensures
        application.initiator_bytes() == labelled(
            provider,
            secrets@.schedule.master,
            "i ap".spec_bytes(),
            transcript.full_hash(),
            48,
        ),
        application.responder_bytes() == labelled(
            provider,
            secrets@.schedule.master,
            "r ap".spec_bytes(),
            transcript.full_hash(),
            48,
        ),
{
    let master = secrets@.schedule.master;
    lemma_labelled(provider, master, "i ap", transcript.full_hash(), 48);
    lemma_labelled(provider, master, "r ap", transcript.full_hash(), 48);
}

/// Whether a nonce belongs to an IV and a message: its first eight bytes are the IV's, and its last
/// four differ from the IV's by the digits of the message's number.
pub open spec fn message_nonce(nonce: Seq<u8>, iv: Seq<u8>, message_id: u32) -> bool {
    &&& nonce.len() == 12
    &&& nonce.take(8) == iv.take(8)
    &&& number_at(Seq::new(4, |i: int| nonce[8 + i] ^ iv[8 + i]), 0, 4) == message_id
}

/// The nonce of a message is the IV with the message's number in its last four bytes.
pub proof fn lemma_message_nonce(iv: &[u8; 12], message_id: u32, nonce: [u8; 12])
    requires
        call_ensures(handshake_nonce, (iv, message_id), nonce),
    ensures
        message_nonce(nonce@, iv@, message_id),
{
    lemma_nonce_of(iv@, message_id);
}

proof fn lemma_nonce_of(iv: Seq<u8>, message_id: u32)
    requires
        iv.len() == 12,
    ensures
        message_nonce(nonce_of(iv, message_id), iv, message_id),
{
    let nonce = nonce_of(iv, message_id);
    let digits = Seq::new(4, |i: int| nonce[8 + i] ^ iv[8 + i]);
    lemma_be32_inverse(message_id);
    assert forall|i: int| 0 <= i < 4 implies digits[i] == be32(message_id)[i] by {
        let secret = iv[8 + i];
        let digit = be32(message_id)[i];
        assert((secret ^ digit) ^ secret == digit) by (bit_vector);
    }
    assert(digits =~= be32(message_id));
    assert(digits.subrange(0, 4) =~= be32(message_id));
    lemma_spells32(digits, 0, message_id);
    assert(nonce.take(8) =~= iv.take(8));
}

/// What sealing an identity authentication does: each sender seals one, with its own key, under a
/// nonce of the message's number and the given additional data. A second one is refused. What
/// cannot be sealed is not left in the output.
pub open spec fn seals_once<P: HandshakeCryptoProvider>(
    provider: &P,
    sender: AuthenticationRole,
    message_id: u32,
    additional_data: Seq<u8>,
    plaintext: IdentityAuth<'_>,
    before: HandshakeSecretsView,
    after: HandshakeSecretsView,
    buffer: Seq<u8>,
    output: Seq<u8>,
    sealed: Result<usize, HandshakeCryptoError<P::Error>>,
) -> bool {
    let (spent, spent_after, other, other_after) = match sender {
        AuthenticationRole::Initiator => (
            before.initiator_sealed,
            after.initiator_sealed,
            before.responder_sealed,
            after.responder_sealed,
        ),
        AuthenticationRole::Responder => (
            before.responder_sealed,
            after.responder_sealed,
            before.initiator_sealed,
            after.initiator_sealed,
        ),
    };
    let keys = keys_of(before, sender);
    &&& after.schedule == before.schedule
    &&& other_after == other
    &&& spent ==> sealed is Err && spent_after
    &&& sealed is Ok ==> {
        &&& !spent && spent_after
        &&& sealed->Ok_0 == 5_421 <= buffer.len()
        &&& output.skip(5_421) == buffer.skip(5_421)
        &&& exists|nonce: Seq<u8>| #[trigger]
            message_nonce(nonce, keys.iv, message_id) && output.take(5_421)
                == provider.sealed_handshake(
                before.schedule.suite,
                keys.key,
                nonce,
                additional_data,
                plaintext.encoding(),
            )
    }
    &&& sealed is Err && buffer.len() >= 5_421 ==> forall|i: int|
        0 <= i < 5_421 ==> #[trigger] output[i] == 0
    &&& sealed is Err && buffer.len() < 5_421 ==> output == buffer && spent_after == spent
}

proof fn lemma_seals_once<P: HandshakeCryptoProvider>(
    provider: &P,
    sender: AuthenticationRole,
    message_id: u32,
    additional_data: Seq<u8>,
    plaintext: IdentityAuth<'_>,
    before: HandshakeSecretsView,
    after: HandshakeSecretsView,
    buffer: Seq<u8>,
    output: Seq<u8>,
    sealed: Result<usize, HandshakeCryptoError<P::Error>>,
)
    requires
        keys_of(before, sender).iv.len() == 12,
        crate::handshake_crypto::seals(
            provider,
            sender,
            message_id,
            additional_data,
            plaintext,
            before,
            after,
            buffer,
            output,
            sealed,
        ),
    ensures
        seals_once(
            provider,
            sender,
            message_id,
            additional_data,
            plaintext,
            before,
            after,
            buffer,
            output,
            sealed,
        ),
{
    let keys = keys_of(before, sender);
    lemma_nonce_of(keys.iv, message_id);
    let nonce = nonce_of(keys.iv, message_id);
    if sealed is Ok {
        let ciphertext = provider.sealed_handshake(
            before.schedule.suite,
            keys.key,
            nonce,
            additional_data,
            plaintext.encoding(),
        );
        assert(output.take(5_421) =~= ciphertext);
        assert(output.skip(5_421) =~= buffer.skip(5_421));
        assert(message_nonce(nonce, keys.iv, message_id));
    }
}

/// Both sealing functions seal once, each for its own sender.
pub proof fn lemma_identities_are_sealed_once<P: HandshakeCryptoProvider>(
    provider: &P,
    message_id: u32,
    transcript: &Sha384Digest,
    plaintext: IdentityAuth<'_>,
    sealed: Result<usize, HandshakeCryptoError<P::Error>>,
)
    ensures
        forall|secrets: &mut HandshakeSecrets, output: &mut [u8]|
            #![trigger
                call_ensures(
                    seal_responder_identity_auth::<P>,
                    (provider, secrets, message_id, transcript, plaintext, output),
                    sealed,
                )
            ]
            secrets@.schedule.responder.iv.len() == 12 && call_ensures(
                seal_responder_identity_auth::<P>,
                (provider, secrets, message_id, transcript, plaintext, output),
                sealed,
            ) ==> seals_once(
                provider,
                AuthenticationRole::Responder,
                message_id,
                transcript@,
                plaintext,
                secrets@,
                final(secrets)@,
                output@,
                final(output)@,
                sealed,
            ),
        forall|secrets: &mut HandshakeSecrets, output: &mut [u8]|
            #![trigger
                call_ensures(
                    seal_initiator_identity_auth::<P>,
                    (provider, secrets, message_id, transcript, plaintext, output),
                    sealed,
                )
            ]
            secrets@.schedule.initiator.iv.len() == 12 && call_ensures(
                seal_initiator_identity_auth::<P>,
                (provider, secrets, message_id, transcript, plaintext, output),
                sealed,
            ) ==> seals_once(
                provider,
                AuthenticationRole::Initiator,
                message_id,
                transcript@,
                plaintext,
                secrets@,
                final(secrets)@,
                output@,
                final(output)@,
                sealed,
            ),
{
    assert forall|secrets: &mut HandshakeSecrets, output: &mut [u8]|
        #![trigger
            call_ensures(
                seal_responder_identity_auth::<P>,
                (provider, secrets, message_id, transcript, plaintext, output),
                sealed,
            )
        ]
        secrets@.schedule.responder.iv.len() == 12 && call_ensures(
            seal_responder_identity_auth::<P>,
            (provider, secrets, message_id, transcript, plaintext, output),
            sealed,
        ) implies seals_once(
        provider,
        AuthenticationRole::Responder,
        message_id,
        transcript@,
        plaintext,
        secrets@,
        final(secrets)@,
        output@,
        final(output)@,
        sealed,
    ) by {
        lemma_seals_once(
            provider,
            AuthenticationRole::Responder,
            message_id,
            transcript@,
            plaintext,
            secrets@,
            final(secrets)@,
            output@,
            final(output)@,
            sealed,
        );
    }
    assert forall|secrets: &mut HandshakeSecrets, output: &mut [u8]|
        #![trigger
            call_ensures(
                seal_initiator_identity_auth::<P>,
                (provider, secrets, message_id, transcript, plaintext, output),
                sealed,
            )
        ]
        secrets@.schedule.initiator.iv.len() == 12 && call_ensures(
            seal_initiator_identity_auth::<P>,
            (provider, secrets, message_id, transcript, plaintext, output),
            sealed,
        ) implies seals_once(
        provider,
        AuthenticationRole::Initiator,
        message_id,
        transcript@,
        plaintext,
        secrets@,
        final(secrets)@,
        output@,
        final(output)@,
        sealed,
    ) by {
        lemma_seals_once(
            provider,
            AuthenticationRole::Initiator,
            message_id,
            transcript@,
            plaintext,
            secrets@,
            final(secrets)@,
            output@,
            final(output)@,
            sealed,
        );
    }
}

/// Whether an opened identity authentication is what the provider authenticated under the sender's
/// key, a nonce of the message's number, and the given additional data.
pub open spec fn opened_from<P: HandshakeCryptoProvider>(
    provider: &P,
    secrets: HandshakeSecretsView,
    sender: AuthenticationRole,
    message_id: u32,
    additional_data: Seq<u8>,
    ciphertext: Seq<u8>,
    plaintext: Option<Seq<u8>>,
) -> bool {
    let keys = keys_of(secrets, sender);
    &&& ciphertext.len() == 5_421
    &&& exists|nonce: Seq<u8>| #[trigger]
        message_nonce(nonce, keys.iv, message_id) && provider.opened_handshake(
            secrets.schedule.suite,
            keys.key,
            nonce,
            additional_data,
            ciphertext,
        ) == plaintext
}

/// An identity authentication is opened under the key of its sender, whichever side opens it, and
/// what does not authenticate is refused.
pub proof fn lemma_identities_are_opened_under_the_senders_key<P: HandshakeCryptoProvider>(
    provider: &P,
    secrets: &HandshakeSecrets,
    message_id: u32,
    transcript: &Sha384Digest,
    ciphertext: &[u8],
    from_responder: Result<OpenedIdentityAuth, HandshakeCryptoError<P::Error>>,
    from_initiator: Result<OpenedIdentityAuth, HandshakeCryptoError<P::Error>>,
)
    requires
        secrets@.schedule.initiator.iv.len() == 12,
        secrets@.schedule.responder.iv.len() == 12,
        call_ensures(
            open_responder_identity_auth::<P>,
            (provider, secrets, message_id, transcript, ciphertext),
            from_responder,
        ),
        call_ensures(
            open_initiator_identity_auth::<P>,
            (provider, secrets, message_id, transcript, ciphertext),
            from_initiator,
        ),
    ensures
        from_responder matches Ok(opened) ==> opened_from(
            provider,
            secrets@,
            AuthenticationRole::Responder,
            message_id,
            transcript@,
            ciphertext@,
            Some(opened.plaintext()),
        ),
        from_initiator matches Ok(opened) ==> opened_from(
            provider,
            secrets@,
            AuthenticationRole::Initiator,
            message_id,
            transcript@,
            ciphertext@,
            Some(opened.plaintext()),
        ),
        from_responder matches Err(error) ==> error is AuthenticationFailed ==> opened_from(
            provider,
            secrets@,
            AuthenticationRole::Responder,
            message_id,
            transcript@,
            ciphertext@,
            None,
        ),
        from_initiator matches Err(error) ==> error is AuthenticationFailed ==> opened_from(
            provider,
            secrets@,
            AuthenticationRole::Initiator,
            message_id,
            transcript@,
            ciphertext@,
            None,
        ),
        ciphertext@.len() != 5_421 ==> from_responder is Err && from_initiator is Err,
{
    lemma_opened_from(
        provider,
        secrets@,
        AuthenticationRole::Responder,
        message_id,
        transcript@,
        ciphertext@,
        from_responder,
    );
    lemma_opened_from(
        provider,
        secrets@,
        AuthenticationRole::Initiator,
        message_id,
        transcript@,
        ciphertext@,
        from_initiator,
    );
}

proof fn lemma_opened_from<P: HandshakeCryptoProvider>(
    provider: &P,
    secrets: HandshakeSecretsView,
    sender: AuthenticationRole,
    message_id: u32,
    additional_data: Seq<u8>,
    ciphertext: Seq<u8>,
    opened: Result<OpenedIdentityAuth, HandshakeCryptoError<P::Error>>,
)
    requires
        keys_of(secrets, sender).iv.len() == 12,
        crate::handshake_crypto::opens(
            provider,
            secrets,
            sender,
            message_id,
            additional_data,
            ciphertext,
            opened,
        ),
    ensures
        opened matches Ok(opened) ==> opened_from(
            provider,
            secrets,
            sender,
            message_id,
            additional_data,
            ciphertext,
            Some(opened.plaintext()),
        ),
        opened matches Err(error) ==> error is AuthenticationFailed ==> opened_from(
            provider,
            secrets,
            sender,
            message_id,
            additional_data,
            ciphertext,
            None,
        ),
        ciphertext.len() != 5_421 ==> opened is Err,
{
    let keys = keys_of(secrets, sender);
    let nonce = nonce_of(keys.iv, message_id);
    lemma_nonce_of(keys.iv, message_id);
    assert(message_nonce(nonce, keys.iv, message_id));
    let found = provider.opened_handshake(
        secrets.schedule.suite,
        keys.key,
        nonce,
        additional_data,
        ciphertext,
    );
    assert(found == crate::handshake_crypto::opened_identity(
        provider,
        secrets,
        sender,
        message_id,
        additional_data,
        ciphertext,
    ));
}

/// Only an answer of the right length counts as sealed or opened, and a failed authentication is
/// reported as such.
pub proof fn lemma_provider_answers_are_checked<E>(
    answer: Result<HandshakeAeadOpenResult, E>,
    outcome: Result<(), HandshakeCryptoError<E>>,
    sealed: Result<usize, E>,
    settled: Result<usize, HandshakeCryptoError<E>>,
)
    requires
        call_ensures(settle_opened_identity::<E>, (answer,), outcome),
    ensures
        outcome is Ok <==> answer == Ok::<HandshakeAeadOpenResult, E>(
            HandshakeAeadOpenResult::Opened(5_405),
        ),
        answer is Ok && answer->Ok_0 is Invalid ==> outcome is Err
            && outcome->Err_0 is AuthenticationFailed,
        forall|output: &mut [u8]|
            output@.len() >= 5_421 && #[trigger] call_ensures(
                settle_sealed_identity::<E>,
                (sealed, output),
                settled,
            ) ==> {
                &&& settled is Ok <==> sealed == Ok::<usize, E>(5_421)
                &&& settled is Ok ==> settled->Ok_0 == 5_421 && final(output)@ == output@
                &&& settled is Err ==> forall|i: int|
                    0 <= i < 5_421 ==> #[trigger] final(output)@[i] == 0
            },
{
}

} // verus!
