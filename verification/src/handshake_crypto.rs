//! Provider-neutral hybrid key exchange and handshake AEAD orchestration.

use vstd::prelude::*;
use vstd::string::*;

use crate::authentication::AuthenticatedIdentity;
use crate::bytes::{
    all_zero, be32, be32_bytes, clear_prefix, clear_tail, erase, get_array, group_buffer_writes,
    is_all_zero,
    lemma_be32_inverse, overwrite_prefix, part, put, zeroes,
};
use crate::crypto::{hashing_fails_with, Sha384Digest, Sha384Provider};
use crate::handshake::{
    CipherSuite, HandshakeError, IdentityAuth, ENCRYPTED_IDENTITY_AUTH_LEN,
    HYBRID_SHARED_SECRET_LEN, IDENTITY_AUTH_LEN, ML_KEM_768_CIPHERTEXT_LEN,
    ML_KEM_768_ENCAPSULATION_KEY_LEN, ML_KEM_SHARED_SECRET_LEN, X25519_PUBLIC_KEY_LEN,
    X25519_SHARED_SECRET_LEN,
};
use crate::handshake_state::InitiatorTranscriptMilestone;
use crate::kdf::{
    encode_expand_label, expand_label_info, label_failure, LabelError, AEAD_IV_LEN, AEAD_KEY_LEN,
    HASH_LEN, LABEL_DERIVED, LABEL_FINISHED, LABEL_INITIATOR_APPLICATION,
    LABEL_INITIATOR_HANDSHAKE, LABEL_IV, LABEL_KEY, LABEL_PREFIX, LABEL_RESPONDER_APPLICATION,
    LABEL_RESPONDER_HANDSHAKE,
};
use crate::text::{decimal, fixed, with_two_numbers};
use crate::transcript::AuthenticationRole;
use crate::wire::{WireError, AEAD_TAG_LEN};

verus! {

const MAX_EXPAND_LABEL_LEN: usize = 80;

/// Result of opening one handshake AEAD value.
#[derive(Clone, Copy, Debug, PartialEq, Eq, Structural)]
pub enum HandshakeAeadOpenResult {
    Opened(usize),
    Invalid,
}

/// Provider boundary for hybrid KEM, HKDF-SHA-384, HMAC, and handshake AEAD.
///
/// Implementations must use X25519, ML-KEM-768, HKDF-SHA-384, and the selected AES-256-GCM or
/// ChaCha20-Poly1305 suite. Random key generation, private-key storage, canonical ML-KEM
/// validation, constant-time operations, and physical key erasure belong to the provider.
pub trait HandshakeCryptoProvider: Sha384Provider {
    type X25519PrivateKey;

    type MlKem768DecapsulationKey;

    /// The public key of an X25519 private key.
    ///
    /// An implementation that is verified with this library defines it, as it does the other
    /// functions of this kind below.
    closed spec fn x25519_public(&self, private_key: Self::X25519PrivateKey) -> Seq<u8> {
        vstd::pervasive::arbitrary()
    }

    /// The X25519 shared secret of a private key and a peer's public key.
    closed spec fn x25519_agreement(
        &self,
        private_key: Self::X25519PrivateKey,
        peer_public_key: Seq<u8>,
    ) -> Seq<u8> {
        vstd::pervasive::arbitrary()
    }

    /// The encapsulation key of an ML-KEM-768 decapsulation key.
    closed spec fn ml_kem_public(&self, decapsulation_key: Self::MlKem768DecapsulationKey) -> Seq<
        u8,
    > {
        vstd::pervasive::arbitrary()
    }

    /// Whether encapsulating to a key can give a ciphertext and a shared secret.
    closed spec fn ml_kem_encapsulates(
        &self,
        encapsulation_key: Seq<u8>,
        ciphertext: Seq<u8>,
        shared_secret: Seq<u8>,
    ) -> bool {
        vstd::pervasive::arbitrary()
    }

    /// The shared secret of a ciphertext.
    closed spec fn ml_kem_decapsulated(
        &self,
        decapsulation_key: Self::MlKem768DecapsulationKey,
        ciphertext: Seq<u8>,
    ) -> Seq<u8> {
        vstd::pervasive::arbitrary()
    }

    /// HKDF-Extract-SHA-384.
    closed spec fn hkdf_extract(&self, salt: Seq<u8>, input_key_material: Seq<u8>) -> Seq<u8> {
        vstd::pervasive::arbitrary()
    }

    /// HKDF-Expand-SHA-384.
    closed spec fn hkdf_expand(
        &self,
        pseudorandom_key: Seq<u8>,
        info: Seq<u8>,
        length: nat,
    ) -> Seq<u8> {
        vstd::pervasive::arbitrary()
    }

    /// HMAC-SHA-384.
    closed spec fn hmac(&self, key: Seq<u8>, message: Seq<u8>) -> Seq<u8> {
        vstd::pervasive::arbitrary()
    }

    /// Ciphertext and tag of a handshake plaintext.
    closed spec fn sealed_handshake(
        &self,
        suite: CipherSuite,
        key: Seq<u8>,
        nonce: Seq<u8>,
        additional_data: Seq<u8>,
        plaintext: Seq<u8>,
    ) -> Seq<u8> {
        vstd::pervasive::arbitrary()
    }

    /// Plaintext of an authentic handshake ciphertext and tag.
    closed spec fn opened_handshake(
        &self,
        suite: CipherSuite,
        key: Seq<u8>,
        nonce: Seq<u8>,
        additional_data: Seq<u8>,
        ciphertext: Seq<u8>,
    ) -> Option<Seq<u8>> {
        vstd::pervasive::arbitrary()
    }

    /// Generates one ephemeral X25519 key pair.
    ///
    /// # Errors
    ///
    /// Returns a provider-specific RNG, key-generation, or backend failure.
    fn generate_x25519_key_pair(
        &self,
        public_key: &mut [u8; X25519_PUBLIC_KEY_LEN],
    ) -> (private_key: Result<Self::X25519PrivateKey, Self::Error>)
        ensures
            private_key matches Ok(private_key) ==> final(public_key)@ == self.x25519_public(
                private_key,
            ),
    ;

    /// Computes one X25519 shared secret into caller-owned fixed storage.
    ///
    /// # Errors
    ///
    /// Returns a provider-specific key/backend failure. The orchestration also rejects an all-zero
    /// output independently.
    fn x25519_shared_secret(
        &self,
        private_key: &Self::X25519PrivateKey,
        peer_public_key: &[u8; X25519_PUBLIC_KEY_LEN],
        output: &mut [u8; X25519_SHARED_SECRET_LEN],
    ) -> (outcome: Result<(), Self::Error>)
        ensures
            outcome is Ok ==> final(output)@ == self.x25519_agreement(
                *private_key,
                peer_public_key@,
            ),
    ;

    /// Generates an ML-KEM-768 encapsulation/decapsulation key pair.
    ///
    /// # Errors
    ///
    /// Returns a provider-specific RNG, key-generation, or backend failure.
    fn generate_ml_kem_768_key_pair(
        &self,
        encapsulation_key: &mut [u8; ML_KEM_768_ENCAPSULATION_KEY_LEN],
    ) -> (decapsulation_key: Result<Self::MlKem768DecapsulationKey, Self::Error>)
        ensures
            decapsulation_key matches Ok(decapsulation_key) ==> final(encapsulation_key)@
                == self.ml_kem_public(decapsulation_key),
    ;

    /// Encapsulates to an exact ML-KEM-768 public key.
    ///
    /// # Errors
    ///
    /// Returns a provider-specific canonical-key, RNG, or backend failure.
    fn encapsulate_ml_kem_768(
        &self,
        encapsulation_key: &[u8; ML_KEM_768_ENCAPSULATION_KEY_LEN],
        ciphertext: &mut [u8; ML_KEM_768_CIPHERTEXT_LEN],
        shared_secret: &mut [u8; ML_KEM_SHARED_SECRET_LEN],
    ) -> (outcome: Result<(), Self::Error>)
        ensures
            outcome is Ok ==> self.ml_kem_encapsulates(
                encapsulation_key@,
                final(ciphertext)@,
                final(shared_secret)@,
            ),
    ;

    /// Decapsulates one exact ML-KEM-768 ciphertext.
    ///
    /// # Errors
    ///
    /// Returns a provider-specific key or backend failure. Implementations must preserve ML-KEM
    /// implicit-rejection semantics.
    fn decapsulate_ml_kem_768(
        &self,
        decapsulation_key: &Self::MlKem768DecapsulationKey,
        ciphertext: &[u8; ML_KEM_768_CIPHERTEXT_LEN],
        shared_secret: &mut [u8; ML_KEM_SHARED_SECRET_LEN],
    ) -> (outcome: Result<(), Self::Error>)
        ensures
            outcome is Ok ==> final(shared_secret)@ == self.ml_kem_decapsulated(
                *decapsulation_key,
                ciphertext@,
            ),
    ;

    /// Computes HKDF-Extract-SHA-384 into exactly 48 bytes.
    ///
    /// # Errors
    ///
    /// Returns a provider-specific key/backend failure.
    fn hkdf_extract_sha384(
        &self,
        salt: &[u8; HASH_LEN],
        input_key_material: &[u8],
        output: &mut [u8; HASH_LEN],
    ) -> (outcome: Result<(), Self::Error>)
        ensures
            outcome is Ok ==> final(output)@ == self.hkdf_extract(salt@, input_key_material@),
    ;

    /// Computes HKDF-Expand-SHA-384 for the exact caller-owned output length.
    ///
    /// # Errors
    ///
    /// Returns a provider-specific key/backend failure.
    fn hkdf_expand_sha384(
        &self,
        pseudorandom_key: &[u8; HASH_LEN],
        info: &[u8],
        output: &mut [u8],
    ) -> (outcome: Result<(), Self::Error>)
        ensures
            final(output)@.len() == old(output)@.len(),
            outcome is Ok ==> final(output)@ == self.hkdf_expand(
                pseudorandom_key@,
                info@,
                old(output)@.len(),
            ),
    ;

    /// Computes HMAC-SHA-384 for a Finished value.
    ///
    /// # Errors
    ///
    /// Returns a provider-specific key/backend failure.
    fn hmac_sha384(&self, key: &[u8; HASH_LEN], message: &[u8], output: &mut [u8; HASH_LEN]) -> (
        outcome: Result<(), Self::Error>)
        ensures
            outcome is Ok ==> final(output)@ == self.hmac(key@, message@),
    ;

    /// Seals a handshake plaintext in place and appends a 16-byte tag.
    ///
    /// # Errors
    ///
    /// Returns a provider-specific key or backend failure.
    fn seal_handshake_aead(
        &self,
        suite: CipherSuite,
        key: &[u8; AEAD_KEY_LEN],
        nonce: &[u8; AEAD_IV_LEN],
        additional_data: &[u8],
        plaintext_and_tag: &mut [u8],
        plaintext_length: usize,
    ) -> (sealed: Result<usize, Self::Error>)
        requires
            plaintext_length + AEAD_TAG_LEN == old(plaintext_and_tag)@.len(),
        ensures
            final(plaintext_and_tag)@.len() == old(plaintext_and_tag)@.len(),
            sealed matches Ok(length) ==> (length == plaintext_length + AEAD_TAG_LEN ==> final(plaintext_and_tag)@
                == self.sealed_handshake(
                suite,
                key@,
                nonce@,
                additional_data@,
                old(plaintext_and_tag)@.take(plaintext_length as int),
            )),
    ;

    /// Authenticates and opens a handshake ciphertext in place.
    ///
    /// # Errors
    ///
    /// Returns a provider-specific error only for a key/backend failure. An invalid tag uses
    /// [`HandshakeAeadOpenResult::Invalid`].
    fn open_handshake_aead(
        &self,
        suite: CipherSuite,
        key: &[u8; AEAD_KEY_LEN],
        nonce: &[u8; AEAD_IV_LEN],
        additional_data: &[u8],
        ciphertext_and_tag: &mut [u8],
    ) -> (opened: Result<HandshakeAeadOpenResult, Self::Error>)
        requires
            old(ciphertext_and_tag)@.len() >= AEAD_TAG_LEN,
        ensures
            final(ciphertext_and_tag)@.len() == old(ciphertext_and_tag)@.len(),
            opened matches Ok(HandshakeAeadOpenResult::Invalid) ==> self.opened_handshake(
                suite,
                key@,
                nonce@,
                additional_data@,
                old(ciphertext_and_tag)@,
            ) is None,
            opened matches Ok(HandshakeAeadOpenResult::Opened(length)) ==> (length + AEAD_TAG_LEN
                == old(ciphertext_and_tag)@.len() ==> self.opened_handshake(
                suite,
                key@,
                nonce@,
                additional_data@,
                old(ciphertext_and_tag)@,
            ) == Some(final(ciphertext_and_tag)@.take(length as int))),
    ;
}

struct SecretBytes<const N: usize>([u8; N]);

impl<const N: usize> SecretBytes<N> {
    pub closed spec fn is_erased(&self) -> bool {
        self.0@ == zeroes(N as nat)
    }

    fn zeroed() -> (secret: SecretBytes<N>)
        ensures
            secret.0@ == zeroes(N as nat),
    {
        let secret = SecretBytes([0u8; N]);
        assert(secret.0@ =~= zeroes(N as nat));
        secret
    }

    fn as_array(&self) -> (bytes: &[u8; N])
        ensures
            *bytes == self.0,
    {
        &self.0
    }

    fn as_mut_array(&mut self) -> (bytes: &mut [u8; N])
        ensures
            *bytes == old(self).0,
            final(self).0 == *final(bytes),
    {
        &mut self.0
    }

    fn copy_out(&self) -> (bytes: [u8; N])
        ensures
            bytes == self.0,
    {
        self.0
    }
}

impl<const N: usize> Drop for SecretBytes<N> {
    fn drop(&mut self)
        ensures
            final(self).is_erased(),
        opens_invariants none
        no_unwind
    {
        erase(&mut self.0);
    }
}

/// Secrets of one sender direction.
pub struct DirectionSchedule {
    pub traffic: Seq<u8>,
    pub finished: Seq<u8>,
    pub key: Seq<u8>,
    pub iv: Seq<u8>,
}

/// Secrets of a handshake.
pub struct HandshakeSchedule {
    pub suite: CipherSuite,
    pub initiator: DirectionSchedule,
    pub responder: DirectionSchedule,
    pub master: Seq<u8>,
}

/// The expansion of a secret under a label.
pub open spec fn expanded<P: HandshakeCryptoProvider>(
    provider: &P,
    secret: Seq<u8>,
    label: &str,
    context: Seq<u8>,
    length: u16,
) -> Seq<u8> {
    provider.hkdf_expand(secret, expand_label_info(length, label, context), length as nat)
}

/// The secrets of the direction that a label names.
pub open spec fn direction_schedule<P: HandshakeCryptoProvider>(
    provider: &P,
    handshake_secret: Seq<u8>,
    label: &str,
    pre_auth_hash: Seq<u8>,
) -> DirectionSchedule {
    let traffic = expanded(provider, handshake_secret, label, pre_auth_hash, HASH_LEN as u16);
    DirectionSchedule {
        traffic,
        finished: expanded(provider, traffic, LABEL_FINISHED, Seq::empty(), HASH_LEN as u16),
        key: expanded(provider, traffic, LABEL_KEY, Seq::empty(), AEAD_KEY_LEN as u16),
        iv: expanded(provider, traffic, LABEL_IV, Seq::empty(), AEAD_IV_LEN as u16),
    }
}

/// The handshake secret of a hybrid shared secret.
pub open spec fn handshake_secret_of<P: HandshakeCryptoProvider>(
    provider: &P,
    hybrid_shared_secret: Seq<u8>,
) -> Seq<u8> {
    let zero = zeroes(HASH_LEN as nat);
    let early = provider.hkdf_extract(zero, zero);
    provider.hkdf_extract(
        expanded(provider, early, LABEL_DERIVED, provider.sha384(Seq::empty())@, HASH_LEN as u16),
        hybrid_shared_secret,
    )
}

/// The key schedule of a handshake.
pub open spec fn handshake_schedule<P: HandshakeCryptoProvider>(
    provider: &P,
    suite: CipherSuite,
    hybrid_shared_secret: Seq<u8>,
    pre_auth_hash: Seq<u8>,
) -> HandshakeSchedule {
    let handshake_secret = handshake_secret_of(provider, hybrid_shared_secret);
    HandshakeSchedule {
        suite,
        initiator: direction_schedule(
            provider,
            handshake_secret,
            LABEL_INITIATOR_HANDSHAKE,
            pre_auth_hash,
        ),
        responder: direction_schedule(
            provider,
            handshake_secret,
            LABEL_RESPONDER_HANDSHAKE,
            pre_auth_hash,
        ),
        master: provider.hkdf_extract(
            expanded(
                provider,
                handshake_secret,
                LABEL_DERIVED,
                provider.sha384(Seq::empty())@,
                HASH_LEN as u16,
            ),
            zeroes(HASH_LEN as nat),
        ),
    }
}

/// Whether a provider fails with `error` to extract a key.
pub open spec fn extract_fails_with<P: HandshakeCryptoProvider>(
    provider: &P,
    salt: Seq<u8>,
    input_key_material: Seq<u8>,
    error: P::Error,
) -> bool {
    exists|salt_bytes: [u8; HASH_LEN], material: &[u8], output: &mut [u8; HASH_LEN]| {
        &&& salt_bytes@ == salt
        &&& material@ == input_key_material
        &&& #[trigger] call_ensures(
            P::hkdf_extract_sha384,
            (provider, &salt_bytes, material, output),
            Err::<(), P::Error>(error),
        )
    }
}

/// Whether a provider fails with `error` to expand a secret under a label.
pub open spec fn expand_fails_with<P: HandshakeCryptoProvider>(
    provider: &P,
    secret: Seq<u8>,
    label: &str,
    context: Seq<u8>,
    length: u16,
    error: P::Error,
) -> bool {
    exists|key: [u8; HASH_LEN], info: &[u8], output: &mut [u8]| {
        &&& key@ == secret
        &&& info@ == expand_label_info(length, label, context)
        &&& output@.len() == length
        &&& #[trigger] call_ensures(
            P::hkdf_expand_sha384,
            (provider, &key, info, output),
            Err::<(), P::Error>(error),
        )
    }
}

/// Whether a provider fails with `error` to authenticate a message.
pub open spec fn hmac_fails_with<P: HandshakeCryptoProvider>(
    provider: &P,
    key: Seq<u8>,
    message: Seq<u8>,
    error: P::Error,
) -> bool {
    exists|key_bytes: [u8; HASH_LEN], content: &[u8], output: &mut [u8; HASH_LEN]| {
        &&& key_bytes@ == key
        &&& content@ == message
        &&& #[trigger] call_ensures(
            P::hmac_sha384,
            (provider, &key_bytes, content, output),
            Err::<(), P::Error>(error),
        )
    }
}

/// Whether a provider fails with `error` to generate one of the two ephemeral key pairs.
pub open spec fn generation_fails_with<P: HandshakeCryptoProvider>(
    provider: &P,
    error: P::Error,
) -> bool {
    ||| x25519_generation_fails_with(provider, error)
    ||| exists|encapsulation_key: &mut [u8; ML_KEM_768_ENCAPSULATION_KEY_LEN]| #[trigger]
        call_ensures(
            P::generate_ml_kem_768_key_pair,
            (provider, encapsulation_key),
            Err::<P::MlKem768DecapsulationKey, P::Error>(error),
        )
}

/// Whether a provider fails with `error` to generate an X25519 key pair.
pub open spec fn x25519_generation_fails_with<P: HandshakeCryptoProvider>(
    provider: &P,
    error: P::Error,
) -> bool {
    exists|public_key: &mut [u8; X25519_PUBLIC_KEY_LEN]| #[trigger]
        call_ensures(
            P::generate_x25519_key_pair,
            (provider, public_key),
            Err::<P::X25519PrivateKey, P::Error>(error),
        )
}

/// Whether a provider fails with `error` to agree on an X25519 secret.
pub open spec fn agreement_fails_with<P: HandshakeCryptoProvider>(
    provider: &P,
    private_key: P::X25519PrivateKey,
    peer_public_key: Seq<u8>,
    error: P::Error,
) -> bool {
    exists|peer: [u8; X25519_PUBLIC_KEY_LEN], output: &mut [u8; X25519_SHARED_SECRET_LEN]| {
        &&& peer@ == peer_public_key
        &&& #[trigger] call_ensures(
            P::x25519_shared_secret,
            (provider, &private_key, &peer, output),
            Err::<(), P::Error>(error),
        )
    }
}

/// Whether a provider fails with `error` to encapsulate to a key.
pub open spec fn encapsulation_fails_with<P: HandshakeCryptoProvider>(
    provider: &P,
    encapsulation_key: Seq<u8>,
    error: P::Error,
) -> bool {
    exists|
        key: [u8; ML_KEM_768_ENCAPSULATION_KEY_LEN],
        ciphertext: &mut [u8; ML_KEM_768_CIPHERTEXT_LEN],
        shared_secret: &mut [u8; ML_KEM_SHARED_SECRET_LEN],
    | {
        &&& key@ == encapsulation_key
        &&& #[trigger] call_ensures(
            P::encapsulate_ml_kem_768,
            (provider, &key, ciphertext, shared_secret),
            Err::<(), P::Error>(error),
        )
    }
}

/// Whether a provider fails with `error` to decapsulate a ciphertext.
pub open spec fn decapsulation_fails_with<P: HandshakeCryptoProvider>(
    provider: &P,
    decapsulation_key: P::MlKem768DecapsulationKey,
    ciphertext: Seq<u8>,
    error: P::Error,
) -> bool {
    exists|
        bytes: [u8; ML_KEM_768_CIPHERTEXT_LEN],
        shared_secret: &mut [u8; ML_KEM_SHARED_SECRET_LEN],
    | {
        &&& bytes@ == ciphertext
        &&& #[trigger] call_ensures(
            P::decapsulate_ml_kem_768,
            (provider, &decapsulation_key, &bytes, shared_secret),
            Err::<(), P::Error>(error),
        )
    }
}

/// Whether a provider fails with `error` on one of the secrets of a direction.
pub open spec fn direction_fails_with<P: HandshakeCryptoProvider>(
    provider: &P,
    handshake_secret: Seq<u8>,
    label: &str,
    pre_auth_hash: Seq<u8>,
    error: P::Error,
) -> bool {
    let hash_len = HASH_LEN as u16;
    let traffic = expanded(provider, handshake_secret, label, pre_auth_hash, hash_len);
    ||| expand_fails_with(provider, handshake_secret, label, pre_auth_hash, hash_len, error)
    ||| expand_fails_with(provider, traffic, LABEL_FINISHED, Seq::empty(), hash_len, error)
    ||| expand_fails_with(provider, traffic, LABEL_KEY, Seq::empty(), AEAD_KEY_LEN as u16, error)
    ||| expand_fails_with(provider, traffic, LABEL_IV, Seq::empty(), AEAD_IV_LEN as u16, error)
}

/// Whether a provider fails with `error` on a step of the key schedule.
pub open spec fn schedule_fails_with<P: HandshakeCryptoProvider>(
    provider: &P,
    hybrid_shared_secret: Seq<u8>,
    pre_auth_hash: Seq<u8>,
    error: P::Error,
) -> bool {
    let hash_len = HASH_LEN as u16;
    let zero = zeroes(HASH_LEN as nat);
    let empty_hash = provider.sha384(Seq::empty())@;
    let early = provider.hkdf_extract(zero, zero);
    let derived = expanded(provider, early, LABEL_DERIVED, empty_hash, hash_len);
    let secret = handshake_secret_of(provider, hybrid_shared_secret);
    let salt = expanded(provider, secret, LABEL_DERIVED, empty_hash, hash_len);
    ||| hashing_fails_with(provider, Seq::empty(), error)
    ||| extract_fails_with(provider, zero, zero, error)
    ||| expand_fails_with(provider, early, LABEL_DERIVED, empty_hash, hash_len, error)
    ||| extract_fails_with(provider, derived, hybrid_shared_secret, error)
    ||| direction_fails_with(provider, secret, LABEL_INITIATOR_HANDSHAKE, pre_auth_hash, error)
    ||| direction_fails_with(provider, secret, LABEL_RESPONDER_HANDSHAKE, pre_auth_hash, error)
    ||| expand_fails_with(provider, secret, LABEL_DERIVED, empty_hash, hash_len, error)
    ||| extract_fails_with(provider, salt, zero, error)
}

/// What the secrets of a handshake consist of, and which directions have sealed.
pub struct HandshakeSecretsView {
    pub schedule: HandshakeSchedule,
    pub initiator_sealed: bool,
    pub responder_sealed: bool,
}

impl HandshakeSecretsView {
    /// Secrets with which nothing has been sealed yet.
    pub open spec fn unused(schedule: HandshakeSchedule) -> HandshakeSecretsView {
        HandshakeSecretsView { schedule, initiator_sealed: false, responder_sealed: false }
    }

    /// The secrets of a sender.
    pub open spec fn direction(self, sender: AuthenticationRole) -> DirectionSchedule {
        match sender {
            AuthenticationRole::Initiator => self.schedule.initiator,
            AuthenticationRole::Responder => self.schedule.responder,
        }
    }

    /// Whether a sender has sealed.
    pub open spec fn has_sealed(self, sender: AuthenticationRole) -> bool {
        match sender {
            AuthenticationRole::Initiator => self.initiator_sealed,
            AuthenticationRole::Responder => self.responder_sealed,
        }
    }

    /// The secrets after a sender has sealed.
    pub open spec fn after_seal(self, sender: AuthenticationRole) -> HandshakeSecretsView {
        match sender {
            AuthenticationRole::Initiator => HandshakeSecretsView {
                initiator_sealed: true,
                ..self
            },
            AuthenticationRole::Responder => HandshakeSecretsView {
                responder_sealed: true,
                ..self
            },
        }
    }
}

/// Ephemeral initiator state retained between `INIT` and `RESPONSE`.
pub struct InitiatorHybridState<P: HandshakeCryptoProvider> {
    x25519_private: P::X25519PrivateKey,
    ml_kem_decapsulation: P::MlKem768DecapsulationKey,
    x25519_public: [u8; X25519_PUBLIC_KEY_LEN],
    ml_kem_encapsulation: [u8; ML_KEM_768_ENCAPSULATION_KEY_LEN],
}

impl<P: HandshakeCryptoProvider> InitiatorHybridState<P> {
    /// The X25519 private key.
    pub closed spec fn x25519_private_key(&self) -> P::X25519PrivateKey {
        self.x25519_private
    }

    /// The ML-KEM-768 decapsulation key.
    pub closed spec fn ml_kem_decapsulation_key(&self) -> P::MlKem768DecapsulationKey {
        self.ml_kem_decapsulation
    }

    /// The X25519 public key.
    pub closed spec fn x25519_public_bytes(&self) -> Seq<u8> {
        self.x25519_public@
    }

    /// The ML-KEM-768 encapsulation key.
    pub closed spec fn ml_kem_encapsulation_bytes(&self) -> Seq<u8> {
        self.ml_kem_encapsulation@
    }

    pub fn x25519_public_key(&self) -> (key: &[u8; X25519_PUBLIC_KEY_LEN])
        ensures
            key@ == self.x25519_public_bytes(),
    {
        &self.x25519_public
    }

    pub fn ml_kem_encapsulation_key(&self) -> (key: &[u8; ML_KEM_768_ENCAPSULATION_KEY_LEN])
        ensures
            key@ == self.ml_kem_encapsulation_bytes(),
    {
        &self.ml_kem_encapsulation
    }

    /// The initiator's two shared secrets in a row.
    pub open spec fn hybrid_secret(
        &self,
        provider: &P,
        responder_x25519_public_key: Seq<u8>,
        ml_kem_ciphertext: Seq<u8>,
    ) -> Seq<u8> {
        provider.ml_kem_decapsulated(self.ml_kem_decapsulation_key(), ml_kem_ciphertext)
            + provider.x25519_agreement(self.x25519_private_key(), responder_x25519_public_key)
    }

    /// Completes both hybrid branches and derives the handshake schedule.
    ///
    /// The state is consumed on every result so ephemeral private keys cannot be reused after a
    /// failed or successful `RESPONSE`.
    ///
    /// # Errors
    ///
    /// Returns an error for provider/KDF failure or all-zero X25519 output.
    pub fn complete(
        self,
        provider: &P,
        suite: CipherSuite,
        responder_x25519_public_key: &[u8; X25519_PUBLIC_KEY_LEN],
        ml_kem_ciphertext: &[u8; ML_KEM_768_CIPHERTEXT_LEN],
        pre_auth_hash: &Sha384Digest,
    ) -> (secrets: Result<HandshakeSecrets, HandshakeCryptoError<P::Error>>)
        ensures
            ({
                let shared = provider.x25519_agreement(
                    self.x25519_private_key(),
                    responder_x25519_public_key@,
                );
                match secrets {
                    Ok(secrets) => {
                        &&& !all_zero(shared)
                        &&& secrets@ == HandshakeSecretsView::unused(
                            handshake_schedule(
                                provider,
                                suite,
                                self.hybrid_secret(
                                    provider,
                                    responder_x25519_public_key@,
                                    ml_kem_ciphertext@,
                                ),
                                pre_auth_hash@,
                            ),
                        )
                    },
                    Err(HandshakeCryptoError::AllZeroX25519SharedSecret) => all_zero(shared),
                    Err(error) => {
                        &&& error matches HandshakeCryptoError::Provider(error)
                        &&& {
                            ||| agreement_fails_with(
                                provider,
                                self.x25519_private_key(),
                                responder_x25519_public_key@,
                                error,
                            )
                            ||| !all_zero(shared) && decapsulation_fails_with(
                                provider,
                                self.ml_kem_decapsulation_key(),
                                ml_kem_ciphertext@,
                                error,
                            )
                            ||| !all_zero(shared) && schedule_fails_with(
                                provider,
                                self.hybrid_secret(
                                    provider,
                                    responder_x25519_public_key@,
                                    ml_kem_ciphertext@,
                                ),
                                pre_auth_hash@,
                                error,
                            )
                        }
                    },
                }
            }),
    {
        let mut x25519 = SecretBytes::<X25519_SHARED_SECRET_LEN>::zeroed();
        match provider.x25519_shared_secret(
            &self.x25519_private,
            responder_x25519_public_key,
            x25519.as_mut_array(),
        ) {
            Ok(()) => {},
            Err(error) => {
                return Err(HandshakeCryptoError::Provider(error));
            },
        }
        match reject_all_zero_x25519(x25519.as_array()) {
            Ok(()) => {},
            Err(error) => {
                return Err(error);
            },
        }
        let mut ml_kem = SecretBytes::<ML_KEM_SHARED_SECRET_LEN>::zeroed();
        match provider.decapsulate_ml_kem_768(
            &self.ml_kem_decapsulation,
            ml_kem_ciphertext,
            ml_kem.as_mut_array(),
        ) {
            Ok(()) => {},
            Err(error) => {
                return Err(HandshakeCryptoError::Provider(error));
            },
        }
        derive_hybrid_handshake_secrets(provider, suite, &ml_kem, &x25519, pre_auth_hash)
    }

    /// Returns a text for diagnostics that shows no key.
    pub fn debug_text(&self) -> (text: String)
        ensures
            text@ == "InitiatorHybridState { x25519_private: \"<redacted>\", ml_kem_decapsulation: \"<redacted>\", x25519_public: \"<redacted>\", ml_kem_encapsulation: \"<redacted>\" }"@,
    {
        fixed(
            "InitiatorHybridState { x25519_private: \"<redacted>\", ml_kem_decapsulation: \"<redacted>\", x25519_public: \"<redacted>\", ml_kem_encapsulation: \"<redacted>\" }",
        )
    }
}

/// Generates both initiator ephemeral key pairs in fixed output storage.
///
/// # Errors
///
/// Returns a provider-specific RNG, key-generation, or backend failure.
pub fn generate_initiator_hybrid_state<P: HandshakeCryptoProvider>(provider: &P) -> (state: Result<
    InitiatorHybridState<P>,
    HandshakeCryptoError<P::Error>,
>)
    ensures
        match state {
            Ok(state) => {
                &&& state.x25519_public_bytes() == provider.x25519_public(
                    state.x25519_private_key(),
                )
                &&& state.ml_kem_encapsulation_bytes() == provider.ml_kem_public(
                    state.ml_kem_decapsulation_key(),
                )
            },
            Err(error) => error matches HandshakeCryptoError::Provider(error)
                && generation_fails_with(provider, error),
        },
{
    let mut x25519_public: [u8; X25519_PUBLIC_KEY_LEN] = [0u8; X25519_PUBLIC_KEY_LEN];
    let x25519_private = match provider.generate_x25519_key_pair(&mut x25519_public) {
        Ok(private) => private,
        Err(error) => {
            return Err(HandshakeCryptoError::Provider(error));
        },
    };
    let mut ml_kem_encapsulation: [u8; ML_KEM_768_ENCAPSULATION_KEY_LEN] = [0u8;
        ML_KEM_768_ENCAPSULATION_KEY_LEN];
    let ml_kem_decapsulation = match provider.generate_ml_kem_768_key_pair(
        &mut ml_kem_encapsulation,
    ) {
        Ok(decapsulation) => decapsulation,
        Err(error) => {
            return Err(HandshakeCryptoError::Provider(error));
        },
    };
    Ok(
        InitiatorHybridState {
            x25519_private,
            ml_kem_decapsulation,
            x25519_public,
            ml_kem_encapsulation,
        },
    )
}

/// Responder public values plus installed directional handshake secrets.
pub struct ResponderHybridResult {
    x25519_public_key: [u8; X25519_PUBLIC_KEY_LEN],
    ml_kem_ciphertext: [u8; ML_KEM_768_CIPHERTEXT_LEN],
    secrets: HandshakeSecrets,
}

impl ResponderHybridResult {
    /// The responder's X25519 public key.
    pub closed spec fn x25519_public_bytes(&self) -> Seq<u8> {
        self.x25519_public_key@
    }

    /// The ML-KEM-768 ciphertext.
    pub closed spec fn ml_kem_ciphertext_bytes(&self) -> Seq<u8> {
        self.ml_kem_ciphertext@
    }

    /// The installed secrets.
    pub closed spec fn installed(&self) -> HandshakeSecrets {
        self.secrets
    }

    pub fn x25519_public_key(&self) -> (key: &[u8; X25519_PUBLIC_KEY_LEN])
        ensures
            key@ == self.x25519_public_bytes(),
    {
        &self.x25519_public_key
    }

    pub fn ml_kem_ciphertext(&self) -> (ciphertext: &[u8; ML_KEM_768_CIPHERTEXT_LEN])
        ensures
            ciphertext@ == self.ml_kem_ciphertext_bytes(),
    {
        &self.ml_kem_ciphertext
    }

    pub fn secrets(&self) -> (secrets: &HandshakeSecrets)
        ensures
            *secrets == self.installed(),
    {
        &self.secrets
    }

    pub fn secrets_mut(&mut self) -> (secrets: &mut HandshakeSecrets)
        ensures
            *secrets == old(self).installed(),
            final(self).installed() == *final(secrets),
            final(self).x25519_public_bytes() == old(self).x25519_public_bytes(),
            final(self).ml_kem_ciphertext_bytes() == old(self).ml_kem_ciphertext_bytes(),
    {
        &mut self.secrets
    }

    pub fn into_secrets(self) -> (secrets: HandshakeSecrets)
        ensures
            secrets == self.installed(),
    {
        self.secrets
    }

    /// Returns a text for diagnostics that shows no key.
    pub fn debug_text(&self) -> (text: String)
        ensures
            text@ == "ResponderHybridResult { x25519_public_key: \"<redacted>\", ml_kem_ciphertext: \"<redacted>\", secrets: \"<redacted>\" }"@,
    {
        fixed(
            "ResponderHybridResult { x25519_public_key: \"<redacted>\", ml_kem_ciphertext: \"<redacted>\", secrets: \"<redacted>\" }",
        )
    }
}

/// Whether a provider can generate an X25519 key pair with a private key.
pub open spec fn generates_x25519<P: HandshakeCryptoProvider>(
    provider: &P,
    private_key: P::X25519PrivateKey,
) -> bool {
    exists|public_key: &mut [u8; X25519_PUBLIC_KEY_LEN]| #[trigger]
        call_ensures(
            P::generate_x25519_key_pair,
            (provider, public_key),
            Ok::<P::X25519PrivateKey, P::Error>(private_key),
        )
}

/// Whether a responder with an X25519 private key and an encapsulated secret answers an initiator's
/// key share in this way.
pub open spec fn answers<P: HandshakeCryptoProvider>(
    provider: &P,
    suite: CipherSuite,
    initiator_x25519_public_key: Seq<u8>,
    ml_kem_encapsulation_key: Seq<u8>,
    pre_auth_hash: Seq<u8>,
    result: ResponderHybridResult,
    private_key: P::X25519PrivateKey,
    ml_kem_secret: Seq<u8>,
) -> bool {
    let shared = provider.x25519_agreement(private_key, initiator_x25519_public_key);
    &&& generates_x25519(provider, private_key)
    &&& result.x25519_public_bytes() == provider.x25519_public(private_key)
    &&& provider.ml_kem_encapsulates(
        ml_kem_encapsulation_key,
        result.ml_kem_ciphertext_bytes(),
        ml_kem_secret,
    )
    &&& !all_zero(shared)
    &&& result.installed()@ == HandshakeSecretsView::unused(
        handshake_schedule(provider, suite, ml_kem_secret + shared, pre_auth_hash),
    )
}

/// Whether a provider fails with `error` on a step of an answer to an initiator's key share.
pub open spec fn responding_fails_with<P: HandshakeCryptoProvider>(
    provider: &P,
    initiator_x25519_public_key: Seq<u8>,
    ml_kem_encapsulation_key: Seq<u8>,
    pre_auth_hash: Seq<u8>,
    error: P::Error,
) -> bool {
    ||| x25519_generation_fails_with(provider, error)
    ||| exists|private_key: P::X25519PrivateKey| #[trigger]
        generates_x25519(provider, private_key) && agreement_fails_with(
            provider,
            private_key,
            initiator_x25519_public_key,
            error,
        )
    ||| encapsulation_fails_with(provider, ml_kem_encapsulation_key, error)
    ||| exists|
        private_key: P::X25519PrivateKey,
        ciphertext: Seq<u8>,
        ml_kem_secret: Seq<u8>,
    | #[trigger]
        generates_x25519(provider, private_key) && #[trigger] provider.ml_kem_encapsulates(
            ml_kem_encapsulation_key,
            ciphertext,
            ml_kem_secret,
        ) && schedule_fails_with(
            provider,
            ml_kem_secret + provider.x25519_agreement(private_key, initiator_x25519_public_key),
            pre_auth_hash,
            error,
        )
}

/// Generates the responder key share, completes both branches, and derives directional handshake
/// secrets atomically.
///
/// # Errors
///
/// Returns an error for provider/KDF failure or all-zero X25519 output.
pub fn respond_to_initiator<P: HandshakeCryptoProvider>(
    provider: &P,
    suite: CipherSuite,
    initiator_x25519_public_key: &[u8; X25519_PUBLIC_KEY_LEN],
    ml_kem_encapsulation_key: &[u8; ML_KEM_768_ENCAPSULATION_KEY_LEN],
    pre_auth_hash: &Sha384Digest,
) -> (result: Result<ResponderHybridResult, HandshakeCryptoError<P::Error>>)
    ensures
        match result {
            Ok(result) => exists|private_key: P::X25519PrivateKey, ml_kem_secret: Seq<u8>|
                answers(
                    provider,
                    suite,
                    initiator_x25519_public_key@,
                    ml_kem_encapsulation_key@,
                    pre_auth_hash@,
                    result,
                    private_key,
                    ml_kem_secret,
                ),
            Err(HandshakeCryptoError::AllZeroX25519SharedSecret) => exists|
                private_key: P::X25519PrivateKey,
            | #[trigger]
                generates_x25519(provider, private_key) && all_zero(
                    provider.x25519_agreement(private_key, initiator_x25519_public_key@),
                ),
            Err(error) => error matches HandshakeCryptoError::Provider(error)
                && responding_fails_with(
                provider,
                initiator_x25519_public_key@,
                ml_kem_encapsulation_key@,
                pre_auth_hash@,
                error,
            ),
        },
{
    let mut x25519_public_key: [u8; X25519_PUBLIC_KEY_LEN] = [0u8; X25519_PUBLIC_KEY_LEN];
    let x25519_private_key = match provider.generate_x25519_key_pair(&mut x25519_public_key) {
        Ok(private) => private,
        Err(error) => {
            return Err(HandshakeCryptoError::Provider(error));
        },
    };
    assert(generates_x25519(provider, x25519_private_key));
    let mut x25519 = SecretBytes::<X25519_SHARED_SECRET_LEN>::zeroed();
    match provider.x25519_shared_secret(
        &x25519_private_key,
        initiator_x25519_public_key,
        x25519.as_mut_array(),
    ) {
        Ok(()) => {},
        Err(error) => {
            return Err(HandshakeCryptoError::Provider(error));
        },
    }
    match reject_all_zero_x25519(x25519.as_array()) {
        Ok(()) => {},
        Err(error) => {
            return Err(error);
        },
    }
    let mut ml_kem_ciphertext: [u8; ML_KEM_768_CIPHERTEXT_LEN] = [0u8; ML_KEM_768_CIPHERTEXT_LEN];
    let mut ml_kem = SecretBytes::<ML_KEM_SHARED_SECRET_LEN>::zeroed();
    match provider.encapsulate_ml_kem_768(
        ml_kem_encapsulation_key,
        &mut ml_kem_ciphertext,
        ml_kem.as_mut_array(),
    ) {
        Ok(()) => {},
        Err(error) => {
            return Err(HandshakeCryptoError::Provider(error));
        },
    }
    let secrets = match derive_hybrid_handshake_secrets(
        provider,
        suite,
        &ml_kem,
        &x25519,
        pre_auth_hash,
    ) {
        Ok(secrets) => secrets,
        Err(error) => {
            return Err(error);
        },
    };
    let result = ResponderHybridResult { x25519_public_key, ml_kem_ciphertext, secrets };
    assert(answers(
        provider,
        suite,
        initiator_x25519_public_key@,
        ml_kem_encapsulation_key@,
        pre_auth_hash@,
        result,
        x25519_private_key,
        ml_kem.0@,
    ));
    Ok(result)
}

/// One sender direction of the handshake schedule.
pub struct DirectionalHandshakeSecrets {
    traffic_secret: [u8; HASH_LEN],
    finished_key: [u8; HASH_LEN],
    aead_key: [u8; AEAD_KEY_LEN],
    aead_iv: [u8; AEAD_IV_LEN],
    seal_reserved: bool,
}

impl View for DirectionalHandshakeSecrets {
    type V = DirectionSchedule;

    closed spec fn view(&self) -> DirectionSchedule {
        DirectionSchedule {
            traffic: self.traffic_secret@,
            finished: self.finished_key@,
            key: self.aead_key@,
            iv: self.aead_iv@,
        }
    }
}

impl DirectionalHandshakeSecrets {
    /// Whether the direction's one seal has been reserved.
    pub closed spec fn has_reserved_seal(&self) -> bool {
        self.seal_reserved
    }

    pub fn finished_key(&self) -> (key: &[u8; HASH_LEN])
        ensures
            key@ == self@.finished,
    {
        &self.finished_key
    }

    pub fn traffic_secret(&self) -> (secret: &[u8; HASH_LEN])
        ensures
            secret@ == self@.traffic,
    {
        &self.traffic_secret
    }

    pub fn aead_key(&self) -> (key: &[u8; AEAD_KEY_LEN])
        ensures
            key@ == self@.key,
    {
        &self.aead_key
    }

    pub fn aead_iv(&self) -> (iv: &[u8; AEAD_IV_LEN])
        ensures
            iv@ == self@.iv,
    {
        &self.aead_iv
    }

    /// Returns a text for diagnostics that shows no secret.
    pub fn debug_text(&self) -> (text: String)
        ensures
            text@ == "DirectionalHandshakeSecrets(<redacted>)"@,
    {
        fixed("DirectionalHandshakeSecrets(<redacted>)")
    }
}

impl Drop for DirectionalHandshakeSecrets {
    fn drop(&mut self)
        ensures
            final(self)@ == (DirectionSchedule {
                traffic: zeroes(HASH_LEN as nat),
                finished: zeroes(HASH_LEN as nat),
                key: zeroes(AEAD_KEY_LEN as nat),
                iv: zeroes(AEAD_IV_LEN as nat),
            }),
            final(self).has_reserved_seal(),
        opens_invariants none
        no_unwind
    {
        erase(&mut self.traffic_secret);
        erase(&mut self.finished_key);
        erase(&mut self.aead_key);
        erase(&mut self.aead_iv);
        self.seal_reserved = true;
    }
}

/// Installed handshake schedule, with the deferred master secret.
pub struct HandshakeSecrets {
    suite: CipherSuite,
    initiator: DirectionalHandshakeSecrets,
    responder: DirectionalHandshakeSecrets,
    master_secret: [u8; HASH_LEN],
}

impl View for HandshakeSecrets {
    type V = HandshakeSecretsView;

    closed spec fn view(&self) -> HandshakeSecretsView {
        HandshakeSecretsView {
            schedule: HandshakeSchedule {
                suite: self.suite,
                initiator: self.initiator@,
                responder: self.responder@,
                master: self.master_secret@,
            },
            initiator_sealed: self.initiator.seal_reserved,
            responder_sealed: self.responder.seal_reserved,
        }
    }
}

impl HandshakeSecrets {
    pub fn suite(&self) -> (suite: CipherSuite)
        ensures
            suite == self@.schedule.suite,
    {
        self.suite
    }

    pub fn initiator(&self) -> (direction: &DirectionalHandshakeSecrets)
        ensures
            direction@ == self@.schedule.initiator,
    {
        &self.initiator
    }

    pub fn responder(&self) -> (direction: &DirectionalHandshakeSecrets)
        ensures
            direction@ == self@.schedule.responder,
    {
        &self.responder
    }

    pub fn master_secret(&self) -> (secret: &[u8; HASH_LEN])
        ensures
            secret@ == self@.schedule.master,
    {
        &self.master_secret
    }

    /// Computes one role-correct Finished HMAC.
    ///
    /// # Errors
    ///
    /// Returns a provider-specific HMAC/backend failure.
    pub fn compute_finished<P: HandshakeCryptoProvider>(
        &self,
        provider: &P,
        sender: AuthenticationRole,
        transcript_hash: &Sha384Digest,
    ) -> (mac: Result<Sha384Digest, HandshakeCryptoError<P::Error>>)
        ensures
            match mac {
                Ok(mac) => mac@ == provider.hmac(
                    self@.direction(sender).finished,
                    transcript_hash@,
                ),
                Err(error) => error matches HandshakeCryptoError::Provider(error)
                    && hmac_fails_with(
                    provider,
                    self@.direction(sender).finished,
                    transcript_hash@,
                    error,
                ),
            },
    {
        let mut output = SecretBytes::<HASH_LEN>::zeroed();
        match provider.hmac_sha384(
            self.direction(sender).finished_key(),
            transcript_hash,
            output.as_mut_array(),
        ) {
            Ok(()) => Ok(output.copy_out()),
            Err(error) => Err(HandshakeCryptoError::Provider(error)),
        }
    }

    /// Derives both application traffic secrets and consumes all handshake traffic material.
    /// Completed-transcript and authenticated-peer capabilities are mandatory.
    ///
    /// # Errors
    ///
    /// Returns a label-encoding or provider HKDF failure.
    pub fn derive_application_secrets<P: HandshakeCryptoProvider>(
        self,
        provider: &P,
        completed_transcript: &InitiatorTranscriptMilestone,
        _authenticated_peer: &AuthenticatedIdentity,
    ) -> (secrets: Result<ApplicationSecrets, HandshakeCryptoError<P::Error>>)
        ensures
            match secrets {
                Ok(secrets) => {
                    &&& secrets.initiator_bytes() == expanded(
                        provider,
                        self@.schedule.master,
                        LABEL_INITIATOR_APPLICATION,
                        completed_transcript.full_hash(),
                        HASH_LEN as u16,
                    )
                    &&& secrets.responder_bytes() == expanded(
                        provider,
                        self@.schedule.master,
                        LABEL_RESPONDER_APPLICATION,
                        completed_transcript.full_hash(),
                        HASH_LEN as u16,
                    )
                },
                Err(error) => {
                    &&& error matches HandshakeCryptoError::Provider(error)
                    &&& expand_fails_with(
                        provider,
                        self@.schedule.master,
                        LABEL_INITIATOR_APPLICATION,
                        completed_transcript.full_hash(),
                        HASH_LEN as u16,
                        error,
                    ) || expand_fails_with(
                        provider,
                        self@.schedule.master,
                        LABEL_RESPONDER_APPLICATION,
                        completed_transcript.full_hash(),
                        HASH_LEN as u16,
                        error,
                    )
                },
            },
    {
        proof {
            lemma_labels_are_encodable();
        }
        let mut initiator = SecretBytes::<HASH_LEN>::zeroed();
        match derive_secret(
            provider,
            &self.master_secret,
            LABEL_INITIATOR_APPLICATION,
            completed_transcript.full(),
            initiator.as_mut_array(),
        ) {
            Ok(()) => {},
            Err(error) => {
                return Err(error);
            },
        }
        let mut responder = SecretBytes::<HASH_LEN>::zeroed();
        match derive_secret(
            provider,
            &self.master_secret,
            LABEL_RESPONDER_APPLICATION,
            completed_transcript.full(),
            responder.as_mut_array(),
        ) {
            Ok(()) => {},
            Err(error) => {
                return Err(error);
            },
        }
        Ok(ApplicationSecrets { initiator: initiator.copy_out(), responder: responder.copy_out() })
    }

    fn direction(&self, sender: AuthenticationRole) -> (direction: &DirectionalHandshakeSecrets)
        ensures
            direction@ == self@.direction(sender),
            direction.seal_reserved == self@.has_sealed(sender),
    {
        match sender {
            AuthenticationRole::Initiator => &self.initiator,
            AuthenticationRole::Responder => &self.responder,
        }
    }

    fn reserve_seal(&mut self, sender: AuthenticationRole)
        ensures
            final(self)@ == old(self)@.after_seal(sender),
    {
        match sender {
            AuthenticationRole::Initiator => {
                self.initiator.seal_reserved = true;
            },
            AuthenticationRole::Responder => {
                self.responder.seal_reserved = true;
            },
        }
    }

    /// The name of a suite.
    pub open spec fn suite_text(suite: CipherSuite) -> Seq<char> {
        match suite {
            CipherSuite::Aes256GcmSha384 => "Aes256GcmSha384"@,
            CipherSuite::ChaCha20Poly1305Sha384 => "ChaCha20Poly1305Sha384"@,
        }
    }

    /// Returns a text for diagnostics that shows the suite and no secret.
    pub fn debug_text(&self) -> (text: String)
        ensures
            text@ == "HandshakeSecrets { suite: "@ + Self::suite_text(self@.schedule.suite)
                + ", initiator: \"<redacted>\", responder: \"<redacted>\", master_secret: \"<redacted>\" }"@,
    {
        let suite: &'static str = match self.suite {
            CipherSuite::Aes256GcmSha384 => "Aes256GcmSha384",
            CipherSuite::ChaCha20Poly1305Sha384 => "ChaCha20Poly1305Sha384",
        };
        fixed("HandshakeSecrets { suite: ").concat(suite).concat(
            ", initiator: \"<redacted>\", responder: \"<redacted>\", master_secret: \"<redacted>\" }",
        )
    }
}

impl Drop for HandshakeSecrets {
    fn drop(&mut self)
        ensures
            final(self)@.schedule.master == zeroes(HASH_LEN as nat),
        opens_invariants none
        no_unwind
    {
        erase(&mut self.master_secret);
    }
}

/// Directional application traffic secrets at epoch zero.
pub struct ApplicationSecrets {
    initiator: [u8; HASH_LEN],
    responder: [u8; HASH_LEN],
}

impl ApplicationSecrets {
    /// The initiator's traffic secret.
    pub closed spec fn initiator_bytes(&self) -> Seq<u8> {
        self.initiator@
    }

    /// The responder's traffic secret.
    pub closed spec fn responder_bytes(&self) -> Seq<u8> {
        self.responder@
    }

    pub fn initiator(&self) -> (secret: &[u8; HASH_LEN])
        ensures
            secret@ == self.initiator_bytes(),
    {
        &self.initiator
    }

    pub fn responder(&self) -> (secret: &[u8; HASH_LEN])
        ensures
            secret@ == self.responder_bytes(),
    {
        &self.responder
    }

    /// Returns a text for diagnostics that shows no secret.
    pub fn debug_text(&self) -> (text: String)
        ensures
            text@ == "ApplicationSecrets(<redacted>)"@,
    {
        fixed("ApplicationSecrets(<redacted>)")
    }
}

impl Drop for ApplicationSecrets {
    fn drop(&mut self)
        ensures
            final(self).initiator_bytes() == zeroes(HASH_LEN as nat),
            final(self).responder_bytes() == zeroes(HASH_LEN as nat),
        opens_invariants none
        no_unwind
    {
        erase(&mut self.initiator);
        erase(&mut self.responder);
    }
}

/// Opened fixed authentication plaintext. Storage is cleared on drop.
pub struct OpenedIdentityAuth {
    storage: [u8; ENCRYPTED_IDENTITY_AUTH_LEN],
}

impl OpenedIdentityAuth {
    /// The plaintext.
    pub closed spec fn plaintext(&self) -> Seq<u8> {
        self.storage@.take(IDENTITY_AUTH_LEN as int)
    }

    /// Whether nothing is left in the storage, not even behind the plaintext.
    pub closed spec fn is_erased(&self) -> bool {
        self.storage@ == zeroes(ENCRYPTED_IDENTITY_AUTH_LEN as nat)
    }

    pub fn as_bytes(&self) -> (bytes: &[u8])
        ensures
            bytes@ == self.plaintext(),
            bytes@.len() == IDENTITY_AUTH_LEN,
    {
        let bytes: &[u8] = part(&self.storage, 0, IDENTITY_AUTH_LEN);
        assert(bytes@ =~= self.plaintext());
        bytes
    }

    /// Decodes the already size-checked plaintext.
    ///
    /// # Errors
    ///
    /// Returns an identity-auth codec error if its fixed invariant is broken.
    pub fn decode(&self) -> (decoded: Result<IdentityAuth<'_>, HandshakeError>)
        ensures
            decoded matches Ok(decoded) && decoded.encoding() == self.plaintext()
                && decoded.field_failure() is None,
    {
        IdentityAuth::decode(self.as_bytes())
    }

    /// Returns a text for diagnostics that shows no plaintext.
    pub fn debug_text(&self) -> (text: String)
        ensures
            text@ == "OpenedIdentityAuth(<redacted>)"@,
    {
        fixed("OpenedIdentityAuth(<redacted>)")
    }
}

impl Drop for OpenedIdentityAuth {
    fn drop(&mut self)
        ensures
            final(self).is_erased(),
            all_zero(final(self).plaintext()),
        opens_invariants none
        no_unwind
    {
        erase(&mut self.storage);
    }
}

/// The ciphertext of an identity plaintext under a sender's secrets.
pub open spec fn sealed_identity<P: HandshakeCryptoProvider>(
    provider: &P,
    secrets: HandshakeSecretsView,
    sender: AuthenticationRole,
    message_id: u32,
    additional_data: Seq<u8>,
    plaintext: Seq<u8>,
) -> Seq<u8> {
    provider.sealed_handshake(
        secrets.schedule.suite,
        secrets.direction(sender).key,
        nonce_of(secrets.direction(sender).iv, message_id),
        additional_data,
        plaintext,
    )
}

/// The plaintext of an authentic ciphertext under a sender's secrets.
pub open spec fn opened_identity<P: HandshakeCryptoProvider>(
    provider: &P,
    secrets: HandshakeSecretsView,
    sender: AuthenticationRole,
    message_id: u32,
    additional_data: Seq<u8>,
    ciphertext: Seq<u8>,
) -> Option<Seq<u8>> {
    provider.opened_handshake(
        secrets.schedule.suite,
        secrets.direction(sender).key,
        nonce_of(secrets.direction(sender).iv, message_id),
        additional_data,
        ciphertext,
    )
}

/// The failure of sealing that no provider decides, if any: the checks in order.
pub open spec fn seal_failure<E>(
    secrets: HandshakeSecretsView,
    sender: AuthenticationRole,
    plaintext: IdentityAuth,
    available: nat,
) -> Option<HandshakeCryptoError<E>> {
    if available < ENCRYPTED_IDENTITY_AUTH_LEN {
        Some(
            HandshakeCryptoError::Wire(
                WireError::BufferTooSmall {
                    needed: ENCRYPTED_IDENTITY_AUTH_LEN,
                    available: available as usize,
                },
            ),
        )
    } else if plaintext.field_failure() is Some {
        Some(HandshakeCryptoError::Handshake(plaintext.field_failure()->0))
    } else if secrets.has_sealed(sender) {
        Some(HandshakeCryptoError::HandshakeCiphertextAlreadySealed(sender))
    } else {
        None
    }
}

/// A buffer whose ciphertext area has been erased.
pub open spec fn erased(buffer: Seq<u8>) -> Seq<u8> {
    overwrite_prefix(buffer, zeroes(ENCRYPTED_IDENTITY_AUTH_LEN as nat))
}

/// Whether a provider can answer so when it seals an identity plaintext.
pub open spec fn sealing_answers<P: HandshakeCryptoProvider>(
    provider: &P,
    secrets: HandshakeSecretsView,
    sender: AuthenticationRole,
    message_id: u32,
    additional_data: Seq<u8>,
    plaintext: Seq<u8>,
    answer: Result<usize, P::Error>,
) -> bool {
    exists|
        key: [u8; AEAD_KEY_LEN],
        nonce: [u8; AEAD_IV_LEN],
        authenticated: &[u8],
        target: &mut [u8],
    | {
        &&& key@ == secrets.direction(sender).key
        &&& nonce@ == nonce_of(secrets.direction(sender).iv, message_id)
        &&& authenticated@ == additional_data
        &&& target@.take(IDENTITY_AUTH_LEN as int) == plaintext
        &&& #[trigger] call_ensures(
            P::seal_handshake_aead,
            (
                provider,
                secrets.schedule.suite,
                &key,
                &nonce,
                authenticated,
                target,
                IDENTITY_AUTH_LEN,
            ),
            answer,
        )
    }
}

/// Whether a provider can answer so when it opens an identity ciphertext.
pub open spec fn opening_answers<P: HandshakeCryptoProvider>(
    provider: &P,
    secrets: HandshakeSecretsView,
    sender: AuthenticationRole,
    message_id: u32,
    additional_data: Seq<u8>,
    ciphertext: Seq<u8>,
    answer: Result<HandshakeAeadOpenResult, P::Error>,
) -> bool {
    exists|
        key: [u8; AEAD_KEY_LEN],
        nonce: [u8; AEAD_IV_LEN],
        authenticated: &[u8],
        target: &mut [u8],
    | {
        &&& key@ == secrets.direction(sender).key
        &&& nonce@ == nonce_of(secrets.direction(sender).iv, message_id)
        &&& authenticated@ == additional_data
        &&& target@ == ciphertext
        &&& #[trigger] call_ensures(
            P::open_handshake_aead,
            (provider, secrets.schedule.suite, &key, &nonce, authenticated, target),
            answer,
        )
    }
}

/// Whether sealing has left secrets, output and result as it should.
pub open spec fn seals<P: HandshakeCryptoProvider>(
    provider: &P,
    sender: AuthenticationRole,
    message_id: u32,
    additional_data: Seq<u8>,
    plaintext: IdentityAuth,
    secrets_before: HandshakeSecretsView,
    secrets_after: HandshakeSecretsView,
    output_before: Seq<u8>,
    output_after: Seq<u8>,
    sealed: Result<usize, HandshakeCryptoError<P::Error>>,
) -> bool {
    match seal_failure::<P::Error>(secrets_before, sender, plaintext, output_before.len()) {
        Some(error) => {
            &&& sealed == Err::<usize, HandshakeCryptoError<P::Error>>(error)
            &&& secrets_after == secrets_before
            &&& output_after == if error is Wire {
                output_before
            } else {
                erased(output_before)
            }
        },
        None => {
            &&& secrets_after == secrets_before.after_seal(sender)
            &&& match sealed {
                Ok(length) => {
                    let ciphertext = sealed_identity(
                        provider,
                        secrets_before,
                        sender,
                        message_id,
                        additional_data,
                        plaintext.encoding(),
                    );
                    &&& length == ENCRYPTED_IDENTITY_AUTH_LEN
                    &&& ciphertext.len() == ENCRYPTED_IDENTITY_AUTH_LEN
                    &&& output_after == overwrite_prefix(output_before, ciphertext)
                },
                Err(HandshakeCryptoError::ProviderLengthMismatch { expected, actual }) => {
                    &&& expected == ENCRYPTED_IDENTITY_AUTH_LEN
                    &&& actual != expected
                    &&& sealing_answers(
                        provider,
                        secrets_before,
                        sender,
                        message_id,
                        additional_data,
                        plaintext.encoding(),
                        Ok(actual),
                    )
                    &&& output_after == erased(output_before)
                },
                Err(HandshakeCryptoError::Provider(error)) => {
                    &&& sealing_answers(
                        provider,
                        secrets_before,
                        sender,
                        message_id,
                        additional_data,
                        plaintext.encoding(),
                        Err(error),
                    )
                    &&& output_after == erased(output_before)
                },
                Err(_) => false,
            }
        },
    }
}

/// Seals responder authentication for `RESPONSE` exactly once.
///
/// `pre_auth_hash` is both `TH_pre_auth` and the RESPONSE AEAD AAD.
///
/// # Errors
///
/// Returns an error for invalid plaintext/output, repeat sealing, provider failure, length
/// mismatch, or nonce construction failure.
pub fn seal_responder_identity_auth<P: HandshakeCryptoProvider>(
    provider: &P,
    secrets: &mut HandshakeSecrets,
    message_id: u32,
    pre_auth_hash: &Sha384Digest,
    plaintext: IdentityAuth<'_>,
    output: &mut [u8],
) -> (sealed: Result<usize, HandshakeCryptoError<P::Error>>)
    ensures
        seals(
            provider,
            AuthenticationRole::Responder,
            message_id,
            pre_auth_hash@,
            plaintext,
            old(secrets)@,
            final(secrets)@,
            old(output)@,
            final(output)@,
            sealed,
        ),
{
    seal_identity_auth(
        provider,
        secrets,
        AuthenticationRole::Responder,
        message_id,
        pre_auth_hash,
        plaintext,
        output,
    )
}

/// Seals initiator authentication for `FINISH` exactly once.
///
/// `initiator_signature_hash` is `TH_i_signature` and the FINISH AEAD AAD.
///
/// # Errors
///
/// Returns an error for invalid plaintext/output, repeat sealing, provider failure, length
/// mismatch, or nonce construction failure.
pub fn seal_initiator_identity_auth<P: HandshakeCryptoProvider>(
    provider: &P,
    secrets: &mut HandshakeSecrets,
    message_id: u32,
    initiator_signature_hash: &Sha384Digest,
    plaintext: IdentityAuth<'_>,
    output: &mut [u8],
) -> (sealed: Result<usize, HandshakeCryptoError<P::Error>>)
    ensures
        seals(
            provider,
            AuthenticationRole::Initiator,
            message_id,
            initiator_signature_hash@,
            plaintext,
            old(secrets)@,
            final(secrets)@,
            old(output)@,
            final(output)@,
            sealed,
        ),
{
    seal_identity_auth(
        provider,
        secrets,
        AuthenticationRole::Initiator,
        message_id,
        initiator_signature_hash,
        plaintext,
        output,
    )
}

/// Whether opening a ciphertext may give a result.
pub open spec fn opens<P: HandshakeCryptoProvider>(
    provider: &P,
    secrets: HandshakeSecretsView,
    sender: AuthenticationRole,
    message_id: u32,
    additional_data: Seq<u8>,
    ciphertext: Seq<u8>,
    opened: Result<OpenedIdentityAuth, HandshakeCryptoError<P::Error>>,
) -> bool {
    if ciphertext.len() != ENCRYPTED_IDENTITY_AUTH_LEN {
        opened == Err::<OpenedIdentityAuth, HandshakeCryptoError<P::Error>>(
            HandshakeCryptoError::InvalidCiphertextLength {
                expected: ENCRYPTED_IDENTITY_AUTH_LEN,
                actual: ciphertext.len() as usize,
            },
        )
    } else {
        let plaintext = opened_identity(
            provider,
            secrets,
            sender,
            message_id,
            additional_data,
            ciphertext,
        );
        let answers = |answer: Result<HandshakeAeadOpenResult, P::Error>|
            opening_answers(
                provider,
                secrets,
                sender,
                message_id,
                additional_data,
                ciphertext,
                answer,
            );
        match opened {
            Ok(opened) => plaintext == Some(opened.plaintext()),
            Err(HandshakeCryptoError::AuthenticationFailed) => {
                &&& plaintext is None
                &&& answers(Ok(HandshakeAeadOpenResult::Invalid))
            },
            Err(HandshakeCryptoError::ProviderLengthMismatch { expected, actual }) => {
                &&& expected == IDENTITY_AUTH_LEN
                &&& actual != expected
                &&& answers(Ok(HandshakeAeadOpenResult::Opened(actual)))
            },
            Err(HandshakeCryptoError::Provider(error)) => answers(Err(error)),
            Err(_) => false,
        }
    }
}

/// Opens responder authentication from `RESPONSE` into fixed candidate storage.
///
/// # Errors
///
/// Returns an error for ciphertext size, invalid tag, provider/length failure, or malformed opened
/// plaintext.
pub fn open_responder_identity_auth<P: HandshakeCryptoProvider>(
    provider: &P,
    secrets: &HandshakeSecrets,
    message_id: u32,
    pre_auth_hash: &Sha384Digest,
    ciphertext: &[u8],
) -> (opened: Result<OpenedIdentityAuth, HandshakeCryptoError<P::Error>>)
    ensures
        opens(
            provider,
            secrets@,
            AuthenticationRole::Responder,
            message_id,
            pre_auth_hash@,
            ciphertext@,
            opened,
        ),
{
    open_identity_auth(
        provider,
        secrets,
        AuthenticationRole::Responder,
        message_id,
        pre_auth_hash,
        ciphertext,
    )
}

/// Opens initiator authentication from `FINISH` into fixed candidate storage.
///
/// # Errors
///
/// Returns an error for ciphertext size, invalid tag, provider/length failure, or malformed opened
/// plaintext.
pub fn open_initiator_identity_auth<P: HandshakeCryptoProvider>(
    provider: &P,
    secrets: &HandshakeSecrets,
    message_id: u32,
    initiator_signature_hash: &Sha384Digest,
    ciphertext: &[u8],
) -> (opened: Result<OpenedIdentityAuth, HandshakeCryptoError<P::Error>>)
    ensures
        opens(
            provider,
            secrets@,
            AuthenticationRole::Initiator,
            message_id,
            initiator_signature_hash@,
            ciphertext@,
            opened,
        ),
{
    open_identity_auth(
        provider,
        secrets,
        AuthenticationRole::Initiator,
        message_id,
        initiator_signature_hash,
        ciphertext,
    )
}

fn seal_identity_auth<P: HandshakeCryptoProvider>(
    provider: &P,
    secrets: &mut HandshakeSecrets,
    sender: AuthenticationRole,
    message_id: u32,
    aad: &Sha384Digest,
    plaintext: IdentityAuth<'_>,
    output: &mut [u8],
) -> (sealed: Result<usize, HandshakeCryptoError<P::Error>>)
    ensures
        seals(
            provider,
            sender,
            message_id,
            aad@,
            plaintext,
            old(secrets)@,
            final(secrets)@,
            old(output)@,
            final(output)@,
            sealed,
        ),
{
    if output.len() < ENCRYPTED_IDENTITY_AUTH_LEN {
        return Err(
            HandshakeCryptoError::Wire(
                WireError::BufferTooSmall {
                    needed: ENCRYPTED_IDENTITY_AUTH_LEN,
                    available: output.len(),
                },
            ),
        );
    }
    let ghost before = output@;
    match plaintext.encode(output) {
        Ok(_) => {},
        Err(error) => {
            clear_prefix(output, ENCRYPTED_IDENTITY_AUTH_LEN);
            return Err(HandshakeCryptoError::Handshake(error));
        },
    }
    proof {
        crate::handshake::lemma_identity_auth_round_trip(plaintext, plaintext);
        assert(erased(output@) =~= erased(before));
    }
    if secrets.direction(sender).seal_reserved {
        clear_prefix(output, ENCRYPTED_IDENTITY_AUTH_LEN);
        return Err(HandshakeCryptoError::HandshakeCiphertextAlreadySealed(sender));
    }
    secrets.reserve_seal(sender);
    let suite = secrets.suite;
    let direction = secrets.direction(sender);
    let nonce: [u8; AEAD_IV_LEN] = handshake_nonce(&direction.aead_iv, message_id);
    let sealed = {
        let (target, _) = output.split_at_mut(ENCRYPTED_IDENTITY_AUTH_LEN);
        assert(target@.take(IDENTITY_AUTH_LEN as int) =~= plaintext.encoding());
        provider.seal_handshake_aead(
            suite,
            &direction.aead_key,
            &nonce,
            aad,
            target,
            IDENTITY_AUTH_LEN,
        )
    };
    proof {
        assert(output@.skip(ENCRYPTED_IDENTITY_AUTH_LEN as int) =~= before.skip(
            ENCRYPTED_IDENTITY_AUTH_LEN as int,
        ));
        assert(output@ =~= overwrite_prefix(
            before,
            output@.take(ENCRYPTED_IDENTITY_AUTH_LEN as int),
        ));
        assert(erased(output@) =~= erased(before));
        let ciphertext = sealed_identity(
            provider,
            old(secrets)@,
            sender,
            message_id,
            aad@,
            plaintext.encoding(),
        );
        if sealed matches Ok(length) && length == ENCRYPTED_IDENTITY_AUTH_LEN {
            assert(output@.take(ENCRYPTED_IDENTITY_AUTH_LEN as int) =~= ciphertext);
        }
    }
    settle_sealed_identity(sealed, output)
}

/// Judges a provider's answer to sealing an identity: unless it reports exactly the expected
/// length, the ciphertext area is erased.
///
/// # Errors
///
/// Returns the provider's failure, or a length mismatch.
pub fn settle_sealed_identity<E>(sealed: Result<usize, E>, output: &mut [u8]) -> (settled: Result<
    usize,
    HandshakeCryptoError<E>,
>)
    requires
        old(output)@.len() >= ENCRYPTED_IDENTITY_AUTH_LEN,
    ensures
        match sealed {
            Ok(length) => if length == ENCRYPTED_IDENTITY_AUTH_LEN {
                &&& settled == Ok::<usize, HandshakeCryptoError<E>>(length)
                &&& final(output)@ == old(output)@
            } else {
                &&& settled == Err::<usize, HandshakeCryptoError<E>>(
                    HandshakeCryptoError::ProviderLengthMismatch {
                        expected: ENCRYPTED_IDENTITY_AUTH_LEN,
                        actual: length,
                    },
                )
                &&& final(output)@ == erased(old(output)@)
            },
            Err(error) => {
                &&& settled == Err::<usize, HandshakeCryptoError<E>>(
                    HandshakeCryptoError::Provider(error),
                )
                &&& final(output)@ == erased(old(output)@)
            },
        },
{
    match sealed {
        Ok(length) => {
            if length != ENCRYPTED_IDENTITY_AUTH_LEN {
                clear_prefix(output, ENCRYPTED_IDENTITY_AUTH_LEN);
                return Err(
                    HandshakeCryptoError::ProviderLengthMismatch {
                        expected: ENCRYPTED_IDENTITY_AUTH_LEN,
                        actual: length,
                    },
                );
            }
            Ok(length)
        },
        Err(error) => {
            clear_prefix(output, ENCRYPTED_IDENTITY_AUTH_LEN);
            Err(HandshakeCryptoError::Provider(error))
        },
    }
}

fn open_identity_auth<P: HandshakeCryptoProvider>(
    provider: &P,
    secrets: &HandshakeSecrets,
    sender: AuthenticationRole,
    message_id: u32,
    aad: &Sha384Digest,
    ciphertext: &[u8],
) -> (opened: Result<OpenedIdentityAuth, HandshakeCryptoError<P::Error>>)
    ensures
        opens(provider, secrets@, sender, message_id, aad@, ciphertext@, opened),
{
    if ciphertext.len() != ENCRYPTED_IDENTITY_AUTH_LEN {
        return Err(
            HandshakeCryptoError::InvalidCiphertextLength {
                expected: ENCRYPTED_IDENTITY_AUTH_LEN,
                actual: ciphertext.len(),
            },
        );
    }
    let direction = secrets.direction(sender);
    let nonce: [u8; AEAD_IV_LEN] = handshake_nonce(&direction.aead_iv, message_id);
    let mut candidate = OpenedIdentityAuth {
        storage: get_array::<ENCRYPTED_IDENTITY_AUTH_LEN>(ciphertext, 0),
    };
    assert(candidate.storage@ =~= ciphertext@);
    let answer = provider.open_handshake_aead(
        secrets.suite,
        &direction.aead_key,
        &nonce,
        aad,
        &mut candidate.storage,
    );
    match settle_opened_identity(answer) {
        Ok(()) => {},
        Err(error) => {
            return Err(error);
        },
    }
    let ghost plaintext = candidate.storage@.take(IDENTITY_AUTH_LEN as int);
    clear_tail(&mut candidate.storage, IDENTITY_AUTH_LEN);
    assert(candidate.storage@.take(IDENTITY_AUTH_LEN as int) =~= plaintext);
    match candidate.decode() {
        Ok(_) => {},
        Err(error) => {
            return Err(HandshakeCryptoError::Handshake(error));
        },
    }
    Ok(candidate)
}

/// Judges a provider's answer to opening an identity.
///
/// # Errors
///
/// Returns an authentication failure for an invalid tag, the provider's own failure, or a length
/// mismatch.
pub fn settle_opened_identity<E>(answer: Result<HandshakeAeadOpenResult, E>) -> (outcome: Result<
    (),
    HandshakeCryptoError<E>,
>)
    ensures
        outcome == match answer {
            Ok(HandshakeAeadOpenResult::Opened(length)) => if length == IDENTITY_AUTH_LEN {
                Ok::<(), HandshakeCryptoError<E>>(())
            } else {
                Err(
                    HandshakeCryptoError::ProviderLengthMismatch {
                        expected: IDENTITY_AUTH_LEN,
                        actual: length,
                    },
                )
            },
            Ok(HandshakeAeadOpenResult::Invalid) => Err(HandshakeCryptoError::AuthenticationFailed),
            Err(error) => Err(HandshakeCryptoError::Provider(error)),
        },
{
    match answer {
        Ok(HandshakeAeadOpenResult::Opened(length)) => {
            if length != IDENTITY_AUTH_LEN {
                return Err(
                    HandshakeCryptoError::ProviderLengthMismatch {
                        expected: IDENTITY_AUTH_LEN,
                        actual: length,
                    },
                );
            }
            Ok(())
        },
        Ok(HandshakeAeadOpenResult::Invalid) => Err(HandshakeCryptoError::AuthenticationFailed),
        Err(error) => Err(HandshakeCryptoError::Provider(error)),
    }
}

fn derive_hybrid_handshake_secrets<P: HandshakeCryptoProvider>(
    provider: &P,
    suite: CipherSuite,
    ml_kem: &SecretBytes<ML_KEM_SHARED_SECRET_LEN>,
    x25519: &SecretBytes<X25519_SHARED_SECRET_LEN>,
    pre_auth_hash: &Sha384Digest,
) -> (secrets: Result<HandshakeSecrets, HandshakeCryptoError<P::Error>>)
    ensures
        match secrets {
            Ok(secrets) => secrets@ == HandshakeSecretsView::unused(
                handshake_schedule(provider, suite, ml_kem.0@ + x25519.0@, pre_auth_hash@),
            ),
            Err(error) => error matches HandshakeCryptoError::Provider(error)
                && schedule_fails_with(
                provider,
                ml_kem.0@ + x25519.0@,
                pre_auth_hash@,
                error,
            ),
        },
{
    broadcast use group_buffer_writes;

    let mut hybrid = SecretBytes::<HYBRID_SHARED_SECRET_LEN>::zeroed();
    let at: usize = put(hybrid.as_mut_array(), 0, ml_kem.as_array());
    let _ = put(hybrid.as_mut_array(), at, x25519.as_array());
    assert(hybrid.0@ =~= ml_kem.0@ + x25519.0@);
    derive_handshake_secrets(provider, suite, hybrid.as_array(), pre_auth_hash)
}

/// Derives the directional handshake secrets and the master secret of a hybrid shared secret.
///
/// # Errors
///
/// Returns a provider hashing or HKDF failure.
pub fn derive_handshake_secrets<P: HandshakeCryptoProvider>(
    provider: &P,
    suite: CipherSuite,
    hybrid_shared_secret: &[u8; HYBRID_SHARED_SECRET_LEN],
    pre_auth_hash: &Sha384Digest,
) -> (secrets: Result<HandshakeSecrets, HandshakeCryptoError<P::Error>>)
    ensures
        match secrets {
            Ok(secrets) => secrets@ == HandshakeSecretsView::unused(
                handshake_schedule(provider, suite, hybrid_shared_secret@, pre_auth_hash@),
            ),
            Err(error) => error matches HandshakeCryptoError::Provider(error)
                && schedule_fails_with(
                provider,
                hybrid_shared_secret@,
                pre_auth_hash@,
                error,
            ),
        },
{
    proof {
        lemma_labels_are_encodable();
    }
    let zero: [u8; HASH_LEN] = [0u8; HASH_LEN];
    assert(zero@ =~= zeroes(HASH_LEN as nat));
    let empty_hash: Sha384Digest = match hash_empty(provider) {
        Ok(digest) => digest,
        Err(error) => {
            return Err(error);
        },
    };
    let mut early_secret = SecretBytes::<HASH_LEN>::zeroed();
    match provider.hkdf_extract_sha384(&zero, &zero, early_secret.as_mut_array()) {
        Ok(()) => {},
        Err(error) => {
            return Err(HandshakeCryptoError::Provider(error));
        },
    }
    let mut derived_early = SecretBytes::<HASH_LEN>::zeroed();
    match derive_secret(
        provider,
        early_secret.as_array(),
        LABEL_DERIVED,
        &empty_hash,
        derived_early.as_mut_array(),
    ) {
        Ok(()) => {},
        Err(error) => {
            return Err(error);
        },
    }
    let mut handshake_secret = SecretBytes::<HASH_LEN>::zeroed();
    match provider.hkdf_extract_sha384(
        derived_early.as_array(),
        hybrid_shared_secret,
        handshake_secret.as_mut_array(),
    ) {
        Ok(()) => {},
        Err(error) => {
            return Err(HandshakeCryptoError::Provider(error));
        },
    }
    let initiator = match derive_direction(
        provider,
        handshake_secret.as_array(),
        LABEL_INITIATOR_HANDSHAKE,
        pre_auth_hash,
    ) {
        Ok(direction) => direction,
        Err(error) => {
            return Err(error);
        },
    };
    let responder = match derive_direction(
        provider,
        handshake_secret.as_array(),
        LABEL_RESPONDER_HANDSHAKE,
        pre_auth_hash,
    ) {
        Ok(direction) => direction,
        Err(error) => {
            return Err(error);
        },
    };
    let mut derived_handshake = SecretBytes::<HASH_LEN>::zeroed();
    match derive_secret(
        provider,
        handshake_secret.as_array(),
        LABEL_DERIVED,
        &empty_hash,
        derived_handshake.as_mut_array(),
    ) {
        Ok(()) => {},
        Err(error) => {
            return Err(error);
        },
    }
    let mut master_secret = SecretBytes::<HASH_LEN>::zeroed();
    match provider.hkdf_extract_sha384(
        derived_handshake.as_array(),
        &zero,
        master_secret.as_mut_array(),
    ) {
        Ok(()) => {},
        Err(error) => {
            return Err(HandshakeCryptoError::Provider(error));
        },
    }
    Ok(
        HandshakeSecrets { suite, initiator, responder, master_secret: master_secret.copy_out() },
    )
}

fn derive_direction<P: HandshakeCryptoProvider>(
    provider: &P,
    handshake_secret: &[u8; HASH_LEN],
    label: &str,
    pre_auth_hash: &Sha384Digest,
) -> (direction: Result<DirectionalHandshakeSecrets, HandshakeCryptoError<P::Error>>)
    requires
        label_failure(label, HASH_LEN as nat, MAX_EXPAND_LABEL_LEN as nat) is None,
    ensures
        match direction {
            Ok(direction) => {
                &&& direction@ == direction_schedule(
                    provider,
                    handshake_secret@,
                    label,
                    pre_auth_hash@,
                )
                &&& !direction.seal_reserved
            },
            Err(error) => error matches HandshakeCryptoError::Provider(error)
                && direction_fails_with(
                provider,
                handshake_secret@,
                label,
                pre_auth_hash@,
                error,
            ),
        },
{
    proof {
        lemma_labels_are_encodable();
    }
    let empty: [u8; 0] = [];
    assert(empty@ =~= Seq::<u8>::empty());
    let mut traffic = SecretBytes::<HASH_LEN>::zeroed();
    match derive_secret(
        provider,
        handshake_secret,
        label,
        pre_auth_hash,
        traffic.as_mut_array(),
    ) {
        Ok(()) => {},
        Err(error) => {
            return Err(error);
        },
    }
    let mut finished = SecretBytes::<HASH_LEN>::zeroed();
    match expand_label(
        provider,
        traffic.as_array(),
        LABEL_FINISHED,
        &empty,
        finished.as_mut_array(),
    ) {
        Ok(()) => {},
        Err(error) => {
            return Err(error);
        },
    }
    let mut key = SecretBytes::<AEAD_KEY_LEN>::zeroed();
    match expand_label(provider, traffic.as_array(), LABEL_KEY, &empty, key.as_mut_array()) {
        Ok(()) => {},
        Err(error) => {
            return Err(error);
        },
    }
    let mut iv = SecretBytes::<AEAD_IV_LEN>::zeroed();
    match expand_label(provider, traffic.as_array(), LABEL_IV, &empty, iv.as_mut_array()) {
        Ok(()) => {},
        Err(error) => {
            return Err(error);
        },
    }
    Ok(
        DirectionalHandshakeSecrets {
            traffic_secret: traffic.copy_out(),
            finished_key: finished.copy_out(),
            aead_key: key.copy_out(),
            aead_iv: iv.copy_out(),
            seal_reserved: false,
        },
    )
}

fn derive_secret<P: HandshakeCryptoProvider>(
    provider: &P,
    secret: &[u8; HASH_LEN],
    label: &str,
    transcript_hash: &Sha384Digest,
    output: &mut [u8; HASH_LEN],
) -> (outcome: Result<(), HandshakeCryptoError<P::Error>>)
    requires
        label_failure(label, HASH_LEN as nat, MAX_EXPAND_LABEL_LEN as nat) is None,
    ensures
        match outcome {
            Ok(()) => final(output)@ == expanded(
                provider,
                secret@,
                label,
                transcript_hash@,
                HASH_LEN as u16,
            ),
            Err(error) => error matches HandshakeCryptoError::Provider(error) && expand_fails_with(
                provider,
                secret@,
                label,
                transcript_hash@,
                HASH_LEN as u16,
                error,
            ),
        },
{
    expand_label(provider, secret, label, transcript_hash, output)
}

fn expand_label<P: HandshakeCryptoProvider>(
    provider: &P,
    secret: &[u8; HASH_LEN],
    label: &str,
    context: &[u8],
    output: &mut [u8],
) -> (outcome: Result<(), HandshakeCryptoError<P::Error>>)
    ensures
        final(output)@.len() == old(output)@.len(),
        if old(output)@.len() > u16::MAX {
            outcome == Err::<(), HandshakeCryptoError<P::Error>>(
                HandshakeCryptoError::Label(LabelError::LengthOverflow),
            )
        } else {
            match label_failure(label, context@.len(), MAX_EXPAND_LABEL_LEN as nat) {
                Some(error) => outcome == Err::<(), HandshakeCryptoError<P::Error>>(
                    HandshakeCryptoError::Label(error),
                ),
                None => match outcome {
                    Ok(()) => final(output)@ == expanded(
                        provider,
                        secret@,
                        label,
                        context@,
                        old(output)@.len() as u16,
                    ),
                    Err(error) => error matches HandshakeCryptoError::Provider(error)
                        && expand_fails_with(
                        provider,
                        secret@,
                        label,
                        context@,
                        old(output)@.len() as u16,
                        error,
                    ),
                },
            }
        },
{
    let mut info: [u8; MAX_EXPAND_LABEL_LEN] = [0u8; MAX_EXPAND_LABEL_LEN];
    if output.len() > u16::MAX as usize {
        return Err(HandshakeCryptoError::Label(LabelError::LengthOverflow));
    }
    let output_length: u16 = output.len() as u16;
    let written: usize = match encode_expand_label(output_length, label, context, &mut info) {
        Ok(written) => written,
        Err(error) => {
            return Err(HandshakeCryptoError::Label(error));
        },
    };
    assert(info@.subrange(0, written as int) =~= expand_label_info(output_length, label, context@));
    match provider.hkdf_expand_sha384(secret, part(&info, 0, written), output) {
        Ok(()) => Ok(()),
        Err(error) => Err(HandshakeCryptoError::Provider(error)),
    }
}

fn hash_empty<P: Sha384Provider>(provider: &P) -> (digest: Result<
    Sha384Digest,
    HandshakeCryptoError<P::Error>,
>)
    ensures
        match digest {
            Ok(digest) => digest@ == provider.sha384(Seq::empty())@,
            Err(error) => error matches HandshakeCryptoError::Provider(error)
                && hashing_fails_with(provider, Seq::empty(), error),
        },
{
    let context = match provider.start_sha384() {
        Ok(context) => context,
        Err(error) => {
            return Err(HandshakeCryptoError::Provider(error));
        },
    };
    match provider.finish_sha384(context) {
        Ok(digest) => Ok(digest),
        Err(error) => Err(HandshakeCryptoError::Provider(error)),
    }
}

fn reject_all_zero_x25519<E>(shared_secret: &[u8; X25519_SHARED_SECRET_LEN]) -> (outcome: Result<
    (),
    HandshakeCryptoError<E>,
>)
    ensures
        outcome == if all_zero(shared_secret@) {
            Err::<(), HandshakeCryptoError<E>>(HandshakeCryptoError::AllZeroX25519SharedSecret)
        } else {
            Ok(())
        },
{
    if is_all_zero(shared_secret) {
        return Err(HandshakeCryptoError::AllZeroX25519SharedSecret);
    }
    Ok(())
}

/// The nonce of a message: the IV with the message ID added bitwise to its low 32 bits.
pub open spec fn nonce_of(iv: Seq<u8>, message_id: u32) -> Seq<u8> {
    Seq::new(
        AEAD_IV_LEN as nat,
        |i: int|
            if i < 8 {
                iv[i]
            } else {
                iv[i] ^ be32(message_id)[i - 8]
            },
    )
}

/// Forms `IV XOR left_pad_96(message_id)` for RESPONSE or FINISH.
pub fn handshake_nonce(iv: &[u8; AEAD_IV_LEN], message_id: u32) -> (nonce: [u8; AEAD_IV_LEN])
    ensures
        nonce@ == nonce_of(iv@, message_id),
{
    let mut nonce: [u8; AEAD_IV_LEN] = *iv;
    let encoded: [u8; 4] = be32_bytes(message_id);
    let mut i: usize = 0;
    while i < 4
        invariant
            i <= 4,
            encoded@ == be32(message_id),
            forall|k: int| 0 <= k < 8 + i ==> nonce@[k] == nonce_of(iv@, message_id)[k],
            forall|k: int| 8 + i <= k < 12 ==> nonce@[k] == iv@[k],
        decreases 4 - i,
    {
        nonce[8 + i] = nonce[8 + i] ^ encoded[i];
        i = i + 1;
    }
    assert(nonce@ =~= nonce_of(iv@, message_id));
    nonce
}

/// Every label of the key schedule can be encoded, with or without a transcript hash.
proof fn lemma_labels_are_encodable()
    ensures
        label_failure(LABEL_DERIVED, HASH_LEN as nat, MAX_EXPAND_LABEL_LEN as nat) is None,
        label_failure(
            LABEL_INITIATOR_HANDSHAKE,
            HASH_LEN as nat,
            MAX_EXPAND_LABEL_LEN as nat,
        ) is None,
        label_failure(
            LABEL_RESPONDER_HANDSHAKE,
            HASH_LEN as nat,
            MAX_EXPAND_LABEL_LEN as nat,
        ) is None,
        label_failure(
            LABEL_INITIATOR_APPLICATION,
            HASH_LEN as nat,
            MAX_EXPAND_LABEL_LEN as nat,
        ) is None,
        label_failure(
            LABEL_RESPONDER_APPLICATION,
            HASH_LEN as nat,
            MAX_EXPAND_LABEL_LEN as nat,
        ) is None,
        label_failure(LABEL_FINISHED, 0, MAX_EXPAND_LABEL_LEN as nat) is None,
        label_failure(LABEL_KEY, 0, MAX_EXPAND_LABEL_LEN as nat) is None,
        label_failure(LABEL_IV, 0, MAX_EXPAND_LABEL_LEN as nat) is None,
{
    reveal_strlit("ogtp1 ");
    reveal_strlit("derived");
    reveal_strlit("i hs");
    reveal_strlit("r hs");
    reveal_strlit("i ap");
    reveal_strlit("r ap");
    reveal_strlit("finished");
    reveal_strlit("key");
    reveal_strlit("iv");
    let prefix = LABEL_PREFIX;
    let derived = LABEL_DERIVED;
    let initiator_handshake = LABEL_INITIATOR_HANDSHAKE;
    let responder_handshake = LABEL_RESPONDER_HANDSHAKE;
    let initiator_application = LABEL_INITIATOR_APPLICATION;
    let responder_application = LABEL_RESPONDER_APPLICATION;
    let finished = LABEL_FINISHED;
    let key = LABEL_KEY;
    let iv = LABEL_IV;
    assert(prefix.is_ascii());
    assert(derived.is_ascii());
    assert(initiator_handshake.is_ascii());
    assert(responder_handshake.is_ascii());
    assert(initiator_application.is_ascii());
    assert(responder_application.is_ascii());
    assert(finished.is_ascii());
    assert(key.is_ascii());
    assert(iv.is_ascii());
}

/// Hybrid key-exchange, KDF, or handshake-AEAD failure.
#[derive(Clone, Debug, PartialEq, Eq)]
pub enum HandshakeCryptoError<E> {
    Wire(WireError),
    Handshake(HandshakeError),
    Label(LabelError),
    Provider(E),
    AllZeroX25519SharedSecret,
    HandshakeCiphertextAlreadySealed(AuthenticationRole),
    InvalidCiphertextLength { expected: usize, actual: usize },
    AuthenticationFailed,
    ProviderLengthMismatch { expected: usize, actual: usize },
}

impl<E> From<WireError> for HandshakeCryptoError<E> {
    fn from(error: WireError) -> (wrapped: HandshakeCryptoError<E>) {
        HandshakeCryptoError::Wire(error)
    }
}

impl<E> vstd::std_specs::convert::FromSpecImpl<WireError> for HandshakeCryptoError<E> {
    open spec fn obeys_from_spec() -> bool {
        true
    }

    open spec fn from_spec(error: WireError) -> HandshakeCryptoError<E> {
        HandshakeCryptoError::Wire(error)
    }
}

impl<E> From<LabelError> for HandshakeCryptoError<E> {
    fn from(error: LabelError) -> (wrapped: HandshakeCryptoError<E>) {
        HandshakeCryptoError::Label(error)
    }
}

impl<E> vstd::std_specs::convert::FromSpecImpl<LabelError> for HandshakeCryptoError<E> {
    open spec fn obeys_from_spec() -> bool {
        true
    }

    open spec fn from_spec(error: LabelError) -> HandshakeCryptoError<E> {
        HandshakeCryptoError::Label(error)
    }
}

impl<E> HandshakeCryptoError<E> {
    /// The name of a role.
    pub open spec fn role_text(role: AuthenticationRole) -> Seq<char> {
        match role {
            AuthenticationRole::Initiator => "Initiator"@,
            AuthenticationRole::Responder => "Responder"@,
        }
    }

    /// The diagnostic text of a failure, given the text of a provider's own failure.
    pub open spec fn message_text(self, provider_text: Seq<char>) -> Seq<char> {
        match self {
            HandshakeCryptoError::Wire(error) => error.message_text(),
            HandshakeCryptoError::Handshake(error) => error.message_text(),
            HandshakeCryptoError::Label(error) => error.message_text(),
            HandshakeCryptoError::Provider(_) => "handshake crypto provider failure: "@
                + provider_text,
            HandshakeCryptoError::AllZeroX25519SharedSecret => "all-zero X25519 shared secret"@,
            HandshakeCryptoError::HandshakeCiphertextAlreadySealed(role) => Self::role_text(role)
                + " handshake ciphertext already sealed"@,
            HandshakeCryptoError::InvalidCiphertextLength { expected, actual } =>
            "invalid handshake ciphertext length: expected "@ + decimal(expected as nat)
                + ", got "@ + decimal(actual as nat) + ""@,
            HandshakeCryptoError::AuthenticationFailed => "handshake AEAD authentication failed"@,
            HandshakeCryptoError::ProviderLengthMismatch { expected, actual } =>
            "handshake crypto provider length mismatch: expected "@ + decimal(expected as nat)
                + ", got "@ + decimal(actual as nat) + ""@,
        }
    }

    /// Returns the diagnostic text of this failure, given the text of a provider's own failure.
    pub fn message(&self, provider_text: &str) -> (text: String)
        ensures
            text@ == self.message_text(provider_text@),
    {
        match self {
            HandshakeCryptoError::Wire(error) => error.message(),
            HandshakeCryptoError::Handshake(error) => error.message(),
            HandshakeCryptoError::Label(error) => error.message(),
            HandshakeCryptoError::Provider(_) => fixed(
                "handshake crypto provider failure: ",
            ).concat(provider_text),
            HandshakeCryptoError::AllZeroX25519SharedSecret => fixed(
                "all-zero X25519 shared secret",
            ),
            HandshakeCryptoError::HandshakeCiphertextAlreadySealed(role) => {
                let name: &'static str = match role {
                    AuthenticationRole::Initiator => "Initiator",
                    AuthenticationRole::Responder => "Responder",
                };
                fixed(name).concat(" handshake ciphertext already sealed")
            },
            HandshakeCryptoError::InvalidCiphertextLength { expected, actual } => with_two_numbers(
                "invalid handshake ciphertext length: expected ",
                *expected as u64,
                ", got ",
                *actual as u64,
                "",
            ),
            HandshakeCryptoError::AuthenticationFailed => fixed(
                "handshake AEAD authentication failed",
            ),
            HandshakeCryptoError::ProviderLengthMismatch { expected, actual } => with_two_numbers(
                "handshake crypto provider length mismatch: expected ",
                *expected as u64,
                ", got ",
                *actual as u64,
                "",
            ),
        }
    }
}

/// Whether X25519 gives two parties the same secret.
pub open spec fn key_agreement_is_symmetric<P: HandshakeCryptoProvider>(provider: &P) -> bool {
    forall|left: P::X25519PrivateKey, right: P::X25519PrivateKey| #[trigger]
        provider.x25519_agreement(left, provider.x25519_public(right))
            == provider.x25519_agreement(right, provider.x25519_public(left))
}

/// Whether ML-KEM-768 decapsulates what it encapsulates.
pub open spec fn encapsulation_is_correct<P: HandshakeCryptoProvider>(provider: &P) -> bool {
    forall|key: P::MlKem768DecapsulationKey, ciphertext: Seq<u8>, secret: Seq<u8>| #[trigger]
        provider.ml_kem_encapsulates(provider.ml_kem_public(key), ciphertext, secret)
            ==> provider.ml_kem_decapsulated(key, ciphertext) == secret
}

/// With a correct key agreement and encapsulation, the secrets that a responder installs are those
/// that the initiator derives from the responder's answer.
pub proof fn lemma_both_sides_install_identical_secrets<P: HandshakeCryptoProvider>(
    provider: &P,
    initiator: InitiatorHybridState<P>,
    suite: CipherSuite,
    pre_auth_hash: Seq<u8>,
    result: ResponderHybridResult,
    private_key: P::X25519PrivateKey,
    ml_kem_secret: Seq<u8>,
)
    requires
        key_agreement_is_symmetric(provider),
        encapsulation_is_correct(provider),
        initiator.x25519_public_bytes() == provider.x25519_public(initiator.x25519_private_key()),
        initiator.ml_kem_encapsulation_bytes() == provider.ml_kem_public(
            initiator.ml_kem_decapsulation_key(),
        ),
        answers(
            provider,
            suite,
            initiator.x25519_public_bytes(),
            initiator.ml_kem_encapsulation_bytes(),
            pre_auth_hash,
            result,
            private_key,
            ml_kem_secret,
        ),
    ensures
        result.installed()@.schedule == handshake_schedule(
            provider,
            suite,
            initiator.hybrid_secret(
                provider,
                result.x25519_public_bytes(),
                result.ml_kem_ciphertext_bytes(),
            ),
            pre_auth_hash,
        ),
{
    assert(provider.x25519_agreement(
        private_key,
        provider.x25519_public(initiator.x25519_private_key()),
    ) == provider.x25519_agreement(
        initiator.x25519_private_key(),
        provider.x25519_public(private_key),
    ));
}

/// A direction seals at most once: once it has got as far as the provider, whatever came back, it
/// refuses every further plaintext.
pub proof fn lemma_a_direction_seals_once<E>(
    secrets: HandshakeSecretsView,
    sender: AuthenticationRole,
    plaintext: IdentityAuth,
    available: nat,
)
    ensures
        seal_failure::<E>(secrets.after_seal(sender), sender, plaintext, available) is Some,
        forall|other: AuthenticationRole|
            other != sender ==> secrets.after_seal(sender).has_sealed(other)
                == #[trigger] secrets.has_sealed(other),
        secrets.after_seal(sender).schedule == secrets.schedule,
{
}

/// One request to seal an identity.
pub struct SealRequest<'a> {
    pub sender: AuthenticationRole,
    pub plaintext: IdentityAuth<'a>,
    pub available: nat,
}

impl<'a> SealRequest<'a> {
    /// Whether the request hands the plaintext to the provider.
    pub open spec fn reaches_provider<E>(self, secrets: HandshakeSecretsView) -> bool {
        seal_failure::<E>(secrets, self.sender, self.plaintext, self.available) is None
    }

    /// The secrets after the request, whatever the provider answers.
    pub open spec fn outcome<E>(self, secrets: HandshakeSecretsView) -> HandshakeSecretsView {
        if self.reaches_provider::<E>(secrets) {
            secrets.after_seal(self.sender)
        } else {
            secrets
        }
    }
}

/// However often sealing is asked for, at most one request per sender reaches the provider, also if
/// that one failed. Every later one that is in order itself is told that the direction has sealed.
pub proof fn lemma_at_most_one_request_seals<E>(
    requests: Seq<SealRequest>,
    secrets: Seq<HandshakeSecretsView>,
    earlier: int,
    later: int,
)
    requires
        secrets.len() == requests.len() + 1,
        forall|k: int|
            0 <= k < requests.len() ==> secrets[k + 1] == (#[trigger] requests[k]).outcome::<E>(
                secrets[k],
            ),
        0 <= earlier < later < requests.len(),
        requests[earlier].sender == requests[later].sender,
        requests[earlier].reaches_provider::<E>(secrets[earlier]),
    ensures
        !requests[later].reaches_provider::<E>(secrets[later]),
        secrets[later + 1] == secrets[later],
        requests[later].available >= ENCRYPTED_IDENTITY_AUTH_LEN
            && requests[later].plaintext.field_failure() is None ==> seal_failure::<E>(
            secrets[later],
            requests[later].sender,
            requests[later].plaintext,
            requests[later].available,
        ) == Some(
            HandshakeCryptoError::<E>::HandshakeCiphertextAlreadySealed(requests[later].sender),
        ),
{
    lemma_sealed_stays_sealed::<E>(
        requests,
        secrets,
        requests[earlier].sender,
        earlier + 1,
        later,
    );
    assert(secrets[later + 1] == requests[later].outcome::<E>(secrets[later]));
}

proof fn lemma_sealed_stays_sealed<E>(
    requests: Seq<SealRequest>,
    secrets: Seq<HandshakeSecretsView>,
    sender: AuthenticationRole,
    from: int,
    to: int,
)
    requires
        secrets.len() == requests.len() + 1,
        forall|k: int|
            0 <= k < requests.len() ==> secrets[k + 1] == (#[trigger] requests[k]).outcome::<E>(
                secrets[k],
            ),
        0 < from <= to <= requests.len(),
        requests[from - 1].sender == sender,
        requests[from - 1].reaches_provider::<E>(secrets[from - 1]),
    ensures
        secrets[to].has_sealed(sender),
    decreases to - from,
{
    if from < to {
        lemma_sealed_stays_sealed::<E>(requests, secrets, sender, from, to - 1);
        assert(secrets[to - 1 + 1] == requests[to - 1].outcome::<E>(secrets[to - 1]));
    } else {
        assert(secrets[from - 1 + 1] == requests[from - 1].outcome::<E>(secrets[from - 1]));
    }
}

/// With a provider that opens what it seals, a sealed identity opens to its plaintext on the side
/// that holds the same schedule.
pub proof fn lemma_sealed_identity_opens<P: HandshakeCryptoProvider>(
    provider: &P,
    sealing: HandshakeSecretsView,
    opening: HandshakeSecretsView,
    sender: AuthenticationRole,
    message_id: u32,
    additional_data: Seq<u8>,
    plaintext: Seq<u8>,
)
    requires
        sealing.schedule == opening.schedule,
        provider.opened_handshake(
            sealing.schedule.suite,
            sealing.direction(sender).key,
            nonce_of(sealing.direction(sender).iv, message_id),
            additional_data,
            sealed_identity(provider, sealing, sender, message_id, additional_data, plaintext),
        ) == Some(plaintext),
    ensures
        opened_identity(
            provider,
            opening,
            sender,
            message_id,
            additional_data,
            sealed_identity(provider, sealing, sender, message_id, additional_data, plaintext),
        ) == Some(plaintext),
{
}

/// Different messages have different nonces under one IV.
pub proof fn lemma_nonces_are_distinct(iv: Seq<u8>, left: u32, right: u32)
    requires
        left != right,
    ensures
        nonce_of(iv, left) != nonce_of(iv, right),
{
    lemma_be32_inverse(left);
    lemma_be32_inverse(right);
    if be32(left) =~= be32(right) {
        assert(false);
    }
    let at = choose|i: int| 0 <= i < 4 && be32(left)[i] != be32(right)[i];
    let a = be32(left)[at];
    let b = be32(right)[at];
    let mask = iv[8 + at];
    assert(mask ^ a != mask ^ b) by (bit_vector)
        requires
            a != b,
    ;
    assert(nonce_of(iv, left)[8 + at] == mask ^ a);
    assert(nonce_of(iv, right)[8 + at] == mask ^ b);
}

} // verus!
