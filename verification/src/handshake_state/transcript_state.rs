//! Transactional canonical handshake transcript.

use vstd::prelude::*;
use vstd::string::*;

use crate::bytes::{
    be16_at, be32_at, bytes_equal, lemma_be16_inverse, lemma_be32_inverse, lemma_be_at_shift, part,
    put, zeroes,
};
use crate::crypto::{
    forking_fails_with, snapshot_fails_with, ForkableSha384Provider, Sha384Digest,
    SHA384_OUTPUT_LEN,
};
use crate::handshake::{
    exact_failure, lemma_hello_round_trip, lemma_response_parts, lemma_response_round_trip,
    CipherSuite, HandshakeError, Hello,
    IdentityAuth, Init, Response, Retry, CIPHER_SUITE_AES_256_GCM_SHA384_BIT,
    CIPHER_SUITE_CHACHA20_POLY1305_SHA384_BIT, FINISHED_MAC_LEN, HELLO_LEN, IDENTITY_AUTH_LEN,
    KNOWN_CAPABILITY_BITS, MAX_RETRY_COOKIE_LEN, RANDOM_LEN, RESPONSE_FIXED_LEN, RETRY_FIXED_LEN,
};
use crate::text::fixed;
use crate::transcript::{
    feed_record, lemma_record_is_prefix_free, record, SessionContext, TranscriptError,
    TranscriptRecordType, TranscriptSink, SESSION_CONTEXT_FIXED_LEN,
};
use crate::wire::long::MAX_LONG_CONNECTION_ID_LEN;

verus! {

/// Largest encoded session context.
pub const MAX_SESSION_CONTEXT_LEN: usize = SESSION_CONTEXT_FIXED_LEN + 2
    * MAX_LONG_CONNECTION_ID_LEN;

/// Bytes of an identity plaintext in front of its Finished MAC.
pub const IDENTITY_AUTH_CONTENT_LEN: usize = IDENTITY_AUTH_LEN - FINISHED_MAC_LEN;

/// Current canonical transcript transition.
#[derive(Clone, Copy, Debug, PartialEq, Eq, Structural)]
pub enum HandshakeTranscriptStage {
    ExpectHello,
    ExpectRetry,
    ExpectInit,
    ExpectResponse,
    ExpectResponderAuth,
    ExpectInitiatorAuth,
    Complete,
}

impl HandshakeTranscriptStage {
    /// The name of a stage.
    pub open spec fn name_text(self) -> Seq<char> {
        match self {
            HandshakeTranscriptStage::ExpectHello => "ExpectHello"@,
            HandshakeTranscriptStage::ExpectRetry => "ExpectRetry"@,
            HandshakeTranscriptStage::ExpectInit => "ExpectInit"@,
            HandshakeTranscriptStage::ExpectResponse => "ExpectResponse"@,
            HandshakeTranscriptStage::ExpectResponderAuth => "ExpectResponderAuth"@,
            HandshakeTranscriptStage::ExpectInitiatorAuth => "ExpectInitiatorAuth"@,
            HandshakeTranscriptStage::Complete => "Complete"@,
        }
    }

    /// Returns the name of this stage.
    pub fn name(self) -> (name: &'static str)
        ensures
            name@ == self.name_text(),
    {
        match self {
            HandshakeTranscriptStage::ExpectHello => "ExpectHello",
            HandshakeTranscriptStage::ExpectRetry => "ExpectRetry",
            HandshakeTranscriptStage::ExpectInit => "ExpectInit",
            HandshakeTranscriptStage::ExpectResponse => "ExpectResponse",
            HandshakeTranscriptStage::ExpectResponderAuth => "ExpectResponderAuth",
            HandshakeTranscriptStage::ExpectInitiatorAuth => "ExpectInitiatorAuth",
            HandshakeTranscriptStage::Complete => "Complete",
        }
    }
}

/// Signature and Finished transcript snapshots for one peer.
#[derive(Clone, Copy, PartialEq, Eq)]
pub struct AuthenticationTranscriptHashes {
    signature: Sha384Digest,
    finished: Sha384Digest,
}

impl AuthenticationTranscriptHashes {
    /// The transcript hash that the peer signs.
    pub closed spec fn signature_hash(&self) -> Seq<u8> {
        self.signature@
    }

    /// The transcript hash that the peer's Finished MAC covers.
    pub closed spec fn finished_hash(&self) -> Seq<u8> {
        self.finished@
    }

    pub fn signature(&self) -> (hash: &Sha384Digest)
        ensures
            hash@ == self.signature_hash(),
    {
        &self.signature
    }

    pub fn finished(&self) -> (hash: &Sha384Digest)
        ensures
            hash@ == self.finished_hash(),
    {
        &self.finished
    }

    /// Returns a text for diagnostics that shows no hash.
    pub fn debug_text(&self) -> (text: String)
        ensures
            text@ == "AuthenticationTranscriptHashes(<redacted>)"@,
    {
        fixed("AuthenticationTranscriptHashes(<redacted>)")
    }
}

/// Transcript state after processing decrypted responder authentication.
#[derive(Clone, Copy, PartialEq, Eq)]
pub struct ResponderTranscriptMilestone {
    pub authentication: AuthenticationTranscriptHashes,
    initiator_signature: Sha384Digest,
}

impl ResponderTranscriptMilestone {
    /// The transcript hashes that authenticate the responder.
    pub closed spec fn authentication_hashes(&self) -> AuthenticationTranscriptHashes {
        self.authentication
    }

    /// Returns the transcript hashes that authenticate the responder.
    pub fn authentication(&self) -> (hashes: &AuthenticationTranscriptHashes)
        ensures
            *hashes == self.authentication_hashes(),
    {
        &self.authentication
    }

    /// The transcript hash that the initiator signs.
    pub closed spec fn initiator_signature_hash(&self) -> Seq<u8> {
        self.initiator_signature@
    }

    pub fn initiator_signature(&self) -> (hash: &Sha384Digest)
        ensures
            hash@ == self.initiator_signature_hash(),
    {
        &self.initiator_signature
    }

    /// Returns a text for diagnostics that shows no hash.
    pub fn debug_text(&self) -> (text: String)
        ensures
            text@ == "ResponderTranscriptMilestone(<redacted>)"@,
    {
        fixed("ResponderTranscriptMilestone(<redacted>)")
    }
}

/// Final transcript state after processing decrypted initiator authentication.
#[derive(Clone, Copy, PartialEq, Eq)]
pub struct InitiatorTranscriptMilestone {
    pub authentication: AuthenticationTranscriptHashes,
    full: Sha384Digest,
}

impl InitiatorTranscriptMilestone {
    /// The transcript hashes that authenticate the initiator.
    pub closed spec fn authentication_hashes(&self) -> AuthenticationTranscriptHashes {
        self.authentication
    }

    /// Returns the transcript hashes that authenticate the initiator.
    pub fn authentication(&self) -> (hashes: &AuthenticationTranscriptHashes)
        ensures
            *hashes == self.authentication_hashes(),
    {
        &self.authentication
    }

    /// The hash of the whole transcript.
    pub closed spec fn full_hash(&self) -> Seq<u8> {
        self.full@
    }

    pub fn full(&self) -> (hash: &Sha384Digest)
        ensures
            hash@ == self.full_hash(),
    {
        &self.full
    }

    /// Returns a text for diagnostics that shows no hash.
    pub fn debug_text(&self) -> (text: String)
        ensures
            text@ == "InitiatorTranscriptMilestone(<redacted>)"@,
    {
        fixed("InitiatorTranscriptMilestone(<redacted>)")
    }
}

/// What a transcript remembers.
pub struct TranscriptState {
    pub stage: HandshakeTranscriptStage,
    pub absorbed: Seq<u8>,
    pub hello: Option<Hello>,
    pub server_random: Seq<u8>,
    pub cookie: Seq<u8>,
    pub pre_auth: Seq<u8>,
    pub initiator_signature: Seq<u8>,
}

/// The bytes of a cookie inside an INIT message.
pub open spec fn init_cookie(value: Seq<u8>) -> Seq<u8> {
    value.subrange(124, 124 + be16_at(value, 122))
}

/// The part of an identity plaintext in front of its Finished MAC.
pub open spec fn auth_content(plaintext: Seq<u8>) -> Seq<u8> {
    plaintext.take(IDENTITY_AUTH_CONTENT_LEN as int)
}

/// The Finished MAC of an identity plaintext.
pub open spec fn auth_mac(plaintext: Seq<u8>) -> Seq<u8> {
    plaintext.skip(IDENTITY_AUTH_CONTENT_LEN as int)
}

impl TranscriptState {
    /// The state of a transcript that holds nothing but its session context.
    pub open spec fn initial(session: SessionContext) -> TranscriptState {
        TranscriptState {
            stage: HandshakeTranscriptStage::ExpectHello,
            absorbed: record(TranscriptRecordType::SessionContext, session.encoding()),
            hello: None,
            server_random: zeroes(RANDOM_LEN as nat),
            cookie: Seq::empty(),
            pre_auth: zeroes(SHA384_OUTPUT_LEN as nat),
            initiator_signature: zeroes(SHA384_OUTPUT_LEN as nat),
        }
    }

    /// The failure of a transition that belongs to another stage, if any.
    pub open spec fn stage_failure<E>(self, expected: HandshakeTranscriptStage) -> Option<
        HandshakeTranscriptError<E>,
    > {
        if self.stage != expected {
            Some(HandshakeTranscriptError::UnexpectedStage { expected, actual: self.stage })
        } else {
            None
        }
    }

    /// The failure of recording HELLO that no provider decides, if any.
    pub open spec fn hello_failure<E>(self, value: Seq<u8>) -> Option<HandshakeTranscriptError<E>> {
        if self.stage != HandshakeTranscriptStage::ExpectHello {
            self.stage_failure(HandshakeTranscriptStage::ExpectHello)
        } else if Hello::decode_failure(value) is Some {
            Some(HandshakeTranscriptError::Handshake(Hello::decode_failure(value)->0))
        } else {
            None
        }
    }

    /// The state after HELLO.
    pub open spec fn after_hello(self, value: Seq<u8>, hello: Hello) -> TranscriptState {
        TranscriptState {
            stage: HandshakeTranscriptStage::ExpectRetry,
            absorbed: self.absorbed + record(TranscriptRecordType::Hello, value),
            hello: Some(hello),
            ..self
        }
    }

    /// The failure of recording RETRY that no provider decides, if any.
    pub open spec fn retry_failure<E>(self, value: Seq<u8>) -> Option<HandshakeTranscriptError<E>> {
        if self.stage != HandshakeTranscriptStage::ExpectRetry {
            self.stage_failure(HandshakeTranscriptStage::ExpectRetry)
        } else if Retry::decode_failure(value) is Some {
            Some(HandshakeTranscriptError::Handshake(Retry::decode_failure(value)->0))
        } else {
            None
        }
    }

    /// The state after RETRY.
    pub open spec fn after_retry(self, value: Seq<u8>) -> TranscriptState {
        TranscriptState {
            stage: HandshakeTranscriptStage::ExpectInit,
            absorbed: self.absorbed + record(TranscriptRecordType::Retry, value),
            server_random: value.take(RANDOM_LEN as int),
            cookie: value.skip(RETRY_FIXED_LEN as int),
            ..self
        }
    }

    /// Whether INIT repeats the HELLO, the random and the cookie of this handshake.
    pub open spec fn is_repeated_by(self, value: Seq<u8>) -> bool {
        &&& self.hello matches Some(hello)
        &&& hello.encoding() == value.take(HELLO_LEN as int)
        &&& self.server_random == value.subrange(90, 122)
        &&& self.cookie == init_cookie(value)
    }

    /// The failure of recording INIT that no provider decides, if any.
    pub open spec fn init_failure<E>(self, value: Seq<u8>) -> Option<HandshakeTranscriptError<E>> {
        if self.stage != HandshakeTranscriptStage::ExpectInit {
            self.stage_failure(HandshakeTranscriptStage::ExpectInit)
        } else if Init::decode_failure(value) is Some {
            Some(HandshakeTranscriptError::Handshake(Init::decode_failure(value)->0))
        } else if !self.is_repeated_by(value) {
            Some(HandshakeTranscriptError::InitDoesNotMatchRetry)
        } else {
            None
        }
    }

    /// The state after INIT.
    pub open spec fn after_init(self, value: Seq<u8>) -> TranscriptState {
        TranscriptState {
            stage: HandshakeTranscriptStage::ExpectResponse,
            absorbed: self.absorbed + record(TranscriptRecordType::Init, value),
            server_random: zeroes(RANDOM_LEN as nat),
            cookie: Seq::empty(),
            ..self
        }
    }

    /// The failure of recording RESPONSE that no provider decides, if any.
    pub open spec fn response_failure<E>(self, value: Seq<u8>) -> Option<
        HandshakeTranscriptError<E>,
    > {
        if self.stage != HandshakeTranscriptStage::ExpectResponse {
            self.stage_failure(HandshakeTranscriptStage::ExpectResponse)
        } else if Response::decode_failure(value) is Some {
            Some(HandshakeTranscriptError::Handshake(Response::decode_failure(value)->0))
        } else if self.hello is None {
            Some(HandshakeTranscriptError::InvariantViolation)
        } else if exceeds_offer(
            self.hello->0,
            be16_at(value, 0),
            be32_at(value, 2),
            be16_at(value, 6),
            value[8],
        ) {
            Some(HandshakeTranscriptError::NegotiationMismatch)
        } else {
            None
        }
    }

    /// The state after RESPONSE.
    pub open spec fn after_response(self, value: Seq<u8>, pre_auth: Seq<u8>) -> TranscriptState {
        TranscriptState {
            stage: HandshakeTranscriptStage::ExpectResponderAuth,
            absorbed: self.absorbed + record(
                TranscriptRecordType::ResponsePrefix,
                value.take(RESPONSE_FIXED_LEN as int),
            ),
            hello: None,
            pre_auth,
            ..self
        }
    }

    /// The failure of recording an identity plaintext that no provider decides, if any.
    pub open spec fn auth_failure<E>(
        self,
        expected: HandshakeTranscriptStage,
        plaintext: Seq<u8>,
    ) -> Option<HandshakeTranscriptError<E>> {
        if self.stage != expected {
            self.stage_failure(expected)
        } else if exact_failure(plaintext.len(), IDENTITY_AUTH_LEN as nat) is Some {
            Some(
                HandshakeTranscriptError::Handshake(
                    exact_failure(plaintext.len(), IDENTITY_AUTH_LEN as nat)->0,
                ),
            )
        } else {
            None
        }
    }

    /// The transcript up to and including an identity's content.
    pub open spec fn with_content(self, kind: TranscriptRecordType, plaintext: Seq<u8>) -> Seq<u8> {
        self.absorbed + record(kind, auth_content(plaintext))
    }

    /// The state after the responder's authentication.
    pub open spec fn after_responder_auth(
        self,
        plaintext: Seq<u8>,
        initiator_signature: Seq<u8>,
    ) -> TranscriptState {
        TranscriptState {
            stage: HandshakeTranscriptStage::ExpectInitiatorAuth,
            absorbed: self.with_content(TranscriptRecordType::ResponderAuthContent, plaintext)
                + record(TranscriptRecordType::ResponderFinished, auth_mac(plaintext)),
            initiator_signature,
            ..self
        }
    }

    /// The state after the initiator's authentication.
    pub open spec fn after_initiator_auth(self, plaintext: Seq<u8>) -> TranscriptState {
        TranscriptState {
            stage: HandshakeTranscriptStage::Complete,
            absorbed: self.with_content(TranscriptRecordType::InitiatorAuthContent, plaintext)
                + record(TranscriptRecordType::InitiatorFinished, auth_mac(plaintext)),
            ..self
        }
    }
}

/// Whether a negotiated suite, capability set or limit goes beyond what HELLO offered.
pub open spec fn exceeds_offer(
    hello: Hello,
    suite: u16,
    capabilities: u32,
    max_udp_payload: u16,
    max_paths: u8,
) -> bool {
    ||| hello.cipher_suite_bitmap & suite == 0
    ||| capabilities & !hello.capabilities != 0
    ||| capabilities & !KNOWN_CAPABILITY_BITS != 0
    ||| max_udp_payload > hello.max_udp_payload
    ||| max_paths > hello.max_paths
}

/// A RESPONSE is refused for its negotiation exactly when it goes beyond the HELLO: it is accepted if
/// the selected suite was offered, every negotiated capability was offered and is known, and neither
/// limit is above the offered one, and it is accepted in no other case.
pub proof fn lemma_response_stays_within_the_offer<E>(
    state: TranscriptState,
    hello: Hello,
    response: Response,
)
    requires
        state.stage == HandshakeTranscriptStage::ExpectResponse,
        state.hello == Some(hello),
        response.field_failure() is None,
    ensures
        ({
            let within_offer = {
                &&& response.selected_cipher_suite is Aes256GcmSha384 ==> hello.cipher_suite_bitmap
                    % 2 == 1
                &&& response.selected_cipher_suite is ChaCha20Poly1305Sha384 ==> (
                hello.cipher_suite_bitmap / 2) % 2 == 1
                &&& response.negotiated_capabilities & hello.capabilities
                    == response.negotiated_capabilities
                &&& response.negotiated_capabilities < 8
                &&& response.max_udp_payload <= hello.max_udp_payload
                &&& response.max_paths <= hello.max_paths
            };
            &&& state.response_failure::<E>(response.encoding()) is None <==> within_offer
            &&& !within_offer ==> state.response_failure::<E>(response.encoding()) == Some(
                HandshakeTranscriptError::<E>::NegotiationMismatch,
            )
        }),
{
    let value = response.encoding();
    let offered = hello.capabilities;
    let negotiated = response.negotiated_capabilities;
    let bitmap = hello.cipher_suite_bitmap;
    lemma_response_parts(response);
    lemma_response_round_trip(response, response);
    lemma_be32_inverse(negotiated);
    lemma_be_at_shift(value, crate::bytes::be32(negotiated), 2);
    assert(bitmap & 1 != 0 <==> bitmap % 2 == 1) by (bit_vector);
    assert(bitmap & 2 != 0 <==> (bitmap / 2) % 2 == 1) by (bit_vector);
    assert(negotiated & !offered == 0 <==> negotiated & offered == negotiated) by (bit_vector);
    assert(negotiated & !0x7u32 == 0 <==> negotiated < 8) by (bit_vector);
}

/// The cookie of a RETRY until INIT has repeated it.
struct RetainedCookie {
    bytes: [u8; MAX_RETRY_COOKIE_LEN],
    length: usize,
}

impl RetainedCookie {
    spec fn content(self) -> Seq<u8> {
        self.bytes@.take(self.length as int)
    }

    /// The cookie fits, and nothing is left behind it.
    spec fn well_formed(self) -> bool {
        &&& self.length <= MAX_RETRY_COOKIE_LEN
        &&& forall|i: int| self.length <= i < MAX_RETRY_COOKIE_LEN ==> self.bytes@[i] == 0
    }

    fn none() -> (retained: RetainedCookie)
        ensures
            retained.well_formed(),
            retained.content() == Seq::<u8>::empty(),
            retained.length == 0,
    {
        RetainedCookie { bytes: [0u8; MAX_RETRY_COOKIE_LEN], length: 0 }
    }

    fn of(cookie: &[u8]) -> (retained: RetainedCookie)
        requires
            cookie@.len() <= MAX_RETRY_COOKIE_LEN,
        ensures
            retained.well_formed(),
            retained.content() == cookie@,
    {
        let mut bytes: [u8; MAX_RETRY_COOKIE_LEN] = [0u8; MAX_RETRY_COOKIE_LEN];
        let _ = put(&mut bytes, 0, cookie);
        let retained = RetainedCookie { bytes, length: cookie.len() };
        assert(retained.content() =~= cookie@);
        retained
    }
}

/// Transactional canonical handshake transcript.
pub struct HandshakeTranscript<P: ForkableSha384Provider> {
    context: P::Context,
    stage: HandshakeTranscriptStage,
    hello: Option<Hello>,
    retry_server_random: [u8; RANDOM_LEN],
    retry_cookie: RetainedCookie,
    pre_auth: Sha384Digest,
    initiator_signature: Sha384Digest,
}

impl<P: ForkableSha384Provider> View for HandshakeTranscript<P> {
    type V = TranscriptState;

    closed spec fn view(&self) -> TranscriptState {
        TranscriptState {
            stage: self.stage,
            absorbed: self.context.fed(),
            hello: self.hello,
            server_random: self.retry_server_random@,
            cookie: self.retry_cookie.content(),
            pre_auth: self.pre_auth@,
            initiator_signature: self.initiator_signature@,
        }
    }
}

impl<P: ForkableSha384Provider> HandshakeTranscript<P> {
    #[verifier::type_invariant]
    closed spec fn cookie_is_sound(self) -> bool {
        self.retry_cookie.well_formed()
    }

    /// Starts a transcript with the canonical session-context record.
    ///
    /// # Errors
    ///
    /// Returns a session-context encoding, transcript-framing, or provider error.
    pub fn new(provider: &P, session: SessionContext<'_>) -> (started: Result<
        HandshakeTranscript<P>,
        HandshakeTranscriptError<P::Error>,
    >)
        ensures
            match session.encode_failure(MAX_SESSION_CONTEXT_LEN as nat) {
                Some(error) => started == Err::<
                    HandshakeTranscript<P>,
                    HandshakeTranscriptError<P::Error>,
                >(HandshakeTranscriptError::Transcript(error)),
                None => match started {
                    Ok(transcript) => transcript@ == TranscriptState::initial(session),
                    Err(error) => error matches HandshakeTranscriptError::Provider(error)
                        && call_ensures(
                        P::start_sha384,
                        (provider,),
                        Err::<P::Context, P::Error>(error),
                    ),
                },
            },
    {
        let mut value: [u8; MAX_SESSION_CONTEXT_LEN] = [0u8; MAX_SESSION_CONTEXT_LEN];
        let length: usize = match session.encode(&mut value) {
            Ok(length) => length,
            Err(error) => {
                return Err(HandshakeTranscriptError::Transcript(error));
            },
        };
        assert(value@.subrange(0, length as int) =~= session.encoding());
        let mut context = match provider.start_sha384() {
            Ok(context) => context,
            Err(error) => {
                return Err(HandshakeTranscriptError::Provider(error));
            },
        };
        match feed_record(
            &mut context,
            TranscriptRecordType::SessionContext,
            part(&value, 0, length),
        ) {
            Ok(()) => {},
            Err(error) => {
                return Err(HandshakeTranscriptError::Transcript(error));
            },
        }
        let transcript = HandshakeTranscript {
            context,
            stage: HandshakeTranscriptStage::ExpectHello,
            hello: None,
            retry_server_random: [0u8; RANDOM_LEN],
            retry_cookie: RetainedCookie::none(),
            pre_auth: [0u8; SHA384_OUTPUT_LEN],
            initiator_signature: [0u8; SHA384_OUTPUT_LEN],
        };
        proof {
            let expected = TranscriptState::initial(session);
            assert(transcript@.absorbed =~= expected.absorbed);
            assert(transcript@.server_random =~= expected.server_random);
            assert(transcript@.cookie =~= expected.cookie);
            assert(transcript@.pre_auth =~= expected.pre_auth);
            assert(transcript@.initiator_signature =~= expected.initiator_signature);
        }
        Ok(transcript)
    }

    /// Adds a canonical HELLO record.
    ///
    /// # Errors
    ///
    /// Returns an error for an unexpected stage, invalid `HELLO`, transcript framing failure, or
    /// provider failure. State is unchanged on error.
    pub fn record_hello(&mut self, provider: &P, value: &[u8]) -> (outcome: Result<
        (),
        HandshakeTranscriptError<P::Error>,
    >)
        ensures
            match old(self)@.hello_failure(value@) {
                Some(error) => {
                    &&& outcome == Err::<(), HandshakeTranscriptError<P::Error>>(error)
                    &&& final(self)@ == old(self)@
                },
                None => match outcome {
                    Ok(()) => {
                        &&& final(self)@.hello matches Some(hello)
                        &&& hello.encoding() == value@
                        &&& final(self)@ == old(self)@.after_hello(value@, hello)
                    },
                    Err(error) => {
                        &&& error matches HandshakeTranscriptError::Provider(error)
                        &&& forking_fails_with(provider, old(self)@.absorbed, error)
                        &&& final(self)@ == old(self)@
                    },
                },
            },
    {
        match self.require_stage(HandshakeTranscriptStage::ExpectHello) {
            Ok(()) => {},
            Err(error) => {
                return Err(error);
            },
        }
        let hello = match Hello::decode(value) {
            Ok(hello) => hello,
            Err(error) => {
                return Err(HandshakeTranscriptError::Handshake(error));
            },
        };
        let candidate = match append_record(
            provider,
            &self.context,
            TranscriptRecordType::Hello,
            value,
        ) {
            Ok(candidate) => candidate,
            Err(error) => {
                return Err(error);
            },
        };
        proof {
            use_type_invariant(&*self);
        }
        self.context = candidate;
        self.hello = Some(hello);
        self.stage = HandshakeTranscriptStage::ExpectRetry;
        Ok(())
    }

    /// Adds a canonical RETRY record and retains its bounded consistency fields.
    ///
    /// # Errors
    ///
    /// Returns an error for an unexpected stage, invalid `RETRY`, transcript framing failure, or
    /// provider failure. State is unchanged on error.
    pub fn record_retry(&mut self, provider: &P, value: &[u8]) -> (outcome: Result<
        (),
        HandshakeTranscriptError<P::Error>,
    >)
        ensures
            match old(self)@.retry_failure(value@) {
                Some(error) => {
                    &&& outcome == Err::<(), HandshakeTranscriptError<P::Error>>(error)
                    &&& final(self)@ == old(self)@
                },
                None => match outcome {
                    Ok(()) => final(self)@ == old(self)@.after_retry(value@),
                    Err(error) => {
                        &&& error matches HandshakeTranscriptError::Provider(error)
                        &&& forking_fails_with(provider, old(self)@.absorbed, error)
                        &&& final(self)@ == old(self)@
                    },
                },
            },
    {
        match self.require_stage(HandshakeTranscriptStage::ExpectRetry) {
            Ok(()) => {},
            Err(error) => {
                return Err(error);
            },
        }
        let retry = match Retry::decode(value) {
            Ok(retry) => retry,
            Err(error) => {
                return Err(HandshakeTranscriptError::Handshake(error));
            },
        };
        let candidate = match append_record(
            provider,
            &self.context,
            TranscriptRecordType::Retry,
            value,
        ) {
            Ok(candidate) => candidate,
            Err(error) => {
                return Err(error);
            },
        };
        proof {
            use_type_invariant(&*self);
        }
        let retained = RetainedCookie::of(retry.cookie);
        proof {
            assert(retry.server_random@ =~= value@.take(RANDOM_LEN as int));
            assert(retry.cookie@ =~= value@.skip(RETRY_FIXED_LEN as int));
        }
        self.context = candidate;
        self.retry_server_random = retry.server_random;
        self.retry_cookie = retained;
        self.stage = HandshakeTranscriptStage::ExpectInit;
        Ok(())
    }

    /// Adds canonical INIT after checking its repeated HELLO, random, and cookie.
    ///
    /// # Errors
    ///
    /// Returns an error for an unexpected stage, invalid or inconsistent `INIT`, transcript framing
    /// failure, or provider failure. State is unchanged on error.
    pub fn record_init(&mut self, provider: &P, value: &[u8]) -> (outcome: Result<
        (),
        HandshakeTranscriptError<P::Error>,
    >)
        ensures
            match old(self)@.init_failure(value@) {
                Some(error) => {
                    &&& outcome == Err::<(), HandshakeTranscriptError<P::Error>>(error)
                    &&& final(self)@ == old(self)@
                },
                None => match outcome {
                    Ok(()) => final(self)@ == old(self)@.after_init(value@),
                    Err(error) => {
                        &&& error matches HandshakeTranscriptError::Provider(error)
                        &&& forking_fails_with(provider, old(self)@.absorbed, error)
                        &&& final(self)@ == old(self)@
                    },
                },
            },
    {
        match self.require_stage(HandshakeTranscriptStage::ExpectInit) {
            Ok(()) => {},
            Err(error) => {
                return Err(error);
            },
        }
        let init = match Init::decode(value) {
            Ok(init) => init,
            Err(error) => {
                return Err(HandshakeTranscriptError::Handshake(error));
            },
        };
        proof {
            use_type_invariant(&*self);
            let length = init.cookie@.len() as u16;
            lemma_hello_round_trip(init.hello, init.hello);
            lemma_be16_inverse(length);
            assert(value@.take(HELLO_LEN as int) =~= init.hello.encoding());
            assert(value@.subrange(90, 122) =~= init.server_random@);
            assert(value@.subrange(122, 124) =~= crate::bytes::be16(length));
            lemma_be_at_shift(value@, crate::bytes::be16(length), 122);
            assert(init_cookie(value@) =~= init.cookie@);
            assert(self.retry_cookie.bytes@.subrange(0, self.retry_cookie.length as int)
                =~= self.retry_cookie.content());
        }
        let same_hello: bool = match &self.hello {
            Some(hello) => hellos_equal(hello, &init.hello),
            None => false,
        };
        if !same_hello || !bytes_equal(&self.retry_server_random, &init.server_random)
            || !bytes_equal(
            part(&self.retry_cookie.bytes, 0, self.retry_cookie.length),
            init.cookie,
        ) {
            return Err(HandshakeTranscriptError::InitDoesNotMatchRetry);
        }
        let candidate = match append_record(
            provider,
            &self.context,
            TranscriptRecordType::Init,
            value,
        ) {
            Ok(candidate) => candidate,
            Err(error) => {
                return Err(error);
            },
        };
        self.context = candidate;
        self.retry_server_random = [0u8; RANDOM_LEN];
        self.retry_cookie = RetainedCookie::none();
        self.stage = HandshakeTranscriptStage::ExpectResponse;
        proof {
            let expected = old(self)@.after_init(value@);
            assert(self@.server_random =~= expected.server_random);
            assert(self@.cookie =~= expected.cookie);
        }
        Ok(())
    }

    /// Adds the canonical RESPONSE prefix and returns `TH_pre_auth`.
    ///
    /// # Errors
    ///
    /// Returns an error for an unexpected stage, invalid or excessive negotiation, transcript
    /// framing failure, or provider failure. State is unchanged on error.
    pub fn record_response(&mut self, provider: &P, value: &[u8]) -> (outcome: Result<
        Sha384Digest,
        HandshakeTranscriptError<P::Error>,
    >)
        ensures
            match old(self)@.response_failure(value@) {
                Some(error) => {
                    &&& outcome == Err::<Sha384Digest, HandshakeTranscriptError<P::Error>>(error)
                    &&& final(self)@ == old(self)@
                },
                None => match outcome {
                    Ok(pre_auth) => {
                        &&& pre_auth@ == provider.sha384(final(self)@.absorbed)@
                        &&& final(self)@ == old(self)@.after_response(value@, pre_auth@)
                    },
                    Err(error) => {
                        &&& error matches HandshakeTranscriptError::Provider(error)
                        &&& forking_fails_with(provider, old(self)@.absorbed, error)
                            || snapshot_fails_with(
                            provider,
                            old(self)@.after_response(value@, old(self)@.pre_auth).absorbed,
                            error,
                        )
                        &&& final(self)@ == old(self)@
                    },
                },
            },
    {
        match self.require_stage(HandshakeTranscriptStage::ExpectResponse) {
            Ok(()) => {},
            Err(error) => {
                return Err(error);
            },
        }
        let response = match Response::decode(value) {
            Ok(response) => response,
            Err(error) => {
                return Err(HandshakeTranscriptError::Handshake(error));
            },
        };
        let hello = match self.hello {
            Some(hello) => hello,
            None => {
                return Err(HandshakeTranscriptError::InvariantViolation);
            },
        };
        let selected_bit: u16 = match response.selected_cipher_suite {
            CipherSuite::Aes256GcmSha384 => CIPHER_SUITE_AES_256_GCM_SHA384_BIT,
            CipherSuite::ChaCha20Poly1305Sha384 => CIPHER_SUITE_CHACHA20_POLY1305_SHA384_BIT,
        };
        proof {
            lemma_response_parts(response);
            lemma_be32_inverse(response.negotiated_capabilities);
            lemma_be_at_shift(value@, crate::bytes::be32(response.negotiated_capabilities), 2);
        }
        if hello.cipher_suite_bitmap & selected_bit == 0 || response.negotiated_capabilities
            & !hello.capabilities != 0 || response.negotiated_capabilities & !KNOWN_CAPABILITY_BITS
            != 0 || response.max_udp_payload > hello.max_udp_payload || response.max_paths
            > hello.max_paths {
            return Err(HandshakeTranscriptError::NegotiationMismatch);
        }
        let prefix: &[u8] = part(value, 0, RESPONSE_FIXED_LEN);
        assert(prefix@ =~= value@.take(RESPONSE_FIXED_LEN as int));
        let candidate = match append_record(
            provider,
            &self.context,
            TranscriptRecordType::ResponsePrefix,
            prefix,
        ) {
            Ok(candidate) => candidate,
            Err(error) => {
                return Err(error);
            },
        };
        let pre_auth: Sha384Digest = match provider.snapshot_sha384(&candidate) {
            Ok(digest) => digest,
            Err(error) => {
                return Err(HandshakeTranscriptError::Provider(error));
            },
        };
        proof {
            use_type_invariant(&*self);
        }
        self.context = candidate;
        self.pre_auth = pre_auth;
        self.hello = None;
        self.stage = HandshakeTranscriptStage::ExpectResponderAuth;
        Ok(pre_auth)
    }

    /// Adds decrypted responder auth content and Finished records atomically.
    ///
    /// # Errors
    ///
    /// Returns an error for an unexpected stage, invalid plaintext, transcript framing failure, or
    /// provider failure. State is unchanged on error.
    pub fn record_responder_auth(&mut self, provider: &P, plaintext: &[u8]) -> (outcome: Result<
        ResponderTranscriptMilestone,
        HandshakeTranscriptError<P::Error>,
    >)
        ensures
            match old(self)@.auth_failure(
                HandshakeTranscriptStage::ExpectResponderAuth,
                plaintext@,
            ) {
                Some(error) => {
                    &&& outcome == Err::<
                        ResponderTranscriptMilestone,
                        HandshakeTranscriptError<P::Error>,
                    >(error)
                    &&& final(self)@ == old(self)@
                },
                None => match outcome {
                    Ok(milestone) => {
                        &&& milestone.authentication_hashes().signature_hash() == old(self)@.pre_auth
                        &&& milestone.authentication_hashes().finished_hash() == provider.sha384(
                            old(self)@.with_content(
                                TranscriptRecordType::ResponderAuthContent,
                                plaintext@,
                            ),
                        )@
                        &&& milestone.initiator_signature_hash() == provider.sha384(
                            final(self)@.absorbed,
                        )@
                        &&& final(self)@ == old(self)@.after_responder_auth(
                            plaintext@,
                            milestone.initiator_signature_hash(),
                        )
                    },
                    Err(error) => {
                        &&& error matches HandshakeTranscriptError::Provider(error)
                        &&& forking_fails_with(provider, old(self)@.absorbed, error)
                            || snapshot_fails_with(
                            provider,
                            old(self)@.with_content(
                                TranscriptRecordType::ResponderAuthContent,
                                plaintext@,
                            ),
                            error,
                        ) || snapshot_fails_with(
                            provider,
                            old(self)@.after_responder_auth(
                                plaintext@,
                                old(self)@.initiator_signature,
                            ).absorbed,
                            error,
                        )
                        &&& final(self)@ == old(self)@
                    },
                },
            },
    {
        match self.require_stage(HandshakeTranscriptStage::ExpectResponderAuth) {
            Ok(()) => {},
            Err(error) => {
                return Err(error);
            },
        }
        let (candidate, finished, initiator_signature) = match append_identity(
            provider,
            &self.context,
            plaintext,
            TranscriptRecordType::ResponderAuthContent,
            TranscriptRecordType::ResponderFinished,
        ) {
            Ok(appended) => appended,
            Err(error) => {
                return Err(error);
            },
        };
        proof {
            use_type_invariant(&*self);
        }
        self.context = candidate;
        self.initiator_signature = initiator_signature;
        self.stage = HandshakeTranscriptStage::ExpectInitiatorAuth;
        Ok(
            ResponderTranscriptMilestone {
                authentication: AuthenticationTranscriptHashes {
                    signature: self.pre_auth,
                    finished,
                },
                initiator_signature,
            },
        )
    }

    /// Adds decrypted initiator auth content and Finished records atomically.
    ///
    /// # Errors
    ///
    /// Returns an error for an unexpected stage, invalid plaintext, transcript framing failure, or
    /// provider failure. State is unchanged on error.
    pub fn record_initiator_auth(&mut self, provider: &P, plaintext: &[u8]) -> (outcome: Result<
        InitiatorTranscriptMilestone,
        HandshakeTranscriptError<P::Error>,
    >)
        ensures
            match old(self)@.auth_failure(
                HandshakeTranscriptStage::ExpectInitiatorAuth,
                plaintext@,
            ) {
                Some(error) => {
                    &&& outcome == Err::<
                        InitiatorTranscriptMilestone,
                        HandshakeTranscriptError<P::Error>,
                    >(error)
                    &&& final(self)@ == old(self)@
                },
                None => match outcome {
                    Ok(milestone) => {
                        &&& milestone.authentication_hashes().signature_hash() == old(
                            self,
                        )@.initiator_signature
                        &&& milestone.authentication_hashes().finished_hash() == provider.sha384(
                            old(self)@.with_content(
                                TranscriptRecordType::InitiatorAuthContent,
                                plaintext@,
                            ),
                        )@
                        &&& milestone.full_hash() == provider.sha384(final(self)@.absorbed)@
                        &&& final(self)@ == old(self)@.after_initiator_auth(plaintext@)
                    },
                    Err(error) => {
                        &&& error matches HandshakeTranscriptError::Provider(error)
                        &&& forking_fails_with(provider, old(self)@.absorbed, error)
                            || snapshot_fails_with(
                            provider,
                            old(self)@.with_content(
                                TranscriptRecordType::InitiatorAuthContent,
                                plaintext@,
                            ),
                            error,
                        ) || snapshot_fails_with(
                            provider,
                            old(self)@.after_initiator_auth(plaintext@).absorbed,
                            error,
                        )
                        &&& final(self)@ == old(self)@
                    },
                },
            },
    {
        match self.require_stage(HandshakeTranscriptStage::ExpectInitiatorAuth) {
            Ok(()) => {},
            Err(error) => {
                return Err(error);
            },
        }
        let (candidate, finished, full) = match append_identity(
            provider,
            &self.context,
            plaintext,
            TranscriptRecordType::InitiatorAuthContent,
            TranscriptRecordType::InitiatorFinished,
        ) {
            Ok(appended) => appended,
            Err(error) => {
                return Err(error);
            },
        };
        proof {
            use_type_invariant(&*self);
        }
        self.context = candidate;
        self.stage = HandshakeTranscriptStage::Complete;
        Ok(
            InitiatorTranscriptMilestone {
                authentication: AuthenticationTranscriptHashes {
                    signature: self.initiator_signature,
                    finished,
                },
                full,
            },
        )
    }

    pub fn stage(&self) -> (stage: HandshakeTranscriptStage)
        ensures
            stage == self@.stage,
    {
        self.stage
    }

    fn require_stage(&self, expected: HandshakeTranscriptStage) -> (outcome: Result<
        (),
        HandshakeTranscriptError<P::Error>,
    >)
        ensures
            match self@.stage_failure(expected) {
                Some(error) => outcome == Err::<(), HandshakeTranscriptError<P::Error>>(error),
                None => outcome == Ok::<(), HandshakeTranscriptError<P::Error>>(()),
            },
    {
        if self.stage != expected {
            return Err(
                HandshakeTranscriptError::UnexpectedStage { expected, actual: self.stage },
            );
        }
        Ok(())
    }

    /// Returns a text for diagnostics that shows the stage and nothing else.
    pub fn debug_text(&self) -> (text: String)
        ensures
            text@ == "HandshakeTranscript { stage: "@ + self@.stage.name_text()
                + ", context: \"<redacted>\", hello: \"<redacted>\", retry_server_random: \"<redacted>\", retry_cookie: \"<redacted>\", retry_cookie_length: \"<redacted>\", pre_auth: \"<redacted>\", initiator_signature: \"<redacted>\" }"@,
    {
        fixed("HandshakeTranscript { stage: ").concat(self.stage.name()).concat(
            ", context: \"<redacted>\", hello: \"<redacted>\", retry_server_random: \"<redacted>\", retry_cookie: \"<redacted>\", retry_cookie_length: \"<redacted>\", pre_auth: \"<redacted>\", initiator_signature: \"<redacted>\" }",
        )
    }
}

/// Whether two HELLO messages are equal.
pub fn hellos_equal(left: &Hello, right: &Hello) -> (equal: bool)
    ensures
        equal == (left.encoding() == right.encoding()),
{
    proof {
        lemma_hello_round_trip(*left, *right);
        if left.client_random@ == right.client_random@ && left.identity_fingerprint@
            == right.identity_fingerprint@ {
            assert(left.client_random =~= right.client_random);
            assert(left.identity_fingerprint =~= right.identity_fingerprint);
        }
    }
    bytes_equal(&left.client_random, &right.client_random) && bytes_equal(
        &left.identity_fingerprint,
        &right.identity_fingerprint,
    ) && left.cipher_suite_bitmap == right.cipher_suite_bitmap && left.capabilities
        == right.capabilities && left.max_udp_payload == right.max_udp_payload && left.max_paths
        == right.max_paths
}

fn append_record<P: ForkableSha384Provider>(
    provider: &P,
    current: &P::Context,
    record_type: TranscriptRecordType,
    value: &[u8],
) -> (appended: Result<P::Context, HandshakeTranscriptError<P::Error>>)
    requires
        value@.len() <= u32::MAX,
    ensures
        match appended {
            Ok(context) => context.fed() == current.fed() + record(record_type, value@),
            Err(error) => error matches HandshakeTranscriptError::Provider(error)
                && forking_fails_with(provider, current.fed(), error),
        },
{
    let mut candidate = match provider.fork_sha384(current) {
        Ok(candidate) => candidate,
        Err(error) => {
            return Err(HandshakeTranscriptError::Provider(error));
        },
    };
    match feed_record(&mut candidate, record_type, value) {
        Ok(()) => Ok(candidate),
        Err(error) => Err(HandshakeTranscriptError::Transcript(error)),
    }
}

fn append_identity<P: ForkableSha384Provider>(
    provider: &P,
    current: &P::Context,
    plaintext: &[u8],
    content_type: TranscriptRecordType,
    finished_type: TranscriptRecordType,
) -> (appended: Result<
    (P::Context, Sha384Digest, Sha384Digest),
    HandshakeTranscriptError<P::Error>,
>)
    ensures
        match exact_failure(plaintext@.len(), IDENTITY_AUTH_LEN as nat) {
            Some(error) => appended == Err::<
                (P::Context, Sha384Digest, Sha384Digest),
                HandshakeTranscriptError<P::Error>,
            >(HandshakeTranscriptError::Handshake(error)),
            None => match appended {
                Ok((context, with_content, with_mac)) => {
                    let content = current.fed() + record(content_type, auth_content(plaintext@));
                    &&& context.fed() == content + record(finished_type, auth_mac(plaintext@))
                    &&& with_content@ == provider.sha384(content)@
                    &&& with_mac@ == provider.sha384(context.fed())@
                },
                Err(error) => {
                    let content = current.fed() + record(content_type, auth_content(plaintext@));
                    let complete = content + record(finished_type, auth_mac(plaintext@));
                    &&& error matches HandshakeTranscriptError::Provider(error)
                    &&& forking_fails_with(provider, current.fed(), error) || snapshot_fails_with(
                        provider,
                        content,
                        error,
                    ) || snapshot_fails_with(provider, complete, error)
                },
            },
        },
{
    match IdentityAuth::decode(plaintext) {
        Ok(_) => {},
        Err(error) => {
            return Err(HandshakeTranscriptError::Handshake(error));
        },
    }
    let content: &[u8] = part(plaintext, 0, IDENTITY_AUTH_CONTENT_LEN);
    let mac: &[u8] = part(plaintext, IDENTITY_AUTH_CONTENT_LEN, plaintext.len());
    assert(content@ =~= auth_content(plaintext@));
    assert(mac@ =~= auth_mac(plaintext@));
    let mut candidate = match append_record(provider, current, content_type, content) {
        Ok(candidate) => candidate,
        Err(error) => {
            return Err(error);
        },
    };
    let with_content: Sha384Digest = match provider.snapshot_sha384(&candidate) {
        Ok(digest) => digest,
        Err(error) => {
            return Err(HandshakeTranscriptError::Provider(error));
        },
    };
    match feed_record(&mut candidate, finished_type, mac) {
        Ok(()) => {},
        Err(error) => {
            return Err(HandshakeTranscriptError::Transcript(error));
        },
    }
    let with_mac: Sha384Digest = match provider.snapshot_sha384(&candidate) {
        Ok(digest) => digest,
        Err(error) => {
            return Err(HandshakeTranscriptError::Provider(error));
        },
    };
    Ok((candidate, with_content, with_mac))
}

/// Transactional canonical-transcript failure.
#[derive(Clone, Debug, PartialEq, Eq)]
pub enum HandshakeTranscriptError<E> {
    Handshake(HandshakeError),
    Transcript(TranscriptError),
    Provider(E),
    UnexpectedStage { expected: HandshakeTranscriptStage, actual: HandshakeTranscriptStage },
    InitDoesNotMatchRetry,
    NegotiationMismatch,
    InvariantViolation,
}

impl<E> From<HandshakeError> for HandshakeTranscriptError<E> {
    fn from(error: HandshakeError) -> (wrapped: HandshakeTranscriptError<E>) {
        HandshakeTranscriptError::Handshake(error)
    }
}

impl<E> vstd::std_specs::convert::FromSpecImpl<HandshakeError> for HandshakeTranscriptError<E> {
    open spec fn obeys_from_spec() -> bool {
        true
    }

    open spec fn from_spec(error: HandshakeError) -> HandshakeTranscriptError<E> {
        HandshakeTranscriptError::Handshake(error)
    }
}

impl<E> From<TranscriptError> for HandshakeTranscriptError<E> {
    fn from(error: TranscriptError) -> (wrapped: HandshakeTranscriptError<E>) {
        HandshakeTranscriptError::Transcript(error)
    }
}

impl<E> vstd::std_specs::convert::FromSpecImpl<TranscriptError> for HandshakeTranscriptError<E> {
    open spec fn obeys_from_spec() -> bool {
        true
    }

    open spec fn from_spec(error: TranscriptError) -> HandshakeTranscriptError<E> {
        HandshakeTranscriptError::Transcript(error)
    }
}

impl<E> HandshakeTranscriptError<E> {
    /// The diagnostic text of a failure, given the text of a provider's own failure.
    pub open spec fn message_text(self, provider_text: Seq<char>) -> Seq<char> {
        match self {
            HandshakeTranscriptError::Handshake(error) => error.message_text(),
            HandshakeTranscriptError::Transcript(error) => error.message_text(),
            HandshakeTranscriptError::Provider(_) => "transcript provider failure: "@
                + provider_text,
            HandshakeTranscriptError::UnexpectedStage { expected, actual } =>
            "unexpected handshake transcript stage "@ + actual.name_text() + ", expected "@
                + expected.name_text(),
            HandshakeTranscriptError::InitDoesNotMatchRetry =>
            "INIT does not repeat HELLO, RETRY random, and cookie"@,
            HandshakeTranscriptError::NegotiationMismatch =>
            "RESPONSE negotiation exceeds HELLO offer"@,
            HandshakeTranscriptError::InvariantViolation =>
            "handshake transcript invariant violation"@,
        }
    }

    /// Returns the diagnostic text of this failure, given the text of a provider's own failure.
    pub fn message(&self, provider_text: &str) -> (text: String)
        ensures
            text@ == self.message_text(provider_text@),
    {
        match self {
            HandshakeTranscriptError::Handshake(error) => error.message(),
            HandshakeTranscriptError::Transcript(error) => error.message(),
            HandshakeTranscriptError::Provider(_) => fixed("transcript provider failure: ").concat(
                provider_text,
            ),
            HandshakeTranscriptError::UnexpectedStage { expected, actual } => fixed(
                "unexpected handshake transcript stage ",
            ).concat(actual.name()).concat(", expected ").concat(expected.name()),
            HandshakeTranscriptError::InitDoesNotMatchRetry => fixed(
                "INIT does not repeat HELLO, RETRY random, and cookie",
            ),
            HandshakeTranscriptError::NegotiationMismatch => fixed(
                "RESPONSE negotiation exceeds HELLO offer",
            ),
            HandshakeTranscriptError::InvariantViolation => fixed(
                "handshake transcript invariant violation",
            ),
        }
    }
}

/// The messages of one handshake, as far as its transcript covers them.
pub struct HandshakeMessages {
    pub session: Seq<u8>,
    pub hello: Seq<u8>,
    pub retry: Seq<u8>,
    pub init: Seq<u8>,
    pub response_prefix: Seq<u8>,
    pub responder_content: Seq<u8>,
    pub responder_mac: Seq<u8>,
    pub initiator_content: Seq<u8>,
    pub initiator_mac: Seq<u8>,
}

impl HandshakeMessages {
    /// Whether every message fits a transcript record.
    pub open spec fn fit_records(self) -> bool {
        &&& self.session.len() <= u32::MAX
        &&& self.hello.len() <= u32::MAX
        &&& self.retry.len() <= u32::MAX
        &&& self.init.len() <= u32::MAX
        &&& self.response_prefix.len() <= u32::MAX
        &&& self.responder_content.len() <= u32::MAX
        &&& self.responder_mac.len() <= u32::MAX
        &&& self.initiator_content.len() <= u32::MAX
        &&& self.initiator_mac.len() <= u32::MAX
    }

    /// The transcript of a complete handshake: every message in order, each in its own record.
    pub open spec fn transcript(self) -> Seq<u8> {
        record(TranscriptRecordType::SessionContext, self.session) + record(
            TranscriptRecordType::Hello,
            self.hello,
        ) + record(TranscriptRecordType::Retry, self.retry) + record(
            TranscriptRecordType::Init,
            self.init,
        ) + record(TranscriptRecordType::ResponsePrefix, self.response_prefix) + record(
            TranscriptRecordType::ResponderAuthContent,
            self.responder_content,
        ) + record(TranscriptRecordType::ResponderFinished, self.responder_mac) + record(
            TranscriptRecordType::InitiatorAuthContent,
            self.initiator_content,
        ) + record(TranscriptRecordType::InitiatorFinished, self.initiator_mac)
    }

    spec fn from_mac(self) -> Seq<u8> {
        record(TranscriptRecordType::InitiatorFinished, self.initiator_mac)
    }

    spec fn from_initiator(self) -> Seq<u8> {
        record(TranscriptRecordType::InitiatorAuthContent, self.initiator_content)
            + self.from_mac()
    }

    spec fn from_responder_mac(self) -> Seq<u8> {
        record(TranscriptRecordType::ResponderFinished, self.responder_mac) + self.from_initiator()
    }

    spec fn from_responder(self) -> Seq<u8> {
        record(TranscriptRecordType::ResponderAuthContent, self.responder_content)
            + self.from_responder_mac()
    }

    spec fn from_response(self) -> Seq<u8> {
        record(TranscriptRecordType::ResponsePrefix, self.response_prefix) + self.from_responder()
    }

    spec fn from_init(self) -> Seq<u8> {
        record(TranscriptRecordType::Init, self.init) + self.from_response()
    }

    spec fn from_retry(self) -> Seq<u8> {
        record(TranscriptRecordType::Retry, self.retry) + self.from_init()
    }

    spec fn from_hello(self) -> Seq<u8> {
        record(TranscriptRecordType::Hello, self.hello) + self.from_retry()
    }
}

proof fn lemma_transcript_from_hello(messages: HandshakeMessages)
    ensures
        messages.transcript() == record(TranscriptRecordType::SessionContext, messages.session)
            + messages.from_hello(),
{
    let s0 = record(TranscriptRecordType::SessionContext, messages.session);
    let s1 = record(TranscriptRecordType::Hello, messages.hello);
    let s2 = record(TranscriptRecordType::Retry, messages.retry);
    let s3 = record(TranscriptRecordType::Init, messages.init);
    let s4 = record(TranscriptRecordType::ResponsePrefix, messages.response_prefix);
    let s5 = record(TranscriptRecordType::ResponderAuthContent, messages.responder_content);
    let s6 = record(TranscriptRecordType::ResponderFinished, messages.responder_mac);
    let s7 = record(TranscriptRecordType::InitiatorAuthContent, messages.initiator_content);
    lemma_regroup(s0 + s1 + s2 + s3 + s4 + s5 + s6, s7, messages.from_mac());
    lemma_regroup(s0 + s1 + s2 + s3 + s4 + s5, s6, messages.from_initiator());
    lemma_regroup(s0 + s1 + s2 + s3 + s4, s5, messages.from_responder_mac());
    lemma_regroup(s0 + s1 + s2 + s3, s4, messages.from_responder());
    lemma_regroup(s0 + s1 + s2, s3, messages.from_response());
    lemma_regroup(s0 + s1, s2, messages.from_init());
    lemma_regroup(s0, s1, messages.from_retry());
}

proof fn lemma_regroup(first: Seq<u8>, second: Seq<u8>, third: Seq<u8>)
    ensures
        first + second + third == first + (second + third),
{
    assert(first + second + third =~= first + (second + third));
}

/// Transcripts are equal only if the handshakes are: the transcript of a complete handshake
/// determines every message in it.
pub proof fn lemma_transcript_determines_messages(left: HandshakeMessages, right: HandshakeMessages)
    requires
        left.fit_records(),
        right.fit_records(),
        left.transcript() == right.transcript(),
    ensures
        left == right,
{
    lemma_transcript_from_hello(left);
    lemma_transcript_from_hello(right);
    lemma_record_is_prefix_free(
        TranscriptRecordType::SessionContext,
        left.session,
        left.from_hello(),
        TranscriptRecordType::SessionContext,
        right.session,
        right.from_hello(),
    );
    lemma_record_is_prefix_free(
        TranscriptRecordType::Hello,
        left.hello,
        left.from_retry(),
        TranscriptRecordType::Hello,
        right.hello,
        right.from_retry(),
    );
    lemma_record_is_prefix_free(
        TranscriptRecordType::Retry,
        left.retry,
        left.from_init(),
        TranscriptRecordType::Retry,
        right.retry,
        right.from_init(),
    );
    lemma_record_is_prefix_free(
        TranscriptRecordType::Init,
        left.init,
        left.from_response(),
        TranscriptRecordType::Init,
        right.init,
        right.from_response(),
    );
    lemma_record_is_prefix_free(
        TranscriptRecordType::ResponsePrefix,
        left.response_prefix,
        left.from_responder(),
        TranscriptRecordType::ResponsePrefix,
        right.response_prefix,
        right.from_responder(),
    );
    lemma_record_is_prefix_free(
        TranscriptRecordType::ResponderAuthContent,
        left.responder_content,
        left.from_responder_mac(),
        TranscriptRecordType::ResponderAuthContent,
        right.responder_content,
        right.from_responder_mac(),
    );
    lemma_record_is_prefix_free(
        TranscriptRecordType::ResponderFinished,
        left.responder_mac,
        left.from_initiator(),
        TranscriptRecordType::ResponderFinished,
        right.responder_mac,
        right.from_initiator(),
    );
    lemma_record_is_prefix_free(
        TranscriptRecordType::InitiatorAuthContent,
        left.initiator_content,
        left.from_mac(),
        TranscriptRecordType::InitiatorAuthContent,
        right.initiator_content,
        right.from_mac(),
    );
    let kind = TranscriptRecordType::InitiatorFinished;
    assert(left.from_mac() =~= record(kind, left.initiator_mac) + Seq::<u8>::empty());
    assert(right.from_mac() =~= record(kind, right.initiator_mac) + Seq::<u8>::empty());
    lemma_record_is_prefix_free(
        kind,
        left.initiator_mac,
        Seq::empty(),
        kind,
        right.initiator_mac,
        Seq::empty(),
    );
}

/// Recording the six messages of a handshake in order leaves exactly the canonical transcript, in
/// the final stage.
pub proof fn lemma_recorded_handshake_is_canonical(
    session: SessionContext,
    hello_value: Seq<u8>,
    hello: Hello,
    retry: Seq<u8>,
    init: Seq<u8>,
    response: Seq<u8>,
    pre_auth: Seq<u8>,
    responder_auth: Seq<u8>,
    initiator_signature: Seq<u8>,
    initiator_auth: Seq<u8>,
)
    ensures
        ({
            let complete = TranscriptState::initial(session).after_hello(
                hello_value,
                hello,
            ).after_retry(retry).after_init(init).after_response(
                response,
                pre_auth,
            ).after_responder_auth(responder_auth, initiator_signature).after_initiator_auth(
                initiator_auth,
            );
            &&& complete.stage == HandshakeTranscriptStage::Complete
            &&& complete.absorbed == (HandshakeMessages {
                session: session.encoding(),
                hello: hello_value,
                retry,
                init,
                response_prefix: response.take(RESPONSE_FIXED_LEN as int),
                responder_content: auth_content(responder_auth),
                responder_mac: auth_mac(responder_auth),
                initiator_content: auth_content(initiator_auth),
                initiator_mac: auth_mac(initiator_auth),
            }).transcript()
        }),
{
}

/// A transcript accepts messages in one order only: whatever its state, at most one of the
/// transitions is not refused, and the accepted one belongs to the current stage.
pub proof fn lemma_stages_accept_one_message<E>(
    state: TranscriptState,
    value: Seq<u8>,
)
    ensures
        state.hello_failure::<E>(value) is None ==> state.stage
            == HandshakeTranscriptStage::ExpectHello,
        state.retry_failure::<E>(value) is None ==> state.stage
            == HandshakeTranscriptStage::ExpectRetry,
        state.init_failure::<E>(value) is None ==> state.stage
            == HandshakeTranscriptStage::ExpectInit,
        state.response_failure::<E>(value) is None ==> state.stage
            == HandshakeTranscriptStage::ExpectResponse,
        forall|expected: HandshakeTranscriptStage| #[trigger]
            state.auth_failure::<E>(expected, value) is None ==> state.stage == expected,
{
}

} // verus!
