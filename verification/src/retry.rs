//! Authenticated stateless `RETRY` cookies and bounded post-cookie admission.

pub mod admission;
pub mod cookie;

use vstd::prelude::*;
use vstd::string::*;

use crate::crypto::Sha384Provider;
use crate::handshake::{Hello, HELLO_LEN, RANDOM_LEN, RETRY_FIXED_LEN};
use crate::text::{decimal, fixed, with_number, with_two_numbers};
use crate::wire::long::{LONG_HEADER_FIXED_LEN, MAX_LONG_CONNECTION_ID_LEN};
use crate::wire::{WireError, AEAD_TAG_LEN};

pub use crate::retry::admission::{
    HandshakeAdmissionError, HandshakeAdmissionLease, HandshakeAdmissionStatus,
    HandshakeAdmissionTable,
};
pub use crate::retry::cookie::{issue_retry_cookie, validate_retry_cookie, ValidatedRetryCookie};

verus! {

/// Current server-local cookie format.
pub const RETRY_COOKIE_FORMAT: u8 = 1;

/// Nonce size required from the cookie AEAD provider.
pub const RETRY_COOKIE_NONCE_LEN: usize = 12;

/// Fixed authenticated cookie size emitted by this profile.
pub const RETRY_COOKIE_LEN: usize = 226;

/// Largest possible UDP payload carrying this fixed cookie.
pub const MAX_RETRY_DATAGRAM_LEN: usize = LONG_HEADER_FIXED_LEN + 2 * MAX_LONG_CONNECTION_ID_LEN
    + RETRY_FIXED_LEN + RETRY_COOKIE_LEN;

/// Smallest valid UDP payload that can trigger one `RETRY`.
pub const MIN_HELLO_DATAGRAM_LEN: usize = LONG_HEADER_FIXED_LEN + HELLO_LEN;

/// Cookie bytes in front of the sealed payload.
pub const RETRY_COOKIE_HEADER_LEN: usize = 1 + 4 + RETRY_COOKIE_NONCE_LEN;

/// Bytes of a cookie payload before sealing.
pub const RETRY_COOKIE_PLAINTEXT_LEN: usize = 193;

/// Bytes of a sealed cookie payload.
pub const RETRY_COOKIE_SEALED_LEN: usize = RETRY_COOKIE_PLAINTEXT_LEN + AEAD_TAG_LEN;

/// A response to the smallest `HELLO` never exceeds the amplification limit of three times the
/// bytes received.
pub proof fn lemma_retry_amplification_is_bounded()
    ensures
        MAX_RETRY_DATAGRAM_LEN <= 3 * MIN_HELLO_DATAGRAM_LEN,
{
}

/// Source IP address bound into a `RETRY` cookie.
#[derive(Clone, Copy, Debug, PartialEq, Eq)]
pub enum RetrySourceAddress {
    Ipv4([u8; 4]),
    Ipv6([u8; 16]),
}

/// Complete public context authenticated by one stateless cookie.
#[derive(Clone, Copy, PartialEq, Eq)]
pub struct RetryCookieBinding<'a> {
    pub source_address: RetrySourceAddress,
    pub source_port: u16,
    pub version: u32,
    pub initiator_connection_id: &'a [u8],
    pub responder_connection_id: &'a [u8],
    pub hello: Hello,
    pub server_random: [u8; RANDOM_LEN],
}

impl<'a> RetryCookieBinding<'a> {
    /// The failure of the connection IDs, if any.
    pub open spec fn connection_id_failure(self) -> Option<WireError> {
        if self.initiator_connection_id@.len() > MAX_LONG_CONNECTION_ID_LEN {
            Some(
                WireError::ConnectionIdTooLong {
                    length: self.initiator_connection_id@.len() as usize,
                    maximum: MAX_LONG_CONNECTION_ID_LEN,
                },
            )
        } else if self.responder_connection_id@.len() > MAX_LONG_CONNECTION_ID_LEN {
            Some(
                WireError::ConnectionIdTooLong {
                    length: self.responder_connection_id@.len() as usize,
                    maximum: MAX_LONG_CONNECTION_ID_LEN,
                },
            )
        } else {
            None
        }
    }

    /// Returns a text for diagnostics that shows the version and nothing else.
    pub fn debug_text(&self) -> (text: String)
        ensures
            text@ == "RetryCookieBinding { source_address: \"<redacted>\", source_port: \"<redacted>\", version: "@
                + decimal(self.version as nat)
                + ", initiator_connection_id: \"<redacted>\", responder_connection_id: \"<redacted>\", hello: \"<redacted>\", server_random: \"<redacted>\" }"@,
    {
        with_number(
            "RetryCookieBinding { source_address: \"<redacted>\", source_port: \"<redacted>\", version: ",
            self.version as u64,
            ", initiator_connection_id: \"<redacted>\", responder_connection_id: \"<redacted>\", hello: \"<redacted>\", server_random: \"<redacted>\" }",
        )
    }
}

/// Result of authenticating and opening a cookie payload.
#[derive(Clone, Copy, Debug, PartialEq, Eq, Structural)]
pub enum RetryCookieOpenResult {
    Opened(usize),
    Invalid,
}

/// Provider boundary for the standardized AEAD used by server-local cookies.
///
/// The provider selects an audited AEAD with at least a 256-bit key and a 16-byte tag. Seal/open
/// operations authenticate the supplied context. An invalid tag is returned as
/// [`RetryCookieOpenResult::Invalid`], while backend failures use the provider error channel.
pub trait RetryCookieProvider: Sha384Provider {
    type Key;

    /// Ciphertext and tag of a cookie payload.
    ///
    /// An implementation that is verified with this library defines it.
    closed spec fn sealed_cookie(
        &self,
        key: Self::Key,
        nonce: Seq<u8>,
        additional_data: Seq<u8>,
        plaintext: Seq<u8>,
    ) -> Seq<u8> {
        vstd::pervasive::arbitrary()
    }

    /// Payload of an authentic ciphertext and tag.
    ///
    /// An implementation that is verified with this library defines it.
    closed spec fn opened_cookie(
        &self,
        key: Self::Key,
        nonce: Seq<u8>,
        additional_data: Seq<u8>,
        ciphertext: Seq<u8>,
    ) -> Option<Seq<u8>> {
        vstd::pervasive::arbitrary()
    }

    /// Seals `plaintext_length` bytes in place and appends a 16-byte tag.
    ///
    /// # Errors
    ///
    /// Returns a provider-specific error for an unusable key or backend failure.
    fn seal_retry_cookie(
        &self,
        key: &Self::Key,
        nonce: &[u8; RETRY_COOKIE_NONCE_LEN],
        additional_data: &[u8],
        plaintext_and_tag: &mut [u8],
        plaintext_length: usize,
    ) -> (sealed: Result<usize, Self::Error>)
        requires
            plaintext_length + AEAD_TAG_LEN == old(plaintext_and_tag)@.len(),
        ensures
            final(plaintext_and_tag)@.len() == old(plaintext_and_tag)@.len(),
            sealed matches Ok(length) ==> (length == plaintext_length + AEAD_TAG_LEN ==> final(plaintext_and_tag)@ == self.sealed_cookie(
                *key,
                nonce@,
                additional_data@,
                old(plaintext_and_tag)@.take(plaintext_length as int),
            )),
    ;

    /// Authenticates and opens one fixed cookie payload in place.
    ///
    /// # Errors
    ///
    /// Returns a provider-specific error only for a key/backend failure. Tag mismatch is an
    /// ordinary invalid-cookie result.
    fn open_retry_cookie(
        &self,
        key: &Self::Key,
        nonce: &[u8; RETRY_COOKIE_NONCE_LEN],
        additional_data: &[u8],
        ciphertext_and_tag: &mut [u8],
    ) -> (opened: Result<RetryCookieOpenResult, Self::Error>)
        requires
            old(ciphertext_and_tag)@.len() >= AEAD_TAG_LEN,
        ensures
            final(ciphertext_and_tag)@.len() == old(ciphertext_and_tag)@.len(),
            opened matches Ok(RetryCookieOpenResult::Invalid) ==> self.opened_cookie(
                *key,
                nonce@,
                additional_data@,
                old(ciphertext_and_tag)@,
            ) is None,
            opened matches Ok(RetryCookieOpenResult::Opened(length)) ==> (length + AEAD_TAG_LEN
                == old(ciphertext_and_tag)@.len() ==> self.opened_cookie(
                *key,
                nonce@,
                additional_data@,
                old(ciphertext_and_tag)@,
            ) == Some(final(ciphertext_and_tag)@.take(length as int))),
    ;
}

/// Time policy applied identically during issuance and validation.
#[derive(Clone, Copy, Debug, PartialEq, Eq, Structural)]
pub struct RetryCookiePolicy {
    lifetime_seconds: u64,
    maximum_clock_skew_seconds: u64,
}

impl RetryCookiePolicy {
    /// Seconds from a cookie's issue to its expiry.
    pub closed spec fn lifetime(self) -> u64 {
        self.lifetime_seconds
    }

    /// Seconds by which a cookie's issue may lie in the future.
    pub closed spec fn skew(self) -> u64 {
        self.maximum_clock_skew_seconds
    }

    /// Creates a strict non-zero cookie lifetime and bounded future-clock skew.
    ///
    /// # Errors
    ///
    /// Returns an error for a zero lifetime or skew larger than the lifetime.
    pub fn new(lifetime_seconds: u64, maximum_clock_skew_seconds: u64) -> (policy: Result<
        RetryCookiePolicy,
        RetryCookiePolicyError,
    >)
        ensures
            match policy {
                Ok(policy) => {
                    &&& 0 < lifetime_seconds
                    &&& maximum_clock_skew_seconds <= lifetime_seconds
                    &&& policy.lifetime() == lifetime_seconds
                    &&& policy.skew() == maximum_clock_skew_seconds
                },
                Err(RetryCookiePolicyError::ZeroLifetime) => lifetime_seconds == 0,
                Err(RetryCookiePolicyError::ClockSkewExceedsLifetime) => 0 < lifetime_seconds
                    < maximum_clock_skew_seconds,
            },
    {
        if lifetime_seconds == 0 {
            return Err(RetryCookiePolicyError::ZeroLifetime);
        }
        if maximum_clock_skew_seconds > lifetime_seconds {
            return Err(RetryCookiePolicyError::ClockSkewExceedsLifetime);
        }
        Ok(RetryCookiePolicy { lifetime_seconds, maximum_clock_skew_seconds })
    }

    pub fn lifetime_seconds(self) -> (seconds: u64)
        ensures
            seconds == self.lifetime(),
    {
        self.lifetime_seconds
    }

    pub fn maximum_clock_skew_seconds(self) -> (seconds: u64)
        ensures
            seconds == self.skew(),
    {
        self.maximum_clock_skew_seconds
    }
}

/// Policy configuration failure.
#[derive(Clone, Copy, Debug, PartialEq, Eq, Structural)]
pub enum RetryCookiePolicyError {
    ZeroLifetime,
    ClockSkewExceedsLifetime,
}

impl RetryCookiePolicyError {
    /// The diagnostic text of a failure.
    pub open spec fn message_text(self) -> Seq<char> {
        match self {
            RetryCookiePolicyError::ZeroLifetime => "RETRY cookie lifetime is zero"@,
            RetryCookiePolicyError::ClockSkewExceedsLifetime =>
            "RETRY cookie clock skew exceeds its lifetime"@,
        }
    }

    /// Returns the diagnostic text of this failure.
    pub fn message(&self) -> (text: String)
        ensures
            text@ == self.message_text(),
    {
        match *self {
            RetryCookiePolicyError::ZeroLifetime => fixed("RETRY cookie lifetime is zero"),
            RetryCookiePolicyError::ClockSkewExceedsLifetime => fixed(
                "RETRY cookie clock skew exceeds its lifetime",
            ),
        }
    }
}

/// What a cookie key consists of.
pub struct CookieKeyView<K> {
    pub key_id: u32,
    pub key: K,
    pub nonce_scope: [u8; 8],
    pub next_nonce_counter: u32,
    pub activate_at: u64,
    pub seal_until: u64,
    pub accept_until: u64,
}

/// One opaque cookie key and its bounded issuance/acceptance schedule.
pub struct RetryCookieKey<K> {
    key_id: u32,
    key: K,
    nonce_scope: [u8; 8],
    next_nonce_counter: u32,
    activate_at: u64,
    seal_until: u64,
    accept_until: u64,
}

impl<K> View for RetryCookieKey<K> {
    type V = CookieKeyView<K>;

    closed spec fn view(&self) -> CookieKeyView<K> {
        CookieKeyView {
            key_id: self.key_id,
            key: self.key,
            nonce_scope: self.nonce_scope,
            next_nonce_counter: self.next_nonce_counter,
            activate_at: self.activate_at,
            seal_until: self.seal_until,
            accept_until: self.accept_until,
        }
    }
}

impl<K> RetryCookieKey<K> {
    /// Installs one scheduled key with a per-key unique nonce scope.
    ///
    /// `activate_at <= issue time < seal_until <= accept_until`. The caller must allocate a scope
    /// never used by another sealing process or restored snapshot under the same key.
    ///
    /// # Errors
    ///
    /// Returns an error unless the three timestamps are strictly usable.
    pub fn new(
        key_id: u32,
        key: K,
        nonce_scope: [u8; 8],
        activate_at: u64,
        seal_until: u64,
        accept_until: u64,
    ) -> (installed: Result<RetryCookieKey<K>, RetryCookieKeyError>)
        ensures
            match installed {
                Ok(installed) => {
                    &&& activate_at < seal_until <= accept_until
                    &&& installed@ == (CookieKeyView {
                        key_id,
                        key,
                        nonce_scope,
                        next_nonce_counter: 0u32,
                        activate_at,
                        seal_until,
                        accept_until,
                    })
                },
                Err(RetryCookieKeyError::InvalidSchedule) => !(activate_at < seal_until
                    <= accept_until),
            },
    {
        if activate_at >= seal_until || seal_until > accept_until {
            return Err(RetryCookieKeyError::InvalidSchedule);
        }
        Ok(
            RetryCookieKey {
                key_id,
                key,
                nonce_scope,
                next_nonce_counter: 0,
                activate_at,
                seal_until,
                accept_until,
            },
        )
    }

    pub fn key_id(&self) -> (key_id: u32)
        ensures
            key_id == self@.key_id,
    {
        self.key_id
    }

    pub fn activate_at(&self) -> (instant: u64)
        ensures
            instant == self@.activate_at,
    {
        self.activate_at
    }

    pub fn seal_until(&self) -> (instant: u64)
        ensures
            instant == self@.seal_until,
    {
        self.seal_until
    }

    pub fn accept_until(&self) -> (instant: u64)
        ensures
            instant == self@.accept_until,
    {
        self.accept_until
    }

    /// The text of a key for diagnostics.
    pub open spec fn text_of(key: CookieKeyView<K>) -> Seq<char> {
        ("RetryCookieKey { key_id: "@ + decimal(key.key_id as nat)
            + ", key: \"<redacted>\", nonce_scope: \"<redacted>\", next_nonce_counter: \"<redacted>\", activate_at: "@
            + decimal(key.activate_at as nat) + ", seal_until: "@) + (""@ + decimal(
            key.seal_until as nat,
        ) + ", accept_until: "@ + decimal(key.accept_until as nat) + " }"@)
    }

    /// Returns a text for diagnostics that shows neither key material nor nonces.
    pub fn debug_text(&self) -> (text: String)
        ensures
            text@ == Self::text_of(self@),
    {
        with_two_numbers(
            "RetryCookieKey { key_id: ",
            self.key_id as u64,
            ", key: \"<redacted>\", nonce_scope: \"<redacted>\", next_nonce_counter: \"<redacted>\", activate_at: ",
            self.activate_at,
            ", seal_until: ",
        ).concat(
            with_two_numbers(
                "",
                self.seal_until,
                ", accept_until: ",
                self.accept_until,
                " }",
            ).as_str(),
        )
    }
}

/// Key schedule configuration failure.
#[derive(Clone, Copy, Debug, PartialEq, Eq, Structural)]
pub enum RetryCookieKeyError {
    InvalidSchedule,
}

impl RetryCookieKeyError {
    /// Returns the diagnostic text of this failure.
    pub fn message(&self) -> (text: String)
        ensures
            text@ == "invalid RETRY cookie key schedule"@,
    {
        fixed("invalid RETRY cookie key schedule")
    }
}

/// What a key ring consists of.
pub struct CookieKeyRingView<K> {
    pub active: CookieKeyView<K>,
    pub previous: Option<CookieKeyView<K>>,
}

impl<K> CookieKeyRingView<K> {
    /// The key that opens cookies of a key ID.
    pub open spec fn opening_key(self, key_id: u32) -> Option<CookieKeyView<K>> {
        if self.active.key_id == key_id {
            Some(self.active)
        } else {
            match self.previous {
                Some(previous) => if previous.key_id == key_id {
                    Some(previous)
                } else {
                    None
                },
                None => None,
            }
        }
    }

    /// The reason not to replace the active key by `next` at `now`, if any.
    pub open spec fn rotation_failure(self, next: CookieKeyView<K>, now: u64) -> Option<
        RetryCookieRotationError,
    > {
        if self.previous matches Some(previous) && now < previous.accept_until {
            Some(RetryCookieRotationError::PreviousKeyStillRequired)
        } else if now < self.active.seal_until {
            Some(RetryCookieRotationError::ActiveKeyStillSealing)
        } else if now < next.activate_at || now >= next.seal_until {
            Some(RetryCookieRotationError::NextKeyNotActive)
        } else if next.key_id == self.active.key_id || (self.previous matches Some(previous)
            && next.key_id == previous.key_id) {
            Some(RetryCookieRotationError::DuplicateKeyId)
        } else {
            None
        }
    }

    /// The ring after `next` has replaced the active key.
    pub open spec fn rotated(self, next: CookieKeyView<K>) -> CookieKeyRingView<K> {
        CookieKeyRingView { active: next, previous: Some(self.active) }
    }

    /// Whether the previous key's acceptance window has closed at `now`.
    pub open spec fn previous_is_retired(self, now: u64) -> bool {
        self.previous matches Some(previous) && now >= previous.accept_until
    }
}

/// Fixed two-generation cookie key ring.
pub struct RetryCookieKeyRing<K> {
    active: RetryCookieKey<K>,
    previous: Option<RetryCookieKey<K>>,
}

impl<K> View for RetryCookieKeyRing<K> {
    type V = CookieKeyRingView<K>;

    closed spec fn view(&self) -> CookieKeyRingView<K> {
        CookieKeyRingView {
            active: self.active@,
            previous: match self.previous {
                Some(previous) => Some(previous@),
                None => None,
            },
        }
    }
}

impl<K> RetryCookieKeyRing<K> {
    pub fn new(active: RetryCookieKey<K>) -> (ring: RetryCookieKeyRing<K>)
        ensures
            ring@ == (CookieKeyRingView { active: active@, previous: None::<CookieKeyView<K>> }),
    {
        RetryCookieKeyRing { active, previous: None }
    }

    /// Replaces the non-sealing active key and retains it for validation.
    ///
    /// # Errors
    ///
    /// Returns an error when rotation is early, the next key is not active at `now`, its ID
    /// collides, or an older validation key is still required.
    pub fn rotate(&mut self, next: RetryCookieKey<K>, now: u64) -> (outcome: Result<
        (),
        RetryCookieRotationError,
    >)
        ensures
            match old(self)@.rotation_failure(next@, now) {
                Some(error) => {
                    &&& outcome == Err::<(), RetryCookieRotationError>(error)
                    &&& final(self)@ == old(self)@
                },
                None => {
                    &&& outcome == Ok::<(), RetryCookieRotationError>(())
                    &&& final(self)@ == old(self)@.rotated(next@)
                },
            },
    {
        match &self.previous {
            Some(previous) => {
                if now < previous.accept_until {
                    return Err(RetryCookieRotationError::PreviousKeyStillRequired);
                }
            },
            None => {},
        }
        if now < self.active.seal_until {
            return Err(RetryCookieRotationError::ActiveKeyStillSealing);
        }
        if now < next.activate_at || now >= next.seal_until {
            return Err(RetryCookieRotationError::NextKeyNotActive);
        }
        if next.key_id == self.active.key_id {
            return Err(RetryCookieRotationError::DuplicateKeyId);
        }
        match &self.previous {
            Some(previous) => {
                if next.key_id == previous.key_id {
                    return Err(RetryCookieRotationError::DuplicateKeyId);
                }
            },
            None => {},
        }
        let mut replaced = next;
        core::mem::swap(&mut self.active, &mut replaced);
        self.previous = Some(replaced);
        Ok(())
    }

    /// Drops the previous key only after its acceptance window closes.
    pub fn retire_previous(&mut self, now: u64) -> (retired: bool)
        ensures
            retired == old(self)@.previous_is_retired(now),
            final(self)@ == if retired {
                CookieKeyRingView { previous: None, ..old(self)@ }
            } else {
                old(self)@
            },
    {
        let retired: bool = match &self.previous {
            Some(previous) => now >= previous.accept_until,
            None => false,
        };
        if retired {
            self.previous = None;
        }
        retired
    }

    pub fn active(&self) -> (key: &RetryCookieKey<K>)
        ensures
            key@ == self@.active,
    {
        &self.active
    }

    pub fn previous(&self) -> (key: Option<&RetryCookieKey<K>>)
        ensures
            match key {
                Some(key) => self@.previous == Some(key@),
                None => self@.previous is None,
            },
    {
        match &self.previous {
            Some(previous) => Some(previous),
            None => None,
        }
    }

    fn opening_key(&self, key_id: u32) -> (key: Option<&RetryCookieKey<K>>)
        ensures
            match key {
                Some(key) => self@.opening_key(key_id) == Some(key@),
                None => self@.opening_key(key_id) is None,
            },
    {
        if self.active.key_id == key_id {
            Some(&self.active)
        } else {
            match &self.previous {
                Some(previous) => if previous.key_id == key_id {
                    Some(previous)
                } else {
                    None
                },
                None => None,
            }
        }
    }

    /// The text of a ring for diagnostics.
    pub open spec fn text_of(ring: CookieKeyRingView<K>) -> Seq<char> {
        "RetryCookieKeyRing { active: "@ + RetryCookieKey::<K>::text_of(ring.active)
            + match ring.previous {
            Some(previous) => ", previous: Some("@ + RetryCookieKey::<K>::text_of(previous)
                + ") }"@,
            None => ", previous: None }"@,
        }
    }

    /// Returns a text for diagnostics that shows neither key material nor nonces.
    pub fn debug_text(&self) -> (text: String)
        ensures
            text@ == Self::text_of(self@),
    {
        let active: String = fixed("RetryCookieKeyRing { active: ").concat(
            self.active.debug_text().as_str(),
        );
        match &self.previous {
            Some(previous) => {
                let kept: String = fixed(", previous: Some(").concat(
                    previous.debug_text().as_str(),
                ).concat(") }");
                active.concat(kept.as_str())
            },
            None => active.concat(", previous: None }"),
        }
    }
}

/// Rotation keeps exactly the replaced key for validation: cookies of the replaced and of the new
/// key can be opened, and those of every other key cannot.
pub proof fn lemma_rotation_retains_one_generation<K>(
    ring: CookieKeyRingView<K>,
    next: CookieKeyView<K>,
    now: u64,
)
    requires
        ring.rotation_failure(next, now) is None,
    ensures
        ring.rotated(next).opening_key(ring.active.key_id) == Some(ring.active),
        ring.rotated(next).opening_key(next.key_id) == Some(next),
        forall|key_id: u32|
            key_id != ring.active.key_id && key_id != next.key_id ==> ring.rotated(
                next,
            ).opening_key(key_id) is None,
{
}

/// Rotation never drops a key that may still have to open cookies.
pub proof fn lemma_rotation_drops_only_expired_keys<K>(
    ring: CookieKeyRingView<K>,
    next: CookieKeyView<K>,
    now: u64,
    key_id: u32,
)
    requires
        ring.rotation_failure(next, now) is None,
    ensures
        ring.opening_key(key_id) matches Some(key) ==> (ring.rotated(next).opening_key(key_id)
            == Some(key) || now >= key.accept_until),
{
}

/// Key-rotation failure.
#[derive(Clone, Copy, Debug, PartialEq, Eq, Structural)]
pub enum RetryCookieRotationError {
    PreviousKeyStillRequired,
    ActiveKeyStillSealing,
    NextKeyNotActive,
    DuplicateKeyId,
}

impl RetryCookieRotationError {
    /// The diagnostic text of a failure.
    pub open spec fn message_text(self) -> Seq<char> {
        match self {
            RetryCookieRotationError::PreviousKeyStillRequired =>
            "previous RETRY cookie key is still required"@,
            RetryCookieRotationError::ActiveKeyStillSealing =>
            "active RETRY cookie key is still sealing"@,
            RetryCookieRotationError::NextKeyNotActive => "next RETRY cookie key is not active"@,
            RetryCookieRotationError::DuplicateKeyId => "duplicate RETRY cookie key ID"@,
        }
    }

    /// Returns the diagnostic text of this failure.
    pub fn message(&self) -> (text: String)
        ensures
            text@ == self.message_text(),
    {
        match *self {
            RetryCookieRotationError::PreviousKeyStillRequired => fixed(
                "previous RETRY cookie key is still required",
            ),
            RetryCookieRotationError::ActiveKeyStillSealing => fixed(
                "active RETRY cookie key is still sealing",
            ),
            RetryCookieRotationError::NextKeyNotActive => fixed(
                "next RETRY cookie key is not active",
            ),
            RetryCookieRotationError::DuplicateKeyId => fixed("duplicate RETRY cookie key ID"),
        }
    }
}

/// Cookie issuance or validation failure.
#[derive(Clone, Debug, PartialEq, Eq)]
pub enum RetryCookieError<E> {
    Wire(WireError),
    Handshake(crate::handshake::HandshakeError),
    Provider(E),
    ActiveKeyNotUsable,
    LifetimeExceedsKeyWindow,
    TimeOverflow,
    NonceExhausted,
    InvalidCookieLength(usize),
    UnknownFormat(u8),
    UnknownKey(u32),
    AuthenticationFailed,
    ProviderLengthMismatch { expected: usize, actual: usize },
    InvalidPlaintext,
    LifetimeMismatch,
    NotYetValid,
    Expired,
    KeyOutsideAcceptanceWindow,
    BindingMismatch,
    InvalidSourcePort,
}

impl<E> From<WireError> for RetryCookieError<E> {
    fn from(error: WireError) -> (wrapped: RetryCookieError<E>) {
        RetryCookieError::Wire(error)
    }
}

impl<E> vstd::std_specs::convert::FromSpecImpl<WireError> for RetryCookieError<E> {
    open spec fn obeys_from_spec() -> bool {
        true
    }

    open spec fn from_spec(error: WireError) -> RetryCookieError<E> {
        RetryCookieError::Wire(error)
    }
}

impl<E> RetryCookieError<E> {
    /// The diagnostic text of a failure, given the text of a provider's own failure.
    pub open spec fn message_text(self, provider_text: Seq<char>) -> Seq<char> {
        match self {
            RetryCookieError::Wire(error) => error.message_text(),
            RetryCookieError::Handshake(error) => error.message_text(),
            RetryCookieError::Provider(_) => "RETRY cookie provider failure: "@ + provider_text,
            RetryCookieError::ActiveKeyNotUsable => "active RETRY cookie key not usable"@,
            RetryCookieError::LifetimeExceedsKeyWindow =>
            "RETRY cookie lifetime exceeds key acceptance window"@,
            RetryCookieError::TimeOverflow => "RETRY cookie timestamp overflow"@,
            RetryCookieError::NonceExhausted => "RETRY cookie nonce space exhausted"@,
            RetryCookieError::InvalidCookieLength(length) => "invalid RETRY cookie length "@
                + decimal(length as nat) + ""@,
            RetryCookieError::UnknownFormat(format) => "unknown RETRY cookie format "@ + decimal(
                format as nat,
            ) + ""@,
            RetryCookieError::UnknownKey(key_id) => "unknown RETRY cookie key "@ + decimal(
                key_id as nat,
            ) + ""@,
            RetryCookieError::AuthenticationFailed => "RETRY cookie authentication failed"@,
            RetryCookieError::ProviderLengthMismatch { expected, actual } =>
            "RETRY cookie provider length mismatch: expected "@ + decimal(expected as nat)
                + ", got "@ + decimal(actual as nat) + ""@,
            RetryCookieError::InvalidPlaintext => "invalid RETRY cookie plaintext"@,
            RetryCookieError::LifetimeMismatch => "RETRY cookie lifetime mismatch"@,
            RetryCookieError::NotYetValid => "RETRY cookie issued in the future"@,
            RetryCookieError::Expired => "RETRY cookie expired"@,
            RetryCookieError::KeyOutsideAcceptanceWindow =>
            "RETRY cookie key outside acceptance window"@,
            RetryCookieError::BindingMismatch => "RETRY cookie binding mismatch"@,
            RetryCookieError::InvalidSourcePort => "invalid zero UDP source port"@,
        }
    }

    /// Returns the diagnostic text of this failure, given the text of a provider's own failure.
    pub fn message(&self, provider_text: &str) -> (text: String)
        ensures
            text@ == self.message_text(provider_text@),
    {
        match self {
            RetryCookieError::Wire(error) => error.message(),
            RetryCookieError::Handshake(error) => error.message(),
            RetryCookieError::Provider(_) => fixed("RETRY cookie provider failure: ").concat(
                provider_text,
            ),
            RetryCookieError::ActiveKeyNotUsable => fixed("active RETRY cookie key not usable"),
            RetryCookieError::LifetimeExceedsKeyWindow => fixed(
                "RETRY cookie lifetime exceeds key acceptance window",
            ),
            RetryCookieError::TimeOverflow => fixed("RETRY cookie timestamp overflow"),
            RetryCookieError::NonceExhausted => fixed("RETRY cookie nonce space exhausted"),
            RetryCookieError::InvalidCookieLength(length) => with_number(
                "invalid RETRY cookie length ",
                *length as u64,
                "",
            ),
            RetryCookieError::UnknownFormat(format) => with_number(
                "unknown RETRY cookie format ",
                *format as u64,
                "",
            ),
            RetryCookieError::UnknownKey(key_id) => with_number(
                "unknown RETRY cookie key ",
                *key_id as u64,
                "",
            ),
            RetryCookieError::AuthenticationFailed => fixed("RETRY cookie authentication failed"),
            RetryCookieError::ProviderLengthMismatch { expected, actual } => with_two_numbers(
                "RETRY cookie provider length mismatch: expected ",
                *expected as u64,
                ", got ",
                *actual as u64,
                "",
            ),
            RetryCookieError::InvalidPlaintext => fixed("invalid RETRY cookie plaintext"),
            RetryCookieError::LifetimeMismatch => fixed("RETRY cookie lifetime mismatch"),
            RetryCookieError::NotYetValid => fixed("RETRY cookie issued in the future"),
            RetryCookieError::Expired => fixed("RETRY cookie expired"),
            RetryCookieError::KeyOutsideAcceptanceWindow => fixed(
                "RETRY cookie key outside acceptance window",
            ),
            RetryCookieError::BindingMismatch => fixed("RETRY cookie binding mismatch"),
            RetryCookieError::InvalidSourcePort => fixed("invalid zero UDP source port"),
        }
    }
}

} // verus!
