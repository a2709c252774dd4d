//! Issuing and validating stateless cookies.

use vstd::prelude::*;
use vstd::string::*;

use crate::bytes::{
    be16, be16_at, be32, be32_at, be64, be64_at, group_buffer_writes, lemma_be16_inverse,
    lemma_be16_of_bytes, lemma_be32_inverse, lemma_be32_of_bytes, lemma_be64_inverse,
    lemma_be_at_shift, overwrite_prefix, zeroes,
};
use crate::bytes::{
    bytes_equal, clear, clear_prefix, get_array, get_u16,
    get_u32, get_u64, part, put, put_u16, put_u32, put_u64, put_u8,
};
use crate::crypto::{hashing_fails_with, Sha384Digest, Sha384Provider, SHA384_OUTPUT_LEN};
use crate::handshake::{Hello, HELLO_LEN, RANDOM_LEN};
use crate::retry::{
    CookieKeyRingView, CookieKeyView, RetryCookieBinding, RetryCookieError, RetryCookieKey,
    RetryCookieKeyRing, RetryCookieOpenResult, RetryCookiePolicy, RetryCookieProvider,
    RetrySourceAddress, RETRY_COOKIE_FORMAT, RETRY_COOKIE_HEADER_LEN, RETRY_COOKIE_LEN,
    RETRY_COOKIE_NONCE_LEN, RETRY_COOKIE_PLAINTEXT_LEN, RETRY_COOKIE_SEALED_LEN,
};
use crate::text::{decimal, with_two_numbers};
use crate::transcript::TranscriptSink;
use crate::wire::long::MAX_LONG_CONNECTION_ID_LEN;
use crate::wire::WireError;

verus! {

/// Domain separator in front of the cookie header.
pub const RETRY_COOKIE_AAD_CONTEXT: &'static str = "OGTP/1 retry cookie\0";

const RETRY_COOKIE_AAD_LEN: usize = 20 + RETRY_COOKIE_HEADER_LEN;

const ISSUED_AT_OFFSET: usize = 0;

const EXPIRES_AT_OFFSET: usize = 8;

const ADDRESS_FAMILY_OFFSET: usize = 16;

const ADDRESS_OFFSET: usize = 17;

const SOURCE_PORT_OFFSET: usize = 33;

const VERSION_OFFSET: usize = 35;

const INITIATOR_CID_LENGTH_OFFSET: usize = 39;

const INITIATOR_CID_OFFSET: usize = 40;

const RESPONDER_CID_LENGTH_OFFSET: usize = 60;

const RESPONDER_CID_OFFSET: usize = 61;

const CLIENT_RANDOM_OFFSET: usize = 81;

const SERVER_RANDOM_OFFSET: usize = 113;

const HELLO_HASH_OFFSET: usize = 145;

/// Bytes of an address in a cookie payload.
pub const ADDRESS_LEN: usize = 17;

const BINDING_LEN: usize = 65;

/// Canonical bytes of an address: its family and the address itself, filled up with zeroes.
pub open spec fn address_bytes(address: RetrySourceAddress) -> Seq<u8> {
    match address {
        RetrySourceAddress::Ipv4(address) => seq![4u8] + address@ + zeroes(12),
        RetrySourceAddress::Ipv6(address) => seq![6u8] + address@,
    }
}

/// A connection ID filled up with zeroes.
pub open spec fn padded(connection_id: Seq<u8>) -> Seq<u8> {
    connection_id + zeroes((MAX_LONG_CONNECTION_ID_LEN - connection_id.len()) as nat)
}

/// Canonical bytes of the endpoints, the version and the connection IDs of a binding.
pub open spec fn binding_bytes(binding: RetryCookieBinding) -> Seq<u8> {
    address_bytes(binding.source_address) + be16(binding.source_port) + be32(binding.version)
        + seq![binding.initiator_connection_id@.len() as u8] + padded(
        binding.initiator_connection_id@,
    ) + seq![binding.responder_connection_id@.len() as u8] + padded(
        binding.responder_connection_id@,
    )
}

/// The bytes by which an admitted handshake is recognised.
pub open spec fn identity_bytes(binding: RetryCookieBinding, hello_hash: Seq<u8>) -> Seq<u8> {
    binding_bytes(binding) + binding.server_random@ + hello_hash
}

/// A cookie's payload apart from its two timestamps.
pub open spec fn context_bytes(binding: RetryCookieBinding, hello_hash: Seq<u8>) -> Seq<u8> {
    binding_bytes(binding) + binding.hello.client_random@ + binding.server_random@ + hello_hash
}

/// A cookie's payload.
pub open spec fn cookie_plaintext(
    binding: RetryCookieBinding,
    issued_at: u64,
    expires_at: u64,
    hello_hash: Seq<u8>,
) -> Seq<u8> {
    be64(issued_at) + be64(expires_at) + binding_bytes(binding) + binding.hello.client_random@
        + binding.server_random@ + hello_hash
}

/// The nonce that a key seals its next cookie with.
pub open spec fn next_nonce<K>(key: CookieKeyView<K>) -> Seq<u8> {
    key.nonce_scope@ + be32(key.next_nonce_counter)
}

/// The bytes of a cookie in front of its sealed payload.
pub open spec fn cookie_header(key_id: u32, nonce: Seq<u8>) -> Seq<u8> {
    seq![RETRY_COOKIE_FORMAT] + be32(key_id) + nonce
}

/// The bytes that a cookie authenticates besides its payload.
pub open spec fn cookie_additional_data(header: Seq<u8>) -> Seq<u8> {
    RETRY_COOKIE_AAD_CONTEXT.spec_bytes() + header
}

/// The cookie that a key seals next for a payload.
pub open spec fn sealed_cookie<P: RetryCookieProvider>(
    provider: &P,
    key: CookieKeyView<P::Key>,
    plaintext: Seq<u8>,
) -> Seq<u8> {
    let nonce = next_nonce(key);
    let header = cookie_header(key.key_id, nonce);
    header + provider.sealed_cookie(key.key, nonce, cookie_additional_data(header), plaintext)
}

/// The hash of a HELLO.
pub open spec fn hello_hash_of<P: Sha384Provider>(provider: &P, hello: Hello) -> Seq<u8> {
    provider.sha384(hello.encoding())@
}

/// Whether a provider can answer so when it seals a payload under a key's next nonce.
pub open spec fn sealing_answers<P: RetryCookieProvider>(
    provider: &P,
    key: CookieKeyView<P::Key>,
    plaintext: Seq<u8>,
    answer: Result<usize, P::Error>,
) -> bool {
    exists|
        nonce: [u8; RETRY_COOKIE_NONCE_LEN],
        additional_data: &[u8],
        target: &mut [u8],
    | {
        &&& nonce@ == next_nonce(key)
        &&& additional_data@ == cookie_additional_data(cookie_header(key.key_id, next_nonce(key)))
        &&& target@.take(RETRY_COOKIE_PLAINTEXT_LEN as int) == plaintext
        &&& #[trigger] call_ensures(
            P::seal_retry_cookie,
            (provider, &key.key, &nonce, additional_data, target, RETRY_COOKIE_PLAINTEXT_LEN),
            answer,
        )
    }
}

/// The ring after its active key has reserved one nonce.
pub open spec fn with_nonce_reserved<K>(ring: CookieKeyRingView<K>) -> CookieKeyRingView<K> {
    CookieKeyRingView {
        active: CookieKeyView {
            next_nonce_counter: (ring.active.next_nonce_counter + 1) as u32,
            ..ring.active
        },
        previous: ring.previous,
    }
}

/// The failure of issuing a cookie that no provider decides, if any: the checks in order.
pub open spec fn issue_failure<K, E>(
    ring: CookieKeyRingView<K>,
    policy: RetryCookiePolicy,
    binding: RetryCookieBinding,
    now: u64,
    available: nat,
) -> Option<RetryCookieError<E>> {
    if available < RETRY_COOKIE_LEN {
        Some(
            RetryCookieError::Wire(
                WireError::BufferTooSmall {
                    needed: RETRY_COOKIE_LEN,
                    available: available as usize,
                },
            ),
        )
    } else if binding.connection_id_failure() is Some {
        Some(RetryCookieError::Wire(binding.connection_id_failure()->0))
    } else if binding.source_port == 0 {
        Some(RetryCookieError::InvalidSourcePort)
    } else if now < ring.active.activate_at || now >= ring.active.seal_until {
        Some(RetryCookieError::ActiveKeyNotUsable)
    } else if now + policy.lifetime() > u64::MAX {
        Some(RetryCookieError::TimeOverflow)
    } else if now + policy.lifetime() > ring.active.accept_until {
        Some(RetryCookieError::LifetimeExceedsKeyWindow)
    } else if binding.hello.field_failure() is Some {
        Some(RetryCookieError::Handshake(binding.hello.field_failure()->0))
    } else {
        None
    }
}

/// Issues one fixed authenticated cookie into caller-owned storage.
///
/// The active per-key nonce counter is reserved before sealing and is never rolled back after a
/// provider failure.
///
/// # Errors
///
/// Returns an error for invalid binding/output, inactive key schedule, time overflow, exhausted
/// nonce space, lifetime/key-window mismatch, hash/provider failure, or provider output-length
/// mismatch.
pub fn issue_retry_cookie<P: RetryCookieProvider>(
    provider: &P,
    key_ring: &mut RetryCookieKeyRing<P::Key>,
    policy: RetryCookiePolicy,
    binding: &RetryCookieBinding<'_>,
    now: u64,
    output: &mut [u8],
) -> (issued: Result<usize, RetryCookieError<P::Error>>)
    ensures
        match issue_failure(old(key_ring)@, policy, *binding, now, old(output)@.len()) {
            Some(error) => {
                &&& issued == Err::<usize, RetryCookieError<P::Error>>(error)
                &&& final(key_ring)@ == old(key_ring)@
                &&& final(output)@ == old(output)@
            },
            None => {
                let key = old(key_ring)@.active;
                let plaintext = cookie_plaintext(
                    *binding,
                    now,
                    (now + policy.lifetime()) as u64,
                    hello_hash_of(provider, binding.hello),
                );
                match issued {
                    Ok(length) => {
                        let cookie = sealed_cookie(provider, key, plaintext);
                        &&& length == RETRY_COOKIE_LEN
                        &&& key.next_nonce_counter < u32::MAX
                        &&& final(key_ring)@ == with_nonce_reserved(old(key_ring)@)
                        &&& final(output)@ == overwrite_prefix(old(output)@, cookie)
                        &&& cookie.len() == RETRY_COOKIE_LEN
                    },
                    Err(RetryCookieError::NonceExhausted) => {
                        &&& key.next_nonce_counter == u32::MAX
                        &&& final(key_ring)@ == old(key_ring)@
                        &&& final(output)@ == old(output)@
                    },
                    Err(RetryCookieError::ProviderLengthMismatch { expected, actual }) => {
                        &&& expected == RETRY_COOKIE_SEALED_LEN && actual != expected
                        &&& sealing_answers(provider, key, plaintext, Ok(actual))
                        &&& key.next_nonce_counter < u32::MAX
                        &&& final(key_ring)@ == with_nonce_reserved(old(key_ring)@)
                        &&& final(output)@ == overwrite_prefix(
                            old(output)@,
                            zeroes(RETRY_COOKIE_LEN as nat),
                        )
                    },
                    Err(RetryCookieError::Provider(error)) => {
                        ||| {
                            &&& hashing_fails_with(provider, binding.hello.encoding(), error)
                            &&& final(key_ring)@ == old(key_ring)@
                            &&& final(output)@ == old(output)@
                        }
                        ||| {
                            &&& sealing_answers(provider, key, plaintext, Err(error))
                            &&& key.next_nonce_counter < u32::MAX
                            &&& final(key_ring)@ == with_nonce_reserved(old(key_ring)@)
                            &&& final(output)@ == overwrite_prefix(
                                old(output)@,
                                zeroes(RETRY_COOKIE_LEN as nat),
                            )
                        }
                    },
                    Err(_) => false,
                }
            },
        },
{
    broadcast use group_buffer_writes;

    if output.len() < RETRY_COOKIE_LEN {
        return Err(
            RetryCookieError::Wire(
                WireError::BufferTooSmall { needed: RETRY_COOKIE_LEN, available: output.len() },
            ),
        );
    }
    match validate_binding(binding) {
        Ok(()) => {},
        Err(error) => {
            return Err(RetryCookieError::Wire(error));
        },
    }
    if binding.source_port == 0 {
        return Err(RetryCookieError::InvalidSourcePort);
    }
    if now < key_ring.active.activate_at || now >= key_ring.active.seal_until {
        return Err(RetryCookieError::ActiveKeyNotUsable);
    }
    let expires_at: u64 = match now.checked_add(policy.lifetime_seconds()) {
        Some(expires_at) => expires_at,
        None => {
            return Err(RetryCookieError::TimeOverflow);
        },
    };
    if expires_at > key_ring.active.accept_until {
        return Err(RetryCookieError::LifetimeExceedsKeyWindow);
    }
    let hello_hash: Sha384Digest = match hash_hello(provider, binding.hello) {
        Ok(digest) => digest,
        Err(error) => {
            return Err(error);
        },
    };
    let mut plaintext: [u8; RETRY_COOKIE_PLAINTEXT_LEN] = match encode_plaintext(
        binding,
        now,
        expires_at,
        &hello_hash,
    ) {
        Ok(plaintext) => plaintext,
        Err(error) => {
            return Err(RetryCookieError::Wire(error));
        },
    };
    let ghost payload = plaintext@;
    let counter: u32 = key_ring.active.next_nonce_counter;
    let next_counter: u32 = match counter.checked_add(1) {
        Some(next_counter) => next_counter,
        None => {
            return Err(RetryCookieError::NonceExhausted);
        },
    };
    key_ring.active.next_nonce_counter = next_counter;
    let mut nonce: [u8; RETRY_COOKIE_NONCE_LEN] = [0u8; RETRY_COOKIE_NONCE_LEN];
    let mut at: usize = put(&mut nonce, 0, &key_ring.active.nonce_scope);
    at = put_u32(&mut nonce, at, counter);
    assert(nonce@ =~= next_nonce(old(key_ring)@.active));
    let mut header: [u8; RETRY_COOKIE_HEADER_LEN] = [0u8; RETRY_COOKIE_HEADER_LEN];
    at = put_u8(&mut header, 0, RETRY_COOKIE_FORMAT);
    at = put_u32(&mut header, at, key_ring.active.key_id);
    at = put(&mut header, at, &nonce);
    assert(header@ =~= cookie_header(key_ring@.active.key_id, nonce@));
    at = put(output, 0, &header);
    at = put(output, at, &plaintext);
    clear(&mut plaintext);
    let aad: [u8; RETRY_COOKIE_AAD_LEN] = cookie_aad(&header);
    let ghost written = output@;
    let sealed = {
        let (_, body) = output.split_at_mut(RETRY_COOKIE_HEADER_LEN);
        let (target, _) = body.split_at_mut(RETRY_COOKIE_SEALED_LEN);
        assert(target@.take(RETRY_COOKIE_PLAINTEXT_LEN as int) =~= payload);
        provider.seal_retry_cookie(
            &key_ring.active.key,
            &nonce,
            &aad,
            target,
            RETRY_COOKIE_PLAINTEXT_LEN,
        )
    };
    proof {
        assert(output@.len() == old(output)@.len());
        assert(output@.skip(RETRY_COOKIE_LEN as int) =~= old(output)@.skip(
            RETRY_COOKIE_LEN as int,
        ));
        assert(output@.take(RETRY_COOKIE_HEADER_LEN as int) =~= header@);
        let sealed_part = output@.subrange(
            RETRY_COOKIE_HEADER_LEN as int,
            RETRY_COOKIE_LEN as int,
        );
        assert(output@ =~= overwrite_prefix(old(output)@, header@ + sealed_part));
        assert(overwrite_prefix(output@, zeroes(RETRY_COOKIE_LEN as nat)) =~= overwrite_prefix(
            old(output)@,
            zeroes(RETRY_COOKIE_LEN as nat),
        ));
        assert(key_ring@ == with_nonce_reserved(old(key_ring)@));
    }
    settle_sealed_cookie(sealed, output)
}

/// Judges a provider's answer to sealing a cookie: unless it reports exactly the expected length,
/// the cookie is erased.
///
/// # Errors
///
/// Returns the provider's failure, or a length mismatch.
pub fn settle_sealed_cookie<E>(sealed: Result<usize, E>, output: &mut [u8]) -> (issued: Result<
    usize,
    RetryCookieError<E>,
>)
    requires
        old(output)@.len() >= RETRY_COOKIE_LEN,
    ensures
        match sealed {
            Ok(length) => if length == RETRY_COOKIE_SEALED_LEN {
                &&& issued == Ok::<usize, RetryCookieError<E>>(RETRY_COOKIE_LEN)
                &&& final(output)@ == old(output)@
            } else {
                &&& issued == Err::<usize, RetryCookieError<E>>(
                    RetryCookieError::ProviderLengthMismatch {
                        expected: RETRY_COOKIE_SEALED_LEN,
                        actual: length,
                    },
                )
                &&& final(output)@ == overwrite_prefix(
                    old(output)@,
                    zeroes(RETRY_COOKIE_LEN as nat),
                )
            },
            Err(error) => {
                &&& issued == Err::<usize, RetryCookieError<E>>(RetryCookieError::Provider(error))
                &&& final(output)@ == overwrite_prefix(
                    old(output)@,
                    zeroes(RETRY_COOKIE_LEN as nat),
                )
            },
        },
{
    match sealed {
        Ok(length) => {
            if length != RETRY_COOKIE_SEALED_LEN {
                clear_prefix(output, RETRY_COOKIE_LEN);
                return Err(
                    RetryCookieError::ProviderLengthMismatch {
                        expected: RETRY_COOKIE_SEALED_LEN,
                        actual: length,
                    },
                );
            }
            Ok(RETRY_COOKIE_LEN)
        },
        Err(error) => {
            clear_prefix(output, RETRY_COOKIE_LEN);
            Err(RetryCookieError::Provider(error))
        },
    }
}

/// What a validated cookie vouches for.
pub struct ValidatedCookieView {
    pub key_id: u32,
    pub issued_at: u64,
    pub expires_at: u64,
    pub validated_at: u64,
    pub identity: Seq<u8>,
}

#[derive(Clone, Copy, PartialEq, Eq)]
struct OwnedRetryBinding {
    source_address: RetrySourceAddress,
    source_port: u16,
    version: u32,
    initiator_connection_id: [u8; MAX_LONG_CONNECTION_ID_LEN],
    initiator_connection_id_length: u8,
    responder_connection_id: [u8; MAX_LONG_CONNECTION_ID_LEN],
    responder_connection_id_length: u8,
}

impl OwnedRetryBinding {
    spec fn endpoints(self) -> BoundEndpoints {
        BoundEndpoints {
            family: family_of(self.source_address),
            address: octets_of(self.source_address),
            source_port: self.source_port,
            version: self.version,
            initiator_connection_id: self.initiator_connection_id@.take(
                self.initiator_connection_id_length as int,
            ),
            responder_connection_id: self.responder_connection_id@.take(
                self.responder_connection_id_length as int,
            ),
        }
    }

    spec fn bytes(self) -> Seq<u8> {
        address_bytes(self.source_address) + be16(self.source_port) + be32(self.version)
            + seq![self.initiator_connection_id_length] + self.initiator_connection_id@
            + seq![self.responder_connection_id_length] + self.responder_connection_id@
    }

    fn from_borrowed(binding: &RetryCookieBinding<'_>) -> (owned: Result<
        OwnedRetryBinding,
        WireError,
    >)
        ensures
            match binding.connection_id_failure() {
                Some(error) => owned == Err::<OwnedRetryBinding, WireError>(error),
                None => owned matches Ok(owned) && owned.bytes() == binding_bytes(*binding)
                    && owned.endpoints() == endpoints_of(*binding),
            },
    {
        match validate_binding(binding) {
            Ok(()) => {},
            Err(error) => {
                return Err(error);
            },
        }
        let mut initiator_connection_id: [u8; MAX_LONG_CONNECTION_ID_LEN] = [0u8;
            MAX_LONG_CONNECTION_ID_LEN];
        let _ = put(&mut initiator_connection_id, 0, binding.initiator_connection_id);
        assert(initiator_connection_id@ =~= padded(binding.initiator_connection_id@));
        let mut responder_connection_id: [u8; MAX_LONG_CONNECTION_ID_LEN] = [0u8;
            MAX_LONG_CONNECTION_ID_LEN];
        let _ = put(&mut responder_connection_id, 0, binding.responder_connection_id);
        assert(responder_connection_id@ =~= padded(binding.responder_connection_id@));
        let owned = OwnedRetryBinding {
            source_address: binding.source_address,
            source_port: binding.source_port,
            version: binding.version,
            initiator_connection_id,
            initiator_connection_id_length: binding.initiator_connection_id.len() as u8,
            responder_connection_id,
            responder_connection_id_length: binding.responder_connection_id.len() as u8,
        };
        proof {
            assert(owned.endpoints().initiator_connection_id
                =~= binding.initiator_connection_id@);
            assert(owned.endpoints().responder_connection_id
                =~= binding.responder_connection_id@);
        }
        Ok(owned)
    }

    fn encoded(&self) -> (encoded: [u8; BINDING_LEN])
        ensures
            encoded@ == self.bytes(),
    {
        broadcast use group_buffer_writes;

        let mut address: [u8; ADDRESS_LEN] = [0u8; ADDRESS_LEN];
        match self.source_address {
            RetrySourceAddress::Ipv4(value) => {
                let at: usize = put_u8(&mut address, 0, 4);
                let _ = put(&mut address, at, &value);
            },
            RetrySourceAddress::Ipv6(value) => {
                let at: usize = put_u8(&mut address, 0, 6);
                let _ = put(&mut address, at, &value);
            },
        }
        assert(address@ =~= address_bytes(self.source_address));
        let mut encoded: [u8; BINDING_LEN] = [0u8; BINDING_LEN];
        let mut at: usize = put(&mut encoded, 0, &address);
        at = put_u16(&mut encoded, at, self.source_port);
        at = put_u32(&mut encoded, at, self.version);
        at = put_u8(&mut encoded, at, self.initiator_connection_id_length);
        at = put(&mut encoded, at, &self.initiator_connection_id);
        at = put_u8(&mut encoded, at, self.responder_connection_id_length);
        at = put(&mut encoded, at, &self.responder_connection_id);
        assert(encoded@ =~= self.bytes());
        encoded
    }
}

/// Identity of one admitted handshake.
#[derive(Clone, Copy, PartialEq, Eq)]
pub struct RetryAdmissionIdentity {
    binding: OwnedRetryBinding,
    server_random: [u8; RANDOM_LEN],
    hello_hash: Sha384Digest,
}

impl RetryAdmissionIdentity {
    /// The bytes by which the handshake is recognised.
    pub closed spec fn bytes(self) -> Seq<u8> {
        self.binding.bytes() + self.server_random@ + self.hello_hash@
    }

    /// Whether two identities are those of one handshake.
    pub fn same_as(&self, other: &RetryAdmissionIdentity) -> (same: bool)
        ensures
            same == (self.bytes() == other.bytes()),
    {
        let left: [u8; BINDING_LEN] = self.binding.encoded();
        let right: [u8; BINDING_LEN] = other.binding.encoded();
        proof {
            let a = self.bytes();
            let b = other.bytes();
            assert(a.take(BINDING_LEN as int) =~= left@);
            assert(b.take(BINDING_LEN as int) =~= right@);
            assert(a.subrange(65, 97) =~= self.server_random@);
            assert(b.subrange(65, 97) =~= other.server_random@);
            assert(a.skip(97) =~= self.hello_hash@);
            assert(b.skip(97) =~= other.hello_hash@);
        }
        bytes_equal(&left, &right) && bytes_equal(&self.server_random, &other.server_random)
            && bytes_equal(&self.hello_hash, &other.hello_hash)
    }

    /// Returns the source address of the handshake.
    pub fn source_address(&self) -> (address: RetrySourceAddress)
        ensures
            self.bytes().len() >= ADDRESS_LEN,
            self.bytes().take(ADDRESS_LEN as int) == address_bytes(address),
    {
        proof {
            assert(self.bytes().take(ADDRESS_LEN as int) =~= address_bytes(
                self.binding.source_address,
            ));
        }
        self.binding.source_address
    }

    /// Returns the identity that stands in unused table slots.
    ///
    /// It is that of an IPv4 source with nothing but zeroes behind the address family.
    pub(crate) fn unused() -> (identity: RetryAdmissionIdentity)
        ensures
            identity.bytes() == seq![4u8] + zeroes((64 + RANDOM_LEN + SHA384_OUTPUT_LEN) as nat),
    {
        let identity = RetryAdmissionIdentity {
            binding: OwnedRetryBinding {
                source_address: RetrySourceAddress::Ipv4([0u8; 4]),
                source_port: 0,
                version: 0,
                initiator_connection_id: [0u8; MAX_LONG_CONNECTION_ID_LEN],
                initiator_connection_id_length: 0,
                responder_connection_id: [0u8; MAX_LONG_CONNECTION_ID_LEN],
                responder_connection_id_length: 0,
            },
            server_random: [0u8; RANDOM_LEN],
            hello_hash: [0u8; SHA384_OUTPUT_LEN],
        };
        assert(identity.bytes() =~= seq![4u8] + zeroes((64 + RANDOM_LEN + SHA384_OUTPUT_LEN) as nat));
        identity
    }
}

/// Capability returned only after successful cookie authentication and binding.
#[derive(Clone, Copy, PartialEq, Eq)]
pub struct ValidatedRetryCookie {
    key_id: u32,
    issued_at: u64,
    expires_at: u64,
    validated_at: u64,
    identity: RetryAdmissionIdentity,
}

impl View for ValidatedRetryCookie {
    type V = ValidatedCookieView;

    closed spec fn view(&self) -> ValidatedCookieView {
        ValidatedCookieView {
            key_id: self.key_id,
            issued_at: self.issued_at,
            expires_at: self.expires_at,
            validated_at: self.validated_at,
            identity: self.identity.bytes(),
        }
    }
}

impl ValidatedRetryCookie {
    pub fn key_id(&self) -> (key_id: u32)
        ensures
            key_id == self@.key_id,
    {
        self.key_id
    }

    pub fn issued_at(&self) -> (instant: u64)
        ensures
            instant == self@.issued_at,
    {
        self.issued_at
    }

    pub fn expires_at(&self) -> (instant: u64)
        ensures
            instant == self@.expires_at,
    {
        self.expires_at
    }

    pub fn validated_at(&self) -> (instant: u64)
        ensures
            instant == self@.validated_at,
    {
        self.validated_at
    }

    /// Returns the identity of the handshake that the cookie vouches for.
    pub fn identity(&self) -> (identity: RetryAdmissionIdentity)
        ensures
            identity.bytes() == self@.identity,
    {
        self.identity
    }

    /// Returns a text for diagnostics that shows no address, connection ID, random or hash.
    pub fn debug_text(&self) -> (text: String)
        ensures
            text@ == ("ValidatedRetryCookie { key_id: "@ + decimal(self@.key_id as nat)
                + ", issued_at: "@ + decimal(self@.issued_at as nat) + ", expires_at: "@) + (""@
                + decimal(self@.expires_at as nat) + ", validated_at: "@ + decimal(
                self@.validated_at as nat,
            ) + ", identity: \"<redacted>\" }"@),
    {
        with_two_numbers(
            "ValidatedRetryCookie { key_id: ",
            self.key_id as u64,
            ", issued_at: ",
            self.issued_at,
            ", expires_at: ",
        ).concat(
            with_two_numbers(
                "",
                self.expires_at,
                ", validated_at: ",
                self.validated_at,
                ", identity: \"<redacted>\" }",
            ).as_str(),
        )
    }
}

/// The failure of validating a cookie that no provider decides, if any: the checks in order.
pub open spec fn cookie_failure<K, E>(
    ring: CookieKeyRingView<K>,
    binding: RetryCookieBinding,
    cookie: Seq<u8>,
) -> Option<RetryCookieError<E>> {
    if binding.connection_id_failure() is Some {
        Some(RetryCookieError::Wire(binding.connection_id_failure()->0))
    } else if binding.source_port == 0 {
        Some(RetryCookieError::InvalidSourcePort)
    } else if cookie.len() != RETRY_COOKIE_LEN {
        Some(RetryCookieError::InvalidCookieLength(cookie.len() as usize))
    } else if cookie[0] != RETRY_COOKIE_FORMAT {
        Some(RetryCookieError::UnknownFormat(cookie[0]))
    } else if ring.opening_key(be32_at(cookie, 1)) is None {
        Some(RetryCookieError::UnknownKey(be32_at(cookie, 1)))
    } else {
        None
    }
}

/// The payload of a cookie whose tag is authentic under a key.
pub open spec fn cookie_payload<P: RetryCookieProvider>(
    provider: &P,
    key: CookieKeyView<P::Key>,
    cookie: Seq<u8>,
) -> Option<Seq<u8>> {
    provider.opened_cookie(
        key.key,
        cookie.subrange(5, RETRY_COOKIE_HEADER_LEN as int),
        cookie_additional_data(cookie.take(RETRY_COOKIE_HEADER_LEN as int)),
        cookie.skip(RETRY_COOKIE_HEADER_LEN as int),
    )
}

/// Whether a provider can answer so when it opens a cookie under a key.
pub open spec fn opening_answers<P: RetryCookieProvider>(
    provider: &P,
    key: CookieKeyView<P::Key>,
    cookie: Seq<u8>,
    answer: Result<RetryCookieOpenResult, P::Error>,
) -> bool {
    exists|
        nonce: [u8; RETRY_COOKIE_NONCE_LEN],
        additional_data: &[u8],
        target: &mut [u8],
    | {
        &&& nonce@ == cookie.subrange(5, RETRY_COOKIE_HEADER_LEN as int)
        &&& additional_data@ == cookie_additional_data(
            cookie.take(RETRY_COOKIE_HEADER_LEN as int),
        )
        &&& target@ == cookie.skip(RETRY_COOKIE_HEADER_LEN as int)
        &&& #[trigger] call_ensures(
            P::open_retry_cookie,
            (provider, &key.key, &nonce, additional_data, target),
            answer,
        )
    }
}

/// Whether the unused bytes of a payload's binding are zero and its lengths are in range.
pub open spec fn binding_is_canonical(plaintext: Seq<u8>) -> bool {
    &&& plaintext[16] == 6 || plaintext[16] == 4 && forall|i: int|
        21 <= i < 33 ==> plaintext[i] == 0
    &&& plaintext[39] <= MAX_LONG_CONNECTION_ID_LEN
    &&& plaintext[60] <= MAX_LONG_CONNECTION_ID_LEN
    &&& forall|i: int| 40 + plaintext[39] <= i < 60 ==> plaintext[i] == 0
    &&& forall|i: int| 61 + plaintext[60] <= i < 81 ==> plaintext[i] == 0
}

/// The endpoints, the version and the connection IDs that a cookie is bound to.
pub struct BoundEndpoints {
    pub family: u8,
    pub address: Seq<u8>,
    pub source_port: u16,
    pub version: u32,
    pub initiator_connection_id: Seq<u8>,
    pub responder_connection_id: Seq<u8>,
}

/// The family byte of an address.
pub open spec fn family_of(address: RetrySourceAddress) -> u8 {
    match address {
        RetrySourceAddress::Ipv4(_) => 4,
        RetrySourceAddress::Ipv6(_) => 6,
    }
}

/// The bytes of an address.
pub open spec fn octets_of(address: RetrySourceAddress) -> Seq<u8> {
    match address {
        RetrySourceAddress::Ipv4(octets) => octets@,
        RetrySourceAddress::Ipv6(octets) => octets@,
    }
}

/// The endpoints, the version and the connection IDs of a binding.
pub open spec fn endpoints_of(binding: RetryCookieBinding) -> BoundEndpoints {
    BoundEndpoints {
        family: family_of(binding.source_address),
        address: octets_of(binding.source_address),
        source_port: binding.source_port,
        version: binding.version,
        initiator_connection_id: binding.initiator_connection_id@,
        responder_connection_id: binding.responder_connection_id@,
    }
}

/// What a payload of the right size with a canonical binding says of its endpoints.
pub open spec fn decoded_endpoints(plaintext: Seq<u8>) -> Option<BoundEndpoints> {
    if plaintext.len() != RETRY_COOKIE_PLAINTEXT_LEN || !binding_is_canonical(plaintext) {
        None
    } else {
        Some(
            BoundEndpoints {
                family: plaintext[16],
                address: plaintext.subrange(
                    17,
                    if plaintext[16] == 4 {
                        21
                    } else {
                        33
                    },
                ),
                source_port: be16_at(plaintext, 33),
                version: be32_at(plaintext, 35),
                initiator_connection_id: plaintext.subrange(40, 40 + plaintext[39]),
                responder_connection_id: plaintext.subrange(61, 61 + plaintext[60]),
            },
        )
    }
}

/// The reason to reject a payload when no provider operation fails, if any: the checks in order.
pub open spec fn payload_failure<P: RetryCookieProvider>(
    provider: &P,
    key: CookieKeyView<P::Key>,
    policy: RetryCookiePolicy,
    binding: RetryCookieBinding,
    now: u64,
    plaintext: Seq<u8>,
) -> Option<RetryCookieError<P::Error>> {
    let issued_at = be64_at(plaintext, 0);
    let expires_at = be64_at(plaintext, 8);
    if plaintext.len() < 16 {
        Some(RetryCookieError::InvalidPlaintext)
    } else if issued_at + policy.lifetime() > u64::MAX {
        Some(RetryCookieError::TimeOverflow)
    } else if expires_at != issued_at + policy.lifetime() {
        Some(RetryCookieError::LifetimeMismatch)
    } else if now + policy.skew() > u64::MAX {
        Some(RetryCookieError::TimeOverflow)
    } else if issued_at > now + policy.skew() {
        Some(RetryCookieError::NotYetValid)
    } else if now >= expires_at {
        Some(RetryCookieError::Expired)
    } else if issued_at < key.activate_at || issued_at >= key.seal_until || expires_at
        > key.accept_until || now >= key.accept_until {
        Some(RetryCookieError::KeyOutsideAcceptanceWindow)
    } else if decoded_endpoints(plaintext) is None {
        Some(RetryCookieError::InvalidPlaintext)
    } else if binding.connection_id_failure() is Some {
        Some(RetryCookieError::Wire(binding.connection_id_failure()->0))
    } else if binding.hello.field_failure() is Some {
        Some(RetryCookieError::Handshake(binding.hello.field_failure()->0))
    } else if plaintext.skip(16) != context_bytes(
        binding,
        hello_hash_of(provider, binding.hello),
    ) {
        Some(RetryCookieError::BindingMismatch)
    } else {
        None
    }
}

/// Whether a payload passes every check in front of the comparison with the hash of the HELLO.
pub open spec fn reaches_hashing<P: RetryCookieProvider>(
    provider: &P,
    key: CookieKeyView<P::Key>,
    policy: RetryCookiePolicy,
    binding: RetryCookieBinding,
    now: u64,
    plaintext: Seq<u8>,
) -> bool {
    match payload_failure(provider, key, policy, binding, now, plaintext) {
        None => true,
        Some(error) => error is BindingMismatch,
    }
}

/// What a payload vouches for once it has been accepted for a binding.
pub open spec fn accepted_cookie<P: RetryCookieProvider>(
    provider: &P,
    key_id: u32,
    binding: RetryCookieBinding,
    now: u64,
    plaintext: Seq<u8>,
) -> ValidatedCookieView {
    ValidatedCookieView {
        key_id,
        issued_at: be64_at(plaintext, 0),
        expires_at: be64_at(plaintext, 8),
        validated_at: now,
        identity: identity_bytes(binding, hello_hash_of(provider, binding.hello)),
    }
}

/// Authenticates, opens, expires, and binds one cookie atomically.
///
/// # Errors
///
/// Returns an error for a malformed/unknown token, unavailable key, invalid tag, non-canonical
/// plaintext, time-policy violation, binding mismatch, provider failure, or provider output-length
/// mismatch.
pub fn validate_retry_cookie<P: RetryCookieProvider>(
    provider: &P,
    key_ring: &RetryCookieKeyRing<P::Key>,
    policy: RetryCookiePolicy,
    binding: &RetryCookieBinding<'_>,
    now: u64,
    cookie: &[u8],
) -> (validated: Result<ValidatedRetryCookie, RetryCookieError<P::Error>>)
    ensures
        match cookie_failure(key_ring@, *binding, cookie@) {
            Some(error) => validated == Err::<ValidatedRetryCookie, RetryCookieError<P::Error>>(
                error,
            ),
            None => {
                let key_id = be32_at(cookie@, 1);
                let key = key_ring@.opening_key(key_id)->0;
                let payload = cookie_payload(provider, key, cookie@);
                match validated {
                    Ok(validated) => {
                        &&& payload matches Some(plaintext)
                        &&& plaintext.len() == RETRY_COOKIE_PLAINTEXT_LEN
                        &&& payload_failure(provider, key, policy, *binding, now, plaintext) is None
                        &&& validated@ == accepted_cookie(
                            provider,
                            key_id,
                            *binding,
                            now,
                            plaintext,
                        )
                    },
                    Err(RetryCookieError::AuthenticationFailed) => {
                        &&& payload is None
                        &&& opening_answers(
                            provider,
                            key,
                            cookie@,
                            Ok(RetryCookieOpenResult::Invalid),
                        )
                    },
                    Err(RetryCookieError::ProviderLengthMismatch { expected, actual }) => {
                        &&& expected == RETRY_COOKIE_PLAINTEXT_LEN
                        &&& actual != expected
                        &&& opening_answers(
                            provider,
                            key,
                            cookie@,
                            Ok(RetryCookieOpenResult::Opened(actual)),
                        )
                    },
                    Err(RetryCookieError::Provider(error)) => {
                        ||| opening_answers(provider, key, cookie@, Err(error))
                        ||| {
                            &&& payload matches Some(plaintext)
                            &&& plaintext.len() == RETRY_COOKIE_PLAINTEXT_LEN
                            &&& reaches_hashing(provider, key, policy, *binding, now, plaintext)
                            &&& hashing_fails_with(provider, binding.hello.encoding(), error)
                        }
                    },
                    Err(error) => {
                        &&& payload matches Some(plaintext)
                        &&& plaintext.len() == RETRY_COOKIE_PLAINTEXT_LEN
                        &&& payload_failure(provider, key, policy, *binding, now, plaintext) == Some(
                            error,
                        )
                    },
                }
            },
        },
{
    match validate_binding(binding) {
        Ok(()) => {},
        Err(error) => {
            return Err(RetryCookieError::Wire(error));
        },
    }
    if binding.source_port == 0 {
        return Err(RetryCookieError::InvalidSourcePort);
    }
    if cookie.len() != RETRY_COOKIE_LEN {
        return Err(RetryCookieError::InvalidCookieLength(cookie.len()));
    }
    if cookie[0] != RETRY_COOKIE_FORMAT {
        return Err(RetryCookieError::UnknownFormat(cookie[0]));
    }
    let key_id: u32 = get_u32(cookie, 1);
    let key = match key_ring.opening_key(key_id) {
        Some(key) => key,
        None => {
            return Err(RetryCookieError::UnknownKey(key_id));
        },
    };
    let nonce: [u8; RETRY_COOKIE_NONCE_LEN] = get_array::<RETRY_COOKIE_NONCE_LEN>(cookie, 5);
    let header: [u8; RETRY_COOKIE_HEADER_LEN] = get_array::<RETRY_COOKIE_HEADER_LEN>(cookie, 0);
    assert(header@ =~= cookie@.take(RETRY_COOKIE_HEADER_LEN as int));
    let aad: [u8; RETRY_COOKIE_AAD_LEN] = cookie_aad(&header);
    let mut candidate: [u8; RETRY_COOKIE_SEALED_LEN] = get_array::<RETRY_COOKIE_SEALED_LEN>(
        cookie,
        RETRY_COOKIE_HEADER_LEN,
    );
    assert(candidate@ =~= cookie@.skip(RETRY_COOKIE_HEADER_LEN as int));
    let opened = provider.open_retry_cookie(&key.key, &nonce, &aad, &mut candidate);
    match settle_opened_cookie(opened) {
        Ok(()) => {},
        Err(error) => {
            clear(&mut candidate);
            return Err(error);
        },
    }
    assert(candidate@.subrange(0, RETRY_COOKIE_PLAINTEXT_LEN as int) =~= candidate@.take(
        RETRY_COOKIE_PLAINTEXT_LEN as int,
    ));
    let result = validate_plaintext(
        provider,
        key_id,
        key,
        policy,
        binding,
        now,
        part(&candidate, 0, RETRY_COOKIE_PLAINTEXT_LEN),
    );
    clear(&mut candidate);
    result
}

/// Judges a provider's answer to opening a cookie.
///
/// # Errors
///
/// Returns an authentication failure for an invalid tag, the provider's own failure, or a length
/// mismatch.
pub fn settle_opened_cookie<E>(opened: Result<RetryCookieOpenResult, E>) -> (outcome: Result<
    (),
    RetryCookieError<E>,
>)
    ensures
        outcome == match opened {
            Ok(RetryCookieOpenResult::Opened(length)) => if length == RETRY_COOKIE_PLAINTEXT_LEN {
                Ok::<(), RetryCookieError<E>>(())
            } else {
                Err(
                    RetryCookieError::ProviderLengthMismatch {
                        expected: RETRY_COOKIE_PLAINTEXT_LEN,
                        actual: length,
                    },
                )
            },
            Ok(RetryCookieOpenResult::Invalid) => Err(RetryCookieError::AuthenticationFailed),
            Err(error) => Err(RetryCookieError::Provider(error)),
        },
{
    match opened {
        Ok(RetryCookieOpenResult::Opened(length)) => {
            if length != RETRY_COOKIE_PLAINTEXT_LEN {
                return Err(
                    RetryCookieError::ProviderLengthMismatch {
                        expected: RETRY_COOKIE_PLAINTEXT_LEN,
                        actual: length,
                    },
                );
            }
            Ok(())
        },
        Ok(RetryCookieOpenResult::Invalid) => Err(RetryCookieError::AuthenticationFailed),
        Err(error) => Err(RetryCookieError::Provider(error)),
    }
}

/// Checks the opened payload of an authentic cookie against time, key schedule and binding.
///
/// # Errors
///
/// Returns an error for a payload of the wrong size, a time-policy violation, a non-canonical
/// payload, a binding mismatch, or a hashing failure.
pub fn validate_plaintext<P: RetryCookieProvider>(
    provider: &P,
    key_id: u32,
    key: &RetryCookieKey<P::Key>,
    policy: RetryCookiePolicy,
    binding: &RetryCookieBinding<'_>,
    now: u64,
    plaintext: &[u8],
) -> (validated: Result<ValidatedRetryCookie, RetryCookieError<P::Error>>)
    ensures
        match validated {
            Ok(validated) => {
                &&& payload_failure(provider, key@, policy, *binding, now, plaintext@) is None
                &&& validated@ == accepted_cookie(provider, key_id, *binding, now, plaintext@)
            },
            Err(RetryCookieError::Provider(error)) => {
                &&& reaches_hashing(provider, key@, policy, *binding, now, plaintext@)
                &&& hashing_fails_with(provider, binding.hello.encoding(), error)
            },
            Err(error) => payload_failure(provider, key@, policy, *binding, now, plaintext@)
                == Some(error),
        },
{
    if plaintext.len() < EXPIRES_AT_OFFSET + 8 {
        return Err(RetryCookieError::InvalidPlaintext);
    }
    let issued_at: u64 = get_u64(plaintext, ISSUED_AT_OFFSET);
    let expires_at: u64 = get_u64(plaintext, EXPIRES_AT_OFFSET);
    let expected_expiry: u64 = match issued_at.checked_add(policy.lifetime_seconds()) {
        Some(expiry) => expiry,
        None => {
            return Err(RetryCookieError::TimeOverflow);
        },
    };
    if expires_at != expected_expiry {
        return Err(RetryCookieError::LifetimeMismatch);
    }
    let latest_allowed_issue: u64 = match now.checked_add(policy.maximum_clock_skew_seconds()) {
        Some(latest) => latest,
        None => {
            return Err(RetryCookieError::TimeOverflow);
        },
    };
    if issued_at > latest_allowed_issue {
        return Err(RetryCookieError::NotYetValid);
    }
    if now >= expires_at {
        return Err(RetryCookieError::Expired);
    }
    if issued_at < key.activate_at || issued_at >= key.seal_until || expires_at > key.accept_until
        || now >= key.accept_until {
        return Err(RetryCookieError::KeyOutsideAcceptanceWindow);
    }
    let decoded_binding = match decode_owned_binding(plaintext) {
        Ok(decoded) => decoded,
        Err(error) => {
            return Err(error);
        },
    };
    let expected_binding = match OwnedRetryBinding::from_borrowed(binding) {
        Ok(expected) => expected,
        Err(error) => {
            return Err(RetryCookieError::Wire(error));
        },
    };
    let client_random: [u8; RANDOM_LEN] = get_array::<RANDOM_LEN>(plaintext, CLIENT_RANDOM_OFFSET);
    let server_random: [u8; RANDOM_LEN] = get_array::<RANDOM_LEN>(plaintext, SERVER_RANDOM_OFFSET);
    let received_hello_hash: Sha384Digest = get_array::<SHA384_OUTPUT_LEN>(
        plaintext,
        HELLO_HASH_OFFSET,
    );
    let expected_hello_hash: Sha384Digest = match hash_hello(provider, binding.hello) {
        Ok(digest) => digest,
        Err(error) => {
            return Err(error);
        },
    };
    let decoded_bytes: [u8; BINDING_LEN] = decoded_binding.encoded();
    let expected_bytes: [u8; BINDING_LEN] = expected_binding.encoded();
    proof {
        let rest = plaintext@.skip(16);
        let expected = context_bytes(*binding, expected_hello_hash@);
        assert(rest.subrange(0, 65) =~= plaintext@.subrange(16, 81));
        assert(rest.subrange(65, 97) =~= client_random@);
        assert(rest.subrange(97, 129) =~= server_random@);
        assert(rest.subrange(129, 177) =~= received_hello_hash@);
        assert(expected.subrange(0, 65) =~= binding_bytes(*binding));
        assert(expected.subrange(65, 97) =~= binding.hello.client_random@);
        assert(expected.subrange(97, 129) =~= binding.server_random@);
        assert(expected.subrange(129, 177) =~= expected_hello_hash@);
        assert(rest =~= rest.subrange(0, 65) + rest.subrange(65, 97) + rest.subrange(97, 129)
            + rest.subrange(129, 177));
    }
    if !bytes_equal(&decoded_bytes, &expected_bytes) || !bytes_equal(
        &client_random,
        &binding.hello.client_random,
    ) || !bytes_equal(&server_random, &binding.server_random) || !bytes_equal(
        &received_hello_hash,
        &expected_hello_hash,
    ) {
        return Err(RetryCookieError::BindingMismatch);
    }
    Ok(
        ValidatedRetryCookie {
            key_id,
            issued_at,
            expires_at,
            validated_at: now,
            identity: RetryAdmissionIdentity {
                binding: decoded_binding,
                server_random,
                hello_hash: received_hello_hash,
            },
        },
    )
}

fn hash_hello<P: Sha384Provider>(provider: &P, hello: Hello) -> (digest: Result<
    Sha384Digest,
    RetryCookieError<P::Error>,
>)
    ensures
        match hello.field_failure() {
            Some(error) => digest == Err::<Sha384Digest, RetryCookieError<P::Error>>(
                RetryCookieError::Handshake(error),
            ),
            None => match digest {
                Ok(digest) => digest@ == hello_hash_of(provider, hello),
                Err(error) => error matches RetryCookieError::Provider(error)
                    && hashing_fails_with(provider, hello.encoding(), error),
            },
        },
{
    let mut encoded: [u8; HELLO_LEN] = [0u8; HELLO_LEN];
    match hello.encode(&mut encoded) {
        Ok(_) => {},
        Err(error) => {
            return Err(RetryCookieError::Handshake(error));
        },
    }
    proof {
        crate::handshake::lemma_hello_round_trip(hello, hello);
        assert(encoded@ =~= hello.encoding());
    }
    let mut context = match provider.start_sha384() {
        Ok(context) => context,
        Err(error) => {
            return Err(RetryCookieError::Provider(error));
        },
    };
    context.update(&encoded);
    assert(context.fed() =~= hello.encoding());
    match provider.finish_sha384(context) {
        Ok(digest) => Ok(digest),
        Err(error) => Err(RetryCookieError::Provider(error)),
    }
}

fn encode_plaintext(
    binding: &RetryCookieBinding<'_>,
    issued_at: u64,
    expires_at: u64,
    hello_hash: &Sha384Digest,
) -> (plaintext: Result<[u8; RETRY_COOKIE_PLAINTEXT_LEN], WireError>)
    ensures
        match binding.connection_id_failure() {
            Some(error) => plaintext == Err::<[u8; RETRY_COOKIE_PLAINTEXT_LEN], WireError>(error),
            None => plaintext matches Ok(plaintext) && plaintext@ == cookie_plaintext(
                *binding,
                issued_at,
                expires_at,
                hello_hash@,
            ),
        },
{
    broadcast use group_buffer_writes;

    let mut plaintext: [u8; RETRY_COOKIE_PLAINTEXT_LEN] = [0u8; RETRY_COOKIE_PLAINTEXT_LEN];
    let owned = match OwnedRetryBinding::from_borrowed(binding) {
        Ok(owned) => owned,
        Err(error) => {
            return Err(error);
        },
    };
    let encoded: [u8; BINDING_LEN] = owned.encoded();
    let mut at: usize = put_u64(&mut plaintext, 0, issued_at);
    at = put_u64(&mut plaintext, at, expires_at);
    at = put(&mut plaintext, at, &encoded);
    at = put(&mut plaintext, at, &binding.hello.client_random);
    at = put(&mut plaintext, at, &binding.server_random);
    at = put(&mut plaintext, at, hello_hash);
    assert(plaintext@ =~= cookie_plaintext(*binding, issued_at, expires_at, hello_hash@));
    Ok(plaintext)
}

fn zero_between(bytes: &[u8], from: usize, to: usize) -> (zero: bool)
    requires
        from <= to <= bytes@.len(),
    ensures
        zero == forall|i: int| from <= i < to ==> bytes@[i] == 0,
{
    let mut at: usize = from;
    while at < to
        invariant
            from <= at <= to <= bytes@.len(),
            forall|i: int| from <= i < at ==> bytes@[i] == 0,
        decreases to - at,
    {
        if bytes[at] != 0 {
            return false;
        }
        at = at + 1;
    }
    true
}

fn decode_owned_binding<E>(plaintext: &[u8]) -> (decoded: Result<
    OwnedRetryBinding,
    RetryCookieError<E>,
>)
    ensures
        match decoded_endpoints(plaintext@) {
            Some(endpoints) => {
                &&& decoded matches Ok(decoded)
                &&& decoded.endpoints() == endpoints
                &&& decoded.bytes() == plaintext@.subrange(16, 81)
            },
            None => decoded == Err::<OwnedRetryBinding, RetryCookieError<E>>(
                RetryCookieError::InvalidPlaintext,
            ),
        },
{
    if plaintext.len() != RETRY_COOKIE_PLAINTEXT_LEN {
        return Err(RetryCookieError::InvalidPlaintext);
    }
    let source_address = match plaintext[ADDRESS_FAMILY_OFFSET] {
        4 => {
            if !zero_between(plaintext, ADDRESS_OFFSET + 4, ADDRESS_OFFSET + 16) {
                return Err(RetryCookieError::InvalidPlaintext);
            }
            RetrySourceAddress::Ipv4(get_array::<4>(plaintext, ADDRESS_OFFSET))
        },
        6 => RetrySourceAddress::Ipv6(get_array::<16>(plaintext, ADDRESS_OFFSET)),
        _ => {
            return Err(RetryCookieError::InvalidPlaintext);
        },
    };
    assert(address_bytes(source_address) =~= plaintext@.subrange(16, 33));
    let initiator_length: u8 = plaintext[INITIATOR_CID_LENGTH_OFFSET];
    let responder_length: u8 = plaintext[RESPONDER_CID_LENGTH_OFFSET];
    if initiator_length as usize > MAX_LONG_CONNECTION_ID_LEN || responder_length as usize
        > MAX_LONG_CONNECTION_ID_LEN {
        return Err(RetryCookieError::InvalidPlaintext);
    }
    if !zero_between(
        plaintext,
        INITIATOR_CID_OFFSET + initiator_length as usize,
        INITIATOR_CID_OFFSET + MAX_LONG_CONNECTION_ID_LEN,
    ) || !zero_between(
        plaintext,
        RESPONDER_CID_OFFSET + responder_length as usize,
        RESPONDER_CID_OFFSET + MAX_LONG_CONNECTION_ID_LEN,
    ) {
        return Err(RetryCookieError::InvalidPlaintext);
    }
    let decoded = OwnedRetryBinding {
        source_address,
        source_port: get_u16(plaintext, SOURCE_PORT_OFFSET),
        version: get_u32(plaintext, VERSION_OFFSET),
        initiator_connection_id: get_array::<MAX_LONG_CONNECTION_ID_LEN>(
            plaintext,
            INITIATOR_CID_OFFSET,
        ),
        initiator_connection_id_length: initiator_length,
        responder_connection_id: get_array::<MAX_LONG_CONNECTION_ID_LEN>(
            plaintext,
            RESPONDER_CID_OFFSET,
        ),
        responder_connection_id_length: responder_length,
    };
    proof {
        lemma_be16_of_bytes(plaintext@, SOURCE_PORT_OFFSET as int);
        lemma_be32_of_bytes(plaintext@, VERSION_OFFSET as int);
        assert(decoded.bytes() =~= plaintext@.subrange(16, 81));
        let endpoints = decoded_endpoints(plaintext@)->0;
        assert(decoded.endpoints().address =~= endpoints.address);
        assert(decoded.endpoints().initiator_connection_id =~= endpoints.initiator_connection_id);
        assert(decoded.endpoints().responder_connection_id =~= endpoints.responder_connection_id);
    }
    Ok(decoded)
}

fn validate_binding(binding: &RetryCookieBinding<'_>) -> (outcome: Result<(), WireError>)
    ensures
        match binding.connection_id_failure() {
            Some(error) => outcome == Err::<(), WireError>(error),
            None => outcome == Ok::<(), WireError>(()),
        },
{
    if binding.initiator_connection_id.len() > MAX_LONG_CONNECTION_ID_LEN {
        return Err(
            WireError::ConnectionIdTooLong {
                length: binding.initiator_connection_id.len(),
                maximum: MAX_LONG_CONNECTION_ID_LEN,
            },
        );
    }
    if binding.responder_connection_id.len() > MAX_LONG_CONNECTION_ID_LEN {
        return Err(
            WireError::ConnectionIdTooLong {
                length: binding.responder_connection_id.len(),
                maximum: MAX_LONG_CONNECTION_ID_LEN,
            },
        );
    }
    Ok(())
}

fn cookie_aad(header: &[u8; RETRY_COOKIE_HEADER_LEN]) -> (aad: [u8; RETRY_COOKIE_AAD_LEN])
    ensures
        aad@ == cookie_additional_data(header@),
{
    broadcast use group_buffer_writes;

    let context: &[u8] = RETRY_COOKIE_AAD_CONTEXT.as_bytes();
    proof {
        reveal_strlit("OGTP/1 retry cookie\0");
        let text = RETRY_COOKIE_AAD_CONTEXT;
        assert(text.is_ascii());
    }
    let mut aad: [u8; RETRY_COOKIE_AAD_LEN] = [0u8; RETRY_COOKIE_AAD_LEN];
    let mut at: usize = put(&mut aad, 0, context);
    at = put(&mut aad, at, header);
    assert(aad@ =~= cookie_additional_data(header@));
    aad
}

/// Where the parts of a binding lie in its canonical bytes.
proof fn lemma_binding_parts(binding: RetryCookieBinding)
    requires
        binding.connection_id_failure() is None,
    ensures
        ({
            let bytes = binding_bytes(binding);
            &&& bytes.len() == BINDING_LEN
            &&& bytes.subrange(0, 17) == address_bytes(binding.source_address)
            &&& bytes.subrange(17, 19) == be16(binding.source_port)
            &&& bytes.subrange(19, 23) == be32(binding.version)
            &&& bytes[23] == binding.initiator_connection_id@.len()
            &&& bytes.subrange(24, 44) == padded(binding.initiator_connection_id@)
            &&& bytes[44] == binding.responder_connection_id@.len()
            &&& bytes.subrange(45, 65) == padded(binding.responder_connection_id@)
        }),
{
    let bytes = binding_bytes(binding);
    let address = address_bytes(binding.source_address);
    assert(address.len() == 17);
    assert(bytes.subrange(0, 17) =~= address);
    assert(bytes.subrange(17, 19) =~= be16(binding.source_port));
    assert(bytes.subrange(19, 23) =~= be32(binding.version));
    assert(bytes.subrange(24, 44) =~= padded(binding.initiator_connection_id@));
    assert(bytes.subrange(45, 65) =~= padded(binding.responder_connection_id@));
}

/// A written payload reads back: its timestamps are those it was issued with, its binding is
/// canonical, and address, port, version, connection IDs, randoms and hash stand in it as they were
/// given.
pub proof fn lemma_payload_reads_back(
    binding: RetryCookieBinding,
    issued_at: u64,
    expires_at: u64,
    hello_hash: Seq<u8>,
)
    requires
        binding.connection_id_failure() is None,
    ensures
        ({
            let plaintext = cookie_plaintext(binding, issued_at, expires_at, hello_hash);
            &&& plaintext.len() == 145 + hello_hash.len()
            &&& be64_at(plaintext, 0) == issued_at
            &&& be64_at(plaintext, 8) == expires_at
            &&& plaintext.subrange(16, 81) == binding_bytes(binding)
            &&& plaintext.skip(16) == context_bytes(binding, hello_hash)
            &&& binding_is_canonical(plaintext)
            &&& plaintext.subrange(16, 33) == address_bytes(binding.source_address)
            &&& be16_at(plaintext, 33) == binding.source_port
            &&& be32_at(plaintext, 35) == binding.version
            &&& plaintext[39] == binding.initiator_connection_id@.len()
            &&& plaintext.subrange(40, 40 + plaintext[39]) == binding.initiator_connection_id@
            &&& plaintext[60] == binding.responder_connection_id@.len()
            &&& plaintext.subrange(61, 61 + plaintext[60]) == binding.responder_connection_id@
            &&& plaintext.subrange(81, 113) == binding.hello.client_random@
            &&& plaintext.subrange(113, 145) == binding.server_random@
            &&& plaintext.skip(145) == hello_hash
        }),
{
    let plaintext = cookie_plaintext(binding, issued_at, expires_at, hello_hash);
    let bytes = binding_bytes(binding);
    lemma_binding_parts(binding);
    lemma_be64_inverse(issued_at);
    lemma_be64_inverse(expires_at);
    assert(plaintext.subrange(0, 8) =~= be64(issued_at));
    assert(plaintext.subrange(8, 16) =~= be64(expires_at));
    lemma_be_at_shift(plaintext, be64(issued_at), 0);
    lemma_be_at_shift(plaintext, be64(expires_at), 8);
    assert(plaintext.subrange(16, 81) =~= bytes);
    assert(plaintext.skip(16) =~= context_bytes(binding, hello_hash));
    assert forall|i: int| 16 <= i < 81 implies plaintext[i] == #[trigger] bytes[i - 16] by {
        assert(plaintext.subrange(16, 81)[i - 16] == plaintext[i]);
    }
    let address = address_bytes(binding.source_address);
    let initiator = padded(binding.initiator_connection_id@);
    let responder = padded(binding.responder_connection_id@);
    assert forall|i: int| 16 <= i < 33 implies plaintext[i] == #[trigger] address[i - 16] by {
        assert(bytes.subrange(0, 17)[i - 16] == bytes[i - 16]);
    }
    assert forall|i: int| 40 <= i < 60 implies plaintext[i] == #[trigger] initiator[i - 40] by {
        assert(bytes.subrange(24, 44)[i - 40] == bytes[i - 16]);
    }
    assert forall|i: int| 61 <= i < 81 implies plaintext[i] == #[trigger] responder[i - 61] by {
        assert(bytes.subrange(45, 65)[i - 61] == bytes[i - 16]);
    }
    assert(plaintext[16] == address[0]);
    assert(plaintext[39] == bytes[23]);
    assert(plaintext[60] == bytes[44]);
    if plaintext[16] != 6 {
        assert forall|i: int| 21 <= i < 33 implies plaintext[i] == 0 by {
            assert(plaintext[i] == address[i - 16]);
        }
    }
    assert forall|i: int| 40 + plaintext[39] <= i < 60 implies plaintext[i] == 0 by {
        assert(plaintext[i] == initiator[i - 40]);
    }
    assert forall|i: int| 61 + plaintext[60] <= i < 81 implies plaintext[i] == 0 by {
        assert(plaintext[i] == responder[i - 61]);
    }
    lemma_be16_inverse(binding.source_port);
    lemma_be32_inverse(binding.version);
    assert(plaintext.subrange(16, 33) =~= address);
    assert(plaintext.subrange(33, 35) =~= bytes.subrange(17, 19));
    assert(plaintext.subrange(35, 39) =~= bytes.subrange(19, 23));
    lemma_be_at_shift(plaintext, be16(binding.source_port), 33);
    lemma_be_at_shift(plaintext, be32(binding.version), 35);
    assert(plaintext.subrange(40, 40 + plaintext[39]) =~= binding.initiator_connection_id@);
    assert(plaintext.subrange(61, 61 + plaintext[60]) =~= binding.responder_connection_id@);
    assert(plaintext.subrange(81, 113) =~= binding.hello.client_random@);
    assert(plaintext.subrange(113, 145) =~= binding.server_random@);
    assert(plaintext.skip(145) =~= hello_hash);
}

/// Decoding a written payload gives the binding back: exactly the source address, the port, the
/// version and both connection IDs that it was written for.
pub proof fn lemma_written_binding_decodes(
    binding: RetryCookieBinding,
    issued_at: u64,
    expires_at: u64,
    hello_hash: Sha384Digest,
    address: RetrySourceAddress,
)
    requires
        binding.connection_id_failure() is None,
    ensures
        ({
            let plaintext = cookie_plaintext(binding, issued_at, expires_at, hello_hash@);
            &&& decoded_endpoints(plaintext) == Some(endpoints_of(binding))
            &&& decoded_endpoints(plaintext) matches Some(endpoints) ==> (endpoints.family
                == family_of(address) && endpoints.address == octets_of(address) ==> address
                == binding.source_address)
        }),
{
    let plaintext = cookie_plaintext(binding, issued_at, expires_at, hello_hash@);
    lemma_payload_reads_back(binding, issued_at, expires_at, hello_hash@);
    let bytes = address_bytes(binding.source_address);
    assert(plaintext[16] == plaintext.subrange(16, 33)[0]);
    let end = if plaintext[16] == 4 {
        21int
    } else {
        33
    };
    assert(plaintext.subrange(17, end) =~= bytes.subrange(1, end - 16)) by {
        assert(plaintext.subrange(17, end) =~= plaintext.subrange(16, 33).subrange(1, end - 16));
    }
    assert(bytes.subrange(1, end - 16) =~= octets_of(binding.source_address));
    if family_of(address) == family_of(binding.source_address) && octets_of(address) == octets_of(
        binding.source_address,
    ) {
        assert(address_bytes(address) =~= bytes);
        lemma_address_bytes_are_injective(address, binding.source_address);
    }
}

/// Whether a provider opens the cookie that a key seals next for a payload.
pub open spec fn opens_what_it_seals<P: RetryCookieProvider>(
    provider: &P,
    key: CookieKeyView<P::Key>,
    plaintext: Seq<u8>,
) -> bool {
    let nonce = next_nonce(key);
    let aad = cookie_additional_data(cookie_header(key.key_id, nonce));
    provider.opened_cookie(
        key.key,
        nonce,
        aad,
        provider.sealed_cookie(key.key, nonce, aad, plaintext),
    ) == Some(plaintext)
}

/// Whether two keys are one key at different times.
pub open spec fn same_key<K>(left: CookieKeyView<K>, right: CookieKeyView<K>) -> bool {
    left == (CookieKeyView { next_nonce_counter: left.next_nonce_counter, ..right })
}

/// A cookie that was issued validates: as long as the ring holds its key and the same context is
/// presented, it is accepted exactly while the clock lies within its lifetime and the allowed skew,
/// with the timestamps and the key that it was issued with. Before that it is not yet valid, after
/// that it has expired; a clock that the skew would carry beyond its range is refused.
pub proof fn lemma_issued_cookie_validates<P: RetryCookieProvider>(
    provider: &P,
    issuing: CookieKeyRingView<P::Key>,
    ring: CookieKeyRingView<P::Key>,
    policy: RetryCookiePolicy,
    binding: RetryCookieBinding,
    issued_at: u64,
    now: u64,
)
    requires
        issue_failure::<P::Key, P::Error>(
            issuing,
            policy,
            binding,
            issued_at,
            RETRY_COOKIE_LEN as nat,
        ) is None,
        sealed_cookie(
            provider,
            issuing.active,
            cookie_plaintext(
                binding,
                issued_at,
                (issued_at + policy.lifetime()) as u64,
                hello_hash_of(provider, binding.hello),
            ),
        ).len() == RETRY_COOKIE_LEN,
        opens_what_it_seals(
            provider,
            issuing.active,
            cookie_plaintext(
                binding,
                issued_at,
                (issued_at + policy.lifetime()) as u64,
                hello_hash_of(provider, binding.hello),
            ),
        ),
        ring.opening_key(issuing.active.key_id) matches Some(key) && same_key(key, issuing.active),
    ensures
        ({
            let expires_at = (issued_at + policy.lifetime()) as u64;
            let hello_hash = hello_hash_of(provider, binding.hello);
            let plaintext = cookie_plaintext(binding, issued_at, expires_at, hello_hash);
            let cookie = sealed_cookie(provider, issuing.active, plaintext);
            let key_id = be32_at(cookie, 1);
            let key = ring.opening_key(key_id)->0;
            &&& cookie_failure::<P::Key, P::Error>(ring, binding, cookie) is None
            &&& cookie_payload(provider, key, cookie) == Some(plaintext)
            &&& plaintext.len() == RETRY_COOKIE_PLAINTEXT_LEN
            &&& payload_failure(provider, key, policy, binding, now, plaintext) == if now
                + policy.skew() > u64::MAX {
                Some(RetryCookieError::<P::Error>::TimeOverflow)
            } else if now + policy.skew() < issued_at {
                Some(RetryCookieError::NotYetValid)
            } else if now >= expires_at {
                Some(RetryCookieError::Expired)
            } else {
                None
            }
            &&& accepted_cookie(provider, key_id, binding, now, plaintext) == (ValidatedCookieView {
                key_id: issuing.active.key_id,
                issued_at,
                expires_at,
                validated_at: now,
                identity: identity_bytes(binding, hello_hash),
            })
        }),
{
    let expires_at = (issued_at + policy.lifetime()) as u64;
    let hello_hash = hello_hash_of(provider, binding.hello);
    let plaintext = cookie_plaintext(binding, issued_at, expires_at, hello_hash);
    let cookie = sealed_cookie(provider, issuing.active, plaintext);
    let nonce = next_nonce(issuing.active);
    let header = cookie_header(issuing.active.key_id, nonce);
    let sealed = provider.sealed_cookie(
        issuing.active.key,
        nonce,
        cookie_additional_data(header),
        plaintext,
    );
    lemma_payload_reads_back(binding, issued_at, expires_at, hello_hash);
    lemma_be32_inverse(issuing.active.key_id);
    lemma_be32_inverse(issuing.active.next_nonce_counter);
    assert(header.len() == RETRY_COOKIE_HEADER_LEN);
    assert(cookie[0] == RETRY_COOKIE_FORMAT);
    assert(cookie.subrange(1, 5) =~= be32(issuing.active.key_id));
    lemma_be_at_shift(cookie, be32(issuing.active.key_id), 1);
    assert(cookie.subrange(5, 17) =~= nonce);
    assert(cookie.take(17) =~= header);
    assert(cookie.skip(17) =~= sealed);
}

/// Whether two bindings agree in every context that a cookie authenticates.
pub open spec fn same_context<P: Sha384Provider>(
    provider: &P,
    left: RetryCookieBinding,
    right: RetryCookieBinding,
) -> bool {
    &&& left.source_address == right.source_address
    &&& left.source_port == right.source_port
    &&& left.version == right.version
    &&& left.initiator_connection_id@ == right.initiator_connection_id@
    &&& left.responder_connection_id@ == right.responder_connection_id@
    &&& left.hello.client_random@ == right.hello.client_random@
    &&& left.server_random@ == right.server_random@
    &&& hello_hash_of(provider, left.hello) == hello_hash_of(provider, right.hello)
}

/// What becomes of an issued payload that is presented at `now` under a policy with a binding: it
/// is accepted exactly within its time window, under the lifetime and in the context that it was
/// issued for, and every other presentation has its own error.
pub proof fn lemma_issued_payload_is_judged<P: RetryCookieProvider>(
    provider: &P,
    issuing: CookieKeyRingView<P::Key>,
    key: CookieKeyView<P::Key>,
    policy: RetryCookiePolicy,
    binding: RetryCookieBinding,
    issued_at: u64,
    presented_policy: RetryCookiePolicy,
    presented: RetryCookieBinding,
    now: u64,
)
    requires
        issue_failure::<P::Key, P::Error>(
            issuing,
            policy,
            binding,
            issued_at,
            RETRY_COOKIE_LEN as nat,
        ) is None,
        same_key(key, issuing.active),
    ensures
        ({
            let expires_at = (issued_at + policy.lifetime()) as u64;
            let plaintext = cookie_plaintext(
                binding,
                issued_at,
                expires_at,
                hello_hash_of(provider, binding.hello),
            );
            let failure = payload_failure(
                provider,
                key,
                presented_policy,
                presented,
                now,
                plaintext,
            );
            failure == if issued_at + presented_policy.lifetime() > u64::MAX {
                Some(RetryCookieError::<P::Error>::TimeOverflow)
            } else if presented_policy.lifetime() != policy.lifetime() {
                Some(RetryCookieError::LifetimeMismatch)
            } else if now + presented_policy.skew() > u64::MAX {
                Some(RetryCookieError::TimeOverflow)
            } else if now + presented_policy.skew() < issued_at {
                Some(RetryCookieError::NotYetValid)
            } else if now >= expires_at {
                Some(RetryCookieError::Expired)
            } else if presented.connection_id_failure() is Some {
                Some(RetryCookieError::Wire(presented.connection_id_failure()->0))
            } else if presented.hello.field_failure() is Some {
                Some(RetryCookieError::Handshake(presented.hello.field_failure()->0))
            } else if !same_context(provider, binding, presented) {
                Some(RetryCookieError::BindingMismatch)
            } else {
                None
            }
        }),
{
    let expires_at = (issued_at + policy.lifetime()) as u64;
    let hello_hash = hello_hash_of(provider, binding.hello);
    let presented_hash = hello_hash_of(provider, presented.hello);
    lemma_payload_reads_back(binding, issued_at, expires_at, hello_hash);
    if presented.connection_id_failure() is Some {
    } else if context_bytes(binding, hello_hash) == context_bytes(presented, presented_hash) {
        lemma_context_is_determined(binding, hello_hash, presented, presented_hash);
    } else if same_context(provider, binding, presented) {
        assert(context_bytes(binding, hello_hash) =~= context_bytes(presented, presented_hash));
    }
}

/// The authenticated bytes of a context determine every part of it.
pub proof fn lemma_context_is_determined(
    left: RetryCookieBinding,
    left_hash: Seq<u8>,
    right: RetryCookieBinding,
    right_hash: Seq<u8>,
)
    requires
        left.connection_id_failure() is None,
        right.connection_id_failure() is None,
        context_bytes(left, left_hash) == context_bytes(right, right_hash),
    ensures
        left.source_address == right.source_address,
        left.source_port == right.source_port,
        left.version == right.version,
        left.initiator_connection_id@ == right.initiator_connection_id@,
        left.responder_connection_id@ == right.responder_connection_id@,
        left.hello.client_random@ == right.hello.client_random@,
        left.server_random@ == right.server_random@,
        left_hash == right_hash,
{
    let context = context_bytes(left, left_hash);
    let a = binding_bytes(left);
    let b = binding_bytes(right);
    lemma_binding_parts(left);
    lemma_binding_parts(right);
    assert(context.take(65) =~= a);
    assert(context.take(65) =~= b);
    assert(context.subrange(65, 97) =~= left.hello.client_random@);
    assert(context.subrange(65, 97) =~= right.hello.client_random@);
    assert(context.subrange(97, 129) =~= left.server_random@);
    assert(context.subrange(97, 129) =~= right.server_random@);
    assert(context.skip(129) =~= left_hash);
    assert(context.skip(129) =~= right_hash);
    lemma_address_bytes_are_injective(left.source_address, right.source_address);
    lemma_be16_inverse(left.source_port);
    lemma_be16_inverse(right.source_port);
    lemma_be32_inverse(left.version);
    lemma_be32_inverse(right.version);
    let initiator = left.initiator_connection_id@.len() as int;
    let responder = left.responder_connection_id@.len() as int;
    assert(padded(left.initiator_connection_id@).take(initiator)
        =~= left.initiator_connection_id@);
    assert(padded(right.initiator_connection_id@).take(initiator)
        =~= right.initiator_connection_id@);
    assert(padded(left.responder_connection_id@).take(responder)
        =~= left.responder_connection_id@);
    assert(padded(right.responder_connection_id@).take(responder)
        =~= right.responder_connection_id@);
}

/// A payload that is accepted for two bindings was issued for both: they agree in every context
/// that a cookie authenticates.
pub proof fn lemma_cookie_binds_every_context<P: RetryCookieProvider>(
    provider: &P,
    key: CookieKeyView<P::Key>,
    policy: RetryCookiePolicy,
    left: RetryCookieBinding,
    left_now: u64,
    right: RetryCookieBinding,
    right_now: u64,
    plaintext: Seq<u8>,
)
    requires
        payload_failure(provider, key, policy, left, left_now, plaintext) is None,
        payload_failure(provider, key, policy, right, right_now, plaintext) is None,
    ensures
        same_context(provider, left, right),
{
    lemma_context_is_determined(
        left,
        hello_hash_of(provider, left.hello),
        right,
        hello_hash_of(provider, right.hello),
    );
}

/// Address bytes determine the address.
pub proof fn lemma_address_bytes_are_injective(left: RetrySourceAddress, right: RetrySourceAddress)
    requires
        address_bytes(left) == address_bytes(right),
    ensures
        left == right,
{
    let bytes = address_bytes(left);
    match (left, right) {
        (RetrySourceAddress::Ipv4(a), RetrySourceAddress::Ipv4(b)) => {
            assert(bytes.subrange(1, 5) =~= a@);
            assert(bytes.subrange(1, 5) =~= b@);
            assert(a =~= b);
        },
        (RetrySourceAddress::Ipv6(a), RetrySourceAddress::Ipv6(b)) => {
            assert(bytes.subrange(1, 17) =~= a@);
            assert(bytes.subrange(1, 17) =~= b@);
            assert(a =~= b);
        },
        _ => {
            assert(address_bytes(left)[0] != address_bytes(right)[0]);
        },
    }
}

/// Nonces of one key never repeat: different counters give different nonces.
pub proof fn lemma_nonces_never_repeat<K>(left: CookieKeyView<K>, right: CookieKeyView<K>)
    requires
        left.nonce_scope == right.nonce_scope,
        left.next_nonce_counter != right.next_nonce_counter,
    ensures
        next_nonce(left) != next_nonce(right),
{
    lemma_be32_inverse(left.next_nonce_counter);
    lemma_be32_inverse(right.next_nonce_counter);
    let scope = left.nonce_scope@.len() as int;
    assert(next_nonce(left).skip(scope) =~= be32(left.next_nonce_counter));
    assert(next_nonce(right).skip(scope) =~= be32(right.next_nonce_counter));
}

/// Whether issuing a cookie can lead from one ring to the next: the active key's counter stays, or
/// goes up by one.
pub open spec fn issuing_step<K>(before: CookieKeyRingView<K>, after: CookieKeyRingView<K>) -> bool {
    ||| after == before
    ||| before.active.next_nonce_counter < u32::MAX && after == with_nonce_reserved(before)
}

/// However many cookies a ring issues, and however many of them fail, a nonce that was reserved is
/// never used again.
pub proof fn lemma_reserved_nonces_are_not_reused<K>(
    rings: Seq<CookieKeyRingView<K>>,
    earlier: int,
    later: int,
)
    requires
        0 <= earlier < later < rings.len(),
        forall|k: int|
            0 <= k < rings.len() - 1 ==> issuing_step(#[trigger] rings[k], rings[k + 1]),
        rings[earlier + 1] == with_nonce_reserved(rings[earlier]),
        rings[earlier].active.next_nonce_counter < u32::MAX,
    ensures
        next_nonce(rings[earlier].active) != next_nonce(rings[later].active),
        rings[later].active.next_nonce_counter > rings[earlier].active.next_nonce_counter,
{
    lemma_counter_grows(rings, earlier + 1, later);
    lemma_nonces_never_repeat(rings[earlier].active, rings[later].active);
}

proof fn lemma_counter_grows<K>(rings: Seq<CookieKeyRingView<K>>, from: int, to: int)
    requires
        0 <= from <= to < rings.len(),
        forall|k: int|
            0 <= k < rings.len() - 1 ==> issuing_step(#[trigger] rings[k], rings[k + 1]),
    ensures
        rings[to].active.nonce_scope == rings[from].active.nonce_scope,
        rings[to].active.next_nonce_counter >= rings[from].active.next_nonce_counter,
    decreases to - from,
{
    if from < to {
        lemma_counter_grows(rings, from, to - 1);
        assert(issuing_step(rings[to - 1], rings[to - 1 + 1]));
    }
}

} // verus!
