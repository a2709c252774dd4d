//! Allocation-free codecs for canonical handshake messages.
//!
//! These types encode logical handshake messages. The long-header wire layer fragments the
//! resulting bytes independently.

use vstd::prelude::*;
use vstd::string::StringExecFns;

use crate::bytes::{be16, be16_at, be32, overwrite_prefix};
use crate::bytes::{get_array, get_u16, get_u32, part, put, put_u16, put_u32, put_u8};
use crate::bytes::{
    group_buffer_writes, lemma_be16_inverse, lemma_be16_of_bytes, lemma_be32_inverse,
    lemma_be32_of_bytes, lemma_be_at_shift,
};
use crate::text::{decimal, hexadecimal, hexadecimal4};
use crate::text::{fixed, hexadecimal4_text, hexadecimal_text, with_number, with_two_numbers};
use crate::wire::{WireError, AEAD_TAG_LEN};

verus! {

pub const RANDOM_LEN: usize = 32;

pub const IDENTITY_FINGERPRINT_LEN: usize = 48;

pub const X25519_PUBLIC_KEY_LEN: usize = 32;

pub const ML_KEM_768_ENCAPSULATION_KEY_LEN: usize = 1_184;

pub const ML_KEM_768_CIPHERTEXT_LEN: usize = 1_088;

pub const ML_KEM_SHARED_SECRET_LEN: usize = 32;

pub const X25519_SHARED_SECRET_LEN: usize = 32;

pub const HYBRID_SHARED_SECRET_LEN: usize = 64;

pub const ED25519_PUBLIC_KEY_LEN: usize = 32;

pub const ED25519_SIGNATURE_LEN: usize = 64;

pub const ML_DSA_65_PUBLIC_KEY_LEN: usize = 1_952;

pub const ML_DSA_65_SIGNATURE_LEN: usize = 3_309;

pub const FINISHED_MAC_LEN: usize = 48;

pub const MIN_RETRY_COOKIE_LEN: usize = 16;

pub const MAX_RETRY_COOKIE_LEN: usize = 256;

pub const MIN_MAX_UDP_PAYLOAD: u16 = 1_200;

pub const MAX_NEGOTIATED_PATHS: u8 = 16;

pub const HELLO_LEN: usize = 90;

pub const RETRY_FIXED_LEN: usize = RANDOM_LEN + 2;

pub const INIT_FIXED_LEN: usize = HELLO_LEN + RANDOM_LEN + 2 + X25519_PUBLIC_KEY_LEN
    + ML_KEM_768_ENCAPSULATION_KEY_LEN;

pub const IDENTITY_AUTH_LEN: usize = ED25519_PUBLIC_KEY_LEN + ML_DSA_65_PUBLIC_KEY_LEN
    + ED25519_SIGNATURE_LEN + ML_DSA_65_SIGNATURE_LEN + FINISHED_MAC_LEN;

pub const ENCRYPTED_IDENTITY_AUTH_LEN: usize = IDENTITY_AUTH_LEN + AEAD_TAG_LEN;

pub const RESPONSE_FIXED_LEN: usize = 2 + 4 + 2 + 1 + 1 + IDENTITY_FINGERPRINT_LEN
    + X25519_PUBLIC_KEY_LEN + ML_KEM_768_CIPHERTEXT_LEN + 2;

pub const RESPONSE_LEN: usize = RESPONSE_FIXED_LEN + ENCRYPTED_IDENTITY_AUTH_LEN;

pub const FINISH_LEN: usize = 2 + ENCRYPTED_IDENTITY_AUTH_LEN;

pub const CIPHER_SUITE_AES_256_GCM_SHA384_BIT: u16 = 0x0001;

pub const CIPHER_SUITE_CHACHA20_POLY1305_SHA384_BIT: u16 = 0x0002;

pub const KNOWN_CIPHER_SUITE_BITS: u16 = 0x0003;

pub const CAPABILITY_MULTIPATH_BIT: u32 = 0x0000_0001;

pub const CAPABILITY_RESUME_BIT: u32 = 0x0000_0002;

pub const CAPABILITY_PERIODIC_HYBRID_REKEY_BIT: u32 = 0x0000_0004;

pub const KNOWN_CAPABILITY_BITS: u32 = 0x0000_0007;

/// A cipher suite selected by the responder.
#[derive(Clone, Copy, Debug, PartialEq, Eq, Structural)]
pub enum CipherSuite {
    Aes256GcmSha384,
    ChaCha20Poly1305Sha384,
}

impl CipherSuite {
    /// Wire code of a suite.
    pub open spec fn code(self) -> u16 {
        match self {
            CipherSuite::Aes256GcmSha384 => 0x0001,
            CipherSuite::ChaCha20Poly1305Sha384 => 0x0002,
        }
    }

    /// Returns the wire code of this suite, which is also its bit in an offered bitmap.
    pub fn wire_code(self) -> (code: u16)
        ensures
            code == self.code(),
    {
        match self {
            CipherSuite::Aes256GcmSha384 => 0x0001,
            CipherSuite::ChaCha20Poly1305Sha384 => 0x0002,
        }
    }

    /// Returns the suite with a wire code.
    pub fn from_wire(value: u16) -> (suite: Result<CipherSuite, HandshakeError>)
        ensures
            match suite {
                Ok(suite) => suite.code() == value,
                Err(error) => {
                    &&& value != 0x0001
                    &&& value != 0x0002
                    &&& error == HandshakeError::UnknownCipherSuite(value)
                },
            },
    {
        match value {
            0x0001 => Ok(CipherSuite::Aes256GcmSha384),
            0x0002 => Ok(CipherSuite::ChaCha20Poly1305Sha384),
            _ => Err(HandshakeError::UnknownCipherSuite(value)),
        }
    }
}

/// Handshake codec validation failures.
#[derive(Clone, Copy, Debug, PartialEq, Eq)]
pub enum HandshakeError {
    Wire(WireError),
    NoKnownCipherSuite,
    UnknownCipherSuite(u16),
    InvalidMaxUdpPayload(u16),
    InvalidMaxPaths(u8),
    NonZeroReserved(u8),
    InvalidCookieLength { length: usize },
    InvalidComponentLength { component: &'static str, expected: usize, actual: usize },
}

impl From<WireError> for HandshakeError {
    fn from(error: WireError) -> (wrapped: HandshakeError) {
        HandshakeError::Wire(error)
    }
}

impl vstd::std_specs::convert::FromSpecImpl<WireError> for HandshakeError {
    open spec fn obeys_from_spec() -> bool {
        true
    }

    open spec fn from_spec(error: WireError) -> HandshakeError {
        HandshakeError::Wire(error)
    }
}

impl HandshakeError {
    /// The diagnostic text of a failure.
    pub open spec fn message_text(self) -> Seq<char> {
        match self {
            HandshakeError::Wire(error) => error.message_text(),
            HandshakeError::NoKnownCipherSuite => "no known cipher suite offered"@,
            HandshakeError::UnknownCipherSuite(suite) => "unknown cipher suite: 0x"@ + hexadecimal4(
                suite,
            ),
            HandshakeError::InvalidMaxUdpPayload(value) => "invalid maximum UDP payload: "@
                + decimal(value as nat) + ""@,
            HandshakeError::InvalidMaxPaths(value) => "invalid maximum paths: "@ + decimal(
                value as nat,
            ) + ""@,
            HandshakeError::NonZeroReserved(value) => "non-zero reserved handshake byte: 0x"@
                + hexadecimal(value as nat),
            HandshakeError::InvalidCookieLength { length } => "invalid RETRY cookie length: "@
                + decimal(length as nat) + ", expected 16..=256"@,
            HandshakeError::InvalidComponentLength { component, expected, actual } => "invalid "@
                + component@ + (" length: expected "@ + decimal(expected as nat) + ", actual "@
                + decimal(actual as nat) + ""@),
        }
    }

    /// Returns the diagnostic text of this failure.
    pub fn message(&self) -> (text: String)
        ensures
            text@ == self.message_text(),
    {
        match *self {
            HandshakeError::Wire(error) => error.message(),
            HandshakeError::NoKnownCipherSuite => fixed("no known cipher suite offered"),
            HandshakeError::UnknownCipherSuite(suite) => fixed("unknown cipher suite: 0x").concat(
                hexadecimal4_text(suite).as_str(),
            ),
            HandshakeError::InvalidMaxUdpPayload(value) => with_number(
                "invalid maximum UDP payload: ",
                value as u64,
                "",
            ),
            HandshakeError::InvalidMaxPaths(value) => with_number(
                "invalid maximum paths: ",
                value as u64,
                "",
            ),
            HandshakeError::NonZeroReserved(value) => fixed(
                "non-zero reserved handshake byte: 0x",
            ).concat(hexadecimal_text(value as u64).as_str()),
            HandshakeError::InvalidCookieLength { length } => with_number(
                "invalid RETRY cookie length: ",
                length as u64,
                ", expected 16..=256",
            ),
            HandshakeError::InvalidComponentLength { component, expected, actual } => fixed(
                "invalid ",
            ).concat(component).concat(
                with_two_numbers(
                    " length: expected ",
                    expected as u64,
                    ", actual ",
                    actual as u64,
                    "",
                ).as_str(),
            ),
        }
    }
}

/// The failure of negotiated transport limits, if any.
pub open spec fn transport_limits_failure(max_udp_payload: u16, max_paths: u8) -> Option<
    HandshakeError,
> {
    if max_udp_payload < MIN_MAX_UDP_PAYLOAD {
        Some(HandshakeError::InvalidMaxUdpPayload(max_udp_payload))
    } else if max_paths == 0 || max_paths > MAX_NEGOTIATED_PATHS {
        Some(HandshakeError::InvalidMaxPaths(max_paths))
    } else {
        None
    }
}

/// The failure of a cookie length, if any.
pub open spec fn cookie_failure(length: nat) -> Option<HandshakeError> {
    if MIN_RETRY_COOKIE_LEN <= length <= MAX_RETRY_COOKIE_LEN {
        None
    } else {
        Some(HandshakeError::InvalidCookieLength { length: length as usize })
    }
}

/// The failure of a fixed-size component's length, if any.
pub open spec fn component_failure(component: &'static str, actual: nat, expected: usize) -> Option<
    HandshakeError,
> {
    if actual == expected {
        None
    } else {
        Some(
            HandshakeError::InvalidComponentLength { component, expected, actual: actual as usize },
        )
    }
}

/// The failure of an output with room for `available` bytes, if any.
pub open spec fn output_failure(available: nat, needed: nat) -> Option<HandshakeError> {
    if available < needed {
        Some(
            HandshakeError::Wire(
                WireError::BufferTooSmall {
                    needed: needed as usize,
                    available: available as usize,
                },
            ),
        )
    } else {
        None
    }
}

/// The failure of an input that must have exactly `expected` bytes, if any.
pub open spec fn exact_failure(actual: nat, expected: nat) -> Option<HandshakeError> {
    if actual < expected {
        Some(
            HandshakeError::Wire(
                WireError::PacketTooShort { minimum: expected as usize, actual: actual as usize },
            ),
        )
    } else if actual != expected {
        Some(
            HandshakeError::Wire(
                WireError::LengthMismatch { expected: expected as usize, actual: actual as usize },
            ),
        )
    } else {
        None
    }
}

/// The first of two failures.
pub open spec fn first_failure(
    first: Option<HandshakeError>,
    second: Option<HandshakeError>,
) -> Option<HandshakeError> {
    match first {
        Some(error) => Some(error),
        None => second,
    }
}

fn validate_transport_limits(max_udp_payload: u16, max_paths: u8) -> (failure: Option<
    HandshakeError,
>)
    ensures
        failure == transport_limits_failure(max_udp_payload, max_paths),
{
    if max_udp_payload < MIN_MAX_UDP_PAYLOAD {
        return Some(HandshakeError::InvalidMaxUdpPayload(max_udp_payload));
    }
    if max_paths == 0 || max_paths > MAX_NEGOTIATED_PATHS {
        return Some(HandshakeError::InvalidMaxPaths(max_paths));
    }
    None
}

fn validate_cookie(cookie: &[u8]) -> (failure: Option<HandshakeError>)
    ensures
        failure == cookie_failure(cookie@.len()),
{
    if cookie.len() < MIN_RETRY_COOKIE_LEN || cookie.len() > MAX_RETRY_COOKIE_LEN {
        return Some(HandshakeError::InvalidCookieLength { length: cookie.len() });
    }
    None
}

fn require_component_length(
    component: &'static str,
    actual: usize,
    expected: usize,
) -> (failure: Option<HandshakeError>)
    ensures
        failure == component_failure(component, actual as nat, expected),
{
    if actual != expected {
        return Some(HandshakeError::InvalidComponentLength { component, expected, actual });
    }
    None
}

fn require_output(available: usize, needed: usize) -> (failure: Option<HandshakeError>)
    ensures
        failure == output_failure(available as nat, needed as nat),
{
    if available < needed {
        return Some(HandshakeError::Wire(WireError::BufferTooSmall { needed, available }));
    }
    None
}

fn require_exact(actual: usize, expected: usize) -> (failure: Option<HandshakeError>)
    ensures
        failure == exact_failure(actual as nat, expected as nat),
{
    if actual < expected {
        return Some(HandshakeError::Wire(WireError::PacketTooShort { minimum: expected, actual }));
    }
    if actual != expected {
        return Some(HandshakeError::Wire(WireError::LengthMismatch { expected, actual }));
    }
    None
}

/// Canonical HELLO message.
#[derive(Clone, Copy, Debug, PartialEq, Eq)]
pub struct Hello {
    pub client_random: [u8; RANDOM_LEN],
    pub identity_fingerprint: [u8; IDENTITY_FINGERPRINT_LEN],
    pub cipher_suite_bitmap: u16,
    pub capabilities: u32,
    pub max_udp_payload: u16,
    pub max_paths: u8,
}

impl Hello {
    /// Canonical bytes of the message.
    pub open spec fn encoding(self) -> Seq<u8> {
        self.client_random@ + self.identity_fingerprint@ + be16(self.cipher_suite_bitmap) + be32(
            self.capabilities,
        ) + be16(self.max_udp_payload) + seq![self.max_paths] + seq![0u8]
    }

    /// The failure of the negotiation fields, if any.
    pub open spec fn field_failure(self) -> Option<HandshakeError> {
        if self.cipher_suite_bitmap & KNOWN_CIPHER_SUITE_BITS == 0 {
            Some(HandshakeError::NoKnownCipherSuite)
        } else {
            transport_limits_failure(self.max_udp_payload, self.max_paths)
        }
    }

    /// The negotiation fields that `input` holds.
    pub open spec fn fields_failure_of(input: Seq<u8>) -> Option<HandshakeError> {
        if be16_at(input, 80) & KNOWN_CIPHER_SUITE_BITS == 0 {
            Some(HandshakeError::NoKnownCipherSuite)
        } else {
            transport_limits_failure(be16_at(input, 86), input[88])
        }
    }

    /// The failure of decoding `input`, if any.
    pub open spec fn decode_failure(input: Seq<u8>) -> Option<HandshakeError> {
        if exact_failure(input.len(), HELLO_LEN as nat) is Some {
            exact_failure(input.len(), HELLO_LEN as nat)
        } else if input[89] != 0 {
            Some(HandshakeError::NonZeroReserved(input[89]))
        } else {
            Self::fields_failure_of(input)
        }
    }

    /// Encodes a canonical HELLO message.
    ///
    /// # Errors
    ///
    /// Returns an error for invalid negotiation fields or a short output.
    pub fn encode(self, output: &mut [u8]) -> (written: Result<usize, HandshakeError>)
        ensures
            match first_failure(
                self.field_failure(),
                output_failure(old(output)@.len(), HELLO_LEN as nat),
            ) {
                Some(error) => {
                    &&& written == Err::<usize, HandshakeError>(error)
                    &&& final(output)@ == old(output)@
                },
                None => {
                    &&& written == Ok::<usize, HandshakeError>(HELLO_LEN)
                    &&& final(output)@ == overwrite_prefix(old(output)@, self.encoding())
                },
            },
    {
        broadcast use group_buffer_writes;

        match self.validate() {
            Some(error) => {
                return Err(error);
            },
            None => {},
        }
        match require_output(output.len(), HELLO_LEN) {
            Some(error) => {
                return Err(error);
            },
            None => {},
        }
        let mut at: usize = put(output, 0, &self.client_random);
        at = put(output, at, &self.identity_fingerprint);
        at = put_u16(output, at, self.cipher_suite_bitmap);
        at = put_u32(output, at, self.capabilities);
        at = put_u16(output, at, self.max_udp_payload);
        at = put_u8(output, at, self.max_paths);
        at = put_u8(output, at, 0);
        Ok(at)
    }

    /// Decodes an exact canonical HELLO message.
    ///
    /// # Errors
    ///
    /// Returns an error for a non-exact length, non-zero reserved byte, or invalid negotiation
    /// fields.
    pub fn decode(input: &[u8]) -> (decoded: Result<Hello, HandshakeError>)
        ensures
            match Self::decode_failure(input@) {
                Some(error) => decoded == Err::<Hello, HandshakeError>(error),
                None => {
                    &&& decoded is Ok
                    &&& decoded->Ok_0.encoding() == input@
                    &&& decoded->Ok_0.field_failure() is None
                },
            },
    {
        match require_exact(input.len(), HELLO_LEN) {
            Some(error) => {
                return Err(error);
            },
            None => {},
        }
        if input[89] != 0 {
            return Err(HandshakeError::NonZeroReserved(input[89]));
        }
        let hello = Hello {
            client_random: get_array::<RANDOM_LEN>(input, 0),
            identity_fingerprint: get_array::<IDENTITY_FINGERPRINT_LEN>(input, 32),
            cipher_suite_bitmap: get_u16(input, 80),
            capabilities: get_u32(input, 82),
            max_udp_payload: get_u16(input, 86),
            max_paths: input[88],
        };
        proof {
            lemma_be16_of_bytes(input@, 80);
            lemma_be32_of_bytes(input@, 82);
            lemma_be16_of_bytes(input@, 86);
            assert(hello.encoding() =~= input@);
        }
        match hello.validate() {
            Some(error) => Err(error),
            None => Ok(hello),
        }
    }

    fn validate(self) -> (failure: Option<HandshakeError>)
        ensures
            failure == self.field_failure(),
    {
        if self.cipher_suite_bitmap & KNOWN_CIPHER_SUITE_BITS == 0 {
            return Some(HandshakeError::NoKnownCipherSuite);
        }
        validate_transport_limits(self.max_udp_payload, self.max_paths)
    }
}

/// HELLO messages round-trip: an encodable message decodes, and its bytes determine it.
pub proof fn lemma_hello_round_trip(left: Hello, right: Hello)
    ensures
        left.encoding().len() == HELLO_LEN,
        left.field_failure() is None ==> Hello::decode_failure(left.encoding()) is None,
        left.encoding() == right.encoding() ==> left == right,
{
    let bytes = left.encoding();
    lemma_be16_inverse(left.cipher_suite_bitmap);
    lemma_be16_inverse(left.max_udp_payload);
    lemma_be32_inverse(left.capabilities);
    assert(bytes.subrange(80, 82) =~= be16(left.cipher_suite_bitmap));
    assert(bytes.subrange(86, 88) =~= be16(left.max_udp_payload));
    lemma_be_at_shift(bytes, be16(left.cipher_suite_bitmap), 80);
    lemma_be_at_shift(bytes, be16(left.max_udp_payload), 86);
    assert(bytes[88] == left.max_paths);
    assert(bytes[89] == 0);
    if left.encoding() == right.encoding() {
        lemma_be16_inverse(right.cipher_suite_bitmap);
        lemma_be16_inverse(right.max_udp_payload);
        lemma_be32_inverse(right.capabilities);
        assert(bytes.subrange(0, 32) =~= left.client_random@);
        assert(bytes.subrange(0, 32) =~= right.client_random@);
        assert(left.client_random =~= right.client_random);
        assert(bytes.subrange(32, 80) =~= left.identity_fingerprint@);
        assert(bytes.subrange(32, 80) =~= right.identity_fingerprint@);
        assert(left.identity_fingerprint =~= right.identity_fingerprint);
        assert(bytes.subrange(80, 82) =~= be16(right.cipher_suite_bitmap));
        assert(bytes.subrange(82, 86) =~= be32(left.capabilities));
        assert(bytes.subrange(82, 86) =~= be32(right.capabilities));
        assert(bytes.subrange(86, 88) =~= be16(right.max_udp_payload));
        assert(bytes[88] == right.max_paths);
        assert(left == right);
    }
}

/// Borrowed RETRY message carrying a stateless cookie.
#[derive(Clone, Copy, Debug, PartialEq, Eq)]
pub struct Retry<'a> {
    pub server_random: [u8; RANDOM_LEN],
    pub cookie: &'a [u8],
}

impl<'a> Retry<'a> {
    /// Canonical bytes of the message.
    pub open spec fn encoding(self) -> Seq<u8> {
        self.server_random@ + be16(self.cookie@.len() as u16) + self.cookie@
    }

    /// The failure of decoding `input`, if any.
    pub open spec fn decode_failure(input: Seq<u8>) -> Option<HandshakeError> {
        if input.len() < RETRY_FIXED_LEN {
            Some(
                HandshakeError::Wire(
                    WireError::PacketTooShort {
                        minimum: RETRY_FIXED_LEN,
                        actual: input.len() as usize,
                    },
                ),
            )
        } else {
            first_failure(
                exact_failure(input.len(), (RETRY_FIXED_LEN + be16_at(input, 32)) as nat),
                cookie_failure(be16_at(input, 32) as nat),
            )
        }
    }

    /// Encodes a canonical RETRY message.
    ///
    /// # Errors
    ///
    /// Returns an error for an invalid cookie length or a short output.
    pub fn encode(self, output: &mut [u8]) -> (written: Result<usize, HandshakeError>)
        ensures
            match first_failure(
                cookie_failure(self.cookie@.len()),
                output_failure(old(output)@.len(), RETRY_FIXED_LEN as nat + self.cookie@.len()),
            ) {
                Some(error) => {
                    &&& written == Err::<usize, HandshakeError>(error)
                    &&& final(output)@ == old(output)@
                },
                None => {
                    &&& written == Ok::<usize, HandshakeError>(
                        (RETRY_FIXED_LEN + self.cookie@.len()) as usize,
                    )
                    &&& final(output)@ == overwrite_prefix(old(output)@, self.encoding())
                },
            },
    {
        broadcast use group_buffer_writes;

        match validate_cookie(self.cookie) {
            Some(error) => {
                return Err(error);
            },
            None => {},
        }
        let needed: usize = RETRY_FIXED_LEN + self.cookie.len();
        match require_output(output.len(), needed) {
            Some(error) => {
                return Err(error);
            },
            None => {},
        }
        let mut at: usize = put(output, 0, &self.server_random);
        at = put_u16(output, at, self.cookie.len() as u16);
        at = put(output, at, self.cookie);
        Ok(at)
    }

    /// Decodes a canonical RETRY message.
    ///
    /// # Errors
    ///
    /// Returns an error for truncation, trailing bytes, or an invalid cookie.
    pub fn decode(input: &'a [u8]) -> (decoded: Result<Retry<'a>, HandshakeError>)
        ensures
            match Self::decode_failure(input@) {
                Some(error) => decoded == Err::<Retry<'a>, HandshakeError>(error),
                None => {
                    &&& decoded is Ok
                    &&& decoded->Ok_0.encoding() == input@
                    &&& cookie_failure(decoded->Ok_0.cookie@.len()) is None
                },
            },
    {
        if input.len() < RETRY_FIXED_LEN {
            return Err(
                HandshakeError::Wire(
                    WireError::PacketTooShort { minimum: RETRY_FIXED_LEN, actual: input.len() },
                ),
            );
        }
        let cookie_length: usize = get_u16(input, 32) as usize;
        match require_exact(input.len(), RETRY_FIXED_LEN + cookie_length) {
            Some(error) => {
                return Err(error);
            },
            None => {},
        }
        let cookie: &'a [u8] = part(input, RETRY_FIXED_LEN, input.len());
        match validate_cookie(cookie) {
            Some(error) => {
                return Err(error);
            },
            None => {},
        }
        let retry = Retry { server_random: get_array::<RANDOM_LEN>(input, 0), cookie };
        proof {
            lemma_be16_of_bytes(input@, 32);
            assert(retry.encoding() =~= input@);
        }
        Ok(retry)
    }
}

/// RETRY messages round-trip: an encodable message decodes, and its bytes determine it.
pub proof fn lemma_retry_round_trip(left: Retry, right: Retry)
    requires
        cookie_failure(left.cookie@.len()) is None,
        cookie_failure(right.cookie@.len()) is None,
    ensures
        Retry::decode_failure(left.encoding()) is None,
        left.encoding() == right.encoding() ==> left.server_random == right.server_random
            && left.cookie@ == right.cookie@,
{
    let bytes = left.encoding();
    lemma_be16_inverse(left.cookie@.len() as u16);
    assert(bytes.subrange(32, 34) =~= be16(left.cookie@.len() as u16));
    lemma_be_at_shift(bytes, be16(left.cookie@.len() as u16), 32);
    if left.encoding() == right.encoding() {
        assert(bytes.subrange(0, 32) =~= left.server_random@);
        assert(bytes.subrange(0, 32) =~= right.server_random@);
        assert(left.server_random =~= right.server_random);
        assert(bytes.skip(34) =~= left.cookie@);
        assert(bytes.skip(34) =~= right.cookie@);
    }
}

/// Borrowed INIT message containing the initiator hybrid key share.
#[derive(Clone, Copy, Debug, PartialEq, Eq)]
pub struct Init<'a> {
    pub hello: Hello,
    pub server_random: [u8; RANDOM_LEN],
    pub cookie: &'a [u8],
    pub x25519_public_key: [u8; X25519_PUBLIC_KEY_LEN],
    pub ml_kem_encapsulation_key: &'a [u8],
}

impl<'a> Init<'a> {
    /// Canonical bytes of the message.
    pub open spec fn encoding(self) -> Seq<u8> {
        self.hello.encoding() + self.server_random@ + be16(self.cookie@.len() as u16) + self.cookie@
            + self.x25519_public_key@ + self.ml_kem_encapsulation_key@
    }

    /// The failure of the message's fields apart from its HELLO, if any.
    pub open spec fn field_failure(self) -> Option<HandshakeError> {
        first_failure(
            cookie_failure(self.cookie@.len()),
            component_failure(
                "ML-KEM-768 encapsulation key",
                self.ml_kem_encapsulation_key@.len(),
                ML_KEM_768_ENCAPSULATION_KEY_LEN,
            ),
        )
    }

    /// The failure of encoding the message into `available` bytes, if any.
    pub open spec fn encode_failure(self, available: nat) -> Option<HandshakeError> {
        first_failure(
            self.field_failure(),
            first_failure(
                output_failure(available, INIT_FIXED_LEN as nat + self.cookie@.len()),
                self.hello.field_failure(),
            ),
        )
    }

    /// The failure of decoding `input`, if any.
    pub open spec fn decode_failure(input: Seq<u8>) -> Option<HandshakeError> {
        if input.len() < INIT_FIXED_LEN {
            Some(
                HandshakeError::Wire(
                    WireError::PacketTooShort {
                        minimum: INIT_FIXED_LEN,
                        actual: input.len() as usize,
                    },
                ),
            )
        } else {
            first_failure(
                Hello::decode_failure(input.take(HELLO_LEN as int)),
                first_failure(
                    exact_failure(input.len(), (INIT_FIXED_LEN + be16_at(input, 122)) as nat),
                    cookie_failure(be16_at(input, 122) as nat),
                ),
            )
        }
    }

    /// Encodes a canonical INIT message.
    ///
    /// # Errors
    ///
    /// Returns an error for invalid fields, incorrect ML-KEM key size, or a short output.
    pub fn encode(self, output: &mut [u8]) -> (written: Result<usize, HandshakeError>)
        ensures
            match self.encode_failure(old(output)@.len()) {
                Some(error) => {
                    &&& written == Err::<usize, HandshakeError>(error)
                    &&& final(output)@ == old(output)@
                },
                None => {
                    &&& written == Ok::<usize, HandshakeError>(
                        (INIT_FIXED_LEN + self.cookie@.len()) as usize,
                    )
                    &&& final(output)@ == overwrite_prefix(old(output)@, self.encoding())
                },
            },
    {
        broadcast use group_buffer_writes;

        match validate_cookie(self.cookie) {
            Some(error) => {
                return Err(error);
            },
            None => {},
        }
        match require_component_length(
            "ML-KEM-768 encapsulation key",
            self.ml_kem_encapsulation_key.len(),
            ML_KEM_768_ENCAPSULATION_KEY_LEN,
        ) {
            Some(error) => {
                return Err(error);
            },
            None => {},
        }
        let needed: usize = INIT_FIXED_LEN + self.cookie.len();
        match require_output(output.len(), needed) {
            Some(error) => {
                return Err(error);
            },
            None => {},
        }
        match self.hello.encode(output) {
            Err(error) => {
                return Err(error);
            },
            Ok(_) => {},
        }
        let mut at: usize = put(output, HELLO_LEN, &self.server_random);
        at = put_u16(output, at, self.cookie.len() as u16);
        at = put(output, at, self.cookie);
        at = put(output, at, &self.x25519_public_key);
        at = put(output, at, self.ml_kem_encapsulation_key);
        Ok(at)
    }

    /// Decodes a canonical INIT message without copying the ML-KEM key.
    ///
    /// # Errors
    ///
    /// Returns an error for invalid HELLO fields, cookie bounds, truncation, trailing bytes, or an
    /// incorrect ML-KEM key size.
    pub fn decode(input: &'a [u8]) -> (decoded: Result<Init<'a>, HandshakeError>)
        ensures
            match Self::decode_failure(input@) {
                Some(error) => decoded == Err::<Init<'a>, HandshakeError>(error),
                None => {
                    &&& decoded is Ok
                    &&& decoded->Ok_0.encoding() == input@
                    &&& decoded->Ok_0.field_failure() is None
                    &&& decoded->Ok_0.hello.field_failure() is None
                },
            },
    {
        if input.len() < INIT_FIXED_LEN {
            return Err(
                HandshakeError::Wire(
                    WireError::PacketTooShort { minimum: INIT_FIXED_LEN, actual: input.len() },
                ),
            );
        }
        assert(input@.subrange(0, HELLO_LEN as int) =~= input@.take(HELLO_LEN as int));
        let hello = match Hello::decode(part(input, 0, HELLO_LEN)) {
            Ok(hello) => hello,
            Err(error) => {
                return Err(error);
            },
        };
        let server_random = get_array::<RANDOM_LEN>(input, HELLO_LEN);
        let cookie_length: usize = get_u16(input, HELLO_LEN + RANDOM_LEN) as usize;
        match require_exact(input.len(), INIT_FIXED_LEN + cookie_length) {
            Some(error) => {
                return Err(error);
            },
            None => {},
        }
        let cookie_start: usize = HELLO_LEN + RANDOM_LEN + 2;
        let cookie_end: usize = cookie_start + cookie_length;
        let cookie: &'a [u8] = part(input, cookie_start, cookie_end);
        match validate_cookie(cookie) {
            Some(error) => {
                return Err(error);
            },
            None => {},
        }
        let x25519_public_key = get_array::<X25519_PUBLIC_KEY_LEN>(input, cookie_end);
        let ml_kem_encapsulation_key: &'a [u8] = part(
            input,
            cookie_end + X25519_PUBLIC_KEY_LEN,
            input.len(),
        );
        match require_component_length(
            "ML-KEM-768 encapsulation key",
            ml_kem_encapsulation_key.len(),
            ML_KEM_768_ENCAPSULATION_KEY_LEN,
        ) {
            Some(error) => {
                return Err(error);
            },
            None => {},
        }
        let init = Init {
            hello,
            server_random,
            cookie,
            x25519_public_key,
            ml_kem_encapsulation_key,
        };
        proof {
            lemma_be16_of_bytes(input@, 122);
            assert(hello.encoding() == input@.take(HELLO_LEN as int));
            assert(init.encoding() =~= input@);
        }
        Ok(init)
    }
}

/// INIT messages round-trip: an encodable message decodes, and its bytes determine it.
pub proof fn lemma_init_round_trip(left: Init, right: Init)
    requires
        left.field_failure() is None,
        left.hello.field_failure() is None,
        right.field_failure() is None,
    ensures
        Init::decode_failure(left.encoding()) is None,
        left.encoding() == right.encoding() ==> {
            &&& left.hello == right.hello
            &&& left.server_random == right.server_random
            &&& left.cookie@ == right.cookie@
            &&& left.x25519_public_key == right.x25519_public_key
            &&& left.ml_kem_encapsulation_key@ == right.ml_kem_encapsulation_key@
        },
{
    let bytes = left.encoding();
    let length = left.cookie@.len() as u16;
    lemma_hello_round_trip(left.hello, right.hello);
    lemma_hello_round_trip(right.hello, right.hello);
    lemma_be16_inverse(length);
    assert(bytes.take(HELLO_LEN as int) =~= left.hello.encoding());
    assert(bytes.subrange(122, 124) =~= be16(length));
    lemma_be_at_shift(bytes, be16(length), 122);
    if left.encoding() == right.encoding() {
        let right_length = right.cookie@.len() as u16;
        lemma_be16_inverse(right_length);
        assert(bytes.take(HELLO_LEN as int) =~= right.hello.encoding());
        assert(bytes.subrange(90, 122) =~= left.server_random@);
        assert(bytes.subrange(90, 122) =~= right.server_random@);
        assert(left.server_random =~= right.server_random);
        assert(bytes.subrange(122, 124) =~= be16(right_length));
        assert(bytes.subrange(124, 124 + length) =~= left.cookie@);
        assert(bytes.subrange(124, 124 + right_length) =~= right.cookie@);
        assert(bytes.subrange(124 + length, 156 + length) =~= left.x25519_public_key@);
        assert(bytes.subrange(124 + length, 156 + length) =~= right.x25519_public_key@);
        assert(left.x25519_public_key =~= right.x25519_public_key);
        assert(bytes.skip(156 + length) =~= left.ml_kem_encapsulation_key@);
        assert(bytes.skip(156 + length) =~= right.ml_kem_encapsulation_key@);
    }
}

/// Borrowed RESPONSE containing the responder key share and encrypted identity.
#[derive(Clone, Copy, Debug, PartialEq, Eq)]
pub struct Response<'a> {
    pub selected_cipher_suite: CipherSuite,
    pub negotiated_capabilities: u32,
    pub max_udp_payload: u16,
    pub max_paths: u8,
    pub identity_fingerprint: [u8; IDENTITY_FINGERPRINT_LEN],
    pub x25519_public_key: [u8; X25519_PUBLIC_KEY_LEN],
    pub ml_kem_ciphertext: &'a [u8],
    pub encrypted_identity_auth: &'a [u8],
}

impl<'a> Response<'a> {
    /// Canonical bytes of the message.
    pub open spec fn encoding(self) -> Seq<u8> {
        be16(self.selected_cipher_suite.code()) + be32(self.negotiated_capabilities) + be16(
            self.max_udp_payload,
        ) + seq![self.max_paths] + seq![0u8] + self.identity_fingerprint@ + self.x25519_public_key@
            + self.ml_kem_ciphertext@ + be16(self.encrypted_identity_auth@.len() as u16)
            + self.encrypted_identity_auth@
    }

    /// The failure of the message's fields, if any.
    pub open spec fn field_failure(self) -> Option<HandshakeError> {
        first_failure(
            transport_limits_failure(self.max_udp_payload, self.max_paths),
            first_failure(
                component_failure(
                    "ML-KEM-768 ciphertext",
                    self.ml_kem_ciphertext@.len(),
                    ML_KEM_768_CIPHERTEXT_LEN,
                ),
                component_failure(
                    "encrypted identity authentication",
                    self.encrypted_identity_auth@.len(),
                    ENCRYPTED_IDENTITY_AUTH_LEN,
                ),
            ),
        )
    }

    /// The failure of decoding `input`, if any.
    pub open spec fn decode_failure(input: Seq<u8>) -> Option<HandshakeError> {
        if exact_failure(input.len(), RESPONSE_LEN as nat) is Some {
            exact_failure(input.len(), RESPONSE_LEN as nat)
        } else if input[9] != 0 {
            Some(HandshakeError::NonZeroReserved(input[9]))
        } else if be16_at(input, 0) != 1 && be16_at(input, 0) != 2 {
            Some(HandshakeError::UnknownCipherSuite(be16_at(input, 0)))
        } else {
            first_failure(
                transport_limits_failure(be16_at(input, 6), input[8]),
                component_failure(
                    "encrypted identity authentication",
                    be16_at(input, 1_178) as nat,
                    ENCRYPTED_IDENTITY_AUTH_LEN,
                ),
            )
        }
    }

    /// Encodes a fixed-size canonical RESPONSE message.
    ///
    /// # Errors
    ///
    /// Returns an error for invalid negotiated limits, component sizes, or a short output.
    pub fn encode(self, output: &mut [u8]) -> (written: Result<usize, HandshakeError>)
        ensures
            match first_failure(
                self.field_failure(),
                output_failure(old(output)@.len(), RESPONSE_LEN as nat),
            ) {
                Some(error) => {
                    &&& written == Err::<usize, HandshakeError>(error)
                    &&& final(output)@ == old(output)@
                },
                None => {
                    &&& written == Ok::<usize, HandshakeError>(RESPONSE_LEN)
                    &&& final(output)@ == overwrite_prefix(old(output)@, self.encoding())
                },
            },
    {
        broadcast use group_buffer_writes;

        match validate_transport_limits(self.max_udp_payload, self.max_paths) {
            Some(error) => {
                return Err(error);
            },
            None => {},
        }
        match require_component_length(
            "ML-KEM-768 ciphertext",
            self.ml_kem_ciphertext.len(),
            ML_KEM_768_CIPHERTEXT_LEN,
        ) {
            Some(error) => {
                return Err(error);
            },
            None => {},
        }
        match require_component_length(
            "encrypted identity authentication",
            self.encrypted_identity_auth.len(),
            ENCRYPTED_IDENTITY_AUTH_LEN,
        ) {
            Some(error) => {
                return Err(error);
            },
            None => {},
        }
        match require_output(output.len(), RESPONSE_LEN) {
            Some(error) => {
                return Err(error);
            },
            None => {},
        }
        let mut at: usize = put_u16(output, 0, self.selected_cipher_suite.wire_code());
        at = put_u32(output, at, self.negotiated_capabilities);
        at = put_u16(output, at, self.max_udp_payload);
        at = put_u8(output, at, self.max_paths);
        at = put_u8(output, at, 0);
        at = put(output, at, &self.identity_fingerprint);
        at = put(output, at, &self.x25519_public_key);
        at = put(output, at, self.ml_kem_ciphertext);
        at = put_u16(output, at, self.encrypted_identity_auth.len() as u16);
        at = put(output, at, self.encrypted_identity_auth);
        Ok(at)
    }

    /// Decodes a fixed-size canonical RESPONSE message without large copies.
    ///
    /// # Errors
    ///
    /// Returns an error for any non-exact size, unknown suite, non-zero reserved byte, invalid
    /// limit, or incorrect component length.
    pub fn decode(input: &'a [u8]) -> (decoded: Result<Response<'a>, HandshakeError>)
        ensures
            match Self::decode_failure(input@) {
                Some(error) => decoded == Err::<Response<'a>, HandshakeError>(error),
                None => {
                    &&& decoded is Ok
                    &&& decoded->Ok_0.encoding() == input@
                    &&& decoded->Ok_0.field_failure() is None
                },
            },
    {
        match require_exact(input.len(), RESPONSE_LEN) {
            Some(error) => {
                return Err(error);
            },
            None => {},
        }
        if input[9] != 0 {
            return Err(HandshakeError::NonZeroReserved(input[9]));
        }
        let selected_cipher_suite = match CipherSuite::from_wire(get_u16(input, 0)) {
            Ok(suite) => suite,
            Err(error) => {
                return Err(error);
            },
        };
        let max_udp_payload: u16 = get_u16(input, 6);
        let max_paths: u8 = input[8];
        match validate_transport_limits(max_udp_payload, max_paths) {
            Some(error) => {
                return Err(error);
            },
            None => {},
        }
        let encrypted_length: usize = get_u16(input, 1_178) as usize;
        match require_component_length(
            "encrypted identity authentication",
            encrypted_length,
            ENCRYPTED_IDENTITY_AUTH_LEN,
        ) {
            Some(error) => {
                return Err(error);
            },
            None => {},
        }
        let response = Response {
            selected_cipher_suite,
            negotiated_capabilities: get_u32(input, 2),
            max_udp_payload,
            max_paths,
            identity_fingerprint: get_array::<IDENTITY_FINGERPRINT_LEN>(input, 10),
            x25519_public_key: get_array::<X25519_PUBLIC_KEY_LEN>(input, 58),
            ml_kem_ciphertext: part(input, 90, 1_178),
            encrypted_identity_auth: part(input, 1_180, input.len()),
        };
        proof {
            lemma_be16_of_bytes(input@, 0);
            lemma_be32_of_bytes(input@, 2);
            lemma_be16_of_bytes(input@, 6);
            lemma_be16_of_bytes(input@, 1_178);
            assert(response.encoding() =~= input@);
        }
        Ok(response)
    }
}

/// The parts of an encoded RESPONSE.
pub proof fn lemma_response_parts(response: Response)
    requires
        response.field_failure() is None,
    ensures
        response.encoding().len() == RESPONSE_LEN,
        be16_at(response.encoding(), 0) == response.selected_cipher_suite.code(),
        response.encoding().subrange(2, 6) == be32(response.negotiated_capabilities),
        be16_at(response.encoding(), 6) == response.max_udp_payload,
        response.encoding()[8] == response.max_paths,
        response.encoding()[9] == 0,
        response.encoding().subrange(10, 58) == response.identity_fingerprint@,
        response.encoding().subrange(58, 90) == response.x25519_public_key@,
        response.encoding().subrange(90, 1_178) == response.ml_kem_ciphertext@,
        be16_at(response.encoding(), 1_178) == response.encrypted_identity_auth@.len(),
        response.encoding().skip(1_180) == response.encrypted_identity_auth@,
{
    let bytes = response.encoding();
    let suite = response.selected_cipher_suite.code();
    let length = response.encrypted_identity_auth@.len() as u16;
    lemma_be16_inverse(suite);
    lemma_be16_inverse(response.max_udp_payload);
    lemma_be16_inverse(length);
    let limits = be16(suite) + be32(response.negotiated_capabilities) + be16(
        response.max_udp_payload,
    ) + seq![response.max_paths] + seq![0u8];
    let keys = limits + response.identity_fingerprint@ + response.x25519_public_key@;
    let shares = keys + response.ml_kem_ciphertext@;
    assert(bytes == shares + be16(length) + response.encrypted_identity_auth@);
    assert(limits.len() == 10);
    assert(keys.len() == 90);
    assert(shares.len() == 1_178);
    assert(bytes.take(90) =~= keys);
    assert(keys.take(10) =~= limits);
    assert(bytes.take(10) =~= limits);
    assert(limits.subrange(0, 2) =~= be16(suite));
    assert(limits.subrange(2, 6) =~= be32(response.negotiated_capabilities));
    assert(limits.subrange(6, 8) =~= be16(response.max_udp_payload));
    assert(bytes.subrange(0, 2) =~= limits.subrange(0, 2));
    assert(bytes.subrange(2, 6) =~= limits.subrange(2, 6));
    assert(bytes.subrange(6, 8) =~= limits.subrange(6, 8));
    lemma_be_at_shift(bytes, be16(suite), 0);
    lemma_be_at_shift(bytes, be16(response.max_udp_payload), 6);
    assert(limits[8] == response.max_paths && limits[9] == 0);
    assert(bytes[8] == limits[8] && bytes[9] == limits[9]);
    assert(keys.subrange(10, 58) =~= response.identity_fingerprint@);
    assert(keys.subrange(58, 90) =~= response.x25519_public_key@);
    assert(bytes.subrange(10, 58) =~= keys.subrange(10, 58));
    assert(bytes.subrange(58, 90) =~= keys.subrange(58, 90));
    assert(bytes.subrange(90, 1_178) =~= response.ml_kem_ciphertext@);
    assert(bytes.subrange(1_178, 1_180) =~= be16(length));
    lemma_be_at_shift(bytes, be16(length), 1_178);
    assert(bytes.skip(1_180) =~= response.encrypted_identity_auth@);
}

/// RESPONSE messages round-trip: an encodable message decodes, and its bytes determine it.
pub proof fn lemma_response_round_trip(left: Response, right: Response)
    requires
        left.field_failure() is None,
        right.field_failure() is None,
    ensures
        left.encoding().len() == RESPONSE_LEN,
        Response::decode_failure(left.encoding()) is None,
        left.encoding() == right.encoding() ==> {
            &&& left.selected_cipher_suite == right.selected_cipher_suite
            &&& left.negotiated_capabilities == right.negotiated_capabilities
            &&& left.max_udp_payload == right.max_udp_payload
            &&& left.max_paths == right.max_paths
            &&& left.identity_fingerprint == right.identity_fingerprint
            &&& left.x25519_public_key == right.x25519_public_key
            &&& left.ml_kem_ciphertext@ == right.ml_kem_ciphertext@
            &&& left.encrypted_identity_auth@ == right.encrypted_identity_auth@
        },
{
    lemma_response_parts(left);
    if left.encoding() == right.encoding() {
        lemma_response_parts(right);
        lemma_be32_inverse(left.negotiated_capabilities);
        lemma_be32_inverse(right.negotiated_capabilities);
        assert(left.identity_fingerprint =~= right.identity_fingerprint);
        assert(left.x25519_public_key =~= right.x25519_public_key);
    }
}

/// Borrowed FINISH message carrying initiator authentication ciphertext.
#[derive(Clone, Copy, Debug, PartialEq, Eq)]
pub struct Finish<'a> {
    pub encrypted_identity_auth: &'a [u8],
}

impl<'a> Finish<'a> {
    /// Canonical bytes of the message.
    pub open spec fn encoding(self) -> Seq<u8> {
        be16(self.encrypted_identity_auth@.len() as u16) + self.encrypted_identity_auth@
    }

    /// The failure of the message's field, if any.
    pub open spec fn field_failure(self) -> Option<HandshakeError> {
        component_failure(
            "encrypted identity authentication",
            self.encrypted_identity_auth@.len(),
            ENCRYPTED_IDENTITY_AUTH_LEN,
        )
    }

    /// The failure of decoding `input`, if any.
    pub open spec fn decode_failure(input: Seq<u8>) -> Option<HandshakeError> {
        first_failure(
            exact_failure(input.len(), FINISH_LEN as nat),
            component_failure(
                "encrypted identity authentication",
                be16_at(input, 0) as nat,
                ENCRYPTED_IDENTITY_AUTH_LEN,
            ),
        )
    }

    /// Encodes a canonical FINISH message.
    ///
    /// # Errors
    ///
    /// Returns an error for an incorrect ciphertext size or a short output.
    pub fn encode(self, output: &mut [u8]) -> (written: Result<usize, HandshakeError>)
        ensures
            match first_failure(
                self.field_failure(),
                output_failure(old(output)@.len(), FINISH_LEN as nat),
            ) {
                Some(error) => {
                    &&& written == Err::<usize, HandshakeError>(error)
                    &&& final(output)@ == old(output)@
                },
                None => {
                    &&& written == Ok::<usize, HandshakeError>(FINISH_LEN)
                    &&& final(output)@ == overwrite_prefix(old(output)@, self.encoding())
                },
            },
    {
        broadcast use group_buffer_writes;

        match require_component_length(
            "encrypted identity authentication",
            self.encrypted_identity_auth.len(),
            ENCRYPTED_IDENTITY_AUTH_LEN,
        ) {
            Some(error) => {
                return Err(error);
            },
            None => {},
        }
        match require_output(output.len(), FINISH_LEN) {
            Some(error) => {
                return Err(error);
            },
            None => {},
        }
        let mut at: usize = put_u16(output, 0, self.encrypted_identity_auth.len() as u16);
        at = put(output, at, self.encrypted_identity_auth);
        Ok(at)
    }

    /// Decodes a fixed-size canonical FINISH message.
    ///
    /// # Errors
    ///
    /// Returns an error for any non-exact or inconsistent length.
    pub fn decode(input: &'a [u8]) -> (decoded: Result<Finish<'a>, HandshakeError>)
        ensures
            match Self::decode_failure(input@) {
                Some(error) => decoded == Err::<Finish<'a>, HandshakeError>(error),
                None => {
                    &&& decoded is Ok
                    &&& decoded->Ok_0.encoding() == input@
                    &&& decoded->Ok_0.field_failure() is None
                },
            },
    {
        match require_exact(input.len(), FINISH_LEN) {
            Some(error) => {
                return Err(error);
            },
            None => {},
        }
        let encrypted_length: usize = get_u16(input, 0) as usize;
        match require_component_length(
            "encrypted identity authentication",
            encrypted_length,
            ENCRYPTED_IDENTITY_AUTH_LEN,
        ) {
            Some(error) => {
                return Err(error);
            },
            None => {},
        }
        let finish = Finish { encrypted_identity_auth: part(input, 2, input.len()) };
        proof {
            lemma_be16_of_bytes(input@, 0);
            assert(finish.encoding() =~= input@);
        }
        Ok(finish)
    }
}

/// FINISH messages round-trip: an encodable message decodes, and its bytes determine it.
pub proof fn lemma_finish_round_trip(left: Finish, right: Finish)
    requires
        left.field_failure() is None,
        right.field_failure() is None,
    ensures
        Finish::decode_failure(left.encoding()) is None,
        left.encoding() == right.encoding() ==> left.encrypted_identity_auth@
            == right.encrypted_identity_auth@,
{
    let bytes = left.encoding();
    let length = left.encrypted_identity_auth@.len() as u16;
    lemma_be16_inverse(length);
    assert(bytes.subrange(0, 2) =~= be16(length));
    lemma_be_at_shift(bytes, be16(length), 0);
    if left.encoding() == right.encoding() {
        assert(bytes.skip(2) =~= left.encrypted_identity_auth@);
        assert(bytes.skip(2) =~= right.encrypted_identity_auth@);
    }
}

/// Borrowed plaintext sealed inside RESPONSE and FINISH.
#[derive(Clone, Copy, Debug, PartialEq, Eq)]
pub struct IdentityAuth<'a> {
    pub ed25519_public_key: [u8; ED25519_PUBLIC_KEY_LEN],
    pub ml_dsa_public_key: &'a [u8],
    pub ed25519_signature: [u8; ED25519_SIGNATURE_LEN],
    pub ml_dsa_signature: &'a [u8],
    pub finished_mac: [u8; FINISHED_MAC_LEN],
}

impl<'a> IdentityAuth<'a> {
    /// Canonical bytes of the plaintext.
    pub open spec fn encoding(self) -> Seq<u8> {
        self.ed25519_public_key@ + self.ml_dsa_public_key@ + self.ed25519_signature@
            + self.ml_dsa_signature@ + self.finished_mac@
    }

    /// The failure of the variable-size components, if any.
    pub open spec fn field_failure(self) -> Option<HandshakeError> {
        first_failure(
            component_failure(
                "ML-DSA-65 public key",
                self.ml_dsa_public_key@.len(),
                ML_DSA_65_PUBLIC_KEY_LEN,
            ),
            component_failure(
                "ML-DSA-65 signature",
                self.ml_dsa_signature@.len(),
                ML_DSA_65_SIGNATURE_LEN,
            ),
        )
    }

    /// Encodes canonical identity-authentication plaintext.
    ///
    /// # Errors
    ///
    /// Returns an error for an incorrect ML-DSA component size or short output.
    pub fn encode(self, output: &mut [u8]) -> (written: Result<usize, HandshakeError>)
        ensures
            match first_failure(
                self.field_failure(),
                output_failure(old(output)@.len(), IDENTITY_AUTH_LEN as nat),
            ) {
                Some(error) => {
                    &&& written == Err::<usize, HandshakeError>(error)
                    &&& final(output)@ == old(output)@
                },
                None => {
                    &&& written == Ok::<usize, HandshakeError>(IDENTITY_AUTH_LEN)
                    &&& final(output)@ == overwrite_prefix(old(output)@, self.encoding())
                },
            },
    {
        broadcast use group_buffer_writes;

        match require_component_length(
            "ML-DSA-65 public key",
            self.ml_dsa_public_key.len(),
            ML_DSA_65_PUBLIC_KEY_LEN,
        ) {
            Some(error) => {
                return Err(error);
            },
            None => {},
        }
        match require_component_length(
            "ML-DSA-65 signature",
            self.ml_dsa_signature.len(),
            ML_DSA_65_SIGNATURE_LEN,
        ) {
            Some(error) => {
                return Err(error);
            },
            None => {},
        }
        match require_output(output.len(), IDENTITY_AUTH_LEN) {
            Some(error) => {
                return Err(error);
            },
            None => {},
        }
        let mut at: usize = put(output, 0, &self.ed25519_public_key);
        at = put(output, at, self.ml_dsa_public_key);
        at = put(output, at, &self.ed25519_signature);
        at = put(output, at, self.ml_dsa_signature);
        at = put(output, at, &self.finished_mac);
        Ok(at)
    }

    /// Decodes fixed-size identity-authentication plaintext without large copies.
    ///
    /// # Errors
    ///
    /// Returns an error unless `input` is exactly [`IDENTITY_AUTH_LEN`] bytes.
    pub fn decode(input: &'a [u8]) -> (decoded: Result<IdentityAuth<'a>, HandshakeError>)
        ensures
            match exact_failure(input@.len(), IDENTITY_AUTH_LEN as nat) {
                Some(error) => decoded == Err::<IdentityAuth<'a>, HandshakeError>(error),
                None => {
                    &&& decoded is Ok
                    &&& decoded->Ok_0.encoding() == input@
                    &&& decoded->Ok_0.field_failure() is None
                },
            },
    {
        match require_exact(input.len(), IDENTITY_AUTH_LEN) {
            Some(error) => {
                return Err(error);
            },
            None => {},
        }
        let auth = IdentityAuth {
            ed25519_public_key: get_array::<ED25519_PUBLIC_KEY_LEN>(input, 0),
            ml_dsa_public_key: part(input, 32, 1_984),
            ed25519_signature: get_array::<ED25519_SIGNATURE_LEN>(input, 1_984),
            ml_dsa_signature: part(input, 2_048, 5_357),
            finished_mac: get_array::<FINISHED_MAC_LEN>(input, 5_357),
        };
        assert(auth.encoding() =~= input@);
        Ok(auth)
    }
}

/// Identity plaintexts round-trip: an encodable one decodes, and its bytes determine it.
pub proof fn lemma_identity_auth_round_trip(left: IdentityAuth, right: IdentityAuth)
    requires
        left.field_failure() is None,
        right.field_failure() is None,
    ensures
        exact_failure(left.encoding().len(), IDENTITY_AUTH_LEN as nat) is None,
        left.encoding() == right.encoding() ==> {
            &&& left.ed25519_public_key == right.ed25519_public_key
            &&& left.ml_dsa_public_key@ == right.ml_dsa_public_key@
            &&& left.ed25519_signature == right.ed25519_signature
            &&& left.ml_dsa_signature@ == right.ml_dsa_signature@
            &&& left.finished_mac == right.finished_mac
        },
{
    if left.encoding() == right.encoding() {
        let bytes = left.encoding();
        assert(bytes.subrange(0, 32) =~= left.ed25519_public_key@);
        assert(bytes.subrange(0, 32) =~= right.ed25519_public_key@);
        assert(left.ed25519_public_key =~= right.ed25519_public_key);
        assert(bytes.subrange(32, 1_984) =~= left.ml_dsa_public_key@);
        assert(bytes.subrange(32, 1_984) =~= right.ml_dsa_public_key@);
        assert(bytes.subrange(1_984, 2_048) =~= left.ed25519_signature@);
        assert(bytes.subrange(1_984, 2_048) =~= right.ed25519_signature@);
        assert(left.ed25519_signature =~= right.ed25519_signature);
        assert(bytes.subrange(2_048, 5_357) =~= left.ml_dsa_signature@);
        assert(bytes.subrange(2_048, 5_357) =~= right.ml_dsa_signature@);
        assert(bytes.subrange(5_357, 5_405) =~= left.finished_mac@);
        assert(bytes.subrange(5_357, 5_405) =~= right.finished_mac@);
        assert(left.finished_mac =~= right.finished_mac);
    }
}

/// Writes the exact hybrid shared-secret input in the current IETF order.
///
/// The result is `ML-KEM shared secret || X25519 shared secret`.
///
/// # Errors
///
/// Returns [`WireError::BufferTooSmall`] for an output shorter than 64 bytes.
pub fn encode_hybrid_shared_secret(
    ml_kem_shared_secret: &[u8; ML_KEM_SHARED_SECRET_LEN],
    x25519_shared_secret: &[u8; X25519_SHARED_SECRET_LEN],
    output: &mut [u8],
) -> (written: Result<usize, HandshakeError>)
    ensures
        match output_failure(old(output)@.len(), HYBRID_SHARED_SECRET_LEN as nat) {
            Some(error) => {
                &&& written == Err::<usize, HandshakeError>(error)
                &&& final(output)@ == old(output)@
            },
            None => {
                &&& written == Ok::<usize, HandshakeError>(HYBRID_SHARED_SECRET_LEN)
                &&& final(output)@ == overwrite_prefix(
                    old(output)@,
                    ml_kem_shared_secret@ + x25519_shared_secret@,
                )
            },
        },
{
    broadcast use group_buffer_writes;

    match require_output(output.len(), HYBRID_SHARED_SECRET_LEN) {
        Some(error) => {
            return Err(error);
        },
        None => {},
    }
    let mut at: usize = put(output, 0, ml_kem_shared_secret);
    at = put(output, at, x25519_shared_secret);
    Ok(at)
}

} // verus!
