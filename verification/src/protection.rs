//! Provider-neutral short-packet protection orchestration.
//!
//! This module defines operation ordering, nonces, header masking, and usage limits. Cryptographic
//! primitives are supplied by an external provider.

use vstd::prelude::*;

use crate::bytes::{be64, be64_bytes, get_array, group_buffer_writes, put};
use crate::handshake::CipherSuite;
use crate::text::{decimal, fixed, with_number, with_two_numbers};
use crate::wire::{
    reconstruct_packet_number, reconstructed, ShortHeader, WireError, AEAD_TAG_LEN,
    SHORT_HEADER_LEN,
};

verus! {

pub const HEADER_PROTECTION_SAMPLE_LEN: usize = 16;

pub const HEADER_PROTECTION_MASK_LEN: usize = 5;

pub const HEADER_PROTECTION_SAMPLE_OFFSET: usize = SHORT_HEADER_LEN;

pub const MIN_PROTECTED_SHORT_PACKET_LEN: usize = HEADER_PROTECTION_SAMPLE_OFFSET
    + HEADER_PROTECTION_SAMPLE_LEN;

/// Largest packet number of the 62-bit packet-number space.
pub const MAX_PACKET_NUMBER: u64 = 0x3fff_ffff_ffff_ffff;

pub const AES_GCM_ENCRYPTION_LIMIT: u64 = 0x80_0000;

pub const CHACHA20_ENCRYPTION_LIMIT: u64 = 0x4000_0000_0000_0000;

pub const AES_GCM_AUTH_FAILURE_LIMIT: u64 = 0x10_0000_0000_0000;

pub const CHACHA20_AUTH_FAILURE_LIMIT: u64 = 0x10_0000_0000;

/// Failures reported by a cryptographic provider.
#[derive(Clone, Copy, Debug, PartialEq, Eq, Structural)]
pub enum ProviderError {
    AuthenticationFailed,
    InvalidKey,
    Internal,
}

impl ProviderError {
    /// The diagnostic text of a failure.
    pub open spec fn message_text(self) -> Seq<char> {
        match self {
            ProviderError::AuthenticationFailed => "packet authentication failed"@,
            ProviderError::InvalidKey => "invalid cryptographic key"@,
            ProviderError::Internal => "cryptographic provider failure"@,
        }
    }

    /// Returns the diagnostic text of this failure.
    pub fn message(&self) -> (text: String)
        ensures
            text@ == self.message_text(),
    {
        match *self {
            ProviderError::AuthenticationFailed => fixed("packet authentication failed"),
            ProviderError::InvalidKey => fixed("invalid cryptographic key"),
            ProviderError::Internal => fixed("cryptographic provider failure"),
        }
    }
}

/// Packet-protection orchestration failures.
#[derive(Clone, Copy, Debug, PartialEq, Eq, Structural)]
pub enum ProtectionError {
    Wire(WireError),
    Provider(ProviderError),
    PacketNumberMismatch,
    PacketNumberOutOfRange(u64),
    ProviderLengthMismatch { expected: usize, actual: usize },
    EncryptionLimitReached,
    AuthenticationFailureLimitReached,
}

impl From<WireError> for ProtectionError {
    fn from(error: WireError) -> (wrapped: ProtectionError) {
        ProtectionError::Wire(error)
    }
}

impl vstd::std_specs::convert::FromSpecImpl<WireError> for ProtectionError {
    open spec fn obeys_from_spec() -> bool {
        true
    }

    open spec fn from_spec(error: WireError) -> ProtectionError {
        ProtectionError::Wire(error)
    }
}

impl From<ProviderError> for ProtectionError {
    fn from(error: ProviderError) -> (wrapped: ProtectionError) {
        ProtectionError::Provider(error)
    }
}

impl vstd::std_specs::convert::FromSpecImpl<ProviderError> for ProtectionError {
    open spec fn obeys_from_spec() -> bool {
        true
    }

    open spec fn from_spec(error: ProviderError) -> ProtectionError {
        ProtectionError::Provider(error)
    }
}

impl ProtectionError {
    /// The diagnostic text of a failure.
    pub open spec fn message_text(self) -> Seq<char> {
        match self {
            ProtectionError::Wire(error) => error.message_text(),
            ProtectionError::Provider(error) => error.message_text(),
            ProtectionError::PacketNumberMismatch => "truncated and full packet numbers differ"@,
            ProtectionError::PacketNumberOutOfRange(number) => "packet number exceeds 62 bits: "@
                + decimal(number as nat) + ""@,
            ProtectionError::ProviderLengthMismatch { expected, actual } =>
            "cryptographic provider length mismatch: expected "@ + decimal(expected as nat)
                + ", actual "@ + decimal(actual as nat) + ""@,
            ProtectionError::EncryptionLimitReached => "AEAD encryption limit reached"@,
            ProtectionError::AuthenticationFailureLimitReached =>
            "AEAD authentication-failure limit reached"@,
        }
    }

    /// Returns the diagnostic text of this failure.
    pub fn message(&self) -> (text: String)
        ensures
            text@ == self.message_text(),
    {
        match *self {
            ProtectionError::Wire(error) => error.message(),
            ProtectionError::Provider(error) => error.message(),
            ProtectionError::PacketNumberMismatch => fixed(
                "truncated and full packet numbers differ",
            ),
            ProtectionError::PacketNumberOutOfRange(number) => with_number(
                "packet number exceeds 62 bits: ",
                number,
                "",
            ),
            ProtectionError::ProviderLengthMismatch { expected, actual } => with_two_numbers(
                "cryptographic provider length mismatch: expected ",
                expected as u64,
                ", actual ",
                actual as u64,
                "",
            ),
            ProtectionError::EncryptionLimitReached => fixed("AEAD encryption limit reached"),
            ProtectionError::AuthenticationFailureLimitReached => fixed(
                "AEAD authentication-failure limit reached",
            ),
        }
    }
}

/// Cryptographic operations required by the packet layer.
///
/// Implementations own key storage and may use software, hardware, or opaque handles. A successful
/// seal/open returns the resulting payload length.
pub trait PacketCryptoProvider {
    type AeadKey;

    type HeaderProtectionKey;

    /// Ciphertext and tag of a plaintext.
    ///
    /// An implementation that is verified with this library defines it.
    closed spec fn sealed(
        &self,
        suite: CipherSuite,
        key: Self::AeadKey,
        nonce: Seq<u8>,
        additional_data: Seq<u8>,
        plaintext: Seq<u8>,
    ) -> Seq<u8> {
        vstd::pervasive::arbitrary()
    }

    /// Plaintext of an authentic ciphertext and tag.
    ///
    /// An implementation that is verified with this library defines it.
    closed spec fn opened(
        &self,
        suite: CipherSuite,
        key: Self::AeadKey,
        nonce: Seq<u8>,
        additional_data: Seq<u8>,
        ciphertext: Seq<u8>,
    ) -> Option<Seq<u8>> {
        vstd::pervasive::arbitrary()
    }

    /// Header-protection mask of a ciphertext sample.
    ///
    /// An implementation that is verified with this library defines it.
    closed spec fn mask(
        &self,
        suite: CipherSuite,
        key: Self::HeaderProtectionKey,
        sample: Seq<u8>,
    ) -> Seq<u8> {
        vstd::pervasive::arbitrary()
    }

    /// Encrypts `plaintext_length` bytes in place and appends a 16-byte tag.
    ///
    /// # Errors
    ///
    /// Returns an error when the key is invalid or the provider cannot seal the payload.
    fn seal_in_place(
        &self,
        suite: CipherSuite,
        key: &Self::AeadKey,
        nonce: &[u8; 12],
        additional_data: &[u8],
        payload_and_tag: &mut [u8],
        plaintext_length: usize,
    ) -> (sealed_length: Result<usize, ProviderError>)
        requires
            plaintext_length + AEAD_TAG_LEN == old(payload_and_tag)@.len(),
        ensures
            final(payload_and_tag)@.len() == old(payload_and_tag)@.len(),
            sealed_length matches Ok(length) ==> (length == plaintext_length + AEAD_TAG_LEN ==> final(payload_and_tag)@
                == self.sealed(
                suite,
                *key,
                nonce@,
                additional_data@,
                old(payload_and_tag)@.take(plaintext_length as int),
            )),
    ;

    /// Authenticates and decrypts a ciphertext plus its 16-byte tag in place.
    ///
    /// # Errors
    ///
    /// Returns [`ProviderError::AuthenticationFailed`] for an invalid tag, or another error when
    /// the key or provider is unavailable.
    fn open_in_place(
        &self,
        suite: CipherSuite,
        key: &Self::AeadKey,
        nonce: &[u8; 12],
        additional_data: &[u8],
        ciphertext_and_tag: &mut [u8],
    ) -> (plaintext_length: Result<usize, ProviderError>)
        requires
            old(ciphertext_and_tag)@.len() >= AEAD_TAG_LEN,
        ensures
            final(ciphertext_and_tag)@.len() == old(ciphertext_and_tag)@.len(),
            plaintext_length matches Ok(length) ==> (length + AEAD_TAG_LEN == old(
                ciphertext_and_tag,
            )@.len() ==> self.opened(
                suite,
                *key,
                nonce@,
                additional_data@,
                old(ciphertext_and_tag)@,
            ) == Some(final(ciphertext_and_tag)@.take(length as int))),
            plaintext_length == Err::<usize, ProviderError>(ProviderError::AuthenticationFailed)
                ==> self.opened(
                suite,
                *key,
                nonce@,
                additional_data@,
                old(ciphertext_and_tag)@,
            ) is None,
    ;

    /// Produces the five-byte AES-ECB or `ChaCha20` header-protection mask.
    ///
    /// # Errors
    ///
    /// Returns an error when the key is invalid or the provider cannot produce the mask.
    fn header_protection_mask(
        &self,
        suite: CipherSuite,
        key: &Self::HeaderProtectionKey,
        sample: &[u8; HEADER_PROTECTION_SAMPLE_LEN],
    ) -> (mask: Result<[u8; HEADER_PROTECTION_MASK_LEN], ProviderError>)
        ensures
            mask matches Ok(mask) ==> mask@ == self.mask(suite, *key, sample@),
    ;
}

/// Borrowed packet-protection material for one direction and path.
///
/// Keeping these values together prevents callers from accidentally combining an AEAD key, IV, and
/// header-protection key from different paths. The header-protection key remains stable while the
/// destination connection ID is in use.
pub struct PathProtection<'a, P: PacketCryptoProvider> {
    pub suite: CipherSuite,
    pub aead_key: &'a P::AeadKey,
    pub header_protection_key: &'a P::HeaderProtectionKey,
    pub iv: &'a [u8; 12],
}

/// The AEAD nonce of a packet: the IV with the packet number added bitwise to its low 64 bits.
pub open spec fn nonce_of(iv: Seq<u8>, packet_number: u64) -> Seq<u8> {
    Seq::new(
        12,
        |i: int|
            if i < 4 {
                iv[i]
            } else {
                iv[i] ^ be64(packet_number)[i - 4]
            },
    )
}

/// A packet with the header mask applied or removed: the flag byte apart from its form bit and the
/// truncated packet number.
pub open spec fn masked(packet: Seq<u8>, mask: Seq<u8>) -> Seq<u8> {
    Seq::new(
        packet.len(),
        |i: int|
            if i == 0 {
                packet[0] ^ (mask[0] & 0x7f)
            } else if 9 <= i < 13 {
                packet[i] ^ mask[i - 8]
            } else {
                packet[i]
            },
    )
}

/// The ciphertext bytes that a packet's mask is derived from.
pub open spec fn mask_sample(packet: Seq<u8>) -> Seq<u8> {
    packet.subrange(
        HEADER_PROTECTION_SAMPLE_OFFSET as int,
        HEADER_PROTECTION_SAMPLE_OFFSET + HEADER_PROTECTION_SAMPLE_LEN,
    )
}

/// A packet with sealed payload and unmasked header.
pub open spec fn sealed_packet<P: PacketCryptoProvider>(
    provider: &P,
    protection: &PathProtection<P>,
    header: ShortHeader,
    packet_number: u64,
    plaintext: Seq<u8>,
) -> Seq<u8> {
    header.encoding() + provider.sealed(
        protection.suite,
        *protection.aead_key,
        nonce_of(protection.iv@, packet_number),
        header.encoding(),
        plaintext,
    )
}

/// A completely protected packet.
pub open spec fn protected_packet<P: PacketCryptoProvider>(
    provider: &P,
    protection: &PathProtection<P>,
    header: ShortHeader,
    packet_number: u64,
    plaintext: Seq<u8>,
) -> Seq<u8> {
    let packet = sealed_packet(provider, protection, header, packet_number, plaintext);
    masked(
        packet,
        provider.mask(protection.suite, *protection.header_protection_key, mask_sample(packet)),
    )
}

/// Whether a provider can answer so when it seals a packet's plaintext.
pub open spec fn sealing_answers<P: PacketCryptoProvider>(
    provider: &P,
    protection: &PathProtection<P>,
    header: ShortHeader,
    packet_number: u64,
    plaintext: Seq<u8>,
    answer: Result<usize, ProviderError>,
) -> bool {
    exists|
        nonce: [u8; 12],
        additional_data: &[u8],
        payload: &mut [u8],
        plaintext_length: usize,
    | {
        &&& nonce@ == nonce_of(protection.iv@, packet_number)
        &&& additional_data@ == header.encoding()
        &&& plaintext_length == plaintext.len()
        &&& payload@.take(plaintext_length as int) == plaintext
        &&& #[trigger] call_ensures(
            P::seal_in_place,
            (
                provider,
                protection.suite,
                protection.aead_key,
                &nonce,
                additional_data,
                payload,
                plaintext_length,
            ),
            answer,
        )
    }
}

/// Whether a provider can answer so when it opens the payload of an unmasked packet.
pub open spec fn opening_answers<P: PacketCryptoProvider>(
    provider: &P,
    protection: &PathProtection<P>,
    packet_number: u64,
    packet: Seq<u8>,
    answer: Result<usize, ProviderError>,
) -> bool {
    exists|nonce: [u8; 12], additional_data: &[u8], payload: &mut [u8]| {
        &&& nonce@ == nonce_of(protection.iv@, packet_number)
        &&& additional_data@ == packet.take(SHORT_HEADER_LEN as int)
        &&& payload@ == packet.skip(SHORT_HEADER_LEN as int)
        &&& #[trigger] call_ensures(
            P::open_in_place,
            (provider, protection.suite, protection.aead_key, &nonce, additional_data, payload),
            answer,
        )
    }
}

/// Whether a provider fails with `error` to produce the mask of a packet.
pub open spec fn masking_fails_with<P: PacketCryptoProvider>(
    provider: &P,
    suite: CipherSuite,
    key: &P::HeaderProtectionKey,
    packet: Seq<u8>,
    error: ProviderError,
) -> bool {
    exists|sample: [u8; HEADER_PROTECTION_SAMPLE_LEN]|
        sample@ == mask_sample(packet) && #[trigger] call_ensures(
            P::header_protection_mask,
            (provider, suite, key, &sample),
            Err::<[u8; HEADER_PROTECTION_MASK_LEN], ProviderError>(error),
        )
}

/// The failure of protecting a packet before anything is reserved, if any.
pub open spec fn protect_failure(
    header: ShortHeader,
    packet_number: u64,
    plaintext_length: usize,
    available: nat,
) -> Option<ProtectionError> {
    let needed = SHORT_HEADER_LEN + plaintext_length + AEAD_TAG_LEN;
    if packet_number > MAX_PACKET_NUMBER {
        Some(ProtectionError::PacketNumberOutOfRange(packet_number))
    } else if header.truncated_packet_number != packet_number % 0x1_0000_0000 {
        Some(ProtectionError::PacketNumberMismatch)
    } else if needed > usize::MAX {
        Some(ProtectionError::Wire(WireError::LengthOverflow))
    } else if available < needed {
        Some(
            ProtectionError::Wire(
                WireError::BufferTooSmall {
                    needed: needed as usize,
                    available: available as usize,
                },
            ),
        )
    } else {
        None
    }
}

/// Protects one short packet whose plaintext is already placed after the 13-byte header area.
///
/// # Errors
///
/// Returns an error for invalid lengths or packet number, exhausted AEAD usage, a
/// header/packet-number mismatch, or a provider failure. A reserved usage count is not rolled back
/// after a provider failure because nonce reuse would then become ambiguous.
pub fn protect_short_packet<P: PacketCryptoProvider>(
    provider: &P,
    protection: &PathProtection<'_, P>,
    header: ShortHeader,
    packet_number: u64,
    plaintext_length: usize,
    packet: &mut [u8],
    usage: &mut EncryptionUsage,
) -> (protected: Result<usize, ProtectionError>)
    ensures
        final(packet)@.len() == old(packet)@.len(),
        match protect_failure(header, packet_number, plaintext_length, old(packet)@.len()) {
            Some(error) => {
                &&& protected == Err::<usize, ProtectionError>(error)
                &&& final(packet)@ == old(packet)@
                &&& *final(usage) == *old(usage)
            },
            None => if old(usage).encrypted_packets >= suite_encryption_limit(protection.suite) {
                &&& protected == Err::<usize, ProtectionError>(
                    ProtectionError::EncryptionLimitReached,
                )
                &&& final(packet)@ == old(packet)@
                &&& *final(usage) == *old(usage)
            } else {
                let length = SHORT_HEADER_LEN + plaintext_length + AEAD_TAG_LEN;
                let plaintext = old(packet)@.subrange(
                    SHORT_HEADER_LEN as int,
                    SHORT_HEADER_LEN + plaintext_length,
                );
                &&& final(usage).encrypted_packets == old(usage).encrypted_packets + 1
                &&& final(packet)@.skip(length) == old(packet)@.skip(length)
                &&& match protected {
                    Ok(written) => {
                        &&& written == length
                        &&& final(packet)@.take(length) == protected_packet(
                            provider,
                            protection,
                            header,
                            packet_number,
                            plaintext,
                        )
                    },
                    Err(ProtectionError::ProviderLengthMismatch { expected, actual }) => {
                        &&& expected == plaintext_length + AEAD_TAG_LEN
                        &&& actual != expected
                        &&& sealing_answers(
                            provider,
                            protection,
                            header,
                            packet_number,
                            plaintext,
                            Ok(actual),
                        )
                    },
                    Err(ProtectionError::Provider(error)) => {
                        ||| sealing_answers(
                            provider,
                            protection,
                            header,
                            packet_number,
                            plaintext,
                            Err(error),
                        )
                        ||| masking_fails_with(
                            provider,
                            protection.suite,
                            protection.header_protection_key,
                            sealed_packet(provider, protection, header, packet_number, plaintext),
                            error,
                        )
                    },
                    Err(_) => false,
                }
            },
        },
{
    broadcast use group_buffer_writes;

    if packet_number > MAX_PACKET_NUMBER {
        return Err(ProtectionError::PacketNumberOutOfRange(packet_number));
    }
    if header.truncated_packet_number as u64 != packet_number % 0x1_0000_0000 {
        return Err(ProtectionError::PacketNumberMismatch);
    }
    let protected_payload_length: usize = match plaintext_length.checked_add(AEAD_TAG_LEN) {
        Some(length) => length,
        None => {
            return Err(ProtectionError::Wire(WireError::LengthOverflow));
        },
    };
    let packet_length: usize = match SHORT_HEADER_LEN.checked_add(protected_payload_length) {
        Some(length) => length,
        None => {
            return Err(ProtectionError::Wire(WireError::LengthOverflow));
        },
    };
    if packet.len() < packet_length {
        return Err(
            ProtectionError::Wire(
                WireError::BufferTooSmall { needed: packet_length, available: packet.len() },
            ),
        );
    }
    match usage.reserve(protection.suite) {
        Ok(()) => {},
        Err(error) => {
            return Err(error);
        },
    }
    let mut additional_data: [u8; SHORT_HEADER_LEN] = [0u8; SHORT_HEADER_LEN];
    let ghost blank = additional_data@;
    match header.encode(&mut additional_data) {
        Ok(_) => {},
        Err(error) => {
            return Err(ProtectionError::Wire(error));
        },
    }
    assert(additional_data@ =~= header.encoding());
    let ghost before = packet@;
    let ghost plaintext = before.subrange(
        SHORT_HEADER_LEN as int,
        SHORT_HEADER_LEN + plaintext_length,
    );
    let _ = put(packet, 0, &additional_data);
    let nonce: [u8; 12] = match packet_nonce(protection.iv, packet_number) {
        Ok(nonce) => nonce,
        Err(error) => {
            return Err(error);
        },
    };
    let ghost with_header = packet@;
    let sealed_length = {
        let (_, body) = packet.split_at_mut(SHORT_HEADER_LEN);
        let (payload, _) = body.split_at_mut(protected_payload_length);
        assert(payload@.take(plaintext_length as int) =~= plaintext);
        provider.seal_in_place(
            protection.suite,
            protection.aead_key,
            &nonce,
            &additional_data,
            payload,
            plaintext_length,
        )
    };
    assert(packet@.len() == before.len());
    assert(packet@.skip(packet_length as int) =~= before.skip(packet_length as int));
    assert(packet@.take(SHORT_HEADER_LEN as int) =~= header.encoding());
    match check_sealed_length(sealed_length, protected_payload_length) {
        Ok(()) => {},
        Err(error) => {
            return Err(error);
        },
    }
    let ghost clear = packet@.take(packet_length as int);
    proof {
        let sealed = provider.sealed(
            protection.suite,
            *protection.aead_key,
            nonce@,
            header.encoding(),
            plaintext,
        );
        assert(packet@.subrange(SHORT_HEADER_LEN as int, packet_length as int) =~= sealed);
        assert(clear =~= sealed_packet(provider, protection, header, packet_number, plaintext));
        assert(mask_sample(packet@) =~= mask_sample(clear));
    }
    let mask: [u8; HEADER_PROTECTION_MASK_LEN] = match mask_for_packet(
        provider,
        protection.suite,
        protection.header_protection_key,
        packet,
    ) {
        Ok(mask) => mask,
        Err(error) => {
            return Err(error);
        },
    };
    let ghost unmasked = packet@;
    match apply_short_header_mask(packet, &mask) {
        Ok(()) => {},
        Err(error) => {
            return Err(error);
        },
    }
    assert(packet@.take(packet_length as int) =~= masked(clear, mask@));
    assert(packet@.skip(packet_length as int) =~= before.skip(packet_length as int));
    Ok(packet_length)
}

/// Judges a provider's answer to sealing: it must report exactly the expected length.
///
/// # Errors
///
/// Returns the provider's failure, or a length mismatch.
pub fn check_sealed_length(
    sealed_length: Result<usize, ProviderError>,
    expected: usize,
) -> (outcome: Result<(), ProtectionError>)
    ensures
        outcome == match sealed_length {
            Ok(actual) => if actual == expected {
                Ok::<(), ProtectionError>(())
            } else {
                Err(ProtectionError::ProviderLengthMismatch { expected, actual })
            },
            Err(error) => Err(ProtectionError::Provider(error)),
        },
{
    match sealed_length {
        Ok(actual) => {
            if actual != expected {
                return Err(ProtectionError::ProviderLengthMismatch { expected, actual });
            }
            Ok(())
        },
        Err(error) => Err(ProtectionError::Provider(error)),
    }
}

/// Removes short-header protection using the stable per-DCID HP key.
///
/// The returned header exposes the key phase, allowing the caller to select the current or next
/// AEAD key before opening the payload.
///
/// # Errors
///
/// Returns an error for a short packet, invalid unmasked header, or provider failure.
pub fn remove_short_header_protection<P: PacketCryptoProvider>(
    provider: &P,
    protection: &PathProtection<'_, P>,
    packet: &mut [u8],
) -> (header: Result<ShortHeader, ProtectionError>)
    ensures
        if old(packet)@.len() < MIN_PROTECTED_SHORT_PACKET_LEN {
            &&& header == Err::<ShortHeader, ProtectionError>(
                ProtectionError::Wire(
                    WireError::PacketTooShort {
                        minimum: MIN_PROTECTED_SHORT_PACKET_LEN,
                        actual: old(packet)@.len() as usize,
                    },
                ),
            )
            &&& final(packet)@ == old(packet)@
        } else {
            let unmasked = masked(
                old(packet)@,
                provider.mask(
                    protection.suite,
                    *protection.header_protection_key,
                    mask_sample(old(packet)@),
                ),
            );
            match header {
                Ok(header) => {
                    &&& final(packet)@ == unmasked
                    &&& header.encoding() == unmasked.take(SHORT_HEADER_LEN as int)
                },
                Err(ProtectionError::Provider(error)) => {
                    &&& final(packet)@ == old(packet)@
                    &&& masking_fails_with(
                        provider,
                        protection.suite,
                        protection.header_protection_key,
                        old(packet)@,
                        error,
                    )
                },
                Err(error) => {
                    &&& final(packet)@ == unmasked
                    &&& ShortHeader::class_of_flags(unmasked[0]) is None
                    &&& error == ProtectionError::Wire(WireError::InvalidShortHeader(unmasked[0]))
                },
            }
        },
{
    let mask: [u8; HEADER_PROTECTION_MASK_LEN] = match mask_for_packet(
        provider,
        protection.suite,
        protection.header_protection_key,
        packet,
    ) {
        Ok(mask) => mask,
        Err(error) => {
            return Err(error);
        },
    };
    match apply_short_header_mask(packet, &mask) {
        Ok(()) => {},
        Err(error) => {
            return Err(error);
        },
    }
    match ShortHeader::decode_unprotected(packet) {
        Ok(header) => Ok(header),
        Err(error) => Err(ProtectionError::Wire(error)),
    }
}

/// Result metadata after successful packet opening.
#[derive(Clone, Copy, Debug, PartialEq, Eq)]
pub struct OpenedPacket {
    pub header: ShortHeader,
    pub packet_number: u64,
    pub plaintext_length: usize,
}

/// Authenticates and opens a packet after header protection was removed.
///
/// # Errors
///
/// Returns an error for invalid lengths/packet number, a provider failure, or an exhausted
/// authentication-failure limit. Authentication failures are counted across the connection.
pub fn open_short_payload<P: PacketCryptoProvider>(
    provider: &P,
    protection: &PathProtection<'_, P>,
    header: ShortHeader,
    expected_packet_number: u64,
    packet: &mut [u8],
    failures: &mut AuthenticationFailureUsage,
) -> (opened: Result<OpenedPacket, ProtectionError>)
    ensures
        final(packet)@.len() == old(packet)@.len(),
        ({
            let number = reconstructed(header.truncated_packet_number, expected_packet_number);
            if old(packet)@.len() < SHORT_HEADER_LEN + AEAD_TAG_LEN {
                &&& opened == Err::<OpenedPacket, ProtectionError>(
                    ProtectionError::Wire(
                        WireError::PacketTooShort {
                            minimum: (SHORT_HEADER_LEN + AEAD_TAG_LEN) as usize,
                            actual: old(packet)@.len() as usize,
                        },
                    ),
                )
                &&& final(packet)@ == old(packet)@
                &&& *final(failures) == *old(failures)
            } else if number > MAX_PACKET_NUMBER {
                &&& opened == Err::<OpenedPacket, ProtectionError>(
                    ProtectionError::PacketNumberOutOfRange(number as u64),
                )
                &&& final(packet)@ == old(packet)@
                &&& *final(failures) == *old(failures)
            } else {
                let length = old(packet)@.len() - SHORT_HEADER_LEN - AEAD_TAG_LEN;
                let authentic = provider.opened(
                    protection.suite,
                    *protection.aead_key,
                    nonce_of(protection.iv@, number as u64),
                    old(packet)@.take(SHORT_HEADER_LEN as int),
                    old(packet)@.skip(SHORT_HEADER_LEN as int),
                );
                let answers = |answer: Result<usize, ProviderError>|
                    opening_answers(provider, protection, number as u64, old(packet)@, answer);
                &&& final(packet)@.take(SHORT_HEADER_LEN as int) == old(packet)@.take(
                    SHORT_HEADER_LEN as int,
                )
                &&& match opened {
                    Ok(opened) => {
                        &&& opened.header == header
                        &&& opened.packet_number == number
                        &&& opened.plaintext_length == length
                        &&& *final(failures) == *old(failures)
                        &&& authentic == Some(
                            final(packet)@.subrange(
                                SHORT_HEADER_LEN as int,
                                SHORT_HEADER_LEN + length,
                            ),
                        )
                    },
                    Err(ProtectionError::AuthenticationFailureLimitReached) => {
                        &&& answers(Err(ProviderError::AuthenticationFailed))
                        &&& authentic is None
                        &&& old(failures).at_limit(protection.suite)
                        &&& *final(failures) == old(failures).with_failure(protection.suite)
                    },
                    Err(ProtectionError::Provider(ProviderError::AuthenticationFailed)) => {
                        &&& answers(Err(ProviderError::AuthenticationFailed))
                        &&& authentic is None
                        &&& !old(failures).at_limit(protection.suite)
                        &&& *final(failures) == old(failures).with_failure(protection.suite)
                    },
                    Err(ProtectionError::Provider(error)) => {
                        &&& answers(Err(error))
                        &&& *final(failures) == *old(failures)
                    },
                    Err(ProtectionError::ProviderLengthMismatch { expected, actual }) => {
                        &&& answers(Ok(actual))
                        &&& expected == length
                        &&& actual != expected
                        &&& *final(failures) == *old(failures)
                    },
                    Err(_) => false,
                }
            }
        }),
{
    if packet.len() < SHORT_HEADER_LEN + AEAD_TAG_LEN {
        return Err(
            ProtectionError::Wire(
                WireError::PacketTooShort {
                    minimum: SHORT_HEADER_LEN + AEAD_TAG_LEN,
                    actual: packet.len(),
                },
            ),
        );
    }
    let packet_number: u64 = reconstruct_packet_number(
        header.truncated_packet_number,
        expected_packet_number,
    );
    if packet_number > MAX_PACKET_NUMBER {
        return Err(ProtectionError::PacketNumberOutOfRange(packet_number));
    }
    let nonce: [u8; 12] = match packet_nonce(protection.iv, packet_number) {
        Ok(nonce) => nonce,
        Err(error) => {
            return Err(error);
        },
    };
    let additional_data: [u8; SHORT_HEADER_LEN] = get_array::<SHORT_HEADER_LEN>(packet, 0);
    assert(additional_data@ =~= packet@.take(SHORT_HEADER_LEN as int));
    let expected_plaintext_length: usize = packet.len() - SHORT_HEADER_LEN - AEAD_TAG_LEN;
    let ghost before = packet@;
    let opened = {
        let (_, payload) = packet.split_at_mut(SHORT_HEADER_LEN);
        assert(payload@ =~= before.skip(SHORT_HEADER_LEN as int));
        provider.open_in_place(
            protection.suite,
            protection.aead_key,
            &nonce,
            &additional_data,
            payload,
        )
    };
    assert(packet@.take(SHORT_HEADER_LEN as int) =~= before.take(SHORT_HEADER_LEN as int));
    assert(packet@.skip(SHORT_HEADER_LEN as int).take(expected_plaintext_length as int)
        =~= packet@.subrange(
        SHORT_HEADER_LEN as int,
        SHORT_HEADER_LEN + expected_plaintext_length,
    ));
    match settle_opened(opened, expected_plaintext_length, protection.suite, failures) {
        Ok(plaintext_length) => Ok(OpenedPacket { header, packet_number, plaintext_length }),
        Err(error) => Err(error),
    }
}

/// Judges a provider's answer to opening: authentication failures are counted, and a success must
/// report exactly the expected length.
///
/// # Errors
///
/// Returns the provider's failure, an exhausted authentication-failure limit, or a length mismatch.
pub fn settle_opened(
    opened: Result<usize, ProviderError>,
    expected: usize,
    suite: CipherSuite,
    failures: &mut AuthenticationFailureUsage,
) -> (settled: Result<usize, ProtectionError>)
    ensures
        match opened {
            Ok(actual) => {
                &&& *final(failures) == *old(failures)
                &&& settled == if actual == expected {
                    Ok::<usize, ProtectionError>(actual)
                } else {
                    Err(ProtectionError::ProviderLengthMismatch { expected, actual })
                }
            },
            Err(ProviderError::AuthenticationFailed) => {
                &&& *final(failures) == old(failures).with_failure(suite)
                &&& settled == Err::<usize, ProtectionError>(
                    if old(failures).at_limit(suite) {
                        ProtectionError::AuthenticationFailureLimitReached
                    } else {
                        ProtectionError::Provider(ProviderError::AuthenticationFailed)
                    },
                )
            },
            Err(error) => {
                &&& *final(failures) == *old(failures)
                &&& settled == Err::<usize, ProtectionError>(ProtectionError::Provider(error))
            },
        },
{
    match opened {
        Ok(actual) => {
            if actual != expected {
                return Err(ProtectionError::ProviderLengthMismatch { expected, actual });
            }
            Ok(actual)
        },
        Err(ProviderError::AuthenticationFailed) => match failures.record_failure(suite) {
            Ok(()) => Err(ProtectionError::Provider(ProviderError::AuthenticationFailed)),
            Err(error) => Err(error),
        },
        Err(error) => Err(ProtectionError::Provider(error)),
    }
}

/// Applies or removes the fixed short-header mask.
///
/// # Errors
///
/// Returns an error if `packet` does not contain the complete short header.
pub fn apply_short_header_mask(
    packet: &mut [u8],
    mask: &[u8; HEADER_PROTECTION_MASK_LEN],
) -> (outcome: Result<(), ProtectionError>)
    ensures
        if old(packet)@.len() < SHORT_HEADER_LEN {
            &&& outcome == Err::<(), ProtectionError>(
                ProtectionError::Wire(
                    WireError::PacketTooShort {
                        minimum: SHORT_HEADER_LEN,
                        actual: old(packet)@.len() as usize,
                    },
                ),
            )
            &&& final(packet)@ == old(packet)@
        } else {
            &&& outcome == Ok::<(), ProtectionError>(())
            &&& final(packet)@ == masked(old(packet)@, mask@)
        },
{
    if packet.len() < SHORT_HEADER_LEN {
        return Err(
            ProtectionError::Wire(
                WireError::PacketTooShort { minimum: SHORT_HEADER_LEN, actual: packet.len() },
            ),
        );
    }
    packet[0] = packet[0] ^ (mask[0] & 0x7f);
    packet[9] = packet[9] ^ mask[1];
    packet[10] = packet[10] ^ mask[2];
    packet[11] = packet[11] ^ mask[3];
    packet[12] = packet[12] ^ mask[4];
    assert(packet@ =~= masked(old(packet)@, mask@));
    Ok(())
}

/// Derives a 96-bit AEAD nonce from the path IV and full packet number.
///
/// # Errors
///
/// Returns an error if `packet_number` exceeds the 62-bit space.
pub fn packet_nonce(iv: &[u8; 12], packet_number: u64) -> (nonce: Result<
    [u8; 12],
    ProtectionError,
>)
    ensures
        if packet_number > MAX_PACKET_NUMBER {
            nonce == Err::<[u8; 12], ProtectionError>(
                ProtectionError::PacketNumberOutOfRange(packet_number),
            )
        } else {
            nonce is Ok && nonce->Ok_0@ == nonce_of(iv@, packet_number)
        },
{
    if packet_number > MAX_PACKET_NUMBER {
        return Err(ProtectionError::PacketNumberOutOfRange(packet_number));
    }
    let encoded: [u8; 8] = be64_bytes(packet_number);
    let mut nonce: [u8; 12] = *iv;
    let mut index: usize = 4;
    while index < 12
        invariant
            4 <= index <= 12,
            encoded@ == be64(packet_number),
            encoded@.len() == 8,
            forall|i: int| 0 <= i < index ==> nonce@[i] == nonce_of(iv@, packet_number)[i],
            forall|i: int| index <= i < 12 ==> nonce@[i] == iv@[i],
        decreases 12 - index,
    {
        nonce[index] = nonce[index] ^ encoded[index - 4];
        index = index + 1;
    }
    assert(nonce@ =~= nonce_of(iv@, packet_number));
    Ok(nonce)
}

fn mask_for_packet<P: PacketCryptoProvider>(
    provider: &P,
    suite: CipherSuite,
    key: &P::HeaderProtectionKey,
    packet: &[u8],
) -> (mask: Result<[u8; HEADER_PROTECTION_MASK_LEN], ProtectionError>)
    ensures
        if packet@.len() < MIN_PROTECTED_SHORT_PACKET_LEN {
            mask == Err::<[u8; HEADER_PROTECTION_MASK_LEN], ProtectionError>(
                ProtectionError::Wire(
                    WireError::PacketTooShort {
                        minimum: MIN_PROTECTED_SHORT_PACKET_LEN,
                        actual: packet@.len() as usize,
                    },
                ),
            )
        } else {
            match mask {
                Ok(mask) => mask@ == provider.mask(suite, *key, mask_sample(packet@)),
                Err(error) => error matches ProtectionError::Provider(error)
                    && masking_fails_with(provider, suite, key, packet@, error),
            }
        },
{
    if packet.len() < MIN_PROTECTED_SHORT_PACKET_LEN {
        return Err(
            ProtectionError::Wire(
                WireError::PacketTooShort {
                    minimum: MIN_PROTECTED_SHORT_PACKET_LEN,
                    actual: packet.len(),
                },
            ),
        );
    }
    let sample: [u8; HEADER_PROTECTION_SAMPLE_LEN] = get_array::<HEADER_PROTECTION_SAMPLE_LEN>(
        packet,
        HEADER_PROTECTION_SAMPLE_OFFSET,
    );
    assert(sample@ =~= mask_sample(packet@));
    match provider.header_protection_mask(suite, key, &sample) {
        Ok(mask) => Ok(mask),
        Err(error) => Err(ProtectionError::Provider(error)),
    }
}

/// Largest number of packets encrypted under one key of a suite.
pub open spec fn suite_encryption_limit(suite: CipherSuite) -> u64 {
    match suite {
        CipherSuite::Aes256GcmSha384 => AES_GCM_ENCRYPTION_LIMIT,
        CipherSuite::ChaCha20Poly1305Sha384 => CHACHA20_ENCRYPTION_LIMIT,
    }
}

/// Number of failed authentications at which a connection of a suite closes.
pub open spec fn suite_failure_limit(suite: CipherSuite) -> u64 {
    match suite {
        CipherSuite::Aes256GcmSha384 => AES_GCM_AUTH_FAILURE_LIMIT,
        CipherSuite::ChaCha20Poly1305Sha384 => CHACHA20_AUTH_FAILURE_LIMIT,
    }
}

fn encryption_limit(suite: CipherSuite) -> (limit: u64)
    ensures
        limit == suite_encryption_limit(suite),
{
    match suite {
        CipherSuite::Aes256GcmSha384 => AES_GCM_ENCRYPTION_LIMIT,
        CipherSuite::ChaCha20Poly1305Sha384 => CHACHA20_ENCRYPTION_LIMIT,
    }
}

fn authentication_failure_limit(suite: CipherSuite) -> (limit: u64)
    ensures
        limit == suite_failure_limit(suite),
{
    match suite {
        CipherSuite::Aes256GcmSha384 => AES_GCM_AUTH_FAILURE_LIMIT,
        CipherSuite::ChaCha20Poly1305Sha384 => CHACHA20_AUTH_FAILURE_LIMIT,
    }
}

/// Per-key count of encrypted packets.
#[derive(Clone, Copy, Debug, PartialEq, Eq, Structural)]
pub struct EncryptionUsage {
    pub encrypted_packets: u64,
}

impl EncryptionUsage {
    /// Reserves one encryption invocation before calling the provider.
    ///
    /// # Errors
    ///
    /// Returns [`ProtectionError::EncryptionLimitReached`] at the suite limit.
    pub fn reserve(&mut self, suite: CipherSuite) -> (outcome: Result<(), ProtectionError>)
        ensures
            if old(self).encrypted_packets >= suite_encryption_limit(suite) {
                &&& outcome == Err::<(), ProtectionError>(ProtectionError::EncryptionLimitReached)
                &&& *final(self) == *old(self)
            } else {
                &&& outcome == Ok::<(), ProtectionError>(())
                &&& final(self).encrypted_packets == old(self).encrypted_packets + 1
            },
            old(self).encrypted_packets <= suite_encryption_limit(suite)
                ==> final(self).encrypted_packets <= suite_encryption_limit(suite),
    {
        let limit: u64 = encryption_limit(suite);
        if self.encrypted_packets >= limit {
            return Err(ProtectionError::EncryptionLimitReached);
        }
        self.encrypted_packets = self.encrypted_packets + 1;
        Ok(())
    }

    /// Returns encrypted packets consumed under this key.
    pub fn encrypted_packets(self) -> (packets: u64)
        ensures
            packets == self.encrypted_packets,
    {
        self.encrypted_packets
    }

    /// Returns whether the current invocation was the final permitted one.
    pub fn update_required(self, suite: CipherSuite) -> (required: bool)
        ensures
            required == (self.encrypted_packets >= suite_encryption_limit(suite)),
    {
        self.encrypted_packets >= encryption_limit(suite)
    }
}

impl Default for EncryptionUsage {
    fn default() -> (usage: EncryptionUsage)
        ensures
            usage.encrypted_packets == 0,
    {
        EncryptionUsage { encrypted_packets: 0 }
    }
}

/// Connection-wide count of failed packet authentications.
#[derive(Clone, Copy, Debug, PartialEq, Eq, Structural)]
pub struct AuthenticationFailureUsage {
    pub failed_authentications: u64,
}

impl AuthenticationFailureUsage {
    /// Whether one more failure reaches the suite limit.
    pub open spec fn at_limit(self, suite: CipherSuite) -> bool {
        self.failed_authentications + 1 >= suite_failure_limit(suite)
    }

    /// The count after one more failure; it stays at the suite limit.
    pub open spec fn with_failure(self, suite: CipherSuite) -> AuthenticationFailureUsage {
        AuthenticationFailureUsage {
            failed_authentications: if self.at_limit(suite) {
                suite_failure_limit(suite)
            } else {
                (self.failed_authentications + 1) as u64
            },
        }
    }

    /// Records one failed authentication attempt.
    ///
    /// # Errors
    ///
    /// Returns [`ProtectionError::AuthenticationFailureLimitReached`] when the new count reaches the
    /// conservative suite limit.
    pub fn record_failure(&mut self, suite: CipherSuite) -> (outcome: Result<(), ProtectionError>)
        ensures
            *final(self) == old(self).with_failure(suite),
            outcome == if old(self).at_limit(suite) {
                Err::<(), ProtectionError>(ProtectionError::AuthenticationFailureLimitReached)
            } else {
                Ok(())
            },
    {
        let limit: u64 = authentication_failure_limit(suite);
        if self.failed_authentications >= limit.saturating_sub(1) {
            self.failed_authentications = limit;
            return Err(ProtectionError::AuthenticationFailureLimitReached);
        }
        self.failed_authentications = self.failed_authentications + 1;
        Ok(())
    }

    /// Returns the connection-wide failure count.
    pub fn failed_authentications(self) -> (failures: u64)
        ensures
            failures == self.failed_authentications,
    {
        self.failed_authentications
    }
}

impl Default for AuthenticationFailureUsage {
    fn default() -> (usage: AuthenticationFailureUsage)
        ensures
            usage.failed_authentications == 0,
    {
        AuthenticationFailureUsage { failed_authentications: 0 }
    }
}

/// Applying a header mask twice restores the packet, and never changes the form bit.
pub proof fn lemma_mask_is_reversible(packet: Seq<u8>, mask: Seq<u8>)
    requires
        packet.len() >= SHORT_HEADER_LEN,
    ensures
        masked(masked(packet, mask), mask) == packet,
        masked(packet, mask)[0] & 0x80 == packet[0] & 0x80,
        masked(packet, mask).skip(SHORT_HEADER_LEN as int) == packet.skip(SHORT_HEADER_LEN as int),
{
    assert forall|a: u8, b: u8| #[trigger] ((a ^ b) ^ b) == a by {
        assert((a ^ b) ^ b == a) by (bit_vector);
    }
    let first = packet[0];
    let flag_mask = mask[0];
    assert((first ^ (flag_mask & 0x7f)) & 0x80 == first & 0x80) by (bit_vector);
    assert(masked(masked(packet, mask), mask) =~= packet);
    assert(masked(packet, mask).skip(SHORT_HEADER_LEN as int) =~= packet.skip(
        SHORT_HEADER_LEN as int,
    ));
}

/// Under one IV no two packet numbers share a nonce.
pub proof fn lemma_nonces_are_distinct(iv: Seq<u8>, left: u64, right: u64)
    requires
        iv.len() == 12,
        nonce_of(iv, left) == nonce_of(iv, right),
    ensures
        left == right,
{
    assert forall|i: int| 0 <= i < 8 implies #[trigger] be64(left)[i] == be64(right)[i] by {
        let base = iv[i + 4];
        let a = be64(left)[i];
        let b = be64(right)[i];
        assert(nonce_of(iv, left)[i + 4] == base ^ a);
        assert(nonce_of(iv, right)[i + 4] == base ^ b);
        assert(a == b) by (bit_vector)
            requires
                base ^ a == base ^ b,
        ;
    }
    crate::bytes::lemma_be64_inverse(left);
    crate::bytes::lemma_be64_inverse(right);
    assert(be64(left) =~= be64(right));
}

/// Whether a provider's AEAD opens what it sealed, with a tag of the agreed size.
pub open spec fn opens_what_it_seals<P: PacketCryptoProvider>(
    provider: &P,
    suite: CipherSuite,
    key: P::AeadKey,
    nonce: Seq<u8>,
    additional_data: Seq<u8>,
    plaintext: Seq<u8>,
) -> bool {
    let ciphertext = provider.sealed(suite, key, nonce, additional_data, plaintext);
    &&& ciphertext.len() == plaintext.len() + AEAD_TAG_LEN
    &&& provider.opened(suite, key, nonce, additional_data, ciphertext) == Some(plaintext)
}

/// Protection is undone by its two removal steps: the mask derived from the protected packet is the
/// one that was applied, removing it gives the header and the sealed payload back, and opening that
/// payload gives the plaintext back, as long as the receiver expects a packet number less than half
/// a window away.
pub proof fn lemma_protection_round_trip<P: PacketCryptoProvider>(
    provider: &P,
    protection: &PathProtection<P>,
    header: ShortHeader,
    packet_number: u64,
    plaintext: Seq<u8>,
    expected_packet_number: u64,
)
    requires
        header.truncated_packet_number == packet_number % 0x1_0000_0000,
        packet_number < expected_packet_number + 0x8000_0000,
        expected_packet_number < packet_number + 0x8000_0000,
        opens_what_it_seals(
            provider,
            protection.suite,
            *protection.aead_key,
            nonce_of(protection.iv@, packet_number),
            header.encoding(),
            plaintext,
        ),
    ensures
        ({
            let packet = protected_packet(provider, protection, header, packet_number, plaintext);
            let unmasked = masked(
                packet,
                provider.mask(
                    protection.suite,
                    *protection.header_protection_key,
                    mask_sample(packet),
                ),
            );
            &&& unmasked.take(SHORT_HEADER_LEN as int) == header.encoding()
            &&& ShortHeader::class_of_flags(unmasked[0]) == Some((header.class, header.key_phase))
            &&& reconstructed(header.truncated_packet_number, expected_packet_number)
                == packet_number
            &&& provider.opened(
                protection.suite,
                *protection.aead_key,
                nonce_of(
                    protection.iv@,
                    reconstructed(header.truncated_packet_number, expected_packet_number) as u64,
                ),
                unmasked.take(SHORT_HEADER_LEN as int),
                unmasked.skip(SHORT_HEADER_LEN as int),
            ) == Some(plaintext)
        }),
{
    let clear = sealed_packet(provider, protection, header, packet_number, plaintext);
    let packet = protected_packet(provider, protection, header, packet_number, plaintext);
    let mask = provider.mask(
        protection.suite,
        *protection.header_protection_key,
        mask_sample(clear),
    );
    crate::wire::lemma_short_header_round_trip(header, header);
    crate::wire::lemma_reconstruction_recovers(packet_number, expected_packet_number);
    assert(clear.len() >= MIN_PROTECTED_SHORT_PACKET_LEN);
    assert(mask_sample(packet) =~= mask_sample(clear));
    lemma_mask_is_reversible(clear, mask);
    assert(clear.take(SHORT_HEADER_LEN as int) =~= header.encoding());
    assert(clear.skip(SHORT_HEADER_LEN as int) =~= provider.sealed(
        protection.suite,
        *protection.aead_key,
        nonce_of(protection.iv@, packet_number),
        header.encoding(),
        plaintext,
    ));
}

} // verus!
