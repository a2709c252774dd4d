//! Laws of packet protection.

use vstd::prelude::*;

use crate::bytes::{be64, lemma_be64_inverse};
use crate::handshake::CipherSuite;
use crate::laws::numbers::{lemma_spells64, number_at};
use crate::protection::{
    apply_short_header_mask, check_sealed_length, open_short_payload, packet_nonce,
    protect_short_packet, remove_short_header_protection, settle_opened,
    AuthenticationFailureUsage, EncryptionUsage, OpenedPacket, PacketCryptoProvider,
    PathProtection, ProtectionError, ProviderError,
};
use crate::wire::ShortHeader;

verus! {

/// What is left of a nonce once the IV is taken off: the eight bytes that follow the first four.
pub open spec fn without_iv(nonce: Seq<u8>, iv: Seq<u8>) -> Seq<u8> {
    Seq::new(8, |i: int| nonce[4 + i] ^ iv[4 + i])
}

/// Whether a nonce belongs to an IV and a packet number: its first four bytes are the IV's, and
/// its last eight differ from the IV's by the digits of the packet number.
pub open spec fn nonce_belongs(nonce: Seq<u8>, iv: Seq<u8>, packet_number: u64) -> bool {
    &&& nonce.len() == 12
    &&& nonce.take(4) == iv.take(4)
    &&& number_at(without_iv(nonce, iv), 0, 8) == packet_number
}

/// The nonce of a packet number of at most 62 bits is the IV with the packet number in its last
/// eight bytes. There is none for a larger number.
pub proof fn lemma_nonce_combines_iv_and_packet_number(
    iv: &[u8; 12],
    packet_number: u64,
    nonce: Result<[u8; 12], ProtectionError>,
)
    requires
        call_ensures(packet_nonce, (iv, packet_number), nonce),
    ensures
        nonce is Ok <==> packet_number < 0x4000_0000_0000_0000,
        nonce matches Ok(nonce) ==> nonce_belongs(nonce@, iv@, packet_number),
        nonce matches Err(error) ==> error == ProtectionError::PacketNumberOutOfRange(
            packet_number,
        ),
{
    if nonce is Ok {
        lemma_nonce_belongs(iv@, packet_number);
    }
}

proof fn lemma_nonce_belongs(iv: Seq<u8>, packet_number: u64)
    requires
        iv.len() == 12,
    ensures
        nonce_belongs(crate::protection::nonce_of(iv, packet_number), iv, packet_number),
{
    let nonce = crate::protection::nonce_of(iv, packet_number);
    let digits = without_iv(nonce, iv);
    lemma_be64_inverse(packet_number);
    assert forall|i: int| 0 <= i < 8 implies digits[i] == be64(packet_number)[i] by {
        let secret = iv[4 + i];
        let digit = be64(packet_number)[i];
        assert((secret ^ digit) ^ secret == digit) by (bit_vector);
    }
    assert(digits =~= be64(packet_number));
    assert(digits.subrange(0, 8) =~= be64(packet_number));
    lemma_spells64(digits, 0, packet_number);
    assert(nonce.take(4) =~= iv.take(4));
}

/// A mask changes the lower seven bits of the first byte and the four bytes of the packet number,
/// and nothing else. Each changes by its own byte of the mask.
pub proof fn lemma_mask_covers_flags_and_packet_number(
    mask: &[u8; 5],
    outcome: Result<(), ProtectionError>,
)
    ensures
        forall|packet: &mut [u8]| #[trigger]
            call_ensures(apply_short_header_mask, (packet, mask), outcome) ==> {
                let before = packet@;
                let after = final(packet)@;
                &&& outcome is Ok <==> before.len() >= 13
                &&& outcome is Err ==> after == before
                &&& outcome is Ok ==> mask_applied(before, after, mask@)
            },
{
    assert forall|packet: &mut [u8]| #[trigger]
        call_ensures(apply_short_header_mask, (packet, mask), outcome)
            && outcome is Ok implies mask_applied(packet@, final(packet)@, mask@) by {
        lemma_mask_applied(packet@, mask@);
    }
}

/// Whether two packets differ by a header mask.
pub open spec fn mask_applied(before: Seq<u8>, after: Seq<u8>, mask: Seq<u8>) -> bool {
    &&& after.len() == before.len()
    &&& before[0] ^ after[0] == mask[0] % 128
    &&& before[9] ^ after[9] == mask[1]
    &&& before[10] ^ after[10] == mask[2]
    &&& before[11] ^ after[11] == mask[3]
    &&& before[12] ^ after[12] == mask[4]
    &&& after.subrange(1, 9) == before.subrange(1, 9)
    &&& after.skip(13) == before.skip(13)
}

proof fn lemma_mask_applied(before: Seq<u8>, mask: Seq<u8>)
    requires
        before.len() >= 13,
    ensures
        mask_applied(before, crate::protection::masked(before, mask), mask),
{
    let after = crate::protection::masked(before, mask);
    let flags = before[0];
    let first = mask[0];
    assert(flags ^ (flags ^ (first & 0x7f)) == first % 128) by (bit_vector);
    assert forall|i: int| 9 <= i < 13 implies before[i] ^ #[trigger] after[i] == mask[i - 8] by {
        let value = before[i];
        let key = mask[i - 8];
        assert(value ^ (value ^ key) == key) by (bit_vector);
    }
    assert(after.subrange(1, 9) =~= before.subrange(1, 9));
    assert(after.skip(13) =~= before.skip(13));
}

/// The packets that one key may encrypt, by suite: 2^23 under AES-GCM, 2^62 under ChaCha20.
pub open spec fn encryptions_allowed(suite: CipherSuite) -> int {
    match suite {
        CipherSuite::Aes256GcmSha384 => 8_388_608,
        CipherSuite::ChaCha20Poly1305Sha384 => 4_611_686_018_427_387_904,
    }
}

/// The packets that may fail authentication under one key, by suite: 2^52 under AES-GCM, 2^36
/// under ChaCha20.
pub open spec fn failures_allowed(suite: CipherSuite) -> int {
    match suite {
        CipherSuite::Aes256GcmSha384 => 4_503_599_627_370_496,
        CipherSuite::ChaCha20Poly1305Sha384 => 68_719_476_736,
    }
}

/// A key encrypts up to its limit: each reservation counts one packet, the one beyond the limit is
/// refused, and an update is asked for exactly from then on.
pub proof fn lemma_encryptions_stop_at_the_limit(
    suite: CipherSuite,
    outcome: Result<(), ProtectionError>,
    usage: EncryptionUsage,
    required: bool,
    fresh: EncryptionUsage,
)
    requires
        call_ensures(EncryptionUsage::update_required, (usage, suite), required),
        call_ensures(<EncryptionUsage as Default>::default, (), fresh),
    ensures
        fresh.encrypted_packets == 0,
        required <==> usage.encrypted_packets >= encryptions_allowed(suite),
        forall|counter: &mut EncryptionUsage| #[trigger]
            call_ensures(EncryptionUsage::reserve, (counter, suite), outcome) ==> {
                let before = counter.encrypted_packets;
                let after = final(counter).encrypted_packets;
                &&& outcome is Ok <==> before < encryptions_allowed(suite)
                &&& outcome is Ok ==> after == before + 1
                &&& outcome matches Err(error) ==> after == before
                    && error is EncryptionLimitReached
            },
{
}

/// Failed authentications are counted one by one, and the one that reaches the limit is reported.
pub proof fn lemma_authentication_failures_stop_at_the_limit(
    suite: CipherSuite,
    outcome: Result<(), ProtectionError>,
    fresh: AuthenticationFailureUsage,
)
    requires
        call_ensures(<AuthenticationFailureUsage as Default>::default, (), fresh),
    ensures
        fresh.failed_authentications == 0,
        forall|counter: &mut AuthenticationFailureUsage| #[trigger]
            call_ensures(AuthenticationFailureUsage::record_failure, (counter, suite), outcome)
                ==> {
                let before = counter.failed_authentications;
                let after = final(counter).failed_authentications;
                &&& outcome is Ok <==> before + 1 < failures_allowed(suite)
                &&& outcome is Ok ==> after == before + 1
                &&& outcome matches Err(error) ==> after == failures_allowed(suite)
                    && error is AuthenticationFailureLimitReached
            },
{
}

/// Only a provider that reports the expected length has sealed a packet, and its error is passed
/// on.
pub proof fn lemma_sealed_lengths_must_match(
    sealed: Result<usize, ProviderError>,
    expected: usize,
    outcome: Result<(), ProtectionError>,
)
    requires
        call_ensures(check_sealed_length, (sealed, expected), outcome),
    ensures
        outcome is Ok <==> sealed == Ok::<usize, ProviderError>(expected),
        sealed matches Err(error) ==> outcome == Err::<(), ProtectionError>(
            ProtectionError::Provider(error),
        ),
        sealed matches Ok(actual) ==> actual != expected ==> (outcome matches Err(
            ProtectionError::ProviderLengthMismatch { expected: wanted, actual: found },
        ) && wanted == expected && found == actual),
{
}

/// Only failed authentications are counted as such, and only an answer of the expected length opens
/// a packet.
pub proof fn lemma_only_failed_authentications_count(
    opened: Result<usize, ProviderError>,
    expected: usize,
    suite: CipherSuite,
    settled: Result<usize, ProtectionError>,
)
    ensures
        forall|counter: &mut AuthenticationFailureUsage| #[trigger]
            call_ensures(settle_opened, (opened, expected, suite, counter), settled) ==> {
                let before = counter.failed_authentications;
                let after = final(counter).failed_authentications;
                let forged = opened == Err::<usize, ProviderError>(
                    ProviderError::AuthenticationFailed,
                );
                &&& settled is Ok <==> opened == Ok::<usize, ProviderError>(expected)
                &&& settled is Ok ==> settled->Ok_0 == expected
                &&& !forged ==> after == before
                &&& forged && before + 1 < failures_allowed(suite) ==> after == before + 1
                    && settled == Err::<usize, ProtectionError>(
                    ProtectionError::Provider(ProviderError::AuthenticationFailed),
                )
                &&& forged && before + 1 >= failures_allowed(suite) ==> after == failures_allowed(
                    suite,
                ) && settled == Err::<usize, ProtectionError>(
                    ProtectionError::AuthenticationFailureLimitReached,
                )
            },
{
}

/// A packet is protected only under a packet number of at most 62 bits, whose low bits the header
/// carries, in a buffer that holds all of it, and with a key that is not used up. Otherwise nothing
/// is touched, and the first of these that fails is reported.
pub proof fn lemma_protection_is_refused_untouched<P: PacketCryptoProvider>(
    provider: &P,
    protection: &PathProtection<'_, P>,
    header: ShortHeader,
    packet_number: u64,
    plaintext_length: usize,
    protected: Result<usize, ProtectionError>,
)
    ensures
        forall|packet: &mut [u8], usage: &mut EncryptionUsage|
            #![trigger
                call_ensures(
                    protect_short_packet::<P>,
                    (provider, protection, header, packet_number, plaintext_length, packet, usage),
                    protected,
                )
            ]
            call_ensures(
                protect_short_packet::<P>,
                (
                    provider,
                    protection,
                    header,
                    packet_number,
                    plaintext_length,
                    packet,
                    usage,
                ),
                protected,
            ) ==> {
                let after = final(packet)@;
                let end = 13 + plaintext_length + 16;
                let full = usage.encrypted_packets >= encryptions_allowed(protection.suite);
                let fitting = packet_number < 0x4000_0000_0000_0000
                    && header.truncated_packet_number == packet_number % 0x1_0000_0000 && end
                    <= packet@.len();
                &&& !fitting || full ==> protected is Err && after == packet@ && *final(usage)
                    == *usage
                &&& packet_number >= 0x4000_0000_0000_0000 ==> protected == Err::<
                    usize,
                    ProtectionError,
                >(ProtectionError::PacketNumberOutOfRange(packet_number))
                &&& packet_number < 0x4000_0000_0000_0000 ==> (protected == Err::<
                    usize,
                    ProtectionError,
                >(ProtectionError::PacketNumberMismatch) <==> header.truncated_packet_number
                    != packet_number % 0x1_0000_0000)
                &&& fitting ==> (protected == Err::<usize, ProtectionError>(
                    ProtectionError::EncryptionLimitReached,
                ) <==> full)
            },
{
    assert forall|packet: &mut [u8], usage: &mut EncryptionUsage|
        #![trigger
            call_ensures(
                protect_short_packet::<P>,
                (provider, protection, header, packet_number, plaintext_length, packet, usage),
                protected,
            )
        ]
        call_ensures(
            protect_short_packet::<P>,
            (provider, protection, header, packet_number, plaintext_length, packet, usage),
            protected,
        ) implies packet@.len() <= usize::MAX by {
        assert(packet@.len() == packet.len());
    }
}

/// A protected packet is the header and the sealed plaintext under a mask. The nonce belongs to the
/// full packet number and the IV, the additional data is the header, and the mask comes from the 16
/// bytes behind the header. One encryption is counted.
pub proof fn lemma_protected_packet_is_sealed_under_its_number<P: PacketCryptoProvider>(
    provider: &P,
    protection: &PathProtection<'_, P>,
    header: ShortHeader,
    packet_number: u64,
    plaintext_length: usize,
    protected: Result<usize, ProtectionError>,
)
    ensures
        forall|packet: &mut [u8], usage: &mut EncryptionUsage|
            #![trigger
                call_ensures(
                    protect_short_packet::<P>,
                    (provider, protection, header, packet_number, plaintext_length, packet, usage),
                    protected,
                )
            ]
            call_ensures(
                protect_short_packet::<P>,
                (
                    provider,
                    protection,
                    header,
                    packet_number,
                    plaintext_length,
                    packet,
                    usage,
                ),
                protected,
            ) ==> {
                let after = final(packet)@;
                let end = 13 + plaintext_length + 16;
                &&& protected is Ok ==> {
                    &&& packet_number < 0x4000_0000_0000_0000
                    &&& header.truncated_packet_number == packet_number % 0x1_0000_0000
                    &&& end <= packet@.len()
                    &&& usage.encrypted_packets < encryptions_allowed(protection.suite)
                    &&& final(usage).encrypted_packets == usage.encrypted_packets + 1
                    &&& protected->Ok_0 == end
                    &&& after.skip(end) == packet@.skip(end)
                    &&& exists|nonce: Seq<u8>, clear: Seq<u8>| #[trigger]
                        sealed_under(
                            provider,
                            protection,
                            header,
                            nonce,
                            clear,
                            packet@.subrange(13, 13 + plaintext_length),
                        ) && nonce_belongs(nonce, protection.iv@, packet_number) && mask_applied(
                            clear,
                            after.take(end),
                            provider.mask(
                                protection.suite,
                                *protection.header_protection_key,
                                after.subrange(13, 29),
                            ),
                        )
                }
            },
{
    assert forall|packet: &mut [u8], usage: &mut EncryptionUsage|
        #![trigger
            call_ensures(
                protect_short_packet::<P>,
                (provider, protection, header, packet_number, plaintext_length, packet, usage),
                protected,
            )
        ]
        call_ensures(
            protect_short_packet::<P>,
            (provider, protection, header, packet_number, plaintext_length, packet, usage),
            protected,
        ) && protected is Ok implies {
        let after = final(packet)@;
        let end = 13 + plaintext_length + 16;
        exists|nonce: Seq<u8>, clear: Seq<u8>| #[trigger]
            sealed_under(
                provider,
                protection,
                header,
                nonce,
                clear,
                packet@.subrange(13, 13 + plaintext_length),
            ) && nonce_belongs(nonce, protection.iv@, packet_number) && mask_applied(
                clear,
                after.take(end),
                provider.mask(
                    protection.suite,
                    *protection.header_protection_key,
                    after.subrange(13, 29),
                ),
            )
    } by {
        let after = final(packet)@;
        let end = 13 + plaintext_length + 16;
        let plaintext = packet@.subrange(13, 13 + plaintext_length);
        let nonce = crate::protection::nonce_of(protection.iv@, packet_number);
        let clear = crate::protection::sealed_packet(
            provider,
            protection,
            header,
            packet_number,
            plaintext,
        );
        lemma_nonce_belongs(protection.iv@, packet_number);
        assert(after.take(end).len() == end);
        assert(clear.len() == end);
        assert(crate::protection::mask_sample(clear) =~= after.subrange(13, 29)) by {
            assert forall|i: int| 13 <= i < 29 implies clear[i] == #[trigger] after[i] by {
                assert(after.take(end)[i] == after[i]);
            }
        }
        let mask = provider.mask(
            protection.suite,
            *protection.header_protection_key,
            after.subrange(13, 29),
        );
        assert(clear.take(13) =~= header.encoding());
        assert(clear.skip(13) =~= provider.sealed(
            protection.suite,
            *protection.aead_key,
            nonce,
            header.encoding(),
            plaintext,
        ));
        assert(sealed_under(provider, protection, header, nonce, clear, plaintext));
        lemma_mask_applied(clear, mask);
    }
}

/// Whether `clear` is a header followed by a plaintext that was sealed with that header as
/// additional data.
pub open spec fn sealed_under<P: PacketCryptoProvider>(
    provider: &P,
    protection: &PathProtection<'_, P>,
    header: ShortHeader,
    nonce: Seq<u8>,
    clear: Seq<u8>,
    plaintext: Seq<u8>,
) -> bool {
    &&& clear.take(13) == header.encoding()
    &&& clear.skip(13) == provider.sealed(
        protection.suite,
        *protection.aead_key,
        nonce,
        header.encoding(),
        plaintext,
    )
}

/// Header protection comes off with the mask of the 16 bytes behind the header, which protection
/// leaves alone. Shorter packets are refused.
pub proof fn lemma_header_protection_comes_off<P: PacketCryptoProvider>(
    provider: &P,
    protection: &PathProtection<'_, P>,
    outcome: Result<ShortHeader, ProtectionError>,
)
    ensures
        forall|packet: &mut [u8]| #[trigger]
            call_ensures(
                remove_short_header_protection::<P>,
                (provider, protection, packet),
                outcome,
            ) ==> {
                let before = packet@;
                let after = final(packet)@;
                &&& before.len() < 29 ==> outcome is Err && after == before
                &&& outcome matches Ok(header) ==> {
                    &&& mask_applied(
                        before,
                        after,
                        provider.mask(
                            protection.suite,
                            *protection.header_protection_key,
                            before.subrange(13, 29),
                        ),
                    )
                    &&& after.take(13) == header.encoding()
                }
            },
{
    assert forall|packet: &mut [u8]| #[trigger]
        call_ensures(remove_short_header_protection::<P>, (provider, protection, packet), outcome)
            && outcome is Ok implies mask_applied(
        packet@,
        final(packet)@,
        provider.mask(
            protection.suite,
            *protection.header_protection_key,
            packet@.subrange(13, 29),
        ),
    ) by {
        lemma_mask_applied(
            packet@,
            provider.mask(
                protection.suite,
                *protection.header_protection_key,
                packet@.subrange(13, 29),
            ),
        );
    }
}

/// Whether a provider opens a packet to a plaintext under the packet number's nonce, with the
/// header as additional data.
pub open spec fn opened_under<P: PacketCryptoProvider>(
    provider: &P,
    protection: &PathProtection<'_, P>,
    nonce: Seq<u8>,
    packet: Seq<u8>,
    plaintext: Seq<u8>,
) -> bool {
    provider.opened(
        protection.suite,
        *protection.aead_key,
        nonce,
        packet.take(13),
        packet.skip(13),
    ) == Some(plaintext)
}

/// An opened packet has a packet number of at most 62 bits that ends in the header's bits and is
/// the one nearest to what was expected. Its plaintext is what the provider authenticated under
/// that number, and no failure is counted.
pub proof fn lemma_opened_packet_is_authentic<P: PacketCryptoProvider>(
    provider: &P,
    protection: &PathProtection<'_, P>,
    header: ShortHeader,
    expected: u64,
    opened: OpenedPacket,
)
    ensures
        forall|packet: &mut [u8], failures: &mut AuthenticationFailureUsage|
            #![trigger
                call_ensures(
                    open_short_payload::<P>,
                    (provider, protection, header, expected, packet, failures),
                    Ok(opened),
                )
            ]
            call_ensures(
                open_short_payload::<P>,
                (provider, protection, header, expected, packet, failures),
                Ok(opened),
            ) ==> {
                let before = packet@;
                let after = final(packet)@;
                &&& opened.header == header
                &&& opened.packet_number < 0x4000_0000_0000_0000
                &&& opened.packet_number % 0x1_0000_0000 == header.truncated_packet_number
                &&& forall|other: u64|
                    -0x8000_0000 < other - expected <= 0x8000_0000 && #[trigger] (other
                        % 0x1_0000_0000) == header.truncated_packet_number ==> other
                        == opened.packet_number
                &&& opened.plaintext_length + 29 == before.len()
                &&& *final(failures) == *failures
                &&& after.take(13) == before.take(13)
                &&& exists|nonce: Seq<u8>| #[trigger]
                    opened_under(
                        provider,
                        protection,
                        nonce,
                        before,
                        after.subrange(13, 13 + opened.plaintext_length),
                    ) && nonce_belongs(nonce, protection.iv@, opened.packet_number)
            },
{
    assert forall|packet: &mut [u8], failures: &mut AuthenticationFailureUsage|
        #![trigger
            call_ensures(
                open_short_payload::<P>,
                (provider, protection, header, expected, packet, failures),
                Ok(opened),
            )
        ]
        call_ensures(
            open_short_payload::<P>,
            (provider, protection, header, expected, packet, failures),
            Ok(opened),
        ) implies {
        let before = packet@;
        let after = final(packet)@;
        &&& opened.packet_number % 0x1_0000_0000 == header.truncated_packet_number
        &&& forall|other: u64|
            -0x8000_0000 < other - expected <= 0x8000_0000 && #[trigger] (other % 0x1_0000_0000)
                == header.truncated_packet_number ==> other == opened.packet_number
        &&& exists|nonce: Seq<u8>| #[trigger]
            opened_under(
                provider,
                protection,
                nonce,
                before,
                after.subrange(13, 13 + opened.plaintext_length),
            ) && nonce_belongs(nonce, protection.iv@, opened.packet_number)
    } by {
        let nonce = crate::protection::nonce_of(protection.iv@, opened.packet_number);
        lemma_nonce_belongs(protection.iv@, opened.packet_number);
        assert(opened_under(
            provider,
            protection,
            nonce,
            packet@,
            final(packet)@.subrange(13, 13 + opened.plaintext_length),
        ));
        lemma_nearest(header.truncated_packet_number, expected);
    }
}

proof fn lemma_nearest(truncated: u32, expected: u64)
    ensures
        ({
            let number = crate::wire::reconstructed(truncated, expected);
            &&& 0 <= number <= u64::MAX ==> number % 0x1_0000_0000 == truncated
            &&& forall|other: u64|
                -0x8000_0000 < other - expected <= 0x8000_0000 && #[trigger] (other
                    % 0x1_0000_0000) == truncated ==> other == number
        }),
{
    let low = expected as int % 0x1_0000_0000;
    let base = expected - low;
    assert((base + truncated) % 0x1_0000_0000 == truncated);
    assert((base + truncated + 0x1_0000_0000) % 0x1_0000_0000 == truncated);
    assert((base + truncated - 0x1_0000_0000) % 0x1_0000_0000 == truncated);
}

} // verus!
