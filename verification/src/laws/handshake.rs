//! Laws of the handshake messages.

use vstd::prelude::*;

use crate::bytes::{be16, be32, overwrite_prefix};
use crate::handshake::{
    encode_hybrid_shared_secret, CipherSuite, Finish, HandshakeError, Hello, IdentityAuth, Init,
    Response, Retry,
};
use crate::laws::numbers::{
    lemma_readers_read_numbers, lemma_spells16, lemma_spells32, number_at,
};

verus! {

/// A cipher suite is known by one number, and no other number is a suite.
pub proof fn lemma_suites_have_their_codes(
    suite: CipherSuite,
    code: u16,
    value: u16,
    found: Result<CipherSuite, HandshakeError>,
)
    requires
        call_ensures(CipherSuite::wire_code, (suite,), code),
        call_ensures(CipherSuite::from_wire, (value,), found),
    ensures
        suite is Aes256GcmSha384 ==> code == 1,
        suite is ChaCha20Poly1305Sha384 ==> code == 2,
        found is Ok <==> value == 1 || value == 2,
        found matches Ok(found) ==> (found == suite <==> value == code),
        found matches Err(error) ==> error == HandshakeError::UnknownCipherSuite(value),
{
}

/// Whether a HELLO can be sent: it offers a known suite, in one of the two low bits, a payload of
/// at least 1,200 bytes, and one to 16 paths.
pub open spec fn offers_something(hello: Hello) -> bool {
    &&& hello.cipher_suite_bitmap % 4 != 0
    &&& hello.max_udp_payload >= 1_200
    &&& 1 <= hello.max_paths <= 16
}

proof fn lemma_offers(hello: Hello)
    ensures
        hello.field_failure() is None <==> offers_something(hello),
{
    let bitmap = hello.cipher_suite_bitmap;
    assert((bitmap & 3 == 0) == (bitmap % 4 == 0)) by (bit_vector);
}

/// A HELLO is 90 bytes: the random, the fingerprint, the suites in two, the capabilities in four
/// and the payload limit in two bytes, the path limit, and a zero byte.
pub open spec fn is_hello_layout(bytes: Seq<u8>, message: Hello) -> bool {
    &&& bytes.len() >= 90
    &&& bytes.subrange(0, 32) == message.client_random@
    &&& bytes.subrange(32, 80) == message.identity_fingerprint@
    &&& number_at(bytes, 80, 2) == message.cipher_suite_bitmap
    &&& number_at(bytes, 82, 4) == message.capabilities
    &&& number_at(bytes, 86, 2) == message.max_udp_payload
    &&& bytes[88] == message.max_paths
    &&& bytes[89] == 0
}

/// A HELLO is written in its layout, exactly if it is valid and the output holds it.
pub proof fn lemma_hello_is_written_in_its_layout(
    message: Hello,
    written: Result<usize, HandshakeError>,
)
    ensures
        forall|output: &mut [u8]| #[trigger]
            call_ensures(Hello::encode, (message, output), written) ==> {
                let after = final(output)@;
                let end = 90;
                &&& written is Ok <==> output@.len() >= end && offers_something(message)
                &&& written is Err ==> after == output@
                &&& written matches Ok(length) ==> length == end
                &&& written is Ok ==> is_hello_layout(after, message) && after.skip(end)
                    == output@.skip(end)
            },
{
    lemma_offers(message);
    assert forall|output: &mut [u8]| #[trigger]
        call_ensures(Hello::encode, (message, output), written)
            && written is Ok implies is_hello_layout(final(output)@, message)
        && final(output)@.skip(90) == output@.skip(90) by {
        lemma_hello_bytes(message, output@);
    }
}

proof fn lemma_hello_bytes(message: Hello, buffer: Seq<u8>)
    requires
        buffer.len() >= 90,
    ensures
        ({
            let after = overwrite_prefix(buffer, message.encoding());
            is_hello_layout(after, message) && after.skip(90) == buffer.skip(90)
        }),
{
    let after = overwrite_prefix(buffer, message.encoding());
    assert(after.subrange(0, 32) =~= message.client_random@);
    assert(after.subrange(32, 80) =~= message.identity_fingerprint@);
    assert(after.subrange(80, 82) =~= be16(message.cipher_suite_bitmap));
    lemma_spells16(after, 80, message.cipher_suite_bitmap);
    assert(after.subrange(82, 86) =~= be32(message.capabilities));
    lemma_spells32(after, 82, message.capabilities);
    assert(after.subrange(86, 88) =~= be16(message.max_udp_payload));
    lemma_spells16(after, 86, message.max_udp_payload);
    assert(after.skip(90) =~= buffer.skip(90));
}

/// A HELLO is read from its layout, and nothing else is accepted.
pub proof fn lemma_hello_is_read_from_its_layout(
    input: &[u8],
    decoded: Result<Hello, HandshakeError>,
)
    requires
        call_ensures(Hello::decode, (input,), decoded),
    ensures
        decoded is Ok <==> {
            &&& input@.len() == 90
            &&& input@[89] == 0
            &&& number_at(input@, 80, 2) % 4 != 0
            &&& number_at(input@, 86, 2) >= 1_200
            &&& 1 <= input@[88] <= 16
        },
        decoded matches Ok(message) ==> is_hello_layout(input@, message),
{
    lemma_readers_read_numbers(input@, 80);
    lemma_readers_read_numbers(input@, 86);
    let bitmap = crate::bytes::be16_at(input@, 80);
    assert((bitmap & 3 == 0) == (bitmap % 4 == 0)) by (bit_vector);
    if decoded is Ok {
        let message = decoded->Ok_0;
        assert(overwrite_prefix(input@, message.encoding()) =~= input@);
        lemma_hello_bytes(message, input@);
    }
}

/// Bytes that start with an encoded HELLO are in its layout.
pub(crate) proof fn lemma_hello_prefix(message: Hello, bytes: Seq<u8>)
    requires
        bytes.len() >= 90,
        message.encoding() == bytes.take(90),
    ensures
        is_hello_layout(bytes, message),
        message.field_failure() is None <==> offers_something(message),
{
    lemma_offers(message);
    lemma_hello_bytes(message, bytes);
    assert(overwrite_prefix(bytes, message.encoding()) =~= bytes);
}

/// A RETRY is the random, the length of the cookie in two bytes, and the cookie, which has 16 to
/// 256 bytes.
pub open spec fn is_retry_layout(bytes: Seq<u8>, message: Retry<'_>) -> bool {
    &&& bytes.len() >= 34 + message.cookie@.len()
    &&& bytes.subrange(0, 32) == message.server_random@
    &&& number_at(bytes, 32, 2) == message.cookie@.len()
    &&& bytes.subrange(34, 34int + message.cookie@.len()) == message.cookie@
}

/// A RETRY is written in its layout, exactly if it is valid and the output holds it.
pub proof fn lemma_retry_is_written_in_its_layout(
    message: Retry<'_>,
    written: Result<usize, HandshakeError>,
)
    ensures
        forall|output: &mut [u8]| #[trigger]
            call_ensures(Retry::encode, (message, output), written) ==> {
                let after = final(output)@;
                let end = 34int + message.cookie@.len();
                &&& written is Ok <==> output@.len() >= end && 16 <= message.cookie@.len() <= 256
                &&& written is Err ==> after == output@
                &&& written matches Ok(length) ==> length == end
                &&& written is Ok ==> is_retry_layout(after, message) && after.skip(end)
                    == output@.skip(end)
            },
{
    assert forall|output: &mut [u8]| #[trigger]
        call_ensures(Retry::encode, (message, output), written)
            && written is Ok implies {
        let end = 34int + message.cookie@.len();
        is_retry_layout(final(output)@, message) && final(output)@.skip(end) == output@.skip(end)
    } by {
        lemma_retry_bytes(message, output@);
    }
}

proof fn lemma_retry_bytes(message: Retry<'_>, buffer: Seq<u8>)
    requires
        message.cookie@.len() <= 256,
        buffer.len() >= 34 + message.cookie@.len(),
    ensures
        ({
            let after = overwrite_prefix(buffer, message.encoding());
            let end = 34int + message.cookie@.len();
            is_retry_layout(after, message) && after.skip(end) == buffer.skip(end)
        }),
{
    let after = overwrite_prefix(buffer, message.encoding());
    assert(after.subrange(0, 32) =~= message.server_random@);
    let length = message.cookie@.len() as u16;
    assert(after.subrange(32, 34) =~= be16(length));
    lemma_spells16(after, 32, length);
    assert(after.subrange(34, 34int + message.cookie@.len()) =~= message.cookie@);
    let end = 34int + message.cookie@.len();
    assert(after.skip(end) =~= buffer.skip(end));
}

/// A RETRY is read from its layout, and nothing else is accepted.
pub proof fn lemma_retry_is_read_from_its_layout(
    input: &[u8],
    decoded: Result<Retry<'_>, HandshakeError>,
)
    requires
        call_ensures(Retry::decode, (input,), decoded),
    ensures
        decoded is Ok <==> {
            &&& input@.len() == 34 + number_at(input@, 32, 2)
            &&& input@.len() >= 34
            &&& 16 <= number_at(input@, 32, 2) <= 256
        },
        decoded matches Ok(message) ==> is_retry_layout(input@, message),
{
    lemma_readers_read_numbers(input@, 32);
    if decoded is Ok {
        let message = decoded->Ok_0;
        assert(overwrite_prefix(input@, message.encoding()) =~= input@);
        lemma_retry_bytes(message, input@);
    }
}

/// A FINISH is the length of the encrypted authentication in two bytes, and its 5,421 bytes.
pub open spec fn is_finish_layout(bytes: Seq<u8>, message: Finish<'_>) -> bool {
    &&& bytes.len() >= 2 + message.encrypted_identity_auth@.len()
    &&& number_at(bytes, 0, 2) == message.encrypted_identity_auth@.len()
    &&& bytes.subrange(2, 2int + message.encrypted_identity_auth@.len())
        == message.encrypted_identity_auth@
}

/// A FINISH is written in its layout, exactly if it is valid and the output holds it.
pub proof fn lemma_finish_is_written_in_its_layout(
    message: Finish<'_>,
    written: Result<usize, HandshakeError>,
)
    ensures
        forall|output: &mut [u8]| #[trigger]
            call_ensures(Finish::encode, (message, output), written) ==> {
                let after = final(output)@;
                let end = 2int + message.encrypted_identity_auth@.len();
                &&& written is Ok <==> output@.len() >= end
                    && message.encrypted_identity_auth@.len() == 5_421
                &&& written is Err ==> after == output@
                &&& written matches Ok(length) ==> length == end
                &&& written is Ok ==> is_finish_layout(after, message) && after.skip(end)
                    == output@.skip(end)
            },
{
    assert forall|output: &mut [u8]| #[trigger]
        call_ensures(Finish::encode, (message, output), written)
            && written is Ok implies {
        let end = 2int + message.encrypted_identity_auth@.len();
        is_finish_layout(final(output)@, message) && final(output)@.skip(end) == output@.skip(end)
    } by {
        lemma_finish_bytes(message, output@);
    }
}

proof fn lemma_finish_bytes(message: Finish<'_>, buffer: Seq<u8>)
    requires
        message.encrypted_identity_auth@.len() == 5_421,
        buffer.len() >= 2 + message.encrypted_identity_auth@.len(),
    ensures
        ({
            let after = overwrite_prefix(buffer, message.encoding());
            let end = 2int + message.encrypted_identity_auth@.len();
            is_finish_layout(after, message) && after.skip(end) == buffer.skip(end)
        }),
{
    let after = overwrite_prefix(buffer, message.encoding());
    let length = message.encrypted_identity_auth@.len() as u16;
    assert(after.subrange(0, 2) =~= be16(length));
    lemma_spells16(after, 0, length);
    let end = 2int + message.encrypted_identity_auth@.len();
    assert(after.subrange(2, end) =~= message.encrypted_identity_auth@);
    assert(after.skip(end) =~= buffer.skip(end));
}

/// A FINISH is read from its layout, and nothing else is accepted.
pub proof fn lemma_finish_is_read_from_its_layout(
    input: &[u8],
    decoded: Result<Finish<'_>, HandshakeError>,
)
    requires
        call_ensures(Finish::decode, (input,), decoded),
    ensures
        decoded is Ok <==> {
            &&& input@.len() == 5_423
            &&& number_at(input@, 0, 2) == 5_421
        },
        decoded matches Ok(message) ==> is_finish_layout(input@, message),
{
    lemma_readers_read_numbers(input@, 0);
    if decoded is Ok {
        let message = decoded->Ok_0;
        assert(overwrite_prefix(input@, message.encoding()) =~= input@);
        lemma_finish_bytes(message, input@);
    }
}

/// A RESPONSE is the suite in two bytes, the capabilities in four, the payload limit in two, the
/// path limit, a zero byte, the fingerprint, both key shares, and the encrypted authentication
/// behind its length in two bytes.
pub open spec fn is_response_layout(bytes: Seq<u8>, message: Response<'_>) -> bool {
    &&& bytes.len() >= 6_601
    &&& message.selected_cipher_suite is Aes256GcmSha384 ==> number_at(bytes, 0, 2) == 1
    &&& message.selected_cipher_suite is ChaCha20Poly1305Sha384 ==> number_at(bytes, 0, 2) == 2
    &&& number_at(bytes, 2, 4) == message.negotiated_capabilities
    &&& number_at(bytes, 6, 2) == message.max_udp_payload
    &&& bytes[8] == message.max_paths
    &&& bytes[9] == 0
    &&& bytes.subrange(10, 58) == message.identity_fingerprint@
    &&& bytes.subrange(58, 90) == message.x25519_public_key@
    &&& bytes.subrange(90, 1_178) == message.ml_kem_ciphertext@
    &&& number_at(bytes, 1_178, 2) == message.encrypted_identity_auth@.len()
    &&& bytes.subrange(1_180, 6_601) == message.encrypted_identity_auth@
}

/// A RESPONSE is written in its layout, exactly if it is valid and the output holds it.
pub proof fn lemma_response_is_written_in_its_layout(
    message: Response<'_>,
    written: Result<usize, HandshakeError>,
)
    ensures
        forall|output: &mut [u8]| #[trigger]
            call_ensures(Response::encode, (message, output), written) ==> {
                let after = final(output)@;
                let end = 6_601;
                &&& written is Ok <==> output@.len() >= end && {
                    &&& message.max_udp_payload >= 1_200
                    &&& 1 <= message.max_paths <= 16
                    &&& message.ml_kem_ciphertext@.len() == 1_088
                    &&& message.encrypted_identity_auth@.len() == 5_421
                }
                &&& written is Err ==> after == output@
                &&& written matches Ok(length) ==> length == end
                &&& written is Ok ==> is_response_layout(after, message) && after.skip(end)
                    == output@.skip(end)
            },
{
    assert forall|output: &mut [u8]| #[trigger]
        call_ensures(Response::encode, (message, output), written)
            && written is Ok implies is_response_layout(final(output)@, message)
        && final(output)@.skip(6_601) == output@.skip(6_601) by {
        lemma_response_bytes(message, output@);
    }
}

proof fn lemma_response_bytes(message: Response<'_>, buffer: Seq<u8>)
    requires
        message.ml_kem_ciphertext@.len() == 1_088,
        message.encrypted_identity_auth@.len() == 5_421,
        buffer.len() >= 6_601,
    ensures
        ({
            let after = overwrite_prefix(buffer, message.encoding());
            is_response_layout(after, message) && after.skip(6_601) == buffer.skip(6_601)
        }),
{
    let after = overwrite_prefix(buffer, message.encoding());
    let code = message.selected_cipher_suite.code();
    assert(after.subrange(0, 2) =~= be16(code));
    lemma_spells16(after, 0, code);
    assert(after.subrange(2, 6) =~= be32(message.negotiated_capabilities));
    lemma_spells32(after, 2, message.negotiated_capabilities);
    assert(after.subrange(6, 8) =~= be16(message.max_udp_payload));
    lemma_spells16(after, 6, message.max_udp_payload);
    assert(after.subrange(10, 58) =~= message.identity_fingerprint@);
    assert(after.subrange(58, 90) =~= message.x25519_public_key@);
    assert(after.subrange(90, 1_178) =~= message.ml_kem_ciphertext@);
    let length = message.encrypted_identity_auth@.len() as u16;
    assert(after.subrange(1_178, 1180) =~= be16(length));
    lemma_spells16(after, 1_178, length);
    assert(after.subrange(1_180, 6_601) =~= message.encrypted_identity_auth@);
    assert(after.skip(6_601) =~= buffer.skip(6_601));
}

/// A RESPONSE is read from its layout, and nothing else is accepted.
pub proof fn lemma_response_is_read_from_its_layout(
    input: &[u8],
    decoded: Result<Response<'_>, HandshakeError>,
)
    requires
        call_ensures(Response::decode, (input,), decoded),
    ensures
        decoded is Ok <==> {
            &&& input@.len() == 6_601
            &&& input@[9] == 0
            &&& number_at(input@, 0, 2) == 1 || number_at(input@, 0, 2) == 2
            &&& number_at(input@, 6, 2) >= 1_200
            &&& 1 <= input@[8] <= 16
            &&& number_at(input@, 1_178, 2) == 5_421
        },
        decoded matches Ok(message) ==> is_response_layout(input@, message),
{
    lemma_readers_read_numbers(input@, 0);
    lemma_readers_read_numbers(input@, 6);
    lemma_readers_read_numbers(input@, 1_178);
    if decoded is Ok {
        let message = decoded->Ok_0;
        assert(overwrite_prefix(input@, message.encoding()) =~= input@);
        lemma_response_bytes(message, input@);
    }
}

/// An identity authentication is both public keys and both signatures, Ed25519 before ML-DSA-65 but
/// the keys before the signatures, and the MAC.
pub open spec fn is_identity_auth_layout(bytes: Seq<u8>, message: IdentityAuth<'_>) -> bool {
    &&& bytes.len() >= 5_405
    &&& bytes.subrange(0, 32) == message.ed25519_public_key@
    &&& bytes.subrange(32, 1_984) == message.ml_dsa_public_key@
    &&& bytes.subrange(1_984, 2_048) == message.ed25519_signature@
    &&& bytes.subrange(2_048, 5_357) == message.ml_dsa_signature@
    &&& bytes.subrange(5_357, 5_405) == message.finished_mac@
}

/// An identity authentication is written in its layout, exactly if it is valid and the output holds
/// it.
pub proof fn lemma_identity_auth_is_written_in_its_layout(
    message: IdentityAuth<'_>,
    written: Result<usize, HandshakeError>,
)
    ensures
        forall|output: &mut [u8]| #[trigger]
            call_ensures(IdentityAuth::encode, (message, output), written) ==> {
                let after = final(output)@;
                let end = 5_405;
                &&& written is Ok <==> output@.len() >= end
                    && message.ml_dsa_public_key@.len() == 1_952
                    && message.ml_dsa_signature@.len() == 3_309
                &&& written is Err ==> after == output@
                &&& written matches Ok(length) ==> length == end
                &&& written is Ok ==> is_identity_auth_layout(after, message) && after.skip(end)
                    == output@.skip(end)
            },
{
    assert forall|output: &mut [u8]| #[trigger]
        call_ensures(IdentityAuth::encode, (message, output), written)
            && written is Ok implies is_identity_auth_layout(final(output)@, message)
        && final(output)@.skip(5_405) == output@.skip(5_405) by {
        lemma_identity_auth_bytes(message, output@);
    }
}

proof fn lemma_identity_auth_bytes(message: IdentityAuth<'_>, buffer: Seq<u8>)
    requires
        message.ml_dsa_public_key@.len() == 1_952,
        message.ml_dsa_signature@.len() == 3_309,
        buffer.len() >= 5_405,
    ensures
        ({
            let after = overwrite_prefix(buffer, message.encoding());
            is_identity_auth_layout(after, message) && after.skip(5_405) == buffer.skip(5_405)
        }),
{
    let after = overwrite_prefix(buffer, message.encoding());
    assert(after.subrange(0, 32) =~= message.ed25519_public_key@);
    assert(after.subrange(32, 1_984) =~= message.ml_dsa_public_key@);
    assert(after.subrange(1_984, 2_048) =~= message.ed25519_signature@);
    assert(after.subrange(2_048, 5_357) =~= message.ml_dsa_signature@);
    assert(after.subrange(5_357, 5_405) =~= message.finished_mac@);
    assert(after.skip(5_405) =~= buffer.skip(5_405));
}

/// An identity authentication is read from its layout, and nothing else is accepted.
pub proof fn lemma_identity_auth_is_read_from_its_layout(
    input: &[u8],
    decoded: Result<IdentityAuth<'_>, HandshakeError>,
)
    requires
        call_ensures(IdentityAuth::decode, (input,), decoded),
    ensures
        decoded is Ok <==> {
            &&& input@.len() == 5_405
        },
        decoded matches Ok(message) ==> is_identity_auth_layout(input@, message),
{
    if decoded is Ok {
        let message = decoded->Ok_0;
        assert(overwrite_prefix(input@, message.encoding()) =~= input@);
        lemma_identity_auth_bytes(message, input@);
    }
}

/// An INIT is a HELLO, the server's random, the cookie behind its length in two bytes, and both key
/// shares.
pub open spec fn is_init_layout(bytes: Seq<u8>, message: Init<'_>) -> bool {
    let keys = 124int + message.cookie@.len();
    &&& bytes.len() >= keys + 1_216
    &&& is_hello_layout(bytes, message.hello)
    &&& bytes.subrange(90, 122) == message.server_random@
    &&& number_at(bytes, 122, 2) == message.cookie@.len()
    &&& bytes.subrange(124, keys) == message.cookie@
    &&& bytes.subrange(keys, keys + 32) == message.x25519_public_key@
    &&& bytes.subrange(keys + 32, keys + 1_216) == message.ml_kem_encapsulation_key@
}

/// An INIT is written in its layout, exactly if it is valid and the output holds it.
pub proof fn lemma_init_is_written_in_its_layout(
    message: Init<'_>,
    written: Result<usize, HandshakeError>,
)
    ensures
        forall|output: &mut [u8]| #[trigger]
            call_ensures(Init::encode, (message, output), written) ==> {
                let after = final(output)@;
                let end = 1_340int + message.cookie@.len();
                &&& written is Ok <==> {
                    &&& output@.len() >= end
                    &&& 16 <= message.cookie@.len() <= 256
                    &&& message.ml_kem_encapsulation_key@.len() == 1_184
                    &&& offers_something(message.hello)
                }
                &&& written is Err ==> after == output@
                &&& written matches Ok(length) ==> length == end
                &&& written is Ok ==> is_init_layout(after, message) && after.skip(end)
                    == output@.skip(end)
            },
{
    lemma_offers(message.hello);
    assert forall|output: &mut [u8]| #[trigger]
        call_ensures(Init::encode, (message, output), written) && written is Ok implies {
        let end = 1_340int + message.cookie@.len();
        is_init_layout(final(output)@, message) && final(output)@.skip(end) == output@.skip(end)
    } by {
        lemma_init_bytes(message, output@);
    }
}

proof fn lemma_init_bytes(message: Init<'_>, buffer: Seq<u8>)
    requires
        message.cookie@.len() <= 256,
        message.ml_kem_encapsulation_key@.len() == 1_184,
        buffer.len() >= 1_340 + message.cookie@.len(),
    ensures
        ({
            let after = overwrite_prefix(buffer, message.encoding());
            let end = 1_340int + message.cookie@.len();
            is_init_layout(after, message) && after.skip(end) == buffer.skip(end)
        }),
{
    let after = overwrite_prefix(buffer, message.encoding());
    let keys = 124int + message.cookie@.len();
    let end = 1_340int + message.cookie@.len();
    crate::handshake::lemma_hello_round_trip(message.hello, message.hello);
    lemma_hello_bytes(message.hello, after);
    assert(overwrite_prefix(after, message.hello.encoding()) =~= after);
    let length = message.cookie@.len() as u16;
    assert(after.subrange(122, 124) =~= be16(length));
    lemma_spells16(after, 122, length);
    assert(after.subrange(90, 122) =~= message.server_random@);
    assert(after.subrange(124, keys) =~= message.cookie@);
    assert(after.subrange(keys, keys + 32) =~= message.x25519_public_key@);
    assert(after.subrange(keys + 32, keys + 1_216) =~= message.ml_kem_encapsulation_key@);
    assert(after.skip(end) =~= buffer.skip(end));
}

/// An INIT is read from its layout, and nothing else is accepted.
pub proof fn lemma_init_is_read_from_its_layout(
    input: &[u8],
    decoded: Result<Init<'_>, HandshakeError>,
)
    requires
        call_ensures(Init::decode, (input,), decoded),
    ensures
        decoded is Ok <==> {
            &&& input@.len() >= 1_340
            &&& input@.len() == 1_340 + number_at(input@, 122, 2)
            &&& 16 <= number_at(input@, 122, 2) <= 256
            &&& input@[89] == 0
            &&& number_at(input@, 80, 2) % 4 != 0
            &&& number_at(input@, 86, 2) >= 1_200
            &&& 1 <= input@[88] <= 16
        },
        decoded matches Ok(message) ==> is_init_layout(input@, message) && offers_something(
            message.hello,
        ),
{
    lemma_readers_read_numbers(input@, 80);
    lemma_readers_read_numbers(input@, 86);
    lemma_readers_read_numbers(input@, 122);
    let bitmap = crate::bytes::be16_at(input@, 80);
    assert((bitmap & 3 == 0) == (bitmap % 4 == 0)) by (bit_vector);
    if input@.len() >= 90 {
        assert(crate::bytes::be16_at(input@.take(90), 80) == bitmap);
        assert(crate::bytes::be16_at(input@.take(90), 86) == crate::bytes::be16_at(input@, 86));
    }
    if decoded is Ok {
        let message = decoded->Ok_0;
        assert(overwrite_prefix(input@, message.encoding()) =~= input@);
        lemma_init_bytes(message, input@);
        lemma_offers(message.hello);
    }
}

/// The hybrid secret is the ML-KEM secret followed by the X25519 secret.
pub proof fn lemma_hybrid_secret_order(
    ml_kem: &[u8; 32],
    x25519: &[u8; 32],
    written: Result<usize, HandshakeError>,
)
    ensures
        forall|output: &mut [u8]| #[trigger]
            call_ensures(encode_hybrid_shared_secret, (ml_kem, x25519, output), written) ==> {
                let after = final(output)@;
                &&& written is Ok <==> output@.len() >= 64
                &&& written is Err ==> after == output@
                &&& written matches Ok(length) ==> {
                    &&& length == 64
                    &&& after.subrange(0, 32) == ml_kem@
                    &&& after.subrange(32, 64) == x25519@
                    &&& after.skip(64) == output@.skip(64)
                }
            },
{
    assert forall|output: &mut [u8]| #[trigger]
        call_ensures(encode_hybrid_shared_secret, (ml_kem, x25519, output), written)
            && written is Ok implies {
        let after = final(output)@;
        &&& after.subrange(0, 32) == ml_kem@
        &&& after.subrange(32, 64) == x25519@
        &&& after.skip(64) == output@.skip(64)
    } by {
        let after = final(output)@;
        assert(after.subrange(0, 32) =~= ml_kem@);
        assert(after.subrange(32, 64) =~= x25519@);
        assert(after.skip(64) =~= output@.skip(64));
    }
}

} // verus!
